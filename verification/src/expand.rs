//! The expansion phase: compile-time constants (`EQU`) are substituted
//! textually and symbolic labels become position-relative numeric offsets.
//!
//! Two passes.  The first walks the lines in order, keeping a running
//! instruction index: a line that is a bare identifier binds that label to
//! the current index and disappears; a line `name EQU text` binds the
//! constant and disappears; directive and blank lines keep no index.  The
//! second pass substitutes constants — one round per definition, enough
//! for any acyclic chain of definitions; a cyclic definition leaves its
//! name in place and is then reported unknown — and resolves every
//! identifier in the fields region of a line: a label bound at
//! instruction index `k`, referenced from instruction index `j`, becomes
//! the literal `k - j`; on a directive line it becomes the absolute index
//! `k`.  An identifier that no label or constant defines is an
//! `UnknownSymbol` error.

use vstd::prelude::*;

use crate::error::{Error, ErrorKind, ErrorV};
use crate::load_file::{Opcode, PseudoOpcode};
use crate::text::{
    chars_to_string, find_from, find_from_exec, is_ident_char, is_ident_start_char,
    is_ident, is_ident_start, render_int, scan_nonspace, scan_nonspace_exec, skip_ws, skip_ws_exec,
    split_ws, split_tokens, str_to_chars, string_views, opt_string_view, subrange_chars, trim,
    trim_spec, upper_seq, upper_chars, views, push_all, push_offset_chars, chars_eq,
};

verus! {

/// A label identifier: starts like an identifier, continues like one.
pub open spec fn is_identifier(s: Seq<char>) -> bool {
    s.len() > 0 && is_ident_start_char(s[0]) && forall|i: int|
        0 <= i < s.len() ==> is_ident_char(#[trigger] s[i])
}

/// Tests a token for being a label identifier.
pub fn is_identifier_exec(s: &Vec<char>) -> (r: bool)
    ensures
        r == is_identifier(s@),
{
    if s.len() == 0 || !is_ident_start(s[0]) {
        return false;
    }
    let mut k: usize = 0;
    while k < s.len()
        invariant
            k <= s.len(),
            s@.len() > 0 && is_ident_start_char(s@[0]),
            forall|i: int| 0 <= i < k ==> is_ident_char(#[trigger] s@[i]),
        decreases s.len() - k,
    {
        if !is_ident(s[k]) {
            return false;
        }
        k = k + 1;
    }
    true
}

/// The first binding of `name` at or after `i` in an association list of
/// replacements.
pub open spec fn lookup_equ_from(
    pairs: Seq<(Seq<char>, Seq<char>)>,
    i: int,
    name: Seq<char>,
) -> Option<Seq<char>>
    decreases pairs.len() - i when 0 <= i <= pairs.len()
{
    if i >= pairs.len() {
        None
    } else if pairs[i].0 == name {
        Some(pairs[i].1)
    } else {
        lookup_equ_from(pairs, i + 1, name)
    }
}

/// The first binding of `name` in an association list of replacements.
pub open spec fn lookup_equ(pairs: Seq<(Seq<char>, Seq<char>)>, name: Seq<char>) -> Option<
    Seq<char>,
> {
    lookup_equ_from(pairs, 0, name)
}

/// The first binding of `name` at or after `i` in an association list of
/// label indexes.
pub open spec fn lookup_label_from(
    pairs: Seq<(Seq<char>, int)>,
    i: int,
    name: Seq<char>,
) -> Option<int>
    decreases pairs.len() - i when 0 <= i <= pairs.len()
{
    if i >= pairs.len() {
        None
    } else if pairs[i].0 == name {
        Some(pairs[i].1)
    } else {
        lookup_label_from(pairs, i + 1, name)
    }
}

/// The first binding of `name` in an association list of label indexes.
pub open spec fn lookup_label(pairs: Seq<(Seq<char>, int)>, name: Seq<char>) -> Option<int> {
    lookup_label_from(pairs, 0, name)
}

/// What a line is to the expander.
pub ghost enum LineClass {
    /// Nothing but blanks.
    Blank,
    /// A bare identifier: a label declaration.
    LabelDecl(Seq<char>),
    /// `name EQU text`: a constant definition.
    EquDef(Seq<char>, Seq<char>),
    /// A line whose first token is a directive keyword.
    Directive,
    /// Anything else: a line that consumes an instruction index.
    Instr,
}

/// The replacement text of an `EQU` line: everything after its second
/// token, trimmed.
pub open spec fn equ_text(line: Seq<char>) -> Seq<char> {
    let i0 = skip_ws(line, 0);
    let e1 = scan_nonspace(line, i0);
    let i1 = skip_ws(line, e1);
    let e2 = scan_nonspace(line, i1);
    trim_spec(line.subrange(e2, line.len() as int))
}

/// Classifies a line for the expander.  A sole identifier that is no
/// opcode and no directive keyword declares a label; `name EQU …` defines
/// a constant; a leading directive keyword marks a directive line; all
/// other non-blank lines are instruction lines.
pub open spec fn classify(line: Seq<char>) -> LineClass {
    let toks = split_ws(line);
    if toks.len() == 0 {
        LineClass::Blank
    } else if toks.len() == 1 && is_identifier(toks[0]) && Opcode::from_name_spec(toks[0]) is None
        && PseudoOpcode::from_name_spec(toks[0]) is None {
        LineClass::LabelDecl(toks[0])
    } else if toks.len() >= 2 && upper_seq(toks[1]) == PseudoOpcode::Equ.name_spec()
        && is_identifier(toks[0]) && Opcode::from_name_spec(toks[0]) is None
        && PseudoOpcode::from_name_spec(toks[0]) is None {
        LineClass::EquDef(toks[0], equ_text(line))
    } else if PseudoOpcode::from_name_spec(toks[0]) is Some {
        LineClass::Directive
    } else {
        LineClass::Instr
    }
}

/// The collection state of the first pass.
pub ghost struct CollectV {
    pub labels: Seq<(Seq<char>, int)>,
    pub equs: Seq<(Seq<char>, Seq<char>)>,
    pub index: int,
}

/// Folds one line into the collection state.
pub open spec fn collect_step(st: CollectV, line: Seq<char>) -> CollectV {
    match classify(line) {
        LineClass::Blank => st,
        LineClass::LabelDecl(name) => CollectV {
            labels: st.labels.push((name, st.index)),
            ..st
        },
        LineClass::EquDef(name, text) => CollectV { equs: st.equs.push((name, text)), ..st },
        LineClass::Directive => st,
        LineClass::Instr => CollectV { index: st.index + 1, ..st },
    }
}

/// Collects labels and constants from the lines at `i` on.
pub open spec fn collect_fold(lines: Seq<Seq<char>>, i: int, st: CollectV) -> CollectV
    decreases lines.len() - i when 0 <= i <= lines.len()
{
    if i >= lines.len() {
        st
    } else {
        collect_fold(lines, i + 1, collect_step(st, lines[i]))
    }
}

/// The symbol tables of a line sequence.
pub open spec fn collect_spec(lines: Seq<Seq<char>>) -> CollectV {
    collect_fold(lines, 0, CollectV { labels: Seq::empty(), equs: Seq::empty(), index: 0 })
}

/// Substitutes a complete identifier run: a bound constant becomes its
/// replacement text, anything else stays.
pub open spec fn flush_subst(cur: Seq<char>, equs: Seq<(Seq<char>, Seq<char>)>) -> Seq<char> {
    if cur.len() == 0 {
        Seq::empty()
    } else {
        match lookup_equ(equs, cur) {
            Some(text) => text,
            None => cur,
        }
    }
}

/// One substitution round over the characters of `line` from `i` on,
/// with `cur` the identifier run read so far.
pub open spec fn subst_rec(
    line: Seq<char>,
    equs: Seq<(Seq<char>, Seq<char>)>,
    i: int,
    cur: Seq<char>,
) -> Seq<char>
    decreases line.len() - i when 0 <= i <= line.len()
{
    if i >= line.len() {
        flush_subst(cur, equs)
    } else if is_ident_char(line[i]) {
        subst_rec(line, equs, i + 1, cur.push(line[i]))
    } else {
        flush_subst(cur, equs) + seq![line[i]] + subst_rec(line, equs, i + 1, Seq::empty())
    }
}

/// `n` substitution rounds over a line.
pub open spec fn subst_times(line: Seq<char>, equs: Seq<(Seq<char>, Seq<char>)>, n: nat) -> Seq<
    char,
>
    decreases n,
{
    if n == 0 {
        line
    } else {
        subst_times(subst_rec(line, equs, 0, Seq::empty()), equs, (n - 1) as nat)
    }
}

/// Resolves a complete identifier run: a label bound at index `k` becomes
/// the literal `k - base`; an unbound identifier is the error; any other
/// run (a number, for one) stays.
pub open spec fn flush_resolve(
    cur: Seq<char>,
    labels: Seq<(Seq<char>, int)>,
    base: int,
) -> Result<Seq<char>, Seq<char>> {
    if cur.len() == 0 {
        Ok(Seq::empty())
    } else {
        match lookup_label(labels, cur) {
            Some(k) => Ok(render_int(k - base)),
            None => if is_identifier(cur) {
                Err(cur)
            } else {
                Ok(cur)
            },
        }
    }
}

/// Resolves the identifier runs of `line` from `i` on against the label
/// table, with `cur` the run read so far.
pub open spec fn resolve_rec(
    line: Seq<char>,
    labels: Seq<(Seq<char>, int)>,
    base: int,
    i: int,
    cur: Seq<char>,
) -> Result<Seq<char>, Seq<char>>
    decreases line.len() - i when 0 <= i <= line.len()
{
    if i >= line.len() {
        flush_resolve(cur, labels, base)
    } else if is_ident_char(line[i]) {
        resolve_rec(line, labels, base, i + 1, cur.push(line[i]))
    } else {
        match flush_resolve(cur, labels, base) {
            Err(name) => Err(name),
            Ok(flushed) => match resolve_rec(line, labels, base, i + 1, Seq::empty()) {
                Err(name) => Err(name),
                Ok(rest) => Ok(flushed + seq![line[i]] + rest),
            },
        }
    }
}

/// Where the fields region of a substituted line starts: after the
/// operation token (and after a leading label token, where one stands),
/// mirroring the structure the deserializer reads.
pub open spec fn region_start(s: Seq<char>) -> int {
    let i0 = skip_ws(s, 0);
    if i0 >= s.len() || !is_ident_start_char(s[i0]) {
        i0
    } else {
        let e1 = scan_nonspace(s, i0);
        if is_operation_token(s.subrange(i0, e1)) {
            e1
        } else {
            let i1 = skip_ws(s, e1);
            scan_nonspace(s, i1)
        }
    }
}

/// Whether a token stands in operation position: its part before the
/// first `.` is an opcode mnemonic, or it carries a `.` at all.
pub open spec fn is_operation_token(tok: Seq<char>) -> bool {
    let d = find_from(tok, 0, '.');
    Opcode::from_name_spec(tok.subrange(0, d)) is Some || d < tok.len()
}

/// Where resolution starts on a directive line: right after its keyword.
pub open spec fn directive_region_start(s: Seq<char>) -> int {
    scan_nonspace(s, skip_ws(s, 0))
}

/// Substitutes and resolves one kept line.  `base` is the instruction
/// index for a relative reference, or zero on a directive line, whose
/// references resolve to absolute indexes.  On a directive line the
/// resolved region starts after the keyword; on an instruction line it
/// starts after the operation token.
pub open spec fn expand_line_spec(
    line: Seq<char>,
    equs: Seq<(Seq<char>, Seq<char>)>,
    labels: Seq<(Seq<char>, int)>,
    base: int,
    directive: bool,
) -> Result<Seq<char>, Seq<char>> {
    let s = subst_times(line, equs, equs.len());
    let r = if directive {
        directive_region_start(s)
    } else {
        region_start(s)
    };
    match resolve_rec(s, labels, base, r, Seq::empty()) {
        Err(name) => Err(name),
        Ok(rest) => Ok(s.subrange(0, r) + rest),
    }
}

/// Expands the lines from `i` on.  `j` is the instruction index reached
/// so far; `acc` the output built so far.  Label and constant definition
/// lines disappear; all other lines are kept in order, their symbols
/// resolved.
pub open spec fn expand_fold(
    lines: Seq<Seq<char>>,
    i: int,
    j: int,
    equs: Seq<(Seq<char>, Seq<char>)>,
    labels: Seq<(Seq<char>, int)>,
    acc: Seq<Seq<char>>,
) -> Result<Seq<Seq<char>>, ErrorV>
    decreases lines.len() - i when 0 <= i <= lines.len()
{
    if i >= lines.len() {
        Ok(acc)
    } else {
        let line = lines[i];
        match classify(line) {
            LineClass::Blank => expand_fold(lines, i + 1, j, equs, labels, acc.push(line)),
            LineClass::LabelDecl(name) => expand_fold(lines, i + 1, j, equs, labels, acc),
            LineClass::EquDef(name, text) => expand_fold(lines, i + 1, j, equs, labels, acc),
            LineClass::Directive => match expand_line_spec(line, equs, labels, 0, true) {
                Err(name) => Err(
                    ErrorV {
                        kind: ErrorKind::UnknownSymbol,
                        line_number: i + 1,
                        line,
                        token: name,
                    },
                ),
                Ok(out) => expand_fold(lines, i + 1, j, equs, labels, acc.push(out)),
            },
            LineClass::Instr => match expand_line_spec(line, equs, labels, j, false) {
                Err(name) => Err(
                    ErrorV {
                        kind: ErrorKind::UnknownSymbol,
                        line_number: i + 1,
                        line,
                        token: name,
                    },
                ),
                Ok(out) => expand_fold(lines, i + 1, j + 1, equs, labels, acc.push(out)),
            },
        }
    }
}

/// What expanding a line sequence and an origin yields: the lines with
/// every symbol resolved, or the first unknown symbol.
pub open spec fn expand_spec(lines: Seq<Seq<char>>, origin: Option<Seq<char>>) -> Result<
    (Seq<Seq<char>>, Option<Seq<char>>),
    ErrorV,
> {
    let tables = collect_spec(lines);
    match expand_fold(lines, 0, 0, tables.equs, tables.labels, Seq::empty()) {
        Err(e) => Err(e),
        Ok(out) => match origin {
            None => Ok((out, None)),
            Some(o) => {
                let s = subst_times(o, tables.equs, tables.equs.len());
                match resolve_rec(s, tables.labels, 0, 0, Seq::empty()) {
                    Err(name) => Err(
                        ErrorV {
                            kind: ErrorKind::UnknownSymbol,
                            line_number: 0,
                            line: o,
                            token: name,
                        },
                    ),
                    Ok(r) => Ok((out, Some(r))),
                }
            },
        },
    }
}

/// Label offset correctness: a label bound at instruction index `k`,
/// referenced from the instruction at index `j`, resolves to exactly the
/// literal `k - j` — negative, zero or positive.  On a directive line the
/// base is zero, so the label resolves to its absolute index.
pub proof fn lemma_label_offset(
    labels: Seq<(Seq<char>, int)>,
    name: Seq<char>,
    k: int,
    j: int,
)
    requires
        name.len() > 0,
        lookup_label(labels, name) == Some(k),
    ensures
        flush_resolve(name, labels, j) == Ok::<Seq<char>, Seq<char>>(render_int(k - j)),
{
}

/// A bare label declaration binds its name to the instruction index
/// reached so far, and consumes no index itself.
pub proof fn lemma_label_binds_current_index(st: CollectV, line: Seq<char>, name: Seq<char>)
    requires
        classify(line) == LineClass::LabelDecl(name),
    ensures
        collect_step(st, line).labels == st.labels.push((name, st.index)),
        collect_step(st, line).index == st.index,
{
}

/// A reference to an identifier that no label defines resolves to a
/// failure naming exactly that identifier — never to a silently-zeroed
/// field.
pub proof fn lemma_unknown_symbol(
    labels: Seq<(Seq<char>, int)>,
    name: Seq<char>,
    base: int,
)
    requires
        is_identifier(name),
        lookup_label(labels, name) is None,
    ensures
        flush_resolve(name, labels, base) == Err::<Seq<char>, Seq<char>>(name),
{
}

/// The expansion phase fails only with an unknown-symbol error: every
/// other condition passes through as text for the later phases to judge.
pub proof fn lemma_expand_fails_only_unknown(
    lines: Seq<Seq<char>>,
    i: int,
    j: int,
    equs: Seq<(Seq<char>, Seq<char>)>,
    labels: Seq<(Seq<char>, int)>,
    acc: Seq<Seq<char>>,
)
    requires
        0 <= i <= lines.len(),
    ensures
        expand_fold(lines, i, j, equs, labels, acc) matches Err(e) ==> e.kind
            == ErrorKind::UnknownSymbol,
    decreases lines.len() - i,
{
    if i < lines.len() {
        let line = lines[i];
        match classify(line) {
            LineClass::Blank => lemma_expand_fails_only_unknown(
                lines,
                i + 1,
                j,
                equs,
                labels,
                acc.push(line),
            ),
            LineClass::LabelDecl(_) => lemma_expand_fails_only_unknown(
                lines,
                i + 1,
                j,
                equs,
                labels,
                acc,
            ),
            LineClass::EquDef(_, _) => lemma_expand_fails_only_unknown(
                lines,
                i + 1,
                j,
                equs,
                labels,
                acc,
            ),
            LineClass::Directive => {
                match expand_line_spec(line, equs, labels, 0, true) {
                    Ok(out) => lemma_expand_fails_only_unknown(
                        lines,
                        i + 1,
                        j,
                        equs,
                        labels,
                        acc.push(out),
                    ),
                    Err(_) => {},
                }
            },
            LineClass::Instr => {
                match expand_line_spec(line, equs, labels, j, false) {
                    Ok(out) => lemma_expand_fails_only_unknown(
                        lines,
                        i + 1,
                        j + 1,
                        equs,
                        labels,
                        acc.push(out),
                    ),
                    Err(_) => {},
                }
            },
        }
    }
}

/// Every name in a label table is an identifier (the collection pass only
/// binds such names).
pub open spec fn labels_are_identifiers(pairs: Seq<(Seq<char>, int)>) -> bool {
    forall|p: int| 0 <= p < pairs.len() ==> is_identifier(#[trigger] pairs[p].0)
}

/// A run that cannot start an identifier matches no label name.
pub proof fn lemma_lookup_non_identifier(pairs: Seq<(Seq<char>, int)>, i: int, cur: Seq<char>)
    requires
        0 <= i <= pairs.len(),
        labels_are_identifiers(pairs),
        cur.len() > 0,
        !is_ident_start_char(cur[0]),
    ensures
        lookup_label_from(pairs, i, cur) is None,
    decreases pairs.len() - i,
{
    if i < pairs.len() {
        assert(is_identifier(pairs[i].0));
        assert(pairs[i].0 != cur);
        lemma_lookup_non_identifier(pairs, i + 1, cur);
    }
}

/// A region in which no identifier can start — one of blanks, sigils,
/// digits, signs and commas — resolves to itself, whatever labels are
/// bound.
pub proof fn lemma_resolve_no_symbols(
    line: Seq<char>,
    labels: Seq<(Seq<char>, int)>,
    base: int,
    i: int,
    cur: Seq<char>,
)
    requires
        0 <= i <= line.len(),
        labels_are_identifiers(labels),
        forall|k: int| i <= k < line.len() ==> !is_ident_start_char(#[trigger] line[k]),
        cur.len() > 0 ==> !is_ident_start_char(cur[0]),
    ensures
        resolve_rec(line, labels, base, i, cur) == Ok::<Seq<char>, Seq<char>>(cur + line.skip(i)),
    decreases line.len() - i,
{
    if i >= line.len() {
        if cur.len() == 0 {
            assert(cur + line.skip(i) =~= Seq::<char>::empty());
        } else {
            lemma_lookup_non_identifier(labels, 0, cur);
            assert(!is_identifier(cur));
            assert(cur + line.skip(i) =~= cur);
        }
    } else if is_ident_char(line[i]) {
        lemma_resolve_no_symbols(line, labels, base, i + 1, cur.push(line[i]));
        assert(cur.push(line[i]) + line.skip(i + 1) =~= cur + line.skip(i));
    } else {
        lemma_resolve_no_symbols(line, labels, base, i + 1, Seq::empty());
        if cur.len() == 0 {
            assert(flush_resolve(cur, labels, base) == Ok::<Seq<char>, Seq<char>>(Seq::empty()));
            assert(Seq::<char>::empty() + seq![line[i]] + (Seq::<char>::empty() + line.skip(i + 1))
                =~= cur + line.skip(i));
        } else {
            lemma_lookup_non_identifier(labels, 0, cur);
            assert(!is_identifier(cur));
            assert(cur + seq![line[i]] + (Seq::<char>::empty() + line.skip(i + 1)) =~= cur
                + line.skip(i));
        }
    }
}

/// A suffix that is one unbroken identifier run resolves as one complete
/// run.
pub proof fn lemma_resolve_ident_tail(
    line: Seq<char>,
    labels: Seq<(Seq<char>, int)>,
    base: int,
    i: int,
    cur: Seq<char>,
)
    requires
        0 <= i <= line.len(),
        forall|k: int| i <= k < line.len() ==> is_ident_char(#[trigger] line[k]),
    ensures
        resolve_rec(line, labels, base, i, cur) == flush_resolve(cur + line.skip(i), labels, base),
    decreases line.len() - i,
{
    if i == line.len() {
        assert(cur + line.skip(i) =~= cur);
    } else {
        lemma_resolve_ident_tail(line, labels, base, i + 1, cur.push(line[i]));
        assert(cur.push(line[i]) + line.skip(i + 1) =~= cur + line.skip(i));
    }
}

/// The views of an association list of replacement texts.
pub open spec fn equ_views(s: Seq<(Vec<char>, Vec<char>)>) -> Seq<(Seq<char>, Seq<char>)> {
    s.map_values(|p: (Vec<char>, Vec<char>)| (p.0@, p.1@))
}

/// The views of an association list of label indexes.
pub open spec fn label_views(s: Seq<(Vec<char>, usize)>) -> Seq<(Seq<char>, int)> {
    s.map_values(|p: (Vec<char>, usize)| (p.0@, p.1 as int))
}

/// Finds the position of the first binding of `name` among the constants.
fn lookup_equ_exec(equs: &Vec<(Vec<char>, Vec<char>)>, i: usize, name: &Vec<char>) -> (r: Option<
    usize,
>)
    requires
        i <= equs.len(),
    ensures
        match r {
            Some(p) => p < equs@.len() && lookup_equ_from(equ_views(equs@), i as int, name@)
                == Some(equs@[p as int].1@),
            None => lookup_equ_from(equ_views(equs@), i as int, name@) is None,
        },
    decreases equs.len() - i,
{
    if i >= equs.len() {
        None
    } else if chars_eq(&equs[i].0, name) {
        Some(i)
    } else {
        lookup_equ_exec(equs, i + 1, name)
    }
}

/// Finds the first binding of `name` among the labels.
fn lookup_label_exec(labels: &Vec<(Vec<char>, usize)>, i: usize, name: &Vec<char>) -> (r: Option<
    usize,
>)
    requires
        i <= labels.len(),
    ensures
        match r {
            Some(k) => lookup_label_from(label_views(labels@), i as int, name@) == Some(k as int),
            None => lookup_label_from(label_views(labels@), i as int, name@) is None,
        },
    decreases labels.len() - i,
{
    if i >= labels.len() {
        None
    } else if chars_eq(&labels[i].0, name) {
        Some(labels[i].1)
    } else {
        lookup_label_exec(labels, i + 1, name)
    }
}

/// The replacement text of an `EQU` line.
fn equ_text_exec(line: &Vec<char>) -> (r: Vec<char>)
    ensures
        r@ == equ_text(line@),
{
    let i0 = skip_ws_exec(line, 0);
    let e1 = scan_nonspace_exec(line, i0);
    let i1 = skip_ws_exec(line, e1);
    let e2 = scan_nonspace_exec(line, i1);
    trim(&subrange_chars(line, e2, line.len()))
}

/// What a line is to the expander, with owned token text.
enum ClassRes {
    Blank,
    LabelDecl(Vec<char>),
    EquDef(Vec<char>, Vec<char>),
    Directive,
    Instr,
}

impl ClassRes {
    /// The mathematical image of this classification.
    spec fn view_spec(&self) -> LineClass {
        match self {
            ClassRes::Blank => LineClass::Blank,
            ClassRes::LabelDecl(name) => LineClass::LabelDecl(name@),
            ClassRes::EquDef(name, text) => LineClass::EquDef(name@, text@),
            ClassRes::Directive => LineClass::Directive,
            ClassRes::Instr => LineClass::Instr,
        }
    }
}

/// Classifies a line for the expander.
fn classify_exec(line: &Vec<char>) -> (r: ClassRes)
    ensures
        r.view_spec() == classify(line@),
{
    let toks = split_tokens(line);
    proof {
        assert(views(toks@) == split_ws(line@));
    }
    if toks.len() == 0 {
        return ClassRes::Blank;
    }
    let first_plain = is_identifier_exec(&toks[0]) && Opcode::from_chars(&toks[0]).is_none()
        && PseudoOpcode::from_chars(&toks[0]).is_none();
    if toks.len() == 1 && first_plain {
        let name = subrange_chars(&toks[0], 0, toks[0].len());
        proof {
            assert(name@ =~= views(toks@)[0]);
        }
        return ClassRes::LabelDecl(name);
    }
    if toks.len() >= 2 && first_plain {
        let u = upper_chars(&toks[1]);
        proof {
            reveal_strlit("EQU");
            assert("EQU"@ =~= PseudoOpcode::Equ.name_spec());
        }
        if chars_eq(&u, &str_to_chars("EQU")) {
            let name = subrange_chars(&toks[0], 0, toks[0].len());
            proof {
                assert(name@ =~= views(toks@)[0]);
            }
            return ClassRes::EquDef(name, equ_text_exec(line));
        }
    }
    if PseudoOpcode::from_chars(&toks[0]).is_some() {
        ClassRes::Directive
    } else {
        ClassRes::Instr
    }
}

/// Appends the substituted form of a complete identifier run.
fn flush_subst_exec(cur: &Vec<char>, equs: &Vec<(Vec<char>, Vec<char>)>, out: &mut Vec<char>)
    ensures
        final(out)@ == old(out)@ + flush_subst(cur@, equ_views(equs@)),
{
    if cur.len() == 0 {
        return ;
    }
    match lookup_equ_exec(equs, 0, cur) {
        Some(p) => push_all(out, &equs[p].1),
        None => push_all(out, cur),
    }
}

/// One substitution round over a line.
fn subst_round(line: &Vec<char>, equs: &Vec<(Vec<char>, Vec<char>)>) -> (r: Vec<char>)
    ensures
        r@ == subst_rec(line@, equ_views(equs@), 0, Seq::empty()),
{
    let ghost eqv = equ_views(equs@);
    let mut out: Vec<char> = Vec::new();
    let mut cur: Vec<char> = Vec::new();
    let mut i: usize = 0;
    while i < line.len()
        invariant
            i <= line.len(),
            subst_rec(line@, eqv, 0, Seq::empty()) == out@ + subst_rec(
                line@,
                eqv,
                i as int,
                cur@,
            ),
            eqv == equ_views(equs@),
        decreases line.len() - i,
    {
        let c = line[i];
        if is_ident(c) {
            cur.push(c);
        } else {
            flush_subst_exec(&cur, equs, &mut out);
            out.push(c);
            cur = Vec::new();
            proof {
                assert(cur@ =~= Seq::<char>::empty());
            }
        }
        i = i + 1;
    }
    flush_subst_exec(&cur, equs, &mut out);
    out
}

/// Substitutes constants to a fixed depth: one round per definition.
fn subst_full(line: &Vec<char>, equs: &Vec<(Vec<char>, Vec<char>)>) -> (r: Vec<char>)
    ensures
        r@ == subst_times(line@, equ_views(equs@), equ_views(equs@).len()),
{
    let n = equs.len();
    let mut cur = subrange_chars(line, 0, line.len());
    proof {
        assert(cur@ =~= line@);
    }
    let mut t: usize = 0;
    while t < n
        invariant
            t <= n,
            n == equ_views(equs@).len(),
            subst_times(line@, equ_views(equs@), n as nat) == subst_times(
                cur@,
                equ_views(equs@),
                (n - t) as nat,
            ),
        decreases n - t,
    {
        cur = subst_round(&cur, equs);
        t = t + 1;
    }
    cur
}

/// Appends the resolved form of a complete identifier run, or returns the
/// unknown name.
fn flush_resolve_exec(
    cur: &Vec<char>,
    labels: &Vec<(Vec<char>, usize)>,
    base: usize,
    out: &mut Vec<char>,
) -> (r: Result<(), Vec<char>>)
    ensures
        match r {
            Ok(()) => flush_resolve(cur@, label_views(labels@), base as int) is Ok && final(out)@
                == old(out)@ + flush_resolve(cur@, label_views(labels@), base as int)->Ok_0,
            Err(name) => flush_resolve(cur@, label_views(labels@), base as int) == Err::<
                Seq<char>,
                Seq<char>,
            >(name@) && final(out)@ == old(out)@,
        },
{
    if cur.len() == 0 {
        return Ok(());
    }
    match lookup_label_exec(labels, 0, cur) {
        Some(k) => {
            push_offset_chars(k, base, out);
            Ok(())
        },
        None => {
            if is_identifier_exec(cur) {
                let name = subrange_chars(cur, 0, cur.len());
                proof {
                    assert(name@ =~= cur@);
                }
                Err(name)
            } else {
                push_all(out, cur);
                Ok(())
            }
        },
    }
}

/// Resolves the identifier runs of a line from `from` on, appending to
/// the already-copied prefix.
fn resolve_from(
    line: &Vec<char>,
    labels: &Vec<(Vec<char>, usize)>,
    base: usize,
    from: usize,
    prefix: Vec<char>,
) -> (r: Result<Vec<char>, Vec<char>>)
    requires
        from <= line.len(),
    ensures
        match r {
            Ok(out) => resolve_rec(line@, label_views(labels@), base as int, from as int,
                Seq::empty()) is Ok && out@ == prefix@ + resolve_rec(
                line@,
                label_views(labels@),
                base as int,
                from as int,
                Seq::empty(),
            )->Ok_0,
            Err(name) => resolve_rec(line@, label_views(labels@), base as int, from as int,
                Seq::empty()) == Err::<Seq<char>, Seq<char>>(name@),
        },
{
    let ghost lv = label_views(labels@);
    let mut out = prefix;
    let mut cur: Vec<char> = Vec::new();
    let mut i: usize = from;
    while i < line.len()
        invariant
            from <= i <= line.len(),
            lv == label_views(labels@),
            ({
                let full = resolve_rec(line@, lv, base as int, from as int, Seq::empty());
                let rest = resolve_rec(line@, lv, base as int, i as int, cur@);
                match full {
                    Ok(f) => rest is Ok && prefix@ + f == out@ + rest->Ok_0,
                    Err(name) => rest == Err::<Seq<char>, Seq<char>>(name),
                }
            }),
        decreases line.len() - i,
    {
        let c = line[i];
        if is_ident(c) {
            cur.push(c);
        } else {
            match flush_resolve_exec(&cur, labels, base, &mut out) {
                Ok(()) => {},
                Err(name) => {
                    return Err(name);
                },
            }
            out.push(c);
            cur = Vec::new();
            proof {
                assert(cur@ =~= Seq::<char>::empty());
            }
        }
        i = i + 1;
    }
    match flush_resolve_exec(&cur, labels, base, &mut out) {
        Ok(()) => Ok(out),
        Err(name) => Err(name),
    }
}

/// Where the fields region of a substituted line starts.
fn region_start_exec(s: &Vec<char>) -> (r: usize)
    ensures
        r == region_start(s@),
        r <= s.len(),
{
    let i0 = skip_ws_exec(s, 0);
    if i0 >= s.len() || !is_ident_start(s[i0]) {
        i0
    } else {
        let e1 = scan_nonspace_exec(s, i0);
        let tok = subrange_chars(s, i0, e1);
        let d = find_from_exec(&tok, 0, '.');
        let pre = subrange_chars(&tok, 0, d);
        if Opcode::from_chars(&pre).is_some() || d < tok.len() {
            proof {
                assert(is_operation_token(s@.subrange(i0 as int, e1 as int)));
            }
            e1
        } else {
            proof {
                assert(!is_operation_token(s@.subrange(i0 as int, e1 as int)));
            }
            let i1 = skip_ws_exec(s, e1);
            scan_nonspace_exec(s, i1)
        }
    }
}

/// Substitutes and resolves one kept line.
fn expand_line_exec(
    line: &Vec<char>,
    equs: &Vec<(Vec<char>, Vec<char>)>,
    labels: &Vec<(Vec<char>, usize)>,
    base: usize,
    directive: bool,
) -> (r: Result<Vec<char>, Vec<char>>)
    ensures
        match r {
            Ok(out) => expand_line_spec(line@, equ_views(equs@), label_views(labels@), base as int,
                directive) == Ok::<Seq<char>, Seq<char>>(out@),
            Err(name) => expand_line_spec(
                line@,
                equ_views(equs@),
                label_views(labels@),
                base as int,
                directive,
            ) == Err::<Seq<char>, Seq<char>>(name@),
        },
{
    let s = subst_full(line, equs);
    let rs = if directive {
        let i0 = skip_ws_exec(&s, 0);
        scan_nonspace_exec(&s, i0)
    } else {
        region_start_exec(&s)
    };
    let prefix = subrange_chars(&s, 0, rs);
    resolve_from(&s, labels, base, rs, prefix)
}

/// The result of expansion: the resolved lines and the resolved origin.
#[derive(Debug, PartialEq)]
pub struct Expanded {
    pub lines: Vec<String>,
    pub origin: Option<String>,
}

/// Resolves compile-time constants and labels: definition lines disappear,
/// every label reference becomes the signed distance from the instruction
/// that makes it to the instruction it names, and the origin, where one
/// was recorded, becomes an absolute instruction index.  A reference to an
/// identifier that nothing defines is an `UnknownSymbol` error naming it.
pub fn expand(lines: Vec<String>, origin: Option<String>) -> (r: Result<Expanded, Error>)
    ensures
        match r {
            Ok(ex) => expand_spec(string_views(lines@), opt_string_view(origin)) == Ok::<
                (Seq<Seq<char>>, Option<Seq<char>>),
                ErrorV,
            >((string_views(ex.lines@), opt_string_view(ex.origin))),
            Err(e) => expand_spec(string_views(lines@), opt_string_view(origin)) == Err::<
                (Seq<Seq<char>>, Option<Seq<char>>),
                ErrorV,
            >(e@),
        },
{
    let ghost all = string_views(lines@);
    let ghost origin_v = opt_string_view(origin);
    // first pass: collect labels and constants
    let mut labels: Vec<(Vec<char>, usize)> = Vec::new();
    let mut equs: Vec<(Vec<char>, Vec<char>)> = Vec::new();
    let mut index: usize = 0;
    let mut i: usize = 0;
    proof {
        assert(label_views(labels@) =~= Seq::<(Seq<char>, int)>::empty());
        assert(equ_views(equs@) =~= Seq::<(Seq<char>, Seq<char>)>::empty());
    }
    while i < lines.len()
        invariant
            i <= lines.len(),
            all == string_views(lines@),
            all.len() == lines@.len(),
            forall|j: int| 0 <= j < all.len() ==> all[j] == lines@[j]@,
            index <= i,
            collect_fold(all, i as int, CollectV {
                labels: label_views(labels@),
                equs: equ_views(equs@),
                index: index as int,
            }) == collect_spec(all),
        decreases lines.len() - i,
    {
        let line = str_to_chars(lines[i].as_str());
        let ghost pre_labels = labels@;
        let ghost pre_equs = equs@;
        match classify_exec(&line) {
            ClassRes::Blank => {},
            ClassRes::LabelDecl(name) => {
                labels.push((name, index));
                proof {
                    assert(label_views(labels@) =~= label_views(pre_labels).push(
                        (labels@.last().0@, labels@.last().1 as int),
                    ));
                }
            },
            ClassRes::EquDef(name, text) => {
                equs.push((name, text));
                proof {
                    assert(equ_views(equs@) =~= equ_views(pre_equs).push(
                        (equs@.last().0@, equs@.last().1@),
                    ));
                }
            },
            ClassRes::Directive => {},
            ClassRes::Instr => {
                index = index + 1;
            },
        }
        i = i + 1;
    }
    let ghost tables = collect_spec(all);
    proof {
        assert(tables.labels == label_views(labels@));
        assert(tables.equs == equ_views(equs@));
    }
    // second pass: substitute and resolve
    let mut out: Vec<String> = Vec::new();
    let mut j: usize = 0;
    let mut i2: usize = 0;
    proof {
        assert(string_views(out@) =~= Seq::<Seq<char>>::empty());
    }
    while i2 < lines.len()
        invariant
            i2 <= lines.len(),
            all == string_views(lines@),
            all.len() == lines@.len(),
            forall|k: int| 0 <= k < all.len() ==> all[k] == lines@[k]@,
            j <= i2,
            tables == collect_spec(all),
            origin_v == opt_string_view(origin),
            tables.labels == label_views(labels@),
            tables.equs == equ_views(equs@),
            expand_fold(all, i2 as int, j as int, tables.equs, tables.labels, string_views(out@))
                == expand_fold(all, 0, 0, tables.equs, tables.labels, Seq::empty()),
        decreases lines.len() - i2,
    {
        let line = str_to_chars(lines[i2].as_str());
        let ghost pre_out = out@;
        match classify_exec(&line) {
            ClassRes::Blank => {
                out.push(chars_to_string(&line));
                proof {
                    assert(string_views(out@) =~= string_views(pre_out).push(line@));
                }
            },
            ClassRes::LabelDecl(name) => {},
            ClassRes::EquDef(name, text) => {},
            ClassRes::Directive => {
                match expand_line_exec(&line, &equs, &labels, 0, true) {
                    Ok(resolved) => {
                        out.push(chars_to_string(&resolved));
                        proof {
                            assert(string_views(out@) =~= string_views(pre_out).push(resolved@));
                        }
                    },
                    Err(name) => {
                        proof {
                            assert(classify(all[i2 as int]) == LineClass::Directive);
                            assert(expand_spec(all, origin_v) == Err::<
                                (Seq<Seq<char>>, Option<Seq<char>>),
                                ErrorV,
                            >(
                                ErrorV {
                                    kind: ErrorKind::UnknownSymbol,
                                    line_number: i2 + 1,
                                    line: all[i2 as int],
                                    token: name@,
                                },
                            ));
                        }
                        return Err(Error {
                            kind: ErrorKind::UnknownSymbol,
                            line_number: i2 + 1,
                            line: chars_to_string(&line),
                            token: chars_to_string(&name),
                        });
                    },
                }
            },
            ClassRes::Instr => {
                match expand_line_exec(&line, &equs, &labels, j, false) {
                    Ok(resolved) => {
                        out.push(chars_to_string(&resolved));
                        j = j + 1;
                        proof {
                            assert(string_views(out@) =~= string_views(pre_out).push(resolved@));
                        }
                    },
                    Err(name) => {
                        proof {
                            assert(classify(all[i2 as int]) == LineClass::Instr);
                            assert(expand_spec(all, origin_v) == Err::<
                                (Seq<Seq<char>>, Option<Seq<char>>),
                                ErrorV,
                            >(
                                ErrorV {
                                    kind: ErrorKind::UnknownSymbol,
                                    line_number: i2 + 1,
                                    line: all[i2 as int],
                                    token: name@,
                                },
                            ));
                        }
                        return Err(Error {
                            kind: ErrorKind::UnknownSymbol,
                            line_number: i2 + 1,
                            line: chars_to_string(&line),
                            token: chars_to_string(&name),
                        });
                    },
                }
            },
        }
        i2 = i2 + 1;
    }
    // the origin, where one was recorded, resolves absolutely
    match origin {
        None => Ok(Expanded { lines: out, origin: None }),
        Some(o) => {
            let ochars = str_to_chars(o.as_str());
            let s = subst_full(&ochars, &equs);
            match resolve_from(&s, &labels, 0, 0, Vec::new()) {
                Ok(resolved) => {
                    proof {
                        assert(Seq::<char>::empty() + resolve_rec(
                            s@,
                            tables.labels,
                            0,
                            0,
                            Seq::empty(),
                        )->Ok_0 =~= resolve_rec(s@, tables.labels, 0, 0, Seq::empty())->Ok_0);
                    }
                    Ok(Expanded { lines: out, origin: Some(chars_to_string(&resolved)) })
                },
                Err(name) => Err(
                    Error {
                        kind: ErrorKind::UnknownSymbol,
                        line_number: 0,
                        line: o,
                        token: chars_to_string(&name),
                    },
                ),
            }
        },
    }
}

} // verus!
