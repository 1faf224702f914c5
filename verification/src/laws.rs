//! Cross-phase guarantees: running the full pipeline over the canonical
//! rendering of any instruction sequence reproduces that sequence.

use vstd::prelude::*;

use crate::clean::{apply_comment, clean_fold, clean_init, clean_spec, line_code, CleanStateV, Info};
use crate::deserialize::{lemma_deserialize_round_trip, render_lines};
use crate::error::ErrorV;
use crate::expand::{
    classify, collect_fold, collect_spec, expand_fold, expand_line_spec, expand_spec, flush_resolve,
    is_identifier, is_operation_token, labels_are_identifiers, lemma_resolve_ident_tail,
    lemma_resolve_no_symbols, lookup_label, region_start, resolve_rec, subst_times, CollectV,
    LineClass,
};
use crate::load_file::{
    lemma_opcode_canonical_round_trip, lemma_modifier_name_shape, lemma_opcode_name_shape,
    lemma_opcode_name_not_pseudo, lemma_sigil_shape, render_all_spec, Instruction, Opcode,
    PseudoOpcode,
};
use crate::phase::parse_spec;
use crate::text::{
    find_from, is_ident_char, is_ident_start_char, is_space_char, lemma_find_from_exact,
    lemma_render_int_shape, lemma_scan_nonspace_exact, lemma_skip_ws_exact, lemma_split_nl_append,
    lemma_split_ws_head, lemma_split_ws_pair, lemma_split_ws_single_run, lemma_trim_identity,
    render_int, split_nl, split_ws,
};

verus! {

/// The character-level shape of a canonical instruction line: it holds
/// neither newline nor semicolon, begins and ends with visible
/// characters, survives cleaning verbatim, counts as an instruction line
/// to the expander, and resolves to itself when no symbols are bound.
proof fn lemma_render_line_facts(inst: Instruction)
    ensures
        ({
            let s = inst.render_spec();
            &&& s.len() > 0
            &&& forall|k: int| 0 <= k < s.len() ==> #[trigger] s[k] != '\n'
            &&& line_code(s) == s
            &&& classify(s) == LineClass::Instr
            &&& forall|meta: crate::clean::InfoV| #[trigger] apply_comment(meta, s) == meta
            &&& forall|labels: Seq<(Seq<char>, int)>, base: int|
                labels_are_identifiers(labels) ==> #[trigger] expand_line_spec(
                    s,
                    Seq::empty(),
                    labels,
                    base,
                    false,
                ) == Ok::<Seq<char>, Seq<char>>(s)
        }),
{
    let op = inst.opcode;
    let md = inst.modifier;
    let fa = inst.field_a;
    let fb = inst.field_b;
    let name = op.name_spec();
    let mn = md.name_spec();
    let ra = render_int(fa.value as int);
    let rb = render_int(fb.value as int);
    let sa = fa.address_mode.sigil_spec();
    let sb = fb.address_mode.sigil_spec();
    lemma_opcode_name_shape(op);
    lemma_modifier_name_shape(md);
    lemma_sigil_shape(fa.address_mode);
    lemma_sigil_shape(fb.address_mode);
    lemma_render_int_shape(fa.value as int);
    lemma_render_int_shape(fb.value as int);
    let s = inst.render_spec();
    let m1 = 4 + mn.len() as int;
    let a0 = m1 + 2;
    let a1 = a0 + ra.len() as int;
    let b0 = a1 + 3;
    let b1 = b0 + rb.len() as int;
    assert(s =~= name + seq!['.'] + mn + seq![' '] + (seq![sa] + ra) + seq![',', ' '] + (seq![sb]
        + rb));
    assert(s.len() == b1);
    assert(forall|i: int| 0 <= i < 3 ==> s[i] == #[trigger] name[i]);
    assert(s[3] == '.');
    assert(forall|i: int| 0 <= i < mn.len() ==> s[4 + i] == #[trigger] mn[i]);
    assert(s[m1] == ' ');
    assert(s[m1 + 1] == sa);
    assert(forall|i: int| 0 <= i < ra.len() ==> s[a0 + i] == #[trigger] ra[i]);
    assert(s[a1] == ',');
    assert(s[a1 + 1] == ' ');
    assert(s[a1 + 2] == sb);
    assert(forall|i: int| 0 <= i < rb.len() ==> s[b0 + i] == #[trigger] rb[i]);
    // no newline and no semicolon anywhere
    assert forall|k: int| 0 <= k < s.len() implies #[trigger] s[k] != '\n' && s[k] != ';' by {
        if a0 <= k < a1 {
            assert(s[k] == ra[k - a0]);
        }
        if b0 <= k < b1 {
            assert(s[k] == rb[k - b0]);
        }
    }
    // the line survives cleaning verbatim
    lemma_find_from_exact(s, 0, s.len() as int, ';');
    assert(s.subrange(0, s.len() as int) =~= s);
    assert(!is_space_char(s[0]));
    assert(s.last() == rb[rb.len() - 1]);
    assert(!is_space_char(s.last()));
    lemma_trim_identity(s);
    assert(line_code(s) == s);
    assert forall|meta: crate::clean::InfoV| #[trigger] apply_comment(meta, s) == meta by {
        assert(find_from(s, 0, ';') == s.len());
    }
    // the expander counts it as an instruction line
    assert(forall|k: int| 0 <= k < m1 ==> !is_space_char(#[trigger] s[k]));
    lemma_scan_nonspace_exact(s, 0, m1);
    lemma_split_ws_head(s, 0, Seq::empty());
    let tok = s.subrange(0, m1);
    assert(split_ws(s)[0] == Seq::<char>::empty() + tok);
    assert(Seq::<char>::empty() + tok =~= tok);
    assert(tok[3] == '.');
    assert(!is_ident_char(tok[3]));
    assert(!crate::expand::is_identifier(tok));
    assert(tok.len() == m1);
    assert(crate::text::upper_seq(tok).len() == m1);
    assert(PseudoOpcode::from_name_spec(tok) is None);
    assert(split_ws(s).len() >= 1);
    assert(classify(s) == LineClass::Instr);
    // the fields region holds no identifier start, so with no symbols
    // bound the line resolves to itself
    lemma_skip_ws_exact(s, 0, 0);
    assert(is_ident_start_char(s[0]));
    lemma_find_from_exact(tok, 0, 3, '.');
    assert(tok.subrange(0, 3) =~= name);
    assert(is_operation_token(tok));
    assert(region_start(s) == m1);
    assert forall|k: int| m1 <= k < s.len() implies !is_ident_start_char(#[trigger] s[k]) by {
        if a0 <= k < a1 {
            assert(s[k] == ra[k - a0]);
        }
        if b0 <= k < b1 {
            assert(s[k] == rb[k - b0]);
        }
    }
    assert forall|labels: Seq<(Seq<char>, int)>, base: int|
        labels_are_identifiers(labels) implies #[trigger] expand_line_spec(
        s,
        Seq::empty(),
        labels,
        base,
        false,
    ) == Ok::<Seq<char>, Seq<char>>(s) by {
        assert(subst_times(s, Seq::empty(), 0) == s);
        lemma_resolve_no_symbols(s, labels, base, m1, Seq::empty());
        assert(s.subrange(0, m1) + (Seq::<char>::empty() + s.skip(m1)) =~= s);
    }
}

/// Cleaning canonical lines keeps them all, in order, and touches neither
/// metadata nor origin nor warnings.
proof fn lemma_clean_fold_render(instructions: Seq<Instruction>, i: int, st: CleanStateV)
    requires
        0 <= i <= instructions.len(),
    ensures
        clean_fold(render_lines(instructions), i, st) == (CleanStateV {
            lines: st.lines + render_lines(instructions).skip(i),
            ..st
        }),
    decreases instructions.len() - i,
{
    let lines = render_lines(instructions);
    if i == instructions.len() {
        assert(st.lines + lines.skip(i) =~= st.lines);
    } else {
        lemma_render_line_facts(instructions[i]);
        let line = lines[i];
        let st1 = crate::clean::clean_step(st, line);
        assert(st1 == CleanStateV { lines: st.lines.push(line), ..st });
        lemma_clean_fold_render(instructions, i + 1, st1);
        assert(st.lines.push(line) + lines.skip(i + 1) =~= st.lines + lines.skip(i));
    }
}

/// Collecting over canonical lines binds nothing: no labels, no
/// constants.
proof fn lemma_collect_fold_render(instructions: Seq<Instruction>, i: int, st: CollectV)
    requires
        0 <= i <= instructions.len(),
    ensures
        collect_fold(render_lines(instructions), i, st).labels == st.labels,
        collect_fold(render_lines(instructions), i, st).equs == st.equs,
    decreases instructions.len() - i,
{
    if i < instructions.len() {
        lemma_render_line_facts(instructions[i]);
        lemma_collect_fold_render(
            instructions,
            i + 1,
            crate::expand::collect_step(st, render_lines(instructions)[i]),
        );
    }
}

/// Expanding canonical lines with nothing bound passes every line through
/// unchanged.
proof fn lemma_expand_fold_render(
    instructions: Seq<Instruction>,
    i: int,
    j: int,
    acc: Seq<Seq<char>>,
)
    requires
        0 <= i <= instructions.len(),
    ensures
        expand_fold(render_lines(instructions), i, j, Seq::empty(), Seq::empty(), acc) == Ok::<
            Seq<Seq<char>>,
            ErrorV,
        >(acc + render_lines(instructions).skip(i)),
    decreases instructions.len() - i,
{
    let lines = render_lines(instructions);
    if i == instructions.len() {
        assert(acc + lines.skip(i) =~= acc);
    } else {
        lemma_render_line_facts(instructions[i]);
        let line = lines[i];
        assert(labels_are_identifiers(Seq::empty()));
        lemma_expand_fold_render(instructions, i + 1, j + 1, acc.push(line));
        assert(acc.push(line) + lines.skip(i + 1) =~= acc + lines.skip(i));
    }
}

/// Splitting the canonical dump of an instruction sequence into lines
/// gives exactly the canonical line of each instruction.
proof fn lemma_split_render_all(instructions: Seq<Instruction>)
    ensures
        split_nl(render_all_spec(instructions)) == render_lines(instructions),
    decreases instructions.len(),
{
    if instructions.len() == 0 {
        assert(split_nl(render_all_spec(instructions)) =~= render_lines(instructions));
    } else {
        let front = instructions.drop_last();
        let last = instructions.last();
        lemma_split_render_all(front);
        lemma_render_line_facts(last);
        let x = render_all_spec(front);
        if front.len() > 0 {
            assert(x.last() == '\n');
        }
        lemma_split_nl_append(x, last.render_spec());
        assert(render_lines(instructions) =~= render_lines(front).push(last.render_spec()));
    }
}

/// A name fit to declare a label: an identifier that is no opcode
/// mnemonic and no directive keyword.
pub open spec fn plain_label_name(name: Seq<char>) -> bool {
    &&& is_identifier(name)
    &&& Opcode::from_name_spec(name) is None
    &&& PseudoOpcode::from_name_spec(name) is None
    &&& crate::text::upper_seq(name) != PseudoOpcode::Equ.name_spec()
}

/// A line holding nothing but a label name declares that label.
proof fn lemma_label_line_facts(name: Seq<char>)
    requires
        plain_label_name(name),
    ensures
        classify(name) == LineClass::LabelDecl(name),
{
    assert(forall|k: int| 0 <= k < name.len() ==> !is_space_char(#[trigger] name[k]));
    lemma_split_ws_single_run(name, 0, Seq::empty());
    assert(Seq::<char>::empty() + name.skip(0) =~= name);
}

/// The shape of a reference line `OPCODE name`: an instruction line whose
/// expansion replaces the name with the offset from `base` to the
/// instruction index the label table binds it to.
proof fn lemma_ref_line_facts(op: Opcode, name: Seq<char>)
    requires
        plain_label_name(name),
    ensures
        ({
            let s = op.name_spec() + seq![' '] + name;
            &&& classify(s) == LineClass::Instr
            &&& forall|labels: Seq<(Seq<char>, int)>, base: int|
                (labels_are_identifiers(labels) && lookup_label(labels, name) is Some)
                    ==> #[trigger] expand_line_spec(s, Seq::empty(), labels, base, false) == Ok::<
                    Seq<char>,
                    Seq<char>,
                >(op.name_spec() + seq![' '] + render_int(lookup_label(labels, name)->Some_0 - base))
        }),
{
    let opname = op.name_spec();
    lemma_opcode_name_shape(op);
    let s = opname + seq![' '] + name;
    assert(s.len() == 4 + name.len());
    assert(forall|i: int| 0 <= i < 3 ==> s[i] == #[trigger] opname[i]);
    assert(s[3] == ' ');
    assert(forall|i: int| 0 <= i < name.len() ==> s[4 + i] == #[trigger] name[i]);
    // token structure: exactly the opcode and the name
    assert(forall|k: int| 0 <= k < 3 ==> !is_space_char(#[trigger] s[k]));
    assert forall|k: int| 4 <= k < s.len() implies !is_space_char(#[trigger] s[k]) by {
        assert(s[k] == name[k - 4]);
        assert(is_ident_char(name[k - 4]));
    }
    lemma_split_ws_pair(s, 3, 0, Seq::empty());
    let toks = split_ws(s);
    assert(Seq::<char>::empty() + s.subrange(0, 3) =~= s.subrange(0, 3));
    assert(s.subrange(0, 3) =~= opname);
    assert(s.skip(4) =~= name);
    assert(toks.len() == 2 && toks[0] == opname && toks[1] == name);
    lemma_opcode_name_not_pseudo(op);
    assert(classify(s) == LineClass::Instr);
    // the fields region starts right after the opcode
    lemma_skip_ws_exact(s, 0, 0);
    assert(is_ident_start_char(s[0]));
    lemma_scan_nonspace_exact(s, 0, 3);
    assert(forall|k: int| 0 <= k < 3 ==> #[trigger] opname[k] != '.');
    lemma_find_from_exact(opname, 0, 3, '.');
    assert(opname.subrange(0, 3) =~= opname);
    lemma_opcode_canonical_round_trip(op);
    assert(is_operation_token(s.subrange(0, 3)));
    assert(region_start(s) == 3);
    // resolving the region replaces the name with the offset
    assert forall|labels: Seq<(Seq<char>, int)>, base: int|
        (labels_are_identifiers(labels) && lookup_label(labels, name) is Some)
            implies #[trigger] expand_line_spec(s, Seq::empty(), labels, base, false) == Ok::<
            Seq<char>,
            Seq<char>,
        >(opname + seq![' '] + render_int(lookup_label(labels, name)->Some_0 - base)) by {
        let k = lookup_label(labels, name)->Some_0;
        assert(subst_times(s, Seq::empty(), 0) == s);
        assert(!is_ident_char(s[3]));
        assert(forall|p: int| 4 <= p < s.len() ==> is_ident_char(#[trigger] s[p]));
        lemma_resolve_ident_tail(s, labels, base, 4, Seq::empty());
        assert(Seq::<char>::empty() + s.skip(4) =~= name);
        assert(flush_resolve(name, labels, base) == Ok::<Seq<char>, Seq<char>>(
            render_int(k - base),
        ));
        assert(resolve_rec(s, labels, base, 3, Seq::empty()) == Ok::<Seq<char>, Seq<char>>(
            Seq::<char>::empty() + seq![' '] + render_int(k - base),
        ));
        assert(s.subrange(0, 3) + (Seq::<char>::empty() + seq![' '] + render_int(k - base)) =~=
            opname + seq![' '] + render_int(k - base));
    }
}

/// Collecting over a run of instruction lines only advances the
/// instruction index.
proof fn lemma_collect_fold_instr_run(lines: Seq<Seq<char>>, i: int, e: int, st: CollectV)
    requires
        0 <= i <= e <= lines.len(),
        forall|p: int| i <= p < e ==> classify(#[trigger] lines[p]) == LineClass::Instr,
    ensures
        collect_fold(lines, i, st) == collect_fold(
            lines,
            e,
            (CollectV { index: st.index + (e - i), ..st }),
        ),
    decreases e - i,
{
    if i < e {
        lemma_collect_fold_instr_run(
            lines,
            i + 1,
            e,
            CollectV { index: st.index + 1, ..st },
        );
    } else {
        assert(collect_fold(lines, e, st) == collect_fold(
            lines,
            e,
            (CollectV { index: st.index + 0, ..st }),
        ));
    }
}

/// Expanding a run of instruction lines that resolve to themselves keeps
/// them all and advances the instruction index.
proof fn lemma_expand_fold_instr_run(
    lines: Seq<Seq<char>>,
    i: int,
    e: int,
    j: int,
    labels: Seq<(Seq<char>, int)>,
    acc: Seq<Seq<char>>,
)
    requires
        0 <= i <= e <= lines.len(),
        forall|p: int| i <= p < e ==> classify(#[trigger] lines[p]) == LineClass::Instr,
        forall|p: int, base: int|
            i <= p < e ==> #[trigger] expand_line_spec(lines[p], Seq::empty(), labels, base, false)
                == Ok::<Seq<char>, Seq<char>>(lines[p]),
    ensures
        expand_fold(lines, i, j, Seq::empty(), labels, acc) == expand_fold(
            lines,
            e,
            j + (e - i),
            Seq::empty(),
            labels,
            acc + lines.subrange(i, e),
        ),
    decreases e - i,
{
    if i < e {
        lemma_expand_fold_instr_run(lines, i + 1, e, j + 1, labels, acc.push(lines[i]));
        assert(acc.push(lines[i]) + lines.subrange(i + 1, e) =~= acc + lines.subrange(i, e));
    } else {
        assert(acc + lines.subrange(i, e) =~= acc);
    }
}

/// Label offset correctness over a whole source: a label declared at
/// instruction index `k` and referenced from the instructions at indexes
/// `0` and `k + mid2.len()` expands to exactly the literals `k - 0` and
/// `-(mid2.len())` — positive, zero when `mid2` is empty, and negative
/// otherwise.  The other lines pass through untouched.
pub proof fn lemma_label_offset_program(
    op1: Opcode,
    mid: Seq<Instruction>,
    name: Seq<char>,
    mid2: Seq<Instruction>,
    op2: Opcode,
)
    requires
        plain_label_name(name),
    ensures
        ({
            let ref1 = op1.name_spec() + seq![' '] + name;
            let ref2 = op2.name_spec() + seq![' '] + name;
            let lines = seq![ref1] + render_lines(mid) + seq![name] + render_lines(mid2)
                + seq![ref2];
            let k = 1 + mid.len() as int;
            let j2 = 1 + mid.len() + mid2.len() as int;
            expand_spec(lines, None) == Ok::<(Seq<Seq<char>>, Option<Seq<char>>), ErrorV>(
                (
                    seq![op1.name_spec() + seq![' '] + render_int(k)] + render_lines(mid)
                        + render_lines(mid2) + seq![op2.name_spec() + seq![' '] + render_int(
                        k - j2,
                    )],
                    None,
                ),
            )
        }),
{
    let ref1 = op1.name_spec() + seq![' '] + name;
    let ref2 = op2.name_spec() + seq![' '] + name;
    let lines = seq![ref1] + render_lines(mid) + seq![name] + render_lines(mid2) + seq![ref2];
    let m = mid.len() as int;
    let m2 = mid2.len() as int;
    let k = 1 + m;
    let j2 = 1 + m + m2;
    lemma_ref_line_facts(op1, name);
    lemma_ref_line_facts(op2, name);
    lemma_label_line_facts(name);
    assert(lines.len() == 3 + m + m2);
    assert(lines[0] == ref1);
    assert(forall|q: int| 0 <= q < m ==> lines[1 + q] == #[trigger] render_lines(mid)[q]);
    assert(lines[1 + m] == name);
    assert(forall|q: int| 0 <= q < m2 ==> lines[2 + m + q] == #[trigger] render_lines(mid2)[q]);
    assert(lines[2 + m + m2] == ref2);
    assert forall|p: int| 1 <= p < 1 + m implies classify(#[trigger] lines[p])
        == LineClass::Instr by {
        lemma_render_line_facts(mid[p - 1]);
    }
    assert forall|p: int| 2 + m <= p < 2 + m + m2 implies classify(#[trigger] lines[p])
        == LineClass::Instr by {
        lemma_render_line_facts(mid2[p - 2 - m]);
    }
    // the collection pass binds exactly the one label, at index k
    let st0 = CollectV { labels: Seq::empty(), equs: Seq::empty(), index: 0 };
    let st1 = CollectV { labels: Seq::empty(), equs: Seq::empty(), index: 1 };
    assert(collect_fold(lines, 0, st0) == collect_fold(lines, 1, st1));
    lemma_collect_fold_instr_run(lines, 1, 1 + m, st1);
    let st2 = CollectV { labels: Seq::empty(), equs: Seq::empty(), index: k };
    assert(collect_fold(lines, 1, st1) == collect_fold(lines, 1 + m, st2));
    let labels = seq![(name, k)];
    let st3 = CollectV { labels, equs: Seq::empty(), index: k };
    assert(st2.labels.push((name, st2.index)) =~= labels);
    assert(collect_fold(lines, 1 + m, st2) == collect_fold(lines, 2 + m, st3));
    lemma_collect_fold_instr_run(lines, 2 + m, 2 + m + m2, st3);
    let st4 = CollectV { labels, equs: Seq::empty(), index: j2 };
    assert(collect_fold(lines, 2 + m, st3) == collect_fold(lines, 2 + m + m2, st4));
    let st5 = CollectV { labels, equs: Seq::empty(), index: j2 + 1 };
    assert(collect_fold(lines, 2 + m + m2, st4) == collect_fold(lines, 3 + m + m2, st5));
    assert(collect_fold(lines, 3 + m + m2, st5) == st5);
    assert(collect_spec(lines) == st5);
    assert(collect_spec(lines).labels == labels);
    assert(collect_spec(lines).equs == Seq::<(Seq<char>, Seq<char>)>::empty());
    assert(labels_are_identifiers(labels));
    assert(lookup_label(labels, name) == Some(k));
    // the expansion pass resolves both references and keeps the rest
    let res1 = op1.name_spec() + seq![' '] + render_int(k);
    let res2 = op2.name_spec() + seq![' '] + render_int(k - j2);
    assert(expand_line_spec(ref1, Seq::empty(), labels, 0, false) == Ok::<Seq<char>, Seq<char>>(
        res1,
    ));
    let acc1 = seq![res1];
    assert(Seq::<Seq<char>>::empty().push(res1) =~= acc1);
    assert(expand_fold(lines, 0, 0, Seq::empty(), labels, Seq::empty()) == expand_fold(
        lines,
        1,
        1,
        Seq::empty(),
        labels,
        acc1,
    ));
    assert forall|p: int, base: int| 1 <= p < 1 + m implies #[trigger] expand_line_spec(
        lines[p],
        Seq::empty(),
        labels,
        base,
        false,
    ) == Ok::<Seq<char>, Seq<char>>(lines[p]) by {
        lemma_render_line_facts(mid[p - 1]);
    }
    lemma_expand_fold_instr_run(lines, 1, 1 + m, 1, labels, acc1);
    let acc2 = acc1 + render_lines(mid);
    assert(acc1 + lines.subrange(1, 1 + m) =~= acc2);
    assert(expand_fold(lines, 1, 1, Seq::empty(), labels, acc1) == expand_fold(
        lines,
        1 + m,
        k,
        Seq::empty(),
        labels,
        acc2,
    ));
    assert(expand_fold(lines, 1 + m, k, Seq::empty(), labels, acc2) == expand_fold(
        lines,
        2 + m,
        k,
        Seq::empty(),
        labels,
        acc2,
    ));
    assert forall|p: int, base: int| 2 + m <= p < 2 + m + m2 implies #[trigger] expand_line_spec(
        lines[p],
        Seq::empty(),
        labels,
        base,
        false,
    ) == Ok::<Seq<char>, Seq<char>>(lines[p]) by {
        lemma_render_line_facts(mid2[p - 2 - m]);
    }
    lemma_expand_fold_instr_run(lines, 2 + m, 2 + m + m2, k, labels, acc2);
    let acc3 = acc2 + render_lines(mid2);
    assert(acc2 + lines.subrange(2 + m, 2 + m + m2) =~= acc3);
    assert(expand_fold(lines, 2 + m, k, Seq::empty(), labels, acc2) == expand_fold(
        lines,
        2 + m + m2,
        j2,
        Seq::empty(),
        labels,
        acc3,
    ));
    assert(expand_line_spec(ref2, Seq::empty(), labels, j2, false) == Ok::<Seq<char>, Seq<char>>(
        res2,
    ));
    assert(expand_fold(lines, 2 + m + m2, j2, Seq::empty(), labels, acc3) == expand_fold(
        lines,
        3 + m + m2,
        j2 + 1,
        Seq::empty(),
        labels,
        acc3.push(res2),
    ));
    assert(expand_fold(lines, 3 + m + m2, j2 + 1, Seq::empty(), labels, acc3.push(res2)) == Ok::<
        Seq<Seq<char>>,
        ErrorV,
    >(acc3.push(res2)));
    assert(acc3.push(res2) =~= seq![res1] + render_lines(mid) + render_lines(mid2) + seq![res2]);
}

/// The round trip of the whole pipeline: rendering any instruction
/// sequence to its canonical dump and parsing that dump — cleaning,
/// expansion, deserialization — reproduces the identical sequence, with
/// empty metadata.
pub proof fn lemma_pipeline_round_trip(instructions: Seq<Instruction>)
    ensures
        parse_spec(render_all_spec(instructions)) == Ok::<
            (Seq<Instruction>, crate::clean::InfoV),
            ErrorV,
        >((instructions, Info::empty_spec())),
{
    let text = render_all_spec(instructions);
    let rl = render_lines(instructions);
    lemma_split_render_all(instructions);
    lemma_clean_fold_render(instructions, 0, clean_init());
    assert(Seq::<Seq<char>>::empty() + rl.skip(0) =~= rl);
    let c = clean_spec(text);
    assert(c.lines == rl);
    assert(c.origin is None);
    lemma_collect_fold_render(
        instructions,
        0,
        CollectV { labels: Seq::empty(), equs: Seq::empty(), index: 0 },
    );
    assert(collect_spec(rl).labels =~= Seq::<(Seq<char>, int)>::empty());
    assert(collect_spec(rl).equs =~= Seq::<(Seq<char>, Seq<char>)>::empty());
    lemma_expand_fold_render(instructions, 0, 0, Seq::empty());
    assert(Seq::<Seq<char>>::empty() + rl.skip(0) =~= rl);
    assert(expand_spec(c.lines, c.origin) == Ok::<(Seq<Seq<char>>, Option<Seq<char>>), ErrorV>(
        (rl, None),
    ));
    lemma_deserialize_round_trip(instructions);
    assert(c.meta == Info::empty_spec());
}

} // verus!
