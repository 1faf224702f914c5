//! The deserialization phase: each fully-resolved line is parsed against
//! the instruction grammar and turned into a typed [`Instruction`].
//!
//! The grammar of one line is
//! `[Label] Opcode["." Modifier] Field ["," Field]`,
//! where a `Field` is `[Sigil] Expr` and an `Expr` is a decimal integer
//! (optionally signed, leading zeros allowed).  Blank lines, directive
//! lines (`ORG`, `EQU`, `END`) and bare label declarations are skipped.
//! An identifier standing where a number must — a symbol the expansion
//! phase did not resolve — is reported as an unknown symbol.

use vstd::prelude::*;

use crate::error::{Error, ErrorKind, ErrorV};
use crate::load_file::{AddressMode, Field, Instruction, Modifier, Opcode, PseudoOpcode};
use crate::text::{
    chars_to_string, dec_digits, digit_val, digits_val, is_digit, is_digit_char, is_ident_char,
    is_ident_start, is_ident_start_char, is_space_char, lemma_digits_val_nonneg, lemma_scan_digits,
    render_int, scan_digits, scan_digits_exec, scan_ident, scan_ident_exec, skip_ws, skip_ws_exec,
    str_to_chars, string_views, subrange_chars,
};

verus! {

/// The outcome of parsing one line, at the specification level.
pub ghost enum LineResV {
    /// Nothing to deserialize: a blank line, a directive or a bare label.
    Skip,
    /// An instruction line.
    Instr(Instruction),
    /// A line that breaks the grammar: the kind and the offending token.
    Fail(ErrorKind, Seq<char>),
}

/// The outcome of parsing one line.
pub enum LineRes {
    Skip,
    Instr(Instruction),
    Fail(ErrorKind, Vec<char>),
}

impl LineRes {
    /// The mathematical image of this outcome.
    pub open spec fn view_spec(&self) -> LineResV {
        match self {
            LineRes::Skip => LineResV::Skip,
            LineRes::Instr(inst) => LineResV::Instr(*inst),
            LineRes::Fail(kind, tok) => LineResV::Fail(*kind, tok@),
        }
    }
}

/// The mathematical image of a field-parse outcome.
pub open spec fn field_res_view(r: Result<(Field, usize), (ErrorKind, Vec<char>)>) -> Result<
    (Field, int),
    (ErrorKind, Seq<char>),
> {
    match r {
        Ok((f, p)) => Ok((f, p as int)),
        Err((k, t)) => Err((k, t@)),
    }
}

/// Parses the expression of a field at position `k`: a signed decimal
/// integer.  `mode` is the already-parsed addressing mode and `had_sigil`
/// says whether it was written out.
pub open spec fn parse_expr_spec(s: Seq<char>, k: int, mode: AddressMode, had_sigil: bool) -> Result<
    (Field, int),
    (ErrorKind, Seq<char>),
> {
    if k < s.len() && (s[k] == '+' || s[k] == '-' || is_digit_char(s[k])) {
        let neg = s[k] == '-';
        let d0 = if s[k] == '+' || s[k] == '-' {
            k + 1
        } else {
            k
        };
        let e = scan_digits(s, d0);
        if e == d0 {
            Err((ErrorKind::MalformedInstruction, seq![s[k]]))
        } else {
            let v = digits_val(s.subrange(d0, e));
            let sv = if neg {
                -v
            } else {
                v
            };
            if -0x8000_0000 <= sv <= 0x7fff_ffff {
                Ok((Field { address_mode: mode, value: sv as i32 }, e))
            } else {
                Err((ErrorKind::MalformedInstruction, s.subrange(k, e)))
            }
        }
    } else if k < s.len() && is_ident_start_char(s[k]) {
        Err((ErrorKind::UnknownSymbol, s.subrange(k, scan_ident(s, k))))
    } else if k >= s.len() {
        Err((ErrorKind::MalformedInstruction, Seq::empty()))
    } else if had_sigil {
        Err((ErrorKind::MalformedInstruction, seq![s[k]]))
    } else {
        Err((ErrorKind::InvalidAddressMode, seq![s[k]]))
    }
}

/// Parses one field at position `i`: an optional sigil, then an
/// expression.  On success the position after the expression is returned.
pub open spec fn parse_field_spec(s: Seq<char>, i: int) -> Result<
    (Field, int),
    (ErrorKind, Seq<char>),
> {
    let j = skip_ws(s, i);
    if j >= s.len() {
        Err((ErrorKind::MalformedInstruction, Seq::empty()))
    } else if AddressMode::from_sigil_spec(s[j]) is Some {
        parse_expr_spec(s, skip_ws(s, j + 1), AddressMode::from_sigil_spec(s[j])->Some_0, true)
    } else {
        parse_expr_spec(s, j, AddressMode::Direct, false)
    }
}

/// Parses the fields of an instruction line from position `i` on: a
/// mandatory field, then an optional comma and second field.  Nothing but
/// blanks may follow.  When the source named no modifier, it is computed
/// from the opcode and both address modes.
pub open spec fn parse_fields_spec(
    s: Seq<char>,
    i: int,
    op: Opcode,
    explicit: Option<Modifier>,
) -> LineResV {
    match parse_field_spec(s, i) {
        Err((k, t)) => LineResV::Fail(k, t),
        Ok((fa, p)) => {
            let q = skip_ws(s, p);
            if q < s.len() && s[q] == ',' {
                match parse_field_spec(s, q + 1) {
                    Err((k, t)) => LineResV::Fail(k, t),
                    Ok((fb, p2)) => {
                        let r = skip_ws(s, p2);
                        if r < s.len() {
                            LineResV::Fail(ErrorKind::MalformedInstruction, seq![s[r]])
                        } else {
                            LineResV::Instr(make_instruction(op, explicit, fa, fb))
                        }
                    },
                }
            } else if q < s.len() {
                LineResV::Fail(ErrorKind::MalformedInstruction, seq![s[q]])
            } else {
                LineResV::Instr(make_instruction(op, explicit, fa, Field::default_spec()))
            }
        },
    }
}

/// Assembles an instruction, computing the modifier from context when the
/// source named none.
pub open spec fn make_instruction(
    op: Opcode,
    explicit: Option<Modifier>,
    fa: Field,
    fb: Field,
) -> Instruction {
    let modifier = match explicit {
        Some(m) => m,
        None => Modifier::from_context_spec(op, fa.address_mode, fb.address_mode),
    };
    Instruction { opcode: op, modifier, field_a: fa, field_b: fb }
}

/// Parses the operation and fields that start at identifier position `i`:
/// an opcode, an optional `.`-attached modifier, then the fields.
pub open spec fn parse_operation_spec(s: Seq<char>, i: int) -> LineResV {
    let e = scan_ident(s, i);
    let tok = s.subrange(i, e);
    match Opcode::from_name_spec(tok) {
        None => LineResV::Fail(ErrorKind::InvalidOpcode, tok),
        Some(op) => if e < s.len() && s[e] == '.' {
            if e + 1 < s.len() && is_ident_start_char(s[e + 1]) {
                let e2 = scan_ident(s, e + 1);
                let mtok = s.subrange(e + 1, e2);
                match Modifier::from_name_spec(mtok) {
                    None => LineResV::Fail(ErrorKind::InvalidModifier, mtok),
                    Some(m) => parse_fields_spec(s, e2, op, Some(m)),
                }
            } else {
                LineResV::Fail(ErrorKind::InvalidModifier, seq!['.'])
            }
        } else {
            parse_fields_spec(s, e, op, None)
        },
    }
}

/// Parses one line.  A leading identifier that is no opcode and no
/// directive keyword is a label: alone it declares, before an operation
/// it merely tags the line.
pub open spec fn parse_line_spec(s: Seq<char>) -> LineResV {
    let i0 = skip_ws(s, 0);
    if i0 >= s.len() {
        LineResV::Skip
    } else if !is_ident_start_char(s[i0]) {
        LineResV::Fail(ErrorKind::MalformedInstruction, seq![s[i0]])
    } else {
        let e1 = scan_ident(s, i0);
        let tok1 = s.subrange(i0, e1);
        if PseudoOpcode::from_name_spec(tok1) is Some {
            LineResV::Skip
        } else if Opcode::from_name_spec(tok1) is Some || (e1 < s.len() && s[e1] == '.') {
            parse_operation_spec(s, i0)
        } else {
            let i1 = skip_ws(s, e1);
            if i1 >= s.len() {
                LineResV::Skip
            } else if !is_ident_start_char(s[i1]) {
                LineResV::Fail(ErrorKind::MalformedInstruction, seq![s[i1]])
            } else {
                let e2 = scan_ident(s, i1);
                if PseudoOpcode::from_name_spec(s.subrange(i1, e2)) is Some {
                    LineResV::Skip
                } else {
                    parse_operation_spec(s, i1)
                }
            }
        }
    }
}

/// Parsing the canonical text of a field's value region gives the value
/// back: positions `[k, k + r.len())` of `s` hold `render_int(v)`, and
/// the character after them (if any) is neither a digit nor an
/// identifier character.
proof fn lemma_expr_round_trip(s: Seq<char>, k: int, v: int, mode: AddressMode, had_sigil: bool)
    requires
        -0x8000_0000 <= v <= 0x7fff_ffff,
        0 <= k,
        k + render_int(v).len() <= s.len(),
        forall|i: int| 0 <= i < render_int(v).len() ==> s[k + i] == #[trigger] render_int(v)[i],
        k + render_int(v).len() < s.len() ==> !is_digit_char(s[k + render_int(v).len()])
            && !is_ident_char(s[k + render_int(v).len()]),
    ensures
        parse_expr_spec(s, k, mode, had_sigil) == Ok::<(Field, int), (ErrorKind, Seq<char>)>(
            (Field { address_mode: mode, value: v as i32 }, k + render_int(v).len()),
        ),
{
    crate::text::lemma_render_int_shape(v);
    let r = render_int(v);
    let e = k + r.len();
    if v < 0 {
        assert(s[k] == '-');
        let d0 = k + 1;
        crate::text::lemma_dec_digits_shape(-v);
        assert forall|i: int| d0 <= i < e implies is_digit_char(#[trigger] s[i]) by {
            assert(s[k + (i - k)] == render_int(v)[i - k]);
            assert(render_int(v).subrange(1, render_int(v).len() as int)[i - d0] == dec_digits(
                -v,
            )[i - d0]);
            assert(is_digit_char(dec_digits(-v)[i - d0]));
        }
        lemma_scan_digits(s, d0);
        crate::text::lemma_scan_digits_exact(s, d0, e);
        assert(e > d0);
        assert(s.subrange(d0, e) =~= dec_digits(-v));
        crate::text::lemma_digits_val_of_dec_digits(-v);
        assert(digits_val(s.subrange(d0, e)) == -v);
    } else {
        assert(s[k] == r[0]);
        assert(is_digit_char(s[k]));
        assert(s[k] != '+' && s[k] != '-');
        let d0 = k;
        assert forall|i: int| d0 <= i < e implies is_digit_char(#[trigger] s[i]) by {
            assert(s[k + (i - k)] == render_int(v)[i - k]);
        }
        crate::text::lemma_scan_digits_exact(s, d0, e);
        assert(e > d0);
        assert(s.subrange(d0, e) =~= dec_digits(v));
        crate::text::lemma_digits_val_of_dec_digits(v);
        assert(digits_val(s.subrange(d0, e)) == v);
    }
}

/// Parsing the canonical text of an instruction gives the instruction
/// back, exactly: the heart of the round-trip guarantee.
#[verifier::rlimit(100)]
pub proof fn lemma_instruction_round_trip(inst: Instruction)
    ensures
        parse_line_spec(inst.render_spec()) == LineResV::Instr(inst),
{
    let op = inst.opcode;
    let md = inst.modifier;
    let fa = inst.field_a;
    let fb = inst.field_b;
    let name = op.name_spec();
    let mn = md.name_spec();
    let ra = render_int(fa.value as int);
    let rb = render_int(fb.value as int);
    let sa = fa.address_mode.sigil_spec();
    let sb = fb.address_mode.sigil_spec();
    crate::load_file::lemma_opcode_name_shape(op);
    crate::load_file::lemma_modifier_name_shape(md);
    crate::load_file::lemma_sigil_shape(fa.address_mode);
    crate::load_file::lemma_sigil_shape(fb.address_mode);
    crate::text::lemma_render_int_shape(fa.value as int);
    crate::text::lemma_render_int_shape(fb.value as int);
    let s = inst.render_spec();
    let m1 = 4 + mn.len() as int;
    let a0 = m1 + 2;
    let a1 = a0 + ra.len() as int;
    let b0 = a1 + 3;
    let b1 = b0 + rb.len() as int;
    assert(s =~= name + seq!['.'] + mn + seq![' '] + (seq![sa] + ra) + seq![',', ' '] + (seq![sb]
        + rb));
    assert(s.len() == b1);
    assert(forall|i: int| 0 <= i < 3 ==> s[i] == #[trigger] name[i]);
    assert(s[3] == '.');
    assert(forall|i: int| 0 <= i < mn.len() ==> s[4 + i] == #[trigger] mn[i]);
    assert(s[m1] == ' ');
    assert(s[m1 + 1] == sa);
    assert(forall|i: int| 0 <= i < ra.len() ==> s[a0 + i] == #[trigger] ra[i]);
    assert(s[a1] == ',');
    assert(s[a1 + 1] == ' ');
    assert(s[a1 + 2] == sb);
    assert(forall|i: int| 0 <= i < rb.len() ==> s[b0 + i] == #[trigger] rb[i]);
    // the leading opcode token
    assert(!is_space_char(s[0]) && is_ident_start_char(s[0]));
    crate::text::lemma_skip_ws_exact(s, 0, 0);
    assert(forall|k: int| 0 <= k < 3 ==> is_ident_char(#[trigger] s[k]));
    crate::text::lemma_scan_ident_exact(s, 0, 3);
    assert(s.subrange(0, 3) =~= name);
    crate::load_file::lemma_opcode_name_not_pseudo(op);
    crate::load_file::lemma_opcode_name_upper(op);
    crate::load_file::lemma_opcode_text_round_trip(op, name);
    assert(parse_line_spec(s) == parse_operation_spec(s, 0));
    // the modifier after the dot
    assert(is_ident_start_char(s[4]));
    assert(forall|k: int| 4 <= k < m1 ==> is_ident_char(#[trigger] s[k]));
    crate::text::lemma_scan_ident_exact(s, 4, m1);
    assert(s.subrange(4, m1) =~= mn);
    crate::load_file::lemma_modifier_canonical_round_trip(md);
    assert(parse_operation_spec(s, 0) == parse_fields_spec(s, m1, op, Some(md)));
    // field A: blank, sigil, value
    crate::text::lemma_skip_ws_exact(s, m1, m1 + 1);
    assert(AddressMode::from_sigil_spec(s[m1 + 1]) == Some(fa.address_mode));
    crate::text::lemma_skip_ws_exact(s, a0, a0);
    assert(!is_digit_char(s[a1]) && !is_ident_char(s[a1]));
    lemma_expr_round_trip(s, a0, fa.value as int, fa.address_mode, true);
    assert(parse_field_spec(s, m1) == Ok::<(Field, int), (ErrorKind, Seq<char>)>((fa, a1)));
    // the comma, then field B
    crate::text::lemma_skip_ws_exact(s, a1, a1);
    crate::text::lemma_skip_ws_exact(s, a1 + 1, a1 + 2);
    assert(AddressMode::from_sigil_spec(s[a1 + 2]) == Some(fb.address_mode));
    crate::text::lemma_skip_ws_exact(s, b0, b0);
    lemma_expr_round_trip(s, b0, fb.value as int, fb.address_mode, true);
    assert(parse_field_spec(s, a1 + 1) == Ok::<(Field, int), (ErrorKind, Seq<char>)>((fb, b1)));
    // nothing follows
    crate::text::lemma_skip_ws_exact(s, b1, b1);
    assert(make_instruction(op, Some(md), fa, fb) == inst);
}

/// The canonical text lines of an instruction sequence.
pub open spec fn render_lines(instructions: Seq<Instruction>) -> Seq<Seq<char>> {
    instructions.map_values(|inst: Instruction| inst.render_spec())
}

/// Deserializing the canonical renderings from position `k` on yields the
/// instructions from position `k` on.
proof fn lemma_deserialize_render_from(instructions: Seq<Instruction>, k: int)
    requires
        0 <= k <= instructions.len(),
    ensures
        deserialize_from_spec(render_lines(instructions), k) == Ok::<Seq<Instruction>, ErrorV>(
            instructions.skip(k),
        ),
    decreases instructions.len() - k,
{
    let lines = render_lines(instructions);
    if k == instructions.len() {
        assert(instructions.skip(k) =~= Seq::<Instruction>::empty());
    } else {
        lemma_instruction_round_trip(instructions[k]);
        lemma_deserialize_render_from(instructions, k + 1);
        assert(seq![instructions[k]] + instructions.skip(k + 1) =~= instructions.skip(k));
    }
}

/// The round trip: rendering any instruction sequence to canonical text
/// and deserializing that text gives the identical sequence back.
pub proof fn lemma_deserialize_round_trip(instructions: Seq<Instruction>)
    ensures
        deserialize_spec(render_lines(instructions)) == Ok::<Seq<Instruction>, ErrorV>(
            instructions,
        ),
{
    lemma_deserialize_render_from(instructions, 0);
    assert(instructions.skip(0) =~= instructions);
}

/// Parses the digit run `[d0, e)` of `s`, bounding the accumulator so the
/// arithmetic cannot overflow.  Returns the value when it is at most
/// `0x8000_0000`, and nothing when the run's value exceeds that bound.
fn digits_to_value(s: &Vec<char>, d0: usize, e: usize) -> (r: Option<u64>)
    requires
        d0 <= e <= s.len(),
        forall|k: int| d0 <= k < e ==> is_digit_char(#[trigger] s@[k]),
    ensures
        match r {
            Some(v) => v == digits_val(s@.subrange(d0 as int, e as int)) && v <= 0x8000_0000,
            None => digits_val(s@.subrange(d0 as int, e as int)) > 0x8000_0000,
        },
{
    let mut acc: u64 = 0;
    let mut k: usize = d0;
    proof {
        assert(s@.subrange(d0 as int, d0 as int) =~= Seq::<char>::empty());
    }
    while k < e
        invariant
            d0 <= k <= e <= s.len(),
            forall|j: int| d0 <= j < e ==> is_digit_char(#[trigger] s@[j]),
            acc == digits_val(s@.subrange(d0 as int, k as int)),
            acc <= 0x8000_0000,
        decreases e - k,
    {
        let c = s[k];
        let d: u64 = (c as u32) as u64 - 48;
        proof {
            assert(is_digit_char(s@[k as int]));
            assert(d == digit_val(s@[k as int]) && d <= 9) by {
                assert('0' <= s@[k as int] <= '9');
            };
        }
        let next: u64 = acc * 10 + d;
        proof {
            let pre = s@.subrange(d0 as int, k + 1);
            assert(pre.drop_last() =~= s@.subrange(d0 as int, k as int));
            assert(pre.last() == s@[k as int]);
        }
        if next > 0x8000_0000 {
            proof {
                lemma_digits_prefix_monotone(s@, d0 as int, k + 1, e as int);
            }
            return None;
        }
        acc = next;
        k = k + 1;
    }
    Some(acc)
}

/// A digit run's value never shrinks as the run grows.
proof fn lemma_digits_prefix_monotone(s: Seq<char>, d0: int, k: int, e: int)
    requires
        0 <= d0 <= k <= e <= s.len(),
        forall|j: int| d0 <= j < e ==> is_digit_char(#[trigger] s[j]),
    ensures
        digits_val(s.subrange(d0, e)) >= digits_val(s.subrange(d0, k)),
    decreases e - k,
{
    if k < e {
        let t = s.subrange(d0, k + 1);
        assert(t.drop_last() =~= s.subrange(d0, k));
        assert(forall|j: int| 0 <= j < t.len() ==> is_digit_char(#[trigger] t[j]));
        lemma_digits_val_nonneg(t.drop_last());
        assert(is_digit_char(t.last()));
        assert(digit_val(t.last()) >= 0);
        assert(digits_val(t) >= digits_val(s.subrange(d0, k)));
        lemma_digits_prefix_monotone(s, d0, k + 1, e);
    }
}

/// Parses the expression of a field.
fn parse_expr(s: &Vec<char>, k: usize, mode: AddressMode, had_sigil: bool) -> (r: Result<
    (Field, usize),
    (ErrorKind, Vec<char>),
>)
    requires
        k <= s.len(),
    ensures
        field_res_view(r) == parse_expr_spec(s@, k as int, mode, had_sigil),
        (match r {
            Ok((f, p)) => p <= s.len(),
            Err(e) => true,
        }),
{
    if k < s.len() && (s[k] == '+' || s[k] == '-' || is_digit(s[k])) {
        let neg = s[k] == '-';
        let d0: usize = if s[k] == '+' || s[k] == '-' {
            k + 1
        } else {
            k
        };
        let e = scan_digits_exec(s, d0);
        proof {
            lemma_scan_digits(s@, d0 as int);
        }
        if e == d0 {
            let mut t: Vec<char> = Vec::new();
            t.push(s[k]);
            proof {
                assert(t@ =~= seq![s@[k as int]]);
            }
            Err((ErrorKind::MalformedInstruction, t))
        } else {
            proof {
                lemma_digits_val_nonneg(s@.subrange(d0 as int, e as int));
            }
            match digits_to_value(s, d0, e) {
                Some(v) => {
                    if neg {
                        if v > 0x8000_0000 {
                            Err((ErrorKind::MalformedInstruction, subrange_chars(s, k, e)))
                        } else {
                            let value: i32 = (-(v as i64)) as i32;
                            Ok((Field { address_mode: mode, value }, e))
                        }
                    } else {
                        if v > 0x7fff_ffff {
                            Err((ErrorKind::MalformedInstruction, subrange_chars(s, k, e)))
                        } else {
                            let value: i32 = v as i32;
                            Ok((Field { address_mode: mode, value }, e))
                        }
                    }
                },
                None => Err((ErrorKind::MalformedInstruction, subrange_chars(s, k, e))),
            }
        }
    } else if k < s.len() && is_ident_start(s[k]) {
        let e = scan_ident_exec(s, k);
        Err((ErrorKind::UnknownSymbol, subrange_chars(s, k, e)))
    } else if k >= s.len() {
        Err((ErrorKind::MalformedInstruction, Vec::new()))
    } else {
        let mut t: Vec<char> = Vec::new();
        t.push(s[k]);
        proof {
            assert(t@ =~= seq![s@[k as int]]);
        }
        if had_sigil {
            Err((ErrorKind::MalformedInstruction, t))
        } else {
            Err((ErrorKind::InvalidAddressMode, t))
        }
    }
}

/// Parses one field: an optional sigil, then an expression.
fn parse_field(s: &Vec<char>, i: usize) -> (r: Result<(Field, usize), (ErrorKind, Vec<char>)>)
    requires
        i <= s.len(),
    ensures
        field_res_view(r) == parse_field_spec(s@, i as int),
        (match r {
            Ok((f, p)) => p <= s.len(),
            Err(e) => true,
        }),
{
    let j = skip_ws_exec(s, i);
    if j >= s.len() {
        Err((ErrorKind::MalformedInstruction, Vec::new()))
    } else {
        match AddressMode::from_sigil(s[j]) {
            Some(mode) => {
                let k = skip_ws_exec(s, j + 1);
                parse_expr(s, k, mode, true)
            },
            None => parse_expr(s, j, AddressMode::Direct, false),
        }
    }
}

/// Parses the fields of an instruction line and assembles the result.
fn parse_fields(s: &Vec<char>, i: usize, op: Opcode, explicit: Option<Modifier>) -> (r: LineRes)
    requires
        i <= s.len(),
    ensures
        r.view_spec() == parse_fields_spec(s@, i as int, op, explicit),
{
    match parse_field(s, i) {
        Err((k, t)) => LineRes::Fail(k, t),
        Ok((fa, p)) => {
            let q = skip_ws_exec(s, p);
            if q < s.len() && s[q] == ',' {
                match parse_field(s, q + 1) {
                    Err((k, t)) => LineRes::Fail(k, t),
                    Ok((fb, p2)) => {
                        let r2 = skip_ws_exec(s, p2);
                        if r2 < s.len() {
                            let mut t: Vec<char> = Vec::new();
                            t.push(s[r2]);
                            proof {
                                assert(t@ =~= seq![s@[r2 as int]]);
                            }
                            LineRes::Fail(ErrorKind::MalformedInstruction, t)
                        } else {
                            let modifier = match explicit {
                                Some(m) => m,
                                None => Modifier::from_context(
                                    op,
                                    fa.address_mode,
                                    fb.address_mode,
                                ),
                            };
                            LineRes::Instr(
                                Instruction { opcode: op, modifier, field_a: fa, field_b: fb },
                            )
                        }
                    },
                }
            } else if q < s.len() {
                let mut t: Vec<char> = Vec::new();
                t.push(s[q]);
                proof {
                    assert(t@ =~= seq![s@[q as int]]);
                }
                LineRes::Fail(ErrorKind::MalformedInstruction, t)
            } else {
                let fb = Field::default();
                let modifier = match explicit {
                    Some(m) => m,
                    None => Modifier::from_context(op, fa.address_mode, fb.address_mode),
                };
                LineRes::Instr(Instruction { opcode: op, modifier, field_a: fa, field_b: fb })
            }
        },
    }
}

/// Parses the operation and fields that start at identifier position `i`.
fn parse_operation(s: &Vec<char>, i: usize) -> (r: LineRes)
    requires
        i <= s.len(),
    ensures
        r.view_spec() == parse_operation_spec(s@, i as int),
{
    let e = scan_ident_exec(s, i);
    let tok = subrange_chars(s, i, e);
    match Opcode::from_chars(&tok) {
        None => LineRes::Fail(ErrorKind::InvalidOpcode, tok),
        Some(op) => {
            if e < s.len() && s[e] == '.' {
                if e + 1 < s.len() && is_ident_start(s[e + 1]) {
                    let e2 = scan_ident_exec(s, e + 1);
                    let mtok = subrange_chars(s, e + 1, e2);
                    match Modifier::from_chars(&mtok) {
                        None => LineRes::Fail(ErrorKind::InvalidModifier, mtok),
                        Some(m) => parse_fields(s, e2, op, Some(m)),
                    }
                } else {
                    let mut t: Vec<char> = Vec::new();
                    t.push('.');
                    proof {
                        assert(t@ =~= seq!['.']);
                    }
                    LineRes::Fail(ErrorKind::InvalidModifier, t)
                }
            } else {
                parse_fields(s, e, op, None)
            }
        },
    }
}

/// Parses one line of fully-resolved source.
pub fn parse_line(s: &Vec<char>) -> (r: LineRes)
    ensures
        r.view_spec() == parse_line_spec(s@),
{
    let i0 = skip_ws_exec(s, 0);
    if i0 >= s.len() {
        LineRes::Skip
    } else if !is_ident_start(s[i0]) {
        let mut t: Vec<char> = Vec::new();
        t.push(s[i0]);
        proof {
            assert(t@ =~= seq![s@[i0 as int]]);
        }
        LineRes::Fail(ErrorKind::MalformedInstruction, t)
    } else {
        let e1 = scan_ident_exec(s, i0);
        let tok1 = subrange_chars(s, i0, e1);
        if PseudoOpcode::from_chars(&tok1).is_some() {
            LineRes::Skip
        } else if Opcode::from_chars(&tok1).is_some() || (e1 < s.len() && s[e1] == '.') {
            parse_operation(s, i0)
        } else {
            let i1 = skip_ws_exec(s, e1);
            if i1 >= s.len() {
                LineRes::Skip
            } else if !is_ident_start(s[i1]) {
                let mut t: Vec<char> = Vec::new();
                t.push(s[i1]);
                proof {
                    assert(t@ =~= seq![s@[i1 as int]]);
                }
                LineRes::Fail(ErrorKind::MalformedInstruction, t)
            } else {
                let e2 = scan_ident_exec(s, i1);
                let tok2 = subrange_chars(s, i1, e2);
                if PseudoOpcode::from_chars(&tok2).is_some() {
                    LineRes::Skip
                } else {
                    parse_operation(s, i1)
                }
            }
        }
    }
}

/// Deserializes the lines from position `i` on.  The line number stored
/// in an error is 1-based.
pub open spec fn deserialize_from_spec(lines: Seq<Seq<char>>, i: int) -> Result<
    Seq<Instruction>,
    ErrorV,
>
    decreases lines.len() - i when 0 <= i <= lines.len()
{
    if i >= lines.len() {
        Ok(Seq::empty())
    } else {
        match parse_line_spec(lines[i]) {
            LineResV::Skip => deserialize_from_spec(lines, i + 1),
            LineResV::Instr(inst) => match deserialize_from_spec(lines, i + 1) {
                Ok(rest) => Ok(seq![inst] + rest),
                Err(e) => Err(e),
            },
            LineResV::Fail(kind, token) => Err(
                ErrorV { kind, line_number: i + 1, line: lines[i], token },
            ),
        }
    }
}

/// What deserialization yields on a full line sequence: the instructions
/// of every instruction line in order, or the first error.
pub open spec fn deserialize_spec(lines: Seq<Seq<char>>) -> Result<Seq<Instruction>, ErrorV> {
    deserialize_from_spec(lines, 0)
}

/// Converts text input lines into their in-memory representation: the
/// typed instructions of every instruction line, in order, or the first
/// grammar failure.  All-or-nothing: an error returns no partial list.
pub fn deserialize(lines: Vec<String>) -> (r: Result<Vec<Instruction>, Error>)
    ensures
        match r {
            Ok(instructions) => deserialize_spec(string_views(lines@)) == Ok::<
                Seq<Instruction>,
                ErrorV,
            >(instructions@),
            Err(e) => deserialize_spec(string_views(lines@)) == Err::<Seq<Instruction>, ErrorV>(
                e@,
            ),
        },
{
    let ghost all = string_views(lines@);
    let mut out: Vec<Instruction> = Vec::new();
    let mut i: usize = 0;
    while i < lines.len()
        invariant
            i <= lines.len(),
            all == string_views(lines@),
            all.len() == lines@.len(),
            forall|j: int| 0 <= j < all.len() ==> all[j] == lines@[j]@,
            deserialize_spec(all) == match deserialize_from_spec(all, i as int) {
                Ok(rest) => Ok::<Seq<Instruction>, ErrorV>(out@ + rest),
                Err(e) => Err::<Seq<Instruction>, ErrorV>(e),
            },
        decreases lines.len() - i,
    {
        let line = str_to_chars(lines[i].as_str());
        match parse_line(&line) {
            LineRes::Skip => {},
            LineRes::Instr(inst) => {
                let ghost prev = out@;
                out.push(inst);
                proof {
                    if deserialize_from_spec(all, i + 1) is Ok {
                        let rest = deserialize_from_spec(all, i + 1)->Ok_0;
                        assert(out@ + rest =~= prev + (seq![inst] + rest));
                    }
                }
            },
            LineRes::Fail(kind, token) => {
                let err = Error {
                    kind,
                    line_number: i + 1,
                    line: chars_to_string(&line),
                    token: chars_to_string(&token),
                };
                return Err(err);
            },
        }
        i = i + 1;
    }
    proof {
        assert(out@ + Seq::<Instruction>::empty() =~= out@);
    }
    Ok(out)
}

} // verus!
