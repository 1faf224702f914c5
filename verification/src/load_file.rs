//! The instruction data model: opcodes, modifiers, addressing modes, fields,
//! instructions and the fixed-capacity core image.

use vstd::prelude::*;

use crate::text::{
    chars_to_string, render_int, push_int_chars, str_to_chars, upper_chars, upper_seq, chars_eq,
};

verus! {

/// The size of a core image when none is asked for.
pub const DEFAULT_CORE_SIZE: usize = 8000;

/// The 17 Redcode opcode mnemonics.
#[derive(Copy, Clone, Debug, PartialEq, Eq, Structural)]
pub enum Opcode {
    Dat,
    Mov,
    Add,
    Sub,
    Mul,
    Div,
    Mod,
    Jmp,
    Jmz,
    Jmn,
    Djn,
    Cmp,
    /// The `SEQ` (skip if equal) mnemonic.  The variant is named `SkipEq`
    /// because `Seq` is already the sequence type of the proof library.
    SkipEq,
    Sne,
    Slt,
    Spl,
    Nop,
}

/// The 7 modifiers selecting which sub-fields an operation acts on.
#[derive(Copy, Clone, Debug, PartialEq, Eq, Structural)]
pub enum Modifier {
    A,
    B,
    AB,
    BA,
    F,
    X,
    I,
}

/// The 8 addressing modes, each with a unique one-character sigil.
#[derive(Copy, Clone, Debug, PartialEq, Eq, Structural)]
pub enum AddressMode {
    Immediate,
    Direct,
    IndirectA,
    IndirectB,
    PreDecIndirectA,
    PreDecIndirectB,
    PostIncIndirectA,
    PostIncIndirectB,
}

/// The three pseudo-opcodes: directives handled before deserialization.
#[derive(Copy, Clone, Debug, PartialEq, Eq, Structural)]
pub enum PseudoOpcode {
    Org,
    Equ,
    End,
}

/// Builds a one-character vector.
fn chars1(a: char) -> (r: Vec<char>)
    ensures
        r@ == seq![a],
{
    let mut v: Vec<char> = Vec::new();
    v.push(a);
    proof {
        assert(v@ =~= seq![a]);
    }
    v
}

/// Builds a two-character vector.
fn chars2(a: char, b: char) -> (r: Vec<char>)
    ensures
        r@ == seq![a, b],
{
    let mut v: Vec<char> = Vec::new();
    v.push(a);
    v.push(b);
    proof {
        assert(v@ =~= seq![a, b]);
    }
    v
}

/// Builds a three-character vector.
fn chars3(a: char, b: char, c: char) -> (r: Vec<char>)
    ensures
        r@ == seq![a, b, c],
{
    let mut v: Vec<char> = Vec::new();
    v.push(a);
    v.push(b);
    v.push(c);
    proof {
        assert(v@ =~= seq![a, b, c]);
    }
    v
}

impl Opcode {
    /// The canonical uppercase text form of this opcode.
    pub open spec fn name_spec(self) -> Seq<char> {
        match self {
            Opcode::Dat => seq!['D', 'A', 'T'],
            Opcode::Mov => seq!['M', 'O', 'V'],
            Opcode::Add => seq!['A', 'D', 'D'],
            Opcode::Sub => seq!['S', 'U', 'B'],
            Opcode::Mul => seq!['M', 'U', 'L'],
            Opcode::Div => seq!['D', 'I', 'V'],
            Opcode::Mod => seq!['M', 'O', 'D'],
            Opcode::Jmp => seq!['J', 'M', 'P'],
            Opcode::Jmz => seq!['J', 'M', 'Z'],
            Opcode::Jmn => seq!['J', 'M', 'N'],
            Opcode::Djn => seq!['D', 'J', 'N'],
            Opcode::Cmp => seq!['C', 'M', 'P'],
            Opcode::SkipEq => seq!['S', 'E', 'Q'],
            Opcode::Sne => seq!['S', 'N', 'E'],
            Opcode::Slt => seq!['S', 'L', 'T'],
            Opcode::Spl => seq!['S', 'P', 'L'],
            Opcode::Nop => seq!['N', 'O', 'P'],
        }
    }

    /// The opcode whose canonical form matches `s` case-insensitively.
    pub open spec fn from_name_spec(s: Seq<char>) -> Option<Opcode> {
        let u = upper_seq(s);
        if u == Opcode::Dat.name_spec() {
            Some(Opcode::Dat)
        } else if u == Opcode::Mov.name_spec() {
            Some(Opcode::Mov)
        } else if u == Opcode::Add.name_spec() {
            Some(Opcode::Add)
        } else if u == Opcode::Sub.name_spec() {
            Some(Opcode::Sub)
        } else if u == Opcode::Mul.name_spec() {
            Some(Opcode::Mul)
        } else if u == Opcode::Div.name_spec() {
            Some(Opcode::Div)
        } else if u == Opcode::Mod.name_spec() {
            Some(Opcode::Mod)
        } else if u == Opcode::Jmp.name_spec() {
            Some(Opcode::Jmp)
        } else if u == Opcode::Jmz.name_spec() {
            Some(Opcode::Jmz)
        } else if u == Opcode::Jmn.name_spec() {
            Some(Opcode::Jmn)
        } else if u == Opcode::Djn.name_spec() {
            Some(Opcode::Djn)
        } else if u == Opcode::Cmp.name_spec() {
            Some(Opcode::Cmp)
        } else if u == Opcode::SkipEq.name_spec() {
            Some(Opcode::SkipEq)
        } else if u == Opcode::Sne.name_spec() {
            Some(Opcode::Sne)
        } else if u == Opcode::Slt.name_spec() {
            Some(Opcode::Slt)
        } else if u == Opcode::Spl.name_spec() {
            Some(Opcode::Spl)
        } else if u == Opcode::Nop.name_spec() {
            Some(Opcode::Nop)
        } else {
            None
        }
    }

    /// The canonical text of this opcode as a character vector.
    pub fn name_chars(self) -> (r: Vec<char>)
        ensures
            r@ == self.name_spec(),
    {
        match self {
            Opcode::Dat => chars3('D', 'A', 'T'),
            Opcode::Mov => chars3('M', 'O', 'V'),
            Opcode::Add => chars3('A', 'D', 'D'),
            Opcode::Sub => chars3('S', 'U', 'B'),
            Opcode::Mul => chars3('M', 'U', 'L'),
            Opcode::Div => chars3('D', 'I', 'V'),
            Opcode::Mod => chars3('M', 'O', 'D'),
            Opcode::Jmp => chars3('J', 'M', 'P'),
            Opcode::Jmz => chars3('J', 'M', 'Z'),
            Opcode::Jmn => chars3('J', 'M', 'N'),
            Opcode::Djn => chars3('D', 'J', 'N'),
            Opcode::Cmp => chars3('C', 'M', 'P'),
            Opcode::SkipEq => chars3('S', 'E', 'Q'),
            Opcode::Sne => chars3('S', 'N', 'E'),
            Opcode::Slt => chars3('S', 'L', 'T'),
            Opcode::Spl => chars3('S', 'P', 'L'),
            Opcode::Nop => chars3('N', 'O', 'P'),
        }
    }

    /// The canonical text of this opcode.
    pub fn to_string(&self) -> (r: String)
        ensures
            r@ == self.name_spec(),
    {
        let v = self.name_chars();
        chars_to_string(&v)
    }

    /// Parses an opcode mnemonic, case-insensitively.
    pub fn from_chars(s: &Vec<char>) -> (r: Option<Opcode>)
        ensures
            r == Opcode::from_name_spec(s@),
    {
        let u = upper_chars(s);
        if chars_eq(&u, &Opcode::Dat.name_chars()) {
            Some(Opcode::Dat)
        } else if chars_eq(&u, &Opcode::Mov.name_chars()) {
            Some(Opcode::Mov)
        } else if chars_eq(&u, &Opcode::Add.name_chars()) {
            Some(Opcode::Add)
        } else if chars_eq(&u, &Opcode::Sub.name_chars()) {
            Some(Opcode::Sub)
        } else if chars_eq(&u, &Opcode::Mul.name_chars()) {
            Some(Opcode::Mul)
        } else if chars_eq(&u, &Opcode::Div.name_chars()) {
            Some(Opcode::Div)
        } else if chars_eq(&u, &Opcode::Mod.name_chars()) {
            Some(Opcode::Mod)
        } else if chars_eq(&u, &Opcode::Jmp.name_chars()) {
            Some(Opcode::Jmp)
        } else if chars_eq(&u, &Opcode::Jmz.name_chars()) {
            Some(Opcode::Jmz)
        } else if chars_eq(&u, &Opcode::Jmn.name_chars()) {
            Some(Opcode::Jmn)
        } else if chars_eq(&u, &Opcode::Djn.name_chars()) {
            Some(Opcode::Djn)
        } else if chars_eq(&u, &Opcode::Cmp.name_chars()) {
            Some(Opcode::Cmp)
        } else if chars_eq(&u, &Opcode::SkipEq.name_chars()) {
            Some(Opcode::SkipEq)
        } else if chars_eq(&u, &Opcode::Sne.name_chars()) {
            Some(Opcode::Sne)
        } else if chars_eq(&u, &Opcode::Slt.name_chars()) {
            Some(Opcode::Slt)
        } else if chars_eq(&u, &Opcode::Spl.name_chars()) {
            Some(Opcode::Spl)
        } else if chars_eq(&u, &Opcode::Nop.name_chars()) {
            Some(Opcode::Nop)
        } else {
            None
        }
    }

    /// Parses an opcode mnemonic from borrowed text, case-insensitively.
    pub fn from_str(s: &str) -> (r: Option<Opcode>)
        ensures
            r == Opcode::from_name_spec(s@),
    {
        let v = str_to_chars(s);
        Opcode::from_chars(&v)
    }
}

impl Modifier {
    /// The canonical uppercase text form of this modifier.
    pub open spec fn name_spec(self) -> Seq<char> {
        match self {
            Modifier::A => seq!['A'],
            Modifier::B => seq!['B'],
            Modifier::AB => seq!['A', 'B'],
            Modifier::BA => seq!['B', 'A'],
            Modifier::F => seq!['F'],
            Modifier::X => seq!['X'],
            Modifier::I => seq!['I'],
        }
    }

    /// The modifier whose canonical form matches `s` case-insensitively.
    pub open spec fn from_name_spec(s: Seq<char>) -> Option<Modifier> {
        let u = upper_seq(s);
        if u == Modifier::A.name_spec() {
            Some(Modifier::A)
        } else if u == Modifier::B.name_spec() {
            Some(Modifier::B)
        } else if u == Modifier::AB.name_spec() {
            Some(Modifier::AB)
        } else if u == Modifier::BA.name_spec() {
            Some(Modifier::BA)
        } else if u == Modifier::F.name_spec() {
            Some(Modifier::F)
        } else if u == Modifier::X.name_spec() {
            Some(Modifier::X)
        } else if u == Modifier::I.name_spec() {
            Some(Modifier::I)
        } else {
            None
        }
    }

    /// The canonical text of this modifier as a character vector.
    pub fn name_chars(self) -> (r: Vec<char>)
        ensures
            r@ == self.name_spec(),
    {
        match self {
            Modifier::A => chars1('A'),
            Modifier::B => chars1('B'),
            Modifier::AB => chars2('A', 'B'),
            Modifier::BA => chars2('B', 'A'),
            Modifier::F => chars1('F'),
            Modifier::X => chars1('X'),
            Modifier::I => chars1('I'),
        }
    }

    /// The canonical text of this modifier.
    pub fn to_string(&self) -> (r: String)
        ensures
            r@ == self.name_spec(),
    {
        let v = self.name_chars();
        chars_to_string(&v)
    }

    /// Parses a modifier, case-insensitively.
    pub fn from_chars(s: &Vec<char>) -> (r: Option<Modifier>)
        ensures
            r == Modifier::from_name_spec(s@),
    {
        let u = upper_chars(s);
        if chars_eq(&u, &Modifier::A.name_chars()) {
            Some(Modifier::A)
        } else if chars_eq(&u, &Modifier::B.name_chars()) {
            Some(Modifier::B)
        } else if chars_eq(&u, &Modifier::AB.name_chars()) {
            Some(Modifier::AB)
        } else if chars_eq(&u, &Modifier::BA.name_chars()) {
            Some(Modifier::BA)
        } else if chars_eq(&u, &Modifier::F.name_chars()) {
            Some(Modifier::F)
        } else if chars_eq(&u, &Modifier::X.name_chars()) {
            Some(Modifier::X)
        } else if chars_eq(&u, &Modifier::I.name_chars()) {
            Some(Modifier::I)
        } else {
            None
        }
    }

    /// Parses a modifier from borrowed text, case-insensitively.
    pub fn from_str(s: &str) -> (r: Option<Modifier>)
        ensures
            r == Modifier::from_name_spec(s@),
    {
        let v = str_to_chars(s);
        Modifier::from_chars(&v)
    }

    /// The default modifier an instruction gets when the source names none,
    /// following the ICWS'88-to-'94 conversion table.
    pub open spec fn from_context_spec(
        opcode: Opcode,
        a_mode: AddressMode,
        b_mode: AddressMode,
    ) -> Modifier {
        match opcode {
            Opcode::Dat => Modifier::F,
            Opcode::Jmp | Opcode::Jmz | Opcode::Jmn | Opcode::Djn | Opcode::Spl | Opcode::Nop
                => Modifier::B,
            _ => if a_mode == AddressMode::Immediate {
                Modifier::AB
            } else if b_mode == AddressMode::Immediate {
                Modifier::B
            } else {
                match opcode {
                    Opcode::Mov | Opcode::Cmp | Opcode::SkipEq | Opcode::Sne => Modifier::I,
                    Opcode::Slt => Modifier::B,
                    _ => Modifier::F,
                }
            },
        }
    }

    /// Computes the default modifier for an opcode and the address modes of
    /// its two fields, following the ICWS'88-to-'94 conversion table.
    pub fn from_context(opcode: Opcode, a_mode: AddressMode, b_mode: AddressMode) -> (r: Modifier)
        ensures
            r == Modifier::from_context_spec(opcode, a_mode, b_mode),
    {
        match opcode {
            Opcode::Dat => Modifier::F,
            Opcode::Jmp | Opcode::Jmz | Opcode::Jmn | Opcode::Djn | Opcode::Spl | Opcode::Nop
                => Modifier::B,
            _ => if a_mode == AddressMode::Immediate {
                Modifier::AB
            } else if b_mode == AddressMode::Immediate {
                Modifier::B
            } else {
                match opcode {
                    Opcode::Mov | Opcode::Cmp | Opcode::SkipEq | Opcode::Sne => Modifier::I,
                    Opcode::Slt => Modifier::B,
                    _ => Modifier::F,
                }
            },
        }
    }
}

impl AddressMode {
    /// The one-character sigil of this addressing mode.
    pub open spec fn sigil_spec(self) -> char {
        match self {
            AddressMode::Immediate => '#',
            AddressMode::Direct => '$',
            AddressMode::IndirectA => '*',
            AddressMode::IndirectB => '@',
            AddressMode::PreDecIndirectA => '{',
            AddressMode::PreDecIndirectB => '<',
            AddressMode::PostIncIndirectA => '}',
            AddressMode::PostIncIndirectB => '>',
        }
    }

    /// The addressing mode a sigil character stands for.
    pub open spec fn from_sigil_spec(c: char) -> Option<AddressMode> {
        if c == '#' {
            Some(AddressMode::Immediate)
        } else if c == '$' {
            Some(AddressMode::Direct)
        } else if c == '*' {
            Some(AddressMode::IndirectA)
        } else if c == '@' {
            Some(AddressMode::IndirectB)
        } else if c == '{' {
            Some(AddressMode::PreDecIndirectA)
        } else if c == '<' {
            Some(AddressMode::PreDecIndirectB)
        } else if c == '}' {
            Some(AddressMode::PostIncIndirectA)
        } else if c == '>' {
            Some(AddressMode::PostIncIndirectB)
        } else {
            None
        }
    }

    /// The text form of this mode: its sigil alone.
    pub open spec fn name_spec(self) -> Seq<char> {
        seq![self.sigil_spec()]
    }

    /// The sigil character of this mode.
    pub fn sigil(self) -> (r: char)
        ensures
            r == self.sigil_spec(),
    {
        match self {
            AddressMode::Immediate => '#',
            AddressMode::Direct => '$',
            AddressMode::IndirectA => '*',
            AddressMode::IndirectB => '@',
            AddressMode::PreDecIndirectA => '{',
            AddressMode::PreDecIndirectB => '<',
            AddressMode::PostIncIndirectA => '}',
            AddressMode::PostIncIndirectB => '>',
        }
    }

    /// Parses a sigil character.
    pub fn from_sigil(c: char) -> (r: Option<AddressMode>)
        ensures
            r == AddressMode::from_sigil_spec(c),
    {
        if c == '#' {
            Some(AddressMode::Immediate)
        } else if c == '$' {
            Some(AddressMode::Direct)
        } else if c == '*' {
            Some(AddressMode::IndirectA)
        } else if c == '@' {
            Some(AddressMode::IndirectB)
        } else if c == '{' {
            Some(AddressMode::PreDecIndirectA)
        } else if c == '<' {
            Some(AddressMode::PreDecIndirectB)
        } else if c == '}' {
            Some(AddressMode::PostIncIndirectA)
        } else if c == '>' {
            Some(AddressMode::PostIncIndirectB)
        } else {
            None
        }
    }

    /// The text form of this mode.
    pub fn to_string(&self) -> (r: String)
        ensures
            r@ == self.name_spec(),
    {
        let v = chars1(self.sigil());
        chars_to_string(&v)
    }

    /// Parses an addressing mode from borrowed text: a single sigil.
    pub fn from_str(s: &str) -> (r: Option<AddressMode>)
        ensures
            r == (if s@.len() == 1 {
                AddressMode::from_sigil_spec(s@[0])
            } else {
                None::<AddressMode>
            }),
    {
        let v = str_to_chars(s);
        if v.len() == 1 {
            AddressMode::from_sigil(v[0])
        } else {
            None
        }
    }
}

impl PseudoOpcode {
    /// The canonical uppercase text form of this directive.
    pub open spec fn name_spec(self) -> Seq<char> {
        match self {
            PseudoOpcode::Org => seq!['O', 'R', 'G'],
            PseudoOpcode::Equ => seq!['E', 'Q', 'U'],
            PseudoOpcode::End => seq!['E', 'N', 'D'],
        }
    }

    /// The directive whose canonical form matches `s` case-insensitively.
    pub open spec fn from_name_spec(s: Seq<char>) -> Option<PseudoOpcode> {
        let u = upper_seq(s);
        if u == PseudoOpcode::Org.name_spec() {
            Some(PseudoOpcode::Org)
        } else if u == PseudoOpcode::Equ.name_spec() {
            Some(PseudoOpcode::Equ)
        } else if u == PseudoOpcode::End.name_spec() {
            Some(PseudoOpcode::End)
        } else {
            None
        }
    }

    /// Parses a directive keyword, case-insensitively.
    pub fn from_chars(s: &Vec<char>) -> (r: Option<PseudoOpcode>)
        ensures
            r == PseudoOpcode::from_name_spec(s@),
    {
        let u = upper_chars(s);
        if chars_eq(&u, &chars3('O', 'R', 'G')) {
            Some(PseudoOpcode::Org)
        } else if chars_eq(&u, &chars3('E', 'Q', 'U')) {
            Some(PseudoOpcode::Equ)
        } else if chars_eq(&u, &chars3('E', 'N', 'D')) {
            Some(PseudoOpcode::End)
        } else {
            None
        }
    }
}

impl Default for Opcode {
    /// The default opcode is DAT.
    fn default() -> (r: Opcode)
        ensures
            r == Opcode::Dat,
    {
        Opcode::Dat
    }
}

impl Default for Modifier {
    /// The default modifier is F.
    fn default() -> (r: Modifier)
        ensures
            r == Modifier::F,
    {
        Modifier::F
    }
}

impl Default for AddressMode {
    /// The default addressing mode is Direct.
    fn default() -> (r: AddressMode)
        ensures
            r == AddressMode::Direct,
    {
        AddressMode::Direct
    }
}

/// One operand: an addressing mode and a signed value.
#[derive(Copy, Clone, Debug, PartialEq, Eq, Structural)]
pub struct Field {
    pub address_mode: AddressMode,
    pub value: i32,
}

impl Field {
    /// The default field: direct zero.
    pub open spec fn default_spec() -> Field {
        Field { address_mode: AddressMode::Direct, value: 0 }
    }

    /// A field with direct addressing.
    pub fn direct(value: i32) -> (r: Field)
        ensures
            r.address_mode == AddressMode::Direct,
            r.value == value,
    {
        Field { address_mode: AddressMode::Direct, value }
    }

    /// A field with immediate addressing.
    pub fn immediate(value: i32) -> (r: Field)
        ensures
            r.address_mode == AddressMode::Immediate,
            r.value == value,
    {
        Field { address_mode: AddressMode::Immediate, value }
    }

    /// The canonical text of a field: the sigil followed by the value.
    pub open spec fn render_spec(self) -> Seq<char> {
        seq![self.address_mode.sigil_spec()] + render_int(self.value as int)
    }

    /// Appends the canonical text of this field to `out`.
    pub fn push_chars(&self, out: &mut Vec<char>)
        ensures
            final(out)@ == old(out)@ + self.render_spec(),
    {
        out.push(self.address_mode.sigil());
        push_int_chars(self.value, out);
        proof {
            assert(out@ =~= old(out)@ + self.render_spec());
        }
    }

    /// The canonical text of this field.
    pub fn to_string(&self) -> (r: String)
        ensures
            r@ == self.render_spec(),
    {
        let mut v: Vec<char> = Vec::new();
        self.push_chars(&mut v);
        chars_to_string(&v)
    }
}

impl Default for Field {
    /// The default field: direct zero.
    fn default() -> (r: Field)
        ensures
            r == Field::default_spec(),
    {
        Field { address_mode: AddressMode::Direct, value: 0 }
    }
}

/// One fully-resolved instruction.
#[derive(Copy, Clone, Debug, PartialEq, Eq, Structural)]
pub struct Instruction {
    pub opcode: Opcode,
    pub modifier: Modifier,
    pub field_a: Field,
    pub field_b: Field,
}

impl Instruction {
    /// The default instruction: `DAT.F $0, $0`.
    pub open spec fn default_spec() -> Instruction {
        Instruction {
            opcode: Opcode::Dat,
            modifier: Modifier::F,
            field_a: Field::default_spec(),
            field_b: Field::default_spec(),
        }
    }

    /// Builds an instruction without an explicit modifier: the modifier is
    /// computed from the opcode and the two address modes.
    pub fn new(opcode: Opcode, field_a: Field, field_b: Field) -> (r: Instruction)
        ensures
            r.opcode == opcode,
            r.modifier == Modifier::from_context_spec(
                opcode,
                field_a.address_mode,
                field_b.address_mode,
            ),
            r.field_a == field_a,
            r.field_b == field_b,
    {
        let modifier = Modifier::from_context(opcode, field_a.address_mode, field_b.address_mode);
        Instruction { opcode, modifier, field_a, field_b }
    }

    /// The canonical text of an instruction.  The modifier is always
    /// written out, so that parsing the text again reproduces the
    /// instruction exactly.
    pub open spec fn render_spec(self) -> Seq<char> {
        self.opcode.name_spec() + seq!['.'] + self.modifier.name_spec() + seq![' ']
            + self.field_a.render_spec() + seq![',', ' '] + self.field_b.render_spec()
    }

    /// Appends the canonical text of this instruction to `out`.
    pub fn push_chars(&self, out: &mut Vec<char>)
        ensures
            final(out)@ == old(out)@ + self.render_spec(),
    {
        let name = self.opcode.name_chars();
        let mut k: usize = 0;
        while k < name.len()
            invariant
                k <= name.len(),
                name@ == self.opcode.name_spec(),
                out@ == old(out)@ + name@.subrange(0, k as int),
            decreases name.len() - k,
        {
            out.push(name[k]);
            proof {
                assert(out@ =~= old(out)@ + name@.subrange(0, k + 1));
            }
            k = k + 1;
        }
        out.push('.');
        let modname = self.modifier.name_chars();
        let mut j: usize = 0;
        let ghost mid = out@;
        while j < modname.len()
            invariant
                j <= modname.len(),
                modname@ == self.modifier.name_spec(),
                out@ == mid + modname@.subrange(0, j as int),
            decreases modname.len() - j,
        {
            out.push(modname[j]);
            proof {
                assert(out@ =~= mid + modname@.subrange(0, j + 1));
            }
            j = j + 1;
        }
        out.push(' ');
        self.field_a.push_chars(out);
        out.push(',');
        out.push(' ');
        self.field_b.push_chars(out);
        proof {
            assert(name@.subrange(0, name@.len() as int) =~= name@);
            assert(modname@.subrange(0, modname@.len() as int) =~= modname@);
            assert(out@ =~= old(out)@ + self.render_spec());
        }
    }

    /// The canonical text of this instruction.
    pub fn to_string(&self) -> (r: String)
        ensures
            r@ == self.render_spec(),
    {
        let mut v: Vec<char> = Vec::new();
        self.push_chars(&mut v);
        chars_to_string(&v)
    }
}

/// Each opcode's canonical text is already upper case, so upper-casing
/// leaves it unchanged.
pub proof fn lemma_opcode_name_upper(op: Opcode)
    ensures
        upper_seq(op.name_spec()) == op.name_spec(),
{
    assert(upper_seq(op.name_spec()) =~= op.name_spec());
}

/// Parsing any spelling of an opcode's canonical text — upper, lower or
/// mixed case — gives that opcode back: the text mapping is a bijection
/// up to case.
pub proof fn lemma_opcode_text_round_trip(op: Opcode, s: Seq<char>)
    requires
        upper_seq(s) == op.name_spec(),
    ensures
        Opcode::from_name_spec(s) == Some(op),
{
}

/// Parsing an opcode's own canonical text gives the opcode back.
pub proof fn lemma_opcode_canonical_round_trip(op: Opcode)
    ensures
        Opcode::from_name_spec(op.name_spec()) == Some(op),
{
    lemma_opcode_name_upper(op);
    lemma_opcode_text_round_trip(op, op.name_spec());
}

/// The first characters and lengths of the modifier names, spelt out so
/// that distinctness of the names is visible.
proof fn lemma_modifier_name_chars()
    ensures
        Modifier::A.name_spec() =~= seq!['A'],
        Modifier::B.name_spec() =~= seq!['B'],
        Modifier::AB.name_spec() =~= seq!['A', 'B'],
        Modifier::BA.name_spec() =~= seq!['B', 'A'],
        Modifier::F.name_spec() =~= seq!['F'],
        Modifier::X.name_spec() =~= seq!['X'],
        Modifier::I.name_spec() =~= seq!['I'],
        seq!['A'].len() == 1 && seq!['A'][0] == 'A',
        seq!['B'].len() == 1 && seq!['B'][0] == 'B',
        seq!['F'].len() == 1 && seq!['F'][0] == 'F',
        seq!['X'].len() == 1 && seq!['X'][0] == 'X',
        seq!['I'].len() == 1 && seq!['I'][0] == 'I',
        seq!['A', 'B'].len() == 2 && seq!['A', 'B'][0] == 'A' && seq!['A', 'B'][1] == 'B',
        seq!['B', 'A'].len() == 2 && seq!['B', 'A'][0] == 'B' && seq!['B', 'A'][1] == 'A',
{
}

/// Parsing any spelling of a modifier's canonical text gives that
/// modifier back.
pub proof fn lemma_modifier_text_round_trip(m: Modifier, s: Seq<char>)
    requires
        upper_seq(s) == m.name_spec(),
    ensures
        Modifier::from_name_spec(s) == Some(m),
{
    lemma_modifier_name_chars();
}

/// Parsing a modifier's own canonical text gives the modifier back.
pub proof fn lemma_modifier_canonical_round_trip(m: Modifier)
    ensures
        Modifier::from_name_spec(m.name_spec()) == Some(m),
{
    assert(upper_seq(m.name_spec()) =~= m.name_spec());
    lemma_modifier_text_round_trip(m, m.name_spec());
}

/// Parsing an addressing mode's sigil gives the mode back.
pub proof fn lemma_address_mode_round_trip(m: AddressMode)
    ensures
        AddressMode::from_sigil_spec(m.sigil_spec()) == Some(m),
{
}

/// Every opcode name has three characters, all upper-case letters.
pub proof fn lemma_opcode_name_shape(op: Opcode)
    ensures
        op.name_spec().len() == 3,
        forall|i: int| 0 <= i < 3 ==> 'A' <= #[trigger] op.name_spec()[i] <= 'Z',
{
}

/// No opcode name is a directive keyword.
pub proof fn lemma_opcode_name_not_pseudo(op: Opcode)
    ensures
        PseudoOpcode::from_name_spec(op.name_spec()) is None,
{
    lemma_opcode_name_upper(op);
}

/// Every modifier name has one or two characters, all upper-case letters.
pub proof fn lemma_modifier_name_shape(m: Modifier)
    ensures
        1 <= m.name_spec().len() <= 2,
        forall|i: int|
            0 <= i < m.name_spec().len() ==> 'A' <= #[trigger] m.name_spec()[i] <= 'Z',
{
    lemma_modifier_name_chars();
}

/// Every sigil is a punctuation character: no blank, no identifier
/// character, none of the characters the grammar gives another meaning.
pub proof fn lemma_sigil_shape(m: AddressMode)
    ensures
        !crate::text::is_space_char(m.sigil_spec()),
        !crate::text::is_ident_char(m.sigil_spec()),
        m.sigil_spec() != '.',
        m.sigil_spec() != ',',
        m.sigil_spec() != '+',
        m.sigil_spec() != '-',
        m.sigil_spec() != ';',
        AddressMode::from_sigil_spec(m.sigil_spec()) == Some(m),
{
}

/// The modifier-inference table of the ICWS'88-to-'94 conversion rules,
/// stated in full: the inference is total over the closed opcode and
/// mode domains, and on each row it yields the variant the table
/// dictates.
pub proof fn lemma_modifier_inference_table(op: Opcode, a: AddressMode, b: AddressMode)
    ensures
        op == Opcode::Dat ==> Modifier::from_context_spec(op, a, b) == Modifier::F,
        (op == Opcode::Jmp || op == Opcode::Jmz || op == Opcode::Jmn || op == Opcode::Djn
            || op == Opcode::Spl || op == Opcode::Nop) ==> Modifier::from_context_spec(op, a, b)
            == Modifier::B,
        (op == Opcode::Mov || op == Opcode::Cmp || op == Opcode::SkipEq || op == Opcode::Sne
            || op == Opcode::Slt || op == Opcode::Add || op == Opcode::Sub || op == Opcode::Mul
            || op == Opcode::Div || op == Opcode::Mod) && a == AddressMode::Immediate
            ==> Modifier::from_context_spec(op, a, b) == Modifier::AB,
        (op == Opcode::Mov || op == Opcode::Cmp || op == Opcode::SkipEq || op == Opcode::Sne
            || op == Opcode::Slt || op == Opcode::Add || op == Opcode::Sub || op == Opcode::Mul
            || op == Opcode::Div || op == Opcode::Mod) && a != AddressMode::Immediate && b
            == AddressMode::Immediate ==> Modifier::from_context_spec(op, a, b) == Modifier::B,
        (op == Opcode::Mov || op == Opcode::Cmp || op == Opcode::SkipEq || op == Opcode::Sne) && a
            != AddressMode::Immediate && b != AddressMode::Immediate
            ==> Modifier::from_context_spec(op, a, b) == Modifier::I,
        op == Opcode::Slt && a != AddressMode::Immediate && b != AddressMode::Immediate
            ==> Modifier::from_context_spec(op, a, b) == Modifier::B,
        (op == Opcode::Add || op == Opcode::Sub || op == Opcode::Mul || op == Opcode::Div || op
            == Opcode::Mod) && a != AddressMode::Immediate && b != AddressMode::Immediate
            ==> Modifier::from_context_spec(op, a, b) == Modifier::F,
        // every opcode falls under one of the rows above
        op == Opcode::Dat || op == Opcode::Jmp || op == Opcode::Jmz || op == Opcode::Jmn || op
            == Opcode::Djn || op == Opcode::Spl || op == Opcode::Nop || op == Opcode::Mov || op
            == Opcode::Cmp || op == Opcode::SkipEq || op == Opcode::Sne || op == Opcode::Slt || op
            == Opcode::Add || op == Opcode::Sub || op == Opcode::Mul || op == Opcode::Div || op
            == Opcode::Mod,
{
}

/// The canonical dump of an instruction sequence: one line per
/// instruction, each ended by a newline.
pub open spec fn render_all_spec(s: Seq<Instruction>) -> Seq<char>
    decreases s.len(),
{
    if s.len() == 0 {
        Seq::empty()
    } else {
        render_all_spec(s.drop_last()) + s.last().render_spec() + seq!['\n']
    }
}

/// The canonical dump of the instructions that differ from the default.
pub open spec fn render_nondefault_spec(s: Seq<Instruction>) -> Seq<char>
    decreases s.len(),
{
    if s.len() == 0 {
        Seq::empty()
    } else if s.last() == Instruction::default_spec() {
        render_nondefault_spec(s.drop_last())
    } else {
        render_nondefault_spec(s.drop_last()) + s.last().render_spec() + seq!['\n']
    }
}

/// A fixed-capacity, index-addressed store of instructions: the program
/// image a warrior is materialized into.
#[derive(Debug)]
pub struct Core {
    instructions: Vec<Instruction>,
}

impl View for Core {
    type V = Seq<Instruction>;

    closed spec fn view(&self) -> Seq<Instruction> {
        self.instructions@
    }
}

impl Core {
    /// Allocates a core of `core_size` default instructions.
    pub fn new(core_size: usize) -> (r: Core)
        ensures
            r@.len() == core_size,
            forall|i: int| 0 <= i < core_size ==> r@[i] == Instruction::default_spec(),
    {
        let mut instructions: Vec<Instruction> = Vec::new();
        let mut k: usize = 0;
        while k < core_size
            invariant
                k <= core_size,
                instructions@.len() == k,
                forall|i: int| 0 <= i < k ==> instructions@[i] == Instruction::default_spec(),
            decreases core_size - k,
        {
            instructions.push(Instruction::default());
            k = k + 1;
        }
        Core { instructions }
    }

    /// The instruction at `index`, or nothing when the index is outside
    /// the core.
    pub fn get(&self, index: usize) -> (r: Option<&Instruction>)
        ensures
            index < self@.len() ==> r == Some(&self@[index as int]),
            index >= self@.len() ==> r is None,
    {
        if index < self.instructions.len() {
            Some(&self.instructions[index])
        } else {
            None
        }
    }

    /// Stores `value` at `index`.  The index must lie inside the core:
    /// handing one outside it is a caller's defect, not a recoverable
    /// condition.
    pub fn set(&mut self, index: usize, value: Instruction)
        requires
            index < old(self)@.len(),
        ensures
            final(self)@ == old(self)@.update(index as int, value),
    {
        self.instructions.set(index, value);
    }

    /// Renders every slot of the core, defaults included.
    pub fn dump_all(&self) -> (r: String)
        ensures
            r@ == render_all_spec(self@),
    {
        let mut out: Vec<char> = Vec::new();
        let mut k: usize = 0;
        while k < self.instructions.len()
            invariant
                k <= self.instructions@.len(),
                out@ == render_all_spec(self.instructions@.subrange(0, k as int)),
            decreases self.instructions.len() - k,
        {
            self.instructions[k].push_chars(&mut out);
            out.push('\n');
            proof {
                let pre = self.instructions@.subrange(0, k + 1);
                assert(pre.drop_last() =~= self.instructions@.subrange(0, k as int));
            }
            k = k + 1;
        }
        proof {
            assert(self.instructions@.subrange(0, self.instructions@.len() as int)
                =~= self.instructions@);
        }
        chars_to_string(&out)
    }

    /// Renders the slots of the core that differ from the default
    /// instruction, in index order.
    pub fn dump(&self) -> (r: String)
        ensures
            r@ == render_nondefault_spec(self@),
    {
        let mut out: Vec<char> = Vec::new();
        let mut k: usize = 0;
        while k < self.instructions.len()
            invariant
                k <= self.instructions@.len(),
                out@ == render_nondefault_spec(self.instructions@.subrange(0, k as int)),
            decreases self.instructions.len() - k,
        {
            let inst = self.instructions[k];
            if !(inst == Instruction::default()) {
                inst.push_chars(&mut out);
                out.push('\n');
            }
            proof {
                let pre = self.instructions@.subrange(0, k + 1);
                assert(pre.drop_last() =~= self.instructions@.subrange(0, k as int));
            }
            k = k + 1;
        }
        proof {
            assert(self.instructions@.subrange(0, self.instructions@.len() as int)
                =~= self.instructions@);
        }
        chars_to_string(&out)
    }
}

impl Default for Core {
    /// A core of the default size.
    fn default() -> (r: Core)
        ensures
            r@.len() == DEFAULT_CORE_SIZE,
            forall|i: int| 0 <= i < r@.len() ==> r@[i] == Instruction::default_spec(),
    {
        Core::new(DEFAULT_CORE_SIZE)
    }
}

impl PartialEq for Core {
    /// Two cores are equal when they agree on every index both hold.
    fn eq(&self, rhs: &Core) -> (r: bool) {
        let n = if self.instructions.len() < rhs.instructions.len() {
            self.instructions.len()
        } else {
            rhs.instructions.len()
        };
        let mut k: usize = 0;
        while k < n
            invariant
                k <= n,
                n <= self.instructions@.len(),
                n <= rhs.instructions@.len(),
                n == vstd::math::min(self.instructions@.len() as int, rhs.instructions@.len() as int),
                forall|i: int| 0 <= i < k ==> self.instructions@[i] == rhs.instructions@[i],
            decreases n - k,
        {
            if !(self.instructions[k] == rhs.instructions[k]) {
                proof {
                    assert(0 <= k < self@.len() && (k as int) < rhs@.len() && self@[k as int]
                        != rhs@[k as int]);
                }
                return false;
            }
            k = k + 1;
        }
        true
    }
}

impl vstd::std_specs::cmp::PartialEqSpecImpl for Core {
    open spec fn obeys_eq_spec() -> bool {
        true
    }

    open spec fn eq_spec(&self, rhs: &Core) -> bool {
        forall|i: int| 0 <= i < self@.len() && i < rhs@.len() ==> self@[i] == rhs@[i]
    }
}

impl Default for Instruction {
    /// The default instruction: `DAT.F $0, $0`.
    fn default() -> (r: Instruction)
        ensures
            r == Instruction::default_spec(),
    {
        Instruction {
            opcode: Opcode::Dat,
            modifier: Modifier::F,
            field_a: Field::default(),
            field_b: Field::default(),
        }
    }
}

} // verus!
