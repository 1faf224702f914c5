//! The structured errors the fallible phases surface: a kind, the
//! offending source line and its number, and the offending token.

use vstd::prelude::*;

verus! {

/// What went wrong.  Conflicting or missing origin directives are only
/// warnings (see the cleaning phase) and never appear here.
#[derive(Copy, Clone, Debug, PartialEq, Eq, Structural)]
pub enum ErrorKind {
    /// A reference to an identifier that no label or constant defines.
    UnknownSymbol,
    /// A line that starts like an instruction but breaks its structure.
    MalformedInstruction,
    /// A token in opcode position that is no opcode mnemonic.
    InvalidOpcode,
    /// A token after `.` that is no modifier.
    InvalidModifier,
    /// A field that starts with a character that is no sigil and cannot
    /// start an expression.
    InvalidAddressMode,
}

/// The mathematical image of an [`Error`].
pub ghost struct ErrorV {
    pub kind: ErrorKind,
    pub line_number: int,
    pub line: Seq<char>,
    pub token: Seq<char>,
}

/// A parse failure: the kind, the 1-based number of the offending source
/// line within the phase's input (or 0 where the failure is tied to no
/// line, as for an unresolvable origin), the line itself, and the
/// offending token.  Enough for a caller to render a diagnostic without
/// re-parsing.
#[derive(Debug)]
pub struct Error {
    pub kind: ErrorKind,
    pub line_number: usize,
    pub line: String,
    pub token: String,
}

impl View for Error {
    type V = ErrorV;

    open spec fn view(&self) -> ErrorV {
        ErrorV {
            kind: self.kind,
            line_number: self.line_number as int,
            line: self.line@,
            token: self.token@,
        }
    }
}

} // verus!
