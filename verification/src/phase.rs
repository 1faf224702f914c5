//! The parser's typed state machine.  Each phase of parsing is a typed
//! state; one-shot transition functions consume a phase and yield the
//! next, so a later phase cannot run before an earlier one.

use vstd::prelude::*;
use vstd::string::StringExecFns;

use crate::clean::{clean_spec, Info, InfoV, Warning};
use crate::deserialize;
use crate::deserialize::deserialize_spec;
use crate::error::{Error, ErrorV};
use crate::expand;
use crate::expand::{expand_spec, Expanded};
use crate::text::{opt_string_view, string_views};
use crate::load_file::Instruction;

verus! {

/// The data passed through the parser phases: the original buffer and the
/// state of the current phase.
pub struct Phase<PhaseState> {
    /// The original input to the parser.
    pub buffer: String,
    /// State specific to the current phase.
    pub state: PhaseState,
}

/// The initial state: nothing has been done to the buffer.
pub struct Raw;

/// The state after cleaning: comments removed, metadata extracted, the
/// origin directive validated.
pub struct Clean {
    pub lines: Vec<String>,
    pub metadata: Info,
    pub warnings: Vec<Warning>,
}

/// The state after expansion: labels and constants resolved, no symbolic
/// content left.
pub struct Expand {
    pub lines: Vec<String>,
    pub metadata: Info,
}

/// The final state: lines deserialized into typed instructions.
pub struct Deserialized {
    pub metadata: Info,
    pub instructions: Vec<Instruction>,
}

impl Phase<Raw> {
    /// Wraps a source text, untouched.
    pub fn from_str(buf: &str) -> (r: Phase<Raw>)
        ensures
            r.buffer@ == buf@,
    {
        Phase { buffer: String::from_str(buf), state: Raw }
    }
}

impl Phase<Clean> {
    /// Runs the cleaning phase.  Cleaning is total: it cannot fail.
    pub fn from(prev: Phase<Raw>) -> (r: Phase<Clean>)
        ensures
            r.buffer@ == prev.buffer@,
            ({
                let st = clean_spec(prev.buffer@);
                &&& string_views(r.state.lines@) == st.lines
                &&& r.state.metadata@ == InfoV { origin: st.origin, ..st.meta }
                &&& r.state.warnings@ == st.warnings
            }),
    {
        let cleaned = Info::extract_from_string(prev.buffer.as_str());
        Phase {
            buffer: prev.buffer,
            state: Clean {
                lines: cleaned.lines,
                metadata: cleaned.metadata,
                warnings: cleaned.warnings,
            },
        }
    }
}

impl Phase<Expand> {
    /// Runs the expansion phase: labels and constants resolve, or an
    /// unknown symbol fails the parse.
    pub fn try_from(prev: Phase<Clean>) -> (r: Result<Phase<Expand>, Error>)
        ensures
            ({
                let sp = expand_spec(
                    string_views(prev.state.lines@),
                    opt_string_view(prev.state.metadata.origin),
                );
                match r {
                    Ok(ph) => {
                        &&& ph.buffer@ == prev.buffer@
                        &&& sp is Ok
                        &&& string_views(ph.state.lines@) == sp->Ok_0.0
                        &&& ph.state.metadata@ == InfoV {
                            origin: sp->Ok_0.1,
                            ..prev.state.metadata@
                        }
                    },
                    Err(e) => sp == Err::<(Seq<Seq<char>>, Option<Seq<char>>), ErrorV>(e@),
                }
            }),
    {
        let Clean { lines, metadata, warnings } = prev.state;
        let Info { redcode, name, author, date, version, assertion, origin } = metadata;
        match expand::expand(lines, origin) {
            Ok(Expanded { lines, origin }) => Ok(
                Phase {
                    buffer: prev.buffer,
                    state: Expand {
                        lines,
                        metadata: Info {
                            redcode,
                            name,
                            author,
                            date,
                            version,
                            assertion,
                            origin,
                        },
                    },
                },
            ),
            Err(e) => Err(e),
        }
    }
}

impl Phase<Deserialized> {
    /// Runs the deserialization phase: every instruction line becomes a
    /// typed instruction, or the first grammar failure ends the parse.
    pub fn try_from(prev: Phase<Expand>) -> (r: Result<Phase<Deserialized>, Error>)
        ensures
            ({
                let sp = deserialize_spec(string_views(prev.state.lines@));
                match r {
                    Ok(ph) => {
                        &&& ph.buffer@ == prev.buffer@
                        &&& sp == Ok::<Seq<Instruction>, ErrorV>(ph.state.instructions@)
                        &&& ph.state.metadata@ == prev.state.metadata@
                    },
                    Err(e) => sp == Err::<Seq<Instruction>, ErrorV>(e@),
                }
            }),
    {
        match deserialize::deserialize(prev.state.lines) {
            Ok(instructions) => Ok(
                Phase {
                    buffer: prev.buffer,
                    state: Deserialized { metadata: prev.state.metadata, instructions },
                },
            ),
            Err(e) => Err(e),
        }
    }
}

/// What the whole pipeline yields on a source text: the instruction
/// sequence and the metadata, or the first failure.
pub open spec fn parse_spec(input: Seq<char>) -> Result<(Seq<Instruction>, InfoV), ErrorV> {
    let c = clean_spec(input);
    match expand_spec(c.lines, c.origin) {
        Err(e) => Err(e),
        Ok((resolved, origin)) => match deserialize_spec(resolved) {
            Err(e) => Err(e),
            Ok(instructions) => Ok((instructions, InfoV { origin, ..c.meta })),
        },
    }
}

/// Runs the full pipeline on a source text: cleaning, expansion,
/// deserialization.
pub fn parse(input: &str) -> (r: Result<Phase<Deserialized>, Error>)
    ensures
        match r {
            Ok(ph) => parse_spec(input@) == Ok::<(Seq<Instruction>, InfoV), ErrorV>(
                (ph.state.instructions@, ph.state.metadata@),
            ),
            Err(e) => parse_spec(input@) == Err::<(Seq<Instruction>, InfoV), ErrorV>(e@),
        },
{
    let raw = Phase::<Raw>::from_str(input);
    let cleaned = Phase::<Clean>::from(raw);
    match Phase::<Expand>::try_from(cleaned) {
        Err(e) => Err(e),
        Ok(expanded) => match Phase::<Deserialized>::try_from(expanded) {
            Err(e) => Err(e),
            Ok(done) => Ok(done),
        },
    }
}

} // verus!
