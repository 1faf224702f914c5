//! The cleaning phase: comments are stripped, tagged comments feed the
//! program metadata, `ORG`/`END` directives set the origin, and blank
//! lines disappear.  Cleaning never fails; conflicting or missing origin
//! arguments only produce warnings.

use vstd::prelude::*;

use crate::load_file::PseudoOpcode;
use crate::text::{
    chars_to_string, find_from, find_from_exec, opt_string_view, scan_nonspace,
    scan_nonspace_exec, split_nl, split_lines, split_tokens, split_ws, str_to_chars, string_views,
    subrange_chars, trim, trim_spec, upper_chars, upper_seq, views, chars_eq,
};

verus! {

/// An advisory diagnostic from cleaning.
#[derive(Copy, Clone, Debug, PartialEq, Eq, Structural)]
pub enum Warning {
    /// A second `ORG`/`END` argument appeared; the first one stands.
    DuplicateOrigin,
    /// An `ORG` directive without an argument.
    MissingOriginArgument,
}

/// The mathematical image of an [`Info`].
pub ghost struct InfoV {
    pub redcode: Option<Seq<char>>,
    pub name: Option<Seq<char>>,
    pub author: Option<Seq<char>>,
    pub date: Option<Seq<char>>,
    pub version: Option<Seq<char>>,
    pub assertion: Option<Seq<char>>,
    pub origin: Option<Seq<char>>,
}

/// Metadata about a warrior, gathered from tagged comments and from the
/// `ORG`/`END` directives.
#[derive(Debug, PartialEq)]
pub struct Info {
    /// The Redcode standard for this warrior (e.g. "94").
    pub redcode: Option<String>,
    /// The name of this warrior.
    pub name: Option<String>,
    /// The author of this warrior.
    pub author: Option<String>,
    /// The date when this warrior was written.
    pub date: Option<String>,
    /// The version of this warrior.
    pub version: Option<String>,
    /// An assertion for this warrior to ensure compilation.
    pub assertion: Option<String>,
    /// The entry point of the warrior.  May still be a label name at this
    /// stage, which is why it is text.
    pub origin: Option<String>,
}

impl View for Info {
    type V = InfoV;

    open spec fn view(&self) -> InfoV {
        InfoV {
            redcode: opt_string_view(self.redcode),
            name: opt_string_view(self.name),
            author: opt_string_view(self.author),
            date: opt_string_view(self.date),
            version: opt_string_view(self.version),
            assertion: opt_string_view(self.assertion),
            origin: opt_string_view(self.origin),
        }
    }
}

impl Info {
    /// Metadata with every entry absent.
    pub open spec fn empty_spec() -> InfoV {
        InfoV {
            redcode: None,
            name: None,
            author: None,
            date: None,
            version: None,
            assertion: None,
            origin: None,
        }
    }
}

impl Default for Info {
    /// Metadata with every entry absent.
    fn default() -> (r: Info)
        ensures
            r@ == Info::empty_spec(),
    {
        Info {
            redcode: None,
            name: None,
            author: None,
            date: None,
            version: None,
            assertion: None,
            origin: None,
        }
    }
}

/// The mathematical image of the cleaning state.
pub ghost struct CleanStateV {
    pub meta: InfoV,
    pub origin: Option<Seq<char>>,
    pub lines: Seq<Seq<char>>,
    pub warnings: Seq<Warning>,
}

/// The code part of a physical line: what stands before the first `;`,
/// trimmed.
pub open spec fn line_code(line: Seq<char>) -> Seq<char> {
    trim_spec(line.subrange(0, find_from(line, 0, ';')))
}

/// Folds one comment into the metadata.  The first whitespace-delimited
/// word of the comment is its tag; a recognized tag stores the trimmed
/// remainder, the last occurrence winning.
pub open spec fn apply_comment(meta: InfoV, line: Seq<char>) -> InfoV {
    let p = find_from(line, 0, ';');
    if p >= line.len() {
        meta
    } else {
        let comment = trim_spec(line.subrange(p + 1, line.len() as int));
        let te = scan_nonspace(comment, 0);
        let tag = comment.subrange(0, te);
        let value = Some(trim_spec(comment.subrange(te, comment.len() as int)));
        if tag == "redcode"@ {
            InfoV { redcode: value, ..meta }
        } else if tag == "name"@ {
            InfoV { name: value, ..meta }
        } else if tag == "author"@ {
            InfoV { author: value, ..meta }
        } else if tag == "date"@ {
            InfoV { date: value, ..meta }
        } else if tag == "version"@ {
            InfoV { version: value, ..meta }
        } else if tag == "assertion"@ {
            InfoV { assertion: value, ..meta }
        } else {
            meta
        }
    }
}

/// Cleans one physical line: the comment feeds the metadata; an empty
/// code part drops the line; an `ORG`/`END` directive may set the origin
/// once, later attempts only warn and drop the line; an `ORG` without an
/// argument warns and drops the line.
pub open spec fn clean_step(st: CleanStateV, line: Seq<char>) -> CleanStateV {
    let meta = apply_comment(st.meta, line);
    let code = line_code(line);
    if code.len() == 0 {
        CleanStateV { meta, ..st }
    } else {
        let toks = split_ws(code);
        if toks.len() > 0 && (upper_seq(toks[0]) == PseudoOpcode::Org.name_spec() || upper_seq(
            toks[0],
        ) == PseudoOpcode::End.name_spec()) {
            if toks.len() >= 2 {
                if st.origin is Some {
                    CleanStateV { meta, warnings: st.warnings.push(Warning::DuplicateOrigin), ..st }
                } else {
                    CleanStateV {
                        meta,
                        origin: Some(toks[1]),
                        lines: st.lines.push(code),
                        ..st
                    }
                }
            } else if upper_seq(toks[0]) == PseudoOpcode::Org.name_spec() {
                CleanStateV {
                    meta,
                    warnings: st.warnings.push(Warning::MissingOriginArgument),
                    ..st
                }
            } else {
                CleanStateV { meta, lines: st.lines.push(code), ..st }
            }
        } else {
            CleanStateV { meta, lines: st.lines.push(code), ..st }
        }
    }
}

/// Cleans the lines from position `i` on, starting from state `st`.
pub open spec fn clean_fold(lines: Seq<Seq<char>>, i: int, st: CleanStateV) -> CleanStateV
    decreases lines.len() - i when 0 <= i <= lines.len()
{
    if i >= lines.len() {
        st
    } else {
        clean_fold(lines, i + 1, clean_step(st, lines[i]))
    }
}

/// The state cleaning starts from.
pub open spec fn clean_init() -> CleanStateV {
    CleanStateV {
        meta: Info::empty_spec(),
        origin: None,
        lines: Seq::empty(),
        warnings: Seq::empty(),
    }
}

/// What cleaning a whole source text yields.
pub open spec fn clean_spec(input: Seq<char>) -> CleanStateV {
    clean_fold(split_nl(input), 0, clean_init())
}

/// The cleaned form of a source text: the retained code lines, the
/// metadata, and the advisory warnings.
#[derive(Debug, PartialEq)]
pub struct Cleaned {
    pub lines: Vec<String>,
    pub metadata: Info,
    pub warnings: Vec<Warning>,
}

/// Cleans one line, updating the running state.
fn clean_line_exec(
    meta: &mut Info,
    origin: &mut Option<String>,
    lines: &mut Vec<String>,
    warnings: &mut Vec<Warning>,
    line: &Vec<char>,
)
    ensures
        ({
            let st0 = CleanStateV {
                meta: old(meta)@,
                origin: opt_string_view(*old(origin)),
                lines: string_views(old(lines)@),
                warnings: old(warnings)@,
            };
            let st1 = clean_step(st0, line@);
            &&& final(meta)@ == st1.meta
            &&& opt_string_view(*final(origin)) == st1.origin
            &&& string_views(final(lines)@) == st1.lines
            &&& final(warnings)@ == st1.warnings
        }),
{
    let ghost st0 = CleanStateV {
        meta: meta@,
        origin: opt_string_view(*origin),
        lines: string_views(lines@),
        warnings: warnings@,
    };
    // comment and metadata
    let p = find_from_exec(line, 0, ';');
    if p < line.len() {
        let raw_comment = subrange_chars(line, p + 1, line.len());
        let comment = trim(&raw_comment);
        let te = scan_nonspace_exec(&comment, 0);
        let tag = subrange_chars(&comment, 0, te);
        let value_chars = trim(&subrange_chars(&comment, te, comment.len()));
        let value = Some(chars_to_string(&value_chars));
        if chars_eq(&tag, &str_to_chars("redcode")) {
            meta.redcode = value;
        } else if chars_eq(&tag, &str_to_chars("name")) {
            meta.name = value;
        } else if chars_eq(&tag, &str_to_chars("author")) {
            meta.author = value;
        } else if chars_eq(&tag, &str_to_chars("date")) {
            meta.date = value;
        } else if chars_eq(&tag, &str_to_chars("version")) {
            meta.version = value;
        } else if chars_eq(&tag, &str_to_chars("assertion")) {
            meta.assertion = value;
        }
    }
    proof {
        assert(meta@ == apply_comment(st0.meta, line@));
    }
    // code part, directives, retained lines
    let code_end = if p < line.len() {
        p
    } else {
        line.len()
    };
    let code = trim(&subrange_chars(line, 0, code_end));
    proof {
        assert(line@.subrange(0, code_end as int) == line@.subrange(
            0,
            find_from(line@, 0, ';'),
        ));
        assert(code@ == line_code(line@));
    }
    if code.len() == 0 {
        return ;
    }
    let toks = split_tokens(&code);
    proof {
        assert(views(toks@) == split_ws(code@));
    }
    let is_directive = if toks.len() > 0 {
        let first = upper_chars(&toks[0]);
        let org = chars_eq(&first, &str_to_chars("ORG"));
        let end = chars_eq(&first, &str_to_chars("END"));
        proof {
            reveal_strlit("ORG");
            reveal_strlit("END");
            assert("ORG"@ =~= PseudoOpcode::Org.name_spec());
            assert("END"@ =~= PseudoOpcode::End.name_spec());
        }
        org || end
    } else {
        false
    };
    if is_directive {
        if toks.len() >= 2 {
            if origin.is_some() {
                warnings.push(Warning::DuplicateOrigin);
                return ;
            }
            *origin = Some(chars_to_string(&toks[1]));
            lines.push(chars_to_string(&code));
            proof {
                assert(string_views(lines@) =~= st0.lines.push(code@));
            }
            return ;
        }
        let first = upper_chars(&toks[0]);
        if chars_eq(&first, &str_to_chars("ORG")) {
            proof {
                reveal_strlit("ORG");
                assert("ORG"@ =~= PseudoOpcode::Org.name_spec());
            }
            warnings.push(Warning::MissingOriginArgument);
            return ;
        }
        proof {
            reveal_strlit("ORG");
            assert("ORG"@ =~= PseudoOpcode::Org.name_spec());
        }
        lines.push(chars_to_string(&code));
        proof {
            assert(string_views(lines@) =~= st0.lines.push(code@));
        }
        return ;
    }
    lines.push(chars_to_string(&code));
    proof {
        assert(string_views(lines@) =~= st0.lines.push(code@));
    }
}

impl Info {
    /// Cleans a raw source text: strips comments, extracts the tagged
    /// metadata, records the origin of the first valid `ORG`/`END`
    /// directive, and returns the retained code lines together with the
    /// metadata and the advisory warnings.
    pub fn extract_from_string(input: &str) -> (r: Cleaned)
        ensures
            ({
                let st = clean_spec(input@);
                &&& string_views(r.lines@) == st.lines
                &&& r.metadata@ == InfoV { origin: st.origin, ..st.meta }
                &&& r.warnings@ == st.warnings
            }),
    {
        let chars = str_to_chars(input);
        let phys = split_lines(&chars);
        let ghost all = views(phys@);
        let mut meta = Info::default();
        let mut origin: Option<String> = None;
        let mut lines: Vec<String> = Vec::new();
        let mut warnings: Vec<Warning> = Vec::new();
        let mut i: usize = 0;
        proof {
            assert(string_views(lines@) =~= Seq::<Seq<char>>::empty());
            assert(clean_fold(all, 0, CleanStateV {
                meta: meta@,
                origin: opt_string_view(origin),
                lines: string_views(lines@),
                warnings: warnings@,
            }) == clean_spec(input@));
        }
        while i < phys.len()
            invariant
                i <= phys.len(),
                all == views(phys@),
                all.len() == phys@.len(),
                forall|j: int| 0 <= j < all.len() ==> all[j] == phys@[j]@,
                clean_fold(all, i as int, CleanStateV {
                    meta: meta@,
                    origin: opt_string_view(origin),
                    lines: string_views(lines@),
                    warnings: warnings@,
                }) == clean_spec(input@),
            decreases phys.len() - i,
        {
            clean_line_exec(&mut meta, &mut origin, &mut lines, &mut warnings, &phys[i]);
            i = i + 1;
        }
        meta.origin = origin;
        Cleaned { lines, metadata: meta, warnings }
    }
}

} // verus!
