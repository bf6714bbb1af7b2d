//! The errors of the compiler and how they are reported.

use vstd::prelude::*;

use vstd::string::StringExecFns;
use crate::theory::abs::data::{term_text, Term};
use crate::theory::Loc;

verus! {

/// Where a parse error was found: at a byte offset, or on a span of bytes.
#[derive(Debug, Clone, Copy, PartialEq, Eq, Structural)]
pub enum ParseLocation {
    Pos(usize),
    Span(usize, usize),
}

#[derive(Debug)]
pub enum Error {
    /// Reading a source failed; the text describes why.
    IO(String),
    /// The source does not match the grammar; the text is the parser's message.
    Parsing(ParseLocation, String),
    UnresolvedVar(Loc),
    DuplicateName(Loc),
    UnresolvedImplicitParam(String, Loc),
    ExpectedPi(Term, Loc),
    ExpectedSigma(Term, Loc),
    ExpectedObject(Term, Loc),
    ExpectedEnum(Term, Loc),
    FieldsUnknown(Term, Loc),
    ExpectedClass(Term, Loc),
    NonExhaustive(Term, Loc),
    UnresolvedField(String, Term, Loc),
    ExpectedInterface(Term, Loc),
    ExpectedAlias(Term, Loc),
    UnresolvedImplementation(Term, Loc),
    ExpectedImplementsOf(Term, Loc),
    NonUnifiable(Term, Term, Loc),
    NonRowSat(Term, Term, Loc),
    UnsolvedMeta(Term, Loc),
    NonErasable(Term, Loc),
}

/// The phase of the compiler in which an error arises.
#[derive(Debug, Clone, Copy, PartialEq, Eq, Structural)]
pub enum Stage {
    Parser,
    Resolver,
    Checker,
    Unifier,
    Codegen,
}

pub open spec fn stage_title(s: Stage) -> Seq<char> {
    match s {
        Stage::Parser => "failed while parsing"@,
        Stage::Resolver => "failed while resolving"@,
        Stage::Checker => "failed while typechecking"@,
        Stage::Unifier => "failed while unifying"@,
        Stage::Codegen => "failed while generating code"@,
    }
}

impl Stage {
    /// The title of a report of an error of this phase.
    pub fn title(&self) -> (t: &'static str)
        ensures
            t@ == stage_title(*self),
    {
        match self {
            Stage::Parser => "failed while parsing",
            Stage::Resolver => "failed while resolving",
            Stage::Checker => "failed while typechecking",
            Stage::Unifier => "failed while unifying",
            Stage::Codegen => "failed while generating code",
        }
    }
}

/// What a report of an error shows: the byte range of the source that it
/// marks, the phase that failed, and the label of the marked range, if any.
#[derive(Debug)]
pub struct Report {
    pub start: usize,
    pub end: usize,
    pub stage: Stage,
    pub label: Option<String>,
}

/// `"` + text + `"`.
pub open spec fn quoted(s: Seq<char>) -> Seq<char> {
    "\""@ + s + "\""@
}

/// The message of an error.
pub open spec fn error_text(e: Error) -> Seq<char> {
    match e {
        Error::IO(_) => "IO error"@,
        Error::Parsing(_, _) => "parse error"@,
        Error::UnresolvedVar(_) => "unresolved variable"@,
        Error::DuplicateName(_) => "duplicate name"@,
        Error::UnresolvedImplicitParam(n, _) => "unresolved implicit parameter "@ + quoted(n@),
        Error::ExpectedPi(t, _) => "expected function type, got "@ + quoted(term_text(t)),
        Error::ExpectedSigma(t, _) => "expected tuple type, got "@ + quoted(term_text(t)),
        Error::ExpectedObject(t, _) => "expected object type, got "@ + quoted(term_text(t)),
        Error::ExpectedEnum(t, _) => "expected enum type, got "@ + quoted(term_text(t)),
        Error::FieldsUnknown(t, _) => "fields not known yet, got "@ + quoted(term_text(t)),
        Error::ExpectedClass(t, _) => "expected class type, got "@ + quoted(term_text(t)),
        Error::NonExhaustive(t, _) => "not exhaustive, got "@ + quoted(term_text(t)),
        Error::UnresolvedField(n, t, _) => "unresolved field "@ + quoted(n@) + " in "@ + quoted(
            term_text(t),
        ),
        Error::ExpectedInterface(t, _) => "expected interface type, got "@ + quoted(term_text(t)),
        Error::ExpectedAlias(t, _) => "expected type alias, got "@ + quoted(term_text(t)),
        Error::UnresolvedImplementation(t, _) => "unresolved implementation, got "@ + quoted(
            term_text(t),
        ),
        Error::ExpectedImplementsOf(t, _) => "expected constraint, got "@ + quoted(term_text(t)),
        Error::NonUnifiable(a, b, _) => "expected "@ + quoted(term_text(a)) + ", found "@ + quoted(
            term_text(b),
        ),
        Error::NonRowSat(a, b, _) => "field(s) "@ + quoted(term_text(a)) + " not contained in "@
            + quoted(term_text(b)),
        Error::UnsolvedMeta(t, _) => "unsolved meta "@ + quoted(term_text(t)),
        Error::NonErasable(t, _) => "not erasable term "@ + quoted(term_text(t)),
    }
}

/// The phase in which an error arises.
pub open spec fn error_stage(e: Error) -> Stage {
    match e {
        Error::IO(_) | Error::Parsing(_, _) => Stage::Parser,
        Error::UnresolvedVar(_) | Error::DuplicateName(_) => Stage::Resolver,
        Error::NonUnifiable(_, _, _) | Error::NonRowSat(_, _, _) => Stage::Unifier,
        Error::UnsolvedMeta(_, _) | Error::NonErasable(_, _) => Stage::Codegen,
        _ => Stage::Checker,
    }
}

/// The location that an error of a later phase than parsing carries.
pub open spec fn error_loc(e: Error) -> Loc {
    match e {
        Error::UnresolvedVar(l) => l,
        Error::DuplicateName(l) => l,
        Error::UnresolvedImplicitParam(_, l) => l,
        Error::ExpectedPi(_, l) => l,
        Error::ExpectedSigma(_, l) => l,
        Error::ExpectedObject(_, l) => l,
        Error::ExpectedEnum(_, l) => l,
        Error::FieldsUnknown(_, l) => l,
        Error::ExpectedClass(_, l) => l,
        Error::NonExhaustive(_, l) => l,
        Error::UnresolvedField(_, _, l) => l,
        Error::ExpectedInterface(_, l) => l,
        Error::ExpectedAlias(_, l) => l,
        Error::UnresolvedImplementation(_, l) => l,
        Error::ExpectedImplementsOf(_, l) => l,
        Error::NonUnifiable(_, _, l) => l,
        Error::NonRowSat(_, _, l) => l,
        Error::UnsolvedMeta(_, l) => l,
        Error::NonErasable(_, l) => l,
        _ => Loc { line: 0, col: 0, start: 0, end: 0 },
    }
}

fn push_quoted_term(out: &mut String, t: &Term)
    ensures
        final(out)@ == old(out)@ + quoted(term_text(*t)),
{
    let ghost start = out@;
    out.append("\"");
    let s = t.to_string();
    out.append(s.as_str());
    out.append("\"");
    assert(out@ =~= start + quoted(term_text(*t)));
}

fn push_quoted_str(out: &mut String, n: &String)
    ensures
        final(out)@ == old(out)@ + quoted(n@),
{
    let ghost start = out@;
    out.append("\"");
    out.append(n.as_str());
    out.append("\"");
    assert(out@ =~= start + quoted(n@));
}

impl Error {
    /// The message of the error.
    pub fn to_string(&self) -> (s: String)
        ensures
            s@ == error_text(*self),
    {
        let mut s = String::new();
        match self {
            Error::IO(_) => s.append("IO error"),
            Error::Parsing(_, _) => s.append("parse error"),
            Error::UnresolvedVar(_) => s.append("unresolved variable"),
            Error::DuplicateName(_) => s.append("duplicate name"),
            Error::UnresolvedImplicitParam(n, _) => {
                s.append("unresolved implicit parameter ");
                push_quoted_str(&mut s, n);
            },
            Error::ExpectedPi(t, _) => {
                s.append("expected function type, got ");
                push_quoted_term(&mut s, t);
            },
            Error::ExpectedSigma(t, _) => {
                s.append("expected tuple type, got ");
                push_quoted_term(&mut s, t);
            },
            Error::ExpectedObject(t, _) => {
                s.append("expected object type, got ");
                push_quoted_term(&mut s, t);
            },
            Error::ExpectedEnum(t, _) => {
                s.append("expected enum type, got ");
                push_quoted_term(&mut s, t);
            },
            Error::FieldsUnknown(t, _) => {
                s.append("fields not known yet, got ");
                push_quoted_term(&mut s, t);
            },
            Error::ExpectedClass(t, _) => {
                s.append("expected class type, got ");
                push_quoted_term(&mut s, t);
            },
            Error::NonExhaustive(t, _) => {
                s.append("not exhaustive, got ");
                push_quoted_term(&mut s, t);
            },
            Error::UnresolvedField(n, t, _) => {
                s.append("unresolved field ");
                push_quoted_str(&mut s, n);
                s.append(" in ");
                push_quoted_term(&mut s, t);
            },
            Error::ExpectedInterface(t, _) => {
                s.append("expected interface type, got ");
                push_quoted_term(&mut s, t);
            },
            Error::ExpectedAlias(t, _) => {
                s.append("expected type alias, got ");
                push_quoted_term(&mut s, t);
            },
            Error::UnresolvedImplementation(t, _) => {
                s.append("unresolved implementation, got ");
                push_quoted_term(&mut s, t);
            },
            Error::ExpectedImplementsOf(t, _) => {
                s.append("expected constraint, got ");
                push_quoted_term(&mut s, t);
            },
            Error::NonUnifiable(a, b, _) => {
                s.append("expected ");
                push_quoted_term(&mut s, a);
                s.append(", found ");
                push_quoted_term(&mut s, b);
            },
            Error::NonRowSat(a, b, _) => {
                s.append("field(s) ");
                push_quoted_term(&mut s, a);
                s.append(" not contained in ");
                push_quoted_term(&mut s, b);
            },
            Error::UnsolvedMeta(t, _) => {
                s.append("unsolved meta ");
                push_quoted_term(&mut s, t);
            },
            Error::NonErasable(t, _) => {
                s.append("not erasable term ");
                push_quoted_term(&mut s, t);
            },
        }
        assert(s@ =~= error_text(*self));
        s
    }

    /// The report of the error on a source of `source_len` bytes: an
    /// input/output error marks nothing; a parse error marks from its
    /// position to the end of the source, or its span, with the parser's
    /// message; any other error marks its location with its own message.
    pub fn report(&self, source_len: usize) -> (r: Report)
        ensures
            r.stage == error_stage(*self),
            match *self {
                Error::IO(_) => r.start == 0 && r.end == 0 && r.label is None,
                Error::Parsing(at, msg) => {
                    &&& match at {
                        ParseLocation::Pos(p) => r.start == p && r.end == source_len,
                        ParseLocation::Span(a, b) => r.start == a && r.end == b,
                    }
                    &&& r.label matches Some(l) && l@ == msg@
                },
                _ => {
                    &&& r.start == error_loc(*self).start
                    &&& r.end == error_loc(*self).end
                    &&& r.label matches Some(l) && l@ == error_text(*self)
                },
            },
    {
        match self {
            Error::IO(_) => Report { start: 0, end: 0, stage: Stage::Parser, label: None },
            Error::Parsing(at, msg) => {
                let (start, end) = match at {
                    ParseLocation::Pos(p) => (*p, source_len),
                    ParseLocation::Span(a, b) => (*a, *b),
                };
                Report { start, end, stage: Stage::Parser, label: Some(msg.clone()) }
            },
            _ => {
                let loc = self.loc();
                let stage = self.stage();
                Report { start: loc.start, end: loc.end, stage, label: Some(self.to_string()) }
            },
        }
    }

    /// The phase in which the error arises.
    pub fn stage(&self) -> (s: Stage)
        ensures
            s == error_stage(*self),
    {
        match self {
            Error::IO(_) | Error::Parsing(_, _) => Stage::Parser,
            Error::UnresolvedVar(_) | Error::DuplicateName(_) => Stage::Resolver,
            Error::NonUnifiable(_, _, _) | Error::NonRowSat(_, _, _) => Stage::Unifier,
            Error::UnsolvedMeta(_, _) | Error::NonErasable(_, _) => Stage::Codegen,
            _ => Stage::Checker,
        }
    }

    fn loc(&self) -> (l: Loc)
        ensures
            l == error_loc(*self),
    {
        match self {
            Error::UnresolvedVar(l) => *l,
            Error::DuplicateName(l) => *l,
            Error::UnresolvedImplicitParam(_, l) => *l,
            Error::ExpectedPi(_, l) => *l,
            Error::ExpectedSigma(_, l) => *l,
            Error::ExpectedObject(_, l) => *l,
            Error::ExpectedEnum(_, l) => *l,
            Error::FieldsUnknown(_, l) => *l,
            Error::ExpectedClass(_, l) => *l,
            Error::NonExhaustive(_, l) => *l,
            Error::UnresolvedField(_, _, l) => *l,
            Error::ExpectedInterface(_, l) => *l,
            Error::ExpectedAlias(_, l) => *l,
            Error::UnresolvedImplementation(_, l) => *l,
            Error::ExpectedImplementsOf(_, l) => *l,
            Error::NonUnifiable(_, _, l) => *l,
            Error::NonRowSat(_, _, l) => *l,
            Error::UnsolvedMeta(_, l) => *l,
            Error::NonErasable(_, l) => *l,
            _ => Loc { line: 0, col: 0, start: 0, end: 0 },
        }
    }
}

} // verus!
