use rowscript::error::{Error, ParseLocation, Stage};
use rowscript::theory::abs::data::Term;
use rowscript::theory::Loc;

fn loc() -> Loc {
    Loc { line: 7, col: 9, start: 40, end: 44 }
}

#[test]
fn error_messages() {
    assert_eq!(Error::UnresolvedVar(loc()).to_string(), "unresolved variable");
    assert_eq!(Error::DuplicateName(loc()).to_string(), "duplicate name");
    assert_eq!(
        Error::NonUnifiable(Term::Number, Term::String, loc()).to_string(),
        "expected \"number\", found \"string\""
    );
    assert_eq!(
        Error::UnresolvedField("a".to_string(), Term::Row, loc()).to_string(),
        "unresolved field \"a\" in \"row\""
    );
    assert_eq!(
        Error::UnresolvedImplicitParam("T".to_string(), loc()).to_string(),
        "unresolved implicit parameter \"T\""
    );
    assert_eq!(Error::ExpectedPi(Term::Unit, loc()).to_string(), "expected function type, got \"unit\"");
    assert_eq!(Error::IO("denied".to_string()).to_string(), "IO error");
}

#[test]
fn report_of_located_error() {
    let r = Error::UnresolvedVar(loc()).report(100);
    assert_eq!((r.start, r.end), (40, 44));
    assert_eq!(r.stage, Stage::Resolver);
    assert_eq!(r.label.as_deref(), Some("unresolved variable"));
    assert_eq!(r.stage.title(), "failed while resolving");
    let u = Error::NonRowSat(Term::Number, Term::String, loc()).report(100);
    assert_eq!(u.stage.title(), "failed while unifying");
    assert_eq!(u.label.as_deref(), Some("field(s) \"number\" not contained in \"string\""));
    let c = Error::NonExhaustive(Term::Row, loc()).report(100);
    assert_eq!(c.stage.title(), "failed while typechecking");
    let g = Error::UnsolvedMeta(Term::Row, loc()).report(100);
    assert_eq!(g.stage.title(), "failed while generating code");
}

#[test]
fn report_of_parse_and_io_errors() {
    let at = Error::Parsing(ParseLocation::Pos(5), "expected expr".to_string()).report(12);
    assert_eq!((at.start, at.end), (5, 12));
    assert_eq!(at.label.as_deref(), Some("expected expr"));
    assert_eq!(at.stage.title(), "failed while parsing");
    let span = Error::Parsing(ParseLocation::Span(2, 4), "bad".to_string()).report(12);
    assert_eq!((span.start, span.end), (2, 4));
    let io = Error::IO("gone".to_string()).report(12);
    assert_eq!((io.start, io.end), (0, 0));
    assert!(io.label.is_none());
    assert_eq!(io.stage, Stage::Parser);
}
