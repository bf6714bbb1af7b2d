use rowscript::codegen::Es6;
use rowscript::theory::abs::data::Term;
use rowscript::theory::conc::elab::Elaborator;
use rowscript::theory::{IdGen, Loc, LocalVar, Param, ParamInfo, VarGen};

#[test]
fn loc_from_span_counts_lines_and_columns() {
    let src = "ab\ncd";
    let loc = Loc::from_span(src, 4, 5);
    assert_eq!(loc.line, 2);
    assert_eq!(loc.col, 2);
    assert_eq!(loc.start, 4);
    assert_eq!(loc.end, 5);
    assert_eq!(loc.to_string(), "2:2");
}

#[test]
fn loc_from_span_at_start() {
    let loc = Loc::from_span("hello", 0, 5);
    assert_eq!((loc.line, loc.col), (1, 1));
    assert_eq!(loc.to_string(), "1:1");
}

#[test]
fn loc_from_span_crlf_is_one_break() {
    let loc = Loc::from_span("a\r\nbc", 4, 4);
    assert_eq!((loc.line, loc.col), (2, 2));
    let lone = Loc::from_span("a\rb", 2, 3);
    assert_eq!((lone.line, lone.col), (1, 3));
}

#[test]
fn loc_from_span_counts_characters_not_bytes() {
    let src = "é\né€x";
    let pos = src.find('x').unwrap();
    let loc = Loc::from_span(src, pos, pos + 1);
    assert_eq!((loc.line, loc.col), (2, 3));
}

#[test]
fn local_var_names() {
    let mut ids = IdGen::new();
    let u = LocalVar::unbound(&mut ids);
    let t = LocalVar::tupled(&mut ids);
    let r = t.untupled_right(&mut ids);
    assert_eq!(u.as_str(), "_");
    assert_eq!(t.to_string(), "_tupled");
    assert_eq!(r.as_str(), "_untupled__tupled");
    assert_eq!(u.id(), 0);
    assert_eq!(t.id(), 1);
    assert_eq!(r.id(), 2);
}

#[test]
fn local_var_equality_is_identity() {
    let mut ids = IdGen::new();
    let a = LocalVar::unbound(&mut ids);
    let b = LocalVar::unbound(&mut ids);
    assert!(a != b);
    assert!(a == a.clone());
    assert_eq!(a.as_str(), b.as_str());
}

#[test]
fn var_gen_fresh_names() {
    let mut ids = IdGen::new();
    let mut u = VarGen::user_meta();
    let mut i = VarGen::inserted_meta();
    assert_eq!(u.fresh(&mut ids).as_str(), "?u1");
    assert_eq!(u.fresh(&mut ids).as_str(), "?u2");
    assert_eq!(i.fresh(&mut ids).as_str(), "?i1");
    for _ in 0..7 {
        u.fresh(&mut ids);
    }
    assert_eq!(u.fresh(&mut ids).as_str(), "?u10");
}

#[test]
fn id_gen_issues_increasing_ids() {
    let mut ids = IdGen::new();
    assert_eq!(ids.issue(), 0);
    assert_eq!(ids.issue(), 1);
    assert_eq!(ids.issue(), 2);
}

fn var(name: &str, ids: &mut IdGen) -> LocalVar {
    LocalVar::named(name, ids)
}

#[test]
fn param_and_tele_text() {
    let mut ids = IdGen::new();
    let x = var("x", &mut ids);
    let y = var("y", &mut ids);
    let px = Param { var: x, info: ParamInfo::Explicit, typ: Box::new(Term::Univ) };
    let py = Param { var: y, info: ParamInfo::Implicit, typ: Box::new(Term::Row) };
    assert_eq!(px.to_string(), "(x: type)");
    assert_eq!(py.to_string(), "{y: row}");
    let tele = vec![px, py];
    assert_eq!(Param::tele_to_string(&tele), "(x: type) {y: row}");
    let empty: Vec<Param<Term>> = vec![];
    assert_eq!(Param::tele_to_string(&empty), "");
}

#[test]
fn hole_insertable_unless_implicit_pi() {
    let mut ids = IdGen::new();
    let x = LocalVar::unbound(&mut ids);
    let y = LocalVar::unbound(&mut ids);
    let implicit = Term::Pi(
        Param { var: x, info: ParamInfo::Implicit, typ: Box::new(Term::Univ) },
        Box::new(Term::Univ),
    );
    let explicit = Term::Pi(
        Param { var: y, info: ParamInfo::Explicit, typ: Box::new(Term::Univ) },
        Box::new(Term::Univ),
    );
    assert!(!Elaborator::is_hole_insertable(&implicit));
    assert!(Elaborator::is_hole_insertable(&explicit));
    assert!(Elaborator::is_hole_insertable(&Term::Number));
}

#[test]
fn es6_target_exists() {
    let _target = Es6::default();
}

#[test]
fn variables_from_one_supply_differ() {
    let mut ids = IdGen::new();
    let a = LocalVar::unbound(&mut ids);
    let b = LocalVar::unbound(&mut ids);
    let c = LocalVar::named("x", &mut ids);
    let d = LocalVar::named("x", &mut ids);
    let e = c.untupled_right(&mut ids);
    assert!(a != b);
    assert!(c != d);
    assert!(e != c);
    assert_eq!(e.as_str(), "_untupled_x");
    assert_eq!(ids.peek(), 5);
}

#[test]
fn loc_text_writes_multi_digit_numbers() {
    let loc = Loc { line: 1205, col: 90, start: 0, end: 0 };
    assert_eq!(loc.to_string(), "1205:90");
    let zero = Loc { line: 0, col: 10, start: 0, end: 0 };
    assert_eq!(zero.to_string(), "0:10");
}
