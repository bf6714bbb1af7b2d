use std::collections::HashMap;

use rowscript::error::Error;
use rowscript::theory::abs::data::{FieldMap, MetaKind, Term, TermList};
use rowscript::theory::abs::def::{Body, Def, Sigma};
use rowscript::theory::abs::unify::Unifier;
use rowscript::theory::{IdGen, Loc, LocalVar, Param, ParamInfo};

fn loc() -> Loc {
    Loc { line: 3, col: 7, start: 20, end: 25 }
}

fn fields(entries: Vec<(&str, Term)>) -> FieldMap {
    let mut f = FieldMap::Empty;
    for (n, t) in entries.into_iter().rev() {
        f = FieldMap::Entry(n.to_string(), Box::new(t), Box::new(f));
    }
    f
}

fn meta(sigma: &mut Sigma, m: &LocalVar, tele: Vec<Param<Term>>, ret: Term) {
    sigma.insert(
        m.id(),
        Def { loc: loc(), name: m.clone(), tele, ret: Box::new(ret), body: Body::Meta(None) },
    );
}

#[test]
fn unify_same_constants() {
    let mut ids = IdGen::new();
    let mut sigma: Sigma = HashMap::new();
    let mut u = Unifier::new(&mut sigma, &mut ids, loc());
    assert!(u.unify(&Term::Univ, &Term::Univ).is_ok());
    assert!(u.unify(&Term::Str("a".to_string()), &Term::Str("a".to_string())).is_ok());
    assert!(u.unify(&Term::Num("1.5".to_string()), &Term::Num("1.5".to_string())).is_ok());
}

#[test]
fn unify_different_constants_fails_at_location() {
    let mut ids = IdGen::new();
    let mut sigma: Sigma = HashMap::new();
    let mut u = Unifier::new(&mut sigma, &mut ids, loc());
    match u.unify(&Term::Univ, &Term::Number) {
        Err(Error::NonUnifiable(Term::Univ, Term::Number, l)) => assert_eq!(l, loc()),
        _ => panic!("expected a mismatch"),
    }
    assert!(u.unify(&Term::Str("a".to_string()), &Term::Str("b".to_string())).is_err());
}

#[test]
fn unify_solves_meta_and_keeps_first_solution() {
    let mut ids = IdGen::new();
    let m = LocalVar::named("?u1", &mut ids);
    let mut sigma: Sigma = HashMap::new();
    meta(&mut sigma, &m, vec![], Term::Univ);
    {
        let mut u = Unifier::new(&mut sigma, &mut ids, loc());
        assert!(u.unify(&Term::MetaRef(MetaKind::UserMeta, m.clone(), TermList::Nil), &Term::Number).is_ok());
        assert!(u.unify(&Term::String, &Term::MetaRef(MetaKind::UserMeta, m.clone(), TermList::Nil)).is_ok());
    }
    match &sigma.get(&m.id()).unwrap().body {
        Body::Meta(Some(Term::Number)) => {},
        _ => panic!("the first solution stays"),
    }
}

#[test]
fn unify_meta_with_parameter_unifies_types() {
    let mut ids = IdGen::new();
    let m = LocalVar::named("?u1", &mut ids);
    let k = LocalVar::named("?u2", &mut ids);
    let x = LocalVar::named("x", &mut ids);
    let mut sigma: Sigma = HashMap::new();
    meta(&mut sigma, &k, vec![], Term::Univ);
    let tele = vec![Param { var: x.clone(), info: ParamInfo::Explicit, typ: Box::new(Term::Number) }];
    meta(&mut sigma, &m, tele, Term::MetaRef(MetaKind::InsertedMeta, k.clone(), TermList::Nil));
    {
        let mut u = Unifier::new(&mut sigma, &mut ids, loc());
        assert!(u.unify(&Term::MetaRef(MetaKind::UserMeta, m.clone(), TermList::Nil), &Term::Ref(x.clone())).is_ok());
    }
    assert!(matches!(&sigma.get(&m.id()).unwrap().body, Body::Meta(Some(Term::Ref(v))) if *v == x));
    assert!(matches!(&sigma.get(&k.id()).unwrap().body, Body::Meta(Some(Term::Number))));
}

#[test]
fn unify_unfolds_aliases() {
    let mut ids = IdGen::new();
    let t = LocalVar::named("T", &mut ids);
    let mut sigma: Sigma = HashMap::new();
    sigma.insert(
        t.id(),
        Def { loc: loc(), name: t.clone(), tele: vec![], ret: Box::new(Term::Univ), body: Body::Alias(Box::new(Term::Number)) },
    );
    let mut u = Unifier::new(&mut sigma, &mut ids, loc());
    assert!(u.unify(&Term::Ref(t.clone()), &Term::Number).is_ok());
    assert!(u.unify(&Term::Number, &Term::Qualified("m".to_string(), t.clone())).is_ok());
    assert!(u.unify(&Term::Ref(t.clone()), &Term::String).is_err());
    assert!(u.unify(&Term::Ref(t.clone()), &Term::Ref(t.clone())).is_ok());
}

#[test]
fn unify_unknown_reference_fails() {
    let mut ids = IdGen::new();
    let a = LocalVar::named("a", &mut ids);
    let b = LocalVar::named("b", &mut ids);
    let mut sigma: Sigma = HashMap::new();
    let mut u = Unifier::new(&mut sigma, &mut ids, loc());
    assert!(matches!(u.unify(&Term::Ref(a), &Term::Ref(b)), Err(Error::NonUnifiable(_, _, _))));
}

#[test]
fn unify_binders_up_to_renaming() {
    let mut ids = IdGen::new();
    let x = LocalVar::named("x", &mut ids);
    let y = LocalVar::named("y", &mut ids);
    let pi = |v: &LocalVar| {
        Term::Pi(
            Param { var: v.clone(), info: ParamInfo::Explicit, typ: Box::new(Term::Univ) },
            Box::new(Term::Ref(v.clone())),
        )
    };
    let lam = |v: &LocalVar| {
        Term::Lam(
            Param { var: v.clone(), info: ParamInfo::Explicit, typ: Box::new(Term::Univ) },
            Box::new(Term::Ref(v.clone())),
        )
    };
    let mut sigma: Sigma = HashMap::new();
    let mut u = Unifier::new(&mut sigma, &mut ids, loc());
    assert!(u.unify(&pi(&x), &pi(&y)).is_ok());
    assert!(u.unify(&lam(&x), &lam(&y)).is_ok());
    let konst = Term::Pi(
        Param { var: y.clone(), info: ParamInfo::Explicit, typ: Box::new(Term::Univ) },
        Box::new(Term::Number),
    );
    assert!(u.unify(&pi(&x), &konst).is_err());
}

#[test]
fn unify_applications_need_same_kind() {
    let mut ids = IdGen::new();
    let f = || Box::new(Term::Number);
    let mut sigma: Sigma = HashMap::new();
    let mut u = Unifier::new(&mut sigma, &mut ids, loc());
    let a = Term::App(f(), ParamInfo::Explicit, Box::new(Term::TT));
    let b = Term::App(f(), ParamInfo::Implicit, Box::new(Term::TT));
    assert!(u.unify(&a, &Term::App(f(), ParamInfo::Explicit, Box::new(Term::TT))).is_ok());
    assert!(u.unify(&a, &b).is_err());
}

#[test]
fn unify_fields_eq_by_label() {
    let mut ids = IdGen::new();
    let mut sigma: Sigma = HashMap::new();
    let mut u = Unifier::new(&mut sigma, &mut ids, loc());
    let a = fields(vec![("a", Term::Number), ("b", Term::String)]);
    let b = fields(vec![("b", Term::String), ("a", Term::Number)]);
    assert!(u.unify_fields_eq(&a, &b).is_ok());
    assert!(u.unify(&Term::Fields(a.copy()), &Term::Fields(b.copy())).is_ok());
    let short = fields(vec![("a", Term::Number)]);
    assert!(matches!(u.unify_fields_eq(&a, &short), Err(Error::NonUnifiable(Term::Fields(_), Term::Fields(_), _))));
    let other = fields(vec![("a", Term::Number), ("c", Term::String)]);
    assert!(u.unify_fields_eq(&a, &other).is_err());
    let wrong = fields(vec![("a", Term::Number), ("b", Term::Number)]);
    assert!(matches!(u.unify_fields_eq(&a, &wrong), Err(Error::NonUnifiable(Term::String, Term::Number, _))));
}

#[test]
fn unify_fields_ord_needs_every_small_label() {
    let mut ids = IdGen::new();
    let mut sigma: Sigma = HashMap::new();
    let mut u = Unifier::new(&mut sigma, &mut ids, loc());
    let small = fields(vec![("a", Term::Number)]);
    let big = fields(vec![("b", Term::String), ("a", Term::Number)]);
    assert!(u.unify_fields_ord(&small, &big).is_ok());
    match u.unify_fields_ord(&big, &small) {
        Err(Error::NonRowSat(Term::Fields(_), Term::Fields(_), l)) => assert_eq!(l, loc()),
        _ => panic!("a missing label is a row error"),
    }
}

#[test]
fn unify_structures() {
    let mut ids = IdGen::new();
    let mut sigma: Sigma = HashMap::new();
    let mut u = Unifier::new(&mut sigma, &mut ids, loc());
    let t = Term::Object(Box::new(Term::Fields(fields(vec![("x", Term::Tuple(Box::new(Term::TT), Box::new(Term::Boolean)))]))));
    assert!(u.unify(&t, &t.copy()).is_ok());
    let e = Term::If(Box::new(Term::True), Box::new(Term::Unit), Box::new(Term::Row));
    let f = Term::If(Box::new(Term::True), Box::new(Term::Unit), Box::new(Term::BigInt));
    assert!(matches!(u.unify(&e, &f), Err(Error::NonUnifiable(Term::Row, Term::BigInt, _))));
}

#[test]
fn unify_unfolds_functions_renamed_apart() {
    let mut ids = IdGen::new();
    let f = LocalVar::named("f", &mut ids);
    let x = LocalVar::named("x", &mut ids);
    let y = LocalVar::named("y", &mut ids);
    let mut sigma: Sigma = HashMap::new();
    sigma.insert(
        f.id(),
        Def {
            loc: loc(),
            name: f.clone(),
            tele: vec![Param { var: x.clone(), info: ParamInfo::Explicit, typ: Box::new(Term::Univ) }],
            ret: Box::new(Term::Univ),
            body: Body::Fun(Box::new(Term::Ref(x.clone()))),
        },
    );
    let id = Term::Lam(
        Param { var: y.clone(), info: ParamInfo::Explicit, typ: Box::new(Term::Univ) },
        Box::new(Term::Ref(y.clone())),
    );
    let before = ids.peek();
    {
        let mut u = Unifier::new(&mut sigma, &mut ids, loc());
        assert!(u.unify(&Term::Ref(f.clone()), &id).is_ok());
    }
    assert_eq!(ids.peek(), before + 1);
}

#[test]
fn unify_within_stops_at_its_bound() {
    let mut ids = IdGen::new();
    let mut sigma: Sigma = HashMap::new();
    let mut u = Unifier::new(&mut sigma, &mut ids, loc());
    let t = Term::Object(Box::new(Term::Object(Box::new(Term::Univ))));
    assert!(u.unify_within(&t, &t.copy(), 0).is_none());
    assert!(u.unify_within(&t, &t.copy(), 2).is_none());
    assert!(matches!(u.unify_within(&t, &t.copy(), 3), Some(Ok(()))));
    let s = Term::Object(Box::new(Term::Object(Box::new(Term::Unit))));
    assert!(matches!(u.unify_within(&t, &s, 3), Some(Err(Error::NonUnifiable(Term::Univ, Term::Unit, _)))));
}
