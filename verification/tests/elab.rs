use rowscript::error::Error;
use rowscript::theory::abs::data::{MetaKind, Term, TermList};
use rowscript::theory::abs::def::Body;
use rowscript::theory::conc::elab::{ArgInfo, Elaborator};
use rowscript::theory::{IdGen, Loc, LocalVar, Param, ParamInfo};

fn loc() -> Loc {
    Loc { line: 2, col: 4, start: 10, end: 12 }
}

fn pi(v: LocalVar, info: ParamInfo, body: Term) -> Term {
    Term::Pi(Param { var: v, info, typ: Box::new(Term::Univ) }, Box::new(body))
}

fn chain(ids: &mut IdGen) -> Term {
    let a = LocalVar::named("A", ids);
    let b = LocalVar::named("B", ids);
    let x = LocalVar::named("x", ids);
    pi(a, ParamInfo::Implicit, pi(b, ParamInfo::Implicit, pi(x, ParamInfo::Explicit, Term::Unit)))
}

#[test]
fn holes_to_insert_counts_implicits_before_name() {
    let mut ids = IdGen::new();
    let ty = chain(&mut ids);
    assert_eq!(Elaborator::holes_to_insert(loc(), "A".to_string(), &ty).unwrap(), 0);
    assert_eq!(Elaborator::holes_to_insert(loc(), "B".to_string(), &ty).unwrap(), 1);
    match Elaborator::holes_to_insert(loc(), "C".to_string(), &ty) {
        Err(Error::UnresolvedImplicitParam(n, l)) => {
            assert_eq!(n, "C");
            assert_eq!(l, loc());
        },
        _ => panic!("an explicit parameter comes before the name"),
    }
}

#[test]
fn app_holes_by_argument_kind() {
    let mut ids = IdGen::new();
    let ty = chain(&mut ids);
    assert_eq!(Elaborator::app_holes(loc(), &ArgInfo::UnnamedExplicit, &ty).unwrap(), 1);
    assert_eq!(Elaborator::app_holes(loc(), &ArgInfo::UnnamedImplicit, &ty).unwrap(), 0);
    assert_eq!(Elaborator::app_holes(loc(), &ArgInfo::NamedImplicit("B".to_string()), &ty).unwrap(), 1);
    let explicit = pi(LocalVar::named("y", &mut ids), ParamInfo::Explicit, Term::Unit);
    assert_eq!(Elaborator::app_holes(loc(), &ArgInfo::UnnamedExplicit, &explicit).unwrap(), 0);
    assert_eq!(Elaborator::app_holes(loc(), &ArgInfo::UnnamedExplicit, &Term::Number).unwrap(), 0);
    assert!(Elaborator::app_holes(loc(), &ArgInfo::NamedImplicit("z".to_string()), &ty).is_err());
}

#[test]
fn insert_meta_makes_two_unsolved_metas() {
    let mut e = Elaborator::default();
    assert!(e.sigma.is_empty());
    let (hole, ty) = e.insert_meta(loc(), MetaKind::UserMeta);
    assert_eq!(e.sigma.len(), 2);
    let (hv, tv) = match (&hole, &ty) {
        (Term::MetaRef(MetaKind::UserMeta, hv, TermList::Nil), Term::MetaRef(MetaKind::UserMeta, tv, TermList::Nil)) => {
            (hv.clone(), tv.clone())
        },
        _ => panic!("a hole and its type are metavariables"),
    };
    assert_eq!(tv.as_str(), "?u1");
    assert_eq!(hv.as_str(), "?u2");
    let td = e.sigma.get(&tv.id()).unwrap();
    assert!(matches!(td.body, Body::Meta(None)));
    assert!(matches!(*td.ret, Term::Univ));
    let hd = e.sigma.get(&hv.id()).unwrap();
    assert!(matches!(hd.body, Body::Meta(None)));
    assert!(matches!(&*hd.ret, Term::MetaRef(_, v, _) if *v == tv));
    assert_eq!(hd.to_string(), "meta ?u2 : ?u1;");
    let (second, _) = e.insert_meta(loc(), MetaKind::InsertedMeta);
    assert_eq!(second.to_string(), "?u4");
    assert_eq!(e.sigma.len(), 4);
}
