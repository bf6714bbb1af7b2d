use std::collections::HashMap;

use rowscript::theory::abs::data::{FieldMap, MetaKind, Term, TermList};
use rowscript::theory::abs::def::{gamma_to_tele, Body, Def, Gamma, Method};
use rowscript::theory::abs::rename::rename;
use rowscript::theory::{IdGen, Loc, LocalVar, Param, ParamInfo};

fn loc() -> Loc {
    Loc { line: 1, col: 1, start: 0, end: 0 }
}

fn param(v: &LocalVar, info: ParamInfo, typ: Term) -> Param<Term> {
    Param { var: v.clone(), info, typ: Box::new(typ) }
}

#[test]
fn constant_constraint_is_unsolved_meta() {
    let mut ids = IdGen::new();
    let c = LocalVar::named("c", &mut ids);
    let d: Def<Term> = Def::new_constant_constraint(loc(), c, Box::new(Term::Univ));
    assert!(d.tele.is_empty());
    assert!(matches!(d.body, Body::Meta(None)));
    assert!(matches!(*d.ret, Term::Univ));
    assert_eq!(d.to_string(), "meta c : type;");
}

#[test]
fn def_text_of_each_body() {
    let mut ids = IdGen::new();
    let f = LocalVar::named("f", &mut ids);
    let x = LocalVar::named("x", &mut ids);
    let tele = || vec![param(&x, ParamInfo::Explicit, Term::Number)];
    let fun = Def {
        loc: loc(),
        name: f.clone(),
        tele: tele(),
        ret: Box::new(Term::Number),
        body: Body::Fun(Box::new(Term::Ref(x.clone()))),
    };
    assert_eq!(fun.to_string(), "function f (x: number): number {\n\tx\n}");
    let post = Def { loc: loc(), name: f.clone(), tele: tele(), ret: Box::new(Term::Number), body: Body::Postulate };
    assert_eq!(post.to_string(), "declare f(x: number): number;");
    let alias = Def {
        loc: loc(),
        name: f.clone(),
        tele: vec![],
        ret: Box::new(Term::Univ),
        body: Body::Alias(Box::new(Term::Number)),
    };
    assert_eq!(alias.to_string(), "type f: type = number;");
    let undef = Def { loc: loc(), name: f.clone(), tele: tele(), ret: Box::new(Term::Number), body: Body::Undefined };
    assert_eq!(undef.to_string(), "undefined f (x: number): number");
    let solved = Def {
        loc: loc(),
        name: f.clone(),
        tele: vec![],
        ret: Box::new(Term::Univ),
        body: Body::Meta(Some(Term::String)),
    };
    assert_eq!(solved.to_string(), "meta f : type {\n\tstring\n}");
}

#[test]
fn class_text() {
    let mut ids = IdGen::new();
    let c = LocalVar::named("C", &mut ids);
    let a = LocalVar::named("a", &mut ids);
    let b = LocalVar::named("b", &mut ids);
    let m = LocalVar::named("get", &mut ids);
    let meth = Method {
        loc: loc(),
        name: m,
        tele: vec![],
        ret: Box::new(Term::Number),
        body: Box::new(Term::Ref(a.clone())),
    };
    assert_eq!(meth.to_string(), "get: number {\n\ta\n}");
    let class = Def {
        loc: loc(),
        name: c,
        tele: vec![],
        ret: Box::new(Term::Univ),
        body: Body::Class(
            vec![param(&a, ParamInfo::Explicit, Term::Number), param(&b, ParamInfo::Explicit, Term::String)],
            vec![meth],
        ),
    };
    assert_eq!(class.to_string(), "class C {\n\ta: number;\n\tb: string;\nget: number {\n\ta\n}\n}");
}

#[test]
fn method_from_function_def() {
    let mut ids = IdGen::new();
    let f = LocalVar::named("f", &mut ids);
    let d = Def {
        loc: loc(),
        name: f,
        tele: vec![],
        ret: Box::new(Term::Unit),
        body: Body::Fun(Box::new(Term::TT)),
    };
    let m = Method::from_def(d);
    assert_eq!(m.name.as_str(), "f");
    assert!(matches!(*m.body, Term::TT));
    assert_eq!(m.to_string(), "f: unit {\n\t()\n}");
}

#[test]
fn to_term_of_each_body() {
    let mut ids = IdGen::new();
    let f = LocalVar::named("f", &mut ids);
    let x = LocalVar::named("x", &mut ids);
    let post: Def<Term> = Def { loc: loc(), name: f.clone(), tele: vec![], ret: Box::new(Term::Univ), body: Body::Postulate };
    match *post.to_term(f.clone(), &mut ids) {
        Term::Ref(v) => assert!(v == f),
        _ => panic!("a postulate stands for a reference"),
    }
    let undef: Def<Term> = Def { loc: loc(), name: f.clone(), tele: vec![], ret: Box::new(Term::Univ), body: Body::Undefined };
    assert!(matches!(*undef.to_term(f.clone(), &mut ids), Term::Undef(_)));
    let alias = Def {
        loc: loc(),
        name: f.clone(),
        tele: vec![param(&x, ParamInfo::Implicit, Term::Univ)],
        ret: Box::new(Term::Univ),
        body: Body::Alias(Box::new(Term::Ref(x.clone()))),
    };
    let t = alias.to_term(f.clone(), &mut ids);
    assert_eq!(t.to_string(), "{x: type} => x");
    match *t {
        Term::Lam(p, b) => {
            assert!(p.var != x);
            assert_eq!(p.var.as_str(), "x");
            assert!(matches!(*b, Term::Ref(v) if v == p.var));
        },
        _ => panic!("an alias over a telescope stands for a lambda"),
    }
}

#[test]
fn gamma_to_tele_lists_every_entry() {
    let mut ids = IdGen::new();
    let x = LocalVar::named("x", &mut ids);
    let y = LocalVar::named("y", &mut ids);
    let mut g: Gamma = HashMap::new();
    g.insert(x.id(), (x.clone(), Box::new(Term::Number)));
    g.insert(y.id(), (y.clone(), Box::new(Term::String)));
    let tele = gamma_to_tele(&g);
    assert_eq!(tele.len(), 2);
    let mut texts: Vec<String> = tele.iter().map(|p| p.to_string()).collect();
    texts.sort();
    assert_eq!(texts, vec!["(x: number)".to_string(), "(y: string)".to_string()]);
    assert!(tele.iter().all(|p| p.info == ParamInfo::Explicit));
    let empty: Gamma = HashMap::new();
    assert!(gamma_to_tele(&empty).is_empty());
}

#[test]
fn term_text_samples() {
    let mut ids = IdGen::new();
    let x = LocalVar::named("x", &mut ids);
    let f = LocalVar::named("f", &mut ids);
    let pi = Term::Pi(param(&x, ParamInfo::Explicit, Term::Univ), Box::new(Term::Ref(x.clone())));
    assert_eq!(pi.to_string(), "(x: type) -> x");
    let app = Term::App(Box::new(Term::Ref(f.clone())), ParamInfo::Implicit, Box::new(Term::Number));
    assert_eq!(app.to_string(), "(f {number})");
    let app2 = Term::App(Box::new(Term::Ref(f.clone())), ParamInfo::Explicit, Box::new(Term::Str("hi".to_string())));
    assert_eq!(app2.to_string(), "(f \"hi\")");
    let fields = FieldMap::Entry(
        "a".to_string(),
        Box::new(Term::Number),
        Box::new(FieldMap::Entry("b".to_string(), Box::new(Term::String), Box::new(FieldMap::Empty))),
    );
    assert_eq!(Term::Object(Box::new(Term::Fields(fields))).to_string(), "{(a: number, b: string)}");
    let cond = Term::If(Box::new(Term::True), Box::new(Term::Num("1".to_string())), Box::new(Term::Big("2n".to_string())));
    assert_eq!(cond.to_string(), "if true { 1 } else { 2n }");
    let tuple = Term::Tuple(Box::new(Term::TT), Box::new(Term::False));
    assert_eq!(tuple.to_string(), "((), false)");
    let meta = Term::MetaRef(MetaKind::UserMeta, LocalVar::named("?u1", &mut ids), TermList::Nil);
    assert_eq!(meta.to_string(), "?u1");
}

#[test]
fn rename_replaces_free_references_only() {
    let mut ids = IdGen::new();
    let x = LocalVar::named("x", &mut ids);
    let z = LocalVar::named("z", &mut ids);
    let free = Term::Tuple(Box::new(Term::Ref(x.clone())), Box::new(Term::Ref(x.clone())));
    assert_eq!(free.rename(&x, &z).to_string(), "(z, z)");
    let bound = Term::Lam(param(&x, ParamInfo::Explicit, Term::Ref(x.clone())), Box::new(Term::Ref(x.clone())));
    assert_eq!(bound.rename(&x, &z).to_string(), "(x: z) => x");
    let other = Term::Ref(z.clone());
    assert_eq!(other.rename(&x, &z).to_string(), "z");
}

#[test]
fn lam_over_telescope() {
    let mut ids = IdGen::new();
    let x = LocalVar::named("x", &mut ids);
    let y = LocalVar::named("y", &mut ids);
    let tele = vec![param(&x, ParamInfo::Implicit, Term::Univ), param(&y, ParamInfo::Explicit, Term::Ref(x.clone()))];
    let t = Term::lam(&tele, Term::Ref(y.clone()));
    assert_eq!(t.to_string(), "{x: type} => (y: x) => y");
    assert_eq!(Term::lam(&vec![], Term::TT).to_string(), "()");
}

#[test]
fn field_map_lookup_and_size() {
    let a = FieldMap::Entry(
        "a".to_string(),
        Box::new(Term::Number),
        Box::new(FieldMap::Entry("b".to_string(), Box::new(Term::String), Box::new(FieldMap::Empty))),
    );
    let b = FieldMap::Entry("b".to_string(), Box::new(Term::Boolean), Box::new(FieldMap::Empty));
    assert!(matches!(a.get(&"b".to_string()), Some(Term::String)));
    assert!(a.get(&"c".to_string()).is_none());
    assert!(!a.same_len(&b));
    assert!(a.same_len(&a.copy()));
}

#[test]
fn rename_in_term_without_variables_changes_nothing() {
    let mut ids = IdGen::new();
    let x = LocalVar::named("x", &mut ids);
    let z = LocalVar::named("z", &mut ids);
    let t = Term::Lam(
        param(&x, ParamInfo::Explicit, Term::Number),
        Box::new(Term::Tuple(Box::new(Term::Str("s".to_string())), Box::new(Term::Unit))),
    );
    assert_eq!(t.rename(&x, &z).to_string(), t.to_string());
}

#[test]
fn rename_gives_binders_fresh_variables() {
    let mut ids = IdGen::new();
    let x = LocalVar::named("x", &mut ids);
    let free = LocalVar::named("z", &mut ids);
    // fun (x: type) => (x z)
    let t = Term::Lam(
        param(&x, ParamInfo::Explicit, Term::Univ),
        Box::new(Term::App(Box::new(Term::Ref(x.clone())), ParamInfo::Explicit, Box::new(Term::Ref(free.clone())))),
    );
    let before = ids.peek();
    let r = rename(&t, &mut ids);
    assert_eq!(ids.peek(), before + 1);
    assert_eq!(r.to_string(), "(x: type) => (x z)");
    match *r {
        Term::Lam(p, b) => {
            assert!(p.var != x);
            assert_eq!(p.var.id(), before);
            match *b {
                Term::App(f, _, a) => {
                    assert!(matches!(*f, Term::Ref(ref v) if *v == p.var));
                    assert!(matches!(*a, Term::Ref(ref v) if *v == free));
                },
                _ => panic!("the body stays an application"),
            }
        },
        _ => panic!("a lambda stays a lambda"),
    }
}
