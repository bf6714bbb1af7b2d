//! Renaming a term apart: every binder gets a fresh variable of its name.

use vstd::prelude::*;

use crate::theory::abs::data::{fields_free_in, free_in, list_free_in, FieldMap, Term, TermList};
use crate::theory::{IdGen, LocalVar, Param, Var};

verus! {

broadcast use crate::theory::LocalVar::lemma_with_ident;

/// The variable bound last to the identity `x` in `env`, if any.
pub open spec fn env_lookup(env: Seq<(u64, Var)>, x: u64) -> Option<Var>
    decreases env.len(),
{
    if env.len() == 0 {
        None
    } else if env.last().0 == x {
        Some(env.last().1)
    } else {
        env_lookup(env.drop_last(), x)
    }
}

/// The number of binders in a term.
pub open spec fn binders(t: Term) -> nat
    decreases t,
{
    match t {
        Term::MetaRef(_, _, sp) => list_binders(sp),
        Term::Let(p, a, b) => binders(*p.typ) + binders(*a) + 1 + binders(*b),
        Term::Pi(p, b) => binders(*p.typ) + 1 + binders(*b),
        Term::Lam(p, b) => binders(*p.typ) + 1 + binders(*b),
        Term::App(f, _, x) => binders(*f) + binders(*x),
        Term::Sigma(p, b) => binders(*p.typ) + 1 + binders(*b),
        Term::Tuple(a, b) => binders(*a) + binders(*b),
        Term::TupleLet(p, q, a, b) => binders(*p.typ) + binders(*q.typ) + binders(*a) + 2
            + binders(*b),
        Term::UnitLet(a, b) => binders(*a) + binders(*b),
        Term::If(p, a, b) => binders(*p) + binders(*a) + binders(*b),
        Term::Fields(f) => fields_binders(f),
        Term::Object(r) => binders(*r),
        Term::Obj(r) => binders(*r),
        Term::Enum(r) => binders(*r),
        Term::Variant(r) => binders(*r),
        Term::Vptr(_, ts) => list_binders(ts),
        _ => 0,
    }
}

pub open spec fn fields_binders(f: FieldMap) -> nat
    decreases f,
{
    match f {
        FieldMap::Empty => 0,
        FieldMap::Entry(_, t, rest) => binders(*t) + fields_binders(*rest),
    }
}

pub open spec fn list_binders(l: TermList) -> nat
    decreases l,
{
    match l {
        TermList::Nil => 0,
        TermList::Cons(t, rest) => binders(*t) + list_binders(*rest),
    }
}

/// `t` renamed apart: walking it left to right, the binders get the
/// identities `n`, `n + 1`, ... in turn, each keeping its name; a reference
/// to a variable bound in `env` or by a binder of `t` refers to the renamed
/// variable, the innermost binding winning; other references stay.
pub open spec fn renamed(t: Term, env: Seq<(u64, Var)>, n: nat) -> Term
    decreases t,
{
    match t {
        Term::Ref(v) => match env_lookup(env, v.ident()) {
            Some(w) => Term::Ref(w),
            None => Term::Ref(v),
        },
        Term::MetaRef(k, v, sp) => Term::MetaRef(k, v, renamed_list(sp, env, n)),
        Term::Let(p, a, b) => {
            let n1 = n + binders(*p.typ);
            let n2 = n1 + binders(*a);
            let w = p.var.with_ident(n2 as u64);
            Term::Let(
                Param { var: w, info: p.info, typ: Box::new(renamed(*p.typ, env, n)) },
                Box::new(renamed(*a, env, n1)),
                Box::new(renamed(*b, env.push((p.var.ident(), w)), n2 + 1)),
            )
        },
        Term::Pi(p, b) => {
            let n1 = n + binders(*p.typ);
            let w = p.var.with_ident(n1 as u64);
            Term::Pi(
                Param { var: w, info: p.info, typ: Box::new(renamed(*p.typ, env, n)) },
                Box::new(renamed(*b, env.push((p.var.ident(), w)), n1 + 1)),
            )
        },
        Term::Lam(p, b) => {
            let n1 = n + binders(*p.typ);
            let w = p.var.with_ident(n1 as u64);
            Term::Lam(
                Param { var: w, info: p.info, typ: Box::new(renamed(*p.typ, env, n)) },
                Box::new(renamed(*b, env.push((p.var.ident(), w)), n1 + 1)),
            )
        },
        Term::App(f, i, x) => Term::App(
            Box::new(renamed(*f, env, n)),
            i,
            Box::new(renamed(*x, env, n + binders(*f))),
        ),
        Term::Sigma(p, b) => {
            let n1 = n + binders(*p.typ);
            let w = p.var.with_ident(n1 as u64);
            Term::Sigma(
                Param { var: w, info: p.info, typ: Box::new(renamed(*p.typ, env, n)) },
                Box::new(renamed(*b, env.push((p.var.ident(), w)), n1 + 1)),
            )
        },
        Term::Tuple(a, b) => Term::Tuple(
            Box::new(renamed(*a, env, n)),
            Box::new(renamed(*b, env, n + binders(*a))),
        ),
        Term::TupleLet(p, q, a, b) => {
            let n1 = n + binders(*p.typ);
            let n2 = n1 + binders(*q.typ);
            let n3 = n2 + binders(*a);
            let wp = p.var.with_ident(n3 as u64);
            let wq = q.var.with_ident((n3 + 1) as u64);
            Term::TupleLet(
                Param { var: wp, info: p.info, typ: Box::new(renamed(*p.typ, env, n)) },
                Param { var: wq, info: q.info, typ: Box::new(renamed(*q.typ, env, n1)) },
                Box::new(renamed(*a, env, n2)),
                Box::new(renamed(*b, env.push((p.var.ident(), wp)).push((q.var.ident(), wq)), n3 + 2)),
            )
        },
        Term::UnitLet(a, b) => Term::UnitLet(
            Box::new(renamed(*a, env, n)),
            Box::new(renamed(*b, env, n + binders(*a))),
        ),
        Term::If(p, a, b) => Term::If(
            Box::new(renamed(*p, env, n)),
            Box::new(renamed(*a, env, n + binders(*p))),
            Box::new(renamed(*b, env, n + binders(*p) + binders(*a))),
        ),
        Term::Fields(f) => Term::Fields(renamed_fields(f, env, n)),
        Term::Object(r) => Term::Object(Box::new(renamed(*r, env, n))),
        Term::Obj(r) => Term::Obj(Box::new(renamed(*r, env, n))),
        Term::Enum(r) => Term::Enum(Box::new(renamed(*r, env, n))),
        Term::Variant(r) => Term::Variant(Box::new(renamed(*r, env, n))),
        Term::Vptr(v, ts) => Term::Vptr(v, renamed_list(ts, env, n)),
        _ => t,
    }
}

pub open spec fn renamed_fields(f: FieldMap, env: Seq<(u64, Var)>, n: nat) -> FieldMap
    decreases f,
{
    match f {
        FieldMap::Empty => FieldMap::Empty,
        FieldMap::Entry(l, t, rest) => FieldMap::Entry(
            l,
            Box::new(renamed(*t, env, n)),
            Box::new(renamed_fields(*rest, env, n + binders(*t))),
        ),
    }
}

pub open spec fn renamed_list(l: TermList, env: Seq<(u64, Var)>, n: nat) -> TermList
    decreases l,
{
    match l {
        TermList::Nil => TermList::Nil,
        TermList::Cons(t, rest) => TermList::Cons(
            Box::new(renamed(*t, env, n)),
            Box::new(renamed_list(*rest, env, n + binders(*t))),
        ),
    }
}

/// `k` is the identity of one of the fresh variables bound in `env`.
pub open spec fn env_new(env: Seq<(u64, Var)>, k: u64) -> bool {
    exists|i: int| 0 <= i < env.len() && #[trigger] env[i].1.ident() == k
}

proof fn lemma_env_lookup_new(env: Seq<(u64, Var)>, x: u64)
    ensures
        env_lookup(env, x) matches Some(w) ==> env_new(env, w.ident()),
    decreases env.len(),
{
    if env.len() > 0 {
        if env.last().0 == x {
            assert(env[env.len() - 1].1.ident() == env.last().1.ident());
        } else {
            lemma_env_lookup_new(env.drop_last(), x);
            if let Some(w) = env_lookup(env.drop_last(), x) {
                let i = choose|i: int| 0 <= i < env.drop_last().len() && #[trigger] env.drop_last()[i].1.ident() == w.ident();
                assert(env[i].1.ident() == w.ident());
            }
        }
    }
}

proof fn lemma_env_push(env: Seq<(u64, Var)>, a: u64, w: Var, k: u64)
    ensures
        env_new(env.push((a, w)), k) ==> w.ident() == k || env_new(env, k),
        env_lookup(env.push((a, w)), k) == if a == k { Some(w) } else { env_lookup(env, k) },
{
    let e2 = env.push((a, w));
    assert(e2.drop_last() =~= env);
    if env_new(e2, k) {
        let i = choose|i: int| 0 <= i < e2.len() && #[trigger] e2[i].1.ident() == k;
        if i < env.len() {
            assert(env[i].1.ident() == k);
        }
    }
}

/// Renaming apart frees no variable: a variable free in the result is one of
/// the fresh variables bound in `env`, or a variable free in `t` that `env`
/// does not rename. In particular, every reference bound in `t` stays bound.
#[verifier::spinoff_prover]
#[verifier::rlimit(80)]
pub proof fn lemma_renamed_free(t: Term, env: Seq<(u64, Var)>, n: nat, k: u64)
    ensures
        free_in(renamed(t, env, n), k) ==> env_new(env, k) || (free_in(t, k) && env_lookup(env, k) is None),
    decreases t,
{
    match t {
        Term::Ref(v) => {
            lemma_env_lookup_new(env, v.ident());
        },
        Term::MetaRef(_, _, sp) => lemma_renamed_list_free(sp, env, n, k),
        Term::Let(p, a, b) => {
            let n1 = n + binders(*p.typ);
            let n2 = n1 + binders(*a);
            let w = p.var.with_ident(n2 as u64);
            lemma_renamed_free(*p.typ, env, n, k);
            lemma_renamed_free(*a, env, n1, k);
            lemma_renamed_free(*b, env.push((p.var.ident(), w)), n2 + 1, k);
            lemma_env_push(env, p.var.ident(), w, k);
        },
        Term::Pi(p, b) => {
            let n1 = n + binders(*p.typ);
            let w = p.var.with_ident(n1 as u64);
            lemma_renamed_free(*p.typ, env, n, k);
            lemma_renamed_free(*b, env.push((p.var.ident(), w)), n1 + 1, k);
            lemma_env_push(env, p.var.ident(), w, k);
        },
        Term::Lam(p, b) => {
            let n1 = n + binders(*p.typ);
            let w = p.var.with_ident(n1 as u64);
            lemma_renamed_free(*p.typ, env, n, k);
            lemma_renamed_free(*b, env.push((p.var.ident(), w)), n1 + 1, k);
            lemma_env_push(env, p.var.ident(), w, k);
        },
        Term::App(f, _, x) => {
            lemma_renamed_free(*f, env, n, k);
            lemma_renamed_free(*x, env, n + binders(*f), k);
        },
        Term::Sigma(p, b) => {
            let n1 = n + binders(*p.typ);
            let w = p.var.with_ident(n1 as u64);
            lemma_renamed_free(*p.typ, env, n, k);
            lemma_renamed_free(*b, env.push((p.var.ident(), w)), n1 + 1, k);
            lemma_env_push(env, p.var.ident(), w, k);
        },
        Term::Tuple(a, b) => {
            lemma_renamed_free(*a, env, n, k);
            lemma_renamed_free(*b, env, n + binders(*a), k);
        },
        Term::TupleLet(p, q, a, b) => {
            let n1 = n + binders(*p.typ);
            let n2 = n1 + binders(*q.typ);
            let n3 = n2 + binders(*a);
            let wp = p.var.with_ident(n3 as u64);
            let wq = q.var.with_ident((n3 + 1) as u64);
            let e1 = env.push((p.var.ident(), wp));
            lemma_renamed_free(*p.typ, env, n, k);
            lemma_renamed_free(*q.typ, env, n1, k);
            lemma_renamed_free(*a, env, n2, k);
            lemma_renamed_free(*b, e1.push((q.var.ident(), wq)), n3 + 2, k);
            lemma_env_push(env, p.var.ident(), wp, k);
            lemma_env_push(e1, q.var.ident(), wq, k);
        },
        Term::UnitLet(a, b) => {
            lemma_renamed_free(*a, env, n, k);
            lemma_renamed_free(*b, env, n + binders(*a), k);
        },
        Term::If(p, a, b) => {
            lemma_renamed_free(*p, env, n, k);
            lemma_renamed_free(*a, env, n + binders(*p), k);
            lemma_renamed_free(*b, env, n + binders(*p) + binders(*a), k);
        },
        Term::Fields(f) => lemma_renamed_fields_free(f, env, n, k),
        Term::Object(r) => lemma_renamed_free(*r, env, n, k),
        Term::Obj(r) => lemma_renamed_free(*r, env, n, k),
        Term::Enum(r) => lemma_renamed_free(*r, env, n, k),
        Term::Variant(r) => lemma_renamed_free(*r, env, n, k),
        Term::Vptr(_, ts) => lemma_renamed_list_free(ts, env, n, k),
        _ => {},
    }
}

proof fn lemma_renamed_fields_free(f: FieldMap, env: Seq<(u64, Var)>, n: nat, k: u64)
    ensures
        fields_free_in(renamed_fields(f, env, n), k) ==> env_new(env, k) || (fields_free_in(f, k)
            && env_lookup(env, k) is None),
    decreases f,
{
    if let FieldMap::Entry(_, t, rest) = f {
        lemma_renamed_free(*t, env, n, k);
        lemma_renamed_fields_free(*rest, env, n + binders(*t), k);
    }
}

proof fn lemma_renamed_list_free(l: TermList, env: Seq<(u64, Var)>, n: nat, k: u64)
    ensures
        list_free_in(renamed_list(l, env, n), k) ==> env_new(env, k) || (list_free_in(l, k)
            && env_lookup(env, k) is None),
    decreases l,
{
    if let TermList::Cons(t, rest) = l {
        lemma_renamed_free(*t, env, n, k);
        lemma_renamed_list_free(*rest, env, n + binders(*t), k);
    }
}

/// The position of the last pair in `rho` whose left identity is `k`.
pub open spec fn last_left(rho: Seq<(u64, u64)>, k: u64) -> Option<int>
    decreases rho.len(),
{
    if rho.len() == 0 {
        None
    } else if rho.last().0 == k {
        Some(rho.len() - 1)
    } else {
        last_left(rho.drop_last(), k)
    }
}

/// The position of the last pair in `rho` whose right identity is `k`.
pub open spec fn last_right(rho: Seq<(u64, u64)>, k: u64) -> Option<int>
    decreases rho.len(),
{
    if rho.len() == 0 {
        None
    } else if rho.last().1 == k {
        Some(rho.len() - 1)
    } else {
        last_right(rho.drop_last(), k)
    }
}

/// `t` and `u` are the same term up to the choice of bound variables: `rho`
/// pairs the binders in scope, those of `t` on the left and those of `u` on
/// the right, innermost last. A reference bound in one is bound by the
/// corresponding binder in the other; a free reference is the same variable.
pub open spec fn alpha(t: Term, u: Term, rho: Seq<(u64, u64)>) -> bool
    decreases t,
{
    match (t, u) {
        (Term::Ref(v), Term::Ref(w)) => last_left(rho, v.ident()) == last_right(rho, w.ident())
            && (last_left(rho, v.ident()) is None ==> v == w),
        (Term::MetaRef(k, v, sp), Term::MetaRef(k2, w, sp2)) => k == k2 && v == w && alpha_list(sp, sp2, rho),
        (Term::Let(p, a, b), Term::Let(q, x, y)) => p.info == q.info && alpha(*p.typ, *q.typ, rho)
            && alpha(*a, *x, rho) && alpha(*b, *y, rho.push((p.var.ident(), q.var.ident()))),
        (Term::Pi(p, b), Term::Pi(q, y)) => p.info == q.info && alpha(*p.typ, *q.typ, rho)
            && alpha(*b, *y, rho.push((p.var.ident(), q.var.ident()))),
        (Term::Lam(p, b), Term::Lam(q, y)) => p.info == q.info && alpha(*p.typ, *q.typ, rho)
            && alpha(*b, *y, rho.push((p.var.ident(), q.var.ident()))),
        (Term::App(f, i, a), Term::App(g, j, x)) => i == j && alpha(*f, *g, rho) && alpha(*a, *x, rho),
        (Term::Sigma(p, b), Term::Sigma(q, y)) => p.info == q.info && alpha(*p.typ, *q.typ, rho)
            && alpha(*b, *y, rho.push((p.var.ident(), q.var.ident()))),
        (Term::Tuple(a, b), Term::Tuple(x, y)) => alpha(*a, *x, rho) && alpha(*b, *y, rho),
        (Term::TupleLet(p, q, a, b), Term::TupleLet(p2, q2, x, y)) => p.info == p2.info && q.info == q2.info
            && alpha(*p.typ, *p2.typ, rho) && alpha(*q.typ, *q2.typ, rho) && alpha(*a, *x, rho)
            && alpha(*b, *y, rho.push((p.var.ident(), p2.var.ident())).push((q.var.ident(), q2.var.ident()))),
        (Term::UnitLet(a, b), Term::UnitLet(x, y)) => alpha(*a, *x, rho) && alpha(*b, *y, rho),
        (Term::If(a, b, c), Term::If(x, y, z)) => alpha(*a, *x, rho) && alpha(*b, *y, rho) && alpha(*c, *z, rho),
        (Term::Fields(f), Term::Fields(g)) => alpha_fields(f, g, rho),
        (Term::Object(a), Term::Object(x)) => alpha(*a, *x, rho),
        (Term::Obj(a), Term::Obj(x)) => alpha(*a, *x, rho),
        (Term::Enum(a), Term::Enum(x)) => alpha(*a, *x, rho),
        (Term::Variant(a), Term::Variant(x)) => alpha(*a, *x, rho),
        (Term::Vptr(v, ts), Term::Vptr(w, us)) => v == w && alpha_list(ts, us, rho),
        _ => t == u,
    }
}

pub open spec fn alpha_fields(f: FieldMap, g: FieldMap, rho: Seq<(u64, u64)>) -> bool
    decreases f,
{
    match (f, g) {
        (FieldMap::Empty, FieldMap::Empty) => true,
        (FieldMap::Entry(l, t, rest), FieldMap::Entry(l2, u, rest2)) => l@ == l2@ && alpha(*t, *u, rho)
            && alpha_fields(*rest, *rest2, rho),
        _ => false,
    }
}

pub open spec fn alpha_list(l: TermList, m: TermList, rho: Seq<(u64, u64)>) -> bool
    decreases l,
{
    match (l, m) {
        (TermList::Nil, TermList::Nil) => true,
        (TermList::Cons(t, rest), TermList::Cons(u, rest2)) => alpha(*t, *u, rho) && alpha_list(*rest, *rest2, rho),
        _ => false,
    }
}

/// The pairing of binders that an environment of renaming stands for.
pub open spec fn env_pairs(env: Seq<(u64, Var)>) -> Seq<(u64, u64)> {
    Seq::new(env.len(), |i: int| (env[i].0, env[i].1.ident()))
}

/// The fresh variables of `env` have pairwise different identities in
/// `base..n`.
pub open spec fn env_fresh(env: Seq<(u64, Var)>, base: nat, n: nat) -> bool {
    &&& forall|i: int| 0 <= i < env.len() ==> base <= #[trigger] env[i].1.ident() < n
    &&& forall|i: int, j: int| 0 <= i < j < env.len() ==> #[trigger] env[i].1.ident() != #[trigger] env[j].1.ident()
}

proof fn lemma_env_pairs_push(env: Seq<(u64, Var)>, a: u64, w: Var)
    ensures
        env_pairs(env.push((a, w))) == env_pairs(env).push((a, w.ident())),
{
    assert(env_pairs(env.push((a, w))) =~= env_pairs(env).push((a, w.ident())));
}

proof fn lemma_lookup_left(env: Seq<(u64, Var)>, k: u64)
    ensures
        match env_lookup(env, k) {
            Some(w) => last_left(env_pairs(env), k) matches Some(i) && 0 <= i < env.len() && env[i].1 == w,
            None => last_left(env_pairs(env), k) is None,
        },
    decreases env.len(),
{
    if env.len() > 0 {
        let d = env.drop_last();
        assert(env_pairs(env).drop_last() =~= env_pairs(d));
        lemma_lookup_left(d, k);
    }
}

proof fn lemma_right_unique(env: Seq<(u64, Var)>, i: int, base: nat, n: nat)
    requires
        env_fresh(env, base, n),
        0 <= i < env.len(),
    ensures
        last_right(env_pairs(env), env[i].1.ident()) == Some(i),
    decreases env.len(),
{
    let d = env.drop_last();
    assert(env_pairs(env).drop_last() =~= env_pairs(d));
    if i < env.len() - 1 {
        assert(env[env.len() - 1].1.ident() != env[i].1.ident());
        assert(env_fresh(d, base, n)) by {
            assert forall|a: int| 0 <= a < d.len() implies base <= #[trigger] d[a].1.ident() < n by {
                assert(d[a] == env[a]);
            }
            assert forall|a: int, b: int| 0 <= a < b < d.len() implies #[trigger] d[a].1.ident() != #[trigger] d[b].1.ident() by {
                assert(d[a] == env[a] && d[b] == env[b]);
            }
        }
        lemma_right_unique(d, i, base, n);
        assert(d[i] == env[i]);
    }
}

proof fn lemma_right_absent(env: Seq<(u64, Var)>, k: u64, base: nat, n: nat)
    requires
        env_fresh(env, base, n),
        k < base,
    ensures
        last_right(env_pairs(env), k) is None,
    decreases env.len(),
{
    if env.len() > 0 {
        let d = env.drop_last();
        assert(env_pairs(env).drop_last() =~= env_pairs(d));
        assert(env[env.len() - 1].1.ident() >= base);
        assert(env_fresh(d, base, n)) by {
            assert forall|a: int| 0 <= a < d.len() implies base <= #[trigger] d[a].1.ident() < n by {
                assert(d[a] == env[a]);
            }
            assert forall|a: int, b: int| 0 <= a < b < d.len() implies #[trigger] d[a].1.ident() != #[trigger] d[b].1.ident() by {
                assert(d[a] == env[a] && d[b] == env[b]);
            }
        }
        lemma_right_absent(d, k, base, n);
    }
}

proof fn lemma_env_fresh_push(env: Seq<(u64, Var)>, a: u64, w: Var, base: nat, n: nat, n2: nat)
    requires
        env_fresh(env, base, n),
        base <= n <= w.ident(),
        w.ident() < n2,
    ensures
        env_fresh(env.push((a, w)), base, n2),
{
    let e = env.push((a, w));
    assert forall|i: int| 0 <= i < e.len() implies base <= #[trigger] e[i].1.ident() < n2 by {
        if i < env.len() {
            assert(e[i] == env[i]);
        }
    }
    assert forall|i: int, j: int| 0 <= i < j < e.len() implies #[trigger] e[i].1.ident() != #[trigger] e[j].1.ident() by {
        assert(e[i] == env[i]);
        if j < env.len() {
            assert(e[j] == env[j]);
        }
    }
}

proof fn lemma_env_fresh_mono(env: Seq<(u64, Var)>, base: nat, n: nat, n2: nat)
    requires
        env_fresh(env, base, n),
        n <= n2,
    ensures
        env_fresh(env, base, n2),
{
}

/// Every variable free in `t` and not renamed by `env` has an identity
/// below `base`.
pub open spec fn free_below(t: Term, env: Seq<(u64, Var)>, base: nat) -> bool {
    forall|k: u64| #[trigger] free_in(t, k) && env_lookup(env, k) is None ==> k < base
}

pub open spec fn fields_free_below(f: FieldMap, env: Seq<(u64, Var)>, base: nat) -> bool {
    forall|k: u64| #[trigger] fields_free_in(f, k) && env_lookup(env, k) is None ==> k < base
}

pub open spec fn list_free_below(l: TermList, env: Seq<(u64, Var)>, base: nat) -> bool {
    forall|k: u64| #[trigger] list_free_in(l, k) && env_lookup(env, k) is None ==> k < base
}

/// Free variables below a binder: those of the body that the binder of
/// identity `a`, renamed to `w`, does not bind.
proof fn lemma_free_below_body(t: Term, b: Term, env: Seq<(u64, Var)>, a: u64, w: Var, base: nat)
    requires
        free_below(t, env, base),
        forall|k: u64| #[trigger] free_in(b, k) && a != k ==> free_in(t, k),
    ensures
        free_below(b, env.push((a, w)), base),
{
    assert forall|k: u64| #[trigger] free_in(b, k) && env_lookup(env.push((a, w)), k) is None implies k < base by {
        lemma_env_push(env, a, w, k);
        assert(free_in(t, k));
    }
}

/// Renaming apart changes a term only in the choice of its bound variables:
/// the result is alpha-equivalent to the input, each reference bound in the
/// input being bound by the corresponding binder of the result, where the
/// fresh identities are new to the term.
#[verifier::spinoff_prover]
#[verifier::rlimit(100)]
pub proof fn lemma_renamed_alpha(t: Term, env: Seq<(u64, Var)>, n: nat, base: nat)
    requires
        env_fresh(env, base, n),
        base <= n,
        n + binders(t) <= u64::MAX,
        free_below(t, env, base),
    ensures
        alpha(t, renamed(t, env, n), env_pairs(env)),
    decreases t,
{
    match t {
        Term::Ref(v) => {
            lemma_lookup_left(env, v.ident());
            match env_lookup(env, v.ident()) {
                Some(w) => {
                    let i = last_left(env_pairs(env), v.ident()).unwrap();
                    lemma_right_unique(env, i, base, n);
                },
                None => {
                    assert(free_in(t, v.ident()));
                    lemma_right_absent(env, v.ident(), base, n);
                },
            }
        },
        Term::MetaRef(_, _, sp) => {
            assert forall|k: u64| #[trigger] list_free_in(sp, k) && env_lookup(env, k) is None implies k < base by {
                assert(free_in(t, k));
            }
            lemma_renamed_list_alpha(sp, env, n, base);
        },
        Term::Let(p, a, b) => {
            let n1 = n + binders(*p.typ);
            let n2 = n1 + binders(*a);
            let w = p.var.with_ident(n2 as u64);
            assert forall|k: u64| #[trigger] free_in(*p.typ, k) && env_lookup(env, k) is None implies k < base by {
                assert(free_in(t, k));
            }
            assert forall|k: u64| #[trigger] free_in(*a, k) && env_lookup(env, k) is None implies k < base by {
                assert(free_in(t, k));
            }
            lemma_free_below_body(t, *b, env, p.var.ident(), w, base);
            lemma_renamed_alpha(*p.typ, env, n, base);
            lemma_env_fresh_mono(env, base, n, n1);
            lemma_renamed_alpha(*a, env, n1, base);
            lemma_env_fresh_mono(env, base, n, n2);
            lemma_env_fresh_push(env, p.var.ident(), w, base, n2, n2 + 1);
            lemma_renamed_alpha(*b, env.push((p.var.ident(), w)), n2 + 1, base);
            lemma_env_pairs_push(env, p.var.ident(), w);
        },
        Term::Pi(p, b) => {
            let n1 = n + binders(*p.typ);
            let w = p.var.with_ident(n1 as u64);
            assert forall|k: u64| #[trigger] free_in(*p.typ, k) && env_lookup(env, k) is None implies k < base by {
                assert(free_in(t, k));
            }
            lemma_free_below_body(t, *b, env, p.var.ident(), w, base);
            lemma_renamed_alpha(*p.typ, env, n, base);
            lemma_env_fresh_mono(env, base, n, n1);
            lemma_env_fresh_push(env, p.var.ident(), w, base, n1, n1 + 1);
            lemma_renamed_alpha(*b, env.push((p.var.ident(), w)), n1 + 1, base);
            lemma_env_pairs_push(env, p.var.ident(), w);
        },
        Term::Lam(p, b) => {
            let n1 = n + binders(*p.typ);
            let w = p.var.with_ident(n1 as u64);
            assert forall|k: u64| #[trigger] free_in(*p.typ, k) && env_lookup(env, k) is None implies k < base by {
                assert(free_in(t, k));
            }
            lemma_free_below_body(t, *b, env, p.var.ident(), w, base);
            lemma_renamed_alpha(*p.typ, env, n, base);
            lemma_env_fresh_mono(env, base, n, n1);
            lemma_env_fresh_push(env, p.var.ident(), w, base, n1, n1 + 1);
            lemma_renamed_alpha(*b, env.push((p.var.ident(), w)), n1 + 1, base);
            lemma_env_pairs_push(env, p.var.ident(), w);
        },
        Term::Sigma(p, b) => {
            let n1 = n + binders(*p.typ);
            let w = p.var.with_ident(n1 as u64);
            assert forall|k: u64| #[trigger] free_in(*p.typ, k) && env_lookup(env, k) is None implies k < base by {
                assert(free_in(t, k));
            }
            lemma_free_below_body(t, *b, env, p.var.ident(), w, base);
            lemma_renamed_alpha(*p.typ, env, n, base);
            lemma_env_fresh_mono(env, base, n, n1);
            lemma_env_fresh_push(env, p.var.ident(), w, base, n1, n1 + 1);
            lemma_renamed_alpha(*b, env.push((p.var.ident(), w)), n1 + 1, base);
            lemma_env_pairs_push(env, p.var.ident(), w);
        },
        Term::App(f, _, x) => {
            lemma_alpha_two(t, *f, *x, env, n, base);
        },
        Term::Tuple(a, b) => {
            lemma_alpha_two(t, *a, *b, env, n, base);
        },
        Term::UnitLet(a, b) => {
            lemma_alpha_two(t, *a, *b, env, n, base);
        },
        Term::TupleLet(p, q, a, b) => {
            let n1 = n + binders(*p.typ);
            let n2 = n1 + binders(*q.typ);
            let n3 = n2 + binders(*a);
            let wp = p.var.with_ident(n3 as u64);
            let wq = q.var.with_ident((n3 + 1) as u64);
            let e1 = env.push((p.var.ident(), wp));
            assert forall|k: u64| #[trigger] free_in(*p.typ, k) && env_lookup(env, k) is None implies k < base by {
                assert(free_in(t, k));
            }
            assert forall|k: u64| #[trigger] free_in(*q.typ, k) && env_lookup(env, k) is None implies k < base by {
                assert(free_in(t, k));
            }
            assert forall|k: u64| #[trigger] free_in(*a, k) && env_lookup(env, k) is None implies k < base by {
                assert(free_in(t, k));
            }
            assert forall|k: u64| #[trigger] free_in(*b, k) && env_lookup(e1.push((q.var.ident(), wq)), k) is None implies k < base by {
                lemma_env_push(e1, q.var.ident(), wq, k);
                lemma_env_push(env, p.var.ident(), wp, k);
                assert(free_in(t, k));
            }
            lemma_renamed_alpha(*p.typ, env, n, base);
            lemma_env_fresh_mono(env, base, n, n1);
            lemma_renamed_alpha(*q.typ, env, n1, base);
            lemma_env_fresh_mono(env, base, n, n2);
            lemma_renamed_alpha(*a, env, n2, base);
            lemma_env_fresh_mono(env, base, n, n3);
            lemma_env_fresh_push(env, p.var.ident(), wp, base, n3, n3 + 1);
            lemma_env_fresh_push(e1, q.var.ident(), wq, base, n3 + 1, n3 + 2);
            lemma_renamed_alpha(*b, e1.push((q.var.ident(), wq)), n3 + 2, base);
            lemma_env_pairs_push(env, p.var.ident(), wp);
            lemma_env_pairs_push(e1, q.var.ident(), wq);
        },
        Term::If(p, a, b) => {
            assert forall|k: u64| #[trigger] free_in(*p, k) && env_lookup(env, k) is None implies k < base by {
                assert(free_in(t, k));
            }
            assert forall|k: u64| #[trigger] free_in(*a, k) && env_lookup(env, k) is None implies k < base by {
                assert(free_in(t, k));
            }
            assert forall|k: u64| #[trigger] free_in(*b, k) && env_lookup(env, k) is None implies k < base by {
                assert(free_in(t, k));
            }
            lemma_renamed_alpha(*p, env, n, base);
            lemma_env_fresh_mono(env, base, n, n + binders(*p));
            lemma_renamed_alpha(*a, env, n + binders(*p), base);
            lemma_env_fresh_mono(env, base, n, n + binders(*p) + binders(*a));
            lemma_renamed_alpha(*b, env, n + binders(*p) + binders(*a), base);
        },
        Term::Fields(f) => {
            assert forall|k: u64| #[trigger] fields_free_in(f, k) && env_lookup(env, k) is None implies k < base by {
                assert(free_in(t, k));
            }
            lemma_renamed_fields_alpha(f, env, n, base);
        },
        Term::Object(r) => lemma_alpha_one(t, *r, env, n, base),
        Term::Obj(r) => lemma_alpha_one(t, *r, env, n, base),
        Term::Enum(r) => lemma_alpha_one(t, *r, env, n, base),
        Term::Variant(r) => lemma_alpha_one(t, *r, env, n, base),
        Term::Vptr(_, ts) => {
            assert forall|k: u64| #[trigger] list_free_in(ts, k) && env_lookup(env, k) is None implies k < base by {
                assert(free_in(t, k));
            }
            lemma_renamed_list_alpha(ts, env, n, base);
        },
        _ => {},
    }
}

proof fn lemma_alpha_one(t: Term, r: Term, env: Seq<(u64, Var)>, n: nat, base: nat)
    requires
        env_fresh(env, base, n),
        base <= n,
        n + binders(r) <= u64::MAX,
        free_below(t, env, base),
        forall|k: u64| #[trigger] free_in(r, k) ==> free_in(t, k),
        decreases_to!(t => r),
    ensures
        alpha(r, renamed(r, env, n), env_pairs(env)),
    decreases t, 0nat,
{
    lemma_renamed_alpha(r, env, n, base);
}

proof fn lemma_alpha_two(t: Term, a: Term, b: Term, env: Seq<(u64, Var)>, n: nat, base: nat)
    requires
        env_fresh(env, base, n),
        base <= n,
        n + binders(a) + binders(b) <= u64::MAX,
        free_below(t, env, base),
        forall|k: u64| #[trigger] free_in(a, k) ==> free_in(t, k),
        forall|k: u64| #[trigger] free_in(b, k) ==> free_in(t, k),
        decreases_to!(t => a),
        decreases_to!(t => b),
    ensures
        alpha(a, renamed(a, env, n), env_pairs(env)),
        alpha(b, renamed(b, env, n + binders(a)), env_pairs(env)),
    decreases t, 0nat,
{
    lemma_renamed_alpha(a, env, n, base);
    lemma_env_fresh_mono(env, base, n, n + binders(a));
    lemma_renamed_alpha(b, env, n + binders(a), base);
}

proof fn lemma_renamed_fields_alpha(f: FieldMap, env: Seq<(u64, Var)>, n: nat, base: nat)
    requires
        env_fresh(env, base, n),
        base <= n,
        n + fields_binders(f) <= u64::MAX,
        fields_free_below(f, env, base),
    ensures
        alpha_fields(f, renamed_fields(f, env, n), env_pairs(env)),
    decreases f,
{
    if let FieldMap::Entry(_, t, rest) = f {
        assert forall|k: u64| #[trigger] free_in(*t, k) && env_lookup(env, k) is None implies k < base by {
            assert(fields_free_in(f, k));
        }
        assert forall|k: u64| #[trigger] fields_free_in(*rest, k) && env_lookup(env, k) is None implies k < base by {
            assert(fields_free_in(f, k));
        }
        lemma_renamed_alpha(*t, env, n, base);
        lemma_env_fresh_mono(env, base, n, n + binders(*t));
        lemma_renamed_fields_alpha(*rest, env, n + binders(*t), base);
    }
}

proof fn lemma_renamed_list_alpha(l: TermList, env: Seq<(u64, Var)>, n: nat, base: nat)
    requires
        env_fresh(env, base, n),
        base <= n,
        n + list_binders(l) <= u64::MAX,
        list_free_below(l, env, base),
    ensures
        alpha_list(l, renamed_list(l, env, n), env_pairs(env)),
    decreases l,
{
    if let TermList::Cons(t, rest) = l {
        assert forall|k: u64| #[trigger] free_in(*t, k) && env_lookup(env, k) is None implies k < base by {
            assert(list_free_in(l, k));
        }
        assert forall|k: u64| #[trigger] list_free_in(*rest, k) && env_lookup(env, k) is None implies k < base by {
            assert(list_free_in(l, k));
        }
        lemma_renamed_alpha(*t, env, n, base);
        lemma_env_fresh_mono(env, base, n, n + binders(*t));
        lemma_renamed_list_alpha(*rest, env, n + binders(*t), base);
    }
}

/// Every binder of `t` has an identity in `lo..hi`.
pub open spec fn binders_within(t: Term, lo: nat, hi: nat) -> bool
    decreases t,
{
    match t {
        Term::MetaRef(_, _, sp) => list_binders_within(sp, lo, hi),
        Term::Let(p, a, b) => lo <= p.var.ident() < hi && binders_within(*p.typ, lo, hi)
            && binders_within(*a, lo, hi) && binders_within(*b, lo, hi),
        Term::Pi(p, b) => lo <= p.var.ident() < hi && binders_within(*p.typ, lo, hi)
            && binders_within(*b, lo, hi),
        Term::Lam(p, b) => lo <= p.var.ident() < hi && binders_within(*p.typ, lo, hi)
            && binders_within(*b, lo, hi),
        Term::App(f, _, x) => binders_within(*f, lo, hi) && binders_within(*x, lo, hi),
        Term::Sigma(p, b) => lo <= p.var.ident() < hi && binders_within(*p.typ, lo, hi)
            && binders_within(*b, lo, hi),
        Term::Tuple(a, b) => binders_within(*a, lo, hi) && binders_within(*b, lo, hi),
        Term::TupleLet(p, q, a, b) => lo <= p.var.ident() < hi && lo <= q.var.ident() < hi
            && binders_within(*p.typ, lo, hi) && binders_within(*q.typ, lo, hi)
            && binders_within(*a, lo, hi) && binders_within(*b, lo, hi),
        Term::UnitLet(a, b) => binders_within(*a, lo, hi) && binders_within(*b, lo, hi),
        Term::If(p, a, b) => binders_within(*p, lo, hi) && binders_within(*a, lo, hi)
            && binders_within(*b, lo, hi),
        Term::Fields(f) => fields_binders_within(f, lo, hi),
        Term::Object(r) => binders_within(*r, lo, hi),
        Term::Obj(r) => binders_within(*r, lo, hi),
        Term::Enum(r) => binders_within(*r, lo, hi),
        Term::Variant(r) => binders_within(*r, lo, hi),
        Term::Vptr(_, ts) => list_binders_within(ts, lo, hi),
        _ => true,
    }
}

pub open spec fn fields_binders_within(f: FieldMap, lo: nat, hi: nat) -> bool
    decreases f,
{
    match f {
        FieldMap::Empty => true,
        FieldMap::Entry(_, t, rest) => binders_within(*t, lo, hi) && fields_binders_within(
            *rest,
            lo,
            hi,
        ),
    }
}

pub open spec fn list_binders_within(l: TermList, lo: nat, hi: nat) -> bool
    decreases l,
{
    match l {
        TermList::Nil => true,
        TermList::Cons(t, rest) => binders_within(*t, lo, hi) && list_binders_within(*rest, lo, hi),
    }
}

/// Renaming `t` from `n` on gives its binders identities in `n..n + binders(t)`.
#[verifier::spinoff_prover]
#[verifier::rlimit(80)]
pub proof fn lemma_renamed_within(t: Term, env: Seq<(u64, Var)>, n: nat, lo: nat, hi: nat)
    requires
        lo <= n,
        n + binders(t) <= hi,
        hi <= u64::MAX,
    ensures
        binders_within(renamed(t, env, n), lo, hi),
    decreases t,
{
    match t {
        Term::MetaRef(_, _, sp) => lemma_renamed_list_within(sp, env, n, lo, hi),
        Term::Let(p, a, b) => {
            let n1 = n + binders(*p.typ);
            let n2 = n1 + binders(*a);
            let w = p.var.with_ident(n2 as u64);
            lemma_renamed_within(*p.typ, env, n, lo, hi);
            lemma_renamed_within(*a, env, n1, lo, hi);
            lemma_renamed_within(*b, env.push((p.var.ident(), w)), n2 + 1, lo, hi);
        },
        Term::Pi(p, b) => {
            let n1 = n + binders(*p.typ);
            let w = p.var.with_ident(n1 as u64);
            lemma_renamed_within(*p.typ, env, n, lo, hi);
            lemma_renamed_within(*b, env.push((p.var.ident(), w)), n1 + 1, lo, hi);
        },
        Term::Lam(p, b) => {
            let n1 = n + binders(*p.typ);
            let w = p.var.with_ident(n1 as u64);
            lemma_renamed_within(*p.typ, env, n, lo, hi);
            lemma_renamed_within(*b, env.push((p.var.ident(), w)), n1 + 1, lo, hi);
        },
        Term::App(f, _, x) => {
            lemma_renamed_within(*f, env, n, lo, hi);
            lemma_renamed_within(*x, env, n + binders(*f), lo, hi);
        },
        Term::Sigma(p, b) => {
            let n1 = n + binders(*p.typ);
            let w = p.var.with_ident(n1 as u64);
            lemma_renamed_within(*p.typ, env, n, lo, hi);
            lemma_renamed_within(*b, env.push((p.var.ident(), w)), n1 + 1, lo, hi);
        },
        Term::Tuple(a, b) => {
            lemma_renamed_within(*a, env, n, lo, hi);
            lemma_renamed_within(*b, env, n + binders(*a), lo, hi);
        },
        Term::TupleLet(p, q, a, b) => {
            let n1 = n + binders(*p.typ);
            let n2 = n1 + binders(*q.typ);
            let n3 = n2 + binders(*a);
            let wp = p.var.with_ident(n3 as u64);
            let wq = q.var.with_ident((n3 + 1) as u64);
            lemma_renamed_within(*p.typ, env, n, lo, hi);
            lemma_renamed_within(*q.typ, env, n1, lo, hi);
            lemma_renamed_within(*a, env, n2, lo, hi);
            lemma_renamed_within(
                *b,
                env.push((p.var.ident(), wp)).push((q.var.ident(), wq)),
                n3 + 2,
                lo,
                hi,
            );
        },
        Term::UnitLet(a, b) => {
            lemma_renamed_within(*a, env, n, lo, hi);
            lemma_renamed_within(*b, env, n + binders(*a), lo, hi);
        },
        Term::If(p, a, b) => {
            lemma_renamed_within(*p, env, n, lo, hi);
            lemma_renamed_within(*a, env, n + binders(*p), lo, hi);
            lemma_renamed_within(*b, env, n + binders(*p) + binders(*a), lo, hi);
        },
        Term::Fields(f) => lemma_renamed_fields_within(f, env, n, lo, hi),
        Term::Object(r) => lemma_renamed_within(*r, env, n, lo, hi),
        Term::Obj(r) => lemma_renamed_within(*r, env, n, lo, hi),
        Term::Enum(r) => lemma_renamed_within(*r, env, n, lo, hi),
        Term::Variant(r) => lemma_renamed_within(*r, env, n, lo, hi),
        Term::Vptr(_, ts) => lemma_renamed_list_within(ts, env, n, lo, hi),
        _ => {},
    }
}

proof fn lemma_renamed_fields_within(f: FieldMap, env: Seq<(u64, Var)>, n: nat, lo: nat, hi: nat)
    requires
        lo <= n,
        n + fields_binders(f) <= hi,
        hi <= u64::MAX,
    ensures
        fields_binders_within(renamed_fields(f, env, n), lo, hi),
    decreases f,
{
    match f {
        FieldMap::Empty => {},
        FieldMap::Entry(_, t, rest) => {
            lemma_renamed_within(*t, env, n, lo, hi);
            lemma_renamed_fields_within(*rest, env, n + binders(*t), lo, hi);
        },
    }
}

proof fn lemma_renamed_list_within(l: TermList, env: Seq<(u64, Var)>, n: nat, lo: nat, hi: nat)
    requires
        lo <= n,
        n + list_binders(l) <= hi,
        hi <= u64::MAX,
    ensures
        list_binders_within(renamed_list(l, env, n), lo, hi),
    decreases l,
{
    match l {
        TermList::Nil => {},
        TermList::Cons(t, rest) => {
            lemma_renamed_within(*t, env, n, lo, hi);
            lemma_renamed_list_within(*rest, env, n + binders(*t), lo, hi);
        },
    }
}

/// The variable bound last to `x` in `env`, if any.
fn lookup(env: &Vec<(u64, Var)>, x: u64) -> (r: Option<Var>)
    ensures
        r == env_lookup(env@, x),
{
    let mut i = env.len();
    assert(env@.subrange(0, i as int) =~= env@);
    while i > 0
        invariant
            i <= env@.len(),
            env_lookup(env@, x) == env_lookup(env@.subrange(0, i as int), x),
        decreases i,
    {
        assert(env@.subrange(0, i as int).drop_last() =~= env@.subrange(0, i - 1));
        if env[i - 1].0 == x {
            return Some(env[i - 1].1.clone());
        }
        i = i - 1;
    }
    None
}

/// A fresh variable of `v`'s name, bound to `v`'s identity on top of `env`.
fn bind(v: &Var, env: &mut Vec<(u64, Var)>, ids: &mut IdGen) -> (w: Var)
    requires
        old(ids).upcoming() < u64::MAX,
    ensures
        w == v.with_ident(old(ids).upcoming()),
        final(env)@ == old(env)@.push((v.ident(), w)),
        final(ids).upcoming() == old(ids).upcoming() + 1,
{
    let w = v.fresh_copy(ids);
    env.push((v.id(), w.clone()));
    w
}

fn unbind(env: &mut Vec<(u64, Var)>)
    requires
        old(env)@.len() > 0,
    ensures
        final(env)@ == old(env)@.drop_last(),
{
    let _ = env.pop();
}

fn rename_param_typ(p: &Param<Term>, env: &mut Vec<(u64, Var)>, ids: &mut IdGen) -> (r: Box<Term>)
    requires
        old(ids).upcoming() + binders(*p.typ) <= u64::MAX,
    ensures
        *r == renamed(*p.typ, old(env)@, old(ids).upcoming() as nat),
        final(ids).upcoming() == old(ids).upcoming() + binders(*p.typ),
        final(env)@ == old(env)@,
    decreases p,
{
    Box::new(rename_term(&p.typ, env, ids))
}

#[verifier::spinoff_prover]
#[verifier::rlimit(80)]
fn rename_term(t: &Term, env: &mut Vec<(u64, Var)>, ids: &mut IdGen) -> (r: Term)
    requires
        old(ids).upcoming() + binders(*t) <= u64::MAX,
    ensures
        r == renamed(*t, old(env)@, old(ids).upcoming() as nat),
        final(ids).upcoming() == old(ids).upcoming() + binders(*t),
        final(env)@ == old(env)@,
    decreases t,
{
    let ghost e0 = env@;
    match t {
        Term::Ref(v) => match lookup(env, v.id()) {
            Some(w) => Term::Ref(w),
            None => Term::Ref(v.clone()),
        },
        Term::MetaRef(k, v, sp) => Term::MetaRef(*k, v.clone(), rename_list(sp, env, ids)),
        Term::Let(p, a, b) => {
            let typ = rename_param_typ(p, env, ids);
            let a2 = rename_term(a, env, ids);
            let w = bind(&p.var, env, ids);
            let b2 = rename_term(b, env, ids);
            unbind(env);
            assert(env@ =~= e0);
            Term::Let(Param { var: w, info: p.info, typ }, Box::new(a2), Box::new(b2))
        },
        Term::Pi(p, b) => {
            let typ = rename_param_typ(p, env, ids);
            let w = bind(&p.var, env, ids);
            let b2 = rename_term(b, env, ids);
            unbind(env);
            assert(env@ =~= e0);
            Term::Pi(Param { var: w, info: p.info, typ }, Box::new(b2))
        },
        Term::Lam(p, b) => {
            let typ = rename_param_typ(p, env, ids);
            let w = bind(&p.var, env, ids);
            let b2 = rename_term(b, env, ids);
            unbind(env);
            assert(env@ =~= e0);
            Term::Lam(Param { var: w, info: p.info, typ }, Box::new(b2))
        },
        Term::App(f, i, x) => {
            let f2 = rename_term(f, env, ids);
            let x2 = rename_term(x, env, ids);
            Term::App(Box::new(f2), *i, Box::new(x2))
        },
        Term::Sigma(p, b) => {
            let typ = rename_param_typ(p, env, ids);
            let w = bind(&p.var, env, ids);
            let b2 = rename_term(b, env, ids);
            unbind(env);
            assert(env@ =~= e0);
            Term::Sigma(Param { var: w, info: p.info, typ }, Box::new(b2))
        },
        Term::Tuple(a, b) => {
            let a2 = rename_term(a, env, ids);
            let b2 = rename_term(b, env, ids);
            Term::Tuple(Box::new(a2), Box::new(b2))
        },
        Term::TupleLet(p, q, a, b) => {
            let ptyp = rename_param_typ(p, env, ids);
            let qtyp = rename_param_typ(q, env, ids);
            let a2 = rename_term(a, env, ids);
            let wp = bind(&p.var, env, ids);
            let wq = bind(&q.var, env, ids);
            let b2 = rename_term(b, env, ids);
            unbind(env);
            unbind(env);
            assert(env@ =~= e0);
            Term::TupleLet(
                Param { var: wp, info: p.info, typ: ptyp },
                Param { var: wq, info: q.info, typ: qtyp },
                Box::new(a2),
                Box::new(b2),
            )
        },
        Term::UnitLet(a, b) => {
            let a2 = rename_term(a, env, ids);
            let b2 = rename_term(b, env, ids);
            Term::UnitLet(Box::new(a2), Box::new(b2))
        },
        Term::If(p, a, b) => {
            let p2 = rename_term(p, env, ids);
            let a2 = rename_term(a, env, ids);
            let b2 = rename_term(b, env, ids);
            Term::If(Box::new(p2), Box::new(a2), Box::new(b2))
        },
        Term::Fields(f) => Term::Fields(rename_fields(f, env, ids)),
        Term::Object(r) => Term::Object(Box::new(rename_term(r, env, ids))),
        Term::Obj(r) => Term::Obj(Box::new(rename_term(r, env, ids))),
        Term::Enum(r) => Term::Enum(Box::new(rename_term(r, env, ids))),
        Term::Variant(r) => Term::Variant(Box::new(rename_term(r, env, ids))),
        Term::Vptr(v, ts) => Term::Vptr(v.clone(), rename_list(ts, env, ids)),
        _ => t.copy(),
    }
}

fn rename_fields(f: &FieldMap, env: &mut Vec<(u64, Var)>, ids: &mut IdGen) -> (r: FieldMap)
    requires
        old(ids).upcoming() + fields_binders(*f) <= u64::MAX,
    ensures
        r == renamed_fields(*f, old(env)@, old(ids).upcoming() as nat),
        final(ids).upcoming() == old(ids).upcoming() + fields_binders(*f),
        final(env)@ == old(env)@,
    decreases f,
{
    match f {
        FieldMap::Empty => FieldMap::Empty,
        FieldMap::Entry(l, t, rest) => {
            let t2 = rename_term(t, env, ids);
            let rest2 = rename_fields(rest, env, ids);
            FieldMap::Entry(l.clone(), Box::new(t2), Box::new(rest2))
        },
    }
}

fn rename_list(l: &TermList, env: &mut Vec<(u64, Var)>, ids: &mut IdGen) -> (r: TermList)
    requires
        old(ids).upcoming() + list_binders(*l) <= u64::MAX,
    ensures
        r == renamed_list(*l, old(env)@, old(ids).upcoming() as nat),
        final(ids).upcoming() == old(ids).upcoming() + list_binders(*l),
        final(env)@ == old(env)@,
    decreases l,
{
    match l {
        TermList::Nil => TermList::Nil,
        TermList::Cons(t, rest) => {
            let t2 = rename_term(t, env, ids);
            let rest2 = rename_list(rest, env, ids);
            TermList::Cons(Box::new(t2), Box::new(rest2))
        },
    }
}

/// `used` plus the number of binders in `t`, if that is at most `limit`.
pub fn count_binders(t: &Term, used: u64, limit: u64) -> (r: Option<u64>)
    requires
        used <= limit,
    ensures
        match r {
            Some(k) => k == used + binders(*t) && k <= limit,
            None => used + binders(*t) > limit,
        },
    decreases t,
{
    match t {
        Term::MetaRef(_, _, sp) => count_list_binders(sp, used, limit),
        Term::Let(p, a, b) => {
            let u = match count_binders(&p.typ, used, limit) { Some(u) => u, None => return None };
            let u = match count_binders(a, u, limit) { Some(u) => u, None => return None };
            if u == limit {
                return None;
            }
            count_binders(b, u + 1, limit)
        },
        Term::Pi(p, b) | Term::Lam(p, b) | Term::Sigma(p, b) => {
            let u = match count_binders(&p.typ, used, limit) { Some(u) => u, None => return None };
            if u == limit {
                return None;
            }
            count_binders(b, u + 1, limit)
        },
        Term::App(a, _, b) | Term::Tuple(a, b) | Term::UnitLet(a, b) => {
            let u = match count_binders(a, used, limit) { Some(u) => u, None => return None };
            count_binders(b, u, limit)
        },
        Term::TupleLet(p, q, a, b) => {
            let u = match count_binders(&p.typ, used, limit) { Some(u) => u, None => return None };
            let u = match count_binders(&q.typ, u, limit) { Some(u) => u, None => return None };
            let u = match count_binders(a, u, limit) { Some(u) => u, None => return None };
            if limit < 2 || u > limit - 2 {
                return None;
            }
            count_binders(b, u + 2, limit)
        },
        Term::If(a, b, c) => {
            let u = match count_binders(a, used, limit) { Some(u) => u, None => return None };
            let u = match count_binders(b, u, limit) { Some(u) => u, None => return None };
            count_binders(c, u, limit)
        },
        Term::Fields(f) => count_fields_binders(f, used, limit),
        Term::Object(r) | Term::Obj(r) | Term::Enum(r) | Term::Variant(r) => count_binders(r, used, limit),
        Term::Vptr(_, ts) => count_list_binders(ts, used, limit),
        _ => Some(used),
    }
}

fn count_fields_binders(f: &FieldMap, used: u64, limit: u64) -> (r: Option<u64>)
    requires
        used <= limit,
    ensures
        match r {
            Some(k) => k == used + fields_binders(*f) && k <= limit,
            None => used + fields_binders(*f) > limit,
        },
    decreases f,
{
    match f {
        FieldMap::Empty => Some(used),
        FieldMap::Entry(_, t, rest) => {
            let u = match count_binders(t, used, limit) { Some(u) => u, None => return None };
            count_fields_binders(rest, u, limit)
        },
    }
}

fn count_list_binders(l: &TermList, used: u64, limit: u64) -> (r: Option<u64>)
    requires
        used <= limit,
    ensures
        match r {
            Some(k) => k == used + list_binders(*l) && k <= limit,
            None => used + list_binders(*l) > limit,
        },
    decreases l,
{
    match l {
        TermList::Nil => Some(used),
        TermList::Cons(t, rest) => {
            let u = match count_binders(t, used, limit) { Some(u) => u, None => return None };
            count_list_binders(rest, u, limit)
        },
    }
}

/// `tm` renamed apart: every binder becomes a fresh variable of its name,
/// one the supply had not handed out before, and the references to it follow.
pub fn rename(tm: &Term, ids: &mut IdGen) -> (r: Box<Term>)
    requires
        old(ids).upcoming() + binders(*tm) <= u64::MAX,
    ensures
        *r == renamed(*tm, Seq::empty(), old(ids).upcoming() as nat),
        final(ids).upcoming() == old(ids).upcoming() + binders(*tm),
        binders_within(*r, old(ids).upcoming() as nat, final(ids).upcoming() as nat),
        forall|k: u64| #[trigger] free_in(*r, k) ==> free_in(*tm, k),
        (forall|k: u64| #[trigger] free_in(*tm, k) ==> k < old(ids).upcoming()) ==> alpha(
            *tm,
            *r,
            Seq::empty(),
        ),
{
    let mut env: Vec<(u64, Var)> = Vec::new();
    let ghost n = ids.upcoming();
    let r = rename_term(tm, &mut env, ids);
    proof {
        lemma_renamed_within(*tm, Seq::empty(), n as nat, n as nat, (n + binders(*tm)) as nat);
        assert forall|k: u64| #[trigger] free_in(r, k) implies free_in(*tm, k) by {
            lemma_renamed_free(*tm, Seq::empty(), n as nat, k);
        }
        if forall|k: u64| #[trigger] free_in(*tm, k) ==> k < n {
            let e = Seq::<(u64, Var)>::empty();
            assert(env_pairs(e) =~= Seq::<(u64, u64)>::empty());
            lemma_renamed_alpha(*tm, e, n as nat, n as nat);
        }
    }
    Box::new(r)
}

} // verus!
