//! Unification of terms, solving metavariables on the way.

use vstd::prelude::*;

use crate::error::Error;
use crate::theory::abs::data::{fields_distinct, fields_get, fields_labels, fields_len, subst, subst2, FieldMap, MetaKind, Term, TermList};
use crate::theory::abs::def::{Body, Def, Sigma};
use crate::theory::{IdGen, Loc, Param, ParamInfo, Var};

verus! {

broadcast use vstd::std_specs::hash::group_hash_axioms;

/// The definitions of a global context, by identity.
pub type Defs = Map<u64, Def<Term>>;

/// What a run of the unifier comes to: its result, the global context it
/// leaves and the next identity of the supply of variables; `None` where it does not come to an end within the steps allowed,
/// or where it meets a metavariable without a definition of one.
pub type Outcome = Option<(Result<(), Error>, Defs, nat)>;

/// Continues with `k` on the context that `o` leaves, if `o` succeeded.
pub open spec fn then(o: Outcome, k: spec_fn(Defs, nat) -> Outcome) -> Outcome {
    match o {
        None => None,
        Some((Err(e), s, m)) => Some((Err(e), s, m)),
        Some((Ok(_), s, m)) => k(s, m),
    }
}

/// The first parameter of `tele` whose variable has identity `id`.
pub open spec fn tele_find(tele: Seq<Param<Term>>, id: u64) -> Option<Param<Term>>
    decreases tele.len(),
{
    if tele.len() == 0 {
        None
    } else if tele[0].var.ident() == id {
        Some(tele[0])
    } else {
        tele_find(tele.drop_first(), id)
    }
}

/// Unifying `lhs` with `rhs` in the context `sigma`, with errors located at
/// `loc`, within `fuel` nested steps.
pub open spec fn unify_steps(fuel: nat, sigma: Defs, nx: nat, loc: Loc, lhs: Term, rhs: Term) -> Outcome
    decreases fuel, 0nat,
{
    if fuel == 0 {
        None
    } else {
        let f = (fuel - 1) as nat;
        let fail = Some((Err(Error::NonUnifiable(lhs, rhs, loc)), sigma, nx));
        if lhs is MetaRef {
            solve_steps(f, sigma, nx, loc, lhs->MetaRef_1, rhs)
        } else if rhs is MetaRef {
            solve_steps(f, sigma, nx, loc, rhs->MetaRef_1, lhs)
        } else if lhs is Ref && rhs is Ref && lhs->Ref_0.ident() == rhs->Ref_0.ident() {
            Some((Ok(()), sigma, nx))
        } else if lhs is Ref {
            let a = lhs->Ref_0;
            if !sigma.contains_key(a.ident()) {
                fail
            } else if !sigma[a.ident()].has_term() || nx + sigma[a.ident()].term_binders() > u64::MAX {
                None
            } else {
                unify_steps(f, sigma, nx + sigma[a.ident()].term_binders(), loc, sigma[a.ident()].term_of(a, nx), rhs)
            }
        } else if rhs is Ref {
            let b = rhs->Ref_0;
            if !sigma.contains_key(b.ident()) {
                fail
            } else if !sigma[b.ident()].has_term() || nx + sigma[b.ident()].term_binders() > u64::MAX {
                None
            } else {
                unify_steps(f, sigma, nx + sigma[b.ident()].term_binders(), loc, lhs, sigma[b.ident()].term_of(b, nx))
            }
        } else if lhs is Qualified && rhs is Qualified && lhs->Qualified_1.ident()
            == rhs->Qualified_1.ident() {
            Some((Ok(()), sigma, nx))
        } else if lhs is Qualified {
            let a = lhs->Qualified_1;
            if !sigma.contains_key(a.ident()) {
                fail
            } else if !sigma[a.ident()].has_term() || nx + sigma[a.ident()].term_binders() > u64::MAX {
                None
            } else {
                unify_steps(f, sigma, nx + sigma[a.ident()].term_binders(), loc, sigma[a.ident()].term_of(a, nx), rhs)
            }
        } else if rhs is Qualified {
            let b = rhs->Qualified_1;
            if !sigma.contains_key(b.ident()) {
                fail
            } else if !sigma[b.ident()].has_term() || nx + sigma[b.ident()].term_binders() > u64::MAX {
                None
            } else {
                unify_steps(f, sigma, nx + sigma[b.ident()].term_binders(), loc, lhs, sigma[b.ident()].term_of(b, nx))
            }
        } else {
            match (lhs, rhs) {
                (Term::Let(p, a, b), Term::Let(q, x, y)) => then(
                    unify_steps(f, sigma, nx, loc, *p.typ, *q.typ),
                    |s1: Defs, m1: nat|
                        then(
                            unify_steps(f, s1, m1, loc, *a, *x),
                            |s2: Defs, m2: nat| unify_steps(f, s2, m2, loc, *b, *y),
                        ),
                ),
                (Term::Pi(p, a), Term::Pi(q, b)) => then(
                    unify_steps(f, sigma, nx, loc, *p.typ, *q.typ),
                    |s1: Defs, m1: nat| unify_steps(f, s1, m1, loc, *a, subst(*b, q.var.ident(), p.var)),
                ),
                (Term::Lam(p, a), Term::Lam(q, b)) => unify_steps(
                    f,
                    sigma,
                    nx,
                    loc,
                    *a,
                    subst(*b, q.var.ident(), p.var),
                ),
                (Term::App(g, i, x), Term::App(h, j, y)) => if i == j {
                    then(
                        unify_steps(f, sigma, nx, loc, *g, *h),
                        |s1: Defs, m1: nat| unify_steps(f, s1, m1, loc, *x, *y),
                    )
                } else {
                    fail
                },
                (Term::Sigma(p, a), Term::Sigma(q, b)) => then(
                    unify_steps(f, sigma, nx, loc, *p.typ, *q.typ),
                    |s1: Defs, m1: nat| unify_steps(f, s1, m1, loc, *a, subst(*b, q.var.ident(), p.var)),
                ),
                (Term::Tuple(a, b), Term::Tuple(x, y)) => then(
                    unify_steps(f, sigma, nx, loc, *a, *x),
                    |s1: Defs, m1: nat| unify_steps(f, s1, m1, loc, *b, *y),
                ),
                (Term::TupleLet(p, q, a, b), Term::TupleLet(r, s, x, y)) => then(
                    unify_steps(f, sigma, nx, loc, *a, *x),
                    |s1: Defs, m1: nat|
                        unify_steps(
                            f,
                            s1,
                            m1,
                            loc,
                            *b,
                            subst2(*y, r.var.ident(), p.var, s.var.ident(), q.var),
                        ),
                ),
                (Term::UnitLet(a, b), Term::UnitLet(x, y)) => then(
                    unify_steps(f, sigma, nx, loc, *a, *x),
                    |s1: Defs, m1: nat| unify_steps(f, s1, m1, loc, *b, *y),
                ),
                (Term::If(a, b, c), Term::If(x, y, z)) => then(
                    unify_steps(f, sigma, nx, loc, *a, *x),
                    |s1: Defs, m1: nat|
                        then(
                            unify_steps(f, s1, m1, loc, *b, *y),
                            |s2: Defs, m2: nat| unify_steps(f, s2, m2, loc, *c, *z),
                        ),
                ),
                (Term::Fields(a), Term::Fields(b)) => fields_eq_steps(f, sigma, nx, loc, a, b),
                (Term::Object(a), Term::Object(b)) => unify_steps(f, sigma, nx, loc, *a, *b),
                (Term::Obj(a), Term::Obj(b)) => unify_steps(f, sigma, nx, loc, *a, *b),
                (Term::Enum(a), Term::Enum(b)) => unify_steps(f, sigma, nx, loc, *a, *b),
                (Term::Variant(a), Term::Variant(b)) => unify_steps(f, sigma, nx, loc, *a, *b),
                (Term::Extern(a), Term::Extern(b)) => if a@ == b@ {
                    Some((Ok(()), sigma, nx))
                } else {
                    fail
                },
                (Term::Str(a), Term::Str(b)) => if a@ == b@ {
                    Some((Ok(()), sigma, nx))
                } else {
                    fail
                },
                (Term::Num(a), Term::Num(b)) => if a@ == b@ {
                    Some((Ok(()), sigma, nx))
                } else {
                    fail
                },
                (Term::Big(a), Term::Big(b)) => if a@ == b@ {
                    Some((Ok(()), sigma, nx))
                } else {
                    fail
                },
                (Term::Vptr(a, _), Term::Vptr(b, _)) => if a.ident() == b.ident() {
                    Some((Ok(()), sigma, nx))
                } else {
                    fail
                },
                (Term::Univ, Term::Univ) => Some((Ok(()), sigma, nx)),
                (Term::Unit, Term::Unit) => Some((Ok(()), sigma, nx)),
                (Term::TT, Term::TT) => Some((Ok(()), sigma, nx)),
                (Term::Boolean, Term::Boolean) => Some((Ok(()), sigma, nx)),
                (Term::False, Term::False) => Some((Ok(()), sigma, nx)),
                (Term::True, Term::True) => Some((Ok(()), sigma, nx)),
                (Term::String, Term::String) => Some((Ok(()), sigma, nx)),
                (Term::Number, Term::Number) => Some((Ok(()), sigma, nx)),
                (Term::BigInt, Term::BigInt) => Some((Ok(()), sigma, nx)),
                (Term::Row, Term::Row) => Some((Ok(()), sigma, nx)),
                _ => fail,
            }
        }
    }
}

/// Solving the metavariable `meta` with `tm`: a solved metavariable keeps its
/// solution; an unsolved one takes `tm`, and where `tm` is a reference to one
/// of its parameters, its type is then unified with that parameter's type.
pub open spec fn solve_steps(fuel: nat, sigma: Defs, nx: nat, loc: Loc, meta: Var, tm: Term) -> Outcome
    decreases fuel, 1nat,
{
    if !sigma.contains_key(meta.ident()) {
        None
    } else {
        let d = sigma[meta.ident()];
        match d.body {
            Body::Meta(solution) => if solution is Some {
                Some((Ok(()), sigma, nx))
            } else {
                let solved = sigma.insert(
                    meta.ident(),
                    Def { loc: d.loc, name: d.name, tele: d.tele, ret: d.ret, body: Body::Meta(Some(tm)) },
                );
                match tm {
                    Term::Ref(r) => match tele_find(d.tele@, r.ident()) {
                        Some(p) => unify_steps(fuel, solved, nx, loc, *d.ret, *p.typ),
                        None => None,
                    },
                    _ => Some((Ok(()), solved, nx)),
                }
            },
            _ => None,
        }
    }
}

/// Unifying two field maps of equally many entries, entry by entry, each
/// with the entry of the same label in `b`.
pub open spec fn fields_eq_steps(fuel: nat, sigma: Defs, nx: nat, loc: Loc, a: FieldMap, b: FieldMap) -> Outcome
    decreases fuel, 3 + fields_len(a),
{
    if fields_len(a) != fields_len(b) {
        Some((Err(Error::NonUnifiable(Term::Fields(a), Term::Fields(b), loc)), sigma, nx))
    } else {
        fields_eq_walk(fuel, sigma, nx, loc, a, b, a)
    }
}

pub open spec fn fields_eq_walk(
    fuel: nat,
    sigma: Defs,
    nx: nat,
    loc: Loc,
    a: FieldMap,
    b: FieldMap,
    rest: FieldMap,
) -> Outcome
    decreases fuel, 2 + fields_len(rest),
{
    match rest {
        FieldMap::Empty => Some((Ok(()), sigma, nx)),
        FieldMap::Entry(n, x, tail) => match fields_get(b, n@) {
            Some(y) => then(
                unify_steps(fuel, sigma, nx, loc, *x, y),
                |s1: Defs, m1: nat| fields_eq_walk(fuel, s1, m1, loc, a, b, *tail),
            ),
            None => Some((Err(Error::NonUnifiable(Term::Fields(a), Term::Fields(b), loc)), sigma, nx)),
        },
    }
}

/// Whether unifying `lhs` with `rhs` comes to an end.
pub open spec fn unify_finishes(sigma: Defs, nx: nat, loc: Loc, lhs: Term, rhs: Term) -> bool {
    exists|n: nat| #[trigger] unify_steps(n, sigma, nx, loc, lhs, rhs) is Some
}

/// The result and the context that unifying `lhs` with `rhs` comes to.
pub open spec fn unify_outcome(sigma: Defs, nx: nat, loc: Loc, lhs: Term, rhs: Term) -> (Result<(), Error>, Defs, nat) {
    unify_steps(
        choose|n: nat| #[trigger] unify_steps(n, sigma, nx, loc, lhs, rhs) is Some,
        sigma,
        nx,
        loc,
        lhs,
        rhs,
    ).unwrap()
}

/// Whether unifying two field maps entry by entry comes to an end.
pub open spec fn fields_eq_finishes(sigma: Defs, nx: nat, loc: Loc, a: FieldMap, b: FieldMap) -> bool {
    exists|n: nat| #[trigger] fields_eq_steps(n, sigma, nx, loc, a, b) is Some
}

pub open spec fn fields_eq_outcome(sigma: Defs, nx: nat, loc: Loc, a: FieldMap, b: FieldMap) -> (Result<(), Error>, Defs, nat) {
    fields_eq_steps(
        choose|n: nat| #[trigger] fields_eq_steps(n, sigma, nx, loc, a, b) is Some,
        sigma,
        nx,
        loc,
        a,
        b,
    ).unwrap()
}

/// Unifying every entry of `small` with the entry of the same label in `big`;
/// a label of `small` missing from `big` is an error.
pub open spec fn fields_ord_walk(
    fuel: nat,
    sigma: Defs,
    nx: nat,
    loc: Loc,
    small: FieldMap,
    big: FieldMap,
    rest: FieldMap,
) -> Outcome
    decreases fields_len(rest),
{
    match rest {
        FieldMap::Empty => Some((Ok(()), sigma, nx)),
        FieldMap::Entry(n, x, tail) => match fields_get(big, n@) {
            Some(y) => then(
                unify_steps(fuel, sigma, nx, loc, *x, y),
                |s1: Defs, m1: nat| fields_ord_walk(fuel, s1, m1, loc, small, big, *tail),
            ),
            None => Some((Err(Error::NonRowSat(Term::Fields(small), Term::Fields(big), loc)), sigma, nx)),
        },
    }
}

pub open spec fn fields_ord_finishes(sigma: Defs, nx: nat, loc: Loc, small: FieldMap, big: FieldMap) -> bool {
    exists|n: nat| #[trigger] fields_ord_walk(n, sigma, nx, loc, small, big, small) is Some
}

pub open spec fn fields_ord_outcome(sigma: Defs, nx: nat, loc: Loc, small: FieldMap, big: FieldMap) -> (Result<(), Error>, Defs, nat) {
    fields_ord_walk(
        choose|n: nat| #[trigger] fields_ord_walk(n, sigma, nx, loc, small, big, small) is Some,
        sigma,
        nx,
        loc,
        small,
        big,
        small,
    ).unwrap()
}

/// The result `r`, the context `s` and the next identity `m` that an
/// executable run leaves are those of the outcome `o`; none where `o` is none.
pub open spec fn lands(o: Outcome, r: Option<Result<(), Error>>, s: Defs, m: nat) -> bool {
    match o {
        Some((res, s2, m2)) => r == Some(res) && s == s2 && m == m2,
        None => r is None,
    }
}

/// A unifier working on a global context, reporting errors at one location.
pub struct Unifier<'a> {
    sigma: &'a mut Sigma,
    ids: &'a mut IdGen,
    loc: Loc,
}

impl<'a> Unifier<'a> {
    /// The global context the unifier has borrowed.
    pub closed spec fn lent_context(self) -> &'a mut Sigma {
        self.sigma
    }

    /// The supply of identities the unifier has borrowed.
    pub closed spec fn lent_ids(self) -> &'a mut IdGen {
        self.ids
    }

    /// Once the caller is done with a unifier, the context and supply it
    /// borrowed hold what it left in them.
    pub proof fn lemma_given_back(u: Unifier<'a>)
        requires
            has_resolved(u),
        ensures
            *final(u.lent_context()) == *u.lent_context(),
            *final(u.lent_ids()) == *u.lent_ids(),
    {
    }

    /// The definitions of the global context as they stand.
    pub open spec fn defs(&self) -> Defs {
        (*self.lent_context())@
    }

    pub closed spec fn loc(&self) -> Loc {
        self.loc
    }

    /// The next identity of the supply that fresh variables come from.
    pub open spec fn next(&self) -> nat {
        (*self.lent_ids()).upcoming() as nat
    }

    /// A unifier over the borrowed context and supply: whatever it leaves in
    /// them is what the caller finds there once the unifier is gone.
    pub fn new(sigma: &'a mut Sigma, ids: &'a mut IdGen, loc: Loc) -> (u: Self)
        ensures
            *final(sigma) == *final(u.lent_context()),
            *final(ids) == *final(u.lent_ids()),
            u.defs() == old(sigma)@,
            u.next() == old(ids).upcoming(),
            u.loc() == loc,
    {
        Unifier { sigma, ids, loc }
    }

    fn mismatch(&self, lhs: &Term, rhs: &Term) -> (r: Result<(), Error>)
        ensures
            r == Err::<(), Error>(Error::NonUnifiable(*lhs, *rhs, self.loc)),
    {
        Err(Error::NonUnifiable(lhs.copy(), rhs.copy(), self.loc))
    }

    /// Unifies `lhs` with `rhs` within `depth` nested steps: `None` where the
    /// run needs more; otherwise `Ok` where they are made equal, solving
    /// metavariables on the way, which stay solved whatever the result.
    pub fn unify_within(&mut self, lhs: &Term, rhs: &Term, depth: u64) -> (r: Option<Result<(), Error>>)
        ensures
            lands(
                unify_steps(depth as nat, old(self).defs(), old(self).next(), old(self).loc(), *lhs, *rhs),
                r,
                final(self).defs(),
                final(self).next(),
            ),
            final(self).loc() == old(self).loc(),
            *final(final(self).lent_context()) == *final(old(self).lent_context()),
            *final(final(self).lent_ids()) == *final(old(self).lent_ids()),
            r is Some ==> solves_more(old(self).defs(), final(self).defs()),
            r matches Some(Err(e)) ==> e matches Error::NonUnifiable(_, _, l) && l == old(self).loc(),
    {
        proof {
            lemma_unify_keeps(depth as nat, self.sigma@, self.ids.upcoming() as nat, self.loc, *lhs, *rhs);
        }
        self.unify_at(lhs, rhs, depth)
    }

    /// Unifies `lhs` with `rhs`: `Ok` where they are made equal, solving
    /// metavariables on the way, which stay solved whatever the result. The
    /// run must come to an end within as many nested steps as a `u64` counts.
    pub fn unify(&mut self, lhs: &Term, rhs: &Term) -> (r: Result<(), Error>)
        requires
            unify_steps(u64::MAX as nat, old(self).defs(), old(self).next(), old(self).loc(), *lhs, *rhs) is Some,
        ensures
            (r, final(self).defs(), final(self).next()) == unify_outcome(old(self).defs(), old(self).next(), old(self).loc(), *lhs, *rhs),
            solves_more(old(self).defs(), final(self).defs()),
            r matches Err(e) ==> e matches Error::NonUnifiable(_, _, l) && l == old(self).loc(),
            final(self).loc() == old(self).loc(),
            *final(final(self).lent_context()) == *final(old(self).lent_context()),
            *final(final(self).lent_ids()) == *final(old(self).lent_ids()),
    {
        proof {
            lemma_unify_outcome_steps(u64::MAX as nat, self.sigma@, self.ids.upcoming() as nat, self.loc, *lhs, *rhs);
            lemma_unify_keeps(u64::MAX as nat, self.sigma@, self.ids.upcoming() as nat, self.loc, *lhs, *rhs);
        }
        match self.unify_at(lhs, rhs, u64::MAX) {
            Some(r) => r,
            None => vstd::pervasive::unreached(),
        }
    }

    /// The term that the definition of `v` stands for, where it stands for one.
    fn unfold(&mut self, v: &Var) -> (r: Option<Box<Term>>)
        requires
            old(self).sigma@.contains_key(v.ident()),
        ensures
            ({
                let d = old(self).sigma@[v.ident()];
                let n = old(self).ids.upcoming();
                if !d.has_term() || n + d.term_binders() > u64::MAX {
                    r is None
                } else {
                    &&& r == Some(Box::new(d.term_of(*v, n as nat)))
                    &&& final(self).ids.upcoming() == n + d.term_binders()
                }
            }),
            final(self).sigma@ == old(self).sigma@,
            final(self).loc == old(self).loc,
            *final(final(self).lent_context()) == *final(old(self).lent_context()),
            *final(final(self).lent_ids()) == *final(old(self).lent_ids()),
    {
        let d = match self.sigma.get(&v.id()) {
            Some(d) => d,
            None => vstd::pervasive::unreached(),
        };
        let has_term = match &d.body {
            Body::Fun(_) | Body::Postulate | Body::Alias(_) | Body::Undefined => true,
            _ => false,
        };
        if !has_term {
            return None;
        }
        d.to_term_checked(v.clone(), self.ids)
    }

    fn unify_at(&mut self, lhs: &Term, rhs: &Term, fuel: u64) -> (r: Option<Result<(), Error>>)
        ensures
            lands(
                unify_steps(fuel as nat, old(self).sigma@, old(self).ids.upcoming() as nat, old(self).loc, *lhs, *rhs),
                r,
                final(self).sigma@,
                final(self).ids.upcoming() as nat,
            ),
            final(self).loc == old(self).loc,
            *final(final(self).lent_context()) == *final(old(self).lent_context()),
            *final(final(self).lent_ids()) == *final(old(self).lent_ids()),
        decreases fuel, 0nat,
    {
        if fuel == 0 {
            return None;
        }
        let f = fuel - 1;
        if let Term::MetaRef(_, v, _) = lhs {
            return self.solve(v, rhs, f);
        }
        if let Term::MetaRef(_, v, _) = rhs {
            return self.solve(v, lhs, f);
        }
        if let (Term::Ref(a), Term::Ref(b)) = (lhs, rhs) {
            if a.id() == b.id() {
                return Some(Ok(()));
            }
        }
        if let Term::Ref(a) = lhs {
            if !self.sigma.contains_key(&a.id()) {
                return Some(self.mismatch(lhs, rhs));
            }
            return match self.unfold(a) {
                Some(t) => self.unify_at(&t, rhs, f),
                None => None,
            };
        }
        if let Term::Ref(b) = rhs {
            if !self.sigma.contains_key(&b.id()) {
                return Some(self.mismatch(lhs, rhs));
            }
            return match self.unfold(b) {
                Some(t) => self.unify_at(lhs, &t, f),
                None => None,
            };
        }
        if let (Term::Qualified(_, a), Term::Qualified(_, b)) = (lhs, rhs) {
            if a.id() == b.id() {
                return Some(Ok(()));
            }
        }
        if let Term::Qualified(_, a) = lhs {
            if !self.sigma.contains_key(&a.id()) {
                return Some(self.mismatch(lhs, rhs));
            }
            return match self.unfold(a) {
                Some(t) => self.unify_at(&t, rhs, f),
                None => None,
            };
        }
        if let Term::Qualified(_, b) = rhs {
            if !self.sigma.contains_key(&b.id()) {
                return Some(self.mismatch(lhs, rhs));
            }
            return match self.unfold(b) {
                Some(t) => self.unify_at(lhs, &t, f),
                None => None,
            };
        }
        match (lhs, rhs) {
            (Term::Let(p, a, b), Term::Let(q, x, y)) => {
                match self.unify_at(&p.typ, &q.typ, f) {
                    Some(Ok(())) => {},
                    other => return other,
                }
                match self.unify_at(a, x, f) {
                    Some(Ok(())) => {},
                    other => return other,
                }
                self.unify_at(b, y, f)
            },
            (Term::Pi(p, a), Term::Pi(q, b)) => {
                match self.unify_at(&p.typ, &q.typ, f) {
                    Some(Ok(())) => {},
                    other => return other,
                }
                let b = b.rename(&q.var, &p.var);
                self.unify_at(a, &b, f)
            },
            (Term::Lam(p, a), Term::Lam(q, b)) => {
                let b = b.rename(&q.var, &p.var);
                self.unify_at(a, &b, f)
            },
            (Term::App(g, i, x), Term::App(h, j, y)) => if *i == *j {
                match self.unify_at(g, h, f) {
                    Some(Ok(())) => {},
                    other => return other,
                }
                self.unify_at(x, y, f)
            } else {
                Some(self.mismatch(lhs, rhs))
            },
            (Term::Sigma(p, a), Term::Sigma(q, b)) => {
                match self.unify_at(&p.typ, &q.typ, f) {
                    Some(Ok(())) => {},
                    other => return other,
                }
                let b = b.rename(&q.var, &p.var);
                self.unify_at(a, &b, f)
            },
            (Term::Tuple(a, b), Term::Tuple(x, y)) => {
                match self.unify_at(a, x, f) {
                    Some(Ok(())) => {},
                    other => return other,
                }
                self.unify_at(b, y, f)
            },
            (Term::TupleLet(p, q, a, b), Term::TupleLet(r, s, x, y)) => {
                let y = y.rename2(&r.var, &p.var, &s.var, &q.var);
                match self.unify_at(a, x, f) {
                    Some(Ok(())) => {},
                    other => return other,
                }
                self.unify_at(b, &y, f)
            },
            (Term::UnitLet(a, b), Term::UnitLet(x, y)) => {
                match self.unify_at(a, x, f) {
                    Some(Ok(())) => {},
                    other => return other,
                }
                self.unify_at(b, y, f)
            },
            (Term::If(a, b, c), Term::If(x, y, z)) => {
                match self.unify_at(a, x, f) {
                    Some(Ok(())) => {},
                    other => return other,
                }
                match self.unify_at(b, y, f) {
                    Some(Ok(())) => {},
                    other => return other,
                }
                self.unify_at(c, z, f)
            },
            (Term::Fields(a), Term::Fields(b)) => self.fields_eq_at(a, b, f),
            (Term::Object(a), Term::Object(b)) => self.unify_at(a, b, f),
            (Term::Obj(a), Term::Obj(b)) => self.unify_at(a, b, f),
            (Term::Enum(a), Term::Enum(b)) => self.unify_at(a, b, f),
            (Term::Variant(a), Term::Variant(b)) => self.unify_at(a, b, f),
            (Term::Extern(a), Term::Extern(b)) => Some(if *a == *b {
                Ok(())
            } else {
                self.mismatch(lhs, rhs)
            }),
            (Term::Str(a), Term::Str(b)) => Some(if *a == *b {
                Ok(())
            } else {
                self.mismatch(lhs, rhs)
            }),
            (Term::Num(a), Term::Num(b)) => Some(if *a == *b {
                Ok(())
            } else {
                self.mismatch(lhs, rhs)
            }),
            (Term::Big(a), Term::Big(b)) => Some(if *a == *b {
                Ok(())
            } else {
                self.mismatch(lhs, rhs)
            }),
            (Term::Vptr(a, _), Term::Vptr(b, _)) => Some(if a.id() == b.id() {
                Ok(())
            } else {
                self.mismatch(lhs, rhs)
            }),
            (Term::Univ, Term::Univ) => Some(Ok(())),
            (Term::Unit, Term::Unit) => Some(Ok(())),
            (Term::TT, Term::TT) => Some(Ok(())),
            (Term::Boolean, Term::Boolean) => Some(Ok(())),
            (Term::False, Term::False) => Some(Ok(())),
            (Term::True, Term::True) => Some(Ok(())),
            (Term::String, Term::String) => Some(Ok(())),
            (Term::Number, Term::Number) => Some(Ok(())),
            (Term::BigInt, Term::BigInt) => Some(Ok(())),
            (Term::Row, Term::Row) => Some(Ok(())),
            _ => Some(self.mismatch(lhs, rhs)),
        }
    }

    fn solve(&mut self, meta: &Var, tm: &Term, fuel: u64) -> (r: Option<Result<(), Error>>)
        ensures
            lands(
                solve_steps(fuel as nat, old(self).sigma@, old(self).ids.upcoming() as nat, old(self).loc, *meta, *tm),
                r,
                final(self).sigma@,
                final(self).ids.upcoming() as nat,
            ),
            final(self).loc == old(self).loc,
            *final(final(self).lent_context()) == *final(old(self).lent_context()),
            *final(final(self).lent_ids()) == *final(old(self).lent_ids()),
        decreases fuel, 1nat,
    {
        let ghost before = self.sigma@;
        let mut d = match self.sigma.remove(&meta.id()) {
            Some(d) => d,
            None => return None,
        };
        let is_meta = match &d.body {
            Body::Meta(_) => true,
            _ => false,
        };
        if !is_meta {
            return None;
        }
        let solved = match &d.body {
            Body::Meta(solution) => solution.is_some(),
            _ => false,
        };
        if solved {
            self.sigma.insert(meta.id(), d);
            assert(self.sigma@ =~= before);
            return Some(Ok(()));
        }
        let ghost old_d = before[meta.ident()];
        assert(d == old_d);
        d.body = Body::Meta(Some(tm.copy()));
        let ghost new_d = Def {
            loc: old_d.loc,
            name: old_d.name,
            tele: old_d.tele,
            ret: old_d.ret,
            body: Body::Meta(Some(*tm)),
        };
        assert(d == new_d);
        let target = match tm {
            Term::Ref(r) => match find_param_type(&d.tele, r) {
                Some(typ) => Some((d.ret.copy(), typ)),
                None => return None,
            },
            _ => None,
        };
        self.sigma.insert(meta.id(), d);
        assert(self.sigma@ =~= before.insert(meta.ident(), new_d));
        match target {
            Some((ret, typ)) => self.unify_at(&ret, &typ, fuel),
            None => Some(Ok(())),
        }
    }

    /// Unifies two field maps of equally many entries, each entry of `a`
    /// with the entry of the same label in `b`. The run must come to an end
    /// within as many nested steps as a `u64` counts.
    pub fn unify_fields_eq(&mut self, a: &FieldMap, b: &FieldMap) -> (r: Result<(), Error>)
        requires
            fields_distinct(*a),
            fields_distinct(*b),
            fields_eq_steps(u64::MAX as nat, old(self).defs(), old(self).next(), old(self).loc(), *a, *b) is Some,
        ensures
            (r, final(self).defs(), final(self).next()) == fields_eq_outcome(old(self).defs(), old(self).next(), old(self).loc(), *a, *b),
            r is Ok ==> fields_labels(*a) == fields_labels(*b),
            r is Ok ==> entries_unify(u64::MAX as nat, old(self).loc(), *a, *b),
            final(self).loc() == old(self).loc(),
            *final(final(self).lent_context()) == *final(old(self).lent_context()),
            *final(final(self).lent_ids()) == *final(old(self).lent_ids()),
    {
        proof {
            lemma_fields_eq_outcome_steps(u64::MAX as nat, self.sigma@, self.ids.upcoming() as nat, self.loc, *a, *b);
            if fields_eq_outcome(self.sigma@, self.ids.upcoming() as nat, self.loc, *a, *b).0 is Ok {
                lemma_fields_eq_ok_same_labels(self.sigma@, self.ids.upcoming() as nat, self.loc, *a, *b);
                lemma_eq_ok_entries(u64::MAX as nat, self.sigma@, self.ids.upcoming() as nat, self.loc, *a, *b, *a);
            }
        }
        match self.fields_eq_at(a, b, u64::MAX) {
            Some(r) => r,
            None => vstd::pervasive::unreached(),
        }
    }

    fn fields_eq_at(&mut self, a: &FieldMap, b: &FieldMap, fuel: u64) -> (r: Option<Result<(), Error>>)
        ensures
            lands(
                fields_eq_steps(fuel as nat, old(self).sigma@, old(self).ids.upcoming() as nat, old(self).loc, *a, *b),
                r,
                final(self).sigma@,
                final(self).ids.upcoming() as nat,
            ),
            final(self).loc == old(self).loc,
            *final(final(self).lent_context()) == *final(old(self).lent_context()),
            *final(final(self).lent_ids()) == *final(old(self).lent_ids()),
        decreases fuel, 3 + fields_len(*a),
    {
        if !a.same_len(b) {
            return Some(Err(Error::NonUnifiable(Term::Fields(a.copy()), Term::Fields(b.copy()), self.loc)));
        }
        self.fields_eq_walk(a, b, a, fuel)
    }

    fn fields_eq_walk(&mut self, a: &FieldMap, b: &FieldMap, rest: &FieldMap, fuel: u64) -> (r: Option<Result<(), Error>>)
        ensures
            lands(
                fields_eq_walk(fuel as nat, old(self).sigma@, old(self).ids.upcoming() as nat, old(self).loc, *a, *b, *rest),
                r,
                final(self).sigma@,
                final(self).ids.upcoming() as nat,
            ),
            final(self).loc == old(self).loc,
            *final(final(self).lent_context()) == *final(old(self).lent_context()),
            *final(final(self).lent_ids()) == *final(old(self).lent_ids()),
        decreases fuel, 2 + fields_len(*rest),
    {
        match rest {
            FieldMap::Empty => Some(Ok(())),
            FieldMap::Entry(n, x, tail) => match b.get(n) {
                Some(y) => {
                    match self.unify_at(x, y, fuel) {
                        Some(Ok(())) => {},
                        other => return other,
                    }
                    self.fields_eq_walk(a, b, tail, fuel)
                },
                None => Some(Err(Error::NonUnifiable(Term::Fields(a.copy()), Term::Fields(b.copy()), self.loc))),
            },
        }
    }

    /// Unifies every entry of `small` with the entry of the same label in
    /// `big`; a label of `small` missing from `big` is an error. The run must
    /// come to an end within as many nested steps as a `u64` counts.
    pub fn unify_fields_ord(&mut self, small: &FieldMap, big: &FieldMap) -> (r: Result<(), Error>)
        requires
            fields_ord_walk(u64::MAX as nat, old(self).defs(), old(self).next(), old(self).loc(), *small, *big, *small) is Some,
        ensures
            (r, final(self).defs(), final(self).next()) == fields_ord_outcome(old(self).defs(), old(self).next(), old(self).loc(), *small, *big),
            r is Ok ==> fields_labels(*small).subset_of(fields_labels(*big)),
            r is Ok ==> entries_unify(u64::MAX as nat, old(self).loc(), *small, *big),
            final(self).loc() == old(self).loc(),
            *final(final(self).lent_context()) == *final(old(self).lent_context()),
            *final(final(self).lent_ids()) == *final(old(self).lent_ids()),
    {
        proof {
            lemma_fields_ord_outcome_steps(u64::MAX as nat, self.sigma@, self.ids.upcoming() as nat, self.loc, *small, *big);
            lemma_ord_ok_labels(u64::MAX as nat, self.sigma@, self.ids.upcoming() as nat, self.loc, *small, *big, *small);
            if fields_ord_walk(u64::MAX as nat, self.sigma@, self.ids.upcoming() as nat, self.loc, *small, *big, *small) matches Some((Ok(_), _, _)) {
                lemma_ord_ok_entries(u64::MAX as nat, self.sigma@, self.ids.upcoming() as nat, self.loc, *small, *big, *small);
            }
        }
        match self.fields_ord_at(small, big, small, u64::MAX) {
            Some(r) => r,
            None => vstd::pervasive::unreached(),
        }
    }

    fn fields_ord_at(&mut self, small: &FieldMap, big: &FieldMap, rest: &FieldMap, fuel: u64) -> (r: Option<Result<(), Error>>)
        ensures
            lands(
                fields_ord_walk(fuel as nat, old(self).sigma@, old(self).ids.upcoming() as nat, old(self).loc, *small, *big, *rest),
                r,
                final(self).sigma@,
                final(self).ids.upcoming() as nat,
            ),
            final(self).loc == old(self).loc,
            *final(final(self).lent_context()) == *final(old(self).lent_context()),
            *final(final(self).lent_ids()) == *final(old(self).lent_ids()),
        decreases fields_len(*rest),
    {
        match rest {
            FieldMap::Empty => Some(Ok(())),
            FieldMap::Entry(n, x, tail) => match big.get(n) {
                Some(y) => {
                    match self.unify_at(x, y, fuel) {
                        Some(Ok(())) => {},
                        other => return other,
                    }
                    self.fields_ord_at(small, big, tail, fuel)
                },
                None => Some(Err(Error::NonRowSat(Term::Fields(small.copy()), Term::Fields(big.copy()), self.loc))),
            },
        }
    }
}

/// A copy of the type of the first parameter of `tele` of the identity of
/// `r`, if there is one.
fn find_param_type(tele: &Vec<Param<Term>>, r: &Var) -> (typ: Option<Box<Term>>)
    ensures
        match tele_find(tele@, r.ident()) {
            Some(p) => typ == Some(p.typ),
            None => typ is None,
        },
{
    let mut i: usize = 0;
    assert(tele@.skip(0) =~= tele@);
    while i < tele.len()
        invariant
            i <= tele@.len(),
            tele_find(tele@, r.ident()) == tele_find(tele@.skip(i as int), r.ident()),
        decreases tele@.len() - i,
    {
        if tele[i].var.id() == r.id() {
            return Some(Box::new(tele[i].typ.copy()));
        }
        assert(tele@.skip(i as int).drop_first() =~= tele@.skip(i + 1));
        i = i + 1;
    }
    None
}


/// `s2` is `s1` with some of its unsolved metavariables solved: the same
/// names, every definition the same but for the body of an unsolved
/// metavariable, which stays the body of a metavariable.
pub open spec fn solves_more(s1: Defs, s2: Defs) -> bool {
    &&& s2.dom() == s1.dom()
    &&& forall|k: u64|
        #[trigger] s1.contains_key(k) ==> {
            &&& s2[k].loc == s1[k].loc
            &&& s2[k].name == s1[k].name
            &&& s2[k].tele == s1[k].tele
            &&& s2[k].ret == s1[k].ret
            &&& if s1[k].body matches Body::Meta(None) {
                s2[k].body is Meta
            } else {
                s2[k].body == s1[k].body
            }
        }
}

/// What the unifier keeps of a context, and where its errors are located.
pub open spec fn keeps(sigma: Defs, loc: Loc, o: Outcome) -> bool {
    o matches Some((res, s2, _)) ==> {
        &&& solves_more(sigma, s2)
        &&& res matches Err(e) ==> e matches Error::NonUnifiable(_, _, l) && l == loc
    }
}

pub proof fn lemma_solves_more_refl(s: Defs)
    ensures
        solves_more(s, s),
{
}

pub proof fn lemma_solves_more_trans(s1: Defs, s2: Defs, s3: Defs)
    requires
        solves_more(s1, s2),
        solves_more(s2, s3),
    ensures
        solves_more(s1, s3),
{
    assert forall|k: u64| #[trigger] s1.contains_key(k) implies {
        &&& s3[k].loc == s1[k].loc
        &&& s3[k].name == s1[k].name
        &&& s3[k].tele == s1[k].tele
        &&& s3[k].ret == s1[k].ret
        &&& if s1[k].body matches Body::Meta(None) {
            s3[k].body is Meta
        } else {
            s3[k].body == s1[k].body
        }
    } by {
        assert(s2.contains_key(k));
    }
}

proof fn lemma_then_keeps(sigma: Defs, loc: Loc, o: Outcome, k: spec_fn(Defs, nat) -> Outcome)
    requires
        keeps(sigma, loc, o),
        forall|s1: Defs, m1: nat| keeps(s1, loc, #[trigger] k(s1, m1)),
    ensures
        keeps(sigma, loc, then(o, k)),
{
    if let Some((Ok(_), s1, m1)) = o {
        assert(keeps(s1, loc, k(s1, m1)));
        if let Some((res, s2, _)) = k(s1, m1) {
            lemma_solves_more_trans(sigma, s1, s2);
        }
    }
}

/// Unification only ever solves metavariables: the context it leaves has the
/// same names, the same definitions, and every metavariable solved before
/// keeps its solution; and every error it reports is a mismatch at the
/// unifier's location.
pub proof fn lemma_unify_keeps(n: nat, sigma: Defs, nx: nat, loc: Loc, lhs: Term, rhs: Term)
    ensures
        keeps(sigma, loc, unify_steps(n, sigma, nx, loc, lhs, rhs)),
    decreases n, 0nat,
{
    if n == 0 {
        return;
    }
    let f = (n - 1) as nat;
    lemma_solves_more_refl(sigma);
    if lhs is MetaRef {
        lemma_solve_keeps(f, sigma, nx, loc, lhs->MetaRef_1, rhs);
    } else if rhs is MetaRef {
        lemma_solve_keeps(f, sigma, nx, loc, rhs->MetaRef_1, lhs);
    } else if lhs is Ref && rhs is Ref && lhs->Ref_0.ident() == rhs->Ref_0.ident() {
    } else if lhs is Ref {
        let a = lhs->Ref_0;
        if sigma.contains_key(a.ident()) && sigma[a.ident()].has_term()
            && nx + sigma[a.ident()].term_binders() <= u64::MAX {
            lemma_unify_keeps(f, sigma, nx + sigma[a.ident()].term_binders(), loc, sigma[a.ident()].term_of(a, nx), rhs);
        }
    } else if rhs is Ref {
        let b = rhs->Ref_0;
        if sigma.contains_key(b.ident()) && sigma[b.ident()].has_term()
            && nx + sigma[b.ident()].term_binders() <= u64::MAX {
            lemma_unify_keeps(f, sigma, nx + sigma[b.ident()].term_binders(), loc, lhs, sigma[b.ident()].term_of(b, nx));
        }
    } else if lhs is Qualified && rhs is Qualified && lhs->Qualified_1.ident()
        == rhs->Qualified_1.ident() {
    } else if lhs is Qualified {
        let a = lhs->Qualified_1;
        if sigma.contains_key(a.ident()) && sigma[a.ident()].has_term()
            && nx + sigma[a.ident()].term_binders() <= u64::MAX {
            lemma_unify_keeps(f, sigma, nx + sigma[a.ident()].term_binders(), loc, sigma[a.ident()].term_of(a, nx), rhs);
        }
    } else if rhs is Qualified {
        let b = rhs->Qualified_1;
        if sigma.contains_key(b.ident()) && sigma[b.ident()].has_term()
            && nx + sigma[b.ident()].term_binders() <= u64::MAX {
            lemma_unify_keeps(f, sigma, nx + sigma[b.ident()].term_binders(), loc, lhs, sigma[b.ident()].term_of(b, nx));
        }
    } else {
        match (lhs, rhs) {
            (Term::Let(p, a, b), Term::Let(q, x, y)) => {
                lemma_unify_keeps(f, sigma, nx, loc, *p.typ, *q.typ);
                let k2 = |s2: Defs, m2: nat| unify_steps(f, s2, m2, loc, *b, *y);
                let k1 = |s1: Defs, m1: nat| then(unify_steps(f, s1, m1, loc, *a, *x), k2);
                assert forall|s1: Defs, m1: nat| #![trigger k1(s1, m1)] keeps(s1, loc, k1(s1, m1)) by {
                    lemma_unify_keeps(f, s1, m1, loc, *a, *x);
                    assert forall|s2: Defs, m2: nat| #![trigger k2(s2, m2)] keeps(s2, loc, k2(s2, m2)) by {
                        lemma_unify_keeps(f, s2, m2, loc, *b, *y);
                    }
                    lemma_then_keeps(s1, loc, unify_steps(f, s1, m1, loc, *a, *x), k2);
                }
                lemma_then_keeps(sigma, loc, unify_steps(f, sigma, nx, loc, *p.typ, *q.typ), k1);
            },
            (Term::Pi(p, a), Term::Pi(q, b)) => {
                lemma_unify_keeps(f, sigma, nx, loc, *p.typ, *q.typ);
                let k1 = |s1: Defs, m1: nat| unify_steps(f, s1, m1, loc, *a, subst(*b, q.var.ident(), p.var));
                assert forall|s1: Defs, m1: nat| #![trigger k1(s1, m1)] keeps(s1, loc, k1(s1, m1)) by {
                    lemma_unify_keeps(f, s1, m1, loc, *a, subst(*b, q.var.ident(), p.var));
                }
                lemma_then_keeps(sigma, loc, unify_steps(f, sigma, nx, loc, *p.typ, *q.typ), k1);
            },
            (Term::Lam(p, a), Term::Lam(q, b)) => {
                lemma_unify_keeps(f, sigma, nx, loc, *a, subst(*b, q.var.ident(), p.var));
            },
            (Term::App(g, i, x), Term::App(h, j, y)) => {
                if i == j {
                    lemma_unify_keeps(f, sigma, nx, loc, *g, *h);
                    let k1 = |s1: Defs, m1: nat| unify_steps(f, s1, m1, loc, *x, *y);
                    assert forall|s1: Defs, m1: nat| #![trigger k1(s1, m1)] keeps(s1, loc, k1(s1, m1)) by {
                        lemma_unify_keeps(f, s1, m1, loc, *x, *y);
                    }
                    lemma_then_keeps(sigma, loc, unify_steps(f, sigma, nx, loc, *g, *h), k1);
                }
            },
            (Term::Sigma(p, a), Term::Sigma(q, b)) => {
                lemma_unify_keeps(f, sigma, nx, loc, *p.typ, *q.typ);
                let k1 = |s1: Defs, m1: nat| unify_steps(f, s1, m1, loc, *a, subst(*b, q.var.ident(), p.var));
                assert forall|s1: Defs, m1: nat| #![trigger k1(s1, m1)] keeps(s1, loc, k1(s1, m1)) by {
                    lemma_unify_keeps(f, s1, m1, loc, *a, subst(*b, q.var.ident(), p.var));
                }
                lemma_then_keeps(sigma, loc, unify_steps(f, sigma, nx, loc, *p.typ, *q.typ), k1);
            },
            (Term::Tuple(a, b), Term::Tuple(x, y)) => {
                lemma_unify_keeps(f, sigma, nx, loc, *a, *x);
                let k1 = |s1: Defs, m1: nat| unify_steps(f, s1, m1, loc, *b, *y);
                assert forall|s1: Defs, m1: nat| #![trigger k1(s1, m1)] keeps(s1, loc, k1(s1, m1)) by {
                    lemma_unify_keeps(f, s1, m1, loc, *b, *y);
                }
                lemma_then_keeps(sigma, loc, unify_steps(f, sigma, nx, loc, *a, *x), k1);
            },
            (Term::TupleLet(p, q, a, b), Term::TupleLet(r, s, x, y)) => {
                let y2 = subst2(*y, r.var.ident(), p.var, s.var.ident(), q.var);
                lemma_unify_keeps(f, sigma, nx, loc, *a, *x);
                let k1 = |s1: Defs, m1: nat| unify_steps(f, s1, m1, loc, *b, y2);
                assert forall|s1: Defs, m1: nat| #![trigger k1(s1, m1)] keeps(s1, loc, k1(s1, m1)) by {
                    lemma_unify_keeps(f, s1, m1, loc, *b, y2);
                }
                lemma_then_keeps(sigma, loc, unify_steps(f, sigma, nx, loc, *a, *x), k1);
            },
            (Term::UnitLet(a, b), Term::UnitLet(x, y)) => {
                lemma_unify_keeps(f, sigma, nx, loc, *a, *x);
                let k1 = |s1: Defs, m1: nat| unify_steps(f, s1, m1, loc, *b, *y);
                assert forall|s1: Defs, m1: nat| #![trigger k1(s1, m1)] keeps(s1, loc, k1(s1, m1)) by {
                    lemma_unify_keeps(f, s1, m1, loc, *b, *y);
                }
                lemma_then_keeps(sigma, loc, unify_steps(f, sigma, nx, loc, *a, *x), k1);
            },
            (Term::If(a, b, c), Term::If(x, y, z)) => {
                lemma_unify_keeps(f, sigma, nx, loc, *a, *x);
                let k2 = |s2: Defs, m2: nat| unify_steps(f, s2, m2, loc, *c, *z);
                let k1 = |s1: Defs, m1: nat| then(unify_steps(f, s1, m1, loc, *b, *y), k2);
                assert forall|s1: Defs, m1: nat| #![trigger k1(s1, m1)] keeps(s1, loc, k1(s1, m1)) by {
                    lemma_unify_keeps(f, s1, m1, loc, *b, *y);
                    assert forall|s2: Defs, m2: nat| #![trigger k2(s2, m2)] keeps(s2, loc, k2(s2, m2)) by {
                        lemma_unify_keeps(f, s2, m2, loc, *c, *z);
                    }
                    lemma_then_keeps(s1, loc, unify_steps(f, s1, m1, loc, *b, *y), k2);
                }
                lemma_then_keeps(sigma, loc, unify_steps(f, sigma, nx, loc, *a, *x), k1);
            },
            (Term::Fields(a), Term::Fields(b)) => {
                lemma_fields_eq_keeps(f, sigma, nx, loc, a, b);
            },
            (Term::Object(a), Term::Object(b)) => {
                lemma_unify_keeps(f, sigma, nx, loc, *a, *b);
            },
            (Term::Obj(a), Term::Obj(b)) => {
                lemma_unify_keeps(f, sigma, nx, loc, *a, *b);
            },
            (Term::Enum(a), Term::Enum(b)) => {
                lemma_unify_keeps(f, sigma, nx, loc, *a, *b);
            },
            (Term::Variant(a), Term::Variant(b)) => {
                lemma_unify_keeps(f, sigma, nx, loc, *a, *b);
            },
            _ => {},
        }
    }
}

pub proof fn lemma_solve_keeps(n: nat, sigma: Defs, nx: nat, loc: Loc, meta: Var, tm: Term)
    ensures
        keeps(sigma, loc, solve_steps(n, sigma, nx, loc, meta, tm)),
    decreases n, 1nat,
{
    lemma_solves_more_refl(sigma);
    if sigma.contains_key(meta.ident()) {
        let d = sigma[meta.ident()];
        if let Body::Meta(solution) = d.body {
            if solution is None {
                let solved = sigma.insert(
                    meta.ident(),
                    Def { loc: d.loc, name: d.name, tele: d.tele, ret: d.ret, body: Body::Meta(Some(tm)) },
                );
                assert(solved.dom() =~= sigma.dom());
                assert(solves_more(sigma, solved));
                if let Term::Ref(r) = tm {
                    if let Some(p) = tele_find(d.tele@, r.ident()) {
                        lemma_unify_keeps(n, solved, nx, loc, *d.ret, *p.typ);
                        if let Some((res, s2, _)) = unify_steps(n, solved, nx, loc, *d.ret, *p.typ) {
                            lemma_solves_more_trans(sigma, solved, s2);
                        }
                    }
                }
            }
        }
    }
}

pub proof fn lemma_fields_eq_keeps(n: nat, sigma: Defs, nx: nat, loc: Loc, a: FieldMap, b: FieldMap)
    ensures
        keeps(sigma, loc, fields_eq_steps(n, sigma, nx, loc, a, b)),
    decreases n, 3 + fields_len(a),
{
    lemma_solves_more_refl(sigma);
    if fields_len(a) == fields_len(b) {
        lemma_fields_eq_walk_keeps(n, sigma, nx, loc, a, b, a);
    }
}

pub proof fn lemma_fields_eq_walk_keeps(
    n: nat,
    sigma: Defs,
    nx: nat,
    loc: Loc,
    a: FieldMap,
    b: FieldMap,
    rest: FieldMap,
)
    ensures
        keeps(sigma, loc, fields_eq_walk(n, sigma, nx, loc, a, b, rest)),
    decreases n, 2 + fields_len(rest),
{
    lemma_solves_more_refl(sigma);
    if let FieldMap::Entry(m, x, tail) = rest {
        if let Some(y) = fields_get(b, m@) {
            lemma_unify_keeps(n, sigma, nx, loc, *x, y);
            let k1 = |s1: Defs, m1: nat| fields_eq_walk(n, s1, m1, loc, a, b, *tail);
            assert forall|s1: Defs, m1: nat| #![trigger k1(s1, m1)] keeps(s1, loc, k1(s1, m1)) by {
                lemma_fields_eq_walk_keeps(n, s1, m1, loc, a, b, *tail);
            }
            lemma_then_keeps(sigma, loc, unify_steps(n, sigma, nx, loc, *x, y), k1);
        }
    }
}


proof fn lemma_then_more(
    o1: Outcome,
    o2: Outcome,
    k1: spec_fn(Defs, nat) -> Outcome,
    k2: spec_fn(Defs, nat) -> Outcome,
)
    requires
        then(o1, k1) is Some,
        o1 is Some ==> o2 == o1,
        o1 matches Some((Ok(_), s, m)) ==> (k1(s, m) is Some ==> k2(s, m) == k1(s, m)),
    ensures
        then(o2, k2) == then(o1, k1),
{
    if let Some((Ok(_), s, m)) = o1 {
        assert(k1(s, m) is Some);
    }
}

/// More steps change nothing: a run of the unifier that comes to an end
/// within `n` steps comes to the same end within any larger number of steps.
pub proof fn lemma_unify_fuel(n: nat, m: nat, sigma: Defs, nx: nat, loc: Loc, lhs: Term, rhs: Term)
    requires
        n <= m,
        unify_steps(n, sigma, nx, loc, lhs, rhs) is Some,
    ensures
        unify_steps(m, sigma, nx, loc, lhs, rhs) == unify_steps(n, sigma, nx, loc, lhs, rhs),
    decreases n, 0nat, 0nat,
{
    let f = (n - 1) as nat;
    let g = (m - 1) as nat;
    if lhs is MetaRef {
        lemma_solve_fuel(f, g, sigma, nx, loc, lhs->MetaRef_1, rhs);
    } else if rhs is MetaRef {
        lemma_solve_fuel(f, g, sigma, nx, loc, rhs->MetaRef_1, lhs);
    } else if lhs is Ref && rhs is Ref && lhs->Ref_0.ident() == rhs->Ref_0.ident() {
    } else if lhs is Ref {
        let a = lhs->Ref_0;
        if sigma.contains_key(a.ident()) && sigma[a.ident()].has_term()
            && nx + sigma[a.ident()].term_binders() <= u64::MAX {
            lemma_unify_fuel(f, g, sigma, nx + sigma[a.ident()].term_binders(), loc, sigma[a.ident()].term_of(a, nx), rhs);
        }
    } else if rhs is Ref {
        let b = rhs->Ref_0;
        if sigma.contains_key(b.ident()) && sigma[b.ident()].has_term()
            && nx + sigma[b.ident()].term_binders() <= u64::MAX {
            lemma_unify_fuel(f, g, sigma, nx + sigma[b.ident()].term_binders(), loc, lhs, sigma[b.ident()].term_of(b, nx));
        }
    } else if lhs is Qualified && rhs is Qualified && lhs->Qualified_1.ident()
        == rhs->Qualified_1.ident() {
    } else if lhs is Qualified {
        let a = lhs->Qualified_1;
        if sigma.contains_key(a.ident()) && sigma[a.ident()].has_term()
            && nx + sigma[a.ident()].term_binders() <= u64::MAX {
            lemma_unify_fuel(f, g, sigma, nx + sigma[a.ident()].term_binders(), loc, sigma[a.ident()].term_of(a, nx), rhs);
        }
    } else if rhs is Qualified {
        let b = rhs->Qualified_1;
        if sigma.contains_key(b.ident()) && sigma[b.ident()].has_term()
            && nx + sigma[b.ident()].term_binders() <= u64::MAX {
            lemma_unify_fuel(f, g, sigma, nx + sigma[b.ident()].term_binders(), loc, lhs, sigma[b.ident()].term_of(b, nx));
        }
    } else {
        match (lhs, rhs) {
            (Term::Let(p, a, b), Term::Let(q, x, y)) => {
                lemma_then3_fuel(f, g, sigma, nx, loc, *p.typ, *q.typ, *a, *x, *b, *y);
            },
            (Term::Pi(p, a), Term::Pi(q, b)) => {
                lemma_then2_fuel(f, g, sigma, nx, loc, *p.typ, *q.typ, *a, subst(*b, q.var.ident(), p.var));
            },
            (Term::Lam(p, a), Term::Lam(q, b)) => {
                lemma_unify_fuel(f, g, sigma, nx, loc, *a, subst(*b, q.var.ident(), p.var));
            },
            (Term::App(h, i, x), Term::App(k, j, y)) => {
                if i == j {
                    lemma_then2_fuel(f, g, sigma, nx, loc, *h, *k, *x, *y);
                }
            },
            (Term::Sigma(p, a), Term::Sigma(q, b)) => {
                lemma_then2_fuel(f, g, sigma, nx, loc, *p.typ, *q.typ, *a, subst(*b, q.var.ident(), p.var));
            },
            (Term::Tuple(a, b), Term::Tuple(x, y)) => {
                lemma_then2_fuel(f, g, sigma, nx, loc, *a, *x, *b, *y);
            },
            (Term::TupleLet(p, q, a, b), Term::TupleLet(r, s, x, y)) => {
                let y2 = subst2(*y, r.var.ident(), p.var, s.var.ident(), q.var);
                lemma_then2_fuel(f, g, sigma, nx, loc, *a, *x, *b, y2);
            },
            (Term::UnitLet(a, b), Term::UnitLet(x, y)) => {
                lemma_then2_fuel(f, g, sigma, nx, loc, *a, *x, *b, *y);
            },
            (Term::If(a, b, c), Term::If(x, y, z)) => {
                lemma_then3_fuel(f, g, sigma, nx, loc, *a, *x, *b, *y, *c, *z);
            },
            (Term::Fields(a), Term::Fields(b)) => {
                lemma_fields_eq_fuel(f, g, sigma, nx, loc, a, b);
            },
            (Term::Object(a), Term::Object(b)) => {
                lemma_unify_fuel(f, g, sigma, nx, loc, *a, *b);
            },
            (Term::Obj(a), Term::Obj(b)) => {
                lemma_unify_fuel(f, g, sigma, nx, loc, *a, *b);
            },
            (Term::Enum(a), Term::Enum(b)) => {
                lemma_unify_fuel(f, g, sigma, nx, loc, *a, *b);
            },
            (Term::Variant(a), Term::Variant(b)) => {
                lemma_unify_fuel(f, g, sigma, nx, loc, *a, *b);
            },
            _ => {},
        }
    }
}

#[verifier::spinoff_prover]
#[verifier::rlimit(100)]
proof fn lemma_then2_fuel(
    f: nat,
    g: nat,
    sigma: Defs,
    nx: nat,
    loc: Loc,
    a: Term,
    x: Term,
    b: Term,
    y: Term,
)
    requires
        f <= g,
        then(unify_steps(f, sigma, nx, loc, a, x), |s1: Defs, m1: nat| unify_steps(f, s1, m1, loc, b, y)) is Some,
    ensures
        then(unify_steps(g, sigma, nx, loc, a, x), |s1: Defs, m1: nat| unify_steps(g, s1, m1, loc, b, y))
            == then(unify_steps(f, sigma, nx, loc, a, x), |s1: Defs, m1: nat| unify_steps(f, s1, m1, loc, b, y)),
    decreases f, 0nat, 1nat,
{
    let o1 = unify_steps(f, sigma, nx, loc, a, x);
    let k1 = |s1: Defs, m1: nat| unify_steps(f, s1, m1, loc, b, y);
    let k2 = |s1: Defs, m1: nat| unify_steps(g, s1, m1, loc, b, y);
    if o1 is Some {
        lemma_unify_fuel(f, g, sigma, nx, loc, a, x);
    }
    if let Some((Ok(_), s, m)) = o1 {
        if k1(s, m) is Some {
            lemma_unify_fuel(f, g, s, m, loc, b, y);
        }
    }
    lemma_then_more(o1, unify_steps(g, sigma, nx, loc, a, x), k1, k2);
}

#[verifier::spinoff_prover]
#[verifier::rlimit(100)]
proof fn lemma_then3_fuel(
    f: nat,
    g: nat,
    sigma: Defs,
    nx: nat,
    loc: Loc,
    a: Term,
    x: Term,
    b: Term,
    y: Term,
    c: Term,
    z: Term,
)
    requires
        f <= g,
        then(
            unify_steps(f, sigma, nx, loc, a, x),
            |s1: Defs, m1: nat|
                then(unify_steps(f, s1, m1, loc, b, y), |s2: Defs, m2: nat| unify_steps(f, s2, m2, loc, c, z)),
        ) is Some,
    ensures
        then(
            unify_steps(g, sigma, nx, loc, a, x),
            |s1: Defs, m1: nat|
                then(unify_steps(g, s1, m1, loc, b, y), |s2: Defs, m2: nat| unify_steps(g, s2, m2, loc, c, z)),
        ) == then(
            unify_steps(f, sigma, nx, loc, a, x),
            |s1: Defs, m1: nat|
                then(unify_steps(f, s1, m1, loc, b, y), |s2: Defs, m2: nat| unify_steps(f, s2, m2, loc, c, z)),
        ),
    decreases f, 0nat, 2nat,
{
    let o1 = unify_steps(f, sigma, nx, loc, a, x);
    let k1 = |s1: Defs, m1: nat|
        then(unify_steps(f, s1, m1, loc, b, y), |s2: Defs, m2: nat| unify_steps(f, s2, m2, loc, c, z));
    let k2 = |s1: Defs, m1: nat|
        then(unify_steps(g, s1, m1, loc, b, y), |s2: Defs, m2: nat| unify_steps(g, s2, m2, loc, c, z));
    if o1 is Some {
        lemma_unify_fuel(f, g, sigma, nx, loc, a, x);
    }
    if let Some((Ok(_), s, m)) = o1 {
        if k1(s, m) is Some {
            lemma_then2_fuel(f, g, s, m, loc, b, y, c, z);
        }
    }
    lemma_then_more(o1, unify_steps(g, sigma, nx, loc, a, x), k1, k2);
}

pub proof fn lemma_solve_fuel(n: nat, m: nat, sigma: Defs, nx: nat, loc: Loc, meta: Var, tm: Term)
    requires
        n <= m,
        solve_steps(n, sigma, nx, loc, meta, tm) is Some,
    ensures
        solve_steps(m, sigma, nx, loc, meta, tm) == solve_steps(n, sigma, nx, loc, meta, tm),
    decreases n, 1nat, 0nat,
{
    let d = sigma[meta.ident()];
    if let Body::Meta(solution) = d.body {
        if solution is None {
            let solved = sigma.insert(
                meta.ident(),
                Def { loc: d.loc, name: d.name, tele: d.tele, ret: d.ret, body: Body::Meta(Some(tm)) },
            );
            if let Term::Ref(r) = tm {
                if let Some(p) = tele_find(d.tele@, r.ident()) {
                    lemma_unify_fuel(n, m, solved, nx, loc, *d.ret, *p.typ);
                }
            }
        }
    }
}

pub proof fn lemma_fields_eq_fuel(n: nat, m: nat, sigma: Defs, nx: nat, loc: Loc, a: FieldMap, b: FieldMap)
    requires
        n <= m,
        fields_eq_steps(n, sigma, nx, loc, a, b) is Some,
    ensures
        fields_eq_steps(m, sigma, nx, loc, a, b) == fields_eq_steps(n, sigma, nx, loc, a, b),
    decreases n, 3 + fields_len(a), 0nat,
{
    if fields_len(a) == fields_len(b) {
        lemma_fields_eq_walk_fuel(n, m, sigma, nx, loc, a, b, a);
    }
}

proof fn lemma_fields_eq_walk_fuel(
    n: nat,
    m: nat,
    sigma: Defs,
    nx: nat,
    loc: Loc,
    a: FieldMap,
    b: FieldMap,
    rest: FieldMap,
)
    requires
        n <= m,
        fields_eq_walk(n, sigma, nx, loc, a, b, rest) is Some,
    ensures
        fields_eq_walk(m, sigma, nx, loc, a, b, rest) == fields_eq_walk(n, sigma, nx, loc, a, b, rest),
    decreases n, 2 + fields_len(rest), 0nat,
{
    if let FieldMap::Entry(l, x, tail) = rest {
        if let Some(y) = fields_get(b, l@) {
            let o1 = unify_steps(n, sigma, nx, loc, *x, y);
            let k1 = |s1: Defs, m1: nat| fields_eq_walk(n, s1, m1, loc, a, b, *tail);
            let k2 = |s1: Defs, m1: nat| fields_eq_walk(m, s1, m1, loc, a, b, *tail);
            if o1 is Some {
                lemma_unify_fuel(n, m, sigma, nx, loc, *x, y);
            }
            if let Some((Ok(_), s, m1)) = o1 {
                if k1(s, m1) is Some {
                    lemma_fields_eq_walk_fuel(n, m, s, m1, loc, a, b, *tail);
                }
            }
            lemma_then_more(o1, unify_steps(m, sigma, nx, loc, *x, y), k1, k2);
        }
    }
}

/// A run that comes to an end within `n` steps comes to the outcome of
/// unification: how many steps are allowed beyond that does not matter.
pub proof fn lemma_unify_outcome_steps(n: nat, sigma: Defs, nx: nat, loc: Loc, lhs: Term, rhs: Term)
    requires
        unify_steps(n, sigma, nx, loc, lhs, rhs) is Some,
    ensures
        unify_finishes(sigma, nx, loc, lhs, rhs),
        unify_outcome(sigma, nx, loc, lhs, rhs) == unify_steps(n, sigma, nx, loc, lhs, rhs).unwrap(),
{
    let c = choose|c: nat| #[trigger] unify_steps(c, sigma, nx, loc, lhs, rhs) is Some;
    if c <= n {
        lemma_unify_fuel(c, n, sigma, nx, loc, lhs, rhs);
    } else {
        lemma_unify_fuel(n, c, sigma, nx, loc, lhs, rhs);
    }
}

/// The parameter of a function type, pair type or let.
pub open spec fn binder_param(t: Term) -> Option<Param<Term>> {
    match t {
        Term::Pi(p, _) => Some(p),
        Term::Sigma(p, _) => Some(p),
        Term::Let(p, _, _) => Some(p),
        _ => None,
    }
}

/// Both terms are function types, or both pair types, or both lets.
pub open spec fn same_binder(lhs: Term, rhs: Term) -> bool {
    ||| lhs is Pi && rhs is Pi
    ||| lhs is Sigma && rhs is Sigma
    ||| lhs is Let && rhs is Let
}

/// Parameter types come first: where the parameter types of two function
/// types, pair types or lets fail to unify, the terms fail with that error
/// and the context it leaves.
pub proof fn lemma_binder_types_first(n: nat, sigma: Defs, nx: nat, loc: Loc, lhs: Term, rhs: Term)
    requires
        same_binder(lhs, rhs),
        unify_steps(n, sigma, nx, loc, *binder_param(lhs).unwrap().typ, *binder_param(rhs).unwrap().typ)
            matches Some((Err(_), _, _)),
    ensures
        unify_steps(n + 1, sigma, nx, loc, lhs, rhs) == unify_steps(
            n,
            sigma,
            nx,
            loc,
            *binder_param(lhs).unwrap().typ,
            *binder_param(rhs).unwrap().typ,
        ),
{
}

/// Two function types, pair types or lets unify only where their parameter
/// types unify.
pub proof fn lemma_binder_ok_needs_types(sigma: Defs, nx: nat, loc: Loc, lhs: Term, rhs: Term)
    requires
        same_binder(lhs, rhs),
        unify_finishes(sigma, nx, loc, lhs, rhs),
        unify_outcome(sigma, nx, loc, lhs, rhs).0 is Ok,
    ensures
        unify_finishes(sigma, nx, loc, *binder_param(lhs).unwrap().typ, *binder_param(rhs).unwrap().typ),
        unify_outcome(sigma, nx, loc, *binder_param(lhs).unwrap().typ, *binder_param(rhs).unwrap().typ).0 is Ok,
{
    let c = choose|c: nat| #[trigger] unify_steps(c, sigma, nx, loc, lhs, rhs) is Some;
    let a = *binder_param(lhs).unwrap().typ;
    let b = *binder_param(rhs).unwrap().typ;
    let f = (c - 1) as nat;
    assert(unify_steps(f, sigma, nx, loc, a, b) matches Some((Ok(_), _, _)));
    lemma_unify_outcome_steps(f, sigma, nx, loc, a, b);
}

/// A constant type: one of the types the language has built in.
pub open spec fn const_type(t: Term) -> bool {
    ||| t is Univ
    ||| t is Unit
    ||| t is Boolean
    ||| t is String
    ||| t is Number
    ||| t is BigInt
    ||| t is Row
}

/// Two different constant types never unify, whatever the context.
pub proof fn lemma_const_types_differ(n: nat, sigma: Defs, nx: nat, loc: Loc, a: Term, b: Term)
    requires
        n >= 1,
        const_type(a),
        const_type(b),
        a != b,
    ensures
        unify_steps(n, sigma, nx, loc, a, b) == Some((Err::<(), Error>(Error::NonUnifiable(a, b, loc)), sigma, nx)),
{
}

/// Unifying `x` with `y` within `n` nested steps succeeds in some context.
pub open spec fn unifies_somewhere(n: nat, loc: Loc, x: Term, y: Term) -> bool {
    exists|s: Defs, m: nat| #[trigger] unify_steps(n, s, m, loc, x, y) matches Some((Ok(_), _, _))
}

/// Every label of `rest` is a label of `big`, and its entry unifies with the
/// entry of that label in `big` in some context.
pub open spec fn entries_unify(n: nat, loc: Loc, rest: FieldMap, big: FieldMap) -> bool {
    forall|l: Seq<char>|
        #[trigger] fields_get(rest, l) is Some ==> fields_get(big, l) is Some && unifies_somewhere(
            n,
            loc,
            fields_get(rest, l).unwrap(),
            fields_get(big, l).unwrap(),
        )
}

/// Checking a field map against a larger one succeeds only where every entry
/// unifies with the entry of its label: the entries are unified, not only
/// their labels looked up.
pub proof fn lemma_ord_ok_entries(n: nat, sigma: Defs, nx: nat, loc: Loc, small: FieldMap, big: FieldMap, rest: FieldMap)
    requires
        fields_ord_walk(n, sigma, nx, loc, small, big, rest) matches Some((Ok(_), _, _)),
    ensures
        entries_unify(n, loc, rest, big),
    decreases rest,
{
    if let FieldMap::Entry(l0, x, tail) = rest {
        let y = fields_get(big, l0@).unwrap();
        let o = unify_steps(n, sigma, nx, loc, *x, y);
        if let Some((Ok(_), s1, m1)) = o {
            lemma_ord_ok_entries(n, s1, m1, loc, small, big, *tail);
            assert forall|l: Seq<char>| #[trigger] fields_get(rest, l) is Some implies fields_get(big, l) is Some
                && unifies_somewhere(n, loc, fields_get(rest, l).unwrap(), fields_get(big, l).unwrap()) by {
                if l == l0@ {
                    assert(unify_steps(n, sigma, nx, loc, *x, y) matches Some((Ok(_), _, _)));
                } else {
                    assert(fields_get(rest, l) == fields_get(*tail, l));
                }
            }
        }
    }
}

/// The first entry of a field map checked against a larger one is unified
/// first: where it fails, the check fails with that error.
pub proof fn lemma_ord_first_entry(n: nat, sigma: Defs, nx: nat, loc: Loc, small: FieldMap, big: FieldMap, rest: FieldMap)
    requires
        rest matches FieldMap::Entry(l, x, _) && fields_get(big, l@) is Some
            && unify_steps(n, sigma, nx, loc, *x, fields_get(big, l@).unwrap()) matches Some((Err(_), _, _)),
    ensures
        fields_ord_walk(n, sigma, nx, loc, small, big, rest) == unify_steps(
            n,
            sigma,
            nx,
            loc,
            *rest->Entry_1,
            fields_get(big, rest->Entry_0@).unwrap(),
        ),
{
}

/// Unifying two field maps entry by entry succeeds only where every entry of
/// the first unifies with the entry of its label in the second.
pub proof fn lemma_eq_ok_entries(n: nat, sigma: Defs, nx: nat, loc: Loc, a: FieldMap, b: FieldMap, rest: FieldMap)
    requires
        fields_eq_walk(n, sigma, nx, loc, a, b, rest) matches Some((Ok(_), _, _)),
    ensures
        entries_unify(n, loc, rest, b),
    decreases rest,
{
    if let FieldMap::Entry(l0, x, tail) = rest {
        let y = fields_get(b, l0@).unwrap();
        let o = unify_steps(n, sigma, nx, loc, *x, y);
        if let Some((Ok(_), s1, m1)) = o {
            lemma_eq_ok_entries(n, s1, m1, loc, a, b, *tail);
            assert forall|l: Seq<char>| #[trigger] fields_get(rest, l) is Some implies fields_get(b, l) is Some
                && unifies_somewhere(n, loc, fields_get(rest, l).unwrap(), fields_get(b, l).unwrap()) by {
                if l == l0@ {
                    assert(unify_steps(n, sigma, nx, loc, *x, y) matches Some((Ok(_), _, _)));
                } else {
                    assert(fields_get(rest, l) == fields_get(*tail, l));
                }
            }
        }
    }
}

/// The pairs of parts that unifying `lhs` with `rhs` unifies as they stand,
/// in order, where both are built by the same constructor: the parameter
/// types of binders, the bound terms of lets, the function and argument of
/// applications of the same kind, the components of tuples, conditionals and
/// sequences, and the contents of records and variants. The bodies under
/// binders, compared after renaming, are left out.
pub open spec fn parts(lhs: Term, rhs: Term) -> Seq<(Term, Term)> {
    match (lhs, rhs) {
        (Term::Let(p, a, b), Term::Let(q, x, y)) => seq![(*p.typ, *q.typ), (*a, *x), (*b, *y)],
        (Term::Pi(p, _), Term::Pi(q, _)) => seq![(*p.typ, *q.typ)],
        (Term::Sigma(p, _), Term::Sigma(q, _)) => seq![(*p.typ, *q.typ)],
        (Term::App(f, i, x), Term::App(g, j, y)) => if i == j {
            seq![(*f, *g), (*x, *y)]
        } else {
            Seq::empty()
        },
        (Term::Tuple(a, b), Term::Tuple(x, y)) => seq![(*a, *x), (*b, *y)],
        (Term::TupleLet(_, _, a, _), Term::TupleLet(_, _, x, _)) => seq![(*a, *x)],
        (Term::UnitLet(a, b), Term::UnitLet(x, y)) => seq![(*a, *x), (*b, *y)],
        (Term::If(a, b, c), Term::If(x, y, z)) => seq![(*a, *x), (*b, *y), (*c, *z)],
        (Term::Object(a), Term::Object(x)) => seq![(*a, *x)],
        (Term::Obj(a), Term::Obj(x)) => seq![(*a, *x)],
        (Term::Enum(a), Term::Enum(x)) => seq![(*a, *x)],
        (Term::Variant(a), Term::Variant(x)) => seq![(*a, *x)],
        _ => Seq::empty(),
    }
}

/// Both terms are built by one constructor that has parts, neither a
/// metavariable nor a reference.
pub open spec fn compound(lhs: Term, rhs: Term) -> bool {
    parts(lhs, rhs).len() > 0
}

/// Parts are unified left to right: where the first pair of parts fails to
/// unify, the terms fail with that error and the context it leaves.
#[verifier::spinoff_prover]
#[verifier::rlimit(60)]
pub proof fn lemma_first_part_first(n: nat, sigma: Defs, nx: nat, loc: Loc, lhs: Term, rhs: Term)
    requires
        compound(lhs, rhs),
        unify_steps(n, sigma, nx, loc, parts(lhs, rhs)[0].0, parts(lhs, rhs)[0].1) matches Some((Err(_), _, _)),
    ensures
        unify_steps(n + 1, sigma, nx, loc, lhs, rhs) == unify_steps(
            n,
            sigma,
            nx,
            loc,
            parts(lhs, rhs)[0].0,
            parts(lhs, rhs)[0].1,
        ),
{
    match (lhs, rhs) {
        (Term::Let(_, _, _), Term::Let(_, _, _)) => {},
        (Term::Pi(_, _), Term::Pi(_, _)) => {},
        (Term::Sigma(_, _), Term::Sigma(_, _)) => {},
        (Term::App(_, _, _), Term::App(_, _, _)) => {},
        (Term::Tuple(_, _), Term::Tuple(_, _)) => {},
        (Term::TupleLet(_, _, _, _), Term::TupleLet(_, _, _, _)) => {},
        (Term::UnitLet(_, _), Term::UnitLet(_, _)) => {},
        (Term::If(_, _, _), Term::If(_, _, _)) => {},
        (Term::Object(_), Term::Object(_)) => {},
        (Term::Obj(_), Term::Obj(_)) => {},
        (Term::Enum(_), Term::Enum(_)) => {},
        (Term::Variant(_), Term::Variant(_)) => {},
        _ => {},
    }
}

/// After the functions of two applications of one kind have unified, the
/// applications come to what unifying their arguments comes to in the
/// context the functions left.
pub proof fn lemma_app_args_next(n: nat, sigma: Defs, nx: nat, loc: Loc, f: Term, i: ParamInfo, x: Term, g: Term, y: Term, s1: Defs, m1: nat)
    requires
        unify_steps(n, sigma, nx, loc, f, g) == Some((Ok::<(), Error>(()), s1, m1)),
    ensures
        unify_steps(n + 1, sigma, nx, loc, Term::App(Box::new(f), i, Box::new(x)), Term::App(Box::new(g), i, Box::new(y)))
            == unify_steps(n, s1, m1, loc, x, y),
{
}

/// After the first components of two tuples have unified, the tuples come
/// to what unifying their second components comes to in the context the
/// first left.
pub proof fn lemma_tuple_second_next(n: nat, sigma: Defs, nx: nat, loc: Loc, a: Term, b: Term, x: Term, y: Term, s1: Defs, m1: nat)
    requires
        unify_steps(n, sigma, nx, loc, a, x) == Some((Ok::<(), Error>(()), s1, m1)),
    ensures
        unify_steps(n + 1, sigma, nx, loc, Term::Tuple(Box::new(a), Box::new(b)), Term::Tuple(Box::new(x), Box::new(y)))
            == unify_steps(n, s1, m1, loc, b, y),
{
}

/// Applications of different kinds, one explicit and one implicit, never unify.
pub proof fn lemma_app_kinds_differ(n: nat, sigma: Defs, nx: nat, loc: Loc, f: Term, i: ParamInfo, x: Term, g: Term, j: ParamInfo, y: Term)
    requires
        n >= 1,
        i != j,
    ensures
        unify_steps(n, sigma, nx, loc, Term::App(Box::new(f), i, Box::new(x)), Term::App(Box::new(g), j, Box::new(y)))
            == Some((Err::<(), Error>(Error::NonUnifiable(Term::App(Box::new(f), i, Box::new(x)), Term::App(Box::new(g), j, Box::new(y)), loc)), sigma, nx)),
{
}

/// A walk over two field maps that comes to an end within `n` steps comes
/// to their outcome.
pub proof fn lemma_fields_eq_outcome_steps(n: nat, sigma: Defs, nx: nat, loc: Loc, a: FieldMap, b: FieldMap)
    requires
        fields_eq_steps(n, sigma, nx, loc, a, b) is Some,
    ensures
        fields_eq_finishes(sigma, nx, loc, a, b),
        fields_eq_outcome(sigma, nx, loc, a, b) == fields_eq_steps(n, sigma, nx, loc, a, b).unwrap(),
{
    let c = choose|c: nat| #[trigger] fields_eq_steps(c, sigma, nx, loc, a, b) is Some;
    if c <= n {
        lemma_fields_eq_fuel(c, n, sigma, nx, loc, a, b);
    } else {
        lemma_fields_eq_fuel(n, c, sigma, nx, loc, a, b);
    }
}

proof fn lemma_fields_ord_fuel(n: nat, m: nat, sigma: Defs, nx: nat, loc: Loc, small: FieldMap, big: FieldMap, rest: FieldMap)
    requires
        n <= m,
        fields_ord_walk(n, sigma, nx, loc, small, big, rest) is Some,
    ensures
        fields_ord_walk(m, sigma, nx, loc, small, big, rest) == fields_ord_walk(n, sigma, nx, loc, small, big, rest),
    decreases fields_len(rest),
{
    if let FieldMap::Entry(l, x, tail) = rest {
        if let Some(y) = fields_get(big, l@) {
            let o1 = unify_steps(n, sigma, nx, loc, *x, y);
            let k1 = |s1: Defs, m1: nat| fields_ord_walk(n, s1, m1, loc, small, big, *tail);
            let k2 = |s1: Defs, m1: nat| fields_ord_walk(m, s1, m1, loc, small, big, *tail);
            if o1 is Some {
                lemma_unify_fuel(n, m, sigma, nx, loc, *x, y);
            }
            if let Some((Ok(_), s, m1)) = o1 {
                if k1(s, m1) is Some {
                    lemma_fields_ord_fuel(n, m, s, m1, loc, small, big, *tail);
                }
            }
            lemma_then_more(o1, unify_steps(m, sigma, nx, loc, *x, y), k1, k2);
        }
    }
}

/// Checking a field map against a larger one that comes to an end within
/// `n` steps comes to their outcome.
pub proof fn lemma_fields_ord_outcome_steps(n: nat, sigma: Defs, nx: nat, loc: Loc, small: FieldMap, big: FieldMap)
    requires
        fields_ord_walk(n, sigma, nx, loc, small, big, small) is Some,
    ensures
        fields_ord_finishes(sigma, nx, loc, small, big),
        fields_ord_outcome(sigma, nx, loc, small, big) == fields_ord_walk(n, sigma, nx, loc, small, big, small).unwrap(),
{
    let c = choose|c: nat| #[trigger] fields_ord_walk(c, sigma, nx, loc, small, big, small) is Some;
    if c <= n {
        lemma_fields_ord_fuel(c, n, sigma, nx, loc, small, big, small);
    } else {
        lemma_fields_ord_fuel(n, c, sigma, nx, loc, small, big, small);
    }
}

/// Unification only ever solves metavariables, as `lemma_unify_keeps`
/// states, for a run that comes to an end.
pub proof fn lemma_unify_outcome_keeps(sigma: Defs, nx: nat, loc: Loc, lhs: Term, rhs: Term)
    requires
        unify_finishes(sigma, nx, loc, lhs, rhs),
    ensures
        solves_more(sigma, unify_outcome(sigma, nx, loc, lhs, rhs).1),
        unify_outcome(sigma, nx, loc, lhs, rhs).0 matches Err(e) ==> e matches Error::NonUnifiable(
            _,
            _,
            l,
        ) && l == loc,
{
    let n = choose|n: nat| #[trigger] unify_steps(n, sigma, nx, loc, lhs, rhs) is Some;
    lemma_unify_keeps(n, sigma, nx, loc, lhs, rhs);
}

/// A solved metavariable keeps its solution: unifying it with any term
/// succeeds and leaves the context as it is.
pub proof fn lemma_solved_meta_unchanged(sigma: Defs, nx: nat, loc: Loc, k: MetaKind, m: Var, sp: TermList, rhs: Term)
    requires
        sigma.contains_key(m.ident()),
        sigma[m.ident()].body matches Body::Meta(Some(_)),
    ensures
        unify_finishes(sigma, nx, loc, Term::MetaRef(k, m, sp), rhs),
        unify_outcome(sigma, nx, loc, Term::MetaRef(k, m, sp), rhs) == (Ok::<(), Error>(()), sigma, nx),
        unify_steps(u64::MAX as nat, sigma, nx, loc, Term::MetaRef(k, m, sp), rhs) is Some,
{
    let lhs = Term::MetaRef(k, m, sp);
    assert(solve_steps(0, sigma, nx, loc, m, rhs) == Some((Ok::<(), Error>(()), sigma, nx)));
    assert(unify_steps(1, sigma, nx, loc, lhs, rhs) is Some);
    let n = choose|n: nat| #[trigger] unify_steps(n, sigma, nx, loc, lhs, rhs) is Some;
    assert(solve_steps((n - 1) as nat, sigma, nx, loc, m, rhs) == Some((Ok::<(), Error>(()), sigma, nx)));
    assert(solve_steps((u64::MAX - 1) as nat, sigma, nx, loc, m, rhs) == Some((Ok::<(), Error>(()), sigma, nx)));
}

/// Field maps of different sizes never unify, and the context stays as it is.
pub proof fn lemma_fields_eq_sizes_differ(sigma: Defs, nx: nat, loc: Loc, a: FieldMap, b: FieldMap)
    requires
        fields_len(a) != fields_len(b),
    ensures
        fields_eq_finishes(sigma, nx, loc, a, b),
        fields_eq_outcome(sigma, nx, loc, a, b) == (
            Err::<(), Error>(Error::NonUnifiable(Term::Fields(a), Term::Fields(b), loc)),
            sigma,
            nx,
        ),
        fields_eq_steps(u64::MAX as nat, sigma, nx, loc, a, b) is Some,
{
    assert(fields_eq_steps(0, sigma, nx, loc, a, b) is Some);
    assert(fields_eq_steps(u64::MAX as nat, sigma, nx, loc, a, b) is Some);
}

proof fn lemma_labels_len(f: FieldMap)
    ensures
        fields_labels(f).finite(),
        fields_distinct(f) ==> fields_labels(f).len() == fields_len(f),
    decreases f,
{
    if let FieldMap::Entry(_, _, rest) = f {
        lemma_labels_len(*rest);
    }
}

proof fn lemma_get_labels(f: FieldMap, n: Seq<char>)
    ensures
        fields_get(f, n) is Some <==> fields_labels(f).contains(n),
    decreases f,
{
    if let FieldMap::Entry(_, _, rest) = f {
        lemma_get_labels(*rest, n);
    }
}

proof fn lemma_walk_ok_labels(n: nat, sigma: Defs, nx: nat, loc: Loc, a: FieldMap, b: FieldMap, rest: FieldMap)
    requires
        fields_eq_walk(n, sigma, nx, loc, a, b, rest) matches Some((Ok(_), _, _)),
    ensures
        fields_labels(rest).subset_of(fields_labels(b)),
    decreases rest,
{
    if let FieldMap::Entry(l, x, tail) = rest {
        lemma_get_labels(b, l@);
        let y = fields_get(b, l@).unwrap();
        if let Some((Ok(_), s1, m1)) = unify_steps(n, sigma, nx, loc, *x, y) {
            lemma_walk_ok_labels(n, s1, m1, loc, a, b, *tail);
        }
    }
}

proof fn lemma_ord_ok_labels(n: nat, sigma: Defs, nx: nat, loc: Loc, small: FieldMap, big: FieldMap, rest: FieldMap)
    ensures
        fields_ord_walk(n, sigma, nx, loc, small, big, rest) matches Some((Ok(_), _, _))
            ==> fields_labels(rest).subset_of(fields_labels(big)),
    decreases rest,
{
    if let FieldMap::Entry(l, x, tail) = rest {
        lemma_get_labels(big, l@);
        if let Some(y) = fields_get(big, l@) {
            if let Some((Ok(_), s1, m1)) = unify_steps(n, sigma, nx, loc, *x, y) {
                lemma_ord_ok_labels(n, s1, m1, loc, small, big, *tail);
            }
        }
    }
}

/// Unifying two field maps, neither of which repeats a label, succeeds only
/// where both have the same labels.
pub proof fn lemma_fields_eq_ok_same_labels(sigma: Defs, nx: nat, loc: Loc, a: FieldMap, b: FieldMap)
    requires
        fields_distinct(a),
        fields_distinct(b),
        fields_eq_finishes(sigma, nx, loc, a, b),
        fields_eq_outcome(sigma, nx, loc, a, b).0 is Ok,
    ensures
        fields_labels(a) == fields_labels(b),
{
    let n = choose|n: nat| #[trigger] fields_eq_steps(n, sigma, nx, loc, a, b) is Some;
    assert(fields_len(a) == fields_len(b));
    lemma_walk_ok_labels(n, sigma, nx, loc, a, b, a);
    lemma_labels_len(a);
    lemma_labels_len(b);
    vstd::set_lib::lemma_subset_equality(fields_labels(a), fields_labels(b));
}

/// A term without variables: no references, no metavariables, no undefined
/// names, and no label twice in one field map.
pub open spec fn no_vars(t: Term) -> bool
    decreases t,
{
    match t {
        Term::Ref(_) | Term::Qualified(_, _) | Term::Undef(_) | Term::MetaRef(_, _, _) => false,
        Term::Let(p, a, b) => no_vars(*p.typ) && no_vars(*a) && no_vars(*b),
        Term::Pi(p, b) => no_vars(*p.typ) && no_vars(*b),
        Term::Lam(p, b) => no_vars(*p.typ) && no_vars(*b),
        Term::App(f, _, x) => no_vars(*f) && no_vars(*x),
        Term::Sigma(p, b) => no_vars(*p.typ) && no_vars(*b),
        Term::Tuple(a, b) => no_vars(*a) && no_vars(*b),
        Term::TupleLet(p, q, a, b) => no_vars(*p.typ) && no_vars(*q.typ) && no_vars(*a) && no_vars(*b),
        Term::UnitLet(a, b) => no_vars(*a) && no_vars(*b),
        Term::If(a, b, c) => no_vars(*a) && no_vars(*b) && no_vars(*c),
        Term::Fields(f) => fields_no_vars(f),
        Term::Object(r) => no_vars(*r),
        Term::Obj(r) => no_vars(*r),
        Term::Enum(r) => no_vars(*r),
        Term::Variant(r) => no_vars(*r),
        Term::Vptr(_, ts) => list_no_vars(ts),
        _ => true,
    }
}

pub open spec fn fields_no_vars(f: FieldMap) -> bool
    decreases f,
{
    match f {
        FieldMap::Empty => true,
        FieldMap::Entry(n, t, rest) => no_vars(*t) && fields_get(*rest, n@) is None && fields_no_vars(*rest),
    }
}

pub open spec fn list_no_vars(l: TermList) -> bool
    decreases l,
{
    match l {
        TermList::Nil => true,
        TermList::Cons(t, rest) => no_vars(*t) && list_no_vars(*rest),
    }
}

/// How deeply terms nest.
pub open spec fn depth(t: Term) -> nat
    decreases t,
{
    match t {
        Term::Let(p, a, b) => 1 + max3(depth(*p.typ), depth(*a), depth(*b)),
        Term::Pi(p, b) => 1 + max2(depth(*p.typ), depth(*b)),
        Term::Lam(p, b) => 1 + max2(depth(*p.typ), depth(*b)),
        Term::App(f, _, x) => 1 + max2(depth(*f), depth(*x)),
        Term::Sigma(p, b) => 1 + max2(depth(*p.typ), depth(*b)),
        Term::Tuple(a, b) => 1 + max2(depth(*a), depth(*b)),
        Term::TupleLet(p, q, a, b) => 1 + max2(max2(depth(*p.typ), depth(*q.typ)), max2(depth(*a), depth(*b))),
        Term::UnitLet(a, b) => 1 + max2(depth(*a), depth(*b)),
        Term::If(a, b, c) => 1 + max3(depth(*a), depth(*b), depth(*c)),
        Term::Fields(f) => 1 + fields_depth(f),
        Term::Object(r) => 1 + depth(*r),
        Term::Obj(r) => 1 + depth(*r),
        Term::Enum(r) => 1 + depth(*r),
        Term::Variant(r) => 1 + depth(*r),
        _ => 1,
    }
}

pub open spec fn fields_depth(f: FieldMap) -> nat
    decreases f,
{
    match f {
        FieldMap::Empty => 0,
        FieldMap::Entry(_, t, rest) => max2(depth(*t), fields_depth(*rest)),
    }
}

pub open spec fn max2(a: nat, b: nat) -> nat {
    if a >= b { a } else { b }
}

pub open spec fn max3(a: nat, b: nat, c: nat) -> nat {
    max2(a, max2(b, c))
}

/// `rest` is `f` with none or some of its first entries dropped.
pub open spec fn is_suffix(rest: FieldMap, f: FieldMap) -> bool
    decreases f,
{
    rest == f || match f {
        FieldMap::Empty => false,
        FieldMap::Entry(_, _, tail) => is_suffix(rest, *tail),
    }
}

/// Renaming a variable in a term without variables changes nothing.
pub proof fn lemma_subst_no_vars(t: Term, x: u64, y: Var)
    requires
        no_vars(t),
    ensures
        subst(t, x, y) == t,
    decreases t,
{
    match t {
        Term::Let(p, a, b) => {
            lemma_subst_no_vars(*p.typ, x, y);
            lemma_subst_no_vars(*a, x, y);
            lemma_subst_no_vars(*b, x, y);
            assert(crate::theory::abs::data::subst_param(p, x, y) == p);
        },
        Term::Pi(p, b) => {
            assert(crate::theory::abs::data::subst_param(p, x, y) == p) by {
                lemma_subst_no_vars(*p.typ, x, y);
            }
            lemma_subst_no_vars(*p.typ, x, y);
            lemma_subst_no_vars(*b, x, y);
        },
        Term::Lam(p, b) => {
            assert(crate::theory::abs::data::subst_param(p, x, y) == p) by {
                lemma_subst_no_vars(*p.typ, x, y);
            }
            lemma_subst_no_vars(*p.typ, x, y);
            lemma_subst_no_vars(*b, x, y);
        },
        Term::App(f, _, a) => {
            lemma_subst_no_vars(*f, x, y);
            lemma_subst_no_vars(*a, x, y);
        },
        Term::Sigma(p, b) => {
            assert(crate::theory::abs::data::subst_param(p, x, y) == p) by {
                lemma_subst_no_vars(*p.typ, x, y);
            }
            lemma_subst_no_vars(*p.typ, x, y);
            lemma_subst_no_vars(*b, x, y);
        },
        Term::Tuple(a, b) => {
            lemma_subst_no_vars(*a, x, y);
            lemma_subst_no_vars(*b, x, y);
        },
        Term::TupleLet(p, q, a, b) => {
            assert(crate::theory::abs::data::subst_param(p, x, y) == p) by {
                lemma_subst_no_vars(*p.typ, x, y);
            }
            assert(crate::theory::abs::data::subst_param(q, x, y) == q) by {
                lemma_subst_no_vars(*q.typ, x, y);
            }
            lemma_subst_no_vars(*p.typ, x, y);
            lemma_subst_no_vars(*q.typ, x, y);
            lemma_subst_no_vars(*a, x, y);
            lemma_subst_no_vars(*b, x, y);
        },
        Term::UnitLet(a, b) => {
            lemma_subst_no_vars(*a, x, y);
            lemma_subst_no_vars(*b, x, y);
        },
        Term::If(a, b, c) => {
            lemma_subst_no_vars(*a, x, y);
            lemma_subst_no_vars(*b, x, y);
            lemma_subst_no_vars(*c, x, y);
        },
        Term::Fields(f) => {
            lemma_subst_fields_no_vars(f, x, y);
        },
        Term::Object(r) => {
            lemma_subst_no_vars(*r, x, y);
        },
        Term::Obj(r) => {
            lemma_subst_no_vars(*r, x, y);
        },
        Term::Enum(r) => {
            lemma_subst_no_vars(*r, x, y);
        },
        Term::Variant(r) => {
            lemma_subst_no_vars(*r, x, y);
        },
        Term::Vptr(_, ts) => {
            lemma_subst_list_no_vars(ts, x, y);
        },
        _ => {},
    }
}

proof fn lemma_subst_fields_no_vars(f: FieldMap, x: u64, y: Var)
    requires
        fields_no_vars(f),
    ensures
        crate::theory::abs::data::subst_fields(f, x, y) == f,
    decreases f,
{
    if let FieldMap::Entry(_, t, rest) = f {
        lemma_subst_no_vars(*t, x, y);
        lemma_subst_fields_no_vars(*rest, x, y);
    }
}

proof fn lemma_subst_list_no_vars(l: TermList, x: u64, y: Var)
    requires
        list_no_vars(l),
    ensures
        crate::theory::abs::data::subst_list(l, x, y) == l,
    decreases l,
{
    if let TermList::Cons(t, rest) = l {
        lemma_subst_no_vars(*t, x, y);
        lemma_subst_list_no_vars(*rest, x, y);
    }
}


/// Renaming two variables at once in a term without variables changes nothing.
pub proof fn lemma_subst2_no_vars(t: Term, x1: u64, y1: Var, x2: u64, y2: Var)
    requires
        no_vars(t),
    ensures
        subst2(t, x1, y1, x2, y2) == t,
    decreases t, 0nat,
{
    match t {
        Term::Let(p, a, b) => {
            lemma_subst2_no_vars(*p.typ, x1, y1, x2, y2);
            assert(crate::theory::abs::data::subst2_param(p, x1, y1, x2, y2) == p);
            lemma_subst2_no_vars(*a, x1, y1, x2, y2);
            lemma_subst2_keep_no_vars(*b, p.var.ident() != x1, p.var.ident() != x2, x1, y1, x2, y2);
        },
        Term::Pi(p, b) => {
            lemma_subst2_no_vars(*p.typ, x1, y1, x2, y2);
            assert(crate::theory::abs::data::subst2_param(p, x1, y1, x2, y2) == p);
            lemma_subst2_keep_no_vars(*b, p.var.ident() != x1, p.var.ident() != x2, x1, y1, x2, y2);
        },
        Term::Lam(p, b) => {
            lemma_subst2_no_vars(*p.typ, x1, y1, x2, y2);
            assert(crate::theory::abs::data::subst2_param(p, x1, y1, x2, y2) == p);
            lemma_subst2_keep_no_vars(*b, p.var.ident() != x1, p.var.ident() != x2, x1, y1, x2, y2);
        },
        Term::App(f, _, a) => {
            lemma_subst2_no_vars(*f, x1, y1, x2, y2);
            lemma_subst2_no_vars(*a, x1, y1, x2, y2);
        },
        Term::Sigma(p, b) => {
            lemma_subst2_no_vars(*p.typ, x1, y1, x2, y2);
            assert(crate::theory::abs::data::subst2_param(p, x1, y1, x2, y2) == p);
            lemma_subst2_keep_no_vars(*b, p.var.ident() != x1, p.var.ident() != x2, x1, y1, x2, y2);
        },
        Term::Tuple(a, b) => {
            lemma_subst2_no_vars(*a, x1, y1, x2, y2);
            lemma_subst2_no_vars(*b, x1, y1, x2, y2);
        },
        Term::TupleLet(p, q, a, b) => {
            lemma_subst2_no_vars(*p.typ, x1, y1, x2, y2);
            assert(crate::theory::abs::data::subst2_param(p, x1, y1, x2, y2) == p);
            lemma_subst2_no_vars(*q.typ, x1, y1, x2, y2);
            assert(crate::theory::abs::data::subst2_param(q, x1, y1, x2, y2) == q);
            lemma_subst2_no_vars(*a, x1, y1, x2, y2);
            lemma_subst2_keep_no_vars(
                *b,
                p.var.ident() != x1 && q.var.ident() != x1,
                p.var.ident() != x2 && q.var.ident() != x2,
                x1,
                y1,
                x2,
                y2,
            );
        },
        Term::UnitLet(a, b) => {
            lemma_subst2_no_vars(*a, x1, y1, x2, y2);
            lemma_subst2_no_vars(*b, x1, y1, x2, y2);
        },
        Term::If(a, b, c) => {
            lemma_subst2_no_vars(*a, x1, y1, x2, y2);
            lemma_subst2_no_vars(*b, x1, y1, x2, y2);
            lemma_subst2_no_vars(*c, x1, y1, x2, y2);
        },
        Term::Fields(f) => lemma_subst2_fields_no_vars(f, x1, y1, x2, y2),
        Term::Object(r) => lemma_subst2_no_vars(*r, x1, y1, x2, y2),
        Term::Obj(r) => lemma_subst2_no_vars(*r, x1, y1, x2, y2),
        Term::Enum(r) => lemma_subst2_no_vars(*r, x1, y1, x2, y2),
        Term::Variant(r) => lemma_subst2_no_vars(*r, x1, y1, x2, y2),
        Term::Vptr(_, ts) => lemma_subst2_list_no_vars(ts, x1, y1, x2, y2),
        _ => {},
    }
}

proof fn lemma_subst2_keep_no_vars(t: Term, keep1: bool, keep2: bool, x1: u64, y1: Var, x2: u64, y2: Var)
    requires
        no_vars(t),
    ensures
        crate::theory::abs::data::subst2_keep(t, keep1, keep2, x1, y1, x2, y2) == t,
    decreases t, 1nat,
{
    lemma_subst_no_vars(t, x1, y1);
    lemma_subst_no_vars(t, x2, y2);
    if keep1 && keep2 {
        lemma_subst2_no_vars(t, x1, y1, x2, y2);
    }
}

proof fn lemma_subst2_fields_no_vars(f: FieldMap, x1: u64, y1: Var, x2: u64, y2: Var)
    requires
        fields_no_vars(f),
    ensures
        crate::theory::abs::data::subst2_fields(f, x1, y1, x2, y2) == f,
    decreases f, 0nat,
{
    if let FieldMap::Entry(_, t, rest) = f {
        lemma_subst2_no_vars(*t, x1, y1, x2, y2);
        lemma_subst2_fields_no_vars(*rest, x1, y1, x2, y2);
    }
}

proof fn lemma_subst2_list_no_vars(l: TermList, x1: u64, y1: Var, x2: u64, y2: Var)
    requires
        list_no_vars(l),
    ensures
        crate::theory::abs::data::subst2_list(l, x1, y1, x2, y2) == l,
    decreases l, 0nat,
{
    if let TermList::Cons(t, rest) = l {
        lemma_subst2_no_vars(*t, x1, y1, x2, y2);
        lemma_subst2_list_no_vars(*rest, x1, y1, x2, y2);
    }
}

/// An outcome that is either unknown or a success that changed nothing.
pub open spec fn quiet(sigma: Defs, nx: nat, o: Outcome) -> bool {
    o is None || o == Some((Ok::<(), Error>(()), sigma, nx))
}

proof fn lemma_suffix_facts(rest: FieldMap, a: FieldMap)
    requires
        fields_no_vars(a),
        is_suffix(rest, a),
    ensures
        fields_no_vars(rest),
        fields_depth(rest) <= fields_depth(a),
        rest matches FieldMap::Entry(m, x, _) ==> fields_get(a, m@) == Some(*x),
    decreases a,
{
    if rest != a {
        if let FieldMap::Entry(n, t, tail) = a {
            lemma_suffix_facts(rest, *tail);
            if let FieldMap::Entry(m, x, _) = rest {
                if m@ == n@ {
                    lemma_suffix_found(rest, *tail);
                }
            }
        }
    }
}

proof fn lemma_suffix_found(rest: FieldMap, a: FieldMap)
    requires
        is_suffix(rest, a),
        rest is Entry,
    ensures
        fields_get(a, rest->Entry_0@) is Some,
    decreases a,
{
    if rest != a {
        if let FieldMap::Entry(n, t, tail) = a {
            lemma_suffix_found(rest, *tail);
        }
    }
}

proof fn lemma_unify_refl_steps(n: nat, sigma: Defs, nx: nat, loc: Loc, t: Term)
    requires
        no_vars(t),
    ensures
        quiet(sigma, nx, unify_steps(n, sigma, nx, loc, t, t)),
        n >= depth(t) ==> unify_steps(n, sigma, nx, loc, t, t) is Some,
    decreases n, 0nat,
{
    if n == 0 {
        return;
    }
    let f = (n - 1) as nat;
    let whole = unify_steps(n, sigma, nx, loc, t, t);
    match t {
        Term::Let(p, a, b) => {
            lemma_unify_refl_steps(f, sigma, nx, loc, *p.typ);
            lemma_unify_refl_steps(f, sigma, nx, loc, *a);
            lemma_unify_refl_steps(f, sigma, nx, loc, *b);
            if unify_steps(f, sigma, nx, loc, *p.typ, *p.typ) is None {
                assert(whole is None);
            } else if unify_steps(f, sigma, nx, loc, *a, *a) is None {
                assert(whole is None);
            } else {
                assert(whole == unify_steps(f, sigma, nx, loc, *b, *b));
            }
        },
        Term::Pi(p, b) => {
            lemma_subst_no_vars(*b, p.var.ident(), p.var);
            lemma_unify_refl_steps(f, sigma, nx, loc, *p.typ);
            lemma_unify_refl_steps(f, sigma, nx, loc, *b);
            if unify_steps(f, sigma, nx, loc, *p.typ, *p.typ) is None {
                assert(whole is None);
            } else {
                assert(whole == unify_steps(f, sigma, nx, loc, *b, *b));
            }
        },
        Term::Lam(p, b) => {
            lemma_subst_no_vars(*b, p.var.ident(), p.var);
            lemma_unify_refl_steps(f, sigma, nx, loc, *b);
            assert(whole == unify_steps(f, sigma, nx, loc, *b, *b));
        },
        Term::App(g, _, x) => {
            lemma_unify_refl_steps(f, sigma, nx, loc, *g);
            lemma_unify_refl_steps(f, sigma, nx, loc, *x);
            if unify_steps(f, sigma, nx, loc, *g, *g) is None {
                assert(whole is None);
            } else {
                assert(whole == unify_steps(f, sigma, nx, loc, *x, *x));
            }
        },
        Term::Sigma(p, b) => {
            lemma_subst_no_vars(*b, p.var.ident(), p.var);
            lemma_unify_refl_steps(f, sigma, nx, loc, *p.typ);
            lemma_unify_refl_steps(f, sigma, nx, loc, *b);
            if unify_steps(f, sigma, nx, loc, *p.typ, *p.typ) is None {
                assert(whole is None);
            } else {
                assert(whole == unify_steps(f, sigma, nx, loc, *b, *b));
            }
        },
        Term::Tuple(a, b) => {
            lemma_unify_refl_steps(f, sigma, nx, loc, *a);
            lemma_unify_refl_steps(f, sigma, nx, loc, *b);
            if unify_steps(f, sigma, nx, loc, *a, *a) is None {
                assert(whole is None);
            } else {
                assert(whole == unify_steps(f, sigma, nx, loc, *b, *b));
            }
        },
        Term::TupleLet(p, q, a, b) => {
            lemma_subst2_no_vars(*b, p.var.ident(), p.var, q.var.ident(), q.var);
            lemma_unify_refl_steps(f, sigma, nx, loc, *a);
            lemma_unify_refl_steps(f, sigma, nx, loc, *b);
            if unify_steps(f, sigma, nx, loc, *a, *a) is None {
                assert(whole is None);
            } else {
                assert(whole == unify_steps(f, sigma, nx, loc, *b, *b));
            }
        },
        Term::UnitLet(a, b) => {
            lemma_unify_refl_steps(f, sigma, nx, loc, *a);
            lemma_unify_refl_steps(f, sigma, nx, loc, *b);
            if unify_steps(f, sigma, nx, loc, *a, *a) is None {
                assert(whole is None);
            } else {
                assert(whole == unify_steps(f, sigma, nx, loc, *b, *b));
            }
        },
        Term::If(a, b, c) => {
            lemma_unify_refl_steps(f, sigma, nx, loc, *a);
            lemma_unify_refl_steps(f, sigma, nx, loc, *b);
            lemma_unify_refl_steps(f, sigma, nx, loc, *c);
            if unify_steps(f, sigma, nx, loc, *a, *a) is None {
                assert(whole is None);
            } else if unify_steps(f, sigma, nx, loc, *b, *b) is None {
                assert(whole is None);
            } else {
                assert(whole == unify_steps(f, sigma, nx, loc, *c, *c));
            }
        },
        Term::Fields(a) => {
            lemma_fields_walk_refl(f, sigma, nx, loc, a, a);
            assert(is_suffix(a, a));
            assert(whole == fields_eq_steps(f, sigma, nx, loc, a, a));
            assert(fields_eq_steps(f, sigma, nx, loc, a, a) == fields_eq_walk(f, sigma, nx, loc, a, a, a));
        },
        Term::Object(r) => {
            lemma_unify_refl_steps(f, sigma, nx, loc, *r);
            assert(whole == unify_steps(f, sigma, nx, loc, *r, *r));
        },
        Term::Obj(r) => {
            lemma_unify_refl_steps(f, sigma, nx, loc, *r);
            assert(whole == unify_steps(f, sigma, nx, loc, *r, *r));
        },
        Term::Enum(r) => {
            lemma_unify_refl_steps(f, sigma, nx, loc, *r);
            assert(whole == unify_steps(f, sigma, nx, loc, *r, *r));
        },
        Term::Variant(r) => {
            lemma_unify_refl_steps(f, sigma, nx, loc, *r);
            assert(whole == unify_steps(f, sigma, nx, loc, *r, *r));
        },
        _ => {
            assert(whole == Some((Ok::<(), Error>(()), sigma, nx)));
        },
    }
}

proof fn lemma_fields_walk_refl(n: nat, sigma: Defs, nx: nat, loc: Loc, a: FieldMap, rest: FieldMap)
    requires
        fields_no_vars(a),
        is_suffix(rest, a),
    ensures
        quiet(sigma, nx, fields_eq_walk(n, sigma, nx, loc, a, a, rest)),
        n >= fields_depth(a) ==> fields_eq_walk(n, sigma, nx, loc, a, a, rest) is Some,
    decreases n, 2 + fields_len(rest),
{
    lemma_suffix_facts(rest, a);
    if let FieldMap::Entry(m, x, tail) = rest {
        assert(is_suffix(*tail, *tail));
        assert(is_suffix(*tail, rest));
        lemma_suffix_trans(*tail, rest, a);
        lemma_unify_refl_steps(n, sigma, nx, loc, *x);
        lemma_fields_walk_refl(n, sigma, nx, loc, a, *tail);
    }
}

proof fn lemma_suffix_trans(a: FieldMap, b: FieldMap, c: FieldMap)
    requires
        is_suffix(a, b),
        is_suffix(b, c),
    ensures
        is_suffix(a, c),
    decreases c,
{
    if b != c {
        if let FieldMap::Entry(_, _, tail) = c {
            lemma_suffix_trans(a, b, *tail);
        }
    }
}

/// Unifying a term without variables with itself succeeds and solves nothing.
pub proof fn lemma_unify_refl(sigma: Defs, nx: nat, loc: Loc, t: Term)
    requires
        no_vars(t),
    ensures
        unify_finishes(sigma, nx, loc, t, t),
        unify_outcome(sigma, nx, loc, t, t) == (Ok::<(), Error>(()), sigma, nx),
        depth(t) <= u64::MAX ==> unify_steps(u64::MAX as nat, sigma, nx, loc, t, t) is Some,
{
    lemma_unify_refl_steps(depth(t), sigma, nx, loc, t);
    lemma_unify_refl_steps(u64::MAX as nat, sigma, nx, loc, t);
    let n = choose|n: nat| #[trigger] unify_steps(n, sigma, nx, loc, t, t) is Some;
    lemma_unify_refl_steps(n, sigma, nx, loc, t);
}

} // verus!
