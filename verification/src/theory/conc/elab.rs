//! The elaborator: checking concrete expressions into core terms.

use std::collections::HashMap;

use vstd::prelude::*;

use crate::error::Error;
use crate::text::decimal;
use crate::theory::abs::data::{spine_spec, MetaKind, Term, TermList};
use crate::theory::abs::def::{gamma_to_tele, gamma_wf, lists_gamma, tele_distinct, Body, Def, Gamma, Sigma};
use crate::theory::{IdGen, Loc, ParamInfo, VarGen};

verus! {

broadcast use vstd::std_specs::hash::group_hash_axioms;

/// How an argument is passed: explicitly, to an implicit parameter in order,
/// or to the implicit parameter of the given name.
#[derive(Debug)]
pub enum ArgInfo {
    UnnamedExplicit,
    UnnamedImplicit,
    NamedImplicit(String),
}

/// The state of elaboration: the global context, the local one, the
/// generator of names of metavariables, and the supply of identities.
pub struct Elaborator {
    pub sigma: Sigma,
    gamma: Gamma,
    vg: VarGen,
    ids: IdGen,
}

/// How many implicit parameters precede the one named `name` in the chain of
/// function types `ty`: `Some(Ok(n))`; `Some(Err(()))` where an explicit
/// parameter comes first; `None` where the chain ends first.
pub open spec fn holes_before(ty: Term, name: Seq<char>) -> Option<Result<nat, ()>>
    decreases ty,
{
    match ty {
        Term::Pi(p, b) => if p.info != ParamInfo::Implicit {
            Some(Err(()))
        } else if p.var.name_text() == name {
            Some(Ok(0))
        } else {
            match holes_before(*b, name) {
                Some(Ok(n)) => Some(Ok(n + 1)),
                other => other,
            }
        },
        _ => None,
    }
}

/// The number of holes an application of a function of type `f_ty` to an
/// argument passed as `i` needs in front of the argument, if any.
pub open spec fn app_holes_spec(i: ArgInfo, f_ty: Term) -> Option<Result<nat, ()>> {
    match f_ty {
        Term::Pi(p, _) => if p.info == ParamInfo::Implicit {
            match i {
                ArgInfo::UnnamedExplicit => Some(Ok(1)),
                ArgInfo::NamedImplicit(name) => holes_before(f_ty, name@),
                ArgInfo::UnnamedImplicit => Some(Ok(0)),
            }
        } else {
            Some(Ok(0))
        },
        _ => Some(Ok(0)),
    }
}

/// `ty` is a chain of `k` implicit parameters none of which is named `name`,
/// followed by an implicit parameter named `name`.
pub open spec fn implicits_before(ty: Term, k: nat, name: Seq<char>) -> bool
    decreases k,
{
    match ty {
        Term::Pi(p, b) => p.info == ParamInfo::Implicit && if k == 0 {
            p.var.name_text() == name
        } else {
            p.var.name_text() != name && implicits_before(*b, (k - 1) as nat, name)
        },
        _ => false,
    }
}

/// `ty` is a chain of `k` implicit parameters none of which is named `name`,
/// followed by an explicit parameter.
pub open spec fn explicit_after(ty: Term, k: nat, name: Seq<char>) -> bool
    decreases k,
{
    match ty {
        Term::Pi(p, b) => if k == 0 {
            p.info != ParamInfo::Implicit
        } else {
            p.info == ParamInfo::Implicit && p.var.name_text() != name && explicit_after(*b, (k - 1) as nat, name)
        },
        _ => false,
    }
}

/// A named implicit argument needs one hole for every implicit parameter
/// before the one of its name.
pub proof fn lemma_holes_count(ty: Term, k: nat, name: Seq<char>)
    requires
        implicits_before(ty, k, name),
    ensures
        holes_before(ty, name) == Some(Ok::<nat, ()>(k)),
    decreases k,
{
    if k > 0 {
        lemma_holes_count(*ty->Pi_1, (k - 1) as nat, name);
    }
}

/// An explicit parameter met before the named one makes the named argument
/// unresolved.
pub proof fn lemma_holes_explicit(ty: Term, k: nat, name: Seq<char>)
    requires
        explicit_after(ty, k, name),
    ensures
        holes_before(ty, name) == Some(Err::<nat, ()>(())),
    decreases k,
{
    if k > 0 {
        lemma_holes_explicit(*ty->Pi_1, (k - 1) as nat, name);
    }
}

/// Holes go in front of an argument only where the function's first
/// parameter is implicit: one for an explicit argument, one for every
/// implicit parameter before the named one for a named argument, none for an
/// unnamed implicit argument.
pub proof fn lemma_app_holes(i: ArgInfo, f_ty: Term, k: nat)
    ensures
        !(f_ty matches Term::Pi(p, _) && p.info == ParamInfo::Implicit) ==> app_holes_spec(i, f_ty) == Some(Ok::<nat, ()>(0)),
        i is UnnamedImplicit ==> app_holes_spec(i, f_ty) == Some(Ok::<nat, ()>(0)),
        (f_ty matches Term::Pi(p, _) && p.info == ParamInfo::Implicit) && i is UnnamedExplicit ==> app_holes_spec(i, f_ty)
            == Some(Ok::<nat, ()>(1)),
        i matches ArgInfo::NamedImplicit(name) && implicits_before(f_ty, k, name@) ==> app_holes_spec(i, f_ty)
            == Some(Ok::<nat, ()>(k)),
{
    if let ArgInfo::NamedImplicit(name) = i {
        if implicits_before(f_ty, k, name@) {
            lemma_holes_count(f_ty, k, name@);
        }
    }
}

impl Elaborator {
    pub closed spec fn globals(&self) -> Map<u64, Def<Term>> {
        self.sigma@
    }

    pub closed spec fn locals(&self) -> Map<u64, (crate::theory::Var, Box<Term>)> {
        self.gamma@
    }

    pub closed spec fn names(&self) -> VarGen {
        self.vg
    }

    pub closed spec fn idents(&self) -> IdGen {
        self.ids
    }

    /// The elaborator's state is consistent: every local variable is filed
    /// under its identity, and every identity in either context was handed
    /// out by the elaborator's supply.
    pub open spec fn wf(&self) -> bool {
        &&& gamma_wf(self.locals())
        &&& forall|k: u64| #[trigger] self.locals().contains_key(k) ==> self.idents().issued().contains(k)
        &&& forall|k: u64| #[trigger] self.globals().contains_key(k) ==> self.idents().issued().contains(k)
    }

    /// Whether holes may be inserted into an application to meet the
    /// expected type: unless it is a function type over an implicit parameter.
    pub fn is_hole_insertable(expected: &Term) -> (r: bool)
        ensures
            r == match *expected {
                Term::Pi(p, _) => p.info != ParamInfo::Implicit,
                _ => true,
            },
    {
        match expected {
            Term::Pi(p, _) => p.info != ParamInfo::Implicit,
            _ => true,
        }
    }

    /// Counts the implicit parameters in front of the one named `name` in the
    /// chain of function types `ty`; an explicit parameter met first is an
    /// unresolved implicit parameter.
    pub fn holes_to_insert(loc: Loc, name: String, ty: &Term) -> (r: Result<usize, Error>)
        requires
            holes_before(*ty, name@) is Some,
            holes_before(*ty, name@) matches Some(Ok(n)) ==> n < usize::MAX,
        ensures
            match holes_before(*ty, name@).unwrap() {
                Ok(n) => r == Ok::<usize, Error>(n as usize),
                Err(_) => r == Err::<usize, Error>(Error::UnresolvedImplicitParam(name, loc)),
            },
        decreases ty,
    {
        match ty {
            Term::Pi(p, b) => {
                if p.info != ParamInfo::Implicit {
                    return Err(Error::UnresolvedImplicitParam(name, loc));
                }
                if p.var.to_string() == name {
                    return Ok(0);
                }
                match Self::holes_to_insert(loc, name, b) {
                    Ok(n) => Ok(n + 1),
                    Err(e) => Err(e),
                }
            },
            _ => vstd::pervasive::unreached(),
        }
    }

    /// How many holes to insert in front of the argument of an application
    /// of a function of type `f_ty` to an argument passed as `i`: one for an
    /// explicit argument to a function over an implicit parameter, as many as
    /// implicit parameters precede the named one for a named argument, none
    /// otherwise. `loc` is where the function stands.
    pub fn app_holes(loc: Loc, i: &ArgInfo, f_ty: &Term) -> (r: Result<usize, Error>)
        requires
            app_holes_spec(*i, *f_ty) is Some,
            app_holes_spec(*i, *f_ty) matches Some(Ok(n)) ==> n < usize::MAX,
        ensures
            match app_holes_spec(*i, *f_ty).unwrap() {
                Ok(n) => r == Ok::<usize, Error>(n as usize),
                Err(_) => {
                    &&& r matches Err(Error::UnresolvedImplicitParam(n, l))
                    &&& r->Err_0->UnresolvedImplicitParam_1 == loc
                    &&& *i matches ArgInfo::NamedImplicit(m)
                    &&& r->Err_0->UnresolvedImplicitParam_0@ == i->NamedImplicit_0@
                },
            },
    {
        match f_ty {
            Term::Pi(p, _) => if p.info == ParamInfo::Implicit {
                match i {
                    ArgInfo::UnnamedExplicit => Ok(1),
                    ArgInfo::NamedImplicit(name) => Self::holes_to_insert(loc, name.clone(), f_ty),
                    ArgInfo::UnnamedImplicit => Ok(0),
                }
            } else {
                Ok(0)
            },
            _ => Ok(0),
        }
    }

    /// Makes a metavariable for the type of a hole and one for the hole
    /// itself, over the variables in scope, and returns the hole and its type.
    pub fn insert_meta(&mut self, loc: Loc, k: MetaKind) -> (r: (Term, Term))
        requires
            old(self).wf(),
            old(self).names().count() + 2 <= u32::MAX,
            old(self).idents().upcoming() + 2 <= u64::MAX,
        ensures
            ({
                let c = old(self).names().count();
                let u = old(self).idents().upcoming();
                let pre = old(self).names().prefix();
                let s0 = old(self).globals();
                let s1 = final(self).globals();
                &&& final(self).wf()
                &&& !s0.contains_key(u) && !s0.contains_key((u + 1) as u64)
                &&& tele_distinct(s1[(u + 1) as u64].tele@)
                &&& final(self).names().prefix() == pre
                &&& final(self).names().count() == c + 2
                &&& final(self).idents().upcoming() == u + 2
                &&& final(self).locals() == old(self).locals()
                &&& s1.dom() == s0.dom().insert(u).insert((u + 1) as u64)
                &&& forall|key: u64| #[trigger] s0.contains_key(key) && key != u && key != u + 1 ==> s1[key] == s0[key]
                &&& r.1 matches Term::MetaRef(k1, tyv, sp) && k1 == k && sp == TermList::Nil
                    && tyv.name_text() == pre + decimal(c + 1) && tyv.ident() == u
                    && s1[u].loc == loc && s1[u].name == tyv && s1[u].tele@.len() == 0
                    && *s1[u].ret == Term::Univ && s1[u].body == Body::<Term>::Meta(None)
                &&& r.0 matches Term::MetaRef(k0, tmv, sp) && k0 == k
                    && tmv.name_text() == pre + decimal(c + 2) && tmv.ident() == u + 1
                    && s1[(u + 1) as u64].loc == loc && s1[(u + 1) as u64].name == tmv
                    && lists_gamma(s1[(u + 1) as u64].tele@, old(self).locals())
                    && sp == spine_spec(s1[(u + 1) as u64].tele@)
                    && *s1[(u + 1) as u64].ret == r.1
                    && s1[(u + 1) as u64].body == Body::<Term>::Meta(None)
            }),
    {
        let ghost s0 = self.sigma@;
        let ghost i0 = self.ids;
        let ty_meta_var = self.vg.fresh(&mut self.ids);
        self.sigma.insert(
            ty_meta_var.id(),
            Def {
                loc,
                name: ty_meta_var.clone(),
                tele: Vec::new(),
                ret: Box::new(Term::Univ),
                body: Body::Meta(None),
            },
        );
        let ty = Term::MetaRef(k, ty_meta_var, TermList::Nil);

        let tm_meta_var = self.vg.fresh(&mut self.ids);
        let tele = gamma_to_tele(&self.gamma);
        let spine = Term::tele_to_spine(&tele);
        self.sigma.insert(
            tm_meta_var.id(),
            Def { loc, name: tm_meta_var.clone(), tele, ret: Box::new(ty.copy()), body: Body::Meta(None) },
        );
        proof {
            let u = i0.upcoming();
            assert forall|key: u64| #[trigger] self.sigma@.contains_key(key) implies self.ids.issued().contains(key) by {
                if key != u && key != u + 1 {
                    assert(old(self).globals().contains_key(key));
                    assert(i0.issued().contains(key));
                }
            }
            assert forall|key: u64| #[trigger] self.gamma@.contains_key(key) implies self.ids.issued().contains(key) by {
                assert(old(self).locals().contains_key(key));
                assert(i0.issued().contains(key));
            }
            assert(!i0.issued().contains(u));
            assert(!i0.issued().contains((u + 1) as u64));
        }
        (Term::MetaRef(k, tm_meta_var, spine), ty)
    }
}

impl Default for Elaborator {
    fn default() -> (e: Self)
        ensures
            e.wf(),
            e.globals() == Map::<u64, Def<Term>>::empty(),
            e.locals() == Map::<u64, (crate::theory::Var, Box<Term>)>::empty(),
            e.names().prefix() == "?u"@,
            e.names().count() == 0,
            e.idents().upcoming() == 0,
    {
        Elaborator {
            sigma: HashMap::new(),
            gamma: HashMap::new(),
            vg: VarGen::user_meta(),
            ids: IdGen::new(),
        }
    }
}

} // verus!
