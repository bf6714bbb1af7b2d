//! Definitions: what a name in the global context stands for.

use std::collections::HashMap;

use vstd::prelude::*;

use vstd::std_specs::hash::spec_hash_map_iter;
use vstd::std_specs::iter::IteratorSpec;

use vstd::string::StringExecFns;
use crate::theory::abs::data::{lam_spec, Term};
use crate::theory::abs::rename::{binders, binders_within, count_binders, rename, renamed};
use crate::theory::{tele_text, IdGen, Loc, Param, ParamInfo, Syntax, Tele, Var};

verus! {

broadcast use vstd::std_specs::hash::group_hash_axioms;

/// The global context: definitions by the identity of their names.
pub type Sigma = HashMap<u64, Def<Term>>;

/// The local context: the variables in scope with their types, by identity.
pub type Gamma = HashMap<u64, (Var, Box<Term>)>;

/// `tele` lists the variables of the local context `g`, each once, all
/// explicit, in some order.
pub open spec fn lists_gamma(tele: Seq<Param<Term>>, g: Map<u64, (Var, Box<Term>)>) -> bool {
    exists|ks: Seq<u64>|
        {
            &&& ks.no_duplicates()
            &&& ks.to_set() == g.dom()
            &&& ks.len() == tele.len()
            &&& forall|i: int|
                #![trigger tele[i]]
                0 <= i < ks.len() ==> tele[i] == (Param {
                    var: g[ks[i]].0,
                    info: ParamInfo::Explicit,
                    typ: g[ks[i]].1,
                })
        }
}

/// Every variable of the local context is filed under its own identity.
pub open spec fn gamma_wf(g: Map<u64, (Var, Box<Term>)>) -> bool {
    forall|k: u64| #[trigger] g.contains_key(k) ==> g[k].0.ident() == k
}

/// The variables of a telescope are pairwise different.
pub open spec fn tele_distinct(tele: Seq<Param<Term>>) -> bool {
    forall|i: int, j: int|
        0 <= i < j < tele.len() ==> #[trigger] tele[i].var.ident() != #[trigger] tele[j].var.ident()
}

/// The telescope of the variables of a local context, all explicit, in the
/// order in which the map is walked; pairwise different variables where the
/// context files each one under its identity.
pub fn gamma_to_tele(g: &Gamma) -> (tele: Tele<Term>)
    ensures
        lists_gamma(tele@, g@),
        gamma_wf(g@) ==> tele_distinct(tele@),
{
    let mut tele: Tele<Term> = Vec::new();
    let ghost mut ks: Seq<u64> = Seq::empty();
    let ghost entries = spec_hash_map_iter(g).remaining();
    for (k, v) in it: g.iter()
        invariant
            it.seq() == entries,
            it.seq().len() == g@.len(),
            it.seq().no_duplicates(),
            forall|i: int| 0 <= i < it.seq().len() ==> #[trigger] g@.contains_key(*it.seq()[i].0) && g@[*it.seq()[i].0] == *it.seq()[i].1,
            forall|k: u64| #[trigger] g@.contains_key(k) ==> it.seq().contains((&k, &g@[k])),
            ks.len() == tele@.len(),
            tele@.len() == it.index(),
            forall|i: int| 0 <= i < ks.len() ==> ks[i] == *it.seq()[i].0,
            forall|i: int|
                #![trigger tele@[i]]
                0 <= i < ks.len() ==> tele@[i] == (Param {
                    var: g@[ks[i]].0,
                    info: ParamInfo::Explicit,
                    typ: g@[ks[i]].1,
                }),
    {
        assert(g@.contains_key(*k) && g@[*k] == *v);
        tele.push(Param { var: v.0.clone(), info: ParamInfo::Explicit, typ: Box::new(v.1.copy()) });
        proof {
            ks = ks.push(*k);
        }
    }
    proof {
        assert(ks.len() == entries.len());
        assert forall|i: int, j: int| 0 <= i < j < ks.len() implies ks[i] != ks[j] by {
            if ks[i] == ks[j] {
                assert(g@.contains_key(*entries[i].0) && g@[*entries[i].0] == *entries[i].1);
                assert(g@.contains_key(*entries[j].0) && g@[*entries[j].0] == *entries[j].1);
                assert(entries[i] == entries[j]);
                assert(entries.no_duplicates());
            }
        }
        assert forall|k: u64| ks.to_set().contains(k) <==> g@.dom().contains(k) by {
            if g@.dom().contains(k) {
                assert(entries.contains((&k, &g@[k])));
                let i = choose|i: int| 0 <= i < entries.len() && entries[i] == (&k, &g@[k]);
                assert(ks[i] == k);
            }
            if ks.to_set().contains(k) {
                let i = choose|i: int| 0 <= i < ks.len() && ks[i] == k;
                assert(g@.contains_key(*entries[i].0));
            }
        }
        assert(ks.to_set() =~= g@.dom());
        assert(lists_gamma(tele@, g@));
        if gamma_wf(g@) {
            assert forall|i: int, j: int| 0 <= i < j < tele@.len() implies #[trigger] tele@[i].var.ident()
                != #[trigger] tele@[j].var.ident() by {
                assert(ks.contains(ks[i]));
                assert(ks.contains(ks[j]));
                assert(g@.contains_key(ks[i]));
                assert(g@.contains_key(ks[j]));
            }
        }
    }
    tele
}

#[derive(Debug)]
pub struct Def<T: Syntax> {
    pub loc: Loc,
    pub name: Var,
    pub tele: Tele<T>,
    pub ret: Box<T>,
    pub body: Body<T>,
}

#[derive(Debug)]
pub enum Body<T: Syntax> {
    Fun(Box<T>),
    Postulate,
    Alias(Box<T>),
    Class(Tele<T>, Vec<Method<T>>),
    Undefined,
    Meta(Option<T>),
}

#[derive(Debug)]
pub struct Method<T: Syntax> {
    pub loc: Loc,
    pub name: Var,
    pub tele: Tele<T>,
    pub ret: Box<T>,
    pub body: Box<T>,
}

/// The text of a class member: a tab, then `name: type;`.
pub open spec fn member_text<T: Syntax>(m: Param<T>) -> Seq<char> {
    "\t"@ + m.var.name_text() + ": "@ + (*m.typ).text() + ";"@
}

/// The texts of class members, one per line.
pub open spec fn members_text<T: Syntax>(ms: Seq<Param<T>>) -> Seq<char>
    decreases ms.len(),
{
    if ms.len() == 0 {
        Seq::empty()
    } else if ms.len() == 1 {
        member_text(ms[0])
    } else {
        members_text(ms.drop_last()) + "\n"@ + member_text(ms.last())
    }
}

/// The texts of methods, separated by empty lines.
pub open spec fn methods_text<T: Syntax>(ms: Seq<Method<T>>) -> Seq<char>
    decreases ms.len(),
{
    if ms.len() == 0 {
        Seq::empty()
    } else if ms.len() == 1 {
        ms[0].text()
    } else {
        methods_text(ms.drop_last()) + "\n\n"@ + ms.last().text()
    }
}

impl<T: Syntax> Def<T> {
    /// A definition of a constant to be solved: no parameters, the given
    /// type, and an unsolved metavariable as its body.
    pub fn new_constant_constraint(loc: Loc, name: Var, ret: Box<T>) -> (d: Self)
        ensures
            d.loc == loc,
            d.name == name,
            d.tele@.len() == 0,
            d.ret == ret,
            d.body == Body::<T>::Meta(None),
    {
        Def { loc, name, tele: Vec::new(), ret, body: Body::Meta(None) }
    }

    /// How a definition is printed.
    pub open spec fn text(&self) -> Seq<char> {
        let name = self.name.name_text();
        let tele = tele_text(self.tele@);
        let ret = (*self.ret).text();
        match self.body {
            Body::Fun(f) => "function "@ + name + " "@ + tele + ": "@ + ret + " {\n\t"@ + (*f).text()
                + "\n}"@,
            Body::Postulate => "declare "@ + name + tele + ": "@ + ret + ";"@,
            Body::Alias(t) => "type "@ + name + tele + ": "@ + ret + " = "@ + (*t).text() + ";"@,
            Body::Class(ms, meths) => "class "@ + name + tele + " {\n"@ + members_text(ms@) + "\n"@
                + methods_text(meths@) + "\n}"@,
            Body::Undefined => "undefined "@ + name + " "@ + tele + ": "@ + ret,
            Body::Meta(s) => match s {
                Some(solved) => "meta "@ + name + " "@ + tele + ": "@ + ret + " {\n\t"@ + solved.text()
                    + "\n}"@,
                None => "meta "@ + name + " "@ + tele + ": "@ + ret + ";"@,
            },
        }
    }

    pub fn to_string(&self) -> (s: String)
        ensures
            s@ == self.text(),
    {
        let mut s = String::new();
        let tele = Param::tele_to_string(&self.tele);
        match &self.body {
            Body::Fun(f) => {
                s.append("function ");
                s.append(self.name.as_str());
                s.append(" ");
                s.append(tele.as_str());
                s.append(": ");
                self.ret.write_text(&mut s);
                s.append(" {\n\t");
                f.write_text(&mut s);
                s.append("\n}");
            },
            Body::Postulate => {
                s.append("declare ");
                s.append(self.name.as_str());
                s.append(tele.as_str());
                s.append(": ");
                self.ret.write_text(&mut s);
                s.append(";");
            },
            Body::Alias(t) => {
                s.append("type ");
                s.append(self.name.as_str());
                s.append(tele.as_str());
                s.append(": ");
                self.ret.write_text(&mut s);
                s.append(" = ");
                t.write_text(&mut s);
                s.append(";");
            },
            Body::Class(ms, meths) => {
                s.append("class ");
                s.append(self.name.as_str());
                s.append(tele.as_str());
                s.append(" {\n");
                write_members(ms, &mut s);
                s.append("\n");
                write_methods(meths, &mut s);
                s.append("\n}");
            },
            Body::Undefined => {
                s.append("undefined ");
                s.append(self.name.as_str());
                s.append(" ");
                s.append(tele.as_str());
                s.append(": ");
                self.ret.write_text(&mut s);
            },
            Body::Meta(solution) => {
                s.append("meta ");
                s.append(self.name.as_str());
                s.append(" ");
                s.append(tele.as_str());
                s.append(": ");
                self.ret.write_text(&mut s);
                match solution {
                    Some(solved) => {
                        s.append(" {\n\t");
                        solved.write_text(&mut s);
                        s.append("\n}");
                    },
                    None => s.append(";"),
                }
            },
        }
        assert(s@ =~= self.text());
        s
    }
}

fn write_members<T: Syntax>(ms: &Tele<T>, out: &mut String)
    ensures
        final(out)@ == old(out)@ + members_text(ms@),
{
    let ghost start = out@;
    let n = ms.len();
    for i in 0..n
        invariant
            n == ms@.len(),
            out@ == start + members_text(ms@.subrange(0, i as int)),
    {
        let ghost before = out@;
        if i > 0 {
            out.append("\n");
        }
        out.append("\t");
        out.append(ms[i].var.as_str());
        out.append(": ");
        ms[i].typ.write_text(out);
        out.append(";");
        assert(ms@.subrange(0, i + 1).drop_last() =~= ms@.subrange(0, i as int));
        if i == 0 {
            assert(out@ =~= start + members_text(ms@.subrange(0, 1)));
        } else {
            assert(out@ =~= start + members_text(ms@.subrange(0, i as int)) + "\n"@ + member_text(
                ms@[i as int],
            ));
        }
    }
    assert(ms@.subrange(0, n as int) =~= ms@);
}

fn write_methods<T: Syntax>(ms: &Vec<Method<T>>, out: &mut String)
    ensures
        final(out)@ == old(out)@ + methods_text(ms@),
{
    let ghost start = out@;
    let n = ms.len();
    for i in 0..n
        invariant
            n == ms@.len(),
            out@ == start + methods_text(ms@.subrange(0, i as int)),
    {
        if i > 0 {
            out.append("\n\n");
        }
        ms[i].write_text(out);
        assert(ms@.subrange(0, i + 1).drop_last() =~= ms@.subrange(0, i as int));
        if i == 0 {
            assert(out@ =~= start + methods_text(ms@.subrange(0, 1)));
        } else {
            assert(out@ =~= start + methods_text(ms@.subrange(0, i as int)) + "\n\n"@
                + ms@[i as int].text());
        }
    }
    assert(ms@.subrange(0, n as int) =~= ms@);
}

impl Def<Term> {
    /// Whether the definition stands for a term: a function, a postulate,
    /// an alias or a definition not checked yet.
    pub open spec fn has_term(&self) -> bool {
        ||| self.body is Fun
        ||| self.body is Postulate
        ||| self.body is Alias
        ||| self.body is Undefined
    }

    /// The number of binders in the term the definition stands for.
    pub open spec fn term_binders(&self) -> nat {
        match self.body {
            Body::Fun(f) => binders(lam_spec(self.tele@, *f)),
            Body::Alias(t) => binders(lam_spec(self.tele@, *t)),
            _ => 0,
        }
    }

    /// The term that the definition of `v` stands for: a function or alias
    /// becomes a lambda over its telescope, renamed apart with the identities
    /// from `n` on; a postulate a reference to `v`; a definition not checked
    /// yet an undefined `v`.
    pub open spec fn term_of(&self, v: Var, n: nat) -> Term {
        match self.body {
            Body::Fun(f) => renamed(lam_spec(self.tele@, *f), Seq::empty(), n),
            Body::Postulate => Term::Ref(v),
            Body::Alias(t) => renamed(lam_spec(self.tele@, *t), Seq::empty(), n),
            Body::Undefined => Term::Undef(v),
            _ => vstd::pervasive::arbitrary(),
        }
    }

    /// The term that the definition of `v` stands for, its binders fresh
    /// variables from `ids`.
    pub fn to_term(&self, v: Var, ids: &mut IdGen) -> (t: Box<Term>)
        requires
            self.has_term(),
            old(ids).upcoming() + self.term_binders() <= u64::MAX,
        ensures
            *t == self.term_of(v, old(ids).upcoming() as nat),
            final(ids).upcoming() == old(ids).upcoming() + self.term_binders(),
            binders_within(*t, old(ids).upcoming() as nat, final(ids).upcoming() as nat),
    {
        match &self.body {
            Body::Fun(f) => rename(&Term::lam(&self.tele, f.copy()), ids),
            Body::Postulate => Box::new(Term::Ref(v)),
            Body::Alias(t) => rename(&Term::lam(&self.tele, t.copy()), ids),
            Body::Undefined => Box::new(Term::Undef(v)),
            _ => vstd::pervasive::unreached(),
        }
    }
}

impl Def<Term> {
    /// `to_term`, or `None` where the supply would run out of identities.
    pub(crate) fn to_term_checked(&self, v: Var, ids: &mut IdGen) -> (t: Option<Box<Term>>)
        requires
            self.has_term(),
        ensures
            match t {
                Some(t) => {
                    &&& old(ids).upcoming() + self.term_binders() <= u64::MAX
                    &&& *t == self.term_of(v, old(ids).upcoming() as nat)
                    &&& final(ids).upcoming() == old(ids).upcoming() + self.term_binders()
                },
                None => old(ids).upcoming() + self.term_binders() > u64::MAX,
            },
    {
        let room = u64::MAX - ids.peek();
        let need = match &self.body {
            Body::Fun(f) => count_binders(&Term::lam(&self.tele, f.copy()), 0, room),
            Body::Alias(t) => count_binders(&Term::lam(&self.tele, t.copy()), 0, room),
            _ => Some(0),
        };
        match need {
            None => None,
            Some(_) => Some(self.to_term(v, ids)),
        }
    }
}

impl<T: Syntax> Method<T> {
    /// The method made of a function definition.
    pub fn from_def(d: Def<T>) -> (m: Self)
        requires
            d.body is Fun,
        ensures
            m.loc == d.loc,
            m.name == d.name,
            m.tele == d.tele,
            m.ret == d.ret,
            d.body == Body::Fun(m.body),
    {
        match d.body {
            Body::Fun(f) => Method { loc: d.loc, name: d.name, tele: d.tele, ret: d.ret, body: f },
            _ => vstd::pervasive::unreached(),
        }
    }

    /// How a method is printed: `name params: type {` and its body, indented.
    pub open spec fn text(&self) -> Seq<char> {
        self.name.name_text() + tele_text(self.tele@) + ": "@ + (*self.ret).text() + " {\n\t"@
            + (*self.body).text() + "\n}"@
    }

    pub fn write_text(&self, out: &mut String)
        ensures
            final(out)@ == old(out)@ + self.text(),
    {
        let ghost start = out@;
        out.append(self.name.as_str());
        let tele = Param::tele_to_string(&self.tele);
        out.append(tele.as_str());
        out.append(": ");
        self.ret.write_text(out);
        out.append(" {\n\t");
        self.body.write_text(out);
        out.append("\n}");
        assert(out@ =~= start + self.text());
    }

    pub fn to_string(&self) -> (s: String)
        ensures
            s@ == self.text(),
    {
        let mut s = String::new();
        self.write_text(&mut s);
        assert(s@ =~= self.text());
        s
    }
}

} // verus!
