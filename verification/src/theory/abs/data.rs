//! Core terms: the elaborated form of RowScript programs.

use vstd::prelude::*;

use vstd::string::StringExecFns;
use crate::theory::{param_text, Param, ParamInfo, Syntax, Tele, Var};

verus! {

/// An elaborated term.
#[derive(Debug)]
pub enum Term {
    Ref(Var),
    Qualified(String, Var),
    Undef(Var),
    MetaRef(MetaKind, Var, TermList),
    Let(Param<Term>, Box<Term>, Box<Term>),
    Pi(Param<Term>, Box<Term>),
    Lam(Param<Term>, Box<Term>),
    App(Box<Term>, ParamInfo, Box<Term>),
    Sigma(Param<Term>, Box<Term>),
    Tuple(Box<Term>, Box<Term>),
    TupleLet(Param<Term>, Param<Term>, Box<Term>, Box<Term>),
    UnitLet(Box<Term>, Box<Term>),
    If(Box<Term>, Box<Term>, Box<Term>),
    Fields(FieldMap),
    Object(Box<Term>),
    Obj(Box<Term>),
    Enum(Box<Term>),
    Variant(Box<Term>),
    Extern(String),
    Str(String),
    Num(String),
    Big(String),
    Vptr(Var, TermList),
    Univ,
    Unit,
    TT,
    Boolean,
    False,
    True,
    String,
    Number,
    BigInt,
    Row,
}

/// Whether a metavariable stands for a hole the user wrote or one the
/// elaborator inserted.
#[derive(Debug, Clone, Copy, PartialEq, Eq, Structural)]
pub enum MetaKind {
    UserMeta,
    InsertedMeta,
}

/// Labelled terms, in the order they were written.
#[derive(Debug)]
pub enum FieldMap {
    Empty,
    Entry(String, Box<Term>, Box<FieldMap>),
}

/// A list of terms (the arguments of a metavariable or of a virtual table pointer).
#[derive(Debug)]
pub enum TermList {
    Nil,
    Cons(Box<Term>, Box<TermList>),
}

pub open spec fn term_param_text(p: Param<Term>) -> Seq<char>
    decreases p,
{
    param_text(p.info, p.var.name_text(), term_text(*p.typ))
}

/// How a term is printed.
pub open spec fn term_text(t: Term) -> Seq<char>
    decreases t,
{
    match t {
        Term::Ref(v) => v.name_text(),
        Term::Qualified(m, v) => m@ + "::"@ + v.name_text(),
        Term::Undef(v) => v.name_text(),
        Term::MetaRef(_, v, _) => v.name_text(),
        Term::Let(p, a, b) => "let "@ + term_param_text(p) + " = "@ + term_text(*a) + ";\n"@
            + term_text(*b),
        Term::Pi(p, b) => term_param_text(p) + " -> "@ + term_text(*b),
        Term::Lam(p, b) => term_param_text(p) + " => "@ + term_text(*b),
        Term::App(f, i, x) => match i {
            ParamInfo::Explicit => "("@ + term_text(*f) + " "@ + term_text(*x) + ")"@,
            ParamInfo::Implicit => "("@ + term_text(*f) + " {"@ + term_text(*x) + "})"@,
        },
        Term::Sigma(p, b) => term_param_text(p) + " * "@ + term_text(*b),
        Term::Tuple(a, b) => "("@ + term_text(*a) + ", "@ + term_text(*b) + ")"@,
        Term::TupleLet(p, q, a, b) => "let ("@ + term_param_text(p) + ", "@ + term_param_text(q)
            + ") = "@ + term_text(*a) + ";\n"@ + term_text(*b),
        Term::UnitLet(a, b) => term_text(*a) + ";\n"@ + term_text(*b),
        Term::If(p, a, b) => "if "@ + term_text(*p) + " { "@ + term_text(*a) + " } else { "@
            + term_text(*b) + " }"@,
        Term::Fields(f) => "("@ + fields_text(f) + ")"@,
        Term::Object(r) => "{"@ + term_text(*r) + "}"@,
        Term::Obj(r) => "{"@ + term_text(*r) + "}"@,
        Term::Enum(r) => "["@ + term_text(*r) + "]"@,
        Term::Variant(r) => "["@ + term_text(*r) + "]"@,
        Term::Extern(s) => s@,
        Term::Str(s) => "\""@ + s@ + "\""@,
        Term::Num(s) => s@,
        Term::Big(s) => s@,
        Term::Vptr(v, _) => v.name_text(),
        Term::Univ => "type"@,
        Term::Unit => "unit"@,
        Term::TT => "()"@,
        Term::Boolean => "boolean"@,
        Term::False => "false"@,
        Term::True => "true"@,
        Term::String => "string"@,
        Term::Number => "number"@,
        Term::BigInt => "bigint"@,
        Term::Row => "row"@,
    }
}

/// How labelled terms are printed: `label: term`, separated by commas.
pub open spec fn fields_text(f: FieldMap) -> Seq<char>
    decreases f,
{
    match f {
        FieldMap::Empty => Seq::empty(),
        FieldMap::Entry(n, t, rest) => match *rest {
            FieldMap::Empty => n@ + ": "@ + term_text(*t),
            _ => n@ + ": "@ + term_text(*t) + ", "@ + fields_text(*rest),
        },
    }
}

/// The number of entries.
pub open spec fn fields_len(f: FieldMap) -> nat
    decreases f,
{
    match f {
        FieldMap::Empty => 0,
        FieldMap::Entry(_, _, rest) => 1 + fields_len(*rest),
    }
}

/// The term of the first entry labelled `n`.
pub open spec fn fields_get(f: FieldMap, n: Seq<char>) -> Option<Term>
    decreases f,
{
    match f {
        FieldMap::Empty => None,
        FieldMap::Entry(m, t, rest) => if m@ == n {
            Some(*t)
        } else {
            fields_get(*rest, n)
        },
    }
}

/// The labels of a field map.
pub open spec fn fields_labels(f: FieldMap) -> Set<Seq<char>>
    decreases f,
{
    match f {
        FieldMap::Empty => Set::empty(),
        FieldMap::Entry(n, _, rest) => fields_labels(*rest).insert(n@),
    }
}

/// No label occurs twice in the field map.
pub open spec fn fields_distinct(f: FieldMap) -> bool
    decreases f,
{
    match f {
        FieldMap::Empty => true,
        FieldMap::Entry(n, _, rest) => !fields_labels(*rest).contains(n@) && fields_distinct(*rest),
    }
}

/// `t` with every free reference to the variable of identity `x` replaced by
/// a reference to `y`. A binder of `x` hides the scope it opens.
pub open spec fn subst(t: Term, x: u64, y: Var) -> Term
    decreases t,
{
    match t {
        Term::Ref(v) => if v.ident() == x {
            Term::Ref(y)
        } else {
            Term::Ref(v)
        },
        Term::Qualified(m, v) => Term::Qualified(m, v),
        Term::Undef(v) => Term::Undef(v),
        Term::MetaRef(k, v, sp) => Term::MetaRef(k, v, subst_list(sp, x, y)),
        Term::Let(p, a, b) => Term::Let(
            subst_param(p, x, y),
            Box::new(subst(*a, x, y)),
            Box::new(if p.var.ident() == x { *b } else { subst(*b, x, y) }),
        ),
        Term::Pi(p, b) => Term::Pi(
            subst_param(p, x, y),
            Box::new(if p.var.ident() == x { *b } else { subst(*b, x, y) }),
        ),
        Term::Lam(p, b) => Term::Lam(
            subst_param(p, x, y),
            Box::new(if p.var.ident() == x { *b } else { subst(*b, x, y) }),
        ),
        Term::App(f, i, a) => Term::App(Box::new(subst(*f, x, y)), i, Box::new(subst(*a, x, y))),
        Term::Sigma(p, b) => Term::Sigma(
            subst_param(p, x, y),
            Box::new(if p.var.ident() == x { *b } else { subst(*b, x, y) }),
        ),
        Term::Tuple(a, b) => Term::Tuple(Box::new(subst(*a, x, y)), Box::new(subst(*b, x, y))),
        Term::TupleLet(p, q, a, b) => Term::TupleLet(
            subst_param(p, x, y),
            subst_param(q, x, y),
            Box::new(subst(*a, x, y)),
            Box::new(
                if p.var.ident() == x || q.var.ident() == x {
                    *b
                } else {
                    subst(*b, x, y)
                },
            ),
        ),
        Term::UnitLet(a, b) => Term::UnitLet(Box::new(subst(*a, x, y)), Box::new(subst(*b, x, y))),
        Term::If(p, a, b) => Term::If(
            Box::new(subst(*p, x, y)),
            Box::new(subst(*a, x, y)),
            Box::new(subst(*b, x, y)),
        ),
        Term::Fields(f) => Term::Fields(subst_fields(f, x, y)),
        Term::Object(r) => Term::Object(Box::new(subst(*r, x, y))),
        Term::Obj(r) => Term::Obj(Box::new(subst(*r, x, y))),
        Term::Enum(r) => Term::Enum(Box::new(subst(*r, x, y))),
        Term::Variant(r) => Term::Variant(Box::new(subst(*r, x, y))),
        Term::Vptr(v, ts) => Term::Vptr(v, subst_list(ts, x, y)),
        _ => t,
    }
}

pub open spec fn subst_param(p: Param<Term>, x: u64, y: Var) -> Param<Term>
    decreases p,
{
    Param { var: p.var, info: p.info, typ: Box::new(subst(*p.typ, x, y)) }
}

pub open spec fn subst_fields(f: FieldMap, x: u64, y: Var) -> FieldMap
    decreases f,
{
    match f {
        FieldMap::Empty => FieldMap::Empty,
        FieldMap::Entry(n, t, rest) => FieldMap::Entry(
            n,
            Box::new(subst(*t, x, y)),
            Box::new(subst_fields(*rest, x, y)),
        ),
    }
}

pub open spec fn subst_list(l: TermList, x: u64, y: Var) -> TermList
    decreases l,
{
    match l {
        TermList::Nil => TermList::Nil,
        TermList::Cons(t, rest) => TermList::Cons(
            Box::new(subst(*t, x, y)),
            Box::new(subst_list(*rest, x, y)),
        ),
    }
}

/// Whether the variable of identity `k` occurs free in `t`: referred to
/// outside every binder of it.
pub open spec fn free_in(t: Term, k: u64) -> bool
    decreases t,
{
    match t {
        Term::Ref(v) => v.ident() == k,
        Term::MetaRef(_, _, sp) => list_free_in(sp, k),
        Term::Let(p, a, b) => free_in(*p.typ, k) || free_in(*a, k) || (p.var.ident() != k && free_in(*b, k)),
        Term::Pi(p, b) => free_in(*p.typ, k) || (p.var.ident() != k && free_in(*b, k)),
        Term::Lam(p, b) => free_in(*p.typ, k) || (p.var.ident() != k && free_in(*b, k)),
        Term::App(f, _, a) => free_in(*f, k) || free_in(*a, k),
        Term::Sigma(p, b) => free_in(*p.typ, k) || (p.var.ident() != k && free_in(*b, k)),
        Term::Tuple(a, b) => free_in(*a, k) || free_in(*b, k),
        Term::TupleLet(p, q, a, b) => free_in(*p.typ, k) || free_in(*q.typ, k) || free_in(*a, k)
            || (p.var.ident() != k && q.var.ident() != k && free_in(*b, k)),
        Term::UnitLet(a, b) => free_in(*a, k) || free_in(*b, k),
        Term::If(p, a, b) => free_in(*p, k) || free_in(*a, k) || free_in(*b, k),
        Term::Fields(f) => fields_free_in(f, k),
        Term::Object(r) => free_in(*r, k),
        Term::Obj(r) => free_in(*r, k),
        Term::Enum(r) => free_in(*r, k),
        Term::Variant(r) => free_in(*r, k),
        Term::Vptr(_, ts) => list_free_in(ts, k),
        _ => false,
    }
}

pub open spec fn fields_free_in(f: FieldMap, k: u64) -> bool
    decreases f,
{
    match f {
        FieldMap::Empty => false,
        FieldMap::Entry(_, t, rest) => free_in(*t, k) || fields_free_in(*rest, k),
    }
}

pub open spec fn list_free_in(l: TermList, k: u64) -> bool
    decreases l,
{
    match l {
        TermList::Nil => false,
        TermList::Cons(t, rest) => free_in(*t, k) || list_free_in(*rest, k),
    }
}

/// Substitution replaces every free reference: after replacing `x` by another
/// variable `y`, `x` no longer occurs free; every other variable occurs free
/// afterwards exactly where it did before, but for `y`, which may be new.
pub proof fn lemma_subst_free(t: Term, x: u64, y: Var, k: u64)
    ensures
        y.ident() != x ==> !free_in(subst(t, x, y), x),
        k != x && free_in(t, k) ==> free_in(subst(t, x, y), k),
        k != x && k != y.ident() && free_in(subst(t, x, y), k) ==> free_in(t, k),
    decreases t,
{
    match t {
        Term::MetaRef(_, _, sp) => lemma_subst_list_free(sp, x, y, k),
        Term::Let(p, a, b) => {
            lemma_subst_free(*p.typ, x, y, k);
            assert(subst_param(p, x, y).var == p.var && *subst_param(p, x, y).typ == subst(*p.typ, x, y));
            lemma_subst_free(*a, x, y, k);
            lemma_subst_free(*b, x, y, k);
        },
        Term::Pi(p, b) => {
            lemma_subst_free(*p.typ, x, y, k);
            assert(subst_param(p, x, y).var == p.var && *subst_param(p, x, y).typ == subst(*p.typ, x, y));
            lemma_subst_free(*b, x, y, k);
        },
        Term::Lam(p, b) => {
            lemma_subst_free(*p.typ, x, y, k);
            assert(subst_param(p, x, y).var == p.var && *subst_param(p, x, y).typ == subst(*p.typ, x, y));
            lemma_subst_free(*b, x, y, k);
        },
        Term::App(f, _, a) => {
            lemma_subst_free(*f, x, y, k);
            lemma_subst_free(*a, x, y, k);
        },
        Term::Sigma(p, b) => {
            lemma_subst_free(*p.typ, x, y, k);
            assert(subst_param(p, x, y).var == p.var && *subst_param(p, x, y).typ == subst(*p.typ, x, y));
            lemma_subst_free(*b, x, y, k);
        },
        Term::Tuple(a, b) => {
            lemma_subst_free(*a, x, y, k);
            lemma_subst_free(*b, x, y, k);
        },
        Term::TupleLet(p, q, a, b) => {
            lemma_subst_free(*p.typ, x, y, k);
            assert(subst_param(p, x, y).var == p.var && *subst_param(p, x, y).typ == subst(*p.typ, x, y));
            lemma_subst_free(*q.typ, x, y, k);
            assert(subst_param(q, x, y).var == q.var && *subst_param(q, x, y).typ == subst(*q.typ, x, y));
            lemma_subst_free(*a, x, y, k);
            lemma_subst_free(*b, x, y, k);
        },
        Term::UnitLet(a, b) => {
            lemma_subst_free(*a, x, y, k);
            lemma_subst_free(*b, x, y, k);
        },
        Term::If(p, a, b) => {
            lemma_subst_free(*p, x, y, k);
            lemma_subst_free(*a, x, y, k);
            lemma_subst_free(*b, x, y, k);
        },
        Term::Fields(f) => lemma_subst_fields_free(f, x, y, k),
        Term::Object(r) => lemma_subst_free(*r, x, y, k),
        Term::Obj(r) => lemma_subst_free(*r, x, y, k),
        Term::Enum(r) => lemma_subst_free(*r, x, y, k),
        Term::Variant(r) => lemma_subst_free(*r, x, y, k),
        Term::Vptr(_, ts) => lemma_subst_list_free(ts, x, y, k),
        _ => {},
    }
}

proof fn lemma_subst_fields_free(f: FieldMap, x: u64, y: Var, k: u64)
    ensures
        y.ident() != x ==> !fields_free_in(subst_fields(f, x, y), x),
        k != x && fields_free_in(f, k) ==> fields_free_in(subst_fields(f, x, y), k),
        k != x && k != y.ident() && fields_free_in(subst_fields(f, x, y), k) ==> fields_free_in(f, k),
    decreases f,
{
    if let FieldMap::Entry(_, t, rest) = f {
        lemma_subst_free(*t, x, y, k);
        lemma_subst_fields_free(*rest, x, y, k);
    }
}

proof fn lemma_subst_list_free(l: TermList, x: u64, y: Var, k: u64)
    ensures
        y.ident() != x ==> !list_free_in(subst_list(l, x, y), x),
        k != x && list_free_in(l, k) ==> list_free_in(subst_list(l, x, y), k),
        k != x && k != y.ident() && list_free_in(subst_list(l, x, y), k) ==> list_free_in(l, k),
    decreases l,
{
    if let TermList::Cons(t, rest) = l {
        lemma_subst_free(*t, x, y, k);
        lemma_subst_list_free(*rest, x, y, k);
    }
}

/// `fun (p1) => ... => fun (pn) => body` for the telescope `p1 ... pn`.
pub open spec fn lam_spec(tele: Seq<Param<Term>>, body: Term) -> Term
    decreases tele.len(),
{
    if tele.len() == 0 {
        body
    } else {
        Term::Lam(tele[0], Box::new(lam_spec(tele.drop_first(), body)))
    }
}

/// The arguments that apply a term to the variables of a telescope, in order.
pub open spec fn spine_spec(tele: Seq<Param<Term>>) -> TermList
    decreases tele.len(),
{
    if tele.len() == 0 {
        TermList::Nil
    } else {
        TermList::Cons(Box::new(Term::Ref(tele[0].var)), Box::new(spine_spec(tele.drop_first())))
    }
}

impl Syntax for Term {
    open spec fn text(&self) -> Seq<char> {
        term_text(*self)
    }

    fn write_text(&self, out: &mut String) {
        write_term(self, out)
    }
}

fn write_param(p: &Param<Term>, out: &mut String)
    ensures
        final(out)@ == old(out)@ + term_param_text(*p),
    decreases p,
{
    let ghost start = out@;
    match p.info {
        ParamInfo::Explicit => out.append("("),
        ParamInfo::Implicit => out.append("{"),
    }
    out.append(p.var.as_str());
    out.append(": ");
    write_term(&p.typ, out);
    match p.info {
        ParamInfo::Explicit => out.append(")"),
        ParamInfo::Implicit => out.append("}"),
    }
    assert(out@ =~= start + term_param_text(*p));
}

fn write_fields(f: &FieldMap, out: &mut String)
    ensures
        final(out)@ == old(out)@ + fields_text(*f),
    decreases f,
{
    let ghost start = out@;
    match f {
        FieldMap::Empty => {
            assert(out@ =~= start + fields_text(*f));
        },
        FieldMap::Entry(n, t, rest) => {
            out.append(n.as_str());
            out.append(": ");
            write_term(t, out);
            match &**rest {
                FieldMap::Empty => {},
                _ => {
                    out.append(", ");
                    write_fields(rest, out);
                },
            }
            assert(out@ =~= start + fields_text(*f));
        },
    }
}

fn write_term(t: &Term, out: &mut String)
    ensures
        final(out)@ == old(out)@ + term_text(*t),
    decreases t,
{
    let ghost start = out@;
    match t {
        Term::Ref(v) => out.append(v.as_str()),
        Term::Qualified(m, v) => {
            out.append(m.as_str());
            out.append("::");
            out.append(v.as_str());
        },
        Term::Undef(v) => out.append(v.as_str()),
        Term::MetaRef(_, v, _) => out.append(v.as_str()),
        Term::Let(p, a, b) => {
            out.append("let ");
            write_param(p, out);
            out.append(" = ");
            write_term(a, out);
            out.append(";\n");
            write_term(b, out);
        },
        Term::Pi(p, b) => {
            write_param(p, out);
            out.append(" -> ");
            write_term(b, out);
        },
        Term::Lam(p, b) => {
            write_param(p, out);
            out.append(" => ");
            write_term(b, out);
        },
        Term::App(f, i, x) => {
            out.append("(");
            write_term(f, out);
            match i {
                ParamInfo::Explicit => {
                    out.append(" ");
                    write_term(x, out);
                    out.append(")");
                },
                ParamInfo::Implicit => {
                    out.append(" {");
                    write_term(x, out);
                    out.append("})");
                },
            }
        },
        Term::Sigma(p, b) => {
            write_param(p, out);
            out.append(" * ");
            write_term(b, out);
        },
        Term::Tuple(a, b) => {
            out.append("(");
            write_term(a, out);
            out.append(", ");
            write_term(b, out);
            out.append(")");
        },
        Term::TupleLet(p, q, a, b) => {
            out.append("let (");
            write_param(p, out);
            out.append(", ");
            write_param(q, out);
            out.append(") = ");
            write_term(a, out);
            out.append(";\n");
            write_term(b, out);
        },
        Term::UnitLet(a, b) => {
            write_term(a, out);
            out.append(";\n");
            write_term(b, out);
        },
        Term::If(p, a, b) => {
            out.append("if ");
            write_term(p, out);
            out.append(" { ");
            write_term(a, out);
            out.append(" } else { ");
            write_term(b, out);
            out.append(" }");
        },
        Term::Fields(f) => {
            out.append("(");
            write_fields(f, out);
            out.append(")");
        },
        Term::Object(r) => {
            out.append("{");
            write_term(r, out);
            out.append("}");
        },
        Term::Obj(r) => {
            out.append("{");
            write_term(r, out);
            out.append("}");
        },
        Term::Enum(r) => {
            out.append("[");
            write_term(r, out);
            out.append("]");
        },
        Term::Variant(r) => {
            out.append("[");
            write_term(r, out);
            out.append("]");
        },
        Term::Extern(s) => out.append(s.as_str()),
        Term::Str(s) => {
            out.append("\"");
            out.append(s.as_str());
            out.append("\"");
        },
        Term::Num(s) => out.append(s.as_str()),
        Term::Big(s) => out.append(s.as_str()),
        Term::Vptr(v, _) => out.append(v.as_str()),
        Term::Univ => out.append("type"),
        Term::Unit => out.append("unit"),
        Term::TT => out.append("()"),
        Term::Boolean => out.append("boolean"),
        Term::False => out.append("false"),
        Term::True => out.append("true"),
        Term::String => out.append("string"),
        Term::Number => out.append("number"),
        Term::BigInt => out.append("bigint"),
        Term::Row => out.append("row"),
    }
    assert(out@ =~= start + term_text(*t));
}

/// A copy of the parameter.
pub fn copy_param(p: &Param<Term>) -> (r: Param<Term>)
    ensures
        r == *p,
    decreases p,
{
    Param { var: p.var.clone(), info: p.info, typ: Box::new(p.typ.copy()) }
}

impl Term {
    /// A copy of the term.
    pub fn copy(&self) -> (r: Term)
        ensures
            r == *self,
        decreases self,
    {
        match self {
            Term::Ref(v) => Term::Ref(v.clone()),
            Term::Qualified(m, v) => Term::Qualified(m.clone(), v.clone()),
            Term::Undef(v) => Term::Undef(v.clone()),
            Term::MetaRef(k, v, sp) => Term::MetaRef(*k, v.clone(), sp.copy()),
            Term::Let(p, a, b) => Term::Let(copy_param(p), Box::new(a.copy()), Box::new(b.copy())),
            Term::Pi(p, b) => Term::Pi(copy_param(p), Box::new(b.copy())),
            Term::Lam(p, b) => Term::Lam(copy_param(p), Box::new(b.copy())),
            Term::App(f, i, x) => Term::App(Box::new(f.copy()), *i, Box::new(x.copy())),
            Term::Sigma(p, b) => Term::Sigma(copy_param(p), Box::new(b.copy())),
            Term::Tuple(a, b) => Term::Tuple(Box::new(a.copy()), Box::new(b.copy())),
            Term::TupleLet(p, q, a, b) => Term::TupleLet(
                copy_param(p),
                copy_param(q),
                Box::new(a.copy()),
                Box::new(b.copy()),
            ),
            Term::UnitLet(a, b) => Term::UnitLet(Box::new(a.copy()), Box::new(b.copy())),
            Term::If(p, a, b) => Term::If(
                Box::new(p.copy()),
                Box::new(a.copy()),
                Box::new(b.copy()),
            ),
            Term::Fields(f) => Term::Fields(f.copy()),
            Term::Object(r) => Term::Object(Box::new(r.copy())),
            Term::Obj(r) => Term::Obj(Box::new(r.copy())),
            Term::Enum(r) => Term::Enum(Box::new(r.copy())),
            Term::Variant(r) => Term::Variant(Box::new(r.copy())),
            Term::Extern(s) => Term::Extern(s.clone()),
            Term::Str(s) => Term::Str(s.clone()),
            Term::Num(s) => Term::Num(s.clone()),
            Term::Big(s) => Term::Big(s.clone()),
            Term::Vptr(v, ts) => Term::Vptr(v.clone(), ts.copy()),
            Term::Univ => Term::Univ,
            Term::Unit => Term::Unit,
            Term::TT => Term::TT,
            Term::Boolean => Term::Boolean,
            Term::False => Term::False,
            Term::True => Term::True,
            Term::String => Term::String,
            Term::Number => Term::Number,
            Term::BigInt => Term::BigInt,
            Term::Row => Term::Row,
        }
    }

    pub fn to_string(&self) -> (s: String)
        ensures
            s@ == term_text(*self),
    {
        let mut s = String::new();
        write_term(self, &mut s);
        assert(s@ =~= term_text(*self));
        s
    }

    /// This term with every free reference to `from` replaced by a reference to `to`.
    pub fn rename(&self, from: &Var, to: &Var) -> (r: Term)
        ensures
            r == subst(*self, from.ident(), *to),
        decreases self,
    {
        match self {
            Term::Ref(v) => if v.id() == from.id() {
                Term::Ref(to.clone())
            } else {
                Term::Ref(v.clone())
            },
            Term::MetaRef(k, v, sp) => Term::MetaRef(*k, v.clone(), sp.rename(from, to)),
            Term::Let(p, a, b) => Term::Let(
                rename_param(p, from, to),
                Box::new(a.rename(from, to)),
                Box::new(if p.var.id() == from.id() { b.copy() } else { b.rename(from, to) }),
            ),
            Term::Pi(p, b) => Term::Pi(
                rename_param(p, from, to),
                Box::new(if p.var.id() == from.id() { b.copy() } else { b.rename(from, to) }),
            ),
            Term::Lam(p, b) => Term::Lam(
                rename_param(p, from, to),
                Box::new(if p.var.id() == from.id() { b.copy() } else { b.rename(from, to) }),
            ),
            Term::App(f, i, a) => Term::App(
                Box::new(f.rename(from, to)),
                *i,
                Box::new(a.rename(from, to)),
            ),
            Term::Sigma(p, b) => Term::Sigma(
                rename_param(p, from, to),
                Box::new(if p.var.id() == from.id() { b.copy() } else { b.rename(from, to) }),
            ),
            Term::Tuple(a, b) => Term::Tuple(
                Box::new(a.rename(from, to)),
                Box::new(b.rename(from, to)),
            ),
            Term::TupleLet(p, q, a, b) => Term::TupleLet(
                rename_param(p, from, to),
                rename_param(q, from, to),
                Box::new(a.rename(from, to)),
                Box::new(
                    if p.var.id() == from.id() || q.var.id() == from.id() {
                        b.copy()
                    } else {
                        b.rename(from, to)
                    },
                ),
            ),
            Term::UnitLet(a, b) => Term::UnitLet(
                Box::new(a.rename(from, to)),
                Box::new(b.rename(from, to)),
            ),
            Term::If(p, a, b) => Term::If(
                Box::new(p.rename(from, to)),
                Box::new(a.rename(from, to)),
                Box::new(b.rename(from, to)),
            ),
            Term::Fields(f) => Term::Fields(f.rename(from, to)),
            Term::Object(r) => Term::Object(Box::new(r.rename(from, to))),
            Term::Obj(r) => Term::Obj(Box::new(r.rename(from, to))),
            Term::Enum(r) => Term::Enum(Box::new(r.rename(from, to))),
            Term::Variant(r) => Term::Variant(Box::new(r.rename(from, to))),
            Term::Vptr(v, ts) => Term::Vptr(v.clone(), ts.rename(from, to)),
            _ => self.copy(),
        }
    }

    /// References to the variables of a telescope, in order.
    pub fn tele_to_spine(tele: &Tele<Term>) -> (sp: TermList)
        ensures
            sp == spine_spec(tele@),
    {
        let mut acc = TermList::Nil;
        let mut i = tele.len();
        assert(tele@.subrange(i as int, tele@.len() as int) =~= Seq::<Param<Term>>::empty());
        while i > 0
            invariant
                i <= tele@.len(),
                acc == spine_spec(tele@.subrange(i as int, tele@.len() as int)),
            decreases i,
        {
            i = i - 1;
            let ghost rest = tele@.subrange(i + 1, tele@.len() as int);
            acc = TermList::Cons(Box::new(Term::Ref(tele[i].var.clone())), Box::new(acc));
            assert(tele@.subrange(i as int, tele@.len() as int).drop_first() =~= rest);
        }
        assert(tele@.subrange(0, tele@.len() as int) =~= tele@);
        acc
    }

    /// `fun (p1) => ... => fun (pn) => body` for the telescope `p1 ... pn`.
    pub fn lam(tele: &Tele<Term>, body: Term) -> (r: Term)
        ensures
            r == lam_spec(tele@, body),
    {
        let mut acc = body;
        let mut i = tele.len();
        assert(tele@.subrange(i as int, tele@.len() as int) =~= Seq::<Param<Term>>::empty());
        while i > 0
            invariant
                i <= tele@.len(),
                acc == lam_spec(tele@.subrange(i as int, tele@.len() as int), body),
            decreases i,
        {
            i = i - 1;
            let ghost rest = tele@.subrange(i + 1, tele@.len() as int);
            acc = Term::Lam(copy_param(&tele[i]), Box::new(acc));
            assert(tele@.subrange(i as int, tele@.len() as int).drop_first() =~= rest);
        }
        assert(tele@.subrange(0, tele@.len() as int) =~= tele@);
        acc
    }
}

fn rename_param(p: &Param<Term>, from: &Var, to: &Var) -> (r: Param<Term>)
    ensures
        r == subst_param(*p, from.ident(), *to),
    decreases p,
{
    Param { var: p.var.clone(), info: p.info, typ: Box::new(p.typ.rename(from, to)) }
}

impl FieldMap {
    pub fn copy(&self) -> (r: FieldMap)
        ensures
            r == *self,
        decreases self,
    {
        match self {
            FieldMap::Empty => FieldMap::Empty,
            FieldMap::Entry(n, t, rest) => FieldMap::Entry(
                n.clone(),
                Box::new(t.copy()),
                Box::new(rest.copy()),
            ),
        }
    }

    pub fn rename(&self, from: &Var, to: &Var) -> (r: FieldMap)
        ensures
            r == subst_fields(*self, from.ident(), *to),
        decreases self,
    {
        match self {
            FieldMap::Empty => FieldMap::Empty,
            FieldMap::Entry(n, t, rest) => FieldMap::Entry(
                n.clone(),
                Box::new(t.rename(from, to)),
                Box::new(rest.rename(from, to)),
            ),
        }
    }

    /// The term of the first entry labelled `n`.
    pub fn get(&self, n: &String) -> (r: Option<&Term>)
        ensures
            match r {
                Some(t) => fields_get(*self, n@) == Some(*t),
                None => fields_get(*self, n@) is None,
            },
        decreases self,
    {
        match self {
            FieldMap::Empty => None,
            FieldMap::Entry(m, t, rest) => if *m == *n {
                Some(&**t)
            } else {
                rest.get(n)
            },
        }
    }

    /// Whether the two maps have equally many entries.
    pub fn same_len(&self, other: &FieldMap) -> (r: bool)
        ensures
            r == (fields_len(*self) == fields_len(*other)),
        decreases self,
    {
        match (self, other) {
            (FieldMap::Empty, FieldMap::Empty) => true,
            (FieldMap::Entry(_, _, a), FieldMap::Entry(_, _, b)) => a.same_len(b),
            _ => false,
        }
    }
}

impl TermList {
    pub fn copy(&self) -> (r: TermList)
        ensures
            r == *self,
        decreases self,
    {
        match self {
            TermList::Nil => TermList::Nil,
            TermList::Cons(t, rest) => TermList::Cons(Box::new(t.copy()), Box::new(rest.copy())),
        }
    }

    pub fn rename(&self, from: &Var, to: &Var) -> (r: TermList)
        ensures
            r == subst_list(*self, from.ident(), *to),
        decreases self,
    {
        match self {
            TermList::Nil => TermList::Nil,
            TermList::Cons(t, rest) => TermList::Cons(
                Box::new(t.rename(from, to)),
                Box::new(rest.rename(from, to)),
            ),
        }
    }
}


/// `t` with the free references to the variables of identities `x1` and `x2`
/// replaced at once by references to `y1` and `y2` (the first pair winning
/// where `x1 == x2`). A binder of one of them hides it in the scope it opens.
pub open spec fn subst2(t: Term, x1: u64, y1: Var, x2: u64, y2: Var) -> Term
    decreases t, 0nat,
{
    match t {
        Term::Ref(v) => if v.ident() == x1 {
            Term::Ref(y1)
        } else if v.ident() == x2 {
            Term::Ref(y2)
        } else {
            Term::Ref(v)
        },
        Term::MetaRef(k, v, sp) => Term::MetaRef(k, v, subst2_list(sp, x1, y1, x2, y2)),
        Term::Let(p, a, b) => Term::Let(
            subst2_param(p, x1, y1, x2, y2),
            Box::new(subst2(*a, x1, y1, x2, y2)),
            Box::new(subst2_keep(*b, p.var.ident() != x1, p.var.ident() != x2, x1, y1, x2, y2)),
        ),
        Term::Pi(p, b) => Term::Pi(
            subst2_param(p, x1, y1, x2, y2),
            Box::new(subst2_keep(*b, p.var.ident() != x1, p.var.ident() != x2, x1, y1, x2, y2)),
        ),
        Term::Lam(p, b) => Term::Lam(
            subst2_param(p, x1, y1, x2, y2),
            Box::new(subst2_keep(*b, p.var.ident() != x1, p.var.ident() != x2, x1, y1, x2, y2)),
        ),
        Term::App(f, i, a) => Term::App(
            Box::new(subst2(*f, x1, y1, x2, y2)),
            i,
            Box::new(subst2(*a, x1, y1, x2, y2)),
        ),
        Term::Sigma(p, b) => Term::Sigma(
            subst2_param(p, x1, y1, x2, y2),
            Box::new(subst2_keep(*b, p.var.ident() != x1, p.var.ident() != x2, x1, y1, x2, y2)),
        ),
        Term::Tuple(a, b) => Term::Tuple(
            Box::new(subst2(*a, x1, y1, x2, y2)),
            Box::new(subst2(*b, x1, y1, x2, y2)),
        ),
        Term::TupleLet(p, q, a, b) => Term::TupleLet(
            subst2_param(p, x1, y1, x2, y2),
            subst2_param(q, x1, y1, x2, y2),
            Box::new(subst2(*a, x1, y1, x2, y2)),
            Box::new(
                subst2_keep(
                    *b,
                    p.var.ident() != x1 && q.var.ident() != x1,
                    p.var.ident() != x2 && q.var.ident() != x2,
                    x1,
                    y1,
                    x2,
                    y2,
                ),
            ),
        ),
        Term::UnitLet(a, b) => Term::UnitLet(
            Box::new(subst2(*a, x1, y1, x2, y2)),
            Box::new(subst2(*b, x1, y1, x2, y2)),
        ),
        Term::If(p, a, b) => Term::If(
            Box::new(subst2(*p, x1, y1, x2, y2)),
            Box::new(subst2(*a, x1, y1, x2, y2)),
            Box::new(subst2(*b, x1, y1, x2, y2)),
        ),
        Term::Fields(f) => Term::Fields(subst2_fields(f, x1, y1, x2, y2)),
        Term::Object(r) => Term::Object(Box::new(subst2(*r, x1, y1, x2, y2))),
        Term::Obj(r) => Term::Obj(Box::new(subst2(*r, x1, y1, x2, y2))),
        Term::Enum(r) => Term::Enum(Box::new(subst2(*r, x1, y1, x2, y2))),
        Term::Variant(r) => Term::Variant(Box::new(subst2(*r, x1, y1, x2, y2))),
        Term::Vptr(v, ts) => Term::Vptr(v, subst2_list(ts, x1, y1, x2, y2)),
        _ => t,
    }
}

/// `subst2` with only the pairs that are still in scope.
pub open spec fn subst2_keep(t: Term, keep1: bool, keep2: bool, x1: u64, y1: Var, x2: u64, y2: Var) -> Term
    decreases t, 1nat,
{
    if keep1 && keep2 {
        subst2(t, x1, y1, x2, y2)
    } else if keep1 {
        subst(t, x1, y1)
    } else if keep2 {
        subst(t, x2, y2)
    } else {
        t
    }
}

pub open spec fn subst2_param(p: Param<Term>, x1: u64, y1: Var, x2: u64, y2: Var) -> Param<Term>
    decreases p, 0nat,
{
    Param { var: p.var, info: p.info, typ: Box::new(subst2(*p.typ, x1, y1, x2, y2)) }
}

pub open spec fn subst2_fields(f: FieldMap, x1: u64, y1: Var, x2: u64, y2: Var) -> FieldMap
    decreases f, 0nat,
{
    match f {
        FieldMap::Empty => FieldMap::Empty,
        FieldMap::Entry(n, t, rest) => FieldMap::Entry(
            n,
            Box::new(subst2(*t, x1, y1, x2, y2)),
            Box::new(subst2_fields(*rest, x1, y1, x2, y2)),
        ),
    }
}

pub open spec fn subst2_list(l: TermList, x1: u64, y1: Var, x2: u64, y2: Var) -> TermList
    decreases l, 0nat,
{
    match l {
        TermList::Nil => TermList::Nil,
        TermList::Cons(t, rest) => TermList::Cons(
            Box::new(subst2(*t, x1, y1, x2, y2)),
            Box::new(subst2_list(*rest, x1, y1, x2, y2)),
        ),
    }
}

/// Substituting two variables at once replaces every free reference to
/// either: afterwards neither occurs free (where neither replacement is one
/// of them); every other variable occurs free exactly where it did before,
/// but for the replacements, which may be new.
pub proof fn lemma_subst2_free(t: Term, x1: u64, y1: Var, x2: u64, y2: Var, k: u64)
    ensures
        y1.ident() != x1 && y2.ident() != x1 ==> !free_in(subst2(t, x1, y1, x2, y2), x1),
        y1.ident() != x2 && y2.ident() != x2 ==> !free_in(subst2(t, x1, y1, x2, y2), x2),
        k != x1 && k != x2 && free_in(t, k) ==> free_in(subst2(t, x1, y1, x2, y2), k),
        k != x1 && k != x2 && k != y1.ident() && k != y2.ident() && free_in(subst2(t, x1, y1, x2, y2), k)
            ==> free_in(t, k),
    decreases t, 0nat,
{
    match t {
        Term::MetaRef(_, _, sp) => lemma_subst2_list_free(sp, x1, y1, x2, y2, k),
        Term::Let(p, a, b) => {
            lemma_subst2_free(*p.typ, x1, y1, x2, y2, k);
            assert(subst2_param(p, x1, y1, x2, y2).var == p.var && *subst2_param(p, x1, y1, x2, y2).typ == subst2(*p.typ, x1, y1, x2, y2));
            lemma_subst2_free(*a, x1, y1, x2, y2, k);
            lemma_subst2_keep_free(*b, p.var.ident() != x1, p.var.ident() != x2, x1, y1, x2, y2, k);
        },
        Term::Pi(p, b) => {
            lemma_subst2_free(*p.typ, x1, y1, x2, y2, k);
            assert(subst2_param(p, x1, y1, x2, y2).var == p.var && *subst2_param(p, x1, y1, x2, y2).typ == subst2(*p.typ, x1, y1, x2, y2));
            lemma_subst2_keep_free(*b, p.var.ident() != x1, p.var.ident() != x2, x1, y1, x2, y2, k);
        },
        Term::Lam(p, b) => {
            lemma_subst2_free(*p.typ, x1, y1, x2, y2, k);
            assert(subst2_param(p, x1, y1, x2, y2).var == p.var && *subst2_param(p, x1, y1, x2, y2).typ == subst2(*p.typ, x1, y1, x2, y2));
            lemma_subst2_keep_free(*b, p.var.ident() != x1, p.var.ident() != x2, x1, y1, x2, y2, k);
        },
        Term::Sigma(p, b) => {
            lemma_subst2_free(*p.typ, x1, y1, x2, y2, k);
            assert(subst2_param(p, x1, y1, x2, y2).var == p.var && *subst2_param(p, x1, y1, x2, y2).typ == subst2(*p.typ, x1, y1, x2, y2));
            lemma_subst2_keep_free(*b, p.var.ident() != x1, p.var.ident() != x2, x1, y1, x2, y2, k);
        },
        Term::App(f, _, a) => {
            lemma_subst2_free(*f, x1, y1, x2, y2, k);
            lemma_subst2_free(*a, x1, y1, x2, y2, k);
        },
        Term::Tuple(a, b) => {
            lemma_subst2_free(*a, x1, y1, x2, y2, k);
            lemma_subst2_free(*b, x1, y1, x2, y2, k);
        },
        Term::TupleLet(p, q, a, b) => {
            lemma_subst2_free(*p.typ, x1, y1, x2, y2, k);
            assert(subst2_param(p, x1, y1, x2, y2).var == p.var && *subst2_param(p, x1, y1, x2, y2).typ == subst2(*p.typ, x1, y1, x2, y2));
            lemma_subst2_free(*q.typ, x1, y1, x2, y2, k);
            assert(subst2_param(q, x1, y1, x2, y2).var == q.var && *subst2_param(q, x1, y1, x2, y2).typ == subst2(*q.typ, x1, y1, x2, y2));
            lemma_subst2_free(*a, x1, y1, x2, y2, k);
            lemma_subst2_keep_free(
                *b,
                p.var.ident() != x1 && q.var.ident() != x1,
                p.var.ident() != x2 && q.var.ident() != x2,
                x1,
                y1,
                x2,
                y2,
                k,
            );
        },
        Term::UnitLet(a, b) => {
            lemma_subst2_free(*a, x1, y1, x2, y2, k);
            lemma_subst2_free(*b, x1, y1, x2, y2, k);
        },
        Term::If(p, a, b) => {
            lemma_subst2_free(*p, x1, y1, x2, y2, k);
            lemma_subst2_free(*a, x1, y1, x2, y2, k);
            lemma_subst2_free(*b, x1, y1, x2, y2, k);
        },
        Term::Fields(f) => lemma_subst2_fields_free(f, x1, y1, x2, y2, k),
        Term::Object(r) => lemma_subst2_free(*r, x1, y1, x2, y2, k),
        Term::Obj(r) => lemma_subst2_free(*r, x1, y1, x2, y2, k),
        Term::Enum(r) => lemma_subst2_free(*r, x1, y1, x2, y2, k),
        Term::Variant(r) => lemma_subst2_free(*r, x1, y1, x2, y2, k),
        Term::Vptr(_, ts) => lemma_subst2_list_free(ts, x1, y1, x2, y2, k),
        _ => {},
    }
}

proof fn lemma_subst2_keep_free(t: Term, keep1: bool, keep2: bool, x1: u64, y1: Var, x2: u64, y2: Var, k: u64)
    ensures
        keep1 && y1.ident() != x1 && y2.ident() != x1 ==> !free_in(subst2_keep(t, keep1, keep2, x1, y1, x2, y2), x1),
        keep2 && y1.ident() != x2 && y2.ident() != x2 ==> !free_in(subst2_keep(t, keep1, keep2, x1, y1, x2, y2), x2),
        k != x1 && k != x2 && free_in(t, k) ==> free_in(subst2_keep(t, keep1, keep2, x1, y1, x2, y2), k),
        k != x1 && k != x2 && k != y1.ident() && k != y2.ident() && free_in(
            subst2_keep(t, keep1, keep2, x1, y1, x2, y2),
            k,
        ) ==> free_in(t, k),
    decreases t, 1nat,
{
    if keep1 && keep2 {
        lemma_subst2_free(t, x1, y1, x2, y2, k);
    } else if keep1 {
        lemma_subst_free(t, x1, y1, k);
        lemma_subst_free(t, x1, y1, x2);
    } else if keep2 {
        lemma_subst_free(t, x2, y2, k);
        lemma_subst_free(t, x2, y2, x1);
    }
}

proof fn lemma_subst2_fields_free(f: FieldMap, x1: u64, y1: Var, x2: u64, y2: Var, k: u64)
    ensures
        y1.ident() != x1 && y2.ident() != x1 ==> !fields_free_in(subst2_fields(f, x1, y1, x2, y2), x1),
        y1.ident() != x2 && y2.ident() != x2 ==> !fields_free_in(subst2_fields(f, x1, y1, x2, y2), x2),
        k != x1 && k != x2 && fields_free_in(f, k) ==> fields_free_in(subst2_fields(f, x1, y1, x2, y2), k),
        k != x1 && k != x2 && k != y1.ident() && k != y2.ident() && fields_free_in(
            subst2_fields(f, x1, y1, x2, y2),
            k,
        ) ==> fields_free_in(f, k),
    decreases f, 0nat,
{
    if let FieldMap::Entry(_, t, rest) = f {
        lemma_subst2_free(*t, x1, y1, x2, y2, k);
        lemma_subst2_fields_free(*rest, x1, y1, x2, y2, k);
    }
}

proof fn lemma_subst2_list_free(l: TermList, x1: u64, y1: Var, x2: u64, y2: Var, k: u64)
    ensures
        y1.ident() != x1 && y2.ident() != x1 ==> !list_free_in(subst2_list(l, x1, y1, x2, y2), x1),
        y1.ident() != x2 && y2.ident() != x2 ==> !list_free_in(subst2_list(l, x1, y1, x2, y2), x2),
        k != x1 && k != x2 && list_free_in(l, k) ==> list_free_in(subst2_list(l, x1, y1, x2, y2), k),
        k != x1 && k != x2 && k != y1.ident() && k != y2.ident() && list_free_in(
            subst2_list(l, x1, y1, x2, y2),
            k,
        ) ==> list_free_in(l, k),
    decreases l, 0nat,
{
    if let TermList::Cons(t, rest) = l {
        lemma_subst2_free(*t, x1, y1, x2, y2, k);
        lemma_subst2_list_free(*rest, x1, y1, x2, y2, k);
    }
}

fn rename2_keep(t: &Term, keep1: bool, keep2: bool, x1: &Var, y1: &Var, x2: &Var, y2: &Var) -> (r: Term)
    ensures
        r == subst2_keep(*t, keep1, keep2, x1.ident(), *y1, x2.ident(), *y2),
    decreases t, 1nat,
{
    if keep1 && keep2 {
        t.rename2(x1, y1, x2, y2)
    } else if keep1 {
        t.rename(x1, y1)
    } else if keep2 {
        t.rename(x2, y2)
    } else {
        t.copy()
    }
}

fn rename2_param(p: &Param<Term>, x1: &Var, y1: &Var, x2: &Var, y2: &Var) -> (r: Param<Term>)
    ensures
        r == subst2_param(*p, x1.ident(), *y1, x2.ident(), *y2),
    decreases p, 0nat,
{
    Param { var: p.var.clone(), info: p.info, typ: Box::new(p.typ.rename2(x1, y1, x2, y2)) }
}

fn rename2_fields(f: &FieldMap, x1: &Var, y1: &Var, x2: &Var, y2: &Var) -> (r: FieldMap)
    ensures
        r == subst2_fields(*f, x1.ident(), *y1, x2.ident(), *y2),
    decreases f, 0nat,
{
    match f {
        FieldMap::Empty => FieldMap::Empty,
        FieldMap::Entry(n, t, rest) => FieldMap::Entry(
            n.clone(),
            Box::new(t.rename2(x1, y1, x2, y2)),
            Box::new(rename2_fields(rest, x1, y1, x2, y2)),
        ),
    }
}

fn rename2_list(l: &TermList, x1: &Var, y1: &Var, x2: &Var, y2: &Var) -> (r: TermList)
    ensures
        r == subst2_list(*l, x1.ident(), *y1, x2.ident(), *y2),
    decreases l, 0nat,
{
    match l {
        TermList::Nil => TermList::Nil,
        TermList::Cons(t, rest) => TermList::Cons(
            Box::new(t.rename2(x1, y1, x2, y2)),
            Box::new(rename2_list(rest, x1, y1, x2, y2)),
        ),
    }
}

impl Term {
    /// This term with the free references to `x1` and `x2` replaced at once
    /// by references to `y1` and `y2`.
    #[verifier::spinoff_prover]
    pub fn rename2(&self, x1: &Var, y1: &Var, x2: &Var, y2: &Var) -> (r: Term)
        ensures
            r == subst2(*self, x1.ident(), *y1, x2.ident(), *y2),
        decreases self, 0nat,
    {
        match self {
            Term::Ref(v) => if v.id() == x1.id() {
                Term::Ref(y1.clone())
            } else if v.id() == x2.id() {
                Term::Ref(y2.clone())
            } else {
                Term::Ref(v.clone())
            },
            Term::MetaRef(k, v, sp) => Term::MetaRef(*k, v.clone(), rename2_list(sp, x1, y1, x2, y2)),
            Term::Let(p, a, b) => Term::Let(
                rename2_param(p, x1, y1, x2, y2),
                Box::new(a.rename2(x1, y1, x2, y2)),
                Box::new(rename2_keep(b, p.var.id() != x1.id(), p.var.id() != x2.id(), x1, y1, x2, y2)),
            ),
            Term::Pi(p, b) => Term::Pi(
                rename2_param(p, x1, y1, x2, y2),
                Box::new(rename2_keep(b, p.var.id() != x1.id(), p.var.id() != x2.id(), x1, y1, x2, y2)),
            ),
            Term::Lam(p, b) => Term::Lam(
                rename2_param(p, x1, y1, x2, y2),
                Box::new(rename2_keep(b, p.var.id() != x1.id(), p.var.id() != x2.id(), x1, y1, x2, y2)),
            ),
            Term::App(f, i, a) => Term::App(
                Box::new(f.rename2(x1, y1, x2, y2)),
                *i,
                Box::new(a.rename2(x1, y1, x2, y2)),
            ),
            Term::Sigma(p, b) => Term::Sigma(
                rename2_param(p, x1, y1, x2, y2),
                Box::new(rename2_keep(b, p.var.id() != x1.id(), p.var.id() != x2.id(), x1, y1, x2, y2)),
            ),
            Term::Tuple(a, b) => Term::Tuple(
                Box::new(a.rename2(x1, y1, x2, y2)),
                Box::new(b.rename2(x1, y1, x2, y2)),
            ),
            Term::TupleLet(p, q, a, b) => Term::TupleLet(
                rename2_param(p, x1, y1, x2, y2),
                rename2_param(q, x1, y1, x2, y2),
                Box::new(a.rename2(x1, y1, x2, y2)),
                Box::new(
                    rename2_keep(
                        b,
                        p.var.id() != x1.id() && q.var.id() != x1.id(),
                        p.var.id() != x2.id() && q.var.id() != x2.id(),
                        x1,
                        y1,
                        x2,
                        y2,
                    ),
                ),
            ),
            Term::UnitLet(a, b) => Term::UnitLet(
                Box::new(a.rename2(x1, y1, x2, y2)),
                Box::new(b.rename2(x1, y1, x2, y2)),
            ),
            Term::If(p, a, b) => Term::If(
                Box::new(p.rename2(x1, y1, x2, y2)),
                Box::new(a.rename2(x1, y1, x2, y2)),
                Box::new(b.rename2(x1, y1, x2, y2)),
            ),
            Term::Fields(f) => Term::Fields(rename2_fields(f, x1, y1, x2, y2)),
            Term::Object(r) => Term::Object(Box::new(r.rename2(x1, y1, x2, y2))),
            Term::Obj(r) => Term::Obj(Box::new(r.rename2(x1, y1, x2, y2))),
            Term::Enum(r) => Term::Enum(Box::new(r.rename2(x1, y1, x2, y2))),
            Term::Variant(r) => Term::Variant(Box::new(r.rename2(x1, y1, x2, y2))),
            Term::Vptr(v, ts) => Term::Vptr(v.clone(), rename2_list(ts, x1, y1, x2, y2)),
            _ => self.copy(),
        }
    }
}

} // verus!
