//! Source locations, variables, parameters and telescopes.

use vstd::prelude::*;
use vstd::utf8::{decode_utf8, is_char_boundary};
use vstd::string::StringSliceAdditionalSpecFns;

use crate::text::{decimal, decimal_string, lemma_decimal_injective};
use vstd::string::StringExecFns;

pub mod abs;
pub mod conc;

verus! {

/// A source location: line and column (both counted from 1) of the start of a
/// span, and the byte offsets of its start and end.
#[derive(Debug, Clone, Copy, PartialEq, Eq, Structural)]
pub struct Loc {
    pub line: usize,
    pub col: usize,
    pub start: usize,
    pub end: usize,
}

/// The line and column reached after reading `cs`, starting from `lc`: a
/// `"\r\n"` pair or a lone `'\n'` starts a new line, any other character
/// (a lone `'\r'` too) moves one column to the right.
pub open spec fn line_col_after(lc: (nat, nat), cs: Seq<char>) -> (nat, nat)
    decreases cs.len(),
{
    if cs.len() == 0 {
        lc
    } else if cs[0] == '\r' && cs.len() > 1 && cs[1] == '\n' {
        line_col_after((lc.0 + 1, 1), cs.skip(2))
    } else if cs[0] == '\n' {
        line_col_after((lc.0 + 1, 1), cs.skip(1))
    } else {
        line_col_after((lc.0, lc.1 + 1), cs.skip(1))
    }
}

/// The line and column of the byte offset `pos` of `input`.
pub open spec fn line_col_at(input: &str, pos: usize) -> (nat, nat) {
    line_col_after((1, 1), decode_utf8(input.spec_bytes().subrange(0, pos as int)))
}

/// `pest::Position::line_col` of the position `pos` in `input`: it walks the
/// characters before `pos`, counting a `"\r\n"` pair or a `'\n'` as a line
/// break, every other character as one column, from line 1 and column 1.
#[verifier::external_body]
fn position_line_col(input: &str, pos: usize) -> (lc: (usize, usize))
    requires
        pos <= input.spec_bytes().len(),
        is_char_boundary(input.spec_bytes(), pos as int),
    ensures
        lc.0 as nat == line_col_at(input, pos).0,
        lc.1 as nat == line_col_at(input, pos).1,
{
    pest::Position::new(input, pos).unwrap().line_col()
}

impl Loc {
    /// The text of a location: `line:col`.
    pub open spec fn text(self) -> Seq<char> {
        decimal(self.line as nat) + ":"@ + decimal(self.col as nat)
    }

    pub fn to_string(&self) -> (s: String)
        ensures
            s@ == self.text(),
    {
        let mut s = decimal_string(self.line as u64);
        s.append(":");
        let c = decimal_string(self.col as u64);
        s.append(c.as_str());
        s
    }

    /// The location of the span `start..end` of `input`.
    pub fn from_span(input: &str, start: usize, end: usize) -> (loc: Loc)
        requires
            start <= end <= input.spec_bytes().len(),
            is_char_boundary(input.spec_bytes(), start as int),
            is_char_boundary(input.spec_bytes(), end as int),
        ensures
            loc.line as nat == line_col_at(input, start).0,
            loc.col as nat == line_col_at(input, start).1,
            loc.start == start,
            loc.end == end,
    {
        let line_col = position_line_col(input, start);
        Loc { line: line_col.0, col: line_col.1, start, end }
    }
}

/// A supply of variable identities: each one it hands out is larger than all
/// those handed out before.
#[derive(Debug)]
pub struct IdGen {
    next: u64,
}

impl IdGen {
    /// The identity that the supply hands out next.
    pub closed spec fn upcoming(self) -> u64 {
        self.next
    }

    /// The identities the supply has handed out so far.
    pub open spec fn issued(self) -> Set<u64> {
        Set::new(|i: u64| i < self.upcoming())
    }

    pub fn new() -> (g: IdGen)
        ensures
            g.upcoming() == 0,
    {
        IdGen { next: 0 }
    }

    /// The identity the supply hands out next.
    pub fn peek(&self) -> (r: u64)
        ensures
            r == self.upcoming(),
    {
        self.next
    }

    pub fn issue(&mut self) -> (id: u64)
        requires
            old(self).upcoming() < u64::MAX,
        ensures
            id == old(self).upcoming(),
            !old(self).issued().contains(id),
            final(self).issued() == old(self).issued().insert(id),
            final(self).upcoming() == old(self).upcoming() + 1,
    {
        let id = self.next;
        self.next = self.next + 1;
        assert(self.issued() =~= old(self).issued().insert(id));
        id
    }
}

/// A variable: a name and an identity. Two variables are the same variable
/// when their identities are equal, whatever their names.
#[derive(Debug)]
pub struct LocalVar {
    name: String,
    id: u64,
}

pub type Var = LocalVar;

impl LocalVar {
    pub closed spec fn name_text(self) -> Seq<char> {
        self.name@
    }

    pub closed spec fn ident(self) -> u64 {
        self.id
    }

    fn new(name: &str, ids: &mut IdGen) -> (v: Self)
        requires
            old(ids).upcoming() < u64::MAX,
        ensures
            v.name_text() == name@,
            v.ident() == old(ids).upcoming(),
            !old(ids).issued().contains(v.ident()),
            final(ids).issued() == old(ids).issued().insert(v.ident()),
            final(ids).upcoming() == old(ids).upcoming() + 1,
    {
        LocalVar { name: name.to_owned(), id: ids.issue() }
    }

    /// A fresh variable of the name written in the source.
    pub fn named(name: &str, ids: &mut IdGen) -> (v: Self)
        requires
            old(ids).upcoming() < u64::MAX,
        ensures
            v.name_text() == name@,
            v.ident() == old(ids).upcoming(),
            !old(ids).issued().contains(v.ident()),
            final(ids).issued() == old(ids).issued().insert(v.ident()),
            final(ids).upcoming() == old(ids).upcoming() + 1,
    {
        Self::new(name, ids)
    }

    /// A fresh variable named `_`.
    pub fn unbound(ids: &mut IdGen) -> (v: Self)
        requires
            old(ids).upcoming() < u64::MAX,
        ensures
            v.name_text() == "_"@,
            v.ident() == old(ids).upcoming(),
            !old(ids).issued().contains(v.ident()),
            final(ids).issued() == old(ids).issued().insert(v.ident()),
            final(ids).upcoming() == old(ids).upcoming() + 1,
    {
        Self::new("_", ids)
    }

    /// A fresh variable named `_tupled`.
    pub fn tupled(ids: &mut IdGen) -> (v: Self)
        requires
            old(ids).upcoming() < u64::MAX,
        ensures
            v.name_text() == "_tupled"@,
            v.ident() == old(ids).upcoming(),
            !old(ids).issued().contains(v.ident()),
            final(ids).issued() == old(ids).issued().insert(v.ident()),
            final(ids).upcoming() == old(ids).upcoming() + 1,
    {
        Self::new("_tupled", ids)
    }

    /// A fresh variable named `_untupled_` followed by this variable's name.
    pub fn untupled_right(&self, ids: &mut IdGen) -> (v: Self)
        requires
            old(ids).upcoming() < u64::MAX,
        ensures
            v.name_text() == "_untupled_"@ + self.name_text(),
            v.ident() == old(ids).upcoming(),
            !old(ids).issued().contains(v.ident()),
            final(ids).issued() == old(ids).issued().insert(v.ident()),
            final(ids).upcoming() == old(ids).upcoming() + 1,
    {
        let mut name = "_untupled_".to_owned();
        name.append(self.name.as_str());
        LocalVar { name, id: ids.issue() }
    }

    /// This variable's name with the identity `id`.
    pub closed spec fn with_ident(self, id: u64) -> LocalVar {
        LocalVar { name: self.name, id }
    }

    pub broadcast proof fn lemma_with_ident(v: LocalVar, id: u64)
        ensures
            #[trigger] v.with_ident(id).name_text() == v.name_text(),
            v.with_ident(id).ident() == id,
    {
    }

    /// A fresh variable of this variable's name.
    pub fn fresh_copy(&self, ids: &mut IdGen) -> (v: Self)
        requires
            old(ids).upcoming() < u64::MAX,
        ensures
            v == self.with_ident(old(ids).upcoming()),
            v.name_text() == self.name_text(),
            v.ident() == old(ids).upcoming(),
            !old(ids).issued().contains(v.ident()),
            final(ids).issued() == old(ids).issued().insert(v.ident()),
            final(ids).upcoming() == old(ids).upcoming() + 1,
    {
        LocalVar { name: self.name.clone(), id: ids.issue() }
    }

    pub fn id(&self) -> (r: u64)
        ensures
            r == self.ident(),
    {
        self.id
    }

    pub fn as_str(&self) -> (r: &str)
        ensures
            r@ == self.name_text(),
    {
        self.name.as_str()
    }

    pub fn to_string(&self) -> (r: String)
        ensures
            r@ == self.name_text(),
    {
        self.name.clone()
    }
}

impl Clone for LocalVar {
    fn clone(&self) -> (r: Self)
        ensures
            r == *self,
    {
        LocalVar { name: self.name.clone(), id: self.id }
    }
}

impl PartialEq for LocalVar {
    fn eq(&self, other: &Self) -> (r: bool) {
        self.id == other.id
    }
}

impl vstd::std_specs::cmp::PartialEqSpecImpl for LocalVar {
    open spec fn obeys_eq_spec() -> bool {
        true
    }

    open spec fn eq_spec(&self, other: &Self) -> bool {
        self.ident() == other.ident()
    }
}

/// A generator of names for metavariables: a prefix and the number of names
/// handed out so far.
#[derive(Debug)]
pub struct VarGen(&'static str, u32);

impl VarGen {
    pub closed spec fn prefix(self) -> Seq<char> {
        self.0@
    }

    pub closed spec fn count(self) -> nat {
        self.1 as nat
    }

    pub fn user_meta() -> (g: Self)
        ensures
            g.prefix() == "?u"@,
            g.count() == 0,
    {
        VarGen("?u", 0)
    }

    pub fn inserted_meta() -> (g: Self)
        ensures
            g.prefix() == "?i"@,
            g.count() == 0,
    {
        VarGen("?i", 0)
    }

    /// The next name of the generator, the prefix followed by the new count,
    /// for a fresh variable.
    pub fn fresh(&mut self, ids: &mut IdGen) -> (v: LocalVar)
        requires
            old(self).count() < u32::MAX,
            old(ids).upcoming() < u64::MAX,
        ensures
            final(self).prefix() == old(self).prefix(),
            final(self).count() == old(self).count() + 1,
            v.name_text() == old(self).prefix() + decimal(old(self).count() + 1),
            v.ident() == old(ids).upcoming(),
            !old(ids).issued().contains(v.ident()),
            final(ids).issued() == old(ids).issued().insert(v.ident()),
            final(ids).upcoming() == old(ids).upcoming() + 1,
    {
        self.1 = self.1 + 1;
        let mut name = self.0.to_owned();
        let n = decimal_string(self.1 as u64);
        name.append(n.as_str());
        LocalVar { name, id: ids.issue() }
    }
}

/// The terms and expressions of the language: what a parameter's type and a
/// definition's parts are made of. `text` is how one is printed.
pub trait Syntax: Sized {
    spec fn text(&self) -> Seq<char>;

    fn write_text(&self, out: &mut String)
        ensures
            final(out)@ == old(out)@ + self.text(),
    ;
}

#[derive(Debug, Clone, Copy, PartialEq, Eq, Structural)]
pub enum ParamInfo {
    Explicit,
    Implicit,
}

#[derive(Debug)]
pub struct Param<T: Syntax> {
    pub var: Var,
    pub info: ParamInfo,
    pub typ: Box<T>,
}

pub type Tele<T> = Vec<Param<T>>;

/// The text of a parameter: `(name: type)` if explicit, `{name: type}` if implicit.
pub open spec fn param_text(info: ParamInfo, name: Seq<char>, typ: Seq<char>) -> Seq<char> {
    match info {
        ParamInfo::Explicit => "("@ + name + ": "@ + typ + ")"@,
        ParamInfo::Implicit => "{"@ + name + ": "@ + typ + "}"@,
    }
}

/// The text of a telescope: the texts of its parameters separated by spaces.
pub open spec fn tele_text<T: Syntax>(tele: Seq<Param<T>>) -> Seq<char>
    decreases tele.len(),
{
    if tele.len() == 0 {
        Seq::empty()
    } else if tele.len() == 1 {
        tele[0].text()
    } else {
        tele_text(tele.drop_last()) + " "@ + tele.last().text()
    }
}

impl<T: Syntax> Param<T> {
    pub open spec fn text(&self) -> Seq<char> {
        param_text(self.info, self.var.name_text(), (*self.typ).text())
    }

    pub fn write_text(&self, out: &mut String)
        ensures
            final(out)@ == old(out)@ + self.text(),
    {
        let ghost start = out@;
        match self.info {
            ParamInfo::Explicit => out.append("("),
            ParamInfo::Implicit => out.append("{"),
        }
        out.append(self.var.as_str());
        out.append(": ");
        self.typ.write_text(out);
        match self.info {
            ParamInfo::Explicit => out.append(")"),
            ParamInfo::Implicit => out.append("}"),
        }
        assert(out@ =~= start + self.text());
    }

    pub fn to_string(&self) -> (s: String)
        ensures
            s@ == self.text(),
    {
        let mut s = String::new();
        self.write_text(&mut s);
        assert(s@ =~= self.text());
        s
    }

    pub fn tele_to_string(tele: &Tele<T>) -> (s: String)
        ensures
            s@ == tele_text(tele@),
    {
        let mut s = String::new();
        let n = tele.len();
        for i in 0..n
            invariant
                n == tele@.len(),
                s@ == tele_text(tele@.subrange(0, i as int)),
        {
            let ghost before = s@;
            if i > 0 {
                s.append(" ");
            }
            tele[i].write_text(&mut s);
            assert(tele@.subrange(0, i + 1).drop_last() =~= tele@.subrange(0, i as int));
            if i == 0 {
                assert(s@ =~= tele_text(tele@.subrange(0, 1)));
            } else {
                assert(s@ =~= before + " "@ + tele@[i as int].text());
            }
        }
        assert(tele@.subrange(0, n as int) =~= tele@);
        s
    }
}

/// The names a generator hands out never repeat: the names it gives at two
/// different counts differ.
pub proof fn lemma_fresh_names_differ(prefix: Seq<char>, i: nat, j: nat)
    requires
        i != j,
    ensures
        prefix + decimal(i) != prefix + decimal(j),
{
    if prefix + decimal(i) == prefix + decimal(j) {
        assert((prefix + decimal(i)).skip(prefix.len() as int) =~= decimal(i));
        assert((prefix + decimal(j)).skip(prefix.len() as int) =~= decimal(j));
        lemma_decimal_injective(i, j);
    }
}

/// A variable made from a supply differs from every variable whose identity
/// the supply had handed out before it: `==` on variables tells them apart.
pub proof fn lemma_fresh_var_differs(before: IdGen, earlier: LocalVar, fresh: LocalVar)
    requires
        before.issued().contains(earlier.ident()),
        !before.issued().contains(fresh.ident()),
    ensures
        earlier.ident() != fresh.ident(),
        earlier != fresh,
{
}

/// The identities a supply hands out never repeat: one handed out before a
/// supply reached `later` is smaller than every one it hands out from then on.
pub proof fn lemma_issued_ids_differ(earlier: IdGen, later: IdGen, first: u64, second: u64)
    requires
        first < earlier.upcoming(),
        earlier.upcoming() <= later.upcoming(),
        second == later.upcoming(),
    ensures
        first != second,
{
}

} // verus!
