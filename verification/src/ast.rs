//! The expression syntax tree for the general grammar: integers, symbols,
//! variables, whitespace-joined applications and brace-delimited lists
//! whose positional entries may be embedded. A parsed document is an
//! ordered sequence of expressions.

use vstd::prelude::*;

verus! {

/// A positional entry of a list: a plain value, or one marked for
/// embedding, whose contents a later consumer splices into the enclosing
/// list.
#[derive(Debug, PartialEq, Eq)]
pub enum ListEntry {
    Expr(Expression),
    Embed(Expression),
}

/// An expression of the general grammar.
#[derive(Debug, PartialEq, Eq)]
pub enum Expression {
    Integer(i128),
    Symbol(String),
    Variable(String),
    Application(Vec<Expression>),
    List(Vec<ListEntry>),
}

/// A parsed document: the expressions of the input in order.
#[derive(Debug, PartialEq, Eq)]
pub struct Ast(pub Vec<Expression>);

/// The mathematical shape of an expression: text as character sequences,
/// integers unbounded.
pub enum SpecExpr {
    Integer(int),
    Symbol(Seq<char>),
    Variable(Seq<char>),
    Application(Seq<SpecExpr>),
    List(Seq<SpecListEntry>),
}

pub enum SpecListEntry {
    Expr(SpecExpr),
    Embed(SpecExpr),
}

pub open spec fn expr_view(e: Expression) -> SpecExpr
    decreases e,
{
    match e {
        Expression::Integer(n) => SpecExpr::Integer(n as int),
        Expression::Symbol(s) => SpecExpr::Symbol(s@),
        Expression::Variable(s) => SpecExpr::Variable(s@),
        Expression::Application(v) => SpecExpr::Application(exprs_view(v@)),
        Expression::List(v) => SpecExpr::List(entries_view(v@)),
    }
}

pub open spec fn exprs_view(s: Seq<Expression>) -> Seq<SpecExpr>
    decreases s,
{
    if s.len() == 0 {
        Seq::empty()
    } else {
        exprs_view(s.drop_last()).push(expr_view(s.last()))
    }
}

pub open spec fn entry_view(le: ListEntry) -> SpecListEntry
    decreases le,
{
    match le {
        ListEntry::Expr(e) => SpecListEntry::Expr(expr_view(e)),
        ListEntry::Embed(e) => SpecListEntry::Embed(expr_view(e)),
    }
}

pub open spec fn entries_view(s: Seq<ListEntry>) -> Seq<SpecListEntry>
    decreases s,
{
    if s.len() == 0 {
        Seq::empty()
    } else {
        entries_view(s.drop_last()).push(entry_view(s.last()))
    }
}

impl View for Expression {
    type V = SpecExpr;

    open spec fn view(&self) -> SpecExpr {
        expr_view(*self)
    }
}

impl View for ListEntry {
    type V = SpecListEntry;

    open spec fn view(&self) -> SpecListEntry {
        entry_view(*self)
    }
}

impl View for Ast {
    type V = Seq<SpecExpr>;

    open spec fn view(&self) -> Seq<SpecExpr> {
        exprs_view(self.0@)
    }
}

/// Appending one expression appends its view.
pub proof fn lemma_exprs_view_push(s: Seq<Expression>, e: Expression)
    ensures
        exprs_view(s.push(e)) == exprs_view(s).push(expr_view(e)),
{
    assert(s.push(e).drop_last() =~= s);
    assert(s.push(e).last() == e);
}

/// Appending one entry appends its view.
pub proof fn lemma_entries_view_push(s: Seq<ListEntry>, le: ListEntry)
    ensures
        entries_view(s.push(le)) == entries_view(s).push(entry_view(le)),
{
    assert(s.push(le).drop_last() =~= s);
    assert(s.push(le).last() == le);
}

} // verus!
