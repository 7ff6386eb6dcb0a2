//! The table-based expression shape: integers, symbols, variables and
//! tables. A table holds ordered positional entries (each plain or marked
//! for embedding) and a mapping from identifier keys to expressions. Keys
//! are unique; writing a key again replaces its value.

use vstd::prelude::*;

verus! {

/// A positional entry of a table: a plain value, or one marked for
/// embedding.
#[derive(Debug, PartialEq, Eq)]
pub enum TableEntry {
    Expr(Expression),
    Embed(Expression),
}

/// An ordered sequence of positional entries plus a keyed mapping. Keyed
/// fields have a literal identifier key and a regular value.
#[derive(Debug, PartialEq, Eq)]
pub struct Table {
    pub positional: Vec<TableEntry>,
    pub keyed: Vec<(String, Expression)>,
}

/// An expression of the table grammar.
#[derive(Debug, PartialEq, Eq)]
pub enum Expression {
    Integer(i128),
    Symbol(String),
    Variable(String),
    Table(Table),
}

/// The mathematical shape of a table expression.
pub enum SpecTableExpr {
    Integer(int),
    Symbol(Seq<char>),
    Variable(Seq<char>),
    Table(SpecTable),
}

pub enum SpecTableEntry {
    Expr(SpecTableExpr),
    Embed(SpecTableExpr),
}

pub struct SpecTable {
    pub positional: Seq<SpecTableEntry>,
    pub keyed: Seq<(Seq<char>, SpecTableExpr)>,
}

pub open spec fn texpr_view(e: Expression) -> SpecTableExpr
    decreases e,
{
    match e {
        Expression::Integer(n) => SpecTableExpr::Integer(n as int),
        Expression::Symbol(s) => SpecTableExpr::Symbol(s@),
        Expression::Variable(s) => SpecTableExpr::Variable(s@),
        Expression::Table(t) => SpecTableExpr::Table(table_view(t)),
    }
}

pub open spec fn table_view(t: Table) -> SpecTable
    decreases t,
{
    SpecTable { positional: tentries_view(t.positional@), keyed: keyed_view(t.keyed@) }
}

pub open spec fn tentry_view(le: TableEntry) -> SpecTableEntry
    decreases le,
{
    match le {
        TableEntry::Expr(e) => SpecTableEntry::Expr(texpr_view(e)),
        TableEntry::Embed(e) => SpecTableEntry::Embed(texpr_view(e)),
    }
}

pub open spec fn tentries_view(s: Seq<TableEntry>) -> Seq<SpecTableEntry>
    decreases s,
{
    if s.len() == 0 {
        Seq::empty()
    } else {
        tentries_view(s.drop_last()).push(tentry_view(s.last()))
    }
}

pub open spec fn keyed_view(s: Seq<(String, Expression)>) -> Seq<(Seq<char>, SpecTableExpr)>
    decreases s,
{
    if s.len() == 0 {
        Seq::empty()
    } else {
        keyed_view(s.drop_last()).push((s.last().0@, texpr_view(s.last().1)))
    }
}

impl View for Expression {
    type V = SpecTableExpr;

    open spec fn view(&self) -> SpecTableExpr {
        texpr_view(*self)
    }
}

impl View for TableEntry {
    type V = SpecTableEntry;

    open spec fn view(&self) -> SpecTableEntry {
        tentry_view(*self)
    }
}

impl View for Table {
    type V = SpecTable;

    open spec fn view(&self) -> SpecTable {
        table_view(*self)
    }
}

/// Writing key `k` into an ordered keyed mapping: the first pair with that
/// key has its value replaced in place; a fresh key goes to the end.
pub open spec fn keyed_insert(
    s: Seq<(Seq<char>, SpecTableExpr)>,
    k: Seq<char>,
    v: SpecTableExpr,
) -> Seq<(Seq<char>, SpecTableExpr)>
    decreases s.len(),
{
    if s.len() == 0 {
        seq![(k, v)]
    } else if s[0].0 == k {
        seq![(k, v)] + s.drop_first()
    } else {
        seq![s[0]] + keyed_insert(s.drop_first(), k, v)
    }
}

pub proof fn lemma_tentries_view_push(s: Seq<TableEntry>, le: TableEntry)
    ensures
        tentries_view(s.push(le)) == tentries_view(s).push(tentry_view(le)),
{
    assert(s.push(le).drop_last() =~= s);
    assert(s.push(le).last() == le);
}

impl Table {
    /// An empty table.
    pub fn new() -> (t: Table)
        ensures
            t@.positional == Seq::<SpecTableEntry>::empty(),
            t@.keyed == Seq::<(Seq<char>, SpecTableExpr)>::empty(),
    {
        Table { positional: Vec::new(), keyed: Vec::new() }
    }

    /// Append a positional entry.
    pub fn add_positional(&mut self, value: TableEntry)
        ensures
            final(self)@.positional == old(self)@.positional.push(value@),
            final(self)@.keyed == old(self)@.keyed,
    {
        proof {
            lemma_tentries_view_push(self.positional@, value);
        }
        self.positional.push(value);
    }

    /// Write a keyed entry: replace the value of an existing key in place,
    /// or add a fresh key at the end.
    pub fn add_keyed(&mut self, key: String, value: Expression)
        ensures
            final(self)@.keyed == keyed_insert(old(self)@.keyed, key@, value@),
            final(self)@.positional == old(self)@.positional,
    {
        let n = self.keyed.len();
        let mut i: usize = 0;
        while i < n
            invariant
                i <= n,
                n == self.keyed@.len(),
                self == old(self),
                forall|m: int| 0 <= m < i ==> #[trigger] self.keyed@[m].0@ != key@,
            decreases n - i,
        {
            if self.keyed[i].0.eq(&key) {
                let ghost prev = self.keyed@;
                self.keyed.set(i, (key, value));
                proof {
                    lemma_keyed_view_elems(prev);
                    assert(prev[i as int].0@ == key@);
                    assert forall|m: int| 0 <= m < i implies (#[trigger] keyed_view(prev)[m]).0
                        != prev[i as int].0@ by {
                        assert(keyed_view(prev)[m] == (prev[m].0@, texpr_view(prev[m].1)));
                    }
                    lemma_keyed_view_update(prev, i as int, self.keyed@[i as int]);
                    lemma_keyed_insert_at(keyed_view(prev), i as int, prev[i as int].0@, texpr_view(
                        value,
                    ));
                }
                return ;
            }
            i = i + 1;
        }
        let ghost prev = self.keyed@;
        self.keyed.push((key, value));
        proof {
            lemma_keyed_view_elems(prev);
            assert(self.keyed@[prev.len() as int].0@ == key@);
            assert forall|m: int| 0 <= m < keyed_view(prev).len() implies (#[trigger] keyed_view(
                prev,
            )[m]).0 != key@ by {
                assert(keyed_view(prev)[m] == (prev[m].0@, texpr_view(prev[m].1)));
            }
            lemma_keyed_view_push(prev, self.keyed@[prev.len() as int].0, self.keyed@[
                prev.len() as int].1);
            assert(prev.push(self.keyed@[prev.len() as int]) =~= self.keyed@);
            lemma_keyed_insert_fresh(keyed_view(prev), self.keyed@[prev.len() as int].0@, texpr_view(
                self.keyed@[prev.len() as int].1,
            ));
        }
    }
}

/// The length and elements of a keyed mapping's view, pair by pair.
pub proof fn lemma_keyed_view_elems(s: Seq<(String, Expression)>)
    ensures
        keyed_view(s).len() == s.len(),
        forall|m: int|
            0 <= m < s.len() ==> keyed_view(s)[m] == ((#[trigger] s[m]).0@, texpr_view(s[m].1)),
    decreases s.len(),
{
    if s.len() > 0 {
        lemma_keyed_view_elems(s.drop_last());
        assert forall|m: int| 0 <= m < s.len() implies keyed_view(s)[m] == ((#[trigger] s[m]).0@,
        texpr_view(s[m].1)) by {
            if m < s.len() - 1 {
                assert(s.drop_last()[m] == s[m]);
                assert(keyed_view(s)[m] == keyed_view(s.drop_last())[m]);
            } else {
                assert(s[m] == s.last());
            }
        }
    }
}

/// The view of an updated pair sequence: the same views with one pair
/// replaced.
proof fn lemma_keyed_view_update(s: Seq<(String, Expression)>, i: int, p: (String, Expression))
    requires
        0 <= i < s.len(),
    ensures
        keyed_view(s.update(i, p)) =~= keyed_view(s).update(i, (p.0@, texpr_view(p.1))),
    decreases s.len(),
{
    lemma_keyed_view_elems(s);
    lemma_keyed_view_elems(s.update(i, p));
    assert forall|m: int| 0 <= m < s.len() implies keyed_view(s.update(i, p))[m] == keyed_view(
        s,
    ).update(i, (p.0@, texpr_view(p.1)))[m] by {
        if m != i {
            assert(s.update(i, p)[m] == s[m]);
        }
    }
}

proof fn lemma_keyed_view_push(s: Seq<(String, Expression)>, k: String, v: Expression)
    ensures
        keyed_view(s.push((k, v))) == keyed_view(s).push((k@, texpr_view(v))),
{
    assert(s.push((k, v)).drop_last() =~= s);
    assert(s.push((k, v)).last() == (k, v));
}

/// Writing a key none of the pairs carries appends it.
proof fn lemma_keyed_insert_fresh(s: Seq<(Seq<char>, SpecTableExpr)>, k: Seq<char>, v: SpecTableExpr)
    requires
        forall|m: int| 0 <= m < s.len() ==> (#[trigger] s[m]).0 != k,
    ensures
        keyed_insert(s, k, v) =~= s.push((k, v)),
    decreases s.len(),
{
    if s.len() > 0 {
        assert(forall|m: int|
            0 <= m < s.len() - 1 ==> #[trigger] s.drop_first()[m] == s[m + 1]);
        lemma_keyed_insert_fresh(s.drop_first(), k, v);
        assert(keyed_insert(s, k, v) =~= seq![s[0]] + keyed_insert(s.drop_first(), k, v));
        assert(seq![s[0]] + s.drop_first().push((k, v)) =~= s.push((k, v)));
    }
}

/// Writing a key whose first occurrence is at `i` replaces that value.
proof fn lemma_keyed_insert_at(s: Seq<(Seq<char>, SpecTableExpr)>, i: int, k: Seq<char>, v: SpecTableExpr)
    requires
        0 <= i < s.len(),
        s[i].0 == k,
        forall|m: int| 0 <= m < i ==> (#[trigger] s[m]).0 != k,
    ensures
        keyed_insert(s, k, v) =~= s.update(i, (k, v)),
    decreases s.len(),
{
    if i == 0 {
        assert(keyed_insert(s, k, v) =~= seq![(k, v)] + s.drop_first());
        assert(seq![(k, v)] + s.drop_first() =~= s.update(0, (k, v)));
    } else {
        assert(forall|m: int|
            0 <= m < s.len() - 1 ==> #[trigger] s.drop_first()[m] == s[m + 1]);
        lemma_keyed_insert_at(s.drop_first(), i - 1, k, v);
        assert(keyed_insert(s, k, v) =~= seq![s[0]] + keyed_insert(s.drop_first(), k, v));
        assert(seq![s[0]] + s.drop_first().update(i - 1, (k, v)) =~= s.update(i, (k, v)));
    }
}

} // verus!
