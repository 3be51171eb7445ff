//! Statements for the database, with the values that they are run with.

use vstd::prelude::*;

use crate::ranking::Score;
use crate::text::{join, joined, views};

verus! {

/// A value that a statement is run with.
pub enum SqlValue {
    /// A text.
    Text(String),
    /// A whole number.
    Integer(i64),
    /// A floating-point number.
    Real(Score),
}

/// The model of a value.
pub enum SqlModel {
    /// A text.
    Text(Seq<char>),
    /// A whole number.
    Integer(int),
    /// A floating-point number.
    Real(Score),
}

impl View for SqlValue {
    type V = SqlModel;

    open spec fn view(&self) -> SqlModel {
        match self {
            SqlValue::Text(text) => SqlModel::Text(text@),
            SqlValue::Integer(n) => SqlModel::Integer(*n as int),
            SqlValue::Real(score) => SqlModel::Real(*score),
        }
    }
}

/// The models of values.
pub open spec fn value_models(list: Seq<SqlValue>) -> Seq<SqlModel> {
    list.map_values(|v: SqlValue| v@)
}

/// Texts as values.
pub open spec fn text_models(list: Seq<Seq<char>>) -> Seq<SqlModel> {
    list.map_values(|t: Seq<char>| SqlModel::Text(t))
}

/// A condition, with the values of its placeholders in order.
pub struct Clause {
    /// The condition.
    pub text: String,
    /// The values of its placeholders.
    pub values: Vec<SqlValue>,
}

/// The model of a condition.
pub struct ClauseModel {
    /// The condition.
    pub text: Seq<char>,
    /// The values of its placeholders.
    pub values: Seq<SqlModel>,
}

impl View for Clause {
    type V = ClauseModel;

    open spec fn view(&self) -> ClauseModel {
        ClauseModel { text: self.text@, values: value_models(self.values@) }
    }
}

/// The models of conditions.
pub open spec fn clause_models(list: Seq<Clause>) -> Seq<ClauseModel> {
    list.map_values(|c: Clause| c@)
}

/// A condition without placeholders.
pub open spec fn plain(text: Seq<char>) -> ClauseModel {
    ClauseModel { text, values: Seq::empty() }
}

/// A condition on one text.
pub open spec fn on_text(text: Seq<char>, value: Seq<char>) -> ClauseModel {
    ClauseModel { text, values: seq![SqlModel::Text(value)] }
}

/// The texts of conditions.
pub open spec fn clause_texts(list: Seq<ClauseModel>) -> Seq<Seq<char>> {
    list.map_values(|c: ClauseModel| c.text)
}

/// The values of conditions, in the order of the conditions.
pub open spec fn clause_values(list: Seq<ClauseModel>) -> Seq<SqlModel>
    decreases list.len(),
{
    if list.len() == 0 {
        Seq::empty()
    } else {
        clause_values(list.drop_last()) + list.last().values
    }
}

/// All conditions at once.
pub open spec fn conjunction(list: Seq<ClauseModel>) -> Seq<char> {
    joined(clause_texts(list), " AND "@)
}

/// Makes a condition without placeholders.
pub fn plain_clause(text: &str) -> (r: Clause)
    ensures
        r@ == plain(text@),
{
    let values: Vec<SqlValue> = Vec::new();
    assert(value_models(values@) =~= Seq::empty());
    Clause { text: text.to_owned(), values }
}

/// Makes a condition on one text.
pub fn text_clause(text: &str, value: &str) -> (r: Clause)
    ensures
        r@ == on_text(text@, value@),
{
    let mut values: Vec<SqlValue> = Vec::new();
    values.push(SqlValue::Text(value.to_owned()));
    assert(value_models(values@) =~= seq![SqlModel::Text(value@)]);
    Clause { text: text.to_owned(), values }
}

/// Joins conditions to one.
pub fn join_clauses(list: &Vec<Clause>) -> (r: String)
    ensures
        r@ == conjunction(clause_models(list@)),
{
    let ghost wanted = clause_texts(clause_models(list@));
    let mut parts: Vec<String> = Vec::new();
    assert(views(parts@) =~= wanted.take(0));
    for i in 0..list.len()
        invariant
            wanted == clause_texts(clause_models(list@)),
            views(parts@) == wanted.take(i as int),
    {
        let ghost before = parts@;
        parts.push(list[i].text.clone());
        assert(views(parts@) =~= views(before).push(wanted[i as int]));
        assert(wanted.take(i + 1) =~= wanted.take(i as int).push(wanted[i as int]));
    }
    assert(wanted.take(list@.len() as int) =~= wanted);
    join(parts.as_slice(), " AND ")
}

/// A copy of a value.
pub fn clone_value(value: &SqlValue) -> (r: SqlValue)
    ensures
        r@ == value@,
{
    match value {
        SqlValue::Text(text) => SqlValue::Text(text.clone()),
        SqlValue::Integer(n) => SqlValue::Integer(*n),
        SqlValue::Real(score) => SqlValue::Real(*score),
    }
}

/// Adds copies of values.
pub fn append_values(out: &mut Vec<SqlValue>, values: &Vec<SqlValue>)
    ensures
        value_models(final(out)@) == value_models(old(out)@) + value_models(values@),
{
    let ghost start = value_models(out@);
    let ghost wanted = value_models(values@);
    assert(start + wanted.take(0) =~= start);
    for i in 0..values.len()
        invariant
            wanted == value_models(values@),
            value_models(out@) == start + wanted.take(i as int),
    {
        let ghost before = out@;
        out.push(clone_value(&values[i]));
        assert(value_models(out@) =~= value_models(before).push(wanted[i as int]));
        assert(wanted.take(i + 1) =~= wanted.take(i as int).push(wanted[i as int]));
        assert(value_models(out@) =~= start + wanted.take(i + 1));
    }
    assert(wanted.take(values@.len() as int) =~= wanted);
}

/// The values of conditions, in the order of the conditions.
pub fn collect_values(list: &Vec<Clause>) -> (r: Vec<SqlValue>)
    ensures
        value_models(r@) == clause_values(clause_models(list@)),
{
    let ghost all = clause_models(list@);
    let mut out: Vec<SqlValue> = Vec::new();
    assert(value_models(out@) =~= clause_values(all.take(0)));
    for i in 0..list.len()
        invariant
            all == clause_models(list@),
            value_models(out@) == clause_values(all.take(i as int)),
    {
        assert(all.take(i + 1).drop_last() =~= all.take(i as int));
        assert(all.take(i + 1).last() == list@[i as int]@);
        append_values(&mut out, &list[i].values);
    }
    assert(all.take(list@.len() as int) =~= all);
    out
}

/// Placeholders for a number of values.
pub open spec fn placeholders(n: nat) -> Seq<char> {
    joined(Seq::new(n, |i: int| "?"@), ", "@)
}

/// A condition that a column has one of the given texts.
pub open spec fn one_of_texts(column: Seq<char>, values: Seq<Seq<char>>) -> ClauseModel {
    ClauseModel {
        text: column + " IN ("@ + placeholders(values.len()) + ")"@,
        values: text_models(values),
    }
}

/// Makes a condition that a column has one of the given texts.
pub fn one_of_clause(column: &str, values: &Vec<String>) -> (r: Clause)
    ensures
        r@ == one_of_texts(column@, views(values@)),
{
    let ghost marks = Seq::new(values@.len(), |i: int| "?"@);
    let ghost wanted = text_models(views(values@));
    let mut parts: Vec<String> = Vec::new();
    let mut bound: Vec<SqlValue> = Vec::new();
    assert(views(parts@) =~= marks.take(0));
    assert(value_models(bound@) =~= wanted.take(0));
    for i in 0..values.len()
        invariant
            marks == Seq::new(values@.len(), |i: int| "?"@),
            wanted == text_models(views(values@)),
            views(parts@) == marks.take(i as int),
            value_models(bound@) == wanted.take(i as int),
    {
        let ghost before = parts@;
        let ghost before_bound = bound@;
        parts.push("?".to_owned());
        bound.push(SqlValue::Text(values[i].clone()));
        assert(views(parts@) =~= views(before).push(marks[i as int]));
        assert(value_models(bound@) =~= value_models(before_bound).push(wanted[i as int]));
        assert(marks.take(i + 1) =~= marks.take(i as int).push(marks[i as int]));
        assert(wanted.take(i + 1) =~= wanted.take(i as int).push(wanted[i as int]));
    }
    assert(marks.take(values@.len() as int) =~= marks);
    assert(wanted.take(values@.len() as int) =~= wanted);
    let inner = join(parts.as_slice(), ", ");
    Clause { text: crate::error::concat4(column, " IN (", inner.as_str(), ")"), values: bound }
}

/// A statement, with the values that it is run with.
pub struct Statement {
    /// The statement.
    pub sql: String,
    /// The values of its placeholders in order.
    pub values: Vec<SqlValue>,
}

/// The values of joined lists of conditions stand in the order of the lists.
pub proof fn law_values_follow_clauses(a: Seq<ClauseModel>, b: Seq<ClauseModel>)
    ensures
        clause_values(a + b) == clause_values(a) + clause_values(b),
    decreases b.len(),
{
    if b.len() == 0 {
        assert(a + b =~= a);
        assert(clause_values(a) + clause_values(b) =~= clause_values(a));
    } else {
        law_values_follow_clauses(a, b.drop_last());
        assert((a + b).drop_last() =~= a + b.drop_last());
        assert((a + b).last() == b.last());
        assert(clause_values(a + b) =~= clause_values(a) + clause_values(b));
    }
}

} // verus!
