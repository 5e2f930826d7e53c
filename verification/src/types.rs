//! The executable data types and their views.

use vstd::prelude::*;
use crate::model::Datum;
use crate::model::Formula;
use crate::model::Name;
use crate::model::Plan;
use crate::model::Row;

verus! {

/// A scalar: an integer, a text, or a reference to a column. Column
/// references occur in conditions only, never in a row of a table.
#[derive(Debug)]
pub enum Value {
    Int(i64),
    Str(String),
    Column(String),
}

/// A row of a table.
pub type Entry = Vec<Value>;

/// A boolean expression over the cells of one row.
#[derive(Debug)]
pub enum Condition {
    True,
    False,
    Not(Box<Condition>),
    Or(Box<Condition>, Box<Condition>),
    And(Box<Condition>, Box<Condition>),
    Less(Value, Value),
    Equal(Value, Value),
    More(Value, Value),
}

/// A query plan. The two fused variants are produced by optimization only.
#[derive(Debug)]
pub enum Expression {
    Select(Box<Expression>, Box<Condition>),
    /// The plan and the column names to keep.
    Project(Box<Expression>, Vec<String>),
    /// The plan, the old column names and the new column names.
    Rename(Box<Expression>, Vec<String>, Vec<String>),
    Except(Box<Expression>, Box<Expression>),
    Union(Box<Expression>, Box<Expression>),
    Product(Box<Expression>, Box<Expression>),
    ReadSelectProjectRename(String, Box<Condition>, Vec<String>, Vec<String>),
    JoinProjectRename(Box<Expression>, Box<Expression>, Box<Condition>, Vec<String>, Vec<String>),
    /// The source's name and, once discovered, its column names.
    Load(String, Option<Vec<String>>),
}

impl Clone for Value {
    fn clone(&self) -> (r: Self)
        ensures
            r == *self,
    {
        match self {
            Value::Int(i) => Value::Int(*i),
            Value::Str(s) => Value::Str(s.clone()),
            Value::Column(s) => Value::Column(s.clone()),
        }
    }
}

impl Clone for Condition {
    fn clone(&self) -> (r: Self)
        ensures
            r == *self,
        decreases self,
    {
        match self {
            Condition::True => Condition::True,
            Condition::False => Condition::False,
            Condition::Not(a) => Condition::Not(Box::new((&**a).clone())),
            Condition::Or(a, b) => Condition::Or(
                Box::new((&**a).clone()),
                Box::new((&**b).clone()),
            ),
            Condition::And(a, b) => Condition::And(
                Box::new((&**a).clone()),
                Box::new((&**b).clone()),
            ),
            Condition::Less(x, y) => Condition::Less(x.clone(), y.clone()),
            Condition::Equal(x, y) => Condition::Equal(x.clone(), y.clone()),
            Condition::More(x, y) => Condition::More(x.clone(), y.clone()),
        }
    }
}

/// A copy of a list of names.
pub fn clone_names(names: &Vec<String>) -> (r: Vec<String>)
    ensures
        r@ == names@,
{
    let mut out: Vec<String> = Vec::new();
    let mut i: usize = 0;
    while i < names.len()
        invariant
            0 <= i <= names.len(),
            out@ == names@.take(i as int),
        decreases names.len() - i,
    {
        out.push(names[i].clone());
        proof {
            assert(out@ =~= names@.take(i + 1));
        }
        i += 1;
    }
    proof {
        assert(names@.take(names.len() as int) =~= names@);
    }
    out
}

/// A copy of a row.
pub fn clone_entry(entry: &Entry) -> (r: Entry)
    ensures
        r@ == entry@,
{
    let mut out: Vec<Value> = Vec::new();
    let mut i: usize = 0;
    while i < entry.len()
        invariant
            0 <= i <= entry.len(),
            out@ == entry@.take(i as int),
        decreases entry.len() - i,
    {
        out.push(entry[i].clone());
        proof {
            assert(out@ =~= entry@.take(i + 1));
        }
        i += 1;
    }
    proof {
        assert(entry@.take(entry.len() as int) =~= entry@);
    }
    out
}

impl Clone for Expression {
    fn clone(&self) -> (r: Self)
        ensures
            r@ == self@,
        decreases self,
    {
        match self {
            Expression::Select(p, c) => Expression::Select(
                Box::new((&**p).clone()),
                Box::new((&**c).clone()),
            ),
            Expression::Project(p, columns) => Expression::Project(
                Box::new((&**p).clone()),
                clone_names(columns),
            ),
            Expression::Rename(p, old, new) => Expression::Rename(
                Box::new((&**p).clone()),
                clone_names(old),
                clone_names(new),
            ),
            Expression::Except(p, q) => Expression::Except(
                Box::new((&**p).clone()),
                Box::new((&**q).clone()),
            ),
            Expression::Union(p, q) => Expression::Union(
                Box::new((&**p).clone()),
                Box::new((&**q).clone()),
            ),
            Expression::Product(p, q) => Expression::Product(
                Box::new((&**p).clone()),
                Box::new((&**q).clone()),
            ),
            Expression::ReadSelectProjectRename(name, c, old, new) => {
                Expression::ReadSelectProjectRename(
                    name.clone(),
                    Box::new((&**c).clone()),
                    clone_names(old),
                    clone_names(new),
                )
            },
            Expression::JoinProjectRename(p, q, c, old, new) => Expression::JoinProjectRename(
                Box::new((&**p).clone()),
                Box::new((&**q).clone()),
                Box::new((&**c).clone()),
                clone_names(old),
                clone_names(new),
            ),
            Expression::Load(name, columns) => Expression::Load(
                name.clone(),
                match columns {
                    Some(names) => Some(clone_names(names)),
                    None => None,
                },
            ),
        }
    }
}

impl View for Value {
    type V = Datum;

    open spec fn view(&self) -> Datum {
        match self {
            Value::Int(i) => Datum::Int(*i),
            Value::Str(s) => Datum::Text(s@),
            Value::Column(s) => Datum::Column(s@),
        }
    }
}

/// The names a vector of strings stands for.
pub open spec fn names_view(names: Seq<String>) -> Seq<Name> {
    names.map_values(|s: String| s@)
}

/// The function that takes a value to what it stands for.
pub open spec fn value_view() -> spec_fn(Value) -> Datum {
    |v: Value| v@
}

/// The row a vector of values stands for.
pub open spec fn entry_view(entry: Seq<Value>) -> Row {
    entry.map_values(value_view())
}

/// The rows a vector of entries stands for.
pub open spec fn entries_view(entries: Seq<Entry>) -> Seq<Row> {
    entries.map_values(|e: Entry| entry_view(e@))
}

/// The formula a condition stands for.
pub open spec fn condition_model(c: Condition) -> Formula
    decreases c,
{
    match c {
        Condition::True => Formula::True,
        Condition::False => Formula::False,
        Condition::Not(a) => Formula::Not(Box::new(condition_model(*a))),
        Condition::Or(a, b) => Formula::Or(
            Box::new(condition_model(*a)),
            Box::new(condition_model(*b)),
        ),
        Condition::And(a, b) => Formula::And(
            Box::new(condition_model(*a)),
            Box::new(condition_model(*b)),
        ),
        Condition::Less(x, y) => Formula::Less(x@, y@),
        Condition::Equal(x, y) => Formula::Equal(x@, y@),
        Condition::More(x, y) => Formula::More(x@, y@),
    }
}

/// The function that takes a condition to what it stands for.
pub open spec fn condition_view() -> spec_fn(Condition) -> Formula {
    |c: Condition| c@
}

/// The formulas a vector of conditions stands for.
pub open spec fn conditions_view(conditions: Seq<Condition>) -> Seq<Formula> {
    conditions.map_values(condition_view())
}

impl View for Condition {
    type V = Formula;

    open spec fn view(&self) -> Formula {
        condition_model(*self)
    }
}

/// The discovered columns of a `Load`, as names.
pub open spec fn discovered_view(columns: Option<Vec<String>>) -> Option<Seq<Name>> {
    match columns {
        Some(names) => Some(names_view(names@)),
        None => None,
    }
}

/// The plan an expression stands for.
pub open spec fn expression_model(e: Expression) -> Plan
    decreases e,
{
    match e {
        Expression::Select(p, c) => Plan::Select(Box::new(expression_model(*p)), condition_model(*c)),
        Expression::Project(p, columns) => Plan::Project(
            Box::new(expression_model(*p)),
            names_view(columns@),
        ),
        Expression::Rename(p, old, new) => Plan::Rename(
            Box::new(expression_model(*p)),
            names_view(old@),
            names_view(new@),
        ),
        Expression::Except(p, q) => Plan::Except(
            Box::new(expression_model(*p)),
            Box::new(expression_model(*q)),
        ),
        Expression::Union(p, q) => Plan::Union(
            Box::new(expression_model(*p)),
            Box::new(expression_model(*q)),
        ),
        Expression::Product(p, q) => Plan::Product(
            Box::new(expression_model(*p)),
            Box::new(expression_model(*q)),
        ),
        Expression::ReadSelectProjectRename(name, c, old, new) => Plan::ReadSelectProjectRename(
            name@,
            condition_model(*c),
            names_view(old@),
            names_view(new@),
        ),
        Expression::JoinProjectRename(p, q, c, old, new) => Plan::JoinProjectRename(
            Box::new(expression_model(*p)),
            Box::new(expression_model(*q)),
            condition_model(*c),
            names_view(old@),
            names_view(new@),
        ),
        Expression::Load(name, columns) => Plan::Load(name@, discovered_view(columns)),
    }
}

impl View for Expression {
    type V = Plan;

    open spec fn view(&self) -> Plan {
        expression_model(*self)
    }
}

} // verus!
