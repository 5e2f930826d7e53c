//! Equality of values, conditions and plans.

use vstd::prelude::*;
use vstd::std_specs::cmp::PartialEqSpecImpl;
use crate::model::Name;
use crate::model::Plan;
use crate::types::Condition;
use crate::types::Expression;
use crate::types::Value;
use crate::types::names_view;

verus! {

/// How often `x` occurs in `s`.
pub open spec fn occurrences(s: Seq<Name>, x: Name) -> nat
    decreases s.len(),
{
    if s.len() == 0 {
        0
    } else if s.last() == x {
        occurrences(s.drop_last(), x) + 1
    } else {
        occurrences(s.drop_last(), x)
    }
}

/// The two lists hold the same names, each as often as the other: they are
/// equal once sorted.
pub open spec fn same_bag(a: Seq<Name>, b: Seq<Name>) -> bool {
    forall|x: Name| #[trigger] occurrences(a, x) == occurrences(b, x)
}

/// Equality of plans: the columns of a projection count in any order, the
/// discovered columns of a load do not count, everything else must agree.
pub open spec fn same_plan(a: Plan, b: Plan) -> bool
    decreases a,
{
    match (a, b) {
        (Plan::Select(p, c), Plan::Select(q, d)) => same_plan(*p, *q) && c == d,
        (Plan::Project(p, columns), Plan::Project(q, others)) => same_plan(*p, *q) && same_bag(
            columns,
            others,
        ),
        (Plan::Rename(p, old1, new1), Plan::Rename(q, old2, new2)) => same_plan(*p, *q) && old1
            == old2 && new1 == new2,
        (Plan::Except(left1, left2), Plan::Except(right1, right2)) => same_plan(*left1, *right1) && same_plan(*left2, *right2),
        (Plan::Union(left1, left2), Plan::Union(right1, right2)) => same_plan(*left1, *right1) && same_plan(*left2, *right2),
        (Plan::Product(left1, left2), Plan::Product(right1, right2)) => same_plan(*left1, *right1) && same_plan(
            *left2,
            *right2,
        ),
        (
            Plan::ReadSelectProjectRename(f1, c1, old1, new1),
            Plan::ReadSelectProjectRename(f2, c2, old2, new2),
        ) => f1 == f2 && c1 == c2 && old1 == old2 && new1 == new2,
        (
            Plan::JoinProjectRename(left1, left2, c1, old1, new1),
            Plan::JoinProjectRename(right1, right2, c2, old2, new2),
        ) => same_plan(*left1, *right1) && same_plan(*left2, *right2) && c1 == c2 && old1 == old2 && new1
            == new2,
        (Plan::Load(f1, _), Plan::Load(f2, _)) => f1 == f2,
        _ => false,
    }
}

/// Whether two values are the same.
pub fn same_value(a: &Value, b: &Value) -> (r: bool)
    ensures
        r == (a@ == b@),
{
    match (a, b) {
        (Value::Int(i), Value::Int(j)) => *i == *j,
        (Value::Str(s), Value::Str(t)) => *s == *t,
        (Value::Column(s), Value::Column(t)) => *s == *t,
        _ => false,
    }
}

/// Whether two conditions are the same, operand for operand.
pub fn same_condition(a: &Condition, b: &Condition) -> (r: bool)
    ensures
        r == (a@ == b@),
    decreases a,
{
    match (a, b) {
        (Condition::True, Condition::True) => true,
        (Condition::False, Condition::False) => true,
        (Condition::Not(c1), Condition::Not(c2)) => same_condition(c1, c2),
        (Condition::Or(c11, c12), Condition::Or(c21, c22)) => same_condition(c11, c21)
            && same_condition(c12, c22),
        (Condition::And(c11, c12), Condition::And(c21, c22)) => same_condition(c11, c21)
            && same_condition(c12, c22),
        (Condition::Less(v11, v12), Condition::Less(v21, v22)) => same_value(v11, v21)
            && same_value(v12, v22),
        (Condition::Equal(v11, v12), Condition::Equal(v21, v22)) => same_value(v11, v21)
            && same_value(v12, v22),
        (Condition::More(v11, v12), Condition::More(v21, v22)) => same_value(v11, v21)
            && same_value(v12, v22),
        _ => false,
    }
}

/// Whether two lists hold the same names in the same order.
pub fn same_names(a: &Vec<String>, b: &Vec<String>) -> (r: bool)
    ensures
        r == (names_view(a@) == names_view(b@)),
{
    if a.len() != b.len() {
        assert(names_view(a@).len() != names_view(b@).len());
        return false;
    }
    let mut i: usize = 0;
    while i < a.len()
        invariant
            0 <= i <= a.len(),
            a.len() == b.len(),
            forall|j: int| 0 <= j < i ==> names_view(a@)[j] == names_view(b@)[j],
        decreases a.len() - i,
    {
        if a[i] != b[i] {
            assert(names_view(a@)[i as int] != names_view(b@)[i as int]);
            return false;
        }
        i += 1;
    }
    proof {
        assert(names_view(a@) =~= names_view(b@));
    }
    true
}

/// How often `name` occurs in `names`.
fn count_name(names: &Vec<String>, name: &String) -> (r: usize)
    ensures
        r == occurrences(names_view(names@), name@),
{
    let ghost all = names_view(names@);
    let mut count: usize = 0;
    let mut i: usize = 0;
    while i < names.len()
        invariant
            0 <= i <= names.len(),
            all == names_view(names@),
            count == occurrences(all.take(i as int), name@),
            count <= i,
        decreases names.len() - i,
    {
        proof {
            assert(all.take(i + 1).drop_last() =~= all.take(i as int));
            assert(all.take(i + 1).last() == names@[i as int]@);
        }
        if names[i] == *name {
            count += 1;
        }
        i += 1;
    }
    proof {
        assert(all.take(all.len() as int) =~= all);
    }
    count
}

/// A name that does not occur in a list occurs in it zero times.
proof fn lemma_absent_occurs_never(s: Seq<Name>, x: Name)
    requires
        !s.contains(x),
    ensures
        occurrences(s, x) == 0,
    decreases s.len(),
{
    if s.len() > 0 {
        assert(s[s.len() - 1] == s.last());
        assert forall|i: int| 0 <= i < s.drop_last().len() implies s.drop_last()[i] != x by {
            assert(s.drop_last()[i] == s[i]);
        }
        lemma_absent_occurs_never(s.drop_last(), x);
    }
}

/// Whether every name of `a` occurs in `b` as often as in `a`.
fn counts_agree(a: &Vec<String>, b: &Vec<String>) -> (r: bool)
    ensures
        r == (forall|i: int|
            0 <= i < a@.len() ==> occurrences(names_view(a@), #[trigger] names_view(a@)[i])
                == occurrences(names_view(b@), names_view(a@)[i])),
{
    let mut i: usize = 0;
    while i < a.len()
        invariant
            0 <= i <= a.len(),
            forall|j: int|
                0 <= j < i ==> occurrences(names_view(a@), #[trigger] names_view(a@)[j])
                    == occurrences(names_view(b@), names_view(a@)[j]),
        decreases a.len() - i,
    {
        assert(names_view(a@)[i as int] == a@[i as int]@);
        if count_name(a, &a[i]) != count_name(b, &a[i]) {
            return false;
        }
        i += 1;
    }
    true
}

/// Whether two lists hold the same names, each as often as the other, in
/// any order.
pub fn same_names_unordered(a: &Vec<String>, b: &Vec<String>) -> (r: bool)
    ensures
        r == same_bag(names_view(a@), names_view(b@)),
{
    let forth = counts_agree(a, b);
    let back = counts_agree(b, a);
    proof {
        let x = names_view(a@);
        let y = names_view(b@);
        if forth && back {
            assert forall|n: Name| #[trigger] occurrences(x, n) == occurrences(y, n) by {
                if x.contains(n) {
                    let i = choose|i: int| 0 <= i < x.len() && x[i] == n;
                    assert(occurrences(x, x[i]) == occurrences(y, x[i]));
                } else if y.contains(n) {
                    let i = choose|i: int| 0 <= i < y.len() && y[i] == n;
                    assert(occurrences(y, y[i]) == occurrences(x, y[i]));
                } else {
                    lemma_absent_occurs_never(x, n);
                    lemma_absent_occurs_never(y, n);
                }
            }
        } else if !forth {
            let i = choose|i: int|
                0 <= i < x.len() && occurrences(x, #[trigger] x[i]) != occurrences(y, x[i]);
            assert(occurrences(x, x[i]) != occurrences(y, x[i]));
        } else {
            let i = choose|i: int|
                0 <= i < y.len() && occurrences(y, #[trigger] y[i]) != occurrences(x, y[i]);
            assert(occurrences(x, y[i]) != occurrences(y, y[i]));
        }
    }
    forth && back
}

/// Whether two plans are equal: the columns of a projection count in any
/// order, the discovered columns of a load do not count.
pub fn same_expression(a: &Expression, b: &Expression) -> (r: bool)
    ensures
        r == same_plan(a@, b@),
    decreases a,
{
    match (a, b) {
        (Expression::Select(e1, c1), Expression::Select(e2, c2)) => same_expression(e1, e2)
            && same_condition(c1, c2),
        (Expression::Project(e1, on1), Expression::Project(e2, on2)) => same_expression(e1, e2)
            && same_names_unordered(on1, on2),
        (Expression::Rename(e1, old1, new1), Expression::Rename(e2, old2, new2)) => {
            same_expression(e1, e2) && same_names(old1, old2) && same_names(new1, new2)
        },
        (Expression::Except(e11, e12), Expression::Except(e21, e22)) => same_expression(e11, e21)
            && same_expression(e12, e22),
        (Expression::Union(e11, e12), Expression::Union(e21, e22)) => same_expression(e11, e21)
            && same_expression(e12, e22),
        (Expression::Product(e11, e12), Expression::Product(e21, e22)) => same_expression(
            e11,
            e21,
        ) && same_expression(e12, e22),
        (
            Expression::ReadSelectProjectRename(f1, c1, old1, new1),
            Expression::ReadSelectProjectRename(f2, c2, old2, new2),
        ) => *f1 == *f2 && same_condition(c1, c2) && same_names(old1, old2) && same_names(
            new1,
            new2,
        ),
        (
            Expression::JoinProjectRename(e11, e12, c1, old1, new1),
            Expression::JoinProjectRename(e21, e22, c2, old2, new2),
        ) => same_expression(e11, e21) && same_expression(e12, e22) && same_condition(c1, c2)
            && same_names(old1, old2) && same_names(new1, new2),
        (Expression::Load(f1, _), Expression::Load(f2, _)) => *f1 == *f2,
        _ => false,
    }
}

impl PartialEq for Value {
    fn eq(&self, other: &Self) -> (r: bool) {
        same_value(self, other)
    }
}

impl PartialEqSpecImpl for Value {
    open spec fn obeys_eq_spec() -> bool {
        true
    }

    open spec fn eq_spec(&self, other: &Self) -> bool {
        self@ == other@
    }
}

impl Eq for Value {

}

impl PartialEq for Condition {
    fn eq(&self, other: &Self) -> (r: bool) {
        same_condition(self, other)
    }
}

impl PartialEqSpecImpl for Condition {
    open spec fn obeys_eq_spec() -> bool {
        true
    }

    open spec fn eq_spec(&self, other: &Self) -> bool {
        self@ == other@
    }
}

impl Eq for Condition {

}

impl PartialEq for Expression {
    fn eq(&self, other: &Self) -> (r: bool) {
        same_expression(self, other)
    }
}

impl PartialEqSpecImpl for Expression {
    open spec fn obeys_eq_spec() -> bool {
        true
    }

    open spec fn eq_spec(&self, other: &Self) -> bool {
        same_plan(self@, other@)
    }
}

impl Eq for Expression {

}

} // verus!
