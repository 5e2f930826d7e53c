//! Tables that differ in the order of their rows only, and the operators
//! on such tables.

use vstd::prelude::*;
use vstd::seq_lib::to_multiset_build;
use vstd::seq_lib::to_multiset_remove;
use crate::bags::lemma_elements_add;
use crate::bags::lemma_same_elements_add;
use crate::bags::lemma_same_elements_contains;
use crate::bags::lemma_same_elements_filter;
use crate::bags::lemma_same_elements_len;
use crate::bags::lemma_same_elements_map;
use crate::bags::same_elements;
use crate::error::Error;
use crate::join_laws::law_join_is_selected_product;
use crate::lemmas::lemma_filter_agree;
use crate::model::Formula;
use crate::model::Name;
use crate::model::Relation;
use crate::model::Row;
use crate::model::absent_from;
use crate::model::cross;
use crate::model::decidable;
use crate::model::except;
use crate::model::gathers;
use crate::model::holds;
use crate::model::join;
use crate::model::keeps;
use crate::model::prefixed;
use crate::model::product;
use crate::model::project;
use crate::model::rename;
use crate::model::row_fits;
use crate::model::rows_fit;
use crate::model::scoped;
use crate::model::select;
use crate::model::select_project_rename;
use crate::model::union;

verus! {

/// Two tables with the same schema and the same rows, each as often, in
/// whatever order.
pub open spec fn same_table(a: Relation, b: Relation) -> bool {
    a.columns == b.columns && same_elements(a.rows, b.rows)
}

/// Two outcomes of an evaluation that differ in the order of the rows at
/// most: the same error, or tables with the same schema and the same rows.
pub open spec fn alike(x: Result<Relation, Error>, y: Result<Relation, Error>) -> bool {
    match (x, y) {
        (Ok(a), Ok(b)) => same_table(a, b),
        (Err(e1), Err(e2)) => e1 == e2,
        _ => false,
    }
}

/// Being alike is transitive.
pub proof fn lemma_alike_trans(
    x: Result<Relation, Error>,
    y: Result<Relation, Error>,
    z: Result<Relation, Error>,
)
    requires
        alike(x, y),
        alike(y, z),
    ensures
        alike(x, z),
{
}

/// Rows that fit a schema, in another order, fit it.
pub proof fn lemma_same_elements_fit(s: Seq<Row>, t: Seq<Row>, width: nat)
    requires
        same_elements(s, t),
        rows_fit(s, width),
    ensures
        rows_fit(t, width),
{
    assert forall|i: int| 0 <= i < t.len() implies row_fits(#[trigger] t[i], width) by {
        assert(t.contains(t[i]));
        lemma_same_elements_contains(s, t, t[i]);
        let j = choose|j: int| 0 <= j < s.len() && s[j] == t[i];
        assert(row_fits(s[j], width));
    }
}

/// A condition that can be evaluated on rows can be evaluated on the same
/// rows in another order.
pub proof fn lemma_same_elements_decidable(s: Seq<Row>, t: Seq<Row>, columns: Seq<Name>, c: Formula)
    requires
        same_elements(s, t),
    ensures
        decidable(s, columns, c) == decidable(t, columns, c),
{
    if decidable(s, columns, c) {
        assert forall|i: int| 0 <= i < t.len() implies (#[trigger] holds(t[i], columns, c)) is Ok by {
            assert(t.contains(t[i]));
            lemma_same_elements_contains(s, t, t[i]);
            let j = choose|j: int| 0 <= j < s.len() && s[j] == t[i];
            assert(holds(s[j], columns, c) is Ok);
        }
    }
    if decidable(t, columns, c) {
        assert forall|i: int| 0 <= i < s.len() implies (#[trigger] holds(s[i], columns, c)) is Ok by {
            assert(s.contains(s[i]));
            lemma_same_elements_contains(s, t, s[i]);
            let j = choose|j: int| 0 <= j < t.len() && t[j] == s[i];
            assert(holds(t[j], columns, c) is Ok);
        }
    }
}

/// Selections of tables that are alike are alike.
pub proof fn lemma_select_alike(a: Relation, b: Relation, c: Formula)
    requires
        same_table(a, b),
    ensures
        alike(select(a, c), select(b, c)),
{
    lemma_same_elements_decidable(a.rows, b.rows, a.columns, c);
    lemma_same_elements_filter(a.rows, b.rows, keeps(a.columns, c));
}

/// Projections of tables that are alike are alike.
pub proof fn lemma_project_alike(a: Relation, b: Relation, targets: Seq<Name>)
    requires
        same_table(a, b),
    ensures
        alike(project(a, targets), project(b, targets)),
{
    lemma_same_elements_map(a.rows, b.rows, gathers(a.columns, targets));
}

/// Renamings of tables that are alike are alike.
pub proof fn lemma_rename_alike(a: Relation, b: Relation, old: Seq<Name>, new: Seq<Name>)
    requires
        same_table(a, b),
    ensures
        alike(rename(a, old, new), rename(b, old, new)),
{
}

/// What a fused node makes of tables that are alike is alike.
pub proof fn lemma_select_project_rename_alike(
    a: Relation,
    b: Relation,
    c: Formula,
    old: Seq<Name>,
    new: Seq<Name>,
)
    requires
        same_table(a, b),
    ensures
        alike(select_project_rename(a, c, old, new), select_project_rename(b, c, old, new)),
{
    lemma_select_alike(a, b, c);
    if let Ok(x) = select(a, c) {
        let y = select(b, c)->Ok_0;
        lemma_project_alike(x, y, old);
        if let Ok(u) = project(x, old) {
            let v = project(y, old)->Ok_0;
            lemma_rename_alike(u, v, old, new);
        }
    }
}

/// The cross product with the right rows in another order.
proof fn lemma_cross_right(left: Seq<Row>, right: Seq<Row>, other: Seq<Row>)
    requires
        same_elements(right, other),
    ensures
        same_elements(cross(left, right), cross(left, other)),
    decreases left.len(),
{
    if left.len() > 0 {
        lemma_cross_right(left.drop_last(), right, other);
        lemma_same_elements_map(right, other, prefixed(left.last()));
        lemma_same_elements_add(
            cross(left.drop_last(), right),
            right.map_values(prefixed(left.last())),
            cross(left.drop_last(), other),
            other.map_values(prefixed(left.last())),
        );
    }
}

/// The cross product with one left row taken out.
proof fn lemma_cross_remove(left: Seq<Row>, i: int, right: Seq<Row>)
    requires
        0 <= i < left.len(),
    ensures
        cross(left, right).to_multiset() =~= cross(left.remove(i), right).to_multiset().add(
            right.map_values(prefixed(left[i])).to_multiset(),
        ),
    decreases left.len(),
{
    broadcast use vstd::multiset::group_multiset_axioms;

    let init = left.drop_last();
    let l = left.last();
    lemma_elements_add(cross(init, right), right.map_values(prefixed(l)));
    if i == left.len() - 1 {
        assert(left.remove(i) =~= init);
    } else {
        lemma_cross_remove(init, i, right);
        assert(left.remove(i).drop_last() =~= init.remove(i));
        assert(left.remove(i).last() == l);
        assert(init[i] == left[i]);
        lemma_elements_add(cross(init.remove(i), right), right.map_values(prefixed(l)));
    }
}

/// The cross product with the left rows in another order.
proof fn lemma_cross_left(left: Seq<Row>, other: Seq<Row>, right: Seq<Row>)
    requires
        same_elements(left, other),
    ensures
        same_elements(cross(left, right), cross(other, right)),
    decreases left.len(),
{
    broadcast use vstd::seq_lib::group_to_multiset_ensures;
    broadcast use vstd::multiset::group_multiset_axioms;

    lemma_same_elements_len(left, other);
    if left.len() > 0 {
        let e = left.last();
        let rest = left.drop_last();
        assert(rest.push(e) =~= left);
        to_multiset_build(rest, e);
        assert(left.to_multiset().count(e) > 0);
        assert(other.contains(e));
        let i = choose|i: int| 0 <= i < other.len() && other[i] == e;
        to_multiset_remove(other, i);
        assert(rest.to_multiset() =~= left.to_multiset().remove(e));
        assert(same_elements(rest, other.remove(i)));
        lemma_cross_left(rest, other.remove(i), right);
        lemma_cross_remove(other, i, right);
        lemma_elements_add(cross(rest, right), right.map_values(prefixed(e)));
    }
}

/// Cross products of tables that are alike are alike.
pub proof fn lemma_product_alike(a: Relation, b: Relation, x: Relation, y: Relation)
    requires
        same_table(a, x),
        same_table(b, y),
    ensures
        alike(product(a, b), product(x, y)),
{
    lemma_cross_right(a.rows, b.rows, y.rows);
    lemma_cross_left(a.rows, x.rows, y.rows);
}

/// Differences of tables that are alike are alike.
pub proof fn lemma_except_alike(a: Relation, b: Relation, x: Relation, y: Relation)
    requires
        same_table(a, x),
        same_table(b, y),
    ensures
        same_table(except(a, b), except(x, y)),
{
    assert forall|i: int| 0 <= i < x.rows.len() implies absent_from(b.rows)(#[trigger] x.rows[i])
        == absent_from(y.rows)(x.rows[i]) by {
        lemma_same_elements_contains(b.rows, y.rows, x.rows[i]);
    }
    lemma_filter_agree(x.rows, absent_from(b.rows), absent_from(y.rows));
    lemma_same_elements_filter(a.rows, x.rows, absent_from(b.rows));
}

/// Unions of tables that are alike are alike.
pub proof fn lemma_union_alike(a: Relation, b: Relation, x: Relation, y: Relation)
    requires
        same_table(a, x),
        same_table(b, y),
    ensures
        alike(union(a, b), union(x, y)),
{
    lemma_same_elements_map(b.rows, y.rows, gathers(b.columns, a.columns));
    lemma_same_elements_add(
        a.rows,
        b.rows.map_values(gathers(b.columns, a.columns)),
        x.rows,
        y.rows.map_values(gathers(b.columns, a.columns)),
    );
}

/// The fused join of two tables is alike the selection over the cross
/// product of two tables alike them, projected and renamed alike.
pub proof fn lemma_join_alike_chain(
    a: Relation,
    b: Relation,
    x: Relation,
    y: Relation,
    c: Formula,
    old: Seq<Name>,
    new: Seq<Name>,
)
    requires
        a.wf(),
        b.wf(),
        same_table(a, x),
        same_table(b, y),
        scoped(c, a.columns + b.columns),
    ensures
        alike(
            join(a, b, c, old, new),
            match product(x, y) {
                Ok(wide) => select_project_rename(wide, c, old, new),
                Err(e) => Err(e),
            },
        ),
{
    law_join_is_selected_product(a, b, c, old, new);
    lemma_product_alike(a, b, x, y);
    if let Ok(wide) = product(a, b) {
        let other = product(x, y)->Ok_0;
        lemma_select_project_rename_alike(wide, other, c, old, new);
    }
}

} // verus!
