//! Tables that are projections of other tables, and the operators on
//! them: what stays true when columns are dropped or change places.

use vstd::prelude::*;
use crate::join_laws::lemma_columns_distinct;
use crate::join_laws::lemma_scoped_decidable;
use crate::laws::lemma_project_wf;
use crate::laws::lemma_rename_from_distinct;
use crate::lemmas::lemma_filter_fits;
use crate::lemmas::lemma_filter_map;
use crate::model::Formula;
use crate::model::Name;
use crate::model::Relation;
use crate::model::Row;
use crate::model::clash;
use crate::model::cross;
use crate::model::gather;
use crate::model::gathers;
use crate::model::keeps;
use crate::model::prefixed;
use crate::model::product;
use crate::model::project;
use crate::model::projectable;
use crate::model::rename;
use crate::model::rename_from;
use crate::model::rename_one;
use crate::model::row_fits;
use crate::model::rows_fit;
use crate::model::same_names;
use crate::model::scoped;
use crate::model::select;
use crate::model::union;
use crate::selection_laws::lemma_holds_gather;
use crate::table::lemma_index_of_unique;
use crate::typing::lemma_add_contains;
use crate::typing::lemma_scoped_widen;

verus! {

/// `r` is the projection of `t` onto the columns of `r`: it names some
/// columns of `t`, each once, in whatever order, and has the rows of `t`,
/// in their order, with the cells of those columns.
pub open spec fn projection_of(t: Relation, r: Relation) -> bool {
    &&& t.wf()
    &&& projectable(t.columns, r.columns)
    &&& r.rows == t.rows.map_values(gathers(t.columns, r.columns))
}

/// A projection of a well-formed table is well formed.
pub proof fn lemma_projection_wf(t: Relation, r: Relation)
    requires
        projection_of(t, r),
    ensures
        r.wf(),
{
    lemma_project_wf(t, r.columns);
}

/// Projecting a projected row is projecting the row.
pub proof fn lemma_gather_gather(row: Row, columns: Seq<Name>, middle: Seq<Name>, targets: Seq<Name>)
    requires
        projectable(columns, middle),
        projectable(middle, targets),
        row.len() == columns.len(),
    ensures
        gather(gather(row, columns, middle), middle, targets) == gather(row, columns, targets),
        projectable(columns, targets),
{
    assert forall|i: int| 0 <= i < targets.len() implies columns.contains(#[trigger] targets[i])
        && gather(gather(row, columns, middle), middle, targets)[i] == gather(
        row,
        columns,
        targets,
    )[i] by {
        assert(middle.contains(targets[i]));
        let j = middle.index_of(targets[i]);
        assert(middle[j] == targets[i]);
        assert(columns.contains(middle[j]));
    }
    assert(gather(gather(row, columns, middle), middle, targets) =~= gather(row, columns, targets));
}

/// A projection of a projection of a table is a projection of the table.
pub proof fn lemma_projection_trans(t: Relation, r: Relation, u: Relation)
    requires
        projection_of(t, r),
        projection_of(r, u),
    ensures
        projection_of(t, u),
{
    assert forall|i: int| 0 <= i < t.rows.len() implies #[trigger] u.rows[i] == gather(
        t.rows[i],
        t.columns,
        u.columns,
    ) by {
        assert(row_fits(t.rows[i], t.columns.len()));
        lemma_gather_gather(t.rows[i], t.columns, r.columns, u.columns);
    }
    assert(u.rows =~= t.rows.map_values(gathers(t.columns, u.columns)));
    if t.rows.len() == 0 {
        assert forall|i: int| 0 <= i < u.columns.len() implies t.columns.contains(
            #[trigger] u.columns[i],
        ) by {
            assert(r.columns.contains(u.columns[i]));
            let j = r.columns.index_of(u.columns[i]);
            assert(t.columns.contains(r.columns[j]));
        }
    } else {
        assert(row_fits(t.rows[0], t.columns.len()));
        lemma_gather_gather(t.rows[0], t.columns, r.columns, u.columns);
    }
}

/// Selecting from a projection is projecting the selection.
pub proof fn lemma_view_select(t: Relation, r: Relation, c: Formula)
    requires
        projection_of(t, r),
        scoped(c, r.columns),
    ensures
        select(t, c) is Ok,
        select(r, c) is Ok,
        projection_of(select(t, c)->Ok_0, select(r, c)->Ok_0),
{
    lemma_projection_wf(t, r);
    lemma_scoped_widen(c, r.columns, t.columns);
    lemma_scoped_decidable(t.rows, t.columns, c);
    lemma_scoped_decidable(r.rows, r.columns, c);
    lemma_filter_fits(t.rows, keeps(t.columns, c), t.columns.len());
    assert forall|i: int| 0 <= i < t.rows.len() implies keeps(r.columns, c)(
        gathers(t.columns, r.columns)(#[trigger] t.rows[i]),
    ) == keeps(t.columns, c)(t.rows[i]) by {
        assert(row_fits(t.rows[i], t.columns.len()));
        lemma_holds_gather(t.rows[i], t.columns, r.columns, c);
    }
    lemma_filter_map(
        t.rows,
        keeps(t.columns, c),
        gathers(t.columns, r.columns),
        keeps(r.columns, c),
    );
}

/// Projecting a projection onto columns is projecting the table onto them.
pub proof fn lemma_view_project(t: Relation, r: Relation, targets: Seq<Name>)
    requires
        projection_of(t, r),
        projectable(r.columns, targets),
    ensures
        project(r, targets) == project(t, targets),
        project(t, targets) is Ok,
{
    let u = project(r, targets)->Ok_0;
    lemma_projection_wf(t, r);
    lemma_projection_trans(t, r, u);
}

/// Renaming steps move no column: a column of a projection is found at
/// the same place of the table before and after the steps.
proof fn lemma_view_rename_from(
    columns: Seq<Name>,
    part: Seq<Name>,
    old: Seq<Name>,
    new: Seq<Name>,
    from: int,
)
    requires
        0 <= from,
        columns.no_duplicates(),
        projectable(columns, part),
        rename_from(columns, old, new, from) is Ok,
        rename_from(part, old, new, from) is Ok,
    ensures
        projectable(
            rename_from(columns, old, new, from)->Ok_0,
            rename_from(part, old, new, from)->Ok_0,
        ),
        rename_from(part, old, new, from)->Ok_0.len() == part.len(),
        forall|i: int|
            0 <= i < part.len() ==> rename_from(columns, old, new, from)->Ok_0.index_of(
                #[trigger] rename_from(part, old, new, from)->Ok_0[i],
            ) == columns.index_of(part[i]),
    decreases old.len() - from,
{
    lemma_rename_from_distinct(part, old, new, from);
    if from < old.len() && from < new.len() {
        let o = old[from];
        let n = new[from];
        let next = rename_one(columns, o, n)->Ok_0;
        let next_part = rename_one(part, o, n)->Ok_0;
        let p = columns.index_of(o);
        let q = part.index_of(o);
        lemma_step_distinct(columns, o, n);
        lemma_step_distinct(part, o, n);
        assert forall|i: int| 0 <= i < next_part.len() implies next.contains(
            #[trigger] next_part[i],
        ) && next.index_of(next_part[i]) == columns.index_of(part[i]) by {
            assert(columns.contains(part[i]));
            let k = columns.index_of(part[i]);
            if i == q {
                lemma_index_of_unique(columns, o, k);
                assert(next[p] == n);
                lemma_index_of_unique(next, n, p);
            } else {
                assert(part[i] != part[q]);
                assert(k != p);
                assert(next[k] == part[i]);
                lemma_index_of_unique(next, part[i], k);
            }
        }
        lemma_view_rename_from(next, next_part, old, new, from + 1);
        let last = rename_from(columns, old, new, from)->Ok_0;
        let last_part = rename_from(part, old, new, from)->Ok_0;
        lemma_rename_from_distinct(next_part, old, new, from + 1);
        assert forall|i: int| 0 <= i < part.len() implies last.index_of(#[trigger] last_part[i])
            == columns.index_of(part[i]) by {
            assert(last.index_of(last_part[i]) == next.index_of(next_part[i]));
        }
    }
}

/// One renaming step names no column twice.
pub proof fn lemma_step_distinct(columns: Seq<Name>, o: Name, n: Name)
    requires
        columns.no_duplicates(),
        rename_one(columns, o, n) is Ok,
    ensures
        rename_one(columns, o, n)->Ok_0.no_duplicates(),
{
    let next = rename_one(columns, o, n)->Ok_0;
    let p = columns.index_of(o);
    assert forall|a: int, b: int| 0 <= a < next.len() && 0 <= b < next.len() && a != b implies next[a]
        != next[b] by {
        if a != p && b != p {
            assert(columns[a] != columns[b]);
        } else if a == p {
            assert(columns[b] != columns[p]);
        } else {
            assert(columns[a] != columns[p]);
        }
    }
}

/// Renaming a projection is projecting the renamed table, where both
/// renamings are legal.
pub proof fn lemma_view_rename(t: Relation, r: Relation, old: Seq<Name>, new: Seq<Name>)
    requires
        projection_of(t, r),
        rename(t, old, new) is Ok,
        rename(r, old, new) is Ok,
    ensures
        projection_of(rename(t, old, new)->Ok_0, rename(r, old, new)->Ok_0),
{
    let t2 = rename(t, old, new)->Ok_0;
    let r2 = rename(r, old, new)->Ok_0;
    lemma_view_rename_from(t.columns, r.columns, old, new, 0);
    lemma_rename_from_distinct(t.columns, old, new, 0);
    assert forall|k: int| 0 <= k < t.rows.len() implies #[trigger] r.rows[k] == gather(
        t.rows[k],
        t2.columns,
        r2.columns,
    ) by {
        assert(gather(t.rows[k], t.columns, r.columns) =~= gather(t.rows[k], t2.columns, r2.columns));
    }
    assert(r2.rows =~= t2.rows.map_values(gathers(t2.columns, r2.columns)));
}

/// Projecting a left row followed by a right row onto left columns
/// followed by right columns is projecting each row and putting the
/// results one after the other.
proof fn lemma_gather_add(
    l: Row,
    r: Row,
    left: Seq<Name>,
    right: Seq<Name>,
    part_left: Seq<Name>,
    part_right: Seq<Name>,
)
    requires
        (left + right).no_duplicates(),
        projectable(left, part_left),
        projectable(right, part_right),
        l.len() == left.len(),
        r.len() == right.len(),
    ensures
        gather(l + r, left + right, part_left + part_right) == gather(l, left, part_left) + gather(
            r,
            right,
            part_right,
        ),
{
    let all = left + right;
    let part = part_left + part_right;
    assert forall|i: int| 0 <= i < part.len() implies gather(l + r, all, part)[i] == (gather(
        l,
        left,
        part_left,
    ) + gather(r, right, part_right))[i] by {
        if i < part_left.len() {
            let n = part_left[i];
            assert(left.contains(n));
            let k = left.index_of(n);
            assert(all[k] == n);
            lemma_index_of_unique(all, n, k);
            assert((l + r)[k] == l[k]);
        } else {
            let n = part_right[i - part_left.len()];
            assert(right.contains(n));
            let k = right.index_of(n);
            assert(all[left.len() + k] == n);
            lemma_index_of_unique(all, n, left.len() + k);
            assert((l + r)[left.len() + k] == r[k]);
        }
    }
    assert(gather(l + r, all, part) =~= gather(l, left, part_left) + gather(r, right, part_right));
}

/// The cross product of projected rows is the projected cross product.
proof fn lemma_cross_map(
    rows1: Seq<Row>,
    rows2: Seq<Row>,
    left: Seq<Name>,
    right: Seq<Name>,
    part_left: Seq<Name>,
    part_right: Seq<Name>,
)
    requires
        (left + right).no_duplicates(),
        projectable(left, part_left),
        projectable(right, part_right),
        rows_fit(rows1, left.len()),
        rows_fit(rows2, right.len()),
    ensures
        cross(
            rows1.map_values(gathers(left, part_left)),
            rows2.map_values(gathers(right, part_right)),
        ) == cross(rows1, rows2).map_values(gathers(left + right, part_left + part_right)),
    decreases rows1.len(),
{
    let g1 = gathers(left, part_left);
    let g2 = gathers(right, part_right);
    let g = gathers(left + right, part_left + part_right);
    if rows1.len() == 0 {
        assert(rows1.map_values(g1) =~= Seq::<Row>::empty());
        assert(cross(rows1, rows2).map_values(g) =~= Seq::<Row>::empty());
    } else {
        let init = rows1.drop_last();
        let l = rows1.last();
        assert(rows1[rows1.len() - 1] == l);
        assert(row_fits(l, left.len()));
        assert forall|i: int| 0 <= i < init.len() implies row_fits(#[trigger] init[i], left.len()) by {
            assert(init[i] == rows1[i]);
        }
        lemma_cross_map(init, rows2, left, right, part_left, part_right);
        assert(rows1.map_values(g1).drop_last() =~= init.map_values(g1));
        assert(rows1.map_values(g1).last() == g1(l));
        let with_l = rows2.map_values(prefixed(l));
        assert forall|j: int| 0 <= j < rows2.len() implies #[trigger] rows2.map_values(
            g2,
        ).map_values(prefixed(g1(l)))[j] == with_l.map_values(g)[j] by {
            assert(row_fits(rows2[j], right.len()));
            lemma_gather_add(l, rows2[j], left, right, part_left, part_right);
        }
        assert(rows2.map_values(g2).map_values(prefixed(g1(l))) =~= with_l.map_values(g));
        assert((cross(init, rows2) + with_l).map_values(g) =~= cross(init, rows2).map_values(g)
            + with_l.map_values(g));
    }
}

/// Left columns followed by right columns can be projected onto a part of
/// the left followed by a part of the right.
proof fn lemma_projectable_add(left: Seq<Name>, right: Seq<Name>, part_left: Seq<Name>, part_right: Seq<Name>)
    requires
        left.no_duplicates(),
        right.no_duplicates(),
        !clash(left, right),
        projectable(left, part_left),
        projectable(right, part_right),
    ensures
        !clash(part_left, part_right),
        projectable(left + right, part_left + part_right),
{
    if clash(part_left, part_right) {
        let i = choose|i: int| 0 <= i < part_left.len() && part_right.contains(#[trigger] part_left[i]);
        let n = part_left[i];
        assert(left.contains(n));
        let j = choose|j: int| 0 <= j < part_right.len() && part_right[j] == n;
        assert(right.contains(part_right[j]));
        let k = left.index_of(n);
        assert(right.contains(left[k]));
    }
    lemma_columns_distinct(part_left, part_right);
    let part = part_left + part_right;
    assert forall|i: int| 0 <= i < part.len() implies (left + right).contains(#[trigger] part[i]) by {
        lemma_add_contains(left, right, part[i]);
        if i < part_left.len() {
            assert(left.contains(part_left[i]));
        } else {
            assert(right.contains(part_right[i - part_left.len()]));
        }
    }
}

/// The cross product of projections is a projection of the cross product.
pub proof fn lemma_view_product(t1: Relation, r1: Relation, t2: Relation, r2: Relation)
    requires
        projection_of(t1, r1),
        projection_of(t2, r2),
        !clash(t1.columns, t2.columns),
    ensures
        product(t1, t2) is Ok,
        product(r1, r2) is Ok,
        projection_of(product(t1, t2)->Ok_0, product(r1, r2)->Ok_0),
{
    lemma_projectable_add(t1.columns, t2.columns, r1.columns, r2.columns);
    lemma_columns_distinct(t1.columns, t2.columns);
    lemma_cross_map(t1.rows, t2.rows, t1.columns, t2.columns, r1.columns, r2.columns);
    crate::laws::lemma_product_wf(t1, t2);
}

/// The union of projections onto the same columns is a projection of the
/// union.
pub proof fn lemma_view_union(t1: Relation, r1: Relation, t2: Relation, r2: Relation)
    requires
        projection_of(t1, r1),
        projection_of(t2, r2),
        same_names(t1.columns, t2.columns),
        same_names(r1.columns, r2.columns),
    ensures
        projection_of(union(t1, t2)->Ok_0, union(r1, r2)->Ok_0),
{
    let t = union(t1, t2)->Ok_0;
    let r = union(r1, r2)->Ok_0;
    crate::laws::lemma_union_wf(t1, t2);
    let to_r1 = gathers(t1.columns, r1.columns);
    let back1 = gathers(t2.columns, t1.columns);
    let to_r2 = gathers(t2.columns, r2.columns);
    let back2 = gathers(r2.columns, r1.columns);
    assert(projectable(t2.columns, t1.columns));
    assert(projectable(r2.columns, r1.columns));
    assert forall|i: int| 0 <= i < t2.rows.len() implies #[trigger] t2.rows.map_values(
        to_r2,
    ).map_values(back2)[i] == t2.rows.map_values(back1).map_values(to_r1)[i] by {
        let row = t2.rows[i];
        assert(row_fits(row, t2.columns.len()));
        lemma_gather_gather(row, t2.columns, r2.columns, r1.columns);
        lemma_gather_gather(row, t2.columns, t1.columns, r1.columns);
    }
    assert(t2.rows.map_values(to_r2).map_values(back2) =~= t2.rows.map_values(back1).map_values(
        to_r1,
    ));
    assert((t1.rows + t2.rows.map_values(back1)).map_values(to_r1) =~= t1.rows.map_values(to_r1)
        + t2.rows.map_values(back1).map_values(to_r1));
}

} // verus!
