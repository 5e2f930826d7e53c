//! The hash join against its oracle: the selection over the cross product.

use vstd::prelude::*;
use vstd::seq_lib::to_multiset_build;
use crate::bags::lemma_elements_add;
use crate::bags::lemma_same_elements_map;
use crate::bags::same_elements;
use crate::error::Error;
use crate::lemmas::lemma_concat_fits;
use crate::lemmas::lemma_filter_push;
use crate::lemmas::lemma_joined_fits;
use crate::model::Formula;
use crate::model::Name;
use crate::model::Relation;
use crate::model::Row;
use crate::model::clash;
use crate::model::cross;
use crate::model::decidable;
use crate::model::equi_pairs;
use crate::model::gathers;
use crate::model::holds;
use crate::model::is_equi_pair;
use crate::model::join;
use crate::model::joined;
use crate::model::keeps;
use crate::model::keyed;
use crate::model::left_key;
use crate::model::operand;
use crate::model::prefixed;
use crate::model::probe;
use crate::model::product;
use crate::model::projectable;
use crate::model::residual;
use crate::model::right_key;
use crate::model::row_fits;
use crate::model::rows_fit;
use crate::model::scoped;
use crate::model::select_project_rename;
use crate::model::suffixed;
use crate::table::lemma_index_of_unique;

verus! {

/// A condition whose columns are all in the schema can be evaluated on
/// every row that has a cell for each column.
pub proof fn lemma_scoped_decides(row: Row, columns: Seq<Name>, c: Formula)
    requires
        scoped(c, columns),
        row.len() == columns.len(),
    ensures
        holds(row, columns, c) is Ok,
    decreases c,
{
    match c {
        Formula::Not(a) => {
            lemma_scoped_decides(row, columns, *a);
        },
        Formula::And(a, b) => {
            lemma_scoped_decides(row, columns, *a);
            lemma_scoped_decides(row, columns, *b);
        },
        Formula::Or(a, b) => {
            lemma_scoped_decides(row, columns, *a);
            lemma_scoped_decides(row, columns, *b);
        },
        Formula::Equal(x, y) => {
            assert(operand(row, columns, x) is Ok);
            assert(operand(row, columns, y) is Ok);
        },
        Formula::Less(x, y) => {
            assert(operand(row, columns, x) is Ok);
            assert(operand(row, columns, y) is Ok);
        },
        Formula::More(x, y) => {
            assert(operand(row, columns, x) is Ok);
            assert(operand(row, columns, y) is Ok);
        },
        _ => {},
    }
}

/// The residual of a condition refers to columns of the condition only.
pub proof fn lemma_residual_scoped(c: Formula, left: Seq<Name>, right: Seq<Name>)
    requires
        scoped(c, left + right),
    ensures
        scoped(residual(c, left, right), left + right),
    decreases c,
{
    match c {
        Formula::And(a, b) => {
            lemma_residual_scoped(*a, left, right);
            lemma_residual_scoped(*b, left, right);
        },
        _ => {},
    }
}

/// The positions of the equi-join pairs of a condition are positions of
/// the two schemas.
pub proof fn lemma_pairs_within(c: Formula, left: Seq<Name>, right: Seq<Name>)
    ensures
        crate::model::pairs_within(equi_pairs(c, left, right), left.len(), right.len()),
    decreases c,
{
    match c {
        Formula::And(a, b) => {
            lemma_pairs_within(*a, left, right);
            lemma_pairs_within(*b, left, right);
        },
        _ => {},
    }
}

/// The keys over two lists of pairs, one after the other, agree exactly
/// when the keys over each list agree.
proof fn lemma_keys_split(l: Row, r: Row, p: Seq<(int, int)>, q: Seq<(int, int)>)
    ensures
        (left_key(l, p + q) == right_key(r, p + q)) == (left_key(l, p) == right_key(r, p)
            && left_key(l, q) == right_key(r, q)),
{
    let all = p + q;
    if left_key(l, all) == right_key(r, all) {
        assert forall|k: int| 0 <= k < p.len() implies left_key(l, p)[k] == right_key(r, p)[k] by {
            assert(all[k] == p[k]);
            assert(left_key(l, all)[k] == right_key(r, all)[k]);
        }
        assert(left_key(l, p) =~= right_key(r, p));
        assert forall|k: int| 0 <= k < q.len() implies left_key(l, q)[k] == right_key(r, q)[k] by {
            assert(all[p.len() + k] == q[k]);
            assert(left_key(l, all)[p.len() + k] == right_key(r, all)[p.len() + k]);
        }
        assert(left_key(l, q) =~= right_key(r, q));
    }
    if left_key(l, p) == right_key(r, p) && left_key(l, q) == right_key(r, q) {
        assert forall|k: int| 0 <= k < all.len() implies left_key(l, all)[k] == right_key(
            r,
            all,
        )[k] by {
            if k < p.len() {
                assert(all[k] == p[k]);
                assert(left_key(l, p)[k] == right_key(r, p)[k]);
            } else {
                assert(all[k] == q[k - p.len()]);
                assert(left_key(l, q)[k - p.len()] == right_key(r, q)[k - p.len()]);
            }
        }
        assert(left_key(l, all) =~= right_key(r, all));
    }
}

/// On a left row followed by a right row, a condition holds exactly when
/// the two rows have the same key and the residual condition holds.
pub proof fn lemma_join_row(l: Row, r: Row, left: Seq<Name>, right: Seq<Name>, c: Formula)
    requires
        left.no_duplicates(),
        right.no_duplicates(),
        !clash(left, right),
        row_fits(l, left.len()),
        row_fits(r, right.len()),
        scoped(c, left + right),
    ensures
        (holds(l + r, left + right, c) == Ok::<bool, Error>(true)) == (left_key(
            l,
            equi_pairs(c, left, right),
        ) == right_key(r, equi_pairs(c, left, right)) && holds(
            l + r,
            left + right,
            residual(c, left, right),
        ) == Ok::<bool, Error>(true)),
    decreases c,
{
    let columns = left + right;
    let row = l + r;
    let pairs = equi_pairs(c, left, right);
    match c {
        Formula::And(a, b) => {
            lemma_join_row(l, r, left, right, *a);
            lemma_join_row(l, r, left, right, *b);
            lemma_keys_split(l, r, equi_pairs(*a, left, right), equi_pairs(*b, left, right));
        },
        _ => {
            if is_equi_pair(c, left, right) {
                let f1 = c->Equal_0->Column_0;
                let f2 = c->Equal_1->Column_0;
                lemma_columns_distinct(left, right);
                if left.contains(f1) && right.contains(f2) {
                    let i = left.index_of(f1);
                    let j = right.index_of(f2);
                    assert(columns[i] == f1);
                    assert(columns[left.len() + j] == f2);
                    lemma_index_of_unique(columns, f1, i);
                    lemma_index_of_unique(columns, f2, left.len() + j);
                    assert(row[i] == l[i]);
                    assert(row[left.len() + j] == r[j]);
                    assert(!(l[i] is Column));
                    assert(!(r[j] is Column));
                    assert(pairs =~= seq![(i, j)]);
                    assert(left_key(l, pairs)[0] == l[i]);
                    assert(right_key(r, pairs)[0] == r[j]);
                    if l[i] == r[j] {
                        assert(left_key(l, pairs) =~= right_key(r, pairs));
                    }
                } else {
                    let i = left.index_of(f2);
                    let j = right.index_of(f1);
                    assert(columns[i] == f2);
                    assert(columns[left.len() + j] == f1);
                    lemma_index_of_unique(columns, f2, i);
                    lemma_index_of_unique(columns, f1, left.len() + j);
                    assert(row[i] == l[i]);
                    assert(row[left.len() + j] == r[j]);
                    assert(!(l[i] is Column));
                    assert(!(r[j] is Column));
                    assert(pairs =~= seq![(i, j)]);
                    assert(left_key(l, pairs)[0] == l[i]);
                    assert(right_key(r, pairs)[0] == r[j]);
                    if l[i] == r[j] {
                        assert(left_key(l, pairs) =~= right_key(r, pairs));
                    }
                }
            } else {
                assert(pairs =~= Seq::<(int, int)>::empty());
                assert(left_key(l, pairs) =~= right_key(r, pairs));
            }
        },
    }
}

/// Two schemas without a common name, one after the other, name no column
/// twice.
pub proof fn lemma_columns_distinct(left: Seq<Name>, right: Seq<Name>)
    requires
        left.no_duplicates(),
        right.no_duplicates(),
        !clash(left, right),
    ensures
        (left + right).no_duplicates(),
{
    let all = left + right;
    assert forall|a: int, b: int| 0 <= a < all.len() && 0 <= b < all.len() && a != b implies all[a]
        != all[b] by {
        if a < left.len() && b >= left.len() {
            assert(right[b - left.len()] == all[b]);
            assert(right.contains(all[b]));
            assert(left[a] == all[a]);
        } else if b < left.len() && a >= left.len() {
            assert(right[a - left.len()] == all[a]);
            assert(right.contains(all[a]));
            assert(left[b] == all[b]);
        } else if a < left.len() {
            assert(left[a] != left[b]);
        } else {
            assert(right[a - left.len()] != right[b - left.len()]);
        }
    }
}

/// What one right row adds to the hash join, filtered by the residual
/// condition, is what it adds to the cross product, filtered by the whole
/// condition.
proof fn lemma_probe_is_filtered_pairs(
    rows: Seq<Row>,
    r: Row,
    left: Seq<Name>,
    right: Seq<Name>,
    c: Formula,
)
    requires
        left.no_duplicates(),
        right.no_duplicates(),
        !clash(left, right),
        rows_fit(rows, left.len()),
        row_fits(r, right.len()),
        scoped(c, left + right),
    ensures
        probe(rows, r, equi_pairs(c, left, right)).filter(
            keeps(left + right, residual(c, left, right)),
        ) == rows.map_values(suffixed(r)).filter(keeps(left + right, c)),
    decreases rows.len(),
{
    reveal(Seq::filter);
    let pairs = equi_pairs(c, left, right);
    let same = keyed(right_key(r, pairs), pairs);
    let rest_holds = keeps(left + right, residual(c, left, right));
    let all_holds = keeps(left + right, c);
    if rows.len() == 0 {
        assert(rows.filter(same) =~= Seq::<Row>::empty());
        assert(probe(rows, r, pairs) =~= Seq::<Row>::empty());
        assert(rows.map_values(suffixed(r)) =~= Seq::<Row>::empty());
    } else {
        let init = rows.drop_last();
        let l = rows.last();
        assert(rows[rows.len() - 1] == l);
        assert(row_fits(l, left.len()));
        assert forall|i: int| 0 <= i < init.len() implies row_fits(#[trigger] init[i], left.len()) by {
            assert(init[i] == rows[i]);
        }
        lemma_probe_is_filtered_pairs(init, r, left, right, c);
        lemma_join_row(l, r, left, right, c);
        assert(rows.map_values(suffixed(r)) =~= init.map_values(suffixed(r)).push(l + r));
        lemma_filter_push(init.map_values(suffixed(r)), all_holds, l + r);
        if same(l) {
            assert(rows.filter(same) == init.filter(same).push(l));
            assert(probe(rows, r, pairs) =~= probe(init, r, pairs).push(l + r));
            lemma_filter_push(probe(init, r, pairs), rest_holds, l + r);
        } else {
            assert(rows.filter(same) == init.filter(same));
        }
    }
}

/// The cross product with no right row is empty.
proof fn lemma_cross_nothing(left: Seq<Row>)
    ensures
        cross(left, Seq::empty()) == Seq::<Row>::empty(),
    decreases left.len(),
{
    if left.len() > 0 {
        lemma_cross_nothing(left.drop_last());
        assert(Seq::<Row>::empty().map_values(prefixed(left.last())) =~= Seq::<Row>::empty());
        assert(Seq::<Row>::empty() + Seq::<Row>::empty() =~= Seq::<Row>::empty());
    }
}

/// What one more right row adds to the filtered cross product: every left
/// row followed by it, filtered.
proof fn lemma_cross_one_more(left: Seq<Row>, right: Seq<Row>, r: Row, p: spec_fn(Row) -> bool)
    ensures
        cross(left, right.push(r)).filter(p).to_multiset() =~= cross(left, right).filter(
            p,
        ).to_multiset().add(left.map_values(suffixed(r)).filter(p).to_multiset()),
    decreases left.len(),
{
    broadcast use vstd::multiset::group_multiset_axioms;
    broadcast use vstd::seq_lib::group_to_multiset_ensures;

    reveal(Seq::filter);
    let more = right.push(r);
    if left.len() == 0 {
        assert(left.map_values(suffixed(r)) =~= Seq::<Row>::empty());
        assert(cross(left, more).filter(p) =~= Seq::<Row>::empty());
        assert(cross(left, right).filter(p) =~= Seq::<Row>::empty());
        assert(left.map_values(suffixed(r)).filter(p) =~= Seq::<Row>::empty());
        assert(Seq::<Row>::empty().to_multiset().len() == 0);
    } else {
        let init = left.drop_last();
        let l = left.last();
        lemma_cross_one_more(init, right, r, p);
        let with_l = right.map_values(prefixed(l));
        let x = cross(init, more).filter(p);
        let y = more.map_values(prefixed(l)).filter(p);
        let x0 = cross(init, right).filter(p);
        let y0 = with_l.filter(p);
        let tail = init.map_values(suffixed(r)).filter(p);
        let whole = left.map_values(suffixed(r)).filter(p);
        assert(more.map_values(prefixed(l)) =~= with_l.push(l + r));
        Seq::filter_distributes_over_add(cross(init, more), more.map_values(prefixed(l)), p);
        Seq::filter_distributes_over_add(cross(init, right), with_l, p);
        assert(cross(left, more).filter(p) == x + y);
        assert(cross(left, right).filter(p) == x0 + y0);
        lemma_elements_add(x, y);
        lemma_elements_add(x0, y0);
        assert(x.to_multiset() =~= x0.to_multiset().add(tail.to_multiset()));
        lemma_filter_push(with_l, p, l + r);
        assert(left.map_values(suffixed(r)) =~= init.map_values(suffixed(r)).push(l + r));
        lemma_filter_push(init.map_values(suffixed(r)), p, l + r);
        if p(l + r) {
            assert(y == y0.push(l + r));
            assert(whole == tail.push(l + r));
            to_multiset_build(y0, l + r);
            to_multiset_build(tail, l + r);
            assert(y.to_multiset() =~= y0.to_multiset().insert(l + r));
            assert(whole.to_multiset() =~= tail.to_multiset().insert(l + r));
            assert((x + y).to_multiset() =~= (x0 + y0).to_multiset().add(whole.to_multiset()));
        } else {
            assert(y == y0);
            assert(whole == tail);
            assert((x + y).to_multiset() =~= (x0 + y0).to_multiset().add(whole.to_multiset()));
        }
    }
}

/// The rows of the hash join that pass the residual condition are the rows
/// of the cross product that pass the whole condition, each as often.
pub proof fn lemma_join_is_filtered_cross(
    rows1: Seq<Row>,
    rows2: Seq<Row>,
    left: Seq<Name>,
    right: Seq<Name>,
    c: Formula,
)
    requires
        left.no_duplicates(),
        right.no_duplicates(),
        !clash(left, right),
        rows_fit(rows1, left.len()),
        rows_fit(rows2, right.len()),
        scoped(c, left + right),
    ensures
        same_elements(
            joined(rows1, rows2, equi_pairs(c, left, right)).filter(
                keeps(left + right, residual(c, left, right)),
            ),
            cross(rows1, rows2).filter(keeps(left + right, c)),
        ),
    decreases rows2.len(),
{
    broadcast use vstd::multiset::group_multiset_axioms;

    reveal(Seq::filter);
    let pairs = equi_pairs(c, left, right);
    let rest_holds = keeps(left + right, residual(c, left, right));
    let all_holds = keeps(left + right, c);
    if rows2.len() == 0 {
        assert(rows2 =~= Seq::<Row>::empty());
        lemma_cross_nothing(rows1);
    } else {
        let init = rows2.drop_last();
        let r = rows2.last();
        assert(rows2[rows2.len() - 1] == r);
        assert(row_fits(r, right.len()));
        assert forall|i: int| 0 <= i < init.len() implies row_fits(#[trigger] init[i], right.len()) by {
            assert(init[i] == rows2[i]);
        }
        lemma_join_is_filtered_cross(rows1, init, left, right, c);
        lemma_probe_is_filtered_pairs(rows1, r, left, right, c);
        Seq::filter_distributes_over_add(
            joined(rows1, init, pairs),
            probe(rows1, r, pairs),
            rest_holds,
        );
        lemma_elements_add(
            joined(rows1, init, pairs).filter(rest_holds),
            probe(rows1, r, pairs).filter(rest_holds),
        );
        assert(init.push(r) =~= rows2);
        lemma_cross_one_more(rows1, init, r, all_holds);
    }
}

/// The rows of a cross product fit the joined schema.
pub proof fn lemma_cross_fits(left: Seq<Row>, right: Seq<Row>, a: nat, b: nat)
    requires
        rows_fit(left, a),
        rows_fit(right, b),
    ensures
        rows_fit(cross(left, right), a + b),
    decreases left.len(),
{
    if left.len() > 0 {
        let init = left.drop_last();
        let l = left.last();
        assert(left[left.len() - 1] == l);
        assert forall|i: int| 0 <= i < init.len() implies row_fits(#[trigger] init[i], a) by {
            assert(init[i] == left[i]);
        }
        lemma_cross_fits(init, right, a, b);
        let with_l = right.map_values(prefixed(l));
        assert forall|j: int| 0 <= j < with_l.len() implies row_fits(#[trigger] with_l[j], a + b) by {
            assert(row_fits(right[j], b));
            lemma_concat_fits(l, right[j], a, b);
        }
        crate::lemmas::lemma_rows_fit_add(cross(init, right), with_l, a + b);
    }
}

/// A condition whose columns are all in the schema can be evaluated on
/// all rows that fit the schema.
pub proof fn lemma_scoped_decidable(rows: Seq<Row>, columns: Seq<Name>, c: Formula)
    requires
        scoped(c, columns),
        rows_fit(rows, columns.len()),
    ensures
        decidable(rows, columns, c),
{
    assert forall|i: int| 0 <= i < rows.len() implies (#[trigger] holds(rows[i], columns, c)) is Ok by {
        assert(row_fits(rows[i], columns.len()));
        lemma_scoped_decides(rows[i], columns, c);
    }
}

/// The fused join gives what the selection over the cross product gives,
/// projected and renamed alike: the same schema and the same rows, each as
/// often, though in another order; or the same error. The condition must
/// refer to columns of the two tables only.
pub proof fn law_join_is_selected_product(
    a: Relation,
    b: Relation,
    c: Formula,
    old: Seq<Name>,
    new: Seq<Name>,
)
    requires
        a.wf(),
        b.wf(),
        scoped(c, a.columns + b.columns),
    ensures
        match (
            join(a, b, c, old, new),
            match product(a, b) {
                Ok(wide) => select_project_rename(wide, c, old, new),
                Err(e) => Err(e),
            },
        ) {
            (Ok(x), Ok(y)) => x.columns == y.columns && same_elements(x.rows, y.rows),
            (Err(e1), Err(e2)) => e1 == e2,
            _ => false,
        },
{
    if !clash(a.columns, b.columns) {
        let columns = a.columns + b.columns;
        let pairs = equi_pairs(c, a.columns, b.columns);
        let rest = residual(c, a.columns, b.columns);
        let hashed = joined(a.rows, b.rows, pairs);
        let crossed = cross(a.rows, b.rows);
        lemma_joined_fits(a.rows, b.rows, pairs, a.columns.len(), b.columns.len());
        lemma_cross_fits(a.rows, b.rows, a.columns.len(), b.columns.len());
        lemma_residual_scoped(c, a.columns, b.columns);
        lemma_scoped_decidable(hashed, columns, rest);
        lemma_scoped_decidable(crossed, columns, c);
        lemma_join_is_filtered_cross(a.rows, b.rows, a.columns, b.columns, c);
        let x = hashed.filter(keeps(columns, rest));
        let y = crossed.filter(keeps(columns, c));
        if projectable(columns, old) {
            lemma_same_elements_map(x, y, gathers(columns, old));
        }
    }
}

} // verus!
