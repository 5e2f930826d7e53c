//! Facts about sequences that the proofs of the operators share.

use vstd::prelude::*;
use crate::model::Name;
use crate::model::Row;
use crate::model::apply_swaps;
use crate::model::gather;
use crate::model::joined;
use crate::model::keyed;
use crate::model::probe;
use crate::model::projectable;
use crate::model::right_key;
use crate::model::row_fits;
use crate::model::rows_fit;
use crate::model::swap_cells;
use crate::model::swaps_within;

verus! {

/// Filtering one element more either appends it or changes nothing.
pub proof fn lemma_filter_step<A>(s: Seq<A>, p: spec_fn(A) -> bool, i: int)
    requires
        0 <= i < s.len(),
    ensures
        s.take(i + 1).filter(p) == if p(s[i]) {
            s.take(i).filter(p).push(s[i])
        } else {
            s.take(i).filter(p)
        },
{
    reveal(Seq::filter);
    assert(s.take(i + 1).drop_last() =~= s.take(i));
}

/// Filtering a sequence with one element appended.
pub proof fn lemma_filter_push<A>(s: Seq<A>, p: spec_fn(A) -> bool, x: A)
    ensures
        s.push(x).filter(p) == if p(x) {
            s.filter(p).push(x)
        } else {
            s.filter(p)
        },
{
    reveal(Seq::filter);
    assert(s.push(x).drop_last() =~= s);
}

/// Filtering twice is filtering by both predicates.
pub proof fn lemma_filter_twice<A>(s: Seq<A>, p: spec_fn(A) -> bool, q: spec_fn(A) -> bool, both: spec_fn(A) -> bool)
    requires
        forall|x: A| #[trigger] both(x) == (p(x) && q(x)),
    ensures
        s.filter(p).filter(q) == s.filter(both),
    decreases s.len(),
{
    reveal(Seq::filter);
    if s.len() > 0 {
        lemma_filter_twice(s.drop_last(), p, q, both);
        if p(s.last()) {
            lemma_filter_push(s.drop_last().filter(p), q, s.last());
        }
    }
}

/// Two predicates that agree on the elements of a sequence filter it alike.
pub proof fn lemma_filter_agree<A>(s: Seq<A>, p: spec_fn(A) -> bool, q: spec_fn(A) -> bool)
    requires
        forall|i: int| 0 <= i < s.len() ==> p(#[trigger] s[i]) == q(s[i]),
    ensures
        s.filter(p) == s.filter(q),
    decreases s.len(),
{
    reveal(Seq::filter);
    if s.len() > 0 {
        assert forall|i: int| 0 <= i < s.drop_last().len() implies p(#[trigger] s.drop_last()[i])
            == q(s.drop_last()[i]) by {
            assert(s.drop_last()[i] == s[i]);
        }
        lemma_filter_agree(s.drop_last(), p, q);
        assert(s.last() == s[s.len() - 1]);
    }
}

/// A predicate that holds of every element filters nothing out.
pub proof fn lemma_filter_all<A>(s: Seq<A>, p: spec_fn(A) -> bool)
    requires
        forall|i: int| 0 <= i < s.len() ==> p(#[trigger] s[i]),
    ensures
        s.filter(p) == s,
    decreases s.len(),
{
    reveal(Seq::filter);
    if s.len() > 0 {
        assert forall|i: int| 0 <= i < s.drop_last().len() implies p(#[trigger] s.drop_last()[i]) by {
            assert(s.drop_last()[i] == s[i]);
        }
        lemma_filter_all(s.drop_last(), p);
        assert(s.last() == s[s.len() - 1]);
        assert(s.drop_last().push(s.last()) =~= s);
    }
}

/// The positions `0..n`, in order.
pub open spec fn iota(n: nat) -> Seq<usize> {
    Seq::new(n, |i: int| i as usize)
}

/// Exchanges keep the length of a row.
pub proof fn lemma_swaps_len<T>(row: Seq<T>, swaps: Seq<(usize, usize)>)
    requires
        swaps_within(swaps, row.len()),
    ensures
        apply_swaps(row, swaps).len() == row.len(),
    decreases swaps.len(),
{
    if swaps.len() > 0 {
        assert(swaps_within(swaps.drop_last(), row.len())) by {
            assert forall|i: int| 0 <= i < swaps.drop_last().len() implies (
            #[trigger] swaps.drop_last()[i]).0 < row.len() && swaps.drop_last()[i].1 < row.len() by {
                assert(swaps.drop_last()[i] == swaps[i]);
            }
        }
        lemma_swaps_len(row, swaps.drop_last());
    }
}

/// Exchanges move the cells of every row the way they move the positions.
pub proof fn lemma_swaps_follow<T>(row: Seq<T>, swaps: Seq<(usize, usize)>, p: int)
    requires
        swaps_within(swaps, row.len()),
        row.len() <= usize::MAX,
        0 <= p < row.len(),
    ensures
        apply_swaps(row, swaps).len() == row.len(),
        apply_swaps(iota(row.len()), swaps).len() == row.len(),
        apply_swaps(iota(row.len()), swaps)[p] < row.len(),
        apply_swaps(row, swaps)[p] == row[apply_swaps(iota(row.len()), swaps)[p] as int],
    decreases swaps.len(),
{
    let n = row.len();
    if swaps.len() > 0 {
        let rest = swaps.drop_last();
        let a = swaps.last().0 as int;
        let b = swaps.last().1 as int;
        assert(swaps.last() == swaps[swaps.len() - 1]);
        assert(swaps_within(rest, n)) by {
            assert forall|i: int| 0 <= i < rest.len() implies (#[trigger] rest[i]).0 < n
                && rest[i].1 < n by {
                assert(rest[i] == swaps[i]);
            }
        }
        lemma_swaps_follow(row, rest, p);
        lemma_swaps_follow(row, rest, a);
        lemma_swaps_follow(row, rest, b);
    }
}

/// Exchanging cells and then taking views is taking views and then
/// exchanging cells.
pub proof fn lemma_swaps_map<S, T>(row: Seq<S>, f: spec_fn(S) -> T, swaps: Seq<(usize, usize)>)
    requires
        swaps_within(swaps, row.len()),
    ensures
        apply_swaps(row, swaps).map_values(f) == apply_swaps(row.map_values(f), swaps),
    decreases swaps.len(),
{
    if swaps.len() > 0 {
        let rest = swaps.drop_last();
        assert(swaps.last() == swaps[swaps.len() - 1]);
        assert(swaps_within(rest, row.len())) by {
            assert forall|i: int| 0 <= i < rest.len() implies (#[trigger] rest[i]).0 < row.len()
                && rest[i].1 < row.len() by {
                assert(rest[i] == swaps[i]);
            }
        }
        lemma_swaps_map(row, f, rest);
        lemma_swaps_len(row, rest);
        let a = swaps.last().0 as int;
        let b = swaps.last().1 as int;
        let inner = apply_swaps(row, rest);
        assert(swap_cells(inner, a, b).map_values(f) =~= swap_cells(inner.map_values(f), a, b));
    } else {
        assert(apply_swaps(row, swaps).map_values(f) =~= apply_swaps(row.map_values(f), swaps));
    }
}

/// What is left after filtering was there before.
pub proof fn lemma_filter_member<A>(s: Seq<A>, p: spec_fn(A) -> bool, i: int)
    requires
        0 <= i < s.filter(p).len(),
    ensures
        s.contains(s.filter(p)[i]),
        p(s.filter(p)[i]),
    decreases s.len(),
{
    reveal(Seq::filter);
    if s.len() > 0 {
        let rest = s.drop_last();
        if i < rest.filter(p).len() {
            lemma_filter_member(rest, p, i);
            let j = choose|j: int| 0 <= j < rest.len() && rest[j] == rest.filter(p)[i];
            assert(s[j] == rest[j]);
        } else {
            assert(s[s.len() - 1] == s.last());
        }
    }
}

/// A projected row fits the target schema.
pub proof fn lemma_gather_fits(row: Row, from: Seq<Name>, to: Seq<Name>)
    requires
        row_fits(row, from.len()),
        projectable(from, to),
    ensures
        row_fits(gather(row, from, to), to.len()),
{
    assert forall|c: int| 0 <= c < to.len() implies !(#[trigger] gather(row, from, to)[c] is Column) by {
        assert(from.contains(to[c]));
        assert(!(row[from.index_of(to[c])] is Column));
    }
}

/// A row of `a` cells followed by a row of `b` cells fits `a + b` columns.
pub proof fn lemma_concat_fits(l: Row, r: Row, a: nat, b: nat)
    requires
        row_fits(l, a),
        row_fits(r, b),
    ensures
        row_fits(l + r, a + b),
{
    assert forall|j: int| 0 <= j < (l + r).len() implies !(#[trigger] (l + r)[j] is Column) by {
        if j < l.len() {
            assert(!(l[j] is Column));
        } else {
            assert(!(r[j - l.len()] is Column));
        }
    }
}

/// Two lists of fitting rows, one after the other, fit.
pub proof fn lemma_rows_fit_add(a: Seq<Row>, b: Seq<Row>, width: nat)
    requires
        rows_fit(a, width),
        rows_fit(b, width),
    ensures
        rows_fit(a + b, width),
{
    assert forall|j: int| 0 <= j < (a + b).len() implies row_fits(#[trigger] (a + b)[j], width) by {
        if j < a.len() {
            assert(row_fits(a[j], width));
        } else {
            assert(row_fits(b[j - a.len()], width));
        }
    }
}

/// Filtering fitting rows leaves fitting rows.
pub proof fn lemma_filter_fits(rows: Seq<Row>, p: spec_fn(Row) -> bool, width: nat)
    requires
        rows_fit(rows, width),
    ensures
        rows_fit(rows.filter(p), width),
{
    assert forall|j: int| 0 <= j < rows.filter(p).len() implies row_fits(
        #[trigger] rows.filter(p)[j],
        width,
    ) by {
        lemma_filter_member(rows, p, j);
        let k = choose|k: int| 0 <= k < rows.len() && rows[k] == rows.filter(p)[j];
        assert(row_fits(rows[k], width));
    }
}

/// The rows one right row contributes to a join fit the joined schema.
pub proof fn lemma_probe_fits(left: Seq<Row>, r: Row, pairs: Seq<(int, int)>, a: nat, b: nat)
    requires
        rows_fit(left, a),
        row_fits(r, b),
    ensures
        rows_fit(probe(left, r, pairs), a + b),
{
    let matching = left.filter(keyed(right_key(r, pairs), pairs));
    lemma_filter_fits(left, keyed(right_key(r, pairs), pairs), a);
    assert forall|j: int| 0 <= j < probe(left, r, pairs).len() implies row_fits(
        #[trigger] probe(left, r, pairs)[j],
        a + b,
    ) by {
        assert(row_fits(matching[j], a));
        lemma_concat_fits(matching[j], r, a, b);
    }
}

/// Joined rows fit the joined schema.
pub proof fn lemma_joined_fits(left: Seq<Row>, right: Seq<Row>, pairs: Seq<(int, int)>, a: nat, b: nat)
    requires
        rows_fit(left, a),
        rows_fit(right, b),
    ensures
        rows_fit(joined(left, right, pairs), a + b),
    decreases right.len(),
{
    if right.len() > 0 {
        assert forall|j: int| 0 <= j < right.drop_last().len() implies row_fits(
            #[trigger] right.drop_last()[j],
            b,
        ) by {
            assert(right.drop_last()[j] == right[j]);
        }
        lemma_joined_fits(left, right.drop_last(), pairs, a, b);
        assert(row_fits(right[right.len() - 1], b));
        lemma_probe_fits(left, right.last(), pairs, a, b);
        lemma_rows_fit_add(
            joined(left, right.drop_last(), pairs),
            probe(left, right.last(), pairs),
            a + b,
        );
    }
}

/// Filtering and then mapping is mapping and then filtering by a
/// predicate that says of the image what the first says of the element.
pub proof fn lemma_filter_map<A, B>(s: Seq<A>, p: spec_fn(A) -> bool, f: spec_fn(A) -> B, q: spec_fn(B) -> bool)
    requires
        forall|i: int| 0 <= i < s.len() ==> q(f(#[trigger] s[i])) == p(s[i]),
    ensures
        s.filter(p).map_values(f) == s.map_values(f).filter(q),
    decreases s.len(),
{
    reveal(Seq::filter);
    if s.len() == 0 {
        assert(s.filter(p).map_values(f) =~= s.map_values(f).filter(q));
    } else {
        let init = s.drop_last();
        let e = s.last();
        assert(s[s.len() - 1] == e);
        assert forall|i: int| 0 <= i < init.len() implies q(f(#[trigger] init[i])) == p(init[i]) by {
            assert(init[i] == s[i]);
        }
        lemma_filter_map(init, p, f, q);
        assert(s.map_values(f) =~= init.map_values(f).push(f(e)));
        lemma_filter_push(init.map_values(f), q, f(e));
        if p(e) {
            assert(s.filter(p).map_values(f) =~= init.filter(p).map_values(f).push(f(e)));
        }
    }
}

/// An element that passes a filter is found in the filtered sequence.
pub proof fn lemma_filter_keeps<A>(s: Seq<A>, p: spec_fn(A) -> bool, i: int)
    requires
        0 <= i < s.len(),
        p(s[i]),
    ensures
        s.filter(p).contains(s[i]),
    decreases s.len(),
{
    reveal(Seq::filter);
    let rest = s.drop_last();
    if i < rest.len() {
        lemma_filter_keeps(rest, p, i);
        let j = choose|j: int| 0 <= j < rest.filter(p).len() && rest.filter(p)[j] == rest[i];
        assert(s.filter(p)[j] == s[i]);
    } else {
        assert(s.filter(p).last() == s[i]);
        assert(s.filter(p)[s.filter(p).len() - 1] == s[i]);
    }
}

/// A filter that keeps the length keeps every element.
pub proof fn lemma_filter_full<A>(s: Seq<A>, p: spec_fn(A) -> bool, i: int)
    requires
        s.filter(p).len() == s.len(),
        0 <= i < s.len(),
    ensures
        p(s[i]),
    decreases s.len(),
{
    reveal(Seq::filter);
    let init = s.drop_last();
    init.lemma_filter_len(p);
    if p(s.last()) {
        if i < init.len() {
            lemma_filter_full(init, p, i);
        }
    }
}

/// What is left of distinct elements after a filter is distinct.
pub proof fn lemma_filter_distinct<A>(s: Seq<A>, p: spec_fn(A) -> bool)
    requires
        s.no_duplicates(),
    ensures
        s.filter(p).no_duplicates(),
    decreases s.len(),
{
    reveal(Seq::filter);
    if s.len() > 0 {
        let init = s.drop_last();
        let last = s.last();
        lemma_filter_distinct(init, p);
        if p(last) {
            let kept = init.filter(p);
            assert forall|i: int| 0 <= i < kept.len() implies kept[i] != last by {
                lemma_filter_member(init, p, i);
                let j = choose|j: int| 0 <= j < init.len() && init[j] == kept[i];
                assert(s[j] != s[s.len() - 1]);
            }
        }
    }
}

} // verus!
