//! Soundness of the selection pushdown: on a legal plan it changes neither
//! the schema nor the rows nor their order.

use vstd::prelude::*;
use crate::error::Error;
use crate::join_laws::lemma_columns_distinct;
use crate::join_laws::lemma_scoped_decidable;
use crate::laws::lemma_product_wf;
use crate::lemmas::lemma_filter_agree;
use crate::lemmas::lemma_filter_all;
use crate::lemmas::lemma_filter_fits;
use crate::lemmas::lemma_filter_keeps;
use crate::lemmas::lemma_filter_map;
use crate::lemmas::lemma_filter_member;
use crate::lemmas::lemma_filter_twice;
use crate::model::Datum;
use crate::model::Formula;
use crate::model::Name;
use crate::model::Plan;
use crate::model::Relation;
use crate::model::Row;
use crate::model::Sources;
use crate::model::absent_from;
use crate::model::cross;
use crate::model::eval_plan;
use crate::model::gather;
use crate::model::gathers;
use crate::model::holds;
use crate::model::keeps;
use crate::model::operand;
use crate::model::operand_scoped;
use crate::model::prefixed;
use crate::model::product;
use crate::model::projectable;
use crate::model::rename_from;
use crate::model::rename_one;
use crate::model::row_fits;
use crate::model::rows_fit;
use crate::model::scoped;
use crate::model::sources_wf;
use crate::rename_laws::lemma_holds_renamed;
use crate::rename_laws::lemma_rename_origins;
use crate::rename_laws::no_chain;
use crate::rename_laws::origins_found;
use crate::rewrite::columns_of;
use crate::rewrite::exposed_after;
use crate::rewrite::exposed_columns;
use crate::rewrite::insert_name;
use crate::rewrite::not_outside;
use crate::rewrite::not_within;
use crate::rewrite::origins;
use crate::rewrite::outside;
use crate::rewrite::pair_count;
use crate::rewrite::remove_name;
use crate::rewrite::selections_above;
use crate::rewrite::selections_pushed;
use crate::rewrite::within;
use crate::table::lemma_index_of_unique;
use crate::typing::faithful;
use crate::typing::law_typed_evaluates;
use crate::typing::lemma_add_contains;
use crate::typing::lemma_columns_of;
use crate::typing::lemma_insert_contains;
use crate::typing::lemma_merge_contains;
use crate::typing::lemma_remove_contains;
use crate::typing::lemma_scoped_mentions;
use crate::typing::lemma_scoped_widen;
use crate::typing::mentions;
use crate::typing::same_set;
use crate::typing::schema_of;

verus! {

/// Every condition of the list refers to columns of the schema only.
pub open spec fn all_scoped(conditions: Seq<Formula>, columns: Seq<Name>) -> bool {
    forall|k: int| 0 <= k < conditions.len() ==> scoped(#[trigger] conditions[k], columns)
}

/// Every condition of the list holds on the row.
pub open spec fn every_holds(row: Row, columns: Seq<Name>, conditions: Seq<Formula>) -> bool {
    forall|k: int|
        0 <= k < conditions.len() ==> holds(row, columns, #[trigger] conditions[k]) == Ok::<
            bool,
            Error,
        >(true)
}

/// The predicate "every condition of the list holds on the row".
pub open spec fn all_hold(columns: Seq<Name>, conditions: Seq<Formula>) -> spec_fn(Row) -> bool {
    |row: Row| every_holds(row, columns, conditions)
}

/// `t` with the rows only on which every condition holds.
pub open spec fn selected_by(t: Relation, conditions: Seq<Formula>) -> Relation {
    Relation { columns: t.columns, rows: t.rows.filter(all_hold(t.columns, conditions)) }
}

/// A table under a stack of selections evaluates to the rows on which all
/// their conditions hold.
pub proof fn lemma_above_evaluates(plan: Plan, conditions: Seq<Formula>, sources: Sources)
    requires
        eval_plan(plan, sources) matches Ok(t) && t.wf() && all_scoped(conditions, t.columns),
    ensures
        eval_plan(selections_above(plan, conditions), sources) == Ok::<Relation, Error>(
            selected_by(eval_plan(plan, sources)->Ok_0, conditions),
        ),
    decreases conditions.len(),
{
    let t = eval_plan(plan, sources)->Ok_0;
    if conditions.len() == 0 {
        assert forall|i: int| 0 <= i < t.rows.len() implies all_hold(t.columns, conditions)(
            #[trigger] t.rows[i],
        ) by {}
        lemma_filter_all(t.rows, all_hold(t.columns, conditions));
    } else {
        let init = conditions.drop_last();
        let last = conditions.last();
        assert(conditions[conditions.len() - 1] == last);
        assert forall|k: int| 0 <= k < init.len() implies scoped(#[trigger] init[k], t.columns) by {
            assert(init[k] == conditions[k]);
        }
        lemma_above_evaluates(plan, init, sources);
        let inner = selected_by(t, init);
        lemma_filter_fits(t.rows, all_hold(t.columns, init), t.columns.len());
        lemma_scoped_decidable(inner.rows, t.columns, last);
        assert forall|x: Row| #[trigger]
            all_hold(t.columns, conditions)(x) == (all_hold(t.columns, init)(x) && keeps(
                t.columns,
                last,
            )(x)) by {
            lemma_every_holds_push(x, t.columns, init, last);
            assert(init.push(last) =~= conditions);
        }
        lemma_filter_twice(
            t.rows,
            all_hold(t.columns, init),
            keeps(t.columns, last),
            all_hold(t.columns, conditions),
        );
    }
}

/// All conditions of a list with one more hold exactly when those of the
/// list and the one more hold.
pub proof fn lemma_every_holds_push(row: Row, columns: Seq<Name>, conditions: Seq<Formula>, c: Formula)
    ensures
        every_holds(row, columns, conditions.push(c)) == (every_holds(row, columns, conditions)
            && holds(row, columns, c) == Ok::<bool, Error>(true)),
{
    let more = conditions.push(c);
    if every_holds(row, columns, more) {
        assert forall|k: int| 0 <= k < conditions.len() implies holds(
            row,
            columns,
            #[trigger] conditions[k],
        ) == Ok::<bool, Error>(true) by {
            assert(more[k] == conditions[k]);
        }
        assert(more[conditions.len() as int] == c);
    }
    if every_holds(row, columns, conditions) && holds(row, columns, c) == Ok::<bool, Error>(true) {
        assert forall|k: int| 0 <= k < more.len() implies holds(row, columns, #[trigger] more[k])
            == Ok::<bool, Error>(true) by {
            if k < conditions.len() {
                assert(more[k] == conditions[k]);
            }
        }
    }
}

/// A condition over the target columns holds on a projected row exactly
/// when it holds on the row.
pub proof fn lemma_holds_gather(row: Row, columns: Seq<Name>, targets: Seq<Name>, c: Formula)
    requires
        columns.no_duplicates(),
        projectable(columns, targets),
        row.len() == columns.len(),
        scoped(c, targets),
    ensures
        holds(gather(row, columns, targets), targets, c) == holds(row, columns, c),
    decreases c,
{
    match c {
        Formula::Not(a) => {
            lemma_holds_gather(row, columns, targets, *a);
        },
        Formula::And(a, b) => {
            lemma_holds_gather(row, columns, targets, *a);
            lemma_holds_gather(row, columns, targets, *b);
        },
        Formula::Or(a, b) => {
            lemma_holds_gather(row, columns, targets, *a);
            lemma_holds_gather(row, columns, targets, *b);
        },
        Formula::Equal(x, y) => {
            lemma_operand_gather(row, columns, targets, x);
            lemma_operand_gather(row, columns, targets, y);
        },
        Formula::Less(x, y) => {
            lemma_operand_gather(row, columns, targets, x);
            lemma_operand_gather(row, columns, targets, y);
        },
        Formula::More(x, y) => {
            lemma_operand_gather(row, columns, targets, x);
            lemma_operand_gather(row, columns, targets, y);
        },
        _ => {},
    }
}

proof fn lemma_operand_gather(row: Row, columns: Seq<Name>, targets: Seq<Name>, v: Datum)
    requires
        columns.no_duplicates(),
        projectable(columns, targets),
        row.len() == columns.len(),
        operand_scoped(v, targets),
    ensures
        operand(gather(row, columns, targets), targets, v) == operand(row, columns, v),
{
    if let Datum::Column(n) = v {
        let i = targets.index_of(n);
        assert(targets[i] == n);
        assert(columns.contains(targets[i]));
        assert(gather(row, columns, targets)[i] == row[columns.index_of(n)]);
    }
}

/// A condition over the left columns holds on a left row followed by a
/// right row exactly when it holds on the left row.
pub proof fn lemma_holds_prefix(l: Row, r: Row, left: Seq<Name>, right: Seq<Name>, c: Formula)
    requires
        (left + right).no_duplicates(),
        l.len() == left.len(),
        scoped(c, left),
    ensures
        holds(l + r, left + right, c) == holds(l, left, c),
    decreases c,
{
    match c {
        Formula::Not(a) => {
            lemma_holds_prefix(l, r, left, right, *a);
        },
        Formula::And(a, b) => {
            lemma_holds_prefix(l, r, left, right, *a);
            lemma_holds_prefix(l, r, left, right, *b);
        },
        Formula::Or(a, b) => {
            lemma_holds_prefix(l, r, left, right, *a);
            lemma_holds_prefix(l, r, left, right, *b);
        },
        Formula::Equal(x, y) => {
            lemma_operand_prefix(l, r, left, right, x);
            lemma_operand_prefix(l, r, left, right, y);
        },
        Formula::Less(x, y) => {
            lemma_operand_prefix(l, r, left, right, x);
            lemma_operand_prefix(l, r, left, right, y);
        },
        Formula::More(x, y) => {
            lemma_operand_prefix(l, r, left, right, x);
            lemma_operand_prefix(l, r, left, right, y);
        },
        _ => {},
    }
}

proof fn lemma_operand_prefix(l: Row, r: Row, left: Seq<Name>, right: Seq<Name>, v: Datum)
    requires
        (left + right).no_duplicates(),
        l.len() == left.len(),
        operand_scoped(v, left),
    ensures
        operand(l + r, left + right, v) == operand(l, left, v),
{
    if let Datum::Column(n) = v {
        let i = left.index_of(n);
        assert(left[i] == n);
        assert((left + right)[i] == n);
        lemma_index_of_unique(left + right, n, i);
        assert((l + r)[i] == l[i]);
    }
}

/// A condition over the right columns holds on a left row followed by a
/// right row exactly when it holds on the right row.
pub proof fn lemma_holds_suffix(l: Row, r: Row, left: Seq<Name>, right: Seq<Name>, c: Formula)
    requires
        (left + right).no_duplicates(),
        l.len() == left.len(),
        r.len() == right.len(),
        scoped(c, right),
    ensures
        holds(l + r, left + right, c) == holds(r, right, c),
    decreases c,
{
    match c {
        Formula::Not(a) => {
            lemma_holds_suffix(l, r, left, right, *a);
        },
        Formula::And(a, b) => {
            lemma_holds_suffix(l, r, left, right, *a);
            lemma_holds_suffix(l, r, left, right, *b);
        },
        Formula::Or(a, b) => {
            lemma_holds_suffix(l, r, left, right, *a);
            lemma_holds_suffix(l, r, left, right, *b);
        },
        Formula::Equal(x, y) => {
            lemma_operand_suffix(l, r, left, right, x);
            lemma_operand_suffix(l, r, left, right, y);
        },
        Formula::Less(x, y) => {
            lemma_operand_suffix(l, r, left, right, x);
            lemma_operand_suffix(l, r, left, right, y);
        },
        Formula::More(x, y) => {
            lemma_operand_suffix(l, r, left, right, x);
            lemma_operand_suffix(l, r, left, right, y);
        },
        _ => {},
    }
}

proof fn lemma_operand_suffix(l: Row, r: Row, left: Seq<Name>, right: Seq<Name>, v: Datum)
    requires
        (left + right).no_duplicates(),
        l.len() == left.len(),
        r.len() == right.len(),
        operand_scoped(v, right),
    ensures
        operand(l + r, left + right, v) == operand(r, right, v),
{
    if let Datum::Column(n) = v {
        let j = right.index_of(n);
        assert(right[j] == n);
        assert((left + right)[left.len() + j] == n);
        lemma_index_of_unique(left + right, n, left.len() + j);
        assert((l + r)[left.len() + j] == r[j]);
    }
}

/// The cross product of filtered left rows is the cross product filtered by
/// a predicate that says of a joined row what the filter says of its left
/// part.
pub proof fn lemma_cross_filter_left(
    left: Seq<Row>,
    right: Seq<Row>,
    p: spec_fn(Row) -> bool,
    q: spec_fn(Row) -> bool,
)
    requires
        forall|i: int, j: int|
            0 <= i < left.len() && 0 <= j < right.len() ==> q(#[trigger] left[i] + #[trigger] right[j])
                == p(left[i]),
    ensures
        cross(left.filter(p), right) == cross(left, right).filter(q),
    decreases left.len(),
{
    reveal(Seq::filter);
    if left.len() == 0 {
        assert(cross(left, right).filter(q) =~= Seq::<Row>::empty());
    } else {
        let init = left.drop_last();
        let l = left.last();
        assert(left[left.len() - 1] == l);
        assert forall|i: int, j: int| 0 <= i < init.len() && 0 <= j < right.len() implies q(
            #[trigger] init[i] + #[trigger] right[j],
        ) == p(init[i]) by {
            assert(init[i] == left[i]);
        }
        lemma_cross_filter_left(init, right, p, q);
        let with_l = right.map_values(prefixed(l));
        Seq::filter_distributes_over_add(cross(init, right), with_l, q);
        if p(l) {
            assert forall|j: int| 0 <= j < with_l.len() implies q(#[trigger] with_l[j]) by {
                assert(with_l[j] == left[left.len() - 1] + right[j]);
            }
            lemma_filter_all(with_l, q);
            assert(left.filter(p).drop_last() =~= init.filter(p));
        } else {
            lemma_filter_none(with_l, q, l, right);
            assert(cross(init, right).filter(q) + Seq::<Row>::empty() =~= cross(init, right).filter(
                q,
            ));
        }
    }
}

proof fn lemma_filter_none(with_l: Seq<Row>, q: spec_fn(Row) -> bool, l: Row, right: Seq<Row>)
    requires
        with_l == right.map_values(prefixed(l)),
        forall|j: int| 0 <= j < right.len() ==> !q(l + #[trigger] right[j]),
    ensures
        with_l.filter(q) == Seq::<Row>::empty(),
{
    if with_l.filter(q).len() > 0 {
        lemma_filter_member(with_l, q, 0);
        let x = with_l.filter(q)[0];
        let j = choose|j: int| 0 <= j < with_l.len() && with_l[j] == x;
        assert(with_l[j] == l + right[j]);
    }
    assert(with_l.filter(q) =~= Seq::<Row>::empty());
}

/// The cross product with filtered right rows is the cross product filtered
/// by a predicate that says of a joined row what the filter says of its
/// right part.
pub proof fn lemma_cross_filter_right(
    left: Seq<Row>,
    right: Seq<Row>,
    p: spec_fn(Row) -> bool,
    q: spec_fn(Row) -> bool,
)
    requires
        forall|i: int, j: int|
            0 <= i < left.len() && 0 <= j < right.len() ==> q(#[trigger] left[i] + #[trigger] right[j])
                == p(right[j]),
    ensures
        cross(left, right.filter(p)) == cross(left, right).filter(q),
    decreases left.len(),
{
    reveal(Seq::filter);
    if left.len() == 0 {
        assert(cross(left, right).filter(q) =~= Seq::<Row>::empty());
    } else {
        let init = left.drop_last();
        let l = left.last();
        assert(left[left.len() - 1] == l);
        assert forall|i: int, j: int| 0 <= i < init.len() && 0 <= j < right.len() implies q(
            #[trigger] init[i] + #[trigger] right[j],
        ) == p(right[j]) by {
            assert(init[i] == left[i]);
        }
        lemma_cross_filter_right(init, right, p, q);
        Seq::filter_distributes_over_add(cross(init, right), right.map_values(prefixed(l)), q);
        assert forall|j: int| 0 <= j < right.len() implies q(prefixed(l)(#[trigger] right[j]))
            == p(right[j]) by {
            assert(q(left[left.len() - 1] + right[j]) == p(right[j]));
        }
        lemma_filter_map(right, p, prefixed(l), q);
    }
}

/// All conditions of a list hold exactly when those that pass a test and
/// those that fail it hold.
pub proof fn lemma_every_holds_split(
    row: Row,
    columns: Seq<Name>,
    conditions: Seq<Formula>,
    yes: spec_fn(Formula) -> bool,
    no: spec_fn(Formula) -> bool,
)
    requires
        forall|c: Formula| #[trigger] no(c) == !yes(c),
    ensures
        every_holds(row, columns, conditions) == (every_holds(row, columns, conditions.filter(yes))
            && every_holds(row, columns, conditions.filter(no))),
{
    let a = conditions.filter(yes);
    let b = conditions.filter(no);
    if every_holds(row, columns, conditions) {
        assert forall|k: int| 0 <= k < a.len() implies holds(row, columns, #[trigger] a[k]) == Ok::<
            bool,
            Error,
        >(true) by {
            lemma_filter_member(conditions, yes, k);
            let i = choose|i: int| 0 <= i < conditions.len() && conditions[i] == a[k];
            assert(holds(row, columns, conditions[i]) == Ok::<bool, Error>(true));
        }
        assert forall|k: int| 0 <= k < b.len() implies holds(row, columns, #[trigger] b[k]) == Ok::<
            bool,
            Error,
        >(true) by {
            lemma_filter_member(conditions, no, k);
            let i = choose|i: int| 0 <= i < conditions.len() && conditions[i] == b[k];
            assert(holds(row, columns, conditions[i]) == Ok::<bool, Error>(true));
        }
    }
    if every_holds(row, columns, a) && every_holds(row, columns, b) {
        assert forall|i: int| 0 <= i < conditions.len() implies holds(
            row,
            columns,
            #[trigger] conditions[i],
        ) == Ok::<bool, Error>(true) by {
            if yes(conditions[i]) {
                lemma_filter_keeps(conditions, yes, i);
                let k = choose|k: int| 0 <= k < a.len() && a[k] == conditions[i];
                assert(holds(row, columns, a[k]) == Ok::<bool, Error>(true));
            } else {
                assert(no(conditions[i]));
                lemma_filter_keeps(conditions, no, i);
                let k = choose|k: int| 0 <= k < b.len() && b[k] == conditions[i];
                assert(holds(row, columns, b[k]) == Ok::<bool, Error>(true));
            }
        }
    }
}

/// The exposed names after the renaming pairs from `from` up to `count`.
pub open spec fn exposed_between(names: Seq<Name>, old: Seq<Name>, new: Seq<Name>, from: int, count: int) -> Seq<
    Name,
>
    decreases count,
{
    if count <= from || from < 0 || count > old.len() || count > new.len() {
        names
    } else {
        insert_name(
            remove_name(exposed_between(names, old, new, from, count - 1), old[count - 1]),
            new[count - 1],
        )
    }
}

proof fn lemma_exposed_between_all(names: Seq<Name>, old: Seq<Name>, new: Seq<Name>, count: nat)
    requires
        count <= old.len(),
        count <= new.len(),
    ensures
        exposed_between(names, old, new, 0, count as int) == exposed_after(names, old, new, count),
    decreases count,
{
    if count > 0 {
        lemma_exposed_between_all(names, old, new, (count - 1) as nat);
    }
}

proof fn lemma_exposed_between_front(names: Seq<Name>, old: Seq<Name>, new: Seq<Name>, from: int, count: int)
    requires
        0 <= from < count,
        count <= old.len(),
        count <= new.len(),
    ensures
        exposed_between(names, old, new, from, count) == exposed_between(
            insert_name(remove_name(names, old[from]), new[from]),
            old,
            new,
            from + 1,
            count,
        ),
    decreases count,
{
    if count == from + 1 {
        assert(exposed_between(names, old, new, from, from) == names);
    } else {
        lemma_exposed_between_front(names, old, new, from, count - 1);
    }
}

proof fn lemma_exposed_follows_rename(
    names: Seq<Name>,
    columns: Seq<Name>,
    old: Seq<Name>,
    new: Seq<Name>,
    from: int,
)
    requires
        0 <= from,
        same_set(names, columns),
        columns.no_duplicates(),
        rename_from(columns, old, new, from) is Ok,
    ensures
        same_set(
            exposed_between(names, old, new, from, pair_count(old, new) as int),
            rename_from(columns, old, new, from)->Ok_0,
        ),
    decreases old.len() - from,
{
    let count = pair_count(old, new) as int;
    if from < count {
        let next = rename_one(columns, old[from], new[from])->Ok_0;
        let stepped = insert_name(remove_name(names, old[from]), new[from]);
        let p = columns.index_of(old[from]);
        assert forall|n: Name| #[trigger] stepped.contains(n) == next.contains(n) by {
            lemma_remove_contains(names, old[from], n);
            lemma_insert_contains(remove_name(names, old[from]), new[from], n);
            assert(names.contains(n) == columns.contains(n));
            if next.contains(n) {
                let i = choose|i: int| 0 <= i < next.len() && next[i] == n;
                if i != p {
                    assert(columns[i] == n);
                    assert(columns[i] != columns[p]);
                }
            }
            if n == new[from] {
                assert(next[p] == n);
            } else if columns.contains(n) && n != old[from] {
                let i = choose|i: int| 0 <= i < columns.len() && columns[i] == n;
                assert(next[i] == n);
            }
        }
        assert(next.no_duplicates()) by {
            assert forall|a: int, b: int|
                0 <= a < next.len() && 0 <= b < next.len() && a != b implies next[a] != next[b] by {
                if a != p && b != p {
                    assert(columns[a] != columns[b]);
                } else if a == p {
                    assert(columns[b] != columns[p]);
                } else {
                    assert(columns[a] != columns[p]);
                }
            }
        }
        lemma_exposed_follows_rename(stepped, next, old, new, from + 1);
        lemma_exposed_between_front(names, old, new, from, count);
    }
}

/// The exposed columns of a legal plan with faithful loads are the columns
/// of its schema.
pub proof fn lemma_exposed_is_schema(plan: Plan, sources: Sources)
    requires
        sources_wf(sources),
        schema_of(plan, sources) is Some,
        faithful(plan, sources),
        exposed_columns(plan) is Ok,
    ensures
        same_set(exposed_columns(plan)->Ok_0, schema_of(plan, sources)->Some_0),
    decreases plan,
{
    let exposed = exposed_columns(plan)->Ok_0;
    let schema = schema_of(plan, sources)->Some_0;
    match plan {
        Plan::Select(p, _) => {
            lemma_exposed_is_schema(*p, sources);
        },
        Plan::Project(_, columns) => {
            assert forall|n: Name| #[trigger] exposed.contains(n) == schema.contains(n) by {
                lemma_merge_contains(Seq::empty(), columns, n);
                assert(!Seq::<Name>::empty().contains(n));
            }
        },
        Plan::Product(p, q) => {
            lemma_exposed_is_schema(*p, sources);
            lemma_exposed_is_schema(*q, sources);
            let a = exposed_columns(*p)->Ok_0;
            let b = exposed_columns(*q)->Ok_0;
            let s = schema_of(*p, sources)->Some_0;
            let t = schema_of(*q, sources)->Some_0;
            assert forall|n: Name| #[trigger] exposed.contains(n) == schema.contains(n) by {
                lemma_merge_contains(a, b, n);
                assert(a.contains(n) == s.contains(n));
                assert(b.contains(n) == t.contains(n));
                lemma_add_contains(s, t, n);
            }
        },
        Plan::Except(p, _) => {
            lemma_exposed_is_schema(*p, sources);
        },
        Plan::Union(p, _) => {
            lemma_exposed_is_schema(*p, sources);
        },
        Plan::Rename(p, old, new) => {
            lemma_exposed_is_schema(*p, sources);
            law_typed_evaluates(*p, sources);
            let a = exposed_columns(*p)->Ok_0;
            let s = schema_of(*p, sources)->Some_0;
            lemma_exposed_follows_rename(a, s, old, new, 0);
            lemma_exposed_between_all(a, old, new, pair_count(old, new));
        },
        Plan::Load(name, Some(columns)) => {
            assert forall|n: Name| #[trigger] exposed.contains(n) == schema.contains(n) by {
                lemma_merge_contains(Seq::empty(), columns, n);
                assert(!Seq::<Name>::empty().contains(n));
            }
        },
        _ => {},
    }
}

/// The predicate "both predicates hold".
pub open spec fn both(p: spec_fn(Row) -> bool, q: spec_fn(Row) -> bool) -> spec_fn(Row) -> bool {
    |row: Row| p(row) && q(row)
}

/// The plan is ready for the selection pushdown. `busy` says that a
/// selection may be pending above the plan. Below a pending selection, the
/// pairs of a renaming must form no chain, and the two sides of a
/// difference must have the same schema.
pub open spec fn selection_ready(plan: Plan, sources: Sources, busy: bool) -> bool
    decreases plan,
{
    match plan {
        Plan::Select(p, _) => selection_ready(*p, sources, true),
        Plan::Project(p, _) => selection_ready(*p, sources, busy),
        Plan::Rename(p, old, new) => (busy ==> no_chain(old, new)) && selection_ready(
            *p,
            sources,
            busy,
        ),
        Plan::Except(p, q) => (busy ==> schema_of(*p, sources) == schema_of(*q, sources))
            && selection_ready(*p, sources, busy) && selection_ready(*q, sources, busy),
        Plan::Union(p, q) => selection_ready(*p, sources, busy) && selection_ready(
            *q,
            sources,
            busy,
        ),
        Plan::Product(p, q) => selection_ready(*p, sources, busy) && selection_ready(
            *q,
            sources,
            busy,
        ),
        _ => true,
    }
}

/// With no condition, every row passes.
proof fn lemma_none_pending(rows: Seq<Row>, columns: Seq<Name>, pending: Seq<Formula>)
    requires
        pending.len() == 0,
    ensures
        rows.filter(all_hold(columns, pending)) == rows,
{
    assert forall|i: int| 0 <= i < rows.len() implies all_hold(columns, pending)(#[trigger] rows[i]) by {}
    lemma_filter_all(rows, all_hold(columns, pending));
}

proof fn lemma_every_holds_gather(row: Row, columns: Seq<Name>, targets: Seq<Name>, conditions: Seq<Formula>)
    requires
        columns.no_duplicates(),
        projectable(columns, targets),
        row.len() == columns.len(),
        all_scoped(conditions, targets),
    ensures
        every_holds(gather(row, columns, targets), targets, conditions) == every_holds(
            row,
            columns,
            conditions,
        ),
{
    assert forall|k: int| 0 <= k < conditions.len() implies holds(
        gather(row, columns, targets),
        targets,
        #[trigger] conditions[k],
    ) == holds(row, columns, conditions[k]) by {
        lemma_holds_gather(row, columns, targets, conditions[k]);
    }
}

proof fn lemma_every_holds_renamed(
    row: Row,
    columns: Seq<Name>,
    renamed: Seq<Name>,
    old: Seq<Name>,
    new: Seq<Name>,
    conditions: Seq<Formula>,
)
    requires
        origins_found(columns, renamed, old, new),
        all_scoped(conditions, renamed),
    ensures
        every_holds(row, renamed, conditions) == every_holds(
            row,
            columns,
            conditions.map_values(origins(old, new)),
        ),
        all_scoped(conditions.map_values(origins(old, new)), columns),
{
    let back = conditions.map_values(origins(old, new));
    assert forall|k: int| 0 <= k < conditions.len() implies holds(
        row,
        renamed,
        #[trigger] conditions[k],
    ) == holds(row, columns, back[k]) && scoped(back[k], columns) by {
        lemma_holds_renamed(row, columns, renamed, old, new, conditions[k]);
    }
    if every_holds(row, renamed, conditions) {
        assert forall|k: int| 0 <= k < back.len() implies holds(row, columns, #[trigger] back[k])
            == Ok::<bool, Error>(true) by {
            assert(holds(row, renamed, conditions[k]) == holds(row, columns, back[k]));
        }
    }
    if every_holds(row, columns, back) {
        assert forall|k: int| 0 <= k < conditions.len() implies holds(
            row,
            renamed,
            #[trigger] conditions[k],
        ) == Ok::<bool, Error>(true) by {
            assert(holds(row, columns, back[k]) == Ok::<bool, Error>(true));
        }
    }
    assert forall|k: int| 0 <= k < back.len() implies scoped(#[trigger] back[k], columns) by {
        assert(holds(row, renamed, conditions[k]) == holds(row, columns, back[k]));
    }
}

proof fn lemma_every_holds_prefix(l: Row, r: Row, left: Seq<Name>, right: Seq<Name>, conditions: Seq<Formula>)
    requires
        (left + right).no_duplicates(),
        l.len() == left.len(),
        all_scoped(conditions, left),
    ensures
        every_holds(l + r, left + right, conditions) == every_holds(l, left, conditions),
{
    assert forall|k: int| 0 <= k < conditions.len() implies holds(
        l + r,
        left + right,
        #[trigger] conditions[k],
    ) == holds(l, left, conditions[k]) by {
        lemma_holds_prefix(l, r, left, right, conditions[k]);
    }
}

proof fn lemma_every_holds_suffix(l: Row, r: Row, left: Seq<Name>, right: Seq<Name>, conditions: Seq<Formula>)
    requires
        (left + right).no_duplicates(),
        l.len() == left.len(),
        r.len() == right.len(),
        all_scoped(conditions, right),
    ensures
        every_holds(l + r, left + right, conditions) == every_holds(r, right, conditions),
{
    assert forall|k: int| 0 <= k < conditions.len() implies holds(
        l + r,
        left + right,
        #[trigger] conditions[k],
    ) == holds(r, right, conditions[k]) by {
        lemma_holds_suffix(l, r, left, right, conditions[k]);
    }
}

/// What is left of a list of scoped conditions after a filter is scoped.
proof fn lemma_filter_scoped(conditions: Seq<Formula>, p: spec_fn(Formula) -> bool, columns: Seq<Name>)
    requires
        all_scoped(conditions, columns),
    ensures
        all_scoped(conditions.filter(p), columns),
{
    assert forall|k: int| 0 <= k < conditions.filter(p).len() implies scoped(
        #[trigger] conditions.filter(p)[k],
        columns,
    ) by {
        lemma_filter_member(conditions, p, k);
        let i = choose|i: int| 0 <= i < conditions.len() && conditions[i] == conditions.filter(p)[k];
        assert(scoped(conditions[i], columns));
    }
}

/// At a product, the conditions that the pushdown sends to the left refer
/// to left columns only, those it sends to the right to right columns
/// only.
proof fn lemma_partition_scoped(
    pending: Seq<Formula>,
    fields: Seq<Name>,
    left: Seq<Name>,
    right: Seq<Name>,
)
    requires
        all_scoped(pending, left + right),
        same_set(fields, left),
    ensures
        all_scoped(pending.filter(within(fields)), left),
        all_scoped(pending.filter(not_within(fields)), left + right),
        all_scoped(pending.filter(not_within(fields)).filter(outside(fields)), right),
        all_scoped(pending.filter(not_within(fields)).filter(not_outside(fields)), left + right),
{
    let to_left = pending.filter(within(fields));
    let rest = pending.filter(not_within(fields));
    let to_right = rest.filter(outside(fields));
    lemma_filter_scoped(pending, not_within(fields), left + right);
    lemma_filter_scoped(rest, not_outside(fields), left + right);
    lemma_filter_scoped(rest, outside(fields), left + right);
    assert forall|k: int| 0 <= k < to_left.len() implies scoped(#[trigger] to_left[k], left) by {
        let c = to_left[k];
        lemma_filter_member(pending, within(fields), k);
        lemma_scoped_mentions(c, left);
        assert forall|n: Name| #[trigger] mentions(c, n) implies left.contains(n) by {
            lemma_columns_of(c, n);
            let i = choose|i: int| 0 <= i < columns_of(c).len() && columns_of(c)[i] == n;
            assert(fields.contains(columns_of(c)[i]));
            assert(fields.contains(n) == left.contains(n));
        }
    }
    assert forall|k: int| 0 <= k < to_right.len() implies scoped(#[trigger] to_right[k], right) by {
        let c = to_right[k];
        lemma_filter_member(rest, outside(fields), k);
        lemma_scoped_mentions(c, right);
        lemma_scoped_mentions(c, left + right);
        assert forall|n: Name| #[trigger] mentions(c, n) implies right.contains(n) by {
            lemma_columns_of(c, n);
            let i = choose|i: int| 0 <= i < columns_of(c).len() && columns_of(c)[i] == n;
            assert(!fields.contains(columns_of(c)[i]));
            assert(fields.contains(n) == left.contains(n));
            lemma_add_contains(left, right, n);
        }
    }
}

/// At a product, filtering the two sides by the conditions sent to them
/// and the cross product by the others is filtering the cross product by
/// all conditions.
proof fn lemma_product_rows(
    rows1: Seq<Row>,
    rows2: Seq<Row>,
    left: Seq<Name>,
    right: Seq<Name>,
    pending: Seq<Formula>,
    fields: Seq<Name>,
)
    requires
        rows_fit(rows1, left.len()),
        rows_fit(rows2, right.len()),
        (left + right).no_duplicates(),
        all_scoped(pending, left + right),
        same_set(fields, left),
    ensures
        cross(
            rows1.filter(all_hold(left, pending.filter(within(fields)))),
            rows2.filter(
                all_hold(right, pending.filter(not_within(fields)).filter(outside(fields))),
            ),
        ).filter(
            all_hold(left + right, pending.filter(not_within(fields)).filter(not_outside(fields))),
        ) == cross(rows1, rows2).filter(all_hold(left + right, pending)),
{
    let columns = left + right;
    let to_left = pending.filter(within(fields));
    let rest = pending.filter(not_within(fields));
    let to_right = rest.filter(outside(fields));
    let spanning = rest.filter(not_outside(fields));
    let pl = all_hold(left, to_left);
    let pr = all_hold(right, to_right);
    let ql = all_hold(columns, to_left);
    let qr = all_hold(columns, to_right);
    let ps = all_hold(columns, spanning);
    let kept = rows1.filter(pl);
    lemma_partition_scoped(pending, fields, left, right);
    lemma_filter_fits(rows1, pl, left.len());
    assert forall|i: int, j: int| 0 <= i < kept.len() && 0 <= j < rows2.len() implies qr(
        #[trigger] kept[i] + #[trigger] rows2[j],
    ) == pr(rows2[j]) by {
        assert(row_fits(kept[i], left.len()));
        assert(row_fits(rows2[j], right.len()));
        lemma_every_holds_suffix(kept[i], rows2[j], left, right, to_right);
    }
    lemma_cross_filter_right(kept, rows2, pr, qr);
    assert forall|i: int, j: int| 0 <= i < rows1.len() && 0 <= j < rows2.len() implies ql(
        #[trigger] rows1[i] + #[trigger] rows2[j],
    ) == pl(rows1[i]) by {
        assert(row_fits(rows1[i], left.len()));
        lemma_every_holds_prefix(rows1[i], rows2[j], left, right, to_left);
    }
    lemma_cross_filter_left(rows1, rows2, pl, ql);
    let all = cross(rows1, rows2);
    assert forall|x: Row| #[trigger] both(ql, qr)(x) == (ql(x) && qr(x)) by {}
    lemma_filter_twice(all, ql, qr, both(ql, qr));
    assert forall|x: Row| #[trigger] both(both(ql, qr), ps)(x) == (both(ql, qr)(x) && ps(x)) by {}
    lemma_filter_twice(all, both(ql, qr), ps, both(both(ql, qr), ps));
    assert forall|i: int| 0 <= i < all.len() implies both(both(ql, qr), ps)(#[trigger] all[i])
        == all_hold(columns, pending)(all[i]) by {
        let x = all[i];
        assert forall|c: Formula| #[trigger] not_within(fields)(c) == !within(fields)(c) by {}
        assert forall|c: Formula| #[trigger] not_outside(fields)(c) == !outside(fields)(c) by {}
        lemma_every_holds_split(x, columns, pending, within(fields), not_within(fields));
        lemma_every_holds_split(x, columns, rest, outside(fields), not_outside(fields));
    }
    lemma_filter_agree(all, both(both(ql, qr), ps), all_hold(columns, pending));
}

/// A legal plan under a stack of selections whose conditions refer to its
/// columns only is legal, with the schema of the plan.
pub proof fn lemma_above_typed(plan: Plan, conditions: Seq<Formula>, sources: Sources)
    requires
        schema_of(plan, sources) matches Some(s) && all_scoped(conditions, s),
    ensures
        schema_of(selections_above(plan, conditions), sources) == schema_of(plan, sources),
    decreases conditions.len(),
{
    if conditions.len() > 0 {
        let init = conditions.drop_last();
        let s = schema_of(plan, sources)->Some_0;
        assert forall|k: int| 0 <= k < init.len() implies scoped(#[trigger] init[k], s) by {
            assert(init[k] == conditions[k]);
        }
        assert(conditions[conditions.len() - 1] == conditions.last());
        lemma_above_typed(plan, init, sources);
    }
}

/// What the selection pushdown makes of a legal plan under pending
/// conditions is legal, and evaluates to the rows of the plan on which all
/// pending conditions hold.
pub proof fn lemma_selections_pushed(plan: Plan, pending: Seq<Formula>, sources: Sources, busy: bool)
    requires
        sources_wf(sources),
        schema_of(plan, sources) matches Some(s) && all_scoped(pending, s),
        selection_ready(plan, sources, busy),
        !busy ==> pending.len() == 0,
        faithful(plan, sources),
    ensures
        selections_pushed(plan, pending) matches Ok(q) ==> schema_of(q, sources) == schema_of(
            plan,
            sources,
        ) && eval_plan(q, sources) == Ok::<Relation, Error>(
            selected_by(eval_plan(plan, sources)->Ok_0, pending),
        ),
    decreases plan,
{
    law_typed_evaluates(plan, sources);
    let t = eval_plan(plan, sources)->Ok_0;
    let s = t.columns;
    if selections_pushed(plan, pending) is Ok {
        match plan {
            Plan::Select(p, c) => {
                law_typed_evaluates(*p, sources);
                let tp = eval_plan(*p, sources)->Ok_0;
                let more = pending.push(c);
                assert forall|k: int| 0 <= k < more.len() implies scoped(#[trigger] more[k], s) by {
                    if k < pending.len() {
                        assert(more[k] == pending[k]);
                    }
                }
                lemma_selections_pushed(*p, more, sources, true);
                lemma_scoped_decidable(tp.rows, s, c);
                assert forall|x: Row| #[trigger]
                    all_hold(s, more)(x) == (keeps(s, c)(x) && all_hold(s, pending)(x)) by {
                    lemma_every_holds_push(x, s, pending, c);
                }
                lemma_filter_twice(tp.rows, keeps(s, c), all_hold(s, pending), all_hold(s, more));
            },
            Plan::Project(p, targets) => {
                law_typed_evaluates(*p, sources);
                let tp = eval_plan(*p, sources)->Ok_0;
                let sp = tp.columns;
                assert forall|k: int| 0 <= k < pending.len() implies scoped(
                    #[trigger] pending[k],
                    sp,
                ) by {
                    lemma_scoped_widen(pending[k], targets, sp);
                }
                lemma_selections_pushed(*p, pending, sources, busy);
                assert forall|i: int| 0 <= i < tp.rows.len() implies all_hold(targets, pending)(
                    gathers(sp, targets)(#[trigger] tp.rows[i]),
                ) == all_hold(sp, pending)(tp.rows[i]) by {
                    assert(row_fits(tp.rows[i], sp.len()));
                    lemma_every_holds_gather(tp.rows[i], sp, targets, pending);
                }
                lemma_filter_map(
                    tp.rows,
                    all_hold(sp, pending),
                    gathers(sp, targets),
                    all_hold(targets, pending),
                );
            },
            Plan::Rename(p, old, new) => {
                law_typed_evaluates(*p, sources);
                let tp = eval_plan(*p, sources)->Ok_0;
                let sp = tp.columns;
                let back = pending.map_values(origins(old, new));
                if busy {
                    lemma_rename_origins(sp, old, new);
                    lemma_every_holds_renamed(Seq::empty(), sp, s, old, new, pending);
                    lemma_selections_pushed(*p, back, sources, busy);
                    assert forall|i: int| 0 <= i < tp.rows.len() implies all_hold(sp, back)(
                        #[trigger] tp.rows[i],
                    ) == all_hold(s, pending)(tp.rows[i]) by {
                        lemma_every_holds_renamed(tp.rows[i], sp, s, old, new, pending);
                    }
                    lemma_filter_agree(tp.rows, all_hold(sp, back), all_hold(s, pending));
                } else {
                    lemma_selections_pushed(*p, back, sources, busy);
                    lemma_none_pending(tp.rows, sp, back);
                    lemma_none_pending(tp.rows, s, pending);
                }
            },
            Plan::Except(p, q) => {
                law_typed_evaluates(*p, sources);
                law_typed_evaluates(*q, sources);
                let a = eval_plan(*p, sources)->Ok_0;
                let b = eval_plan(*q, sources)->Ok_0;
                lemma_selections_pushed(*p, pending, sources, busy);
                lemma_selections_pushed(*q, pending, sources, busy);
                let keep = all_hold(s, pending);
                if !busy {
                    lemma_none_pending(b.rows, b.columns, pending);
                    lemma_none_pending(b.rows, s, pending);
                }
                let kept = b.rows.filter(keep);
                let first = a.rows.filter(keep);
                assert forall|i: int| 0 <= i < first.len() implies absent_from(kept)(
                    #[trigger] first[i],
                ) == absent_from(b.rows)(first[i]) by {
                    let x = first[i];
                    lemma_filter_member(a.rows, keep, i);
                    if kept.contains(x) {
                        let k = choose|k: int| 0 <= k < kept.len() && kept[k] == x;
                        lemma_filter_member(b.rows, keep, k);
                    }
                    if b.rows.contains(x) {
                        let j = choose|j: int| 0 <= j < b.rows.len() && b.rows[j] == x;
                        lemma_filter_keeps(b.rows, keep, j);
                    }
                }
                lemma_filter_agree(first, absent_from(kept), absent_from(b.rows));
                let mix = both(keep, absent_from(b.rows));
                assert forall|x: Row| #[trigger] mix(x) == (keep(x) && absent_from(b.rows)(x)) by {}
                assert forall|x: Row| #[trigger] mix(x) == (absent_from(b.rows)(x) && keep(x)) by {}
                lemma_filter_twice(a.rows, keep, absent_from(b.rows), mix);
                lemma_filter_twice(a.rows, absent_from(b.rows), keep, mix);
            },
            Plan::Union(p, q) => {
                law_typed_evaluates(*p, sources);
                law_typed_evaluates(*q, sources);
                let a = eval_plan(*p, sources)->Ok_0;
                let b = eval_plan(*q, sources)->Ok_0;
                assert forall|k: int| 0 <= k < pending.len() implies scoped(
                    #[trigger] pending[k],
                    b.columns,
                ) by {
                    lemma_scoped_widen(pending[k], a.columns, b.columns);
                }
                lemma_selections_pushed(*p, pending, sources, busy);
                lemma_selections_pushed(*q, pending, sources, busy);
                let pick = gathers(b.columns, a.columns);
                assert forall|i: int| 0 <= i < b.rows.len() implies all_hold(a.columns, pending)(
                    pick(#[trigger] b.rows[i]),
                ) == all_hold(b.columns, pending)(b.rows[i]) by {
                    assert(row_fits(b.rows[i], b.columns.len()));
                    lemma_every_holds_gather(b.rows[i], b.columns, a.columns, pending);
                }
                lemma_filter_map(
                    b.rows,
                    all_hold(b.columns, pending),
                    pick,
                    all_hold(a.columns, pending),
                );
                Seq::filter_distributes_over_add(
                    a.rows,
                    b.rows.map_values(pick),
                    all_hold(a.columns, pending),
                );
            },
            Plan::Product(p, q) => {
                law_typed_evaluates(*p, sources);
                law_typed_evaluates(*q, sources);
                let a = eval_plan(*p, sources)->Ok_0;
                let b = eval_plan(*q, sources)->Ok_0;
                let fields = exposed_columns(*p)->Ok_0;
                lemma_exposed_is_schema(*p, sources);
                lemma_columns_distinct(a.columns, b.columns);
                lemma_partition_scoped(pending, fields, a.columns, b.columns);
                let to_left = pending.filter(within(fields));
                let rest = pending.filter(not_within(fields));
                let to_right = rest.filter(outside(fields));
                let spanning = rest.filter(not_outside(fields));
                lemma_selections_pushed(*p, to_left, sources, busy);
                lemma_selections_pushed(*q, to_right, sources, busy);
                let x = selections_pushed(*p, to_left)->Ok_0;
                let y = selections_pushed(*q, to_right)->Ok_0;
                let inner = Plan::Product(Box::new(x), Box::new(y));
                let kept_left = selected_by(a, to_left);
                let kept_right = selected_by(b, to_right);
                lemma_filter_fits(a.rows, all_hold(a.columns, to_left), a.columns.len());
                lemma_filter_fits(b.rows, all_hold(b.columns, to_right), b.columns.len());
                lemma_product_wf(kept_left, kept_right);
                assert(eval_plan(inner, sources) == product(kept_left, kept_right));
                assert(schema_of(inner, sources) == schema_of(plan, sources));
                lemma_above_typed(inner, spanning, sources);
                lemma_above_evaluates(inner, spanning, sources);
                lemma_product_rows(a.rows, b.rows, a.columns, b.columns, pending, fields);
            },
            Plan::Load(name, columns) => {
                lemma_above_typed(plan, pending, sources);
                lemma_above_evaluates(plan, pending, sources);
            },
            _ => {},
        }
    }
}

/// The selection pushdown is sound on legal plans: what it makes of a plan
/// is legal and evaluates to the table that the plan evaluates to, the same
/// schema and the same rows in the same order. The plan must be legal; below
/// a selection, the pairs of its renamings must form no chain and the two
/// sides of its differences must have the same schema; and its loads must
/// carry the columns of their relations.
pub proof fn law_selection_pushdown_sound(plan: Plan, sources: Sources)
    requires
        sources_wf(sources),
        schema_of(plan, sources) is Some,
        selection_ready(plan, sources, false),
        faithful(plan, sources),
    ensures
        selections_pushed(plan, Seq::empty()) matches Ok(q) ==> schema_of(q, sources) == schema_of(
            plan,
            sources,
        ) && eval_plan(q, sources) == eval_plan(plan, sources),
{
    let none = Seq::<Formula>::empty();
    law_typed_evaluates(plan, sources);
    lemma_selections_pushed(plan, none, sources, false);
    let t = eval_plan(plan, sources)->Ok_0;
    assert forall|i: int| 0 <= i < t.rows.len() implies all_hold(t.columns, none)(
        #[trigger] t.rows[i],
    ) by {}
    lemma_filter_all(t.rows, all_hold(t.columns, none));
}

} // verus!
