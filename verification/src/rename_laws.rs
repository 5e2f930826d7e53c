//! Selection and renaming commute, once the condition is taken back
//! through the renaming.

use vstd::prelude::*;
use crate::error::Error;
use crate::laws::lemma_rename_from_distinct;
use crate::lemmas::lemma_filter_agree;
use crate::model::Datum;
use crate::model::Formula;
use crate::model::Name;
use crate::model::Relation;
use crate::model::Row;
use crate::model::decidable;
use crate::model::holds;
use crate::model::keeps;
use crate::model::operand;
use crate::model::operand_scoped;
use crate::model::rename;
use crate::model::rename_all;
use crate::model::rename_from;
use crate::model::rename_one;
use crate::model::scoped;
use crate::model::select;
use crate::rewrite::origin;
use crate::rewrite::origin_of_formula;
use crate::rewrite::origin_of_operand;
use crate::rewrite::pair_count;
use crate::table::lemma_index_of_unique;

verus! {

/// No renaming pair takes up the new name of an earlier pair: the pairs do
/// not form a chain.
pub open spec fn no_chain(old: Seq<Name>, new: Seq<Name>) -> bool {
    forall|j: int, k: int|
        0 <= j < k < pair_count(old, new) ==> #[trigger] new[j] != #[trigger] old[k]
}

/// The name that `name` had before the renaming pairs from `from` up to
/// `count`.
pub open spec fn origin_since(name: Name, old: Seq<Name>, new: Seq<Name>, from: int, count: int) -> Name
    decreases count,
{
    if count <= from || from < 0 || count > old.len() || count > new.len() {
        name
    } else if new[count - 1] == name {
        old[count - 1]
    } else {
        origin_since(name, old, new, from, count - 1)
    }
}

/// Some pair from `from` up to `count` gives the new name `name`.
pub open spec fn given(name: Name, new: Seq<Name>, from: int, count: int) -> bool {
    exists|k: int| from <= k < count && #[trigger] new[k] == name
}

proof fn lemma_origin_since_all(name: Name, old: Seq<Name>, new: Seq<Name>, count: nat)
    requires
        count <= old.len(),
        count <= new.len(),
    ensures
        origin_since(name, old, new, 0, count as int) == origin(name, old, new, count),
    decreases count,
{
    if count > 0 {
        lemma_origin_since_all(name, old, new, (count - 1) as nat);
    }
}

proof fn lemma_origin_since_not_given(name: Name, old: Seq<Name>, new: Seq<Name>, from: int, count: int)
    requires
        0 <= from,
        count <= old.len(),
        count <= new.len(),
        !given(name, new, from, count),
    ensures
        origin_since(name, old, new, from, count) == name,
    decreases count,
{
    if count > from {
        assert(new[count - 1] != name);
        assert forall|k: int| from <= k < count - 1 implies #[trigger] new[k] != name by {}
        lemma_origin_since_not_given(name, old, new, from, count - 1);
    }
}

proof fn lemma_origin_since_given(name: Name, old: Seq<Name>, new: Seq<Name>, from: int, count: int)
    requires
        0 <= from,
        count <= old.len(),
        count <= new.len(),
        given(name, new, from, count),
    ensures
        exists|k: int|
            from <= k < count && #[trigger] new[k] == name && origin_since(
                name,
                old,
                new,
                from,
                count,
            ) == old[k],
    decreases count,
{
    if count > from {
        if new[count - 1] == name {
            assert(new[count - 1] == name && origin_since(name, old, new, from, count) == old[count
                - 1]);
        } else {
            let w = choose|k: int| from <= k < count && #[trigger] new[k] == name;
            assert(from <= w < count - 1 && new[w] == name);
            lemma_origin_since_given(name, old, new, from, count - 1);
            let k = choose|k: int|
                from <= k < count - 1 && #[trigger] new[k] == name && origin_since(
                    name,
                    old,
                    new,
                    from,
                    count - 1,
                ) == old[k];
            assert(from <= k < count && new[k] == name && origin_since(name, old, new, from, count)
                == old[k]);
        }
    }
}

proof fn lemma_origin_since_step(name: Name, old: Seq<Name>, new: Seq<Name>, from: int, count: int)
    requires
        0 <= from < count,
        count <= old.len(),
        count <= new.len(),
    ensures
        origin_since(name, old, new, from, count) == if given(name, new, from + 1, count) {
            origin_since(name, old, new, from + 1, count)
        } else if new[from] == name {
            old[from]
        } else {
            name
        },
    decreases count,
{
    if count == from + 1 {
        assert(!given(name, new, from + 1, count));
        assert(origin_since(name, old, new, from, from) == name);
    } else if new[count - 1] == name {
        assert(from + 1 <= count - 1 < count && new[count - 1] == name);
        assert(given(name, new, from + 1, count));
    } else {
        assert(origin_since(name, old, new, from, count) == origin_since(
            name,
            old,
            new,
            from,
            count - 1,
        ));
        assert(origin_since(name, old, new, from + 1, count) == origin_since(
            name,
            old,
            new,
            from + 1,
            count - 1,
        ));
        lemma_origin_since_step(name, old, new, from, count - 1);
        if given(name, new, from + 1, count) {
            let w = choose|k: int| from + 1 <= k < count && #[trigger] new[k] == name;
            assert(from + 1 <= w < count - 1 && new[w] == name);
            assert(given(name, new, from + 1, count - 1));
        } else {
            assert forall|k: int| from + 1 <= k < count - 1 implies #[trigger] new[k] != name by {}
            assert(!given(name, new, from + 1, count - 1));
        }
    }
}

/// Every column of the renamed schema is found under its earlier name, at
/// the same position, in the schema before the renaming.
pub open spec fn traced(columns: Seq<Name>, renamed: Seq<Name>, old: Seq<Name>, new: Seq<Name>, from: int) -> bool {
    forall|n: Name| #[trigger]
        renamed.contains(n) ==> columns.contains(
            origin_since(n, old, new, from, pair_count(old, new) as int),
        ) && columns.index_of(origin_since(n, old, new, from, pair_count(old, new) as int))
            == renamed.index_of(n)
}

proof fn lemma_rename_traced(columns: Seq<Name>, old: Seq<Name>, new: Seq<Name>, from: int)
    requires
        columns.no_duplicates(),
        no_chain(old, new),
        0 <= from,
        rename_from(columns, old, new, from) is Ok,
    ensures
        traced(columns, rename_from(columns, old, new, from)->Ok_0, old, new, from),
    decreases old.len() - from,
{
    let count = pair_count(old, new) as int;
    let renamed = rename_from(columns, old, new, from)->Ok_0;
    if from < count {
        let next = rename_one(columns, old[from], new[from])->Ok_0;
        let p = columns.index_of(old[from]);
        lemma_rename_from_distinct(columns, old, new, from);
        assert(next.no_duplicates()) by {
            assert forall|a: int, b: int|
                0 <= a < next.len() && 0 <= b < next.len() && a != b implies next[a] != next[b] by {
                if a != p && b != p {
                    assert(columns[a] != columns[b]);
                } else if a == p {
                    assert(columns[b] != columns[p]);
                } else {
                    assert(columns[a] != columns[p]);
                }
            }
        }
        lemma_rename_traced(next, old, new, from + 1);
        lemma_rename_from_distinct(next, old, new, from + 1);
        assert forall|n: Name| #[trigger] renamed.contains(n) implies columns.contains(
            origin_since(n, old, new, from, count),
        ) && columns.index_of(origin_since(n, old, new, from, count)) == renamed.index_of(n) by {
            let o1 = origin_since(n, old, new, from + 1, count);
            lemma_origin_since_step(n, old, new, from, count);
            assert(next.contains(o1) && next.index_of(o1) == renamed.index_of(n));
            let q = next.index_of(o1);
            if given(n, new, from + 1, count) {
                lemma_origin_since_given(n, old, new, from + 1, count);
                let k = choose|k: int|
                    from + 1 <= k < count && #[trigger] new[k] == n && origin_since(
                        n,
                        old,
                        new,
                        from + 1,
                        count,
                    ) == old[k];
                assert(new[from] != old[k]);
                assert(q != p);
                assert(columns[q] == o1);
                lemma_index_of_unique(columns, o1, q);
            } else {
                lemma_origin_since_not_given(n, old, new, from + 1, count);
                if new[from] == n {
                    assert(next[p] == n);
                    lemma_index_of_unique(next, n, p);
                } else {
                    assert(q != p);
                    assert(columns[q] == n);
                    lemma_index_of_unique(columns, n, q);
                }
            }
        }
    } else {
        assert forall|n: Name| #[trigger] renamed.contains(n) implies columns.contains(
            origin_since(n, old, new, from, count),
        ) && columns.index_of(origin_since(n, old, new, from, count)) == renamed.index_of(n) by {
            assert(origin_since(n, old, new, from, count) == n);
        }
    }
}

/// Every column of the renamed schema is found under the name that the
/// renaming takes it back to, at the same position, in the schema before
/// the renaming.
pub open spec fn origins_found(columns: Seq<Name>, renamed: Seq<Name>, old: Seq<Name>, new: Seq<Name>) -> bool {
    forall|n: Name| #[trigger]
        renamed.contains(n) ==> columns.contains(origin(n, old, new, pair_count(old, new)))
            && columns.index_of(origin(n, old, new, pair_count(old, new))) == renamed.index_of(n)
}

/// A renaming without chains can be traced back name by name.
pub proof fn lemma_rename_origins(columns: Seq<Name>, old: Seq<Name>, new: Seq<Name>)
    requires
        columns.no_duplicates(),
        no_chain(old, new),
        rename_all(columns, old, new) is Ok,
    ensures
        origins_found(columns, rename_all(columns, old, new)->Ok_0, old, new),
{
    let renamed = rename_all(columns, old, new)->Ok_0;
    lemma_rename_traced(columns, old, new, 0);
    assert forall|n: Name| #[trigger] renamed.contains(n) implies columns.contains(
        origin(n, old, new, pair_count(old, new)),
    ) && columns.index_of(origin(n, old, new, pair_count(old, new))) == renamed.index_of(n) by {
        lemma_origin_since_all(n, old, new, pair_count(old, new));
    }
}

/// A condition over the renamed schema holds on a row exactly when the
/// condition taken back through the renaming holds on it over the schema
/// before; and the condition taken back refers to columns of that schema
/// only.
pub proof fn lemma_holds_renamed(
    row: Row,
    columns: Seq<Name>,
    renamed: Seq<Name>,
    old: Seq<Name>,
    new: Seq<Name>,
    c: Formula,
)
    requires
        origins_found(columns, renamed, old, new),
        scoped(c, renamed),
    ensures
        holds(row, renamed, c) == holds(row, columns, origin_of_formula(c, old, new)),
        scoped(origin_of_formula(c, old, new), columns),
    decreases c,
{
    match c {
        Formula::Not(a) => {
            lemma_holds_renamed(row, columns, renamed, old, new, *a);
        },
        Formula::And(a, b) => {
            lemma_holds_renamed(row, columns, renamed, old, new, *a);
            lemma_holds_renamed(row, columns, renamed, old, new, *b);
        },
        Formula::Or(a, b) => {
            lemma_holds_renamed(row, columns, renamed, old, new, *a);
            lemma_holds_renamed(row, columns, renamed, old, new, *b);
        },
        Formula::Equal(x, y) => {
            lemma_operand_renamed(row, columns, renamed, old, new, x);
            lemma_operand_renamed(row, columns, renamed, old, new, y);
        },
        Formula::Less(x, y) => {
            lemma_operand_renamed(row, columns, renamed, old, new, x);
            lemma_operand_renamed(row, columns, renamed, old, new, y);
        },
        Formula::More(x, y) => {
            lemma_operand_renamed(row, columns, renamed, old, new, x);
            lemma_operand_renamed(row, columns, renamed, old, new, y);
        },
        _ => {},
    }
}

proof fn lemma_operand_renamed(
    row: Row,
    columns: Seq<Name>,
    renamed: Seq<Name>,
    old: Seq<Name>,
    new: Seq<Name>,
    v: Datum,
)
    requires
        origins_found(columns, renamed, old, new),
        operand_scoped(v, renamed),
    ensures
        operand(row, renamed, v) == operand(row, columns, origin_of_operand(v, old, new)),
        operand_scoped(origin_of_operand(v, old, new), columns),
{
    if let Datum::Column(n) = v {
        assert(renamed.contains(n));
    }
}

/// Renaming steps fail with a schema error only.
pub proof fn lemma_rename_error(columns: Seq<Name>, old: Seq<Name>, new: Seq<Name>, from: int)
    ensures
        rename_from(columns, old, new, from) matches Err(e) ==> e == Error::Schema,
    decreases old.len() - from,
{
    if 0 <= from < old.len() && from < new.len() {
        if let Ok(next) = rename_one(columns, old[from], new[from]) {
            lemma_rename_error(next, old, new, from + 1);
        }
    }
}

/// Selecting from a renamed table by a condition is renaming the selection
/// by the condition taken back through the renaming: the same schema and
/// the same rows in the same order, or an error in both cases. The renaming
/// pairs must not form a chain, and the condition must refer to columns of
/// the renamed table only.
pub proof fn law_select_rename_commute(t: Relation, old: Seq<Name>, new: Seq<Name>, c: Formula)
    requires
        t.wf(),
        no_chain(old, new),
        rename_all(t.columns, old, new) matches Ok(renamed) ==> scoped(c, renamed),
    ensures
        (match rename(t, old, new) {
            Ok(u) => select(u, c),
            Err(e) => Err(e),
        }) == (match select(t, origin_of_formula(c, old, new)) {
            Ok(s) => rename(s, old, new),
            Err(e) => Err(e),
        }),
{
    let back = origin_of_formula(c, old, new);
    lemma_rename_error(t.columns, old, new, 0);
    if let Ok(renamed) = rename_all(t.columns, old, new) {
        lemma_rename_origins(t.columns, old, new);
        assert forall|i: int| 0 <= i < t.rows.len() implies keeps(renamed, c)(#[trigger] t.rows[i])
            == keeps(t.columns, back)(t.rows[i]) by {
            lemma_holds_renamed(t.rows[i], t.columns, renamed, old, new, c);
        }
        lemma_filter_agree(t.rows, keeps(renamed, c), keeps(t.columns, back));
        assert(decidable(t.rows, renamed, c) == decidable(t.rows, t.columns, back)) by {
            assert forall|i: int| 0 <= i < t.rows.len() implies holds(t.rows[i], renamed, c)
                == holds(t.rows[i], t.columns, back) by {
                lemma_holds_renamed(t.rows[i], t.columns, renamed, old, new, c);
            }
        }
    }
}

} // verus!
