//! Laws that relate the operators of the algebra, stated over the models.

use vstd::prelude::*;
use crate::error::Error;
use crate::join_laws::lemma_columns_distinct;
use crate::join_laws::lemma_cross_fits;
use crate::lemmas::lemma_filter_fits;
use crate::lemmas::lemma_filter_keeps;
use crate::lemmas::lemma_filter_member;
use crate::lemmas::lemma_filter_twice;
use crate::lemmas::lemma_gather_fits;
use crate::lemmas::lemma_joined_fits;
use crate::lemmas::lemma_rows_fit_add;
use crate::model::Formula;
use crate::model::Name;
use crate::model::Plan;
use crate::model::Relation;
use crate::model::Row;
use crate::model::Sources;
use crate::model::absent_from;
use crate::model::clash;
use crate::model::decidable;
use crate::model::equi_pairs;
use crate::model::eval_plan;
use crate::model::except;
use crate::model::find;
use crate::model::gather;
use crate::model::gathers;
use crate::model::holds;
use crate::model::join;
use crate::model::joined;
use crate::model::keeps;
use crate::model::load;
use crate::model::product;
use crate::model::project;
use crate::model::projectable;
use crate::model::rename;
use crate::model::rename_from;
use crate::model::rename_one;
use crate::model::residual;
use crate::model::row_fits;
use crate::model::same_names;
use crate::model::select;
use crate::model::select_project_rename;
use crate::model::sources_wf;
use crate::model::union;

verus! {

/// Projecting a table onto all of its columns, in their order, changes
/// neither the schema nor the rows.
pub proof fn law_project_identity(t: Relation)
    requires
        t.wf(),
    ensures
        project(t, t.columns) == Ok::<Relation, Error>(t),
{
    let columns = t.columns;
    assert forall|i: int| 0 <= i < columns.len() implies columns.contains(#[trigger] columns[i]) by {}
    assert forall|k: int| 0 <= k < t.rows.len() implies #[trigger] t.rows.map_values(
        gathers(columns, columns),
    )[k] == t.rows[k] by {
        let row = t.rows[k];
        assert(row_fits(row, columns.len()));
        assert forall|i: int| 0 <= i < columns.len() implies gather(row, columns, columns)[i]
            == row[i] by {
            assert(columns.index_of(columns[i]) == i);
        }
        assert(gather(row, columns, columns) =~= row);
    }
    assert(t.rows.map_values(gathers(columns, columns)) =~= t.rows);
}

/// Selecting by `c1` and then by `c2` is selecting by their conjunction:
/// the same rows in the same order, and an error in the same cases.
pub proof fn law_select_twice(t: Relation, c1: Formula, c2: Formula)
    ensures
        (match select(t, c1) {
            Ok(u) => select(u, c2),
            Err(e) => Err(e),
        }) == select(t, Formula::And(Box::new(c1), Box::new(c2))),
{
    let both = Formula::And(Box::new(c1), Box::new(c2));
    let columns = t.columns;
    let rows = t.rows;
    let first_holds = keeps(columns, c1);
    let second_holds = keeps(columns, c2);
    let p = keeps(columns, both);
    if decidable(rows, columns, c1) {
        let first = rows.filter(first_holds);
        assert forall|x: Row| #[trigger] p(x) == (first_holds(x) && second_holds(x)) by {}
        lemma_filter_twice(rows, first_holds, second_holds, p);
        if decidable(first, columns, c2) {
            assert forall|i: int| 0 <= i < rows.len() implies (#[trigger] holds(
                rows[i],
                columns,
                both,
            )) is Ok by {
                assert(holds(rows[i], columns, c1) is Ok);
                if first_holds(rows[i]) {
                    lemma_filter_keeps(rows, first_holds, i);
                    let j = choose|j: int| 0 <= j < first.len() && first[j] == rows[i];
                    assert(holds(first[j], columns, c2) is Ok);
                }
            }
        } else {
            let j = choose|j: int| 0 <= j < first.len() && !(#[trigger] holds(
                first[j],
                columns,
                c2,
            ) is Ok);
            lemma_filter_member(rows, first_holds, j);
            let i = choose|i: int| 0 <= i < rows.len() && rows[i] == first[j];
            assert(!(holds(rows[i], columns, both) is Ok));
        }
    } else {
        let i = choose|i: int| 0 <= i < rows.len() && !(#[trigger] holds(rows[i], columns, c1) is Ok);
        assert(!(holds(rows[i], columns, both) is Ok));
    }
}

/// A selection of a well-formed table is well formed.
pub proof fn lemma_select_wf(t: Relation, c: Formula)
    requires
        t.wf(),
    ensures
        select(t, c) matches Ok(u) ==> u.wf(),
{
    lemma_filter_fits(t.rows, keeps(t.columns, c), t.columns.len());
}

/// A projection of a well-formed table is well formed.
pub proof fn lemma_project_wf(t: Relation, targets: Seq<Name>)
    requires
        t.wf(),
    ensures
        project(t, targets) matches Ok(u) ==> u.wf(),
{
    if projectable(t.columns, targets) {
        let rows = t.rows.map_values(gathers(t.columns, targets));
        assert forall|i: int| 0 <= i < rows.len() implies row_fits(#[trigger] rows[i], targets.len()) by {
            assert(row_fits(t.rows[i], t.columns.len()));
            lemma_gather_fits(t.rows[i], t.columns, targets);
        }
    }
}

/// Renaming steps keep the number of columns and name no column twice.
pub proof fn lemma_rename_from_distinct(columns: Seq<Name>, old: Seq<Name>, new: Seq<Name>, from: int)
    requires
        columns.no_duplicates(),
    ensures
        rename_from(columns, old, new, from) matches Ok(renamed) ==> renamed.no_duplicates()
            && renamed.len() == columns.len(),
    decreases old.len() - from,
{
    if 0 <= from < old.len() && from < new.len() {
        if let Ok(next) = rename_one(columns, old[from], new[from]) {
            let p = columns.index_of(old[from]);
            assert forall|a: int, b: int|
                0 <= a < next.len() && 0 <= b < next.len() && a != b implies next[a] != next[b] by {
                if a != p && b != p {
                    assert(columns[a] != columns[b]);
                } else if a == p {
                    assert(columns[b] != columns[p]);
                } else {
                    assert(columns[a] != columns[p]);
                }
            }
            lemma_rename_from_distinct(next, old, new, from + 1);
        }
    }
}

/// A renaming of a well-formed table is well formed.
pub proof fn lemma_rename_wf(t: Relation, old: Seq<Name>, new: Seq<Name>)
    requires
        t.wf(),
    ensures
        rename(t, old, new) matches Ok(u) ==> u.wf(),
{
    lemma_rename_from_distinct(t.columns, old, new, 0);
}

/// A cross product of well-formed tables is well formed.
pub proof fn lemma_product_wf(a: Relation, b: Relation)
    requires
        a.wf(),
        b.wf(),
    ensures
        product(a, b) matches Ok(u) ==> u.wf(),
{
    if !clash(a.columns, b.columns) {
        lemma_columns_distinct(a.columns, b.columns);
        lemma_cross_fits(a.rows, b.rows, a.columns.len(), b.columns.len());
    }
}

/// A difference of a well-formed table and any table is well formed.
pub proof fn lemma_except_wf(a: Relation, b: Relation)
    requires
        a.wf(),
    ensures
        except(a, b).wf(),
{
    lemma_filter_fits(a.rows, absent_from(b.rows), a.columns.len());
}

/// A union of well-formed tables is well formed.
pub proof fn lemma_union_wf(a: Relation, b: Relation)
    requires
        a.wf(),
        b.wf(),
    ensures
        union(a, b) matches Ok(u) ==> u.wf(),
{
    if same_names(a.columns, b.columns) {
        lemma_project_wf(b, a.columns);
        lemma_rows_fit_add(
            a.rows,
            b.rows.map_values(gathers(b.columns, a.columns)),
            a.columns.len(),
        );
    }
}

/// What a fused node makes of a well-formed table is well formed.
pub proof fn lemma_select_project_rename_wf(t: Relation, c: Formula, old: Seq<Name>, new: Seq<Name>)
    requires
        t.wf(),
    ensures
        select_project_rename(t, c, old, new) matches Ok(u) ==> u.wf(),
{
    lemma_select_wf(t, c);
    if let Ok(selected) = select(t, c) {
        lemma_project_wf(selected, old);
        if let Ok(projected) = project(selected, old) {
            lemma_rename_wf(projected, old, new);
        }
    }
}

/// A fused join of well-formed tables is well formed.
pub proof fn lemma_join_wf(a: Relation, b: Relation, c: Formula, old: Seq<Name>, new: Seq<Name>)
    requires
        a.wf(),
        b.wf(),
    ensures
        join(a, b, c, old, new) matches Ok(u) ==> u.wf(),
{
    if !clash(a.columns, b.columns) {
        let pairs = equi_pairs(c, a.columns, b.columns);
        lemma_columns_distinct(a.columns, b.columns);
        lemma_joined_fits(a.rows, b.rows, pairs, a.columns.len(), b.columns.len());
        let wide = Relation { columns: a.columns + b.columns, rows: joined(a.rows, b.rows, pairs) };
        lemma_select_project_rename_wf(wide, residual(c, a.columns, b.columns), old, new);
    }
}

/// What is found among well-formed sources is well formed.
pub proof fn lemma_find_wf(sources: Sources, name: Name)
    requires
        sources_wf(sources),
    ensures
        find(sources, name) matches Some(t) ==> t.wf(),
    decreases sources.len(),
{
    if sources.len() > 0 {
        assert(sources[sources.len() - 1] == sources.last());
        if sources.last().0 != name {
            assert forall|i: int| 0 <= i < sources.drop_last().len() implies (
            #[trigger] sources.drop_last()[i]).1.wf() by {
                assert(sources.drop_last()[i] == sources[i]);
            }
            lemma_find_wf(sources.drop_last(), name);
        }
    }
}

/// Every table that a plan evaluates to is well formed: its column names
/// are unique, every row has one cell for each column, and no cell is a
/// column reference.
pub proof fn law_eval_wf(plan: Plan, sources: Sources)
    requires
        sources_wf(sources),
    ensures
        eval_plan(plan, sources) matches Ok(t) ==> t.wf(),
    decreases plan,
{
    match plan {
        Plan::Select(p, c) => {
            law_eval_wf(*p, sources);
            if let Ok(t) = eval_plan(*p, sources) {
                lemma_select_wf(t, c);
            }
        },
        Plan::Project(p, targets) => {
            law_eval_wf(*p, sources);
            if let Ok(t) = eval_plan(*p, sources) {
                lemma_project_wf(t, targets);
            }
        },
        Plan::Rename(p, old, new) => {
            law_eval_wf(*p, sources);
            if let Ok(t) = eval_plan(*p, sources) {
                lemma_rename_wf(t, old, new);
            }
        },
        Plan::Except(p, q) => {
            law_eval_wf(*p, sources);
            law_eval_wf(*q, sources);
            if let Ok(a) = eval_plan(*p, sources) {
                if let Ok(b) = eval_plan(*q, sources) {
                    lemma_except_wf(a, b);
                }
            }
        },
        Plan::Union(p, q) => {
            law_eval_wf(*p, sources);
            law_eval_wf(*q, sources);
            if let Ok(a) = eval_plan(*p, sources) {
                if let Ok(b) = eval_plan(*q, sources) {
                    lemma_union_wf(a, b);
                }
            }
        },
        Plan::Product(p, q) => {
            law_eval_wf(*p, sources);
            law_eval_wf(*q, sources);
            if let Ok(a) = eval_plan(*p, sources) {
                if let Ok(b) = eval_plan(*q, sources) {
                    lemma_product_wf(a, b);
                }
            }
        },
        Plan::ReadSelectProjectRename(name, c, old, new) => {
            lemma_find_wf(sources, name);
            if let Ok(t) = load(sources, name) {
                lemma_select_project_rename_wf(t, c, old, new);
            }
        },
        Plan::JoinProjectRename(p, q, c, old, new) => {
            law_eval_wf(*p, sources);
            law_eval_wf(*q, sources);
            if let Ok(a) = eval_plan(*p, sources) {
                if let Ok(b) = eval_plan(*q, sources) {
                    lemma_join_wf(a, b, c, old, new);
                }
            }
        },
        Plan::Load(name, _) => {
            lemma_find_wf(sources, name);
        },
    }
}

} // verus!
