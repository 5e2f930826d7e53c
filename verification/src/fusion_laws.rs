//! Soundness of the fusion: on a legal plan it changes the order of the
//! columns at most.

use vstd::prelude::*;
use crate::error::Error;
use crate::join_laws::lemma_scoped_decidable;
use crate::laws::law_project_identity;
use crate::laws::lemma_project_wf;
use crate::laws::lemma_rename_wf;
use crate::laws::lemma_select_wf;
use crate::lemmas::lemma_filter_distinct;
use crate::lemmas::lemma_filter_keeps;
use crate::lemmas::lemma_filter_member;
use crate::model::Formula;
use crate::model::Name;
use crate::model::Plan;
use crate::model::Relation;
use crate::model::Sources;
use crate::model::eval_plan;
use crate::model::find;
use crate::model::load;
use crate::model::project;
use crate::model::projectable;
use crate::model::rename;
use crate::model::rename_all;
use crate::model::rename_from;
use crate::model::rename_one;
use crate::model::scoped;
use crate::model::select;
use crate::model::sources_wf;
use crate::rename_laws::no_chain;
use crate::rewrite::Recorded;
use crate::rewrite::fused;
use crate::rewrite::fused_below;
use crate::rewrite::fused_read;
use crate::rewrite::kept_as_is;
use crate::rewrite::merge_names;
use crate::rewrite::not_member_of;
use crate::rewrite::nothing;
use crate::rewrite::renamed_from;
use crate::rewrite::renamed_to;
use crate::rewrite::rewrapped;
use crate::typing::faithful;
use crate::typing::law_typed_evaluates;
use crate::typing::lemma_add_contains;
use crate::typing::lemma_scoped_widen;
use crate::typing::same_set;
use crate::typing::schema_of;
use crate::views::lemma_projection_wf;
use crate::views::lemma_step_distinct;
use crate::views::lemma_view_product;
use crate::views::lemma_view_project;
use crate::views::lemma_view_rename;
use crate::views::lemma_view_select;
use crate::views::lemma_view_union;
use crate::views::projection_of;

verus! {

/// `r` is `t` with its columns in another order: the same column names,
/// the same rows in the same order, each cell under its name.
pub open spec fn permuted(t: Relation, r: Relation) -> bool {
    projection_of(t, r) && same_set(t.columns, r.columns)
}

/// Two lists that hold the same names, each once, have the same length.
pub proof fn lemma_same_set_len(a: Seq<Name>, b: Seq<Name>)
    requires
        a.no_duplicates(),
        b.no_duplicates(),
        same_set(a, b),
    ensures
        a.len() == b.len(),
{
    a.unique_seq_to_set();
    b.unique_seq_to_set();
    assert forall|n: Name| a.to_set().contains(n) == b.to_set().contains(n) by {
        assert(a.contains(n) == b.contains(n));
    }
    assert(a.to_set() =~= b.to_set());
}

/// A table is a permutation of itself.
pub proof fn lemma_permuted_refl(t: Relation)
    requires
        t.wf(),
    ensures
        permuted(t, t),
{
    law_project_identity(t);
}

/// The renaming pairs are simple on a schema: as many old names as new
/// names, the old names distinct columns of the schema, no chain, and the
/// renaming legal.
pub open spec fn simple_renaming(columns: Seq<Name>, old: Seq<Name>, new: Seq<Name>) -> bool {
    &&& old.len() == new.len()
    &&& old.no_duplicates()
    &&& forall|k: int| 0 <= k < old.len() ==> columns.contains(#[trigger] old[k])
    &&& no_chain(old, new)
    &&& rename_all(columns, old, new) is Ok
}

/// One renaming step on schemas that hold the same names.
proof fn lemma_step_same_set(a: Seq<Name>, b: Seq<Name>, o: Name, n: Name)
    requires
        a.no_duplicates(),
        b.no_duplicates(),
        same_set(a, b),
        rename_one(a, o, n) is Ok,
    ensures
        rename_one(b, o, n) is Ok,
        same_set(rename_one(a, o, n)->Ok_0, rename_one(b, o, n)->Ok_0),
{
    assert(a.contains(o) == b.contains(o));
    assert(a.contains(n) == b.contains(n));
    let a2 = rename_one(a, o, n)->Ok_0;
    let b2 = rename_one(b, o, n)->Ok_0;
    assert forall|x: Name| #[trigger] a2.contains(x) == b2.contains(x) by {
        lemma_step_contains(a, o, n, x);
        lemma_step_contains(b, o, n, x);
        assert(a.contains(x) == b.contains(x));
    }
}

/// The names after one renaming step: the new name, and the others but
/// the old name.
pub proof fn lemma_step_contains(columns: Seq<Name>, o: Name, n: Name, x: Name)
    requires
        columns.no_duplicates(),
        rename_one(columns, o, n) is Ok,
    ensures
        rename_one(columns, o, n)->Ok_0.contains(x) == (x == n || (columns.contains(x) && x != o)),
{
    let next = rename_one(columns, o, n)->Ok_0;
    let p = columns.index_of(o);
    if next.contains(x) {
        let i = choose|i: int| 0 <= i < next.len() && next[i] == x;
        if i != p {
            assert(columns[i] == x);
            assert(columns[i] != columns[p]);
        }
    }
    if x == n {
        assert(next[p] == x);
    } else if columns.contains(x) && x != o {
        let i = choose|i: int| 0 <= i < columns.len() && columns[i] == x;
        assert(next[i] == x);
    }
}

/// Renaming steps on schemas that hold the same names are legal on both or
/// on neither, and leave schemas that hold the same names.
pub proof fn lemma_rename_same_set(a: Seq<Name>, b: Seq<Name>, old: Seq<Name>, new: Seq<Name>, from: int)
    requires
        a.no_duplicates(),
        b.no_duplicates(),
        same_set(a, b),
        rename_from(a, old, new, from) is Ok,
    ensures
        rename_from(b, old, new, from) is Ok,
        same_set(rename_from(a, old, new, from)->Ok_0, rename_from(b, old, new, from)->Ok_0),
    decreases old.len() - from,
{
    if 0 <= from < old.len() && from < new.len() {
        lemma_step_same_set(a, b, old[from], new[from]);
        lemma_step_distinct(a, old[from], new[from]);
        lemma_step_distinct(b, old[from], new[from]);
        lemma_rename_same_set(
            rename_one(a, old[from], new[from])->Ok_0,
            rename_one(b, old[from], new[from])->Ok_0,
            old,
            new,
            from + 1,
        );
    }
}

/// A name that no later step renames stays through the renaming steps.
proof fn lemma_rename_keeps(columns: Seq<Name>, old: Seq<Name>, new: Seq<Name>, from: int, x: Name)
    requires
        columns.no_duplicates(),
        columns.contains(x),
        forall|k: int| from <= k < old.len() ==> #[trigger] old[k] != x,
        rename_from(columns, old, new, from) is Ok,
    ensures
        rename_from(columns, old, new, from)->Ok_0.contains(x),
    decreases old.len() - from,
{
    if 0 <= from < old.len() && from < new.len() {
        lemma_step_contains(columns, old[from], new[from], x);
        lemma_step_distinct(columns, old[from], new[from]);
        lemma_rename_keeps(rename_one(columns, old[from], new[from])->Ok_0, old, new, from + 1, x);
    }
}

/// The renaming by longer lists that begin with the pairs of shorter lists
/// does first what the renaming by the shorter lists does.
proof fn lemma_rename_prefix(
    columns: Seq<Name>,
    old: Seq<Name>,
    new: Seq<Name>,
    more_old: Seq<Name>,
    more_new: Seq<Name>,
    from: int,
)
    requires
        0 <= from <= old.len(),
        old.len() == new.len(),
        more_old.len() == more_new.len(),
        old.len() <= more_old.len(),
        forall|k: int| 0 <= k < old.len() ==> more_old[k] == old[k] && more_new[k] == new[k],
    ensures
        rename_from(columns, more_old, more_new, from) == (match rename_from(
            columns,
            old,
            new,
            from,
        ) {
            Ok(renamed) => rename_from(renamed, more_old, more_new, old.len() as int),
            Err(e) => Err(e),
        }),
    decreases old.len() - from,
{
    if from < old.len() {
        if let Ok(next) = rename_one(columns, old[from], new[from]) {
            lemma_rename_prefix(next, old, new, more_old, more_new, from + 1);
        }
    }
}

/// Renaming columns to their own names changes nothing.
proof fn lemma_rename_identity(columns: Seq<Name>, old: Seq<Name>, new: Seq<Name>, from: int)
    requires
        0 <= from,
        old.len() == new.len(),
        forall|k: int| from <= k < old.len() ==> old[k] == new[k] && columns.contains(#[trigger] old[k]),
    ensures
        rename_from(columns, old, new, from) == Ok::<Seq<Name>, Error>(columns),
    decreases old.len() - from,
{
    if from < old.len() {
        assert(columns.contains(old[from]));
        let p = columns.index_of(old[from]);
        assert(columns.update(p, new[from]) =~= columns);
        lemma_rename_identity(columns, old, new, from + 1);
    }
}

/// What the recorded selection, projection and renaming make of a table,
/// applied in this order.
pub open spec fn replayed(t: Relation, seen: Recorded) -> Result<Relation, Error> {
    let selected = match seen.selection {
        Some(c) => select(t, c),
        None => Ok(t),
    };
    let projected = match selected {
        Ok(x) => match seen.projection {
            Some(columns) => project(x, columns),
            None => Ok(x),
        },
        Err(e) => Err(e),
    };
    match projected {
        Ok(y) => match seen.renaming {
            Some((old, new)) => rename(y, old, new),
            None => Ok(y),
        },
        Err(e) => Err(e),
    }
}

/// The schema that the recorded renaming applies to.
pub open spec fn renaming_base(seen: Recorded, columns: Seq<Name>) -> Seq<Name> {
    match seen.projection {
        Some(targets) => targets,
        None => columns,
    }
}

/// What was recorded is legal on a table of the schema `columns`.
pub open spec fn seen_legal(seen: Recorded, columns: Seq<Name>) -> bool {
    &&& seen.selection matches Some(c) ==> scoped(c, columns)
    &&& seen.projection matches Some(targets) ==> projectable(columns, targets)
    &&& seen.renaming matches Some((old, new)) ==> simple_renaming(
        renaming_base(seen, columns),
        old,
        new,
    )
}

/// What was recorded, where it is legal, makes a well-formed table of a
/// well-formed table.
pub proof fn lemma_replayed_ok(t: Relation, seen: Recorded)
    requires
        t.wf(),
        seen_legal(seen, t.columns),
    ensures
        replayed(t, seen) matches Ok(w) && w.wf(),
{
    if let Some(c) = seen.selection {
        lemma_scoped_decidable(t.rows, t.columns, c);
        lemma_select_wf(t, c);
    }
    let x = match seen.selection {
        Some(c) => select(t, c)->Ok_0,
        None => t,
    };
    if let Some(columns) = seen.projection {
        lemma_project_wf(x, columns);
    }
    let y = match seen.projection {
        Some(columns) => project(x, columns)->Ok_0,
        None => x,
    };
    if let Some((old, new)) = seen.renaming {
        lemma_rename_wf(y, old, new);
    }
}

/// What was recorded makes permuted tables of permuted tables.
pub proof fn lemma_replayed_permuted(t: Relation, r: Relation, seen: Recorded)
    requires
        permuted(t, r),
        seen_legal(seen, t.columns),
    ensures
        replayed(t, seen) is Ok,
        replayed(r, seen) is Ok,
        permuted(replayed(t, seen)->Ok_0, replayed(r, seen)->Ok_0),
{
    lemma_projection_wf(t, r);
    lemma_replayed_ok(t, seen);
    if let Some(c) = seen.selection {
        lemma_scoped_same_set(c, t.columns, r.columns);
        lemma_view_select(t, r, c);
        lemma_select_wf(t, c);
        lemma_select_wf(r, c);
    }
    let x = match seen.selection {
        Some(c) => select(t, c)->Ok_0,
        None => t,
    };
    let x2 = match seen.selection {
        Some(c) => select(r, c)->Ok_0,
        None => r,
    };
    assert(permuted(x, x2));
    if let Some(columns) = seen.projection {
        assert forall|i: int| 0 <= i < columns.len() implies x2.columns.contains(
            #[trigger] columns[i],
        ) by {
            assert(x.columns.contains(columns[i]));
        }
        lemma_view_project(x, x2, columns);
        lemma_project_wf(x, columns);
        lemma_permuted_refl(project(x, columns)->Ok_0);
    }
    let y = match seen.projection {
        Some(columns) => project(x, columns)->Ok_0,
        None => x,
    };
    let y2 = match seen.projection {
        Some(columns) => project(x2, columns)->Ok_0,
        None => x2,
    };
    assert(permuted(y, y2));
    if let Some((old, new)) = seen.renaming {
        lemma_projection_wf(y, y2);
        lemma_rename_same_set(y.columns, y2.columns, old, new, 0);
        lemma_view_rename(y, y2, old, new);
    }
}

/// A condition scoped in a schema is scoped in every schema that holds the
/// same names.
pub proof fn lemma_scoped_same_set(c: Formula, columns: Seq<Name>, other: Seq<Name>)
    requires
        scoped(c, columns),
        same_set(columns, other),
    ensures
        scoped(c, other),
{
    assert forall|i: int| 0 <= i < columns.len() implies other.contains(#[trigger] columns[i]) by {
        assert(columns.contains(columns[i]));
    }
    lemma_scoped_widen(c, columns, other);
}

/// A plan with what was recorded put back above it evaluates to what the
/// recorded selection, projection and renaming make of its table.
pub proof fn lemma_rewrapped_evaluates(plan: Plan, seen: Recorded, sources: Sources)
    ensures
        eval_plan(rewrapped(plan, seen), sources) == (match eval_plan(plan, sources) {
            Ok(t) => replayed(t, seen),
            Err(e) => Err(e),
        }),
{
    let a = match seen.selection {
        Some(c) => Plan::Select(Box::new(plan), c),
        None => plan,
    };
    let b = match seen.projection {
        Some(columns) => Plan::Project(Box::new(a), columns),
        None => a,
    };
    assert(eval_plan(a, sources) == (match eval_plan(plan, sources) {
        Ok(t) => match seen.selection {
            Some(c) => select(t, c),
            None => Ok(t),
        },
        Err(e) => Err(e),
    }));
    assert(eval_plan(b, sources) == (match eval_plan(a, sources) {
        Ok(t) => match seen.projection {
            Some(columns) => project(t, columns),
            None => Ok(t),
        },
        Err(e) => Err(e),
    }));
}

/// Merging a list of distinct names into the empty list gives the list.
proof fn lemma_merge_distinct(names: Seq<Name>)
    requires
        names.no_duplicates(),
    ensures
        merge_names(Seq::empty(), names) == names,
    decreases names.len(),
{
    if names.len() > 0 {
        let init = names.drop_last();
        lemma_merge_distinct(init);
        if init.contains(names.last()) {
            let i = choose|i: int| 0 <= i < init.len() && init[i] == names.last();
            assert(names[i] == names[names.len() - 1]);
        }
        assert(init.push(names.last()) =~= names);
    }
}

/// The old and the new attributes of the fused read that a chain over a
/// load collapses into.
proof fn lemma_fused_read(t: Relation, name: Name, c: Formula, seen: Recorded, sources: Sources)
    requires
        t.wf(),
        find(sources, name) == Some(t),
        seen.selection == Some(c),
        seen_legal(seen, t.columns),
    ensures
        eval_plan(fused_read(name, t.columns, c, seen), sources) is Ok,
        replayed(t, seen) is Ok,
        permuted(
            replayed(t, seen)->Ok_0,
            eval_plan(fused_read(name, t.columns, c, seen), sources)->Ok_0,
        ),
{
    let fields = renaming_base(seen, t.columns);
    let old = renamed_from(seen);
    let new = renamed_to(seen);
    let rest = kept_as_is(seen, t.columns);
    let old_attrs = old + rest;
    let new_attrs = new + rest;
    lemma_replayed_ok(t, seen);
    lemma_merge_distinct(fields);
    lemma_filter_distinct(fields, not_member_of(old));
    if seen.renaming is None {
        assert(rename_all(fields, old, new) is Ok);
    }
    assert(old.len() == new.len());
    // The old attributes are the fields, in another order.
    assert forall|i: int| 0 <= i < rest.len() implies fields.contains(#[trigger] rest[i])
        && !old.contains(rest[i]) by {
        lemma_filter_member(fields, not_member_of(old), i);
    }
    assert forall|x: Name| #[trigger] old_attrs.contains(x) == fields.contains(x) by {
        lemma_add_contains(old, rest, x);
        if old.contains(x) {
            let k = choose|k: int| 0 <= k < old.len() && old[k] == x;
            assert(fields.contains(old[k]));
        }
        if rest.contains(x) {
            let i = choose|i: int| 0 <= i < rest.len() && rest[i] == x;
        }
        if fields.contains(x) && !old.contains(x) {
            let i = choose|i: int| 0 <= i < fields.len() && fields[i] == x;
            lemma_filter_keeps(fields, not_member_of(old), i);
        }
    }
    assert(old_attrs.no_duplicates()) by {
        assert forall|a: int, b: int|
            0 <= a < old_attrs.len() && 0 <= b < old_attrs.len() && a != b implies old_attrs[a]
            != old_attrs[b] by {
            if a < old.len() && b < old.len() {
                assert(old[a] != old[b]);
            } else if a >= old.len() && b >= old.len() {
                assert(rest[a - old.len()] != rest[b - old.len()]);
            } else if a < old.len() {
                assert(!old.contains(rest[b - old.len()]));
            } else {
                assert(!old.contains(rest[a - old.len()]));
            }
        }
    }
    assert(projectable(fields, old_attrs)) by {
        assert forall|i: int| 0 <= i < old_attrs.len() implies fields.contains(
            #[trigger] old_attrs[i],
        ) by {
            assert(old_attrs.contains(old_attrs[i]));
        }
    }
    // The selected rows, under the recorded projection and under the old attributes.
    lemma_scoped_decidable(t.rows, t.columns, c);
    lemma_select_wf(t, c);
    let picked = select(t, c)->Ok_0;
    if seen.projection is Some {
        lemma_project_wf(picked, fields);
    }
    let shown = match seen.projection {
        Some(columns) => project(picked, columns)->Ok_0,
        None => picked,
    };
    assert(projection_of(picked, shown)) by {
        if seen.projection is None {
            law_project_identity(picked);
        }
    }
    lemma_view_project(picked, shown, old_attrs);
    let fused_rows = project(picked, old_attrs)->Ok_0;
    lemma_project_wf(picked, old_attrs);
    assert(permuted(shown, fused_rows));
    // The renaming of the fused read is the recorded renaming.
    lemma_rename_same_set(fields, old_attrs, old, new, 0);
    let renamed = rename_from(old_attrs, old, new, 0)->Ok_0;
    lemma_rename_prefix(old_attrs, old, new, old_attrs, new_attrs, 0);
    assert forall|k: int| old.len() <= k < old_attrs.len() implies old_attrs[k] == new_attrs[k]
        && renamed.contains(#[trigger] old_attrs[k]) by {
        let x = rest[k - old.len()];
        assert(old_attrs[k] == x);
        assert(old_attrs.contains(x));
        assert forall|j: int| 0 <= j < old.len() implies #[trigger] old[j] != x by {
            if old[j] == x {
                assert(old.contains(x));
            }
        }
        lemma_rename_keeps(old_attrs, old, new, 0, x);
    }
    lemma_rename_identity(renamed, old_attrs, new_attrs, old.len() as int);
    assert(rename_all(old_attrs, old_attrs, new_attrs) == Ok::<Seq<Name>, Error>(renamed));
    if let Some((o, n)) = seen.renaming {
        lemma_view_rename(shown, fused_rows, old, new);
    }
}

/// The plan has no renaming.
pub open spec fn renaming_free(plan: Plan) -> bool
    decreases plan,
{
    match plan {
        Plan::Select(p, _) => renaming_free(*p),
        Plan::Project(p, _) => renaming_free(*p),
        Plan::Rename(_, _, _) => false,
        Plan::Except(p, q) => renaming_free(*p) && renaming_free(*q),
        Plan::Union(p, q) => renaming_free(*p) && renaming_free(*q),
        Plan::Product(p, q) => renaming_free(*p) && renaming_free(*q),
        Plan::JoinProjectRename(p, q, _, _, _) => renaming_free(*p) && renaming_free(*q),
        _ => true,
    }
}

/// The fused read that a chain without renaming collapses into evaluates
/// to what the recorded selection and projection make of the table.
proof fn lemma_fused_read_exact(t: Relation, name: Name, c: Formula, seen: Recorded, sources: Sources)
    requires
        t.wf(),
        find(sources, name) == Some(t),
        seen.selection == Some(c),
        seen.renaming is None,
        seen_legal(seen, t.columns),
    ensures
        eval_plan(fused_read(name, t.columns, c, seen), sources) == replayed(t, seen),
{
    let fields = renaming_base(seen, t.columns);
    let none = Seq::<Name>::empty();
    lemma_merge_distinct(fields);
    assert forall|i: int| 0 <= i < fields.len() implies not_member_of(none)(#[trigger] fields[i]) by {
        assert(!none.contains(fields[i]));
    }
    crate::lemmas::lemma_filter_all(fields, not_member_of(none));
    assert(none + fields =~= fields);
    lemma_scoped_decidable(t.rows, t.columns, c);
    lemma_select_wf(t, c);
    let picked = select(t, c)->Ok_0;
    if seen.projection is None {
        law_project_identity(picked);
    }
    lemma_rename_identity(fields, fields, fields, 0);
}

/// What the fusion makes of a legal plan without renaming, with what the
/// walk has recorded, evaluates to what the recorded selection and
/// projection make of the table of the plan.
pub proof fn lemma_fused_exact(plan: Plan, seen: Recorded, sources: Sources)
    requires
        sources_wf(sources),
        schema_of(plan, sources) matches Some(s) && seen_legal(seen, s),
        seen.renaming is None,
        renaming_free(plan),
        faithful(plan, sources),
    ensures
        fused(plan, seen) matches Ok(q) ==> eval_plan(q, sources) == replayed(
            eval_plan(plan, sources)->Ok_0,
            seen,
        ),
    decreases plan, 1nat,
{
    law_typed_evaluates(plan, sources);
    let t = eval_plan(plan, sources)->Ok_0;
    if fused(plan, seen) is Ok {
        match plan {
            Plan::Select(p, c) => {
                if seen.selection is None {
                    law_typed_evaluates(*p, sources);
                    let tp = eval_plan(*p, sources)->Ok_0;
                    let more = Recorded { selection: Some(c), ..seen };
                    lemma_scoped_decidable(tp.rows, tp.columns, c);
                    lemma_fused_exact(*p, more, sources);
                    assert(replayed(t, seen) == replayed(tp, more));
                } else {
                    lemma_fused_below_exact(plan, seen, sources);
                }
            },
            Plan::Project(p, columns) => {
                law_typed_evaluates(*p, sources);
                let tp = eval_plan(*p, sources)->Ok_0;
                assert(projection_of(tp, t));
                if let Some(c) = seen.selection {
                    lemma_scoped_widen(c, columns, tp.columns);
                    lemma_view_select(tp, t, c);
                    lemma_select_wf(tp, c);
                }
                if seen.projection is None {
                    let more = Recorded { projection: Some(columns), ..seen };
                    lemma_fused_exact(*p, more, sources);
                    assert(replayed(t, seen) == replayed(tp, more));
                } else {
                    let targets = seen.projection->Some_0;
                    lemma_projectable_trans(tp.columns, columns, targets);
                    lemma_fused_exact(*p, seen, sources);
                    if let Some(c) = seen.selection {
                        lemma_view_project(select(tp, c)->Ok_0, select(t, c)->Ok_0, targets);
                    } else {
                        lemma_view_project(tp, t, targets);
                    }
                    assert(replayed(t, seen) == replayed(tp, seen));
                }
            },
            Plan::Load(name, columns) => {
                if let Some(c) = seen.selection {
                    lemma_fused_read_exact(t, name, c, seen, sources);
                } else {
                    lemma_fused_below_exact(plan, seen, sources);
                }
            },
            _ => {
                lemma_fused_below_exact(plan, seen, sources);
            },
        }
    }
}

/// Where the walk stops short of a fusion in a legal plan without
/// renaming, what the fusion makes of the plan evaluates to what the
/// recorded selection and projection make of the table of the plan.
pub proof fn lemma_fused_below_exact(plan: Plan, seen: Recorded, sources: Sources)
    requires
        sources_wf(sources),
        schema_of(plan, sources) matches Some(s) && seen_legal(seen, s),
        seen.renaming is None,
        renaming_free(plan),
        faithful(plan, sources),
    ensures
        fused_below(plan, seen) matches Ok(q) ==> eval_plan(q, sources) == replayed(
            eval_plan(plan, sources)->Ok_0,
            seen,
        ),
    decreases plan, 0nat,
{
    law_typed_evaluates(plan, sources);
    if fused_below(plan, seen) is Ok {
        match plan {
            Plan::Select(p, c) => {
                law_typed_evaluates(*p, sources);
                lemma_fused_exact(*p, nothing(), sources);
                let node = Plan::Select(Box::new(fused(*p, nothing())->Ok_0), c);
                lemma_rewrapped_evaluates(node, seen, sources);
            },
            Plan::Project(p, columns) => {
                law_typed_evaluates(*p, sources);
                lemma_fused_exact(*p, nothing(), sources);
                let node = Plan::Project(Box::new(fused(*p, nothing())->Ok_0), columns);
                lemma_rewrapped_evaluates(node, seen, sources);
            },
            Plan::Except(p, q) => {
                law_typed_evaluates(*p, sources);
                law_typed_evaluates(*q, sources);
                lemma_fused_exact(*p, nothing(), sources);
                lemma_fused_exact(*q, nothing(), sources);
                let node = Plan::Except(
                    Box::new(fused(*p, nothing())->Ok_0),
                    Box::new(fused(*q, nothing())->Ok_0),
                );
                lemma_rewrapped_evaluates(node, seen, sources);
            },
            Plan::Union(p, q) => {
                law_typed_evaluates(*p, sources);
                law_typed_evaluates(*q, sources);
                lemma_fused_exact(*p, nothing(), sources);
                lemma_fused_exact(*q, nothing(), sources);
                let node = Plan::Union(
                    Box::new(fused(*p, nothing())->Ok_0),
                    Box::new(fused(*q, nothing())->Ok_0),
                );
                lemma_rewrapped_evaluates(node, seen, sources);
            },
            Plan::Product(p, q) => {
                law_typed_evaluates(*p, sources);
                law_typed_evaluates(*q, sources);
                lemma_fused_exact(*p, nothing(), sources);
                lemma_fused_exact(*q, nothing(), sources);
                let node = Plan::Product(
                    Box::new(fused(*p, nothing())->Ok_0),
                    Box::new(fused(*q, nothing())->Ok_0),
                );
                lemma_rewrapped_evaluates(node, seen, sources);
            },
            Plan::Load(name, columns) => {
                lemma_rewrapped_evaluates(plan, seen, sources);
            },
            _ => {},
        }
    }
}

/// The plan is ready for the fusion: the two sides of a difference have no
/// renaming, and the pairs of each renaming are simple on the schema they
/// apply to.
pub open spec fn fusion_ready(plan: Plan, sources: Sources) -> bool
    decreases plan,
{
    match plan {
        Plan::Select(p, _) => fusion_ready(*p, sources),
        Plan::Project(p, _) => fusion_ready(*p, sources),
        Plan::Rename(p, old, new) => fusion_ready(*p, sources) && (schema_of(*p, sources) matches Some(
            s,
        ) ==> simple_renaming(s, old, new)),
        Plan::Except(p, q) => renaming_free(plan),
        Plan::Union(p, q) => fusion_ready(*p, sources) && fusion_ready(*q, sources),
        Plan::Product(p, q) => fusion_ready(*p, sources) && fusion_ready(*q, sources),
        _ => true,
    }
}

/// Columns that can be projected onto targets can be projected onto what
/// the targets can be projected onto.
proof fn lemma_projectable_trans(columns: Seq<Name>, middle: Seq<Name>, targets: Seq<Name>)
    requires
        projectable(columns, middle),
        projectable(middle, targets),
    ensures
        projectable(columns, targets),
{
    assert forall|i: int| 0 <= i < targets.len() implies columns.contains(#[trigger] targets[i]) by {
        assert(middle.contains(targets[i]));
        let j = middle.index_of(targets[i]);
        assert(columns.contains(middle[j]));
    }
}

/// What the fusion makes of a legal plan, with what the walk has recorded,
/// evaluates to a permutation of what the recorded selection, projection
/// and renaming make of the table of the plan.
pub proof fn lemma_fused(plan: Plan, seen: Recorded, sources: Sources)
    requires
        sources_wf(sources),
        schema_of(plan, sources) matches Some(s) && seen_legal(seen, s),
        fusion_ready(plan, sources),
        faithful(plan, sources),
    ensures
        fused(plan, seen) matches Ok(q) ==> eval_plan(q, sources) is Ok && replayed(
            eval_plan(plan, sources)->Ok_0,
            seen,
        ) is Ok && permuted(
            replayed(eval_plan(plan, sources)->Ok_0, seen)->Ok_0,
            eval_plan(q, sources)->Ok_0,
        ),
    decreases plan, 1nat,
{
    law_typed_evaluates(plan, sources);
    let t = eval_plan(plan, sources)->Ok_0;
    if fused(plan, seen) is Ok {
        match plan {
            Plan::Select(p, c) => {
                if seen.selection is None {
                    law_typed_evaluates(*p, sources);
                    let tp = eval_plan(*p, sources)->Ok_0;
                    let more = Recorded { selection: Some(c), ..seen };
                    lemma_scoped_decidable(tp.rows, tp.columns, c);
                    lemma_fused(*p, more, sources);
                    assert(replayed(t, seen) == replayed(tp, more));
                } else {
                    lemma_fused_below(plan, seen, sources);
                }
            },
            Plan::Project(p, columns) => {
                law_typed_evaluates(*p, sources);
                let tp = eval_plan(*p, sources)->Ok_0;
                assert(projection_of(tp, t));
                if let Some(c) = seen.selection {
                    lemma_scoped_widen(c, columns, tp.columns);
                    lemma_view_select(tp, t, c);
                    lemma_select_wf(tp, c);
                }
                if seen.projection is None {
                    let more = Recorded { projection: Some(columns), ..seen };
                    lemma_fused(*p, more, sources);
                    assert(replayed(t, seen) == replayed(tp, more));
                } else {
                    let targets = seen.projection->Some_0;
                    lemma_projectable_trans(tp.columns, columns, targets);
                    lemma_fused(*p, seen, sources);
                    if let Some(c) = seen.selection {
                        lemma_view_project(select(tp, c)->Ok_0, select(t, c)->Ok_0, targets);
                    } else {
                        lemma_view_project(tp, t, targets);
                    }
                    assert(replayed(t, seen) == replayed(tp, seen));
                }
            },
            Plan::Rename(p, old, new) => {
                if seen.projection is None && seen.selection is None && seen.renaming is None {
                    law_typed_evaluates(*p, sources);
                    let tp = eval_plan(*p, sources)->Ok_0;
                    let more = Recorded { renaming: Some((old, new)), ..seen };
                    lemma_fused(*p, more, sources);
                    assert(replayed(t, seen) == replayed(tp, more));
                } else {
                    lemma_fused_below(plan, seen, sources);
                }
            },
            Plan::Load(name, columns) => {
                if let Some(c) = seen.selection {
                    lemma_fused_read(t, name, c, seen, sources);
                } else {
                    lemma_fused_below(plan, seen, sources);
                }
            },
            _ => {
                lemma_fused_below(plan, seen, sources);
            },
        }
    }
}

/// Where the walk stops short of a fusion, what the fusion makes of the
/// plan evaluates to a permutation of what the recorded selection,
/// projection and renaming make of the table of the plan.
pub proof fn lemma_fused_below(plan: Plan, seen: Recorded, sources: Sources)
    requires
        sources_wf(sources),
        schema_of(plan, sources) matches Some(s) && seen_legal(seen, s),
        fusion_ready(plan, sources),
        faithful(plan, sources),
    ensures
        fused_below(plan, seen) matches Ok(q) ==> eval_plan(q, sources) is Ok && replayed(
            eval_plan(plan, sources)->Ok_0,
            seen,
        ) is Ok && permuted(
            replayed(eval_plan(plan, sources)->Ok_0, seen)->Ok_0,
            eval_plan(q, sources)->Ok_0,
        ),
    decreases plan, 0nat,
{
    law_typed_evaluates(plan, sources);
    let t = eval_plan(plan, sources)->Ok_0;
    lemma_replayed_ok(t, seen);
    if fused_below(plan, seen) is Ok {
        match plan {
            Plan::Select(p, c) => {
                law_typed_evaluates(*p, sources);
                let tp = eval_plan(*p, sources)->Ok_0;
                lemma_fused(*p, nothing(), sources);
                let x = fused(*p, nothing())->Ok_0;
                let rp = eval_plan(x, sources)->Ok_0;
                lemma_scoped_same_set(c, tp.columns, rp.columns);
                lemma_view_select(tp, rp, c);
                let node = Plan::Select(Box::new(x), c);
                lemma_rewrapped_evaluates(node, seen, sources);
                lemma_replayed_permuted(t, eval_plan(node, sources)->Ok_0, seen);
            },
            Plan::Project(p, columns) => {
                law_typed_evaluates(*p, sources);
                let tp = eval_plan(*p, sources)->Ok_0;
                lemma_fused(*p, nothing(), sources);
                let x = fused(*p, nothing())->Ok_0;
                let rp = eval_plan(x, sources)->Ok_0;
                assert forall|i: int| 0 <= i < columns.len() implies rp.columns.contains(
                    #[trigger] columns[i],
                ) by {
                    assert(tp.columns.contains(columns[i]));
                }
                lemma_view_project(tp, rp, columns);
                let node = Plan::Project(Box::new(x), columns);
                lemma_rewrapped_evaluates(node, seen, sources);
                lemma_permuted_refl(t);
                lemma_replayed_permuted(t, t, seen);
            },
            Plan::Rename(p, old, new) => {
                law_typed_evaluates(*p, sources);
                let tp = eval_plan(*p, sources)->Ok_0;
                lemma_fused(*p, nothing(), sources);
                let x = fused(*p, nothing())->Ok_0;
                let rp = eval_plan(x, sources)->Ok_0;
                lemma_projection_wf(tp, rp);
                lemma_rename_same_set(tp.columns, rp.columns, old, new, 0);
                lemma_view_rename(tp, rp, old, new);
                let node = Plan::Rename(Box::new(x), old, new);
                lemma_rewrapped_evaluates(node, seen, sources);
                lemma_replayed_permuted(t, eval_plan(node, sources)->Ok_0, seen);
            },
            Plan::Union(p, q) => {
                law_typed_evaluates(*p, sources);
                law_typed_evaluates(*q, sources);
                let tp = eval_plan(*p, sources)->Ok_0;
                let tq = eval_plan(*q, sources)->Ok_0;
                lemma_fused(*p, nothing(), sources);
                lemma_fused(*q, nothing(), sources);
                let x = fused(*p, nothing())->Ok_0;
                let y = fused(*q, nothing())->Ok_0;
                let rp = eval_plan(x, sources)->Ok_0;
                let rq = eval_plan(y, sources)->Ok_0;
                lemma_projection_wf(tp, rp);
                lemma_projection_wf(tq, rq);
                lemma_same_set_len(tp.columns, rp.columns);
                lemma_same_set_len(tq.columns, rq.columns);
                assert forall|i: int| 0 <= i < rp.columns.len() implies rq.columns.contains(
                    #[trigger] rp.columns[i],
                ) by {
                    let n = rp.columns[i];
                    assert(rp.columns.contains(n));
                    assert(tp.columns.contains(n));
                    let k = tp.columns.index_of(n);
                    assert(tq.columns.contains(tp.columns[k]));
                }
                lemma_view_union(tp, rp, tq, rq);
                let node = Plan::Union(Box::new(x), Box::new(y));
                lemma_rewrapped_evaluates(node, seen, sources);
                lemma_replayed_permuted(t, eval_plan(node, sources)->Ok_0, seen);
            },
            Plan::Product(p, q) => {
                law_typed_evaluates(*p, sources);
                law_typed_evaluates(*q, sources);
                let tp = eval_plan(*p, sources)->Ok_0;
                let tq = eval_plan(*q, sources)->Ok_0;
                lemma_fused(*p, nothing(), sources);
                lemma_fused(*q, nothing(), sources);
                let x = fused(*p, nothing())->Ok_0;
                let y = fused(*q, nothing())->Ok_0;
                let rp = eval_plan(x, sources)->Ok_0;
                let rq = eval_plan(y, sources)->Ok_0;
                lemma_view_product(tp, rp, tq, rq);
                let node = Plan::Product(Box::new(x), Box::new(y));
                let r = eval_plan(node, sources)->Ok_0;
                assert forall|n: Name| #[trigger] t.columns.contains(n) == r.columns.contains(n) by {
                    lemma_add_contains(tp.columns, tq.columns, n);
                    lemma_add_contains(rp.columns, rq.columns, n);
                    assert(tp.columns.contains(n) == rp.columns.contains(n));
                    assert(tq.columns.contains(n) == rq.columns.contains(n));
                }
                lemma_rewrapped_evaluates(node, seen, sources);
                lemma_replayed_permuted(t, r, seen);
            },
            Plan::Load(name, columns) => {
                lemma_rewrapped_evaluates(plan, seen, sources);
                lemma_permuted_refl(t);
                lemma_replayed_permuted(t, t, seen);
            },
            Plan::Except(p, q) => {
                law_typed_evaluates(*p, sources);
                law_typed_evaluates(*q, sources);
                lemma_fused_exact(*p, nothing(), sources);
                lemma_fused_exact(*q, nothing(), sources);
                let node = Plan::Except(
                    Box::new(fused(*p, nothing())->Ok_0),
                    Box::new(fused(*q, nothing())->Ok_0),
                );
                lemma_rewrapped_evaluates(node, seen, sources);
                lemma_permuted_refl(t);
                lemma_replayed_permuted(t, t, seen);
            },
            _ => {},
        }
    }
}

/// The fusion is sound on legal plans: what it makes of a plan evaluates to
/// the table that the plan evaluates to, with the columns in another order
/// at most: the same column names and the same rows in the same order,
/// each cell under its name. The plan must be legal, the two sides of its
/// differences must have no renaming, the pairs of its renamings must be
/// simple, and its loads must carry the columns of their relations.
pub proof fn law_fusion_sound(plan: Plan, sources: Sources)
    requires
        sources_wf(sources),
        schema_of(plan, sources) is Some,
        fusion_ready(plan, sources),
        faithful(plan, sources),
    ensures
        fused(plan, nothing()) matches Ok(q) ==> eval_plan(q, sources) is Ok && eval_plan(
            plan,
            sources,
        ) is Ok && permuted(eval_plan(plan, sources)->Ok_0, eval_plan(q, sources)->Ok_0),
{
    law_typed_evaluates(plan, sources);
    lemma_fused(plan, nothing(), sources);
}

} // verus!
