//! The whole pipeline: the five passes in their required order.

use vstd::prelude::*;
use crate::bags::lemma_same_elements_map;
use crate::bags::same_elements;
use crate::congruence::lemma_same_elements_fit;
use crate::congruence::same_table;
use crate::error::Error;
use crate::fusion_laws::fusion_ready;
use crate::fusion_laws::law_fusion_sound;
use crate::fusion_laws::permuted;
use crate::laws::law_eval_wf;
use crate::laws::law_project_identity;
use crate::lemmas::lemma_filter_full;
use crate::lemmas::lemma_filter_member;
use crate::model::Formula;
use crate::model::Name;
use crate::model::Plan;
use crate::model::Relation;
use crate::model::Sources;
use crate::model::eval_plan;
use crate::model::find;
use crate::model::gather;
use crate::model::gathers;
use crate::model::projectable;
use crate::model::row_fits;
use crate::model::sources_wf;
use crate::pass_laws::joins_scoped;
use crate::pass_laws::law_discovery_preserves_eval;
use crate::pass_laws::law_unfuse_preserves_eval;
use crate::projection_laws::law_projection_pushdown_sound;
use crate::projection_laws::projection_ready;
use crate::rewrite::Recorded;
use crate::rewrite::all_in;
use crate::rewrite::columns_of;
use crate::rewrite::discovered;
use crate::rewrite::fused;
use crate::rewrite::fused_read;
use crate::rewrite::member_of;
use crate::rewrite::merge_names;
use crate::rewrite::not_member_of;
use crate::rewrite::nothing;
use crate::rewrite::projections_pushed;
use crate::rewrite::selections_above;
use crate::rewrite::selections_pushed;
use crate::rewrite::unfused;
use crate::selection_laws::law_selection_pushdown_sound;
use crate::selection_laws::selection_ready;
use crate::typing::faithful;
use crate::typing::lemma_merge_contains;
use crate::typing::same_set;
use crate::typing::schema_of;
use crate::views::lemma_gather_gather;
use crate::views::lemma_projection_wf;

verus! {

/// Two tables with the same column names and the same rows, each as
/// often, where a row is the cells under their column names: the order of
/// the columns and the order of the rows do not count.
pub open spec fn equivalent(t: Relation, r: Relation) -> bool {
    &&& t.wf()
    &&& r.wf()
    &&& same_set(t.columns, r.columns)
    &&& same_elements(t.rows, r.rows.map_values(gathers(r.columns, t.columns)))
}

/// Schemas that hold the same names, each once, can be projected onto
/// each other.
proof fn lemma_same_set_projectable(a: Seq<Name>, b: Seq<Name>)
    requires
        a.no_duplicates(),
        b.no_duplicates(),
        same_set(a, b),
    ensures
        projectable(a, b),
        projectable(b, a),
{
    assert forall|i: int| 0 <= i < b.len() implies a.contains(#[trigger] b[i]) by {
        assert(b.contains(b[i]));
    }
    assert forall|i: int| 0 <= i < a.len() implies b.contains(#[trigger] a[i]) by {
        assert(a.contains(a[i]));
    }
}

/// Tables that differ in the order of their rows only are equivalent.
pub proof fn lemma_same_table_equivalent(t: Relation, r: Relation)
    requires
        t.wf(),
        same_table(t, r),
    ensures
        equivalent(t, r),
{
    lemma_same_elements_fit(t.rows, r.rows, t.columns.len());
    law_project_identity(r);
    assert(r.rows.map_values(gathers(r.columns, t.columns)) == r.rows);
}

/// Tables that differ in the order of their columns only are equivalent.
pub proof fn lemma_permuted_equivalent(t: Relation, r: Relation)
    requires
        permuted(t, r),
    ensures
        equivalent(t, r),
{
    lemma_projection_wf(t, r);
    lemma_same_set_projectable(t.columns, r.columns);
    let back = r.rows.map_values(gathers(r.columns, t.columns));
    assert forall|i: int| 0 <= i < t.rows.len() implies #[trigger] back[i] == t.rows[i] by {
        let row = t.rows[i];
        assert(row_fits(row, t.columns.len()));
        lemma_gather_gather(row, t.columns, r.columns, t.columns);
        assert(gather(row, t.columns, t.columns) =~= row) by {
            assert forall|j: int| 0 <= j < t.columns.len() implies gather(
                row,
                t.columns,
                t.columns,
            )[j] == row[j] by {
                assert(t.columns.index_of(t.columns[j]) == j);
            }
        }
    }
    assert(back =~= t.rows);
}

/// Being equivalent is transitive.
pub proof fn lemma_equivalent_trans(t: Relation, u: Relation, r: Relation)
    requires
        equivalent(t, u),
        equivalent(u, r),
    ensures
        equivalent(t, r),
{
    assert forall|n: Name| #[trigger] t.columns.contains(n) == r.columns.contains(n) by {
        assert(t.columns.contains(n) == u.columns.contains(n));
        assert(u.columns.contains(n) == r.columns.contains(n));
    }
    lemma_same_set_projectable(t.columns, u.columns);
    lemma_same_set_projectable(u.columns, r.columns);
    let to_u = gathers(r.columns, u.columns);
    let to_t = gathers(u.columns, t.columns);
    lemma_same_elements_map(u.rows, r.rows.map_values(to_u), to_t);
    assert forall|i: int| 0 <= i < r.rows.len() implies #[trigger] r.rows.map_values(
        to_u,
    ).map_values(to_t)[i] == r.rows.map_values(gathers(r.columns, t.columns))[i] by {
        assert(row_fits(r.rows[i], r.columns.len()));
        lemma_gather_gather(r.rows[i], r.columns, u.columns, t.columns);
    }
    assert(r.rows.map_values(to_u).map_values(to_t) =~= r.rows.map_values(
        gathers(r.columns, t.columns),
    ));
}

/// Expanding fused nodes keeps the loads faithful.
pub proof fn lemma_unfused_faithful(plan: Plan, sources: Sources)
    requires
        faithful(plan, sources),
    ensures
        faithful(unfused(plan), sources),
    decreases plan,
{
    match plan {
        Plan::Select(p, _) => {
            lemma_unfused_faithful(*p, sources);
        },
        Plan::Project(p, _) => {
            lemma_unfused_faithful(*p, sources);
        },
        Plan::Rename(p, _, _) => {
            lemma_unfused_faithful(*p, sources);
        },
        Plan::Except(p, q) => {
            lemma_unfused_faithful(*p, sources);
            lemma_unfused_faithful(*q, sources);
        },
        Plan::Union(p, q) => {
            lemma_unfused_faithful(*p, sources);
            lemma_unfused_faithful(*q, sources);
        },
        Plan::Product(p, q) => {
            lemma_unfused_faithful(*p, sources);
            lemma_unfused_faithful(*q, sources);
        },
        Plan::ReadSelectProjectRename(name, c, old, new) => {
            let read = Plan::Load(name, None);
            let picked = Plan::Select(Box::new(read), c);
            let shown = Plan::Project(Box::new(picked), old);
            assert(faithful(read, sources));
            assert(faithful(picked, sources));
            assert(faithful(shown, sources));
        },
        Plan::JoinProjectRename(p, q, c, old, new) => {
            lemma_unfused_faithful(*p, sources);
            lemma_unfused_faithful(*q, sources);
            let crossed = Plan::Product(Box::new(unfused(*p)), Box::new(unfused(*q)));
            let picked = Plan::Select(Box::new(crossed), c);
            let shown = Plan::Project(Box::new(picked), old);
            assert(faithful(crossed, sources));
            assert(faithful(picked, sources));
            assert(faithful(shown, sources));
        },
        Plan::Load(_, _) => {},
    }
}

/// The discovery keeps the loads faithful, and makes faithful those that
/// carried no columns.
pub proof fn lemma_discovered_faithful(plan: Plan, sources: Sources)
    requires
        faithful(plan, sources),
    ensures
        discovered(plan, sources) matches Ok(found) ==> faithful(found, sources),
    decreases plan,
{
    match plan {
        Plan::Select(p, _) => {
            lemma_discovered_faithful(*p, sources);
        },
        Plan::Project(p, _) => {
            lemma_discovered_faithful(*p, sources);
        },
        Plan::Rename(p, _, _) => {
            lemma_discovered_faithful(*p, sources);
        },
        Plan::Except(p, q) => {
            lemma_discovered_faithful(*p, sources);
            lemma_discovered_faithful(*q, sources);
        },
        Plan::Union(p, q) => {
            lemma_discovered_faithful(*p, sources);
            lemma_discovered_faithful(*q, sources);
        },
        Plan::Product(p, q) => {
            lemma_discovered_faithful(*p, sources);
            lemma_discovered_faithful(*q, sources);
        },
        _ => {},
    }
}

/// Selections above a plan keep the loads faithful.
proof fn lemma_above_faithful(plan: Plan, conditions: Seq<Formula>, sources: Sources)
    requires
        faithful(plan, sources),
    ensures
        faithful(selections_above(plan, conditions), sources),
    decreases conditions.len(),
{
    if conditions.len() > 0 {
        lemma_above_faithful(plan, conditions.drop_last(), sources);
    }
}

/// The selection pushdown keeps the loads faithful.
pub proof fn lemma_selections_pushed_faithful(plan: Plan, pending: Seq<Formula>, sources: Sources)
    requires
        faithful(plan, sources),
    ensures
        selections_pushed(plan, pending) matches Ok(sunk) ==> faithful(sunk, sources),
    decreases plan,
{
    if selections_pushed(plan, pending) is Ok {
        match plan {
            Plan::Select(p, c) => {
                lemma_selections_pushed_faithful(*p, pending.push(c), sources);
            },
            Plan::Project(p, _) => {
                lemma_selections_pushed_faithful(*p, pending, sources);
            },
            Plan::Rename(p, old, new) => {
                lemma_selections_pushed_faithful(
                    *p,
                    pending.map_values(crate::rewrite::origins(old, new)),
                    sources,
                );
            },
            Plan::Except(p, q) => {
                lemma_selections_pushed_faithful(*p, pending, sources);
                lemma_selections_pushed_faithful(*q, pending, sources);
            },
            Plan::Union(p, q) => {
                lemma_selections_pushed_faithful(*p, pending, sources);
                lemma_selections_pushed_faithful(*q, pending, sources);
            },
            Plan::Product(p, q) => {
                let fields = crate::rewrite::exposed_columns(*p)->Ok_0;
                let to_left = pending.filter(crate::rewrite::within(fields));
                let rest = pending.filter(crate::rewrite::not_within(fields));
                let to_right = rest.filter(crate::rewrite::outside(fields));
                let spanning = rest.filter(crate::rewrite::not_outside(fields));
                lemma_selections_pushed_faithful(*p, to_left, sources);
                lemma_selections_pushed_faithful(*q, to_right, sources);
                let x = selections_pushed(*p, to_left)->Ok_0;
                let y = selections_pushed(*q, to_right)->Ok_0;
                lemma_above_faithful(Plan::Product(Box::new(x), Box::new(y)), spanning, sources);
            },
            Plan::Load(_, _) => {
                lemma_above_faithful(plan, pending, sources);
            },
            _ => {},
        }
    }
}

/// The projection pushdown keeps the loads faithful.
pub proof fn lemma_projections_pushed_faithful(plan: Plan, fields: Option<Seq<Name>>, sources: Sources)
    requires
        faithful(plan, sources),
    ensures
        projections_pushed(plan, fields) matches Ok(narrow) ==> faithful(narrow, sources),
    decreases plan,
{
    if projections_pushed(plan, fields) is Ok {
        match plan {
            Plan::Select(p, c) => {
                lemma_projections_pushed_faithful(
                    *p,
                    crate::projection_laws::below_selection(fields, c),
                    sources,
                );
                let x = projections_pushed(
                    *p,
                    crate::projection_laws::below_selection(fields, c),
                )->Ok_0;
                assert(faithful(Plan::Select(Box::new(x), c), sources));
            },
            Plan::Project(p, columns) => {
                lemma_projections_pushed_faithful(
                    *p,
                    Some(merge_names(Seq::empty(), columns)),
                    sources,
                );
            },
            Plan::Rename(p, old, new) => {
                lemma_projections_pushed_faithful(
                    *p,
                    crate::projection_laws::below_renaming(fields, old, new),
                    sources,
                );
            },
            Plan::Except(p, q) => {
                lemma_projections_pushed_faithful(*p, fields, sources);
                lemma_projections_pushed_faithful(*q, fields, sources);
            },
            Plan::Union(p, q) => {
                lemma_projections_pushed_faithful(*p, fields, sources);
                lemma_projections_pushed_faithful(*q, fields, sources);
            },
            Plan::Product(p, q) => {
                lemma_projections_pushed_faithful(*p, fields, sources);
                lemma_projections_pushed_faithful(*q, fields, sources);
            },
            _ => {},
        }
    }
}

/// The discovery changes nothing about whether a plan is legal, nor about
/// its schema.
pub proof fn lemma_discovered_typed(plan: Plan, sources: Sources)
    ensures
        discovered(plan, sources) matches Ok(found) ==> schema_of(found, sources) == schema_of(
            plan,
            sources,
        ),
    decreases plan,
{
    match plan {
        Plan::Select(p, _) => {
            lemma_discovered_typed(*p, sources);
        },
        Plan::Project(p, _) => {
            lemma_discovered_typed(*p, sources);
        },
        Plan::Rename(p, _, _) => {
            lemma_discovered_typed(*p, sources);
        },
        Plan::Except(p, q) => {
            lemma_discovered_typed(*p, sources);
            lemma_discovered_typed(*q, sources);
        },
        Plan::Union(p, q) => {
            lemma_discovered_typed(*p, sources);
            lemma_discovered_typed(*q, sources);
        },
        Plan::Product(p, q) => {
            lemma_discovered_typed(*p, sources);
            lemma_discovered_typed(*q, sources);
        },
        _ => {},
    }
}

/// Expanding fused nodes changes nothing about whether a plan is legal,
/// nor about its schema.
pub proof fn lemma_unfused_typed(plan: Plan, sources: Sources)
    ensures
        schema_of(unfused(plan), sources) == schema_of(plan, sources),
    decreases plan,
{
    match plan {
        Plan::Select(p, _) => {
            lemma_unfused_typed(*p, sources);
        },
        Plan::Project(p, _) => {
            lemma_unfused_typed(*p, sources);
        },
        Plan::Rename(p, _, _) => {
            lemma_unfused_typed(*p, sources);
        },
        Plan::Except(p, q) => {
            lemma_unfused_typed(*p, sources);
            lemma_unfused_typed(*q, sources);
        },
        Plan::Union(p, q) => {
            lemma_unfused_typed(*p, sources);
            lemma_unfused_typed(*q, sources);
        },
        Plan::Product(p, q) => {
            lemma_unfused_typed(*p, sources);
            lemma_unfused_typed(*q, sources);
        },
        Plan::ReadSelectProjectRename(name, c, old, new) => {
            let read = Plan::Load(name, None);
            let picked = Plan::Select(Box::new(read), c);
            let shown = Plan::Project(Box::new(picked), old);
            let renamed = Plan::Rename(Box::new(shown), old, new);
            assert(schema_of(read, sources) == (match find(sources, name) {
                Some(t) => Some(t.columns),
                None => None,
            }));
            assert(schema_of(picked, sources) == (match schema_of(read, sources) {
                Some(s) => if crate::model::scoped(c, s) {
                    Some(s)
                } else {
                    None
                },
                None => None,
            }));
            assert(schema_of(shown, sources) == (match schema_of(picked, sources) {
                Some(s) => if projectable(s, old) {
                    Some(old)
                } else {
                    None
                },
                None => None,
            }));
            assert(schema_of(renamed, sources) == (match schema_of(shown, sources) {
                Some(s) => match crate::model::rename_all(s, old, new) {
                    Ok(r) => Some(r),
                    Err(_) => None,
                },
                None => None,
            }));
        },
        Plan::JoinProjectRename(p, q, c, old, new) => {
            lemma_unfused_typed(*p, sources);
            lemma_unfused_typed(*q, sources);
            let crossed = Plan::Product(Box::new(unfused(*p)), Box::new(unfused(*q)));
            let picked = Plan::Select(Box::new(crossed), c);
            let shown = Plan::Project(Box::new(picked), old);
            let renamed = Plan::Rename(Box::new(shown), old, new);
            assert(schema_of(crossed, sources) == (match schema_of(*p, sources) {
                Some(s) => match schema_of(*q, sources) {
                    Some(t) => if crate::model::clash(s, t) {
                        None
                    } else {
                        Some(s + t)
                    },
                    None => None,
                },
                None => None,
            }));
            assert(schema_of(picked, sources) == (match schema_of(crossed, sources) {
                Some(s) => if crate::model::scoped(c, s) {
                    Some(s)
                } else {
                    None
                },
                None => None,
            }));
            assert(schema_of(shown, sources) == (match schema_of(picked, sources) {
                Some(s) => if projectable(s, old) {
                    Some(old)
                } else {
                    None
                },
                None => None,
            }));
            assert(schema_of(renamed, sources) == (match schema_of(shown, sources) {
                Some(s) => match crate::model::rename_all(s, old, new) {
                    Ok(r) => Some(r),
                    Err(_) => None,
                },
                None => None,
            }));
        },
        Plan::Load(_, _) => {},
    }
}

/// In a legal plan, the condition of every fused join refers to columns of
/// the two joined tables only.
pub proof fn lemma_typed_joins_scoped(plan: Plan, sources: Sources)
    requires
        sources_wf(sources),
        schema_of(plan, sources) is Some,
    ensures
        joins_scoped(plan, sources),
    decreases plan,
{
    match plan {
        Plan::Select(p, _) => {
            lemma_typed_joins_scoped(*p, sources);
        },
        Plan::Project(p, _) => {
            lemma_typed_joins_scoped(*p, sources);
        },
        Plan::Rename(p, _, _) => {
            lemma_typed_joins_scoped(*p, sources);
        },
        Plan::Except(p, q) => {
            lemma_typed_joins_scoped(*p, sources);
            lemma_typed_joins_scoped(*q, sources);
        },
        Plan::Union(p, q) => {
            lemma_typed_joins_scoped(*p, sources);
            lemma_typed_joins_scoped(*q, sources);
        },
        Plan::Product(p, q) => {
            lemma_typed_joins_scoped(*p, sources);
            lemma_typed_joins_scoped(*q, sources);
        },
        Plan::JoinProjectRename(p, q, c, old, new) => {
            lemma_typed_joins_scoped(*p, sources);
            lemma_typed_joins_scoped(*q, sources);
            crate::typing::law_typed_evaluates(*p, sources);
            crate::typing::law_typed_evaluates(*q, sources);
        },
        _ => {},
    }
}

/// The pipeline is sound: a plan that has gone through the five passes in
/// their required order (expansion of fused nodes, discovery of load
/// columns, selection pushdown, projection pushdown, fusion) evaluates to
/// a table equivalent to the one that the plan evaluates to: the same
/// column names and the same rows, each as often. The plan must be legal,
/// its loads must carry no columns or those of their relations, every pass
/// must succeed, and the plan that each pushdown and the fusion receive
/// must be ready for it.
pub proof fn law_pipeline_sound(plan: Plan, sources: Sources)
    requires
        sources_wf(sources),
        schema_of(plan, sources) is Some,
        faithful(plan, sources),
        discovered(unfused(plan), sources) matches Ok(found) && selection_ready(found, sources, false) && (
        selections_pushed(found, Seq::empty()) matches Ok(sunk) && projection_ready(
            sunk,
            None,
            sources,
        ) && (projections_pushed(sunk, None) matches Ok(narrow) && fusion_ready(narrow, sources)
            && fused(narrow, nothing()) is Ok)),
    ensures
        eval_plan(plan, sources) is Ok,
        eval_plan(
            fused(
                projections_pushed(
                    selections_pushed(
                        discovered(unfused(plan), sources)->Ok_0,
                        Seq::empty(),
                    )->Ok_0,
                    None,
                )->Ok_0,
                nothing(),
            )->Ok_0,
            sources,
        ) is Ok,
        equivalent(
            eval_plan(plan, sources)->Ok_0,
            eval_plan(
                fused(
                    projections_pushed(
                        selections_pushed(
                            discovered(unfused(plan), sources)->Ok_0,
                            Seq::empty(),
                        )->Ok_0,
                        None,
                    )->Ok_0,
                    nothing(),
                )->Ok_0,
                sources,
            )->Ok_0,
        ),
{
    let plain = unfused(plan);
    let found = discovered(plain, sources)->Ok_0;
    let sunk = selections_pushed(found, Seq::empty())->Ok_0;
    let narrow = projections_pushed(sunk, None)->Ok_0;
    let last = fused(narrow, nothing())->Ok_0;
    lemma_typed_joins_scoped(plan, sources);
    lemma_unfused_typed(plan, sources);
    lemma_discovered_typed(plain, sources);
    lemma_unfused_faithful(plan, sources);
    lemma_discovered_faithful(plain, sources);
    lemma_selections_pushed_faithful(found, Seq::empty(), sources);
    lemma_projections_pushed_faithful(sunk, None, sources);
    law_unfuse_preserves_eval(plan, sources);
    law_discovery_preserves_eval(plain, sources);
    law_selection_pushdown_sound(found, sources);
    law_projection_pushdown_sound(sunk, sources);
    law_fusion_sound(narrow, sources);
    crate::typing::law_typed_evaluates(found, sources);
    let t0 = eval_plan(plan, sources)->Ok_0;
    let t1 = eval_plan(plain, sources)->Ok_0;
    let t3 = eval_plan(sunk, sources)->Ok_0;
    let t4 = eval_plan(narrow, sources)->Ok_0;
    let t5 = eval_plan(last, sources)->Ok_0;
    law_eval_wf(plan, sources);
    assert(same_table(t0, t1)) by {
        assert(t1.rows.to_multiset() =~= t0.rows.to_multiset());
    }
    lemma_same_table_equivalent(t0, t1);
    lemma_permuted_equivalent(t3, t4);
    lemma_permuted_equivalent(t4, t5);
    lemma_equivalent_trans(t0, t3, t4);
    lemma_equivalent_trans(t0, t4, t5);
}

/// What is left of a list, all of whose names are in another, after the
/// names of the other are taken out: nothing.
proof fn lemma_nothing_kept(names: Seq<Name>, old: Seq<Name>)
    requires
        all_in(names, old),
    ensures
        names.filter(not_member_of(old)) == Seq::<Name>::empty(),
{
    let kept = names.filter(not_member_of(old));
    if kept.len() > 0 {
        lemma_filter_member(names, not_member_of(old), 0);
        let i = choose|i: int| 0 <= i < names.len() && names[i] == kept[0];
        assert(old.contains(names[i]));
    }
    assert(kept =~= Seq::<Name>::empty());
}

/// The fused read that a chain collapses into, where every column of the
/// walk's fields is an old name of the recorded renaming: the recorded
/// renaming itself.
proof fn lemma_fused_read_back(
    name: Name,
    all: Seq<Name>,
    c: Formula,
    seen: Recorded,
    old: Seq<Name>,
    new: Seq<Name>,
)
    requires
        seen.renaming == Some((old, new)),
        all_in(
            merge_names(
                Seq::empty(),
                match seen.projection {
                    Some(columns) => columns,
                    None => all,
                },
            ),
            old,
        ),
    ensures
        fused_read(name, all, c, seen) == Plan::ReadSelectProjectRename(name, c, old, new),
{
    let fields = match seen.projection {
        Some(columns) => columns,
        None => all,
    };
    lemma_nothing_kept(merge_names(Seq::empty(), fields), old);
    assert(old + Seq::<Name>::empty() =~= old);
    assert(new + Seq::<Name>::empty() =~= new);
}

/// Names that are all in a list are, merged into the empty list, all in
/// the list.
proof fn lemma_merged_all_in(names: Seq<Name>, old: Seq<Name>)
    requires
        forall|n: Name| #[trigger] names.contains(n) ==> old.contains(n),
    ensures
        all_in(merge_names(Seq::empty(), names), old),
{
    let merged = merge_names(Seq::empty(), names);
    assert forall|i: int| 0 <= i < merged.len() implies old.contains(#[trigger] merged[i]) by {
        lemma_merge_contains(Seq::empty(), names, merged[i]);
        assert(merged.contains(merged[i]));
        assert(!Seq::<Name>::empty().contains(merged[i]));
    }
}

/// Expanding a fused read and fusing again, with the discovery and the two
/// pushdowns run in between in their required order, gives back the very
/// fused read: the same source, the same condition, the same old and new
/// attributes. The source must be known.
pub proof fn law_unfuse_fuse_round_trip(
    name: Name,
    c: Formula,
    old: Seq<Name>,
    new: Seq<Name>,
    sources: Sources,
)
    requires
        find(sources, name) is Some,
    ensures
        discovered(
            unfused(Plan::ReadSelectProjectRename(name, c, old, new)),
            sources,
        ) matches Ok(found) && (selections_pushed(found, Seq::empty()) matches Ok(sunk) && (
        projections_pushed(sunk, None) matches Ok(narrow) && fused(narrow, nothing()) == Ok::<
            Plan,
            Error,
        >(Plan::ReadSelectProjectRename(name, c, old, new)))),
{
    let node = Plan::ReadSelectProjectRename(name, c, old, new);
    let all = find(sources, name)->Some_0.columns;
    // Expansion and discovery.
    let bare = Plan::Load(name, None);
    let read = Plan::Load(name, Some(all));
    let picked = Plan::Select(Box::new(read), c);
    let shown = Plan::Project(Box::new(picked), old);
    let found = Plan::Rename(Box::new(shown), old, new);
    assert(discovered(bare, sources) == Ok::<Plan, Error>(read));
    assert(discovered(Plan::Select(Box::new(bare), c), sources) == Ok::<Plan, Error>(picked));
    assert(discovered(
        Plan::Project(Box::new(Plan::Select(Box::new(bare), c)), old),
        sources,
    ) == Ok::<Plan, Error>(shown));
    assert(discovered(unfused(node), sources) == Ok::<Plan, Error>(found));
    // Selection pushdown: the selection is above its load already.
    let none = Seq::<Formula>::empty();
    let one = none.push(c);
    assert(selections_above(read, none) == read);
    assert(one.drop_last() =~= none);
    assert(selections_above(read, one) == picked);
    assert(selections_pushed(read, one) == Ok::<Plan, Error>(picked));
    assert(selections_pushed(picked, none) == Ok::<Plan, Error>(picked));
    assert(selections_pushed(shown, none) == Ok::<Plan, Error>(shown));
    assert(none.map_values(crate::rewrite::origins(old, new)) =~= none);
    assert(selections_pushed(found, none) == Ok::<Plan, Error>(found));
    // Projection pushdown.
    let used = columns_of(c);
    let wanted = merge_names(Seq::empty(), old);
    let below = merge_names(wanted, used);
    let kept = all.filter(member_of(below));
    let source = if kept.len() != all.len() {
        Plan::Project(Box::new(read), kept)
    } else {
        read
    };
    assert(projections_pushed(read, Some(below)) == Ok::<Plan, Error>(source));
    let chosen = Plan::Select(Box::new(source), c);
    let inner = if !all_in(used, wanted) {
        Plan::Project(Box::new(chosen), wanted)
    } else {
        chosen
    };
    assert(projections_pushed(picked, Some(wanted)) == Ok::<Plan, Error>(inner));
    assert(projections_pushed(shown, None) == Ok::<Plan, Error>(inner));
    let narrow = Plan::Rename(Box::new(inner), old, new);
    assert(projections_pushed(found, None) == Ok::<Plan, Error>(narrow));
    // Fusion.
    let renamed = Recorded { renaming: Some((old, new)), ..nothing() };
    assert(fused(narrow, nothing()) == fused(inner, renamed));
    if !all_in(used, wanted) {
        let projected = Recorded { projection: Some(wanted), ..renamed };
        let selected = Recorded { selection: Some(c), ..projected };
        assert(fused(inner, renamed) == fused(chosen, projected));
        assert(fused(chosen, projected) == fused(source, selected));
        if kept.len() != all.len() {
            assert(fused(source, selected) == fused(read, selected));
        }
        assert(fused(read, selected) == Ok::<Plan, Error>(fused_read(name, all, c, selected)));
        assert forall|n: Name| #[trigger] wanted.contains(n) implies old.contains(n) by {
            lemma_merge_contains(Seq::empty(), old, n);
            assert(!Seq::<Name>::empty().contains(n));
        }
        lemma_merged_all_in(wanted, old);
        lemma_fused_read_back(name, all, c, selected, old, new);
    } else {
        let selected = Recorded { selection: Some(c), ..renamed };
        assert(fused(inner, renamed) == fused(source, selected));
        assert forall|n: Name| #[trigger] below.contains(n) implies old.contains(n) by {
            lemma_merge_contains(wanted, used, n);
            lemma_merge_contains(Seq::empty(), old, n);
            assert(!Seq::<Name>::empty().contains(n));
            if used.contains(n) {
                let i = choose|i: int| 0 <= i < used.len() && used[i] == n;
                assert(wanted.contains(used[i]));
            }
        }
        if kept.len() != all.len() {
            let projected = Recorded { projection: Some(kept), ..selected };
            assert(fused(source, selected) == fused(read, projected));
            assert(fused(read, projected) == Ok::<Plan, Error>(
                fused_read(name, all, c, projected),
            ));
            assert forall|n: Name| #[trigger] kept.contains(n) implies old.contains(n) by {
                let k = choose|k: int| 0 <= k < kept.len() && kept[k] == n;
                lemma_filter_member(all, member_of(below), k);
                assert(below.contains(n));
            }
            lemma_merged_all_in(kept, old);
            lemma_fused_read_back(name, all, c, projected, old, new);
        } else {
            assert(fused(read, selected) == Ok::<Plan, Error>(fused_read(name, all, c, selected)));
            assert forall|n: Name| #[trigger] all.contains(n) implies old.contains(n) by {
                let i = choose|i: int| 0 <= i < all.len() && all[i] == n;
                lemma_filter_full(all, member_of(below), i);
                assert(below.contains(n));
            }
            lemma_merged_all_in(all, old);
            lemma_fused_read_back(name, all, c, selected, old, new);
        }
    }
}

} // verus!
