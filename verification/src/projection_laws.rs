//! Soundness of the projection pushdown: on a plan that is ready for it,
//! it drops columns that nothing needs and changes the order of the
//! others at most.

use vstd::prelude::*;
use crate::fusion_laws::lemma_same_set_len;
use crate::fusion_laws::lemma_step_contains;
use crate::lemmas::lemma_filter_distinct;
use crate::lemmas::lemma_filter_full;
use crate::lemmas::lemma_filter_keeps;
use crate::lemmas::lemma_filter_member;
use crate::model::Formula;
use crate::model::Name;
use crate::model::Plan;
use crate::model::Relation;
use crate::model::Sources;
use crate::model::eval_plan;
use crate::model::gather;
use crate::model::gathers;
use crate::model::projectable;
use crate::model::rename_all;
use crate::model::rename_from;
use crate::model::rename_one;
use crate::model::row_fits;
use crate::model::scoped;
use crate::model::sources_wf;
use crate::rewrite::all_in;
use crate::rewrite::columns_of;
use crate::rewrite::member_of;
use crate::rewrite::merge_names;
use crate::rewrite::pair_count;
use crate::rewrite::projections_pushed;
use crate::rewrite::remove_name;
use crate::rewrite::required_below;
use crate::typing::faithful;
use crate::typing::law_typed_evaluates;
use crate::typing::lemma_add_contains;
use crate::typing::lemma_columns_of;
use crate::typing::lemma_insert_contains;
use crate::typing::lemma_merge_contains;
use crate::typing::lemma_remove_contains;
use crate::typing::lemma_scoped_mentions;
use crate::typing::mentions;
use crate::typing::schema_of;
use crate::views::lemma_gather_gather;
use crate::views::lemma_projection_trans;
use crate::views::lemma_projection_wf;
use crate::views::lemma_step_distinct;
use crate::views::lemma_view_product;
use crate::views::lemma_view_rename;
use crate::views::lemma_view_select;
use crate::views::lemma_view_union;
use crate::views::projection_of;

verus! {

/// The name is required: nothing is known of what is required, or the
/// name is among the required names.
pub open spec fn required(fields: Option<Seq<Name>>, n: Name) -> bool {
    fields matches Some(f) ==> f.contains(n)
}

/// `r` is `t` narrowed to what is required: the projection of `t` onto
/// its required columns, in whatever order.
pub open spec fn narrowed(t: Relation, r: Relation, fields: Option<Seq<Name>>) -> bool {
    &&& projection_of(t, r)
    &&& forall|n: Name| #[trigger]
        r.columns.contains(n) == (t.columns.contains(n) && required(fields, n))
}

/// The renaming pairs are fresh on a schema: as many old names as new
/// names, the old names distinct columns of the schema, the new names
/// distinct and none of them an old name, and the renaming legal.
pub open spec fn fresh_renaming(columns: Seq<Name>, old: Seq<Name>, new: Seq<Name>) -> bool {
    &&& old.len() == new.len()
    &&& old.no_duplicates()
    &&& new.no_duplicates()
    &&& forall|k: int| 0 <= k < old.len() ==> columns.contains(#[trigger] old[k])
    &&& forall|j: int, k: int|
        0 <= j < new.len() && 0 <= k < old.len() ==> #[trigger] new[j] != #[trigger] old[k]
    &&& rename_all(columns, old, new) is Ok
}

/// Of two projections of a table, the one whose columns are among those
/// of the other is a projection of the other.
proof fn lemma_projection_factor(t: Relation, middle: Relation, r: Relation)
    requires
        projection_of(t, middle),
        projection_of(t, r),
        projectable(middle.columns, r.columns),
    ensures
        projection_of(middle, r),
{
    lemma_projection_wf(t, middle);
    assert forall|i: int| 0 <= i < t.rows.len() implies #[trigger] r.rows[i] == gather(
        middle.rows[i],
        middle.columns,
        r.columns,
    ) by {
        assert(row_fits(t.rows[i], t.columns.len()));
        lemma_gather_gather(t.rows[i], t.columns, middle.columns, r.columns);
    }
    assert(r.rows =~= middle.rows.map_values(gathers(middle.columns, r.columns)));
}

/// The names after fresh renaming steps from `from` on: the new names of
/// the steps, and the others but the old names of the steps.
proof fn lemma_fresh_rename_contains(columns: Seq<Name>, old: Seq<Name>, new: Seq<Name>, from: int, n: Name)
    requires
        0 <= from,
        columns.no_duplicates(),
        old.len() == new.len(),
        forall|j: int, k: int|
            0 <= j < new.len() && 0 <= k < old.len() ==> #[trigger] new[j] != #[trigger] old[k],
        rename_from(columns, old, new, from) is Ok,
    ensures
        rename_from(columns, old, new, from)->Ok_0.contains(n) == ((exists|k: int|
            from <= k < new.len() && #[trigger] new[k] == n) || (columns.contains(n) && forall|
            k: int,
        | from <= k < old.len() ==> #[trigger] old[k] != n)),
    decreases old.len() - from,
{
    if from < old.len() {
        let next = rename_one(columns, old[from], new[from])->Ok_0;
        lemma_step_contains(columns, old[from], new[from], n);
        lemma_step_distinct(columns, old[from], new[from]);
        lemma_fresh_rename_contains(next, old, new, from + 1, n);
        let last = rename_from(columns, old, new, from)->Ok_0;
        if last.contains(n) {
            if exists|k: int| from + 1 <= k < new.len() && #[trigger] new[k] == n {
                let k = choose|k: int| from + 1 <= k < new.len() && #[trigger] new[k] == n;
                assert(from <= k < new.len() && new[k] == n);
            } else if n == new[from] {
                assert(from <= from < new.len() && new[from] == n);
            } else {
                assert forall|k: int| from <= k < old.len() implies #[trigger] old[k] != n by {}
            }
        }
        if exists|k: int| from <= k < new.len() && #[trigger] new[k] == n {
            let k = choose|k: int| from <= k < new.len() && #[trigger] new[k] == n;
            if k == from {
                assert(next.contains(n));
                assert forall|j: int| from + 1 <= j < old.len() implies #[trigger] old[j] != n by {
                    assert(new[from] != old[j]);
                }
            } else {
                assert(from + 1 <= k < new.len() && new[k] == n);
            }
        }
        if columns.contains(n) && forall|k: int| from <= k < old.len() ==> #[trigger] old[k] != n {
            assert(old[from] != n);
        }
    }
}

/// Some of the first `count` names of the list is `n`.
pub open spec fn among(names: Seq<Name>, count: int, n: Name) -> bool {
    exists|k: int| 0 <= k < count && #[trigger] names[k] == n
}

/// What is required below a fresh renaming whose new names are all
/// required: the old names, and what is required but the new names.
proof fn lemma_required_below_contains(fields: Seq<Name>, old: Seq<Name>, new: Seq<Name>, count: nat, n: Name)
    requires
        count <= old.len(),
        old.len() == new.len(),
        new.no_duplicates(),
        forall|j: int, k: int|
            0 <= j < new.len() && 0 <= k < old.len() ==> #[trigger] new[j] != #[trigger] old[k],
        forall|k: int| 0 <= k < new.len() ==> fields.contains(#[trigger] new[k]),
    ensures
        required_below(fields, old, new, count).contains(n) == (among(old, count as int, n) || (
        fields.contains(n) && !among(new, count as int, n))),
    decreases count,
{
    if count > 0 {
        let k = count - 1;
        let before = required_below(fields, old, new, k as nat);
        lemma_required_below_contains(fields, old, new, k as nat, n);
        lemma_required_below_contains(fields, old, new, k as nat, new[k]);
        assert(before.contains(new[k])) by {
            if among(new, k, new[k]) {
                let j = choose|j: int| 0 <= j < k && #[trigger] new[j] == new[k];
                assert(new[j] != new[k]);
            }
        }
        lemma_remove_contains(before, new[k], n);
        lemma_insert_contains(remove_name(before, new[k]), old[k], n);
        if among(old, count as int, n) {
            let j = choose|j: int| 0 <= j < count && #[trigger] old[j] == n;
            if j < k {
                assert(among(old, k, n));
                assert(new[k] != old[j]);
            }
        }
        if among(old, k, n) {
            let j = choose|j: int| 0 <= j < k && #[trigger] old[j] == n;
            assert(0 <= j < count && old[j] == n);
            assert(new[k] != old[j]);
        }
        if n == old[k] {
            assert(0 <= k < count && old[k] == n);
        }
        if among(new, count as int, n) {
            let j = choose|j: int| 0 <= j < count && #[trigger] new[j] == n;
            if j < k {
                assert(among(new, k, n));
            }
        }
        if among(new, k, n) {
            let j = choose|j: int| 0 <= j < k && #[trigger] new[j] == n;
            assert(0 <= j < count && new[j] == n);
        }
        if n == new[k] {
            assert(0 <= k < count && new[k] == n);
            assert(n != old[k]);
        }
    }
}

/// Fresh renaming steps that are legal on a schema are legal on a part of
/// the schema that holds the old names of the steps.
proof fn lemma_rename_part(columns: Seq<Name>, part: Seq<Name>, old: Seq<Name>, new: Seq<Name>, from: int)
    requires
        0 <= from,
        columns.no_duplicates(),
        projectable(columns, part),
        old.len() == new.len(),
        old.no_duplicates(),
        forall|k: int| from <= k < old.len() ==> part.contains(#[trigger] old[k]),
        rename_from(columns, old, new, from) is Ok,
    ensures
        rename_from(part, old, new, from) is Ok,
    decreases old.len() - from,
{
    if from < old.len() {
        let o = old[from];
        let n = new[from];
        let next = rename_one(columns, o, n)->Ok_0;
        assert(part.contains(o));
        if n != o && part.contains(n) {
            let i = choose|i: int| 0 <= i < part.len() && part[i] == n;
            assert(columns.contains(part[i]));
        }
        let next_part = rename_one(part, o, n)->Ok_0;
        lemma_step_distinct(columns, o, n);
        lemma_step_distinct(part, o, n);
        assert forall|i: int| 0 <= i < next_part.len() implies next.contains(
            #[trigger] next_part[i],
        ) by {
            lemma_step_contains(columns, o, n, next_part[i]);
            lemma_step_contains(part, o, n, next_part[i]);
            assert(next_part.contains(next_part[i]));
            if next_part[i] != n {
                assert(part.contains(next_part[i]));
                let j = choose|j: int| 0 <= j < part.len() && part[j] == next_part[i];
                assert(columns.contains(part[j]));
            }
        }
        assert forall|k: int| from + 1 <= k < old.len() implies next_part.contains(
            #[trigger] old[k],
        ) by {
            lemma_step_contains(part, o, n, old[k]);
            assert(old[k] != old[from]);
        }
        lemma_rename_part(next, next_part, old, new, from + 1);
    }
}

/// The plan has no projection.
pub open spec fn projection_free(plan: Plan) -> bool
    decreases plan,
{
    match plan {
        Plan::Select(p, _) => projection_free(*p),
        Plan::Project(_, _) => false,
        Plan::Rename(p, _, _) => projection_free(*p),
        Plan::Except(p, q) => projection_free(*p) && projection_free(*q),
        Plan::Union(p, q) => projection_free(*p) && projection_free(*q),
        Plan::Product(p, q) => projection_free(*p) && projection_free(*q),
        Plan::JoinProjectRename(p, q, _, _, _) => projection_free(*p) && projection_free(*q),
        _ => true,
    }
}

/// Where nothing is known of what is required, the pushdown leaves a plan
/// without projections as it is.
pub proof fn lemma_projection_free_stays(plan: Plan)
    requires
        projection_free(plan),
    ensures
        projections_pushed(plan, None) matches Ok(q) ==> q == plan,
    decreases plan,
{
    match plan {
        Plan::Select(p, _) => {
            lemma_projection_free_stays(*p);
        },
        Plan::Rename(p, _, _) => {
            lemma_projection_free_stays(*p);
        },
        Plan::Except(p, q) => {
            lemma_projection_free_stays(*p);
            lemma_projection_free_stays(*q);
        },
        Plan::Union(p, q) => {
            lemma_projection_free_stays(*p);
            lemma_projection_free_stays(*q);
        },
        Plan::Product(p, q) => {
            lemma_projection_free_stays(*p);
            lemma_projection_free_stays(*q);
        },
        _ => {},
    }
}

/// The plan is ready for the projection pushdown under the given
/// requirement: a difference has no projection above it nor in it; the
/// pairs of each renaming are fresh and their new names required; the
/// columns of each projection are required; and where the condition of a
/// selection needs a column that is not required, the required names are
/// distinct columns of the selection.
pub open spec fn projection_ready(plan: Plan, fields: Option<Seq<Name>>, sources: Sources) -> bool
    decreases plan,
{
    match plan {
        Plan::Select(p, c) => match fields {
            Some(f) => (all_in(columns_of(c), f) || (f.no_duplicates() && (schema_of(
                *p,
                sources,
            ) matches Some(s) ==> all_in(f, s)))) && projection_ready(
                *p,
                Some(merge_names(f, columns_of(c))),
                sources,
            ),
            None => projection_ready(*p, None, sources),
        },
        Plan::Project(p, columns) => (fields matches Some(f) ==> all_in(columns, f))
            && projection_ready(*p, Some(merge_names(Seq::empty(), columns)), sources),
        Plan::Rename(p, old, new) => {
            &&& schema_of(*p, sources) matches Some(s) ==> fresh_renaming(s, old, new)
            &&& fields matches Some(f) ==> all_in(new, f)
            &&& projection_ready(
                *p,
                match fields {
                    Some(f) => Some(required_below(f, old, new, pair_count(old, new))),
                    None => None,
                },
                sources,
            )
        },
        Plan::Except(p, q) => fields is None && projection_free(plan),
        Plan::Union(p, q) => projection_ready(*p, fields, sources) && projection_ready(
            *q,
            fields,
            sources,
        ),
        Plan::Product(p, q) => projection_ready(*p, fields, sources) && projection_ready(
            *q,
            fields,
            sources,
        ),
        _ => true,
    }
}

/// What is required below a selection.
pub open spec fn below_selection(fields: Option<Seq<Name>>, c: Formula) -> Option<Seq<Name>> {
    match fields {
        Some(f) => Some(merge_names(f, columns_of(c))),
        None => None,
    }
}

/// The pushdown puts a projection above the selection: something is
/// required, and the condition needs a column that is not.
pub open spec fn projects_above(fields: Option<Seq<Name>>, c: Formula) -> bool {
    fields matches Some(f) && !all_in(columns_of(c), f)
}

/// The selection case of the pushdown.
proof fn lemma_pushed_select(tp: Relation, rp: Relation, c: Formula, fields: Option<Seq<Name>>)
    requires
        tp.wf(),
        scoped(c, tp.columns),
        narrowed(tp, rp, below_selection(fields, c)),
        fields matches Some(f) ==> all_in(columns_of(c), f) || (f.no_duplicates() && all_in(
            f,
            tp.columns,
        )),
    ensures
        scoped(c, rp.columns),
        crate::model::select(tp, c) is Ok,
        crate::model::select(rp, c) is Ok,
        projects_above(fields, c) ==> crate::model::project(
            crate::model::select(rp, c)->Ok_0,
            fields->Some_0,
        ) is Ok && narrowed(
            crate::model::select(tp, c)->Ok_0,
            crate::model::project(crate::model::select(rp, c)->Ok_0, fields->Some_0)->Ok_0,
            fields,
        ),
        !projects_above(fields, c) ==> narrowed(
            crate::model::select(tp, c)->Ok_0,
            crate::model::select(rp, c)->Ok_0,
            fields,
        ),
{
    let used = columns_of(c);
    let below = below_selection(fields, c);
    lemma_scoped_mentions(c, tp.columns);
    lemma_scoped_mentions(c, rp.columns);
    assert forall|n: Name| #[trigger] mentions(c, n) implies rp.columns.contains(n) by {
        lemma_columns_of(c, n);
        if let Some(f) = fields {
            lemma_merge_contains(f, used, n);
        }
        assert(rp.columns.contains(n) == (tp.columns.contains(n) && required(below, n)));
    }
    lemma_view_select(tp, rp, c);
    let t = crate::model::select(tp, c)->Ok_0;
    let kept = crate::model::select(rp, c)->Ok_0;
    match fields {
        Some(f) => {
            if !all_in(used, f) {
                assert forall|i: int| 0 <= i < f.len() implies kept.columns.contains(
                    #[trigger] f[i],
                ) by {
                    assert(tp.columns.contains(f[i]));
                    lemma_merge_contains(f, used, f[i]);
                    assert(f.contains(f[i]));
                    assert(rp.columns.contains(f[i]) == (tp.columns.contains(f[i]) && required(
                        below,
                        f[i],
                    )));
                }
                lemma_projection_wf(t, kept);
                crate::laws::lemma_project_wf(kept, f);
                let shown = crate::model::project(kept, f)->Ok_0;
                lemma_projection_trans(t, kept, shown);
                assert forall|n: Name| #[trigger]
                    shown.columns.contains(n) == (t.columns.contains(n) && required(fields, n)) by {
                    if f.contains(n) {
                        let i = choose|i: int| 0 <= i < f.len() && f[i] == n;
                        assert(tp.columns.contains(f[i]));
                    }
                }
            } else {
                assert forall|n: Name| #[trigger]
                    kept.columns.contains(n) == (t.columns.contains(n) && required(fields, n)) by {
                    lemma_merge_contains(f, used, n);
                    if used.contains(n) {
                        let i = choose|i: int| 0 <= i < used.len() && used[i] == n;
                        assert(f.contains(used[i]));
                    }
                    assert(rp.columns.contains(n) == (tp.columns.contains(n) && required(below, n)));
                }
            }
        },
        None => {
            assert forall|n: Name| #[trigger]
                kept.columns.contains(n) == (t.columns.contains(n) && required(fields, n)) by {
                assert(rp.columns.contains(n) == (tp.columns.contains(n) && required(below, n)));
            }
        },
    }
}

/// The projection case of the pushdown.
proof fn lemma_pushed_project(tp: Relation, rp: Relation, columns: Seq<Name>, fields: Option<Seq<Name>>)
    requires
        tp.wf(),
        projectable(tp.columns, columns),
        narrowed(tp, rp, Some(merge_names(Seq::empty(), columns))),
        fields matches Some(f) ==> all_in(columns, f),
    ensures
        narrowed(crate::model::project(tp, columns)->Ok_0, rp, fields),
{
    let t = crate::model::project(tp, columns)->Ok_0;
    let below = Some(merge_names(Seq::empty(), columns));
    lemma_projection_wf(tp, rp);
    crate::laws::lemma_project_wf(tp, columns);
    assert forall|n: Name| #[trigger]
        rp.columns.contains(n) == (t.columns.contains(n) && required(fields, n)) by {
        lemma_merge_contains(Seq::empty(), columns, n);
        assert(!Seq::<Name>::empty().contains(n));
        assert(rp.columns.contains(n) == (tp.columns.contains(n) && required(below, n)));
        if columns.contains(n) {
            let i = choose|i: int| 0 <= i < columns.len() && columns[i] == n;
            assert(tp.columns.contains(columns[i]));
            if let Some(f) = fields {
                assert(f.contains(columns[i]));
            }
        }
    }
    assert forall|i: int| 0 <= i < rp.columns.len() implies columns.contains(
        #[trigger] rp.columns[i],
    ) by {
        assert(rp.columns.contains(rp.columns[i]));
    }
    lemma_projection_factor(tp, t, rp);
}

/// What is required below a renaming.
pub open spec fn below_renaming(fields: Option<Seq<Name>>, old: Seq<Name>, new: Seq<Name>) -> Option<
    Seq<Name>,
> {
    match fields {
        Some(f) => Some(required_below(f, old, new, pair_count(old, new))),
        None => None,
    }
}

/// The renaming case of the pushdown.
proof fn lemma_pushed_rename(
    tp: Relation,
    rp: Relation,
    old: Seq<Name>,
    new: Seq<Name>,
    fields: Option<Seq<Name>>,
)
    requires
        tp.wf(),
        fresh_renaming(tp.columns, old, new),
        narrowed(tp, rp, below_renaming(fields, old, new)),
        fields matches Some(f) ==> all_in(new, f),
    ensures
        crate::model::rename(rp, old, new) is Ok,
        narrowed(
            crate::model::rename(tp, old, new)->Ok_0,
            crate::model::rename(rp, old, new)->Ok_0,
            fields,
        ),
{
    let below = below_renaming(fields, old, new);
    let t = crate::model::rename(tp, old, new)->Ok_0;
    lemma_projection_wf(tp, rp);
    assert forall|k: int| 0 <= k < old.len() implies rp.columns.contains(#[trigger] old[k]) by {
        if let Some(f) = fields {
            lemma_required_below_contains(f, old, new, old.len(), old[k]);
            assert(0 <= k < old.len() && old[k] == old[k]);
            assert(among(old, old.len() as int, old[k]));
        }
        assert(rp.columns.contains(old[k]) == (tp.columns.contains(old[k]) && required(
            below,
            old[k],
        )));
    }
    lemma_rename_part(tp.columns, rp.columns, old, new, 0);
    lemma_view_rename(tp, rp, old, new);
    let r = crate::model::rename(rp, old, new)->Ok_0;
    assert forall|n: Name| #[trigger]
        r.columns.contains(n) == (t.columns.contains(n) && required(fields, n)) by {
        lemma_fresh_rename_contains(tp.columns, old, new, 0, n);
        lemma_fresh_rename_contains(rp.columns, old, new, 0, n);
        assert(rp.columns.contains(n) == (tp.columns.contains(n) && required(below, n)));
        if let Some(f) = fields {
            lemma_required_below_contains(f, old, new, old.len(), n);
            if exists|k: int| 0 <= k < new.len() && #[trigger] new[k] == n {
                let k = choose|k: int| 0 <= k < new.len() && #[trigger] new[k] == n;
                assert(f.contains(new[k]));
                assert(among(new, old.len() as int, n));
            }
            if among(old, old.len() as int, n) {
                let k = choose|k: int| 0 <= k < old.len() && #[trigger] old[k] == n;
            }
            if among(new, old.len() as int, n) {
                let k = choose|k: int| 0 <= k < old.len() && #[trigger] new[k] == n;
                assert(0 <= k < new.len() && new[k] == n);
            }
        }
    }
}

/// The union case of the pushdown.
proof fn lemma_pushed_union(
    tp: Relation,
    rp: Relation,
    tq: Relation,
    rq: Relation,
    fields: Option<Seq<Name>>,
)
    requires
        tp.wf(),
        tq.wf(),
        crate::model::same_names(tp.columns, tq.columns),
        narrowed(tp, rp, fields),
        narrowed(tq, rq, fields),
    ensures
        crate::model::union(rp, rq) is Ok,
        narrowed(crate::model::union(tp, tq)->Ok_0, crate::model::union(rp, rq)->Ok_0, fields),
{
    lemma_projection_wf(tp, rp);
    lemma_projection_wf(tq, rq);
    assert forall|n: Name| #[trigger] tp.columns.contains(n) == tq.columns.contains(n) by {
        lemma_same_names_set(tp.columns, tq.columns, n);
    }
    assert forall|n: Name| #[trigger] rp.columns.contains(n) == rq.columns.contains(n) by {
        assert(tp.columns.contains(n) == tq.columns.contains(n));
        assert(rp.columns.contains(n) == (tp.columns.contains(n) && required(fields, n)));
        assert(rq.columns.contains(n) == (tq.columns.contains(n) && required(fields, n)));
    }
    lemma_same_set_len(rp.columns, rq.columns);
    assert forall|i: int| 0 <= i < rp.columns.len() implies rq.columns.contains(
        #[trigger] rp.columns[i],
    ) by {
        assert(rp.columns.contains(rp.columns[i]));
    }
    lemma_view_union(tp, rp, tq, rq);
}

/// The product case of the pushdown.
proof fn lemma_pushed_product(
    tp: Relation,
    rp: Relation,
    tq: Relation,
    rq: Relation,
    fields: Option<Seq<Name>>,
)
    requires
        !crate::model::clash(tp.columns, tq.columns),
        narrowed(tp, rp, fields),
        narrowed(tq, rq, fields),
    ensures
        crate::model::product(rp, rq) is Ok,
        narrowed(
            crate::model::product(tp, tq)->Ok_0,
            crate::model::product(rp, rq)->Ok_0,
            fields,
        ),
{
    lemma_view_product(tp, rp, tq, rq);
    let t = crate::model::product(tp, tq)->Ok_0;
    let r = crate::model::product(rp, rq)->Ok_0;
    assert forall|n: Name| #[trigger]
        r.columns.contains(n) == (t.columns.contains(n) && required(fields, n)) by {
        lemma_add_contains(tp.columns, tq.columns, n);
        lemma_add_contains(rp.columns, rq.columns, n);
        assert(rp.columns.contains(n) == (tp.columns.contains(n) && required(fields, n)));
        assert(rq.columns.contains(n) == (tq.columns.contains(n) && required(fields, n)));
    }
}

/// The load case of the pushdown, where something is required.
proof fn lemma_pushed_load(t: Relation, f: Seq<Name>)
    requires
        t.wf(),
    ensures
        t.columns.filter(member_of(f)).len() != t.columns.len() ==> crate::model::project(
            t,
            t.columns.filter(member_of(f)),
        ) is Ok && narrowed(
            t,
            crate::model::project(t, t.columns.filter(member_of(f)))->Ok_0,
            Some(f),
        ),
        t.columns.filter(member_of(f)).len() == t.columns.len() ==> narrowed(t, t, Some(f)),
{
    let all = t.columns;
    let kept = all.filter(member_of(f));
    crate::laws::law_project_identity(t);
    assert forall|n: Name| #[trigger] kept.contains(n) == (all.contains(n) && f.contains(n)) by {
        if kept.contains(n) {
            let k = choose|k: int| 0 <= k < kept.len() && kept[k] == n;
            lemma_filter_member(all, member_of(f), k);
        }
        if all.contains(n) && f.contains(n) {
            let i = choose|i: int| 0 <= i < all.len() && all[i] == n;
            lemma_filter_keeps(all, member_of(f), i);
        }
    }
    if kept.len() != all.len() {
        lemma_filter_distinct(all, member_of(f));
        assert forall|i: int| 0 <= i < kept.len() implies all.contains(#[trigger] kept[i]) by {
            assert(kept.contains(kept[i]));
        }
        let r = crate::model::project(t, kept)->Ok_0;
        assert forall|n: Name| #[trigger]
            r.columns.contains(n) == (t.columns.contains(n) && required(Some(f), n)) by {
            assert(kept.contains(n) == (all.contains(n) && f.contains(n)));
        }
    } else {
        assert forall|n: Name| #[trigger]
            t.columns.contains(n) == (t.columns.contains(n) && required(Some(f), n)) by {
            if all.contains(n) {
                let i = choose|i: int| 0 <= i < all.len() && all[i] == n;
                lemma_filter_full(all, member_of(f), i);
            }
        }
    }
}

/// What the projection pushdown makes of a plan that is ready for it is
/// legal, and evaluates to the table of the plan narrowed to what is
/// required.
pub proof fn lemma_projections_pushed(plan: Plan, fields: Option<Seq<Name>>, sources: Sources)
    requires
        sources_wf(sources),
        schema_of(plan, sources) is Some,
        projection_ready(plan, fields, sources),
        faithful(plan, sources),
    ensures
        projections_pushed(plan, fields) matches Ok(q) ==> schema_of(q, sources) is Some
            && eval_plan(q, sources) is Ok && narrowed(
            eval_plan(plan, sources)->Ok_0,
            eval_plan(q, sources)->Ok_0,
            fields,
        ),
    decreases plan,
{
    law_typed_evaluates(plan, sources);
    let t = eval_plan(plan, sources)->Ok_0;
    if projections_pushed(plan, fields) is Ok {
        let q = projections_pushed(plan, fields)->Ok_0;
        match plan {
            Plan::Select(p, c) => {
                law_typed_evaluates(*p, sources);
                let tp = eval_plan(*p, sources)->Ok_0;
                let below = below_selection(fields, c);
                lemma_projections_pushed(*p, below, sources);
                let x = projections_pushed(*p, below)->Ok_0;
                law_typed_evaluates(x, sources);
                let rp = eval_plan(x, sources)->Ok_0;
                lemma_pushed_select(tp, rp, c, fields);
                let inner = Plan::Select(Box::new(x), c);
                assert(eval_plan(inner, sources) == crate::model::select(rp, c));
                assert(schema_of(inner, sources) == Some(rp.columns));
            },
            Plan::Project(p, columns) => {
                law_typed_evaluates(*p, sources);
                let tp = eval_plan(*p, sources)->Ok_0;
                let below = Some(merge_names(Seq::empty(), columns));
                lemma_projections_pushed(*p, below, sources);
                let rp = eval_plan(q, sources)->Ok_0;
                lemma_pushed_project(tp, rp, columns, fields);
            },
            Plan::Rename(p, old, new) => {
                law_typed_evaluates(*p, sources);
                let tp = eval_plan(*p, sources)->Ok_0;
                let below = below_renaming(fields, old, new);
                lemma_projections_pushed(*p, below, sources);
                let x = projections_pushed(*p, below)->Ok_0;
                law_typed_evaluates(x, sources);
                let rp = eval_plan(x, sources)->Ok_0;
                lemma_pushed_rename(tp, rp, old, new, fields);
            },
            Plan::Union(p, q2) => {
                law_typed_evaluates(*p, sources);
                law_typed_evaluates(*q2, sources);
                let tp = eval_plan(*p, sources)->Ok_0;
                let tq = eval_plan(*q2, sources)->Ok_0;
                lemma_projections_pushed(*p, fields, sources);
                lemma_projections_pushed(*q2, fields, sources);
                law_typed_evaluates(projections_pushed(*p, fields)->Ok_0, sources);
                law_typed_evaluates(projections_pushed(*q2, fields)->Ok_0, sources);
                let rp = eval_plan(projections_pushed(*p, fields)->Ok_0, sources)->Ok_0;
                let rq = eval_plan(projections_pushed(*q2, fields)->Ok_0, sources)->Ok_0;
                lemma_pushed_union(tp, rp, tq, rq, fields);
            },
            Plan::Product(p, q2) => {
                law_typed_evaluates(*p, sources);
                law_typed_evaluates(*q2, sources);
                let tp = eval_plan(*p, sources)->Ok_0;
                let tq = eval_plan(*q2, sources)->Ok_0;
                lemma_projections_pushed(*p, fields, sources);
                lemma_projections_pushed(*q2, fields, sources);
                law_typed_evaluates(projections_pushed(*p, fields)->Ok_0, sources);
                law_typed_evaluates(projections_pushed(*q2, fields)->Ok_0, sources);
                let rp = eval_plan(projections_pushed(*p, fields)->Ok_0, sources)->Ok_0;
                let rq = eval_plan(projections_pushed(*q2, fields)->Ok_0, sources)->Ok_0;
                lemma_pushed_product(tp, rp, tq, rq, fields);
            },
            Plan::Load(name, columns) => {
                match fields {
                    Some(f) => {
                        lemma_pushed_load(t, f);
                    },
                    None => {
                        crate::laws::law_project_identity(t);
                    },
                }
            },
            Plan::Except(p, q2) => {
                lemma_projection_free_stays(plan);
                crate::laws::law_project_identity(t);
            },
            _ => {},
        }
    }
}

/// Schemas that name the same columns hold the same names.
proof fn lemma_same_names_set(a: Seq<Name>, b: Seq<Name>, n: Name)
    requires
        a.no_duplicates(),
        b.no_duplicates(),
        crate::model::same_names(a, b),
    ensures
        a.contains(n) == b.contains(n),
{
    if a.contains(n) {
        let i = choose|i: int| 0 <= i < a.len() && a[i] == n;
        assert(b.contains(a[i]));
    }
    if b.contains(n) && !a.contains(n) {
        // `a` is as long as `b` and all of its names are in `b`: so `b` has no other name.
        a.unique_seq_to_set();
        b.unique_seq_to_set();
        assert(a.to_set().subset_of(b.to_set())) by {
            assert forall|x: Name| a.to_set().contains(x) implies b.to_set().contains(x) by {
                let i = choose|i: int| 0 <= i < a.len() && a[i] == x;
                assert(b.contains(a[i]));
            }
        }
        vstd::set_lib::lemma_len_subset(a.to_set(), b.to_set());
        vstd::set_lib::lemma_subset_equality(a.to_set(), b.to_set());
        assert(b.to_set().contains(n));
        assert(a.to_set().contains(n));
    }
}

/// The projection pushdown is sound on plans that are ready for it: what it
/// makes of a plan is legal and evaluates to the table that the plan
/// evaluates to, with the columns in another order at most: the same
/// column names and the same rows in the same order, each cell under its
/// name. The plan must be legal and ready for the pushdown, and its loads
/// must carry the columns of their relations.
pub proof fn law_projection_pushdown_sound(plan: Plan, sources: Sources)
    requires
        sources_wf(sources),
        schema_of(plan, sources) is Some,
        projection_ready(plan, None, sources),
        faithful(plan, sources),
    ensures
        projections_pushed(plan, None) matches Ok(q) ==> schema_of(q, sources) is Some
            && eval_plan(q, sources) is Ok && eval_plan(plan, sources) is Ok
            && crate::fusion_laws::permuted(
            eval_plan(plan, sources)->Ok_0,
            eval_plan(q, sources)->Ok_0,
        ),
{
    law_typed_evaluates(plan, sources);
    lemma_projections_pushed(plan, None, sources);
}

} // verus!
