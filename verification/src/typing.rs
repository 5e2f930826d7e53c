//! Legal plans: the schema a plan has before any row is read, and why a
//! plan that has one evaluates without error.

use vstd::prelude::*;
use crate::join_laws::lemma_columns_distinct;
use crate::join_laws::lemma_residual_scoped;
use crate::join_laws::lemma_scoped_decidable;
use crate::laws::lemma_except_wf;
use crate::laws::lemma_find_wf;
use crate::laws::lemma_product_wf;
use crate::laws::lemma_project_wf;
use crate::laws::lemma_rename_wf;
use crate::laws::lemma_select_wf;
use crate::laws::lemma_union_wf;
use crate::lemmas::lemma_filter_keeps;
use crate::lemmas::lemma_filter_member;
use crate::lemmas::lemma_joined_fits;
use crate::model::Datum;
use crate::model::Formula;
use crate::model::Name;
use crate::model::Plan;
use crate::model::Relation;
use crate::model::Sources;
use crate::model::clash;
use crate::model::equi_pairs;
use crate::model::eval_plan;
use crate::model::find;
use crate::model::joined;
use crate::model::operand_scoped;
use crate::model::project;
use crate::model::projectable;
use crate::model::rename_all;
use crate::model::residual;
use crate::model::same_names;
use crate::model::scoped;
use crate::model::select;
use crate::model::select_project_rename;
use crate::model::sources_wf;
use crate::rewrite::columns_of;
use crate::rewrite::insert_name;
use crate::rewrite::insert_operand;
use crate::rewrite::merge_names;
use crate::rewrite::other_than;
use crate::rewrite::remove_name;
use crate::rewrite::used_columns;

verus! {

/// The schema after a selection by `c`, a projection onto `old` and a
/// renaming of `old` to `new`, where all three are legal on `columns`.
pub open spec fn fused_schema(columns: Seq<Name>, c: Formula, old: Seq<Name>, new: Seq<Name>) -> Option<
    Seq<Name>,
> {
    if scoped(c, columns) && projectable(columns, old) {
        match rename_all(old, old, new) {
            Ok(renamed) => Some(renamed),
            Err(_) => None,
        }
    } else {
        None
    }
}

/// The schema of a legal plan, without a row being read; `None` where the
/// plan is not legal: where it reads an unknown relation, refers to a
/// column that is not there, or would name a column twice.
pub open spec fn schema_of(plan: Plan, sources: Sources) -> Option<Seq<Name>>
    decreases plan,
{
    match plan {
        Plan::Select(p, c) => match schema_of(*p, sources) {
            Some(s) => if scoped(c, s) {
                Some(s)
            } else {
                None
            },
            None => None,
        },
        Plan::Project(p, targets) => match schema_of(*p, sources) {
            Some(s) => if projectable(s, targets) {
                Some(targets)
            } else {
                None
            },
            None => None,
        },
        Plan::Rename(p, old, new) => match schema_of(*p, sources) {
            Some(s) => match rename_all(s, old, new) {
                Ok(renamed) => Some(renamed),
                Err(_) => None,
            },
            None => None,
        },
        Plan::Except(p, q) => match schema_of(*p, sources) {
            Some(s) => match schema_of(*q, sources) {
                Some(_) => Some(s),
                None => None,
            },
            None => None,
        },
        Plan::Union(p, q) => match schema_of(*p, sources) {
            Some(s) => match schema_of(*q, sources) {
                Some(t) => if same_names(s, t) {
                    Some(s)
                } else {
                    None
                },
                None => None,
            },
            None => None,
        },
        Plan::Product(p, q) => match schema_of(*p, sources) {
            Some(s) => match schema_of(*q, sources) {
                Some(t) => if clash(s, t) {
                    None
                } else {
                    Some(s + t)
                },
                None => None,
            },
            None => None,
        },
        Plan::ReadSelectProjectRename(name, c, old, new) => match find(sources, name) {
            Some(t) => fused_schema(t.columns, c, old, new),
            None => None,
        },
        Plan::JoinProjectRename(p, q, c, old, new) => match schema_of(*p, sources) {
            Some(s) => match schema_of(*q, sources) {
                Some(t) => if clash(s, t) {
                    None
                } else {
                    fused_schema(s + t, c, old, new)
                },
                None => None,
            },
            None => None,
        },
        Plan::Load(name, _) => match find(sources, name) {
            Some(t) => Some(t.columns),
            None => None,
        },
    }
}

/// What a fused node makes of a well-formed table on which it is legal.
pub proof fn lemma_fused_evaluates(t: Relation, c: Formula, old: Seq<Name>, new: Seq<Name>)
    requires
        t.wf(),
        fused_schema(t.columns, c, old, new) is Some,
    ensures
        select_project_rename(t, c, old, new) matches Ok(u) && u.wf() && Some(u.columns)
            == fused_schema(t.columns, c, old, new),
{
    lemma_scoped_decidable(t.rows, t.columns, c);
    lemma_select_wf(t, c);
    let selected = select(t, c)->Ok_0;
    lemma_project_wf(selected, old);
    let projected = project(selected, old)->Ok_0;
    lemma_rename_wf(projected, old, new);
}

/// A legal plan evaluates without error, to a well-formed table of the
/// schema that the plan has.
pub proof fn law_typed_evaluates(plan: Plan, sources: Sources)
    requires
        sources_wf(sources),
        schema_of(plan, sources) is Some,
    ensures
        eval_plan(plan, sources) matches Ok(t) && t.wf() && Some(t.columns) == schema_of(
            plan,
            sources,
        ),
    decreases plan,
{
    match plan {
        Plan::Select(p, c) => {
            law_typed_evaluates(*p, sources);
            let t = eval_plan(*p, sources)->Ok_0;
            lemma_scoped_decidable(t.rows, t.columns, c);
            lemma_select_wf(t, c);
        },
        Plan::Project(p, targets) => {
            law_typed_evaluates(*p, sources);
            lemma_project_wf(eval_plan(*p, sources)->Ok_0, targets);
        },
        Plan::Rename(p, old, new) => {
            law_typed_evaluates(*p, sources);
            lemma_rename_wf(eval_plan(*p, sources)->Ok_0, old, new);
        },
        Plan::Except(p, q) => {
            law_typed_evaluates(*p, sources);
            law_typed_evaluates(*q, sources);
            lemma_except_wf(eval_plan(*p, sources)->Ok_0, eval_plan(*q, sources)->Ok_0);
        },
        Plan::Union(p, q) => {
            law_typed_evaluates(*p, sources);
            law_typed_evaluates(*q, sources);
            lemma_union_wf(eval_plan(*p, sources)->Ok_0, eval_plan(*q, sources)->Ok_0);
        },
        Plan::Product(p, q) => {
            law_typed_evaluates(*p, sources);
            law_typed_evaluates(*q, sources);
            lemma_product_wf(eval_plan(*p, sources)->Ok_0, eval_plan(*q, sources)->Ok_0);
        },
        Plan::ReadSelectProjectRename(name, c, old, new) => {
            lemma_find_wf(sources, name);
            lemma_fused_evaluates(find(sources, name)->Some_0, c, old, new);
        },
        Plan::JoinProjectRename(p, q, c, old, new) => {
            law_typed_evaluates(*p, sources);
            law_typed_evaluates(*q, sources);
            let a = eval_plan(*p, sources)->Ok_0;
            let b = eval_plan(*q, sources)->Ok_0;
            let pairs = equi_pairs(c, a.columns, b.columns);
            lemma_columns_distinct(a.columns, b.columns);
            lemma_joined_fits(a.rows, b.rows, pairs, a.columns.len(), b.columns.len());
            lemma_residual_scoped(c, a.columns, b.columns);
            let wide = Relation { columns: a.columns + b.columns, rows: joined(a.rows, b.rows, pairs) };
            let rest = residual(c, a.columns, b.columns);
            lemma_scoped_decidable(wide.rows, wide.columns, rest);
            lemma_select_wf(wide, rest);
            let selected = select(wide, rest)->Ok_0;
            lemma_project_wf(selected, old);
            let projected = project(selected, old)->Ok_0;
            lemma_rename_wf(projected, old, new);
        },
        Plan::Load(name, _) => {
            lemma_find_wf(sources, name);
        },
    }
}

/// The operand refers to the column `name`.
pub open spec fn operand_mentions(v: Datum, name: Name) -> bool {
    v == Datum::Column(name)
}

/// The condition refers to the column `name`.
pub open spec fn mentions(c: Formula, name: Name) -> bool
    decreases c,
{
    match c {
        Formula::True => false,
        Formula::False => false,
        Formula::Not(a) => mentions(*a, name),
        Formula::And(a, b) => mentions(*a, name) || mentions(*b, name),
        Formula::Or(a, b) => mentions(*a, name) || mentions(*b, name),
        Formula::Equal(x, y) => operand_mentions(x, name) || operand_mentions(y, name),
        Formula::Less(x, y) => operand_mentions(x, name) || operand_mentions(y, name),
        Formula::More(x, y) => operand_mentions(x, name) || operand_mentions(y, name),
    }
}

/// A name is in a list with a name added if it was there or is the added
/// name.
pub proof fn lemma_insert_contains(names: Seq<Name>, added: Name, n: Name)
    ensures
        insert_name(names, added).contains(n) == (names.contains(n) || n == added),
{
    if !names.contains(added) {
        let more = names.push(added);
        if more.contains(n) {
            let i = choose|i: int| 0 <= i < more.len() && more[i] == n;
            if i < names.len() {
                assert(names[i] == n);
            }
        }
        if names.contains(n) {
            let i = choose|i: int| 0 <= i < names.len() && names[i] == n;
            assert(more[i] == n);
        }
        assert(more[names.len() as int] == added);
    }
}

proof fn lemma_insert_operand_contains(acc: Seq<Name>, v: Datum, n: Name)
    ensures
        insert_operand(acc, v).contains(n) == (acc.contains(n) || operand_mentions(v, n)),
{
    if let Datum::Column(name) = v {
        lemma_insert_contains(acc, name, n);
    }
}

/// The columns collected from a condition are those collected before and
/// those that the condition refers to.
pub proof fn lemma_used_columns(c: Formula, acc: Seq<Name>, n: Name)
    ensures
        used_columns(c, acc).contains(n) == (acc.contains(n) || mentions(c, n)),
    decreases c,
{
    match c {
        Formula::Not(a) => {
            lemma_used_columns(*a, acc, n);
        },
        Formula::And(a, b) => {
            lemma_used_columns(*a, acc, n);
            lemma_used_columns(*b, used_columns(*a, acc), n);
        },
        Formula::Or(a, b) => {
            lemma_used_columns(*a, acc, n);
            lemma_used_columns(*b, used_columns(*a, acc), n);
        },
        Formula::Equal(x, y) => {
            lemma_insert_operand_contains(acc, x, n);
            lemma_insert_operand_contains(insert_operand(acc, x), y, n);
        },
        Formula::Less(x, y) => {
            lemma_insert_operand_contains(acc, x, n);
            lemma_insert_operand_contains(insert_operand(acc, x), y, n);
        },
        Formula::More(x, y) => {
            lemma_insert_operand_contains(acc, x, n);
            lemma_insert_operand_contains(insert_operand(acc, x), y, n);
        },
        _ => {},
    }
}

/// The columns of a condition are the columns it refers to.
pub proof fn lemma_columns_of(c: Formula, n: Name)
    ensures
        columns_of(c).contains(n) == mentions(c, n),
{
    lemma_used_columns(c, Seq::empty(), n);
    assert(!Seq::<Name>::empty().contains(n));
}

/// A condition is scoped in a schema exactly when the schema holds every
/// column that the condition refers to.
pub proof fn lemma_scoped_mentions(c: Formula, columns: Seq<Name>)
    ensures
        scoped(c, columns) == (forall|n: Name| #[trigger] mentions(c, n) ==> columns.contains(n)),
    decreases c,
{
    match c {
        Formula::Not(a) => {
            lemma_scoped_mentions(*a, columns);
            if !scoped(c, columns) {
                let n = choose|n: Name| #[trigger] mentions(*a, n) && !columns.contains(n);
                assert(mentions(c, n));
            } else {
                assert forall|n: Name| #[trigger] mentions(c, n) implies columns.contains(n) by {
                    assert(mentions(*a, n));
                }
            }
        },
        Formula::And(a, b) => {
            lemma_scoped_mentions(*a, columns);
            lemma_scoped_mentions(*b, columns);
            if !scoped(c, columns) {
                if !scoped(*a, columns) {
                    let n = choose|n: Name| #[trigger] mentions(*a, n) && !columns.contains(n);
                    assert(mentions(c, n));
                } else {
                    let n = choose|n: Name| #[trigger] mentions(*b, n) && !columns.contains(n);
                    assert(mentions(c, n));
                }
            } else {
                assert forall|n: Name| #[trigger] mentions(c, n) implies columns.contains(n) by {
                    if mentions(*a, n) {
                    } else {
                        assert(mentions(*b, n));
                    }
                }
            }
        },
        Formula::Or(a, b) => {
            lemma_scoped_mentions(*a, columns);
            lemma_scoped_mentions(*b, columns);
            if !scoped(c, columns) {
                if !scoped(*a, columns) {
                    let n = choose|n: Name| #[trigger] mentions(*a, n) && !columns.contains(n);
                    assert(mentions(c, n));
                } else {
                    let n = choose|n: Name| #[trigger] mentions(*b, n) && !columns.contains(n);
                    assert(mentions(c, n));
                }
            } else {
                assert forall|n: Name| #[trigger] mentions(c, n) implies columns.contains(n) by {
                    if mentions(*a, n) {
                    } else {
                        assert(mentions(*b, n));
                    }
                }
            }
        },
        Formula::Equal(x, y) => {
            lemma_operands_scoped(c, x, y, columns);
        },
        Formula::Less(x, y) => {
            lemma_operands_scoped(c, x, y, columns);
        },
        Formula::More(x, y) => {
            lemma_operands_scoped(c, x, y, columns);
        },
        _ => {
            assert forall|n: Name| #[trigger] mentions(c, n) implies columns.contains(n) by {}
        },
    }
}

proof fn lemma_operands_scoped(c: Formula, x: Datum, y: Datum, columns: Seq<Name>)
    requires
        c == Formula::Equal(x, y) || c == Formula::Less(x, y) || c == Formula::More(x, y),
    ensures
        scoped(c, columns) == (forall|n: Name| #[trigger] mentions(c, n) ==> columns.contains(n)),
{
    if !scoped(c, columns) {
        if !operand_scoped(x, columns) {
            let n = x->Column_0;
            assert(mentions(c, n));
        } else {
            let n = y->Column_0;
            assert(mentions(c, n));
        }
    } else {
        assert forall|n: Name| #[trigger] mentions(c, n) implies columns.contains(n) by {
            if operand_mentions(x, n) {
            } else {
                assert(operand_mentions(y, n));
            }
        }
    }
}

/// A condition scoped in a schema is scoped in every schema that holds the
/// names of the first.
pub proof fn lemma_scoped_widen(c: Formula, columns: Seq<Name>, wider: Seq<Name>)
    requires
        scoped(c, columns),
        forall|i: int| 0 <= i < columns.len() ==> wider.contains(#[trigger] columns[i]),
    ensures
        scoped(c, wider),
{
    lemma_scoped_mentions(c, columns);
    lemma_scoped_mentions(c, wider);
    assert forall|n: Name| #[trigger] mentions(c, n) implies wider.contains(n) by {
        assert(columns.contains(n));
        let i = choose|i: int| 0 <= i < columns.len() && columns[i] == n;
        assert(wider.contains(columns[i]));
    }
}

/// The two lists hold the same names.
pub open spec fn same_set(a: Seq<Name>, b: Seq<Name>) -> bool {
    forall|n: Name| #[trigger] a.contains(n) == b.contains(n)
}

/// A name is in a merged list if it is in one of the two lists.
pub proof fn lemma_merge_contains(a: Seq<Name>, b: Seq<Name>, n: Name)
    ensures
        merge_names(a, b).contains(n) == (a.contains(n) || b.contains(n)),
    decreases b.len(),
{
    if b.len() > 0 {
        lemma_merge_contains(a, b.drop_last(), n);
        lemma_insert_contains(merge_names(a, b.drop_last()), b.last(), n);
        assert(b[b.len() - 1] == b.last());
        if b.contains(n) {
            let i = choose|i: int| 0 <= i < b.len() && b[i] == n;
            if i < b.len() - 1 {
                assert(b.drop_last()[i] == n);
            }
        }
        if b.drop_last().contains(n) {
            let i = choose|i: int| 0 <= i < b.drop_last().len() && b.drop_last()[i] == n;
            assert(b[i] == n);
        }
    }
}

/// A name is in a list with a name taken out if it was there and is
/// another name.
pub proof fn lemma_remove_contains(names: Seq<Name>, x: Name, n: Name)
    ensures
        remove_name(names, x).contains(n) == (names.contains(n) && n != x),
{
    let kept = remove_name(names, x);
    if kept.contains(n) {
        let k = choose|k: int| 0 <= k < kept.len() && kept[k] == n;
        lemma_filter_member(names, other_than(x), k);
    }
    if names.contains(n) && n != x {
        let i = choose|i: int| 0 <= i < names.len() && names[i] == n;
        lemma_filter_keeps(names, other_than(x), i);
    }
}

/// Every `Load` of the plan that carries columns carries those of the
/// relation it reads.
pub open spec fn faithful(plan: Plan, sources: Sources) -> bool
    decreases plan,
{
    match plan {
        Plan::Select(p, _) => faithful(*p, sources),
        Plan::Project(p, _) => faithful(*p, sources),
        Plan::Rename(p, _, _) => faithful(*p, sources),
        Plan::Except(p, q) => faithful(*p, sources) && faithful(*q, sources),
        Plan::Union(p, q) => faithful(*p, sources) && faithful(*q, sources),
        Plan::Product(p, q) => faithful(*p, sources) && faithful(*q, sources),
        Plan::JoinProjectRename(p, q, _, _, _) => faithful(*p, sources) && faithful(*q, sources),
        Plan::Load(name, Some(columns)) => find(sources, name) matches Some(t) && t.columns
            == columns,
        _ => true,
    }
}

/// A name is in a concatenation if it is in one of the two parts.
pub proof fn lemma_add_contains(s: Seq<Name>, t: Seq<Name>, n: Name)
    ensures
        (s + t).contains(n) == (s.contains(n) || t.contains(n)),
{
    if (s + t).contains(n) {
        let i = choose|i: int| 0 <= i < (s + t).len() && (s + t)[i] == n;
        if i < s.len() {
            assert(s[i] == n);
        } else {
            assert(t[i - s.len()] == n);
        }
    }
    if s.contains(n) {
        let i = choose|i: int| 0 <= i < s.len() && s[i] == n;
        assert((s + t)[i] == n);
    }
    if t.contains(n) {
        let i = choose|i: int| 0 <= i < t.len() && t[i] == n;
        assert((s + t)[s.len() + i] == n);
    }
}

} // verus!
