//! Soundness of the optimizer: what a pass makes of a plan evaluates to
//! what the plan evaluates to.

use vstd::prelude::*;
use crate::congruence::alike;
use crate::congruence::lemma_alike_trans;
use crate::congruence::lemma_except_alike;
use crate::congruence::lemma_join_alike_chain;
use crate::congruence::lemma_product_alike;
use crate::congruence::lemma_project_alike;
use crate::congruence::lemma_rename_alike;
use crate::congruence::lemma_select_alike;
use crate::congruence::lemma_union_alike;
use crate::error::Error;
use crate::laws::law_eval_wf;
use crate::model::Formula;
use crate::model::Name;
use crate::model::Plan;
use crate::model::Sources;
use crate::model::eval_plan;
use crate::model::load;
use crate::model::product;
use crate::model::project;
use crate::model::rename;
use crate::model::scoped;
use crate::model::select;
use crate::model::select_project_rename;
use crate::model::sources_wf;
use crate::optimize::Optimizer;
use crate::optimize::chained;
use crate::rewrite::discovered;
use crate::rewrite::join_chain;
use crate::rewrite::read_chain;
use crate::rewrite::unfused;

verus! {

/// Discovering the columns of the loads does not change what a plan
/// evaluates to.
pub proof fn law_discovery_preserves_eval(plan: Plan, sources: Sources)
    ensures
        discovered(plan, sources) matches Ok(found) ==> eval_plan(found, sources) == eval_plan(
            plan,
            sources,
        ),
    decreases plan,
{
    match plan {
        Plan::Select(p, c) => {
            law_discovery_preserves_eval(*p, sources);
        },
        Plan::Project(p, columns) => {
            law_discovery_preserves_eval(*p, sources);
        },
        Plan::Rename(p, old, new) => {
            law_discovery_preserves_eval(*p, sources);
        },
        Plan::Except(p, q) => {
            law_discovery_preserves_eval(*p, sources);
            law_discovery_preserves_eval(*q, sources);
        },
        Plan::Union(p, q) => {
            law_discovery_preserves_eval(*p, sources);
            law_discovery_preserves_eval(*q, sources);
        },
        Plan::Product(p, q) => {
            law_discovery_preserves_eval(*p, sources);
            law_discovery_preserves_eval(*q, sources);
        },
        _ => {},
    }
}

/// Discovery is idempotent: a plan whose loads carry their columns is left
/// as it is.
pub proof fn law_discovery_idempotent(plan: Plan, sources: Sources)
    ensures
        discovered(plan, sources) matches Ok(found) ==> discovered(found, sources) == Ok::<
            Plan,
            Error,
        >(found),
    decreases plan,
{
    match plan {
        Plan::Select(p, c) => {
            law_discovery_idempotent(*p, sources);
        },
        Plan::Project(p, columns) => {
            law_discovery_idempotent(*p, sources);
        },
        Plan::Rename(p, old, new) => {
            law_discovery_idempotent(*p, sources);
        },
        Plan::Except(p, q) => {
            law_discovery_idempotent(*p, sources);
            law_discovery_idempotent(*q, sources);
        },
        Plan::Union(p, q) => {
            law_discovery_idempotent(*p, sources);
            law_discovery_idempotent(*q, sources);
        },
        Plan::Product(p, q) => {
            law_discovery_idempotent(*p, sources);
            law_discovery_idempotent(*q, sources);
        },
        _ => {},
    }
}

/// The condition of every fused join of the plan refers to columns of the
/// two joined tables only.
pub open spec fn joins_scoped(plan: Plan, sources: Sources) -> bool
    decreases plan,
{
    match plan {
        Plan::Select(p, _) => joins_scoped(*p, sources),
        Plan::Project(p, _) => joins_scoped(*p, sources),
        Plan::Rename(p, _, _) => joins_scoped(*p, sources),
        Plan::Except(p, q) => joins_scoped(*p, sources) && joins_scoped(*q, sources),
        Plan::Union(p, q) => joins_scoped(*p, sources) && joins_scoped(*q, sources),
        Plan::Product(p, q) => joins_scoped(*p, sources) && joins_scoped(*q, sources),
        Plan::JoinProjectRename(p, q, c, _, _) => {
            &&& joins_scoped(*p, sources)
            &&& joins_scoped(*q, sources)
            &&& (eval_plan(*p, sources) matches Ok(a) ==> (eval_plan(*q, sources) matches Ok(b)
                ==> scoped(c, a.columns + b.columns)))
        },
        _ => true,
    }
}

/// What the chain that a fused read stands for evaluates to.
pub proof fn lemma_read_chain_eval(name: Name, c: Formula, old: Seq<Name>, new: Seq<Name>, sources: Sources)
    ensures
        eval_plan(read_chain(name, c, old, new), sources) == (match load(sources, name) {
            Ok(t) => select_project_rename(t, c, old, new),
            Err(e) => Err(e),
        }),
{
    let read = Plan::Load(name, None);
    let selected = Plan::Select(Box::new(read), c);
    let projected = Plan::Project(Box::new(selected), old);
    let renamed = Plan::Rename(Box::new(projected), old, new);
    assert(eval_plan(read, sources) == load(sources, name));
    assert(eval_plan(selected, sources) == (match eval_plan(read, sources) {
        Ok(t) => select(t, c),
        Err(e) => Err(e),
    }));
    assert(eval_plan(projected, sources) == (match eval_plan(selected, sources) {
        Ok(t) => project(t, old),
        Err(e) => Err(e),
    }));
    assert(eval_plan(renamed, sources) == (match eval_plan(projected, sources) {
        Ok(t) => rename(t, old, new),
        Err(e) => Err(e),
    }));
}

/// What the chain that a fused join stands for evaluates to.
pub proof fn lemma_join_chain_eval(
    p: Plan,
    q: Plan,
    c: Formula,
    old: Seq<Name>,
    new: Seq<Name>,
    sources: Sources,
)
    ensures
        eval_plan(join_chain(p, q, c, old, new), sources) == (match eval_plan(p, sources) {
            Ok(a) => match eval_plan(q, sources) {
                Ok(b) => match product(a, b) {
                    Ok(wide) => select_project_rename(wide, c, old, new),
                    Err(e) => Err(e),
                },
                Err(e) => Err(e),
            },
            Err(e) => Err(e),
        }),
{
    let crossed = Plan::Product(Box::new(p), Box::new(q));
    let selected = Plan::Select(Box::new(crossed), c);
    let projected = Plan::Project(Box::new(selected), old);
    let renamed = Plan::Rename(Box::new(projected), old, new);
    assert(eval_plan(crossed, sources) == (match eval_plan(p, sources) {
        Ok(a) => match eval_plan(q, sources) {
            Ok(b) => product(a, b),
            Err(e) => Err(e),
        },
        Err(e) => Err(e),
    }));
    assert(eval_plan(selected, sources) == (match eval_plan(crossed, sources) {
        Ok(t) => select(t, c),
        Err(e) => Err(e),
    }));
    assert(eval_plan(projected, sources) == (match eval_plan(selected, sources) {
        Ok(t) => project(t, old),
        Err(e) => Err(e),
    }));
    assert(eval_plan(renamed, sources) == (match eval_plan(projected, sources) {
        Ok(t) => rename(t, old, new),
        Err(e) => Err(e),
    }));
}

/// Expanding the fused nodes of a plan does not change what the plan
/// evaluates to, but for the order of the rows: the same error, or the same
/// schema and the same rows, each as often. The condition of every fused
/// join must refer to columns of the two joined tables only.
pub proof fn law_unfuse_preserves_eval(plan: Plan, sources: Sources)
    requires
        sources_wf(sources),
        joins_scoped(plan, sources),
    ensures
        alike(eval_plan(unfused(plan), sources), eval_plan(plan, sources)),
    decreases plan,
{
    match plan {
        Plan::Select(p, c) => {
            law_unfuse_preserves_eval(*p, sources);
            if let Ok(t) = eval_plan(*p, sources) {
                lemma_select_alike(eval_plan(unfused(*p), sources)->Ok_0, t, c);
            }
        },
        Plan::Project(p, columns) => {
            law_unfuse_preserves_eval(*p, sources);
            if let Ok(t) = eval_plan(*p, sources) {
                lemma_project_alike(eval_plan(unfused(*p), sources)->Ok_0, t, columns);
            }
        },
        Plan::Rename(p, old, new) => {
            law_unfuse_preserves_eval(*p, sources);
            if let Ok(t) = eval_plan(*p, sources) {
                lemma_rename_alike(eval_plan(unfused(*p), sources)->Ok_0, t, old, new);
            }
        },
        Plan::Except(p, q) => {
            law_unfuse_preserves_eval(*p, sources);
            law_unfuse_preserves_eval(*q, sources);
            if let Ok(a) = eval_plan(*p, sources) {
                if let Ok(b) = eval_plan(*q, sources) {
                    lemma_except_alike(
                        eval_plan(unfused(*p), sources)->Ok_0,
                        eval_plan(unfused(*q), sources)->Ok_0,
                        a,
                        b,
                    );
                }
            }
        },
        Plan::Union(p, q) => {
            law_unfuse_preserves_eval(*p, sources);
            law_unfuse_preserves_eval(*q, sources);
            if let Ok(a) = eval_plan(*p, sources) {
                if let Ok(b) = eval_plan(*q, sources) {
                    lemma_union_alike(
                        eval_plan(unfused(*p), sources)->Ok_0,
                        eval_plan(unfused(*q), sources)->Ok_0,
                        a,
                        b,
                    );
                }
            }
        },
        Plan::Product(p, q) => {
            law_unfuse_preserves_eval(*p, sources);
            law_unfuse_preserves_eval(*q, sources);
            if let Ok(a) = eval_plan(*p, sources) {
                if let Ok(b) = eval_plan(*q, sources) {
                    lemma_product_alike(
                        eval_plan(unfused(*p), sources)->Ok_0,
                        eval_plan(unfused(*q), sources)->Ok_0,
                        a,
                        b,
                    );
                }
            }
        },
        Plan::ReadSelectProjectRename(name, c, old, new) => {
            lemma_read_chain_eval(name, c, old, new, sources);
            let t = eval_plan(plan, sources);
            assert(alike(t, t)) by {
                if let Ok(r) = t {
                    assert(r.rows.to_multiset() =~= r.rows.to_multiset());
                }
            }
        },
        Plan::JoinProjectRename(p, q, c, old, new) => {
            lemma_join_chain_eval(unfused(*p), unfused(*q), c, old, new, sources);
            law_unfuse_preserves_eval(*p, sources);
            law_unfuse_preserves_eval(*q, sources);
            law_eval_wf(*p, sources);
            law_eval_wf(*q, sources);
            if let Ok(a) = eval_plan(*p, sources) {
                if let Ok(b) = eval_plan(*q, sources) {
                    let x = eval_plan(unfused(*p), sources)->Ok_0;
                    let y = eval_plan(unfused(*q), sources)->Ok_0;
                    lemma_join_alike_chain(a, b, x, y, c, old, new);
                }
            }
        },
        Plan::Load(name, columns) => {},
    }
}

/// A chain of passes is sound if each of its passes is: where pass `i`
/// takes every plan that `fit(i, ..)` admits to a plan that `fit(i + 1, ..)`
/// admits and that evaluates alike, the chain takes a plan that `fit(0, ..)`
/// admits to a plan that evaluates alike.
pub proof fn law_chain_sound(
    optimizers: Seq<Box<dyn Optimizer>>,
    fit: spec_fn(int, Plan) -> bool,
    from: int,
    plan: Plan,
    sources: Sources,
)
    requires
        0 <= from <= optimizers.len(),
        fit(from, plan),
        forall|i: int, p: Plan|
            0 <= i < optimizers.len() && #[trigger] fit(i, p) ==> (optimizers[i].rewritten(
                p,
                sources,
            ) matches Ok(q) ==> fit(i + 1, q) && alike(
                eval_plan(q, sources),
                eval_plan(p, sources),
            )),
    ensures
        chained(optimizers, from, plan, sources) matches Ok(q) ==> fit(optimizers.len() as int, q)
            && alike(eval_plan(q, sources), eval_plan(plan, sources)),
    decreases optimizers.len() - from,
{
    if from < optimizers.len() {
        if let Ok(next) = optimizers[from].rewritten(plan, sources) {
            law_chain_sound(optimizers, fit, from + 1, next, sources);
            if let Ok(q) = chained(optimizers, from + 1, next, sources) {
                lemma_alike_trans(
                    eval_plan(q, sources),
                    eval_plan(next, sources),
                    eval_plan(plan, sources),
                );
            }
        }
    } else {
        let t = eval_plan(plan, sources);
        assert(alike(t, t)) by {
            if let Ok(r) = t {
                assert(r.rows.to_multiset() =~= r.rows.to_multiset());
            }
        }
    }
}

} // verus!
