//! The optimizer: the pass abstraction, the chain of passes, and the
//! passes themselves.

use vstd::prelude::*;
use crate::error::Error;
use crate::lemmas::lemma_filter_step;
use crate::model::Formula;
use crate::model::Name;
use crate::model::Plan;
use crate::model::Sources;
use crate::rewrite::Recorded;
use crate::rewrite::all_in;
use crate::rewrite::columns_of;
use crate::rewrite::discovered;
use crate::rewrite::exposed_after;
use crate::rewrite::exposed_columns;
use crate::rewrite::fused;
use crate::rewrite::fused_below;
use crate::rewrite::fused_read;
use crate::rewrite::member_of;
use crate::rewrite::none_in;
use crate::rewrite::not_member_of;
use crate::rewrite::not_outside;
use crate::rewrite::not_within;
use crate::rewrite::nothing;
use crate::rewrite::origin;
use crate::rewrite::origin_of_formula;
use crate::rewrite::origin_of_operand;
use crate::rewrite::origins;
use crate::rewrite::other_than;
use crate::rewrite::outside;
use crate::rewrite::pair_count;
use crate::rewrite::projections_pushed;
use crate::rewrite::required_below;
use crate::rewrite::rewrapped;
use crate::rewrite::selections_above;
use crate::rewrite::selections_pushed;
use crate::rewrite::unfused;
use crate::rewrite::used_columns;
use crate::rewrite::within;
use crate::rewrite;
use crate::table::Catalog;
use crate::table::position;
use crate::types::Condition;
use crate::types::Expression;
use crate::types::Value;
use crate::types::clone_names;
use crate::types::conditions_view;
use crate::types::discovered_view;
use crate::types::names_view;

verus! {

/// What a fallible plan stands for.
pub open spec fn plan_result(r: Result<Box<Expression>, Error>) -> Result<Plan, Error> {
    match r {
        Ok(e) => Ok(e@),
        Err(e) => Err(e),
    }
}

/// What a fallible list of names stands for.
pub open spec fn names_result(r: Result<Vec<String>, Error>) -> Result<Seq<Name>, Error> {
    match r {
        Ok(names) => Ok(names_view(names@)),
        Err(e) => Err(e),
    }
}

/// An optimizer pass: it takes a plan and gives a plan.
pub trait Optimizer {
    /// The plan that the pass makes of `plan`, or the error it stops with.
    spec fn rewritten(&self, plan: Plan, sources: Sources) -> Result<Plan, Error>;

    /// Runs the pass on `expression`.
    fn optimize(&self, expression: Box<Expression>, catalog: &Catalog) -> (r: Result<
        Box<Expression>,
        Error,
    >)
        ensures
            plan_result(r) == self.rewritten(expression@, catalog@),
    ;
}

// ---------------------------------------------------------------------------
// Lists of names used as sets
// ---------------------------------------------------------------------------

/// Whether `names` holds `name`.
pub fn contains_name(names: &Vec<String>, name: &String) -> (r: bool)
    ensures
        r == names_view(names@).contains(name@),
{
    match position(names, name) {
        Some(i) => {
            assert(names_view(names@)[i as int] == name@);
            true
        },
        None => false,
    }
}

/// Adds `name` at the end of `names`, unless it is there already.
pub fn add_name(names: &mut Vec<String>, name: &String)
    ensures
        names_view(final(names)@) == rewrite::insert_name(names_view(old(names)@), name@),
{
    let ghost before = names_view(names@);
    if !contains_name(names, name) {
        names.push(name.clone());
        proof {
            assert(names_view(names@) =~= before.push(name@));
        }
    }
}

/// Adds those names of `more`, in order, that are not in `names` yet.
pub fn add_names(names: &mut Vec<String>, more: &Vec<String>)
    ensures
        names_view(final(names)@) == rewrite::merge_names(names_view(old(names)@), names_view(more@)),
{
    let ghost start = names_view(names@);
    let ghost extra = names_view(more@);
    let mut i: usize = 0;
    proof {
        assert(extra.take(0) =~= Seq::<Name>::empty());
    }
    while i < more.len()
        invariant
            0 <= i <= more.len(),
            extra == names_view(more@),
            names_view(names@) == rewrite::merge_names(start, extra.take(i as int)),
        decreases more.len() - i,
    {
        proof {
            assert(extra.take(i + 1).drop_last() =~= extra.take(i as int));
            assert(extra.take(i + 1).last() == more@[i as int]@);
        }
        add_name(names, &more[i]);
        i += 1;
    }
    proof {
        assert(extra.take(extra.len() as int) =~= extra);
    }
}

/// The names of `names`, in order, that are in `of` (or, with `members`
/// false, that are not).
pub fn filter_names(names: &Vec<String>, of: &Vec<String>, members: bool) -> (r: Vec<String>)
    ensures
        names_view(r@) == names_view(names@).filter(
            if members {
                member_of(names_view(of@))
            } else {
                not_member_of(names_view(of@))
            },
        ),
{
    let ghost all = names_view(names@);
    let ghost keep = if members {
        member_of(names_view(of@))
    } else {
        not_member_of(names_view(of@))
    };
    let mut out: Vec<String> = Vec::new();
    let mut i: usize = 0;
    proof {
        reveal(Seq::filter);
        assert(all.take(0).filter(keep) =~= Seq::<Name>::empty());
    }
    while i < names.len()
        invariant
            0 <= i <= names.len(),
            all == names_view(names@),
            keep == (if members {
                member_of(names_view(of@))
            } else {
                not_member_of(names_view(of@))
            }),
            names_view(out@) == all.take(i as int).filter(keep),
        decreases names.len() - i,
    {
        let ghost before = names_view(out@);
        proof {
            lemma_filter_step(all, keep, i as int);
            assert(all[i as int] == names@[i as int]@);
        }
        if contains_name(of, &names[i]) == members {
            out.push(names[i].clone());
            proof {
                assert(names_view(out@) =~= before.push(all[i as int]));
            }
        }
        i += 1;
    }
    proof {
        assert(all.take(all.len() as int) =~= all);
    }
    out
}

/// `names` without `name`.
pub fn drop_name(names: &Vec<String>, name: &String) -> (r: Vec<String>)
    ensures
        names_view(r@) == rewrite::remove_name(names_view(names@), name@),
{
    let ghost all = names_view(names@);
    let ghost keep = other_than(name@);
    let mut out: Vec<String> = Vec::new();
    let mut i: usize = 0;
    proof {
        reveal(Seq::filter);
        assert(all.take(0).filter(keep) =~= Seq::<Name>::empty());
    }
    while i < names.len()
        invariant
            0 <= i <= names.len(),
            all == names_view(names@),
            keep == other_than(name@),
            names_view(out@) == all.take(i as int).filter(keep),
        decreases names.len() - i,
    {
        let ghost before = names_view(out@);
        proof {
            lemma_filter_step(all, keep, i as int);
            assert(all[i as int] == names@[i as int]@);
        }
        if names[i] != *name {
            out.push(names[i].clone());
            proof {
                assert(names_view(out@) =~= before.push(all[i as int]));
            }
        }
        i += 1;
    }
    proof {
        assert(all.take(all.len() as int) =~= all);
    }
    out
}

/// Whether every name of `names` is in `fields`.
pub fn all_names_in(names: &Vec<String>, fields: &Vec<String>) -> (r: bool)
    ensures
        r == all_in(names_view(names@), names_view(fields@)),
{
    let mut i: usize = 0;
    while i < names.len()
        invariant
            0 <= i <= names.len(),
            forall|j: int| 0 <= j < i ==> names_view(fields@).contains(#[trigger] names_view(names@)[j]),
        decreases names.len() - i,
    {
        assert(names_view(names@)[i as int] == names@[i as int]@);
        if !contains_name(fields, &names[i]) {
            return false;
        }
        i += 1;
    }
    true
}

/// Whether no name of `names` is in `fields`.
pub fn no_name_in(names: &Vec<String>, fields: &Vec<String>) -> (r: bool)
    ensures
        r == none_in(names_view(names@), names_view(fields@)),
{
    let mut i: usize = 0;
    while i < names.len()
        invariant
            0 <= i <= names.len(),
            forall|j: int| 0 <= j < i ==> !names_view(fields@).contains(#[trigger] names_view(names@)[j]),
        decreases names.len() - i,
    {
        assert(names_view(names@)[i as int] == names@[i as int]@);
        if contains_name(fields, &names[i]) {
            return false;
        }
        i += 1;
    }
    true
}

// ---------------------------------------------------------------------------
// Columns of conditions, renaming of conditions
// ---------------------------------------------------------------------------

/// Adds to `fields` the column that `value` refers to, if it refers to one.
fn add_operand(value: &Value, fields: &mut Vec<String>)
    ensures
        names_view(final(fields)@) == rewrite::insert_operand(names_view(old(fields)@), value@),
{
    match value {
        Value::Column(name) => add_name(fields, name),
        _ => {},
    }
}

/// Adds to `fields` the columns that `condition` refers to, in the order in
/// which they are first met.
pub fn columns_used_in_condition(condition: &Condition, fields: &mut Vec<String>)
    ensures
        names_view(final(fields)@) == used_columns(condition@, names_view(old(fields)@)),
    decreases condition,
{
    match condition {
        Condition::True => {},
        Condition::False => {},
        Condition::Not(c) => columns_used_in_condition(c, fields),
        Condition::And(c1, c2) => {
            columns_used_in_condition(c1, fields);
            columns_used_in_condition(c2, fields);
        },
        Condition::Or(c1, c2) => {
            columns_used_in_condition(c1, fields);
            columns_used_in_condition(c2, fields);
        },
        Condition::Equal(v1, v2) => {
            add_operand(v1, fields);
            add_operand(v2, fields);
        },
        Condition::Less(v1, v2) => {
            add_operand(v1, fields);
            add_operand(v2, fields);
        },
        Condition::More(v1, v2) => {
            add_operand(v1, fields);
            add_operand(v2, fields);
        },
    }
}

/// The columns that `condition` refers to.
pub fn condition_columns(condition: &Condition) -> (r: Vec<String>)
    ensures
        names_view(r@) == columns_of(condition@),
{
    let mut fields: Vec<String> = Vec::new();
    proof {
        assert(names_view(fields@) =~= Seq::<Name>::empty());
    }
    columns_used_in_condition(condition, &mut fields);
    fields
}

/// The name that `name` had before the renaming.
fn origin_name(name: String, old_columns: &Vec<String>, new_columns: &Vec<String>) -> (r: String)
    ensures
        r@ == origin(
            name@,
            names_view(old_columns@),
            names_view(new_columns@),
            pair_count(names_view(old_columns@), names_view(new_columns@)),
        ),
{
    let ghost old = names_view(old_columns@);
    let ghost new = names_view(new_columns@);
    let mut count: usize = if old_columns.len() <= new_columns.len() {
        old_columns.len()
    } else {
        new_columns.len()
    };
    while count > 0
        invariant
            0 <= count <= old_columns.len(),
            count <= new_columns.len(),
            old == names_view(old_columns@),
            new == names_view(new_columns@),
            origin(name@, old, new, count as nat) == origin(name@, old, new, pair_count(old, new)),
        decreases count,
    {
        assert(new[count - 1] == new_columns@[count - 1]@);
        assert(old[count - 1] == old_columns@[count - 1]@);
        if new_columns[count - 1] == name {
            return old_columns[count - 1].clone();
        }
        count -= 1;
    }
    name
}

/// Takes a column reference back through a renaming; a literal stays.
pub fn rename_value(value: Value, old_columns: &Vec<String>, new_columns: &Vec<String>) -> (r: Value)
    ensures
        r@ == origin_of_operand(value@, names_view(old_columns@), names_view(new_columns@)),
{
    match value {
        Value::Column(s) => Value::Column(origin_name(s, old_columns, new_columns)),
        v => v,
    }
}

/// Takes every column reference of a condition back through a renaming.
pub fn rename_in_condition(condition: Box<Condition>, old_columns: &Vec<String>, new_columns: &Vec<String>) -> (r:
    Box<Condition>)
    ensures
        r@ == origin_of_formula(condition@, names_view(old_columns@), names_view(new_columns@)),
    decreases condition,
{
    match *condition {
        Condition::True => Box::new(Condition::True),
        Condition::False => Box::new(Condition::False),
        Condition::Not(c) => Box::new(
            Condition::Not(rename_in_condition(c, old_columns, new_columns)),
        ),
        Condition::And(c1, c2) => Box::new(
            Condition::And(
                rename_in_condition(c1, old_columns, new_columns),
                rename_in_condition(c2, old_columns, new_columns),
            ),
        ),
        Condition::Or(c1, c2) => Box::new(
            Condition::Or(
                rename_in_condition(c1, old_columns, new_columns),
                rename_in_condition(c2, old_columns, new_columns),
            ),
        ),
        Condition::Equal(v1, v2) => Box::new(
            Condition::Equal(
                rename_value(v1, old_columns, new_columns),
                rename_value(v2, old_columns, new_columns),
            ),
        ),
        Condition::Less(v1, v2) => Box::new(
            Condition::Less(
                rename_value(v1, old_columns, new_columns),
                rename_value(v2, old_columns, new_columns),
            ),
        ),
        Condition::More(v1, v2) => Box::new(
            Condition::More(
                rename_value(v1, old_columns, new_columns),
                rename_value(v2, old_columns, new_columns),
            ),
        ),
    }
}

// ---------------------------------------------------------------------------
// The default visit and the chain
// ---------------------------------------------------------------------------

/// The node `plan` with each child rewritten by the pass; a `Load` has no
/// child and stays, a fused node is refused.
pub open spec fn visited<O: Optimizer + ?Sized>(optimizer: &O, plan: Plan, sources: Sources) -> Result<
    Plan,
    Error,
> {
    match plan {
        Plan::Select(p, c) => match optimizer.rewritten(*p, sources) {
            Ok(x) => Ok(Plan::Select(Box::new(x), c)),
            Err(e) => Err(e),
        },
        Plan::Project(p, columns) => match optimizer.rewritten(*p, sources) {
            Ok(x) => Ok(Plan::Project(Box::new(x), columns)),
            Err(e) => Err(e),
        },
        Plan::Rename(p, old, new) => match optimizer.rewritten(*p, sources) {
            Ok(x) => Ok(Plan::Rename(Box::new(x), old, new)),
            Err(e) => Err(e),
        },
        Plan::Except(p, q) => match optimizer.rewritten(*p, sources) {
            Ok(x) => match optimizer.rewritten(*q, sources) {
                Ok(y) => Ok(Plan::Except(Box::new(x), Box::new(y))),
                Err(e) => Err(e),
            },
            Err(e) => Err(e),
        },
        Plan::Union(p, q) => match optimizer.rewritten(*p, sources) {
            Ok(x) => match optimizer.rewritten(*q, sources) {
                Ok(y) => Ok(Plan::Union(Box::new(x), Box::new(y))),
                Err(e) => Err(e),
            },
            Err(e) => Err(e),
        },
        Plan::Product(p, q) => match optimizer.rewritten(*p, sources) {
            Ok(x) => match optimizer.rewritten(*q, sources) {
                Ok(y) => Ok(Plan::Product(Box::new(x), Box::new(y))),
                Err(e) => Err(e),
            },
            Err(e) => Err(e),
        },
        Plan::Load(name, columns) => Ok(plan),
        _ => Err(Error::Precedence),
    }
}

/// The default recursive visit: rebuilds the node with each child plan
/// rewritten by the pass, the left child first.
pub fn visit_children(optimizer: &dyn Optimizer, expression: Box<Expression>, catalog: &Catalog) -> (r:
    Result<Box<Expression>, Error>)
    ensures
        plan_result(r) == visited(optimizer, expression@, catalog@),
{
    match *expression {
        Expression::Select(expression_from, condition) => {
            match optimizer.optimize(expression_from, catalog) {
                Ok(x) => Ok(Box::new(Expression::Select(x, condition))),
                Err(e) => Err(e),
            }
        },
        Expression::Project(expression_from, columns) => {
            match optimizer.optimize(expression_from, catalog) {
                Ok(x) => Ok(Box::new(Expression::Project(x, columns))),
                Err(e) => Err(e),
            }
        },
        Expression::Rename(expression_from, old_columns, new_columns) => {
            match optimizer.optimize(expression_from, catalog) {
                Ok(x) => Ok(Box::new(Expression::Rename(x, old_columns, new_columns))),
                Err(e) => Err(e),
            }
        },
        Expression::Except(expr1, expr2) => match optimizer.optimize(expr1, catalog) {
            Ok(x) => match optimizer.optimize(expr2, catalog) {
                Ok(y) => Ok(Box::new(Expression::Except(x, y))),
                Err(e) => Err(e),
            },
            Err(e) => Err(e),
        },
        Expression::Union(expr1, expr2) => match optimizer.optimize(expr1, catalog) {
            Ok(x) => match optimizer.optimize(expr2, catalog) {
                Ok(y) => Ok(Box::new(Expression::Union(x, y))),
                Err(e) => Err(e),
            },
            Err(e) => Err(e),
        },
        Expression::Product(expr1, expr2) => match optimizer.optimize(expr1, catalog) {
            Ok(x) => match optimizer.optimize(expr2, catalog) {
                Ok(y) => Ok(Box::new(Expression::Product(x, y))),
                Err(e) => Err(e),
            },
            Err(e) => Err(e),
        },
        Expression::Load(name, columns) => Ok(Box::new(Expression::Load(name, columns))),
        _ => Err(Error::Precedence),
    }
}

/// A chain of passes: each is run on the whole plan, the result of one
/// being the input of the next.
pub struct ChainOptimizer {
    pub optimizers: Vec<Box<dyn Optimizer>>,
}

/// What the passes from the one at `from` on make of `plan`, or the first
/// error met.
pub open spec fn chained(optimizers: Seq<Box<dyn Optimizer>>, from: int, plan: Plan, sources: Sources) -> Result<
    Plan,
    Error,
>
    decreases optimizers.len() - from,
{
    if 0 <= from < optimizers.len() {
        match optimizers[from].rewritten(plan, sources) {
            Ok(next) => chained(optimizers, from + 1, next, sources),
            Err(e) => Err(e),
        }
    } else {
        Ok(plan)
    }
}

impl Optimizer for ChainOptimizer {
    open spec fn rewritten(&self, plan: Plan, sources: Sources) -> Result<Plan, Error> {
        chained(self.optimizers@, 0, plan, sources)
    }

    fn optimize(&self, expression: Box<Expression>, catalog: &Catalog) -> (r: Result<
        Box<Expression>,
        Error,
    >) {
        let mut final_expression = expression;
        let mut i: usize = 0;
        while i < self.optimizers.len()
            invariant
                0 <= i <= self.optimizers.len(),
                chained(self.optimizers@, i as int, final_expression@, catalog@) == chained(
                    self.optimizers@,
                    0,
                    expression@,
                    catalog@,
                ),
            decreases self.optimizers.len() - i,
        {
            match self.optimizers[i].optimize(final_expression, catalog) {
                Ok(next) => {
                    final_expression = next;
                },
                Err(e) => {
                    return Err(e);
                },
            }
            i += 1;
        }
        Ok(final_expression)
    }
}

// ---------------------------------------------------------------------------
// Unfusing
// ---------------------------------------------------------------------------

/// Expands every fused node into the chain of plain nodes it stands for.
pub fn unfold_complex_expressions(expression: Box<Expression>) -> (r: Box<Expression>)
    ensures
        r@ == unfused(expression@),
    decreases expression,
{
    match *expression {
        Expression::Select(p, c) => Box::new(Expression::Select(unfold_complex_expressions(p), c)),
        Expression::Project(p, columns) => Box::new(
            Expression::Project(unfold_complex_expressions(p), columns),
        ),
        Expression::Rename(p, old, new) => Box::new(
            Expression::Rename(unfold_complex_expressions(p), old, new),
        ),
        Expression::Except(p, q) => Box::new(
            Expression::Except(unfold_complex_expressions(p), unfold_complex_expressions(q)),
        ),
        Expression::Union(p, q) => Box::new(
            Expression::Union(unfold_complex_expressions(p), unfold_complex_expressions(q)),
        ),
        Expression::Product(p, q) => Box::new(
            Expression::Product(unfold_complex_expressions(p), unfold_complex_expressions(q)),
        ),
        Expression::ReadSelectProjectRename(name, c, old, new) => {
            let targets = clone_names(&old);
            proof {
                reveal_with_fuel(crate::types::expression_model, 5);
            }
            Box::new(
                Expression::Rename(
                    Box::new(
                        Expression::Project(
                            Box::new(Expression::Select(Box::new(Expression::Load(name, None)), c)),
                            targets,
                        ),
                    ),
                    old,
                    new,
                ),
            )
        },
        Expression::JoinProjectRename(p, q, c, old, new) => {
            let targets = clone_names(&old);
            let left = unfold_complex_expressions(p);
            let right = unfold_complex_expressions(q);
            proof {
                reveal_with_fuel(crate::types::expression_model, 5);
            }
            Box::new(
                Expression::Rename(
                    Box::new(
                        Expression::Project(
                            Box::new(
                                Expression::Select(Box::new(Expression::Product(left, right)), c),
                            ),
                            targets,
                        ),
                    ),
                    old,
                    new,
                ),
            )
        },
        Expression::Load(name, columns) => Box::new(Expression::Load(name, columns)),
    }
}

/// The pass that expands fused nodes, so that passes which know plain
/// nodes only can take any plan.
pub struct UnfoldComplexExpressionsOptimizer {}

impl Optimizer for UnfoldComplexExpressionsOptimizer {
    open spec fn rewritten(&self, plan: Plan, sources: Sources) -> Result<Plan, Error> {
        Ok(unfused(plan))
    }

    fn optimize(&self, expression: Box<Expression>, catalog: &Catalog) -> (r: Result<
        Box<Expression>,
        Error,
    >) {
        Ok(unfold_complex_expressions(expression))
    }
}

// ---------------------------------------------------------------------------
// Discovery of load columns
// ---------------------------------------------------------------------------

/// The pass that discovers the columns of the loads: it reads the column
/// names of every `Load` that has none yet, and leaves the others as they
/// are. It must run before any pass that reads them.
pub struct DetectLoadColumnsOptimizer {}

impl Optimizer for DetectLoadColumnsOptimizer {
    open spec fn rewritten(&self, plan: Plan, sources: Sources) -> Result<Plan, Error> {
        discovered(plan, sources)
    }

    fn optimize(&self, expression: Box<Expression>, catalog: &Catalog) -> (r: Result<
        Box<Expression>,
        Error,
    >) {
        match *expression {
            // a load without columns: they are read from the relation
            Expression::Load(name, None) => match catalog.get(&name) {
                Some(table) => {
                    let columns = table.schema().keys();
                    Ok(Box::new(Expression::Load(name, Some(columns))))
                },
                None => Err(Error::SourceAccess),
            },
            other => {
                let r = visit_children(self, Box::new(other), catalog);
                proof {
                    assert(forall|plan: Plan, sources: Sources| #[trigger]
                        self.rewritten(plan, sources) == discovered(plan, sources));
                }
                r
            },
        }
    }
}

// ---------------------------------------------------------------------------
// Exposed columns
// ---------------------------------------------------------------------------

/// Computes the column names that a plan can provide.
pub fn get_exposed_columns(expression: &Expression) -> (r: Result<Vec<String>, Error>)
    ensures
        names_result(r) == exposed_columns(expression@),
    decreases expression,
{
    match expression {
        Expression::Select(p, _) => get_exposed_columns(p),
        Expression::Project(_, columns) => {
            let mut fields: Vec<String> = Vec::new();
            proof {
                assert(names_view(fields@) =~= Seq::<Name>::empty());
            }
            add_names(&mut fields, columns);
            Ok(fields)
        },
        Expression::Product(p, q) => match get_exposed_columns(p) {
            Ok(fields1) => match get_exposed_columns(q) {
                Ok(fields2) => {
                    let mut fields = fields1;
                    add_names(&mut fields, &fields2);
                    Ok(fields)
                },
                Err(e) => Err(e),
            },
            Err(e) => Err(e),
        },
        Expression::Except(p, _) => get_exposed_columns(p),
        Expression::Union(p, _) => get_exposed_columns(p),
        Expression::Rename(p, old_columns, new_columns) => match get_exposed_columns(p) {
            Ok(fields) => {
                let ghost start = names_view(fields@);
                let ghost old = names_view(old_columns@);
                let ghost new = names_view(new_columns@);
                let mut fields = fields;
                let mut i: usize = 0;
                while i < old_columns.len() && i < new_columns.len()
                    invariant
                        0 <= i <= old_columns.len(),
                        i <= new_columns.len(),
                        old == names_view(old_columns@),
                        new == names_view(new_columns@),
                        names_view(fields@) == exposed_after(start, old, new, i as nat),
                    decreases old_columns.len() - i,
                {
                    assert(old[i as int] == old_columns@[i as int]@);
                    assert(new[i as int] == new_columns@[i as int]@);
                    fields = drop_name(&fields, &old_columns[i]);
                    add_name(&mut fields, &new_columns[i]);
                    i += 1;
                }
                Ok(fields)
            },
            Err(e) => Err(e),
        },
        Expression::Load(_, Some(columns)) => {
            let mut fields: Vec<String> = Vec::new();
            proof {
                assert(names_view(fields@) =~= Seq::<Name>::empty());
            }
            add_names(&mut fields, columns);
            Ok(fields)
        },
        _ => Err(Error::Precedence),
    }
}

// ---------------------------------------------------------------------------
// Projection pushdown
// ---------------------------------------------------------------------------

/// A copy of an optional list of names.
fn clone_fields(fields: &Option<Vec<String>>) -> (r: Option<Vec<String>>)
    ensures
        discovered_view(r) == discovered_view(*fields),
{
    match fields {
        Some(names) => Some(clone_names(names)),
        None => None,
    }
}

/// The required names seen from below a renaming.
fn fields_below(fields: Vec<String>, old_columns: &Vec<String>, new_columns: &Vec<String>) -> (r: Vec<
    String,
>)
    ensures
        names_view(r@) == required_below(
            names_view(fields@),
            names_view(old_columns@),
            names_view(new_columns@),
            pair_count(names_view(old_columns@), names_view(new_columns@)),
        ),
{
    let ghost start = names_view(fields@);
    let ghost old = names_view(old_columns@);
    let ghost new = names_view(new_columns@);
    let mut fields = fields;
    let mut i: usize = 0;
    while i < old_columns.len() && i < new_columns.len()
        invariant
            0 <= i <= old_columns.len(),
            i <= new_columns.len(),
            old == names_view(old_columns@),
            new == names_view(new_columns@),
            names_view(fields@) == required_below(start, old, new, i as nat),
        decreases old_columns.len() - i,
    {
        assert(old[i as int] == old_columns@[i as int]@);
        assert(new[i as int] == new_columns@[i as int]@);
        if contains_name(&fields, &new_columns[i]) {
            fields = drop_name(&fields, &new_columns[i]);
            add_name(&mut fields, &old_columns[i]);
        } else {
            fields = drop_name(&fields, &old_columns[i]);
        }
        i += 1;
    }
    fields
}

/// Moves projections towards the loads. `fields` holds the columns that
/// the nodes above still need; `None` stands for all of them.
pub fn apply_projections_early(expression: Box<Expression>, fields: Option<Vec<String>>) -> (r: Result<
    Box<Expression>,
    Error,
>)
    ensures
        plan_result(r) == projections_pushed(expression@, discovered_view(fields)),
    decreases expression,
{
    proof {
        reveal_with_fuel(crate::types::expression_model, 3);
    }
    match *expression {
        Expression::Select(expression_from, condition) => match fields {
            Some(required) => {
                let used = condition_columns(&*condition);
                let projection_required = !all_names_in(&used, &required);
                let mut below = clone_names(&required);
                add_names(&mut below, &used);
                match apply_projections_early(expression_from, Some(below)) {
                    Ok(x) => {
                        let inner = Box::new(Expression::Select(x, condition));
                        if projection_required {
                            Ok(Box::new(Expression::Project(inner, required)))
                        } else {
                            Ok(inner)
                        }
                    },
                    Err(e) => Err(e),
                }
            },
            None => match apply_projections_early(expression_from, None) {
                Ok(x) => Ok(Box::new(Expression::Select(x, condition))),
                Err(e) => Err(e),
            },
        },
        Expression::Project(expression_from, columns) => {
            let mut required: Vec<String> = Vec::new();
            proof {
                assert(names_view(required@) =~= Seq::<Name>::empty());
            }
            add_names(&mut required, &columns);
            apply_projections_early(expression_from, Some(required))
        },
        Expression::Product(expr1, expr2) => {
            let fields2 = clone_fields(&fields);
            match apply_projections_early(expr1, fields) {
                Ok(x) => match apply_projections_early(expr2, fields2) {
                    Ok(y) => Ok(Box::new(Expression::Product(x, y))),
                    Err(e) => Err(e),
                },
                Err(e) => Err(e),
            }
        },
        Expression::Except(expr1, expr2) => {
            let fields2 = clone_fields(&fields);
            match apply_projections_early(expr1, fields) {
                Ok(x) => match apply_projections_early(expr2, fields2) {
                    Ok(y) => Ok(Box::new(Expression::Except(x, y))),
                    Err(e) => Err(e),
                },
                Err(e) => Err(e),
            }
        },
        Expression::Union(expr1, expr2) => {
            let fields2 = clone_fields(&fields);
            match apply_projections_early(expr1, fields) {
                Ok(x) => match apply_projections_early(expr2, fields2) {
                    Ok(y) => Ok(Box::new(Expression::Union(x, y))),
                    Err(e) => Err(e),
                },
                Err(e) => Err(e),
            }
        },
        Expression::Rename(expression_from, old_columns, new_columns) => {
            let below = match fields {
                Some(required) => Some(fields_below(required, &old_columns, &new_columns)),
                None => None,
            };
            match apply_projections_early(expression_from, below) {
                Ok(x) => Ok(Box::new(Expression::Rename(x, old_columns, new_columns))),
                Err(e) => Err(e),
            }
        },
        Expression::Load(name, columns) => match fields {
            Some(required) => match columns {
                Some(all) => {
                    let kept = filter_names(&all, &required, true);
                    if kept.len() != all.len() {
                        Ok(
                            Box::new(
                                Expression::Project(
                                    Box::new(Expression::Load(name, Some(all))),
                                    kept,
                                ),
                            ),
                        )
                    } else {
                        Ok(Box::new(Expression::Load(name, Some(all))))
                    }
                },
                None => Err(Error::Precedence),
            },
            None => Ok(Box::new(Expression::Load(name, columns))),
        },
        _ => Err(Error::Precedence),
    }
}

/// The pass that moves projections towards the loads. The columns of the
/// loads must have been discovered.
pub struct ApplyProjectionsEarlyOptimizer {}

impl Optimizer for ApplyProjectionsEarlyOptimizer {
    open spec fn rewritten(&self, plan: Plan, sources: Sources) -> Result<Plan, Error> {
        projections_pushed(plan, None)
    }

    fn optimize(&self, expression: Box<Expression>, catalog: &Catalog) -> (r: Result<
        Box<Expression>,
        Error,
    >) {
        apply_projections_early(expression, None)
    }
}

// ---------------------------------------------------------------------------
// Selection pushdown
// ---------------------------------------------------------------------------

/// A copy of a list of conditions.
fn clone_conditions(conditions: &Vec<Condition>) -> (r: Vec<Condition>)
    ensures
        r@ == conditions@,
{
    let mut out: Vec<Condition> = Vec::new();
    let mut i: usize = 0;
    while i < conditions.len()
        invariant
            0 <= i <= conditions.len(),
            out@ == conditions@.take(i as int),
        decreases conditions.len() - i,
    {
        out.push(conditions[i].clone());
        proof {
            assert(out@ =~= conditions@.take(i + 1));
        }
        i += 1;
    }
    proof {
        assert(conditions@.take(conditions.len() as int) =~= conditions@);
    }
    out
}

/// Splits the conditions in two, keeping their order: with `inside` true,
/// those whose columns are all in `fields` and the others; with `inside`
/// false, those that have no column in `fields` and the others.
fn partition_conditions(conditions: Vec<Condition>, fields: &Vec<String>, inside: bool) -> (r: (
    Vec<Condition>,
    Vec<Condition>,
))
    ensures
        conditions_view(r.0@) == conditions_view(conditions@).filter(
            if inside {
                within(names_view(fields@))
            } else {
                outside(names_view(fields@))
            },
        ),
        conditions_view(r.1@) == conditions_view(conditions@).filter(
            if inside {
                not_within(names_view(fields@))
            } else {
                not_outside(names_view(fields@))
            },
        ),
{
    let ghost all = conditions_view(conditions@);
    let ghost yes = if inside {
        within(names_view(fields@))
    } else {
        outside(names_view(fields@))
    };
    let ghost no = if inside {
        not_within(names_view(fields@))
    } else {
        not_outside(names_view(fields@))
    };
    let mut chosen: Vec<Condition> = Vec::new();
    let mut others: Vec<Condition> = Vec::new();
    proof {
        reveal(Seq::filter);
        assert(all.take(0).filter(yes) =~= Seq::<Formula>::empty());
        assert(all.take(0).filter(no) =~= Seq::<Formula>::empty());
        assert(conditions_view(chosen@) =~= Seq::<Formula>::empty());
        assert(conditions_view(others@) =~= Seq::<Formula>::empty());
    }
    for condition in it: conditions
        invariant
            it.seq() == conditions@,
            all == conditions_view(conditions@),
            yes == (if inside {
                within(names_view(fields@))
            } else {
                outside(names_view(fields@))
            }),
            no == (if inside {
                not_within(names_view(fields@))
            } else {
                not_outside(names_view(fields@))
            }),
            conditions_view(chosen@) == all.take(it.index() as int).filter(yes),
            conditions_view(others@) == all.take(it.index() as int).filter(no),
    {
        let ghost i = it.index() as int;
        let ghost chosen_before = conditions_view(chosen@);
        let ghost others_before = conditions_view(others@);
        proof {
            lemma_filter_step(all, yes, i);
            lemma_filter_step(all, no, i);
            assert(all[i] == condition@);
        }
        let used = condition_columns(&condition);
        let fits = if inside {
            all_names_in(&used, fields)
        } else {
            no_name_in(&used, fields)
        };
        if fits {
            chosen.push(condition);
            proof {
                assert(conditions_view(chosen@) =~= chosen_before.push(all[i]));
            }
        } else {
            others.push(condition);
            proof {
                assert(conditions_view(others@) =~= others_before.push(all[i]));
            }
        }
    }
    proof {
        assert(all.take(all.len() as int) =~= all);
    }
    (chosen, others)
}

/// Puts one selection for each condition above the plan, the first
/// innermost.
fn wrap_selections(expression: Box<Expression>, conditions: Vec<Condition>) -> (r: Box<Expression>)
    ensures
        r@ == selections_above(expression@, conditions_view(conditions@)),
{
    let ghost all = conditions_view(conditions@);
    let ghost start = expression@;
    let mut new_expr = expression;
    proof {
        assert(all.take(0) =~= Seq::<Formula>::empty());
    }
    for condition in it: conditions
        invariant
            it.seq() == conditions@,
            all == conditions_view(conditions@),
            new_expr@ == selections_above(start, all.take(it.index() as int)),
    {
        proof {
            let i = it.index() as int;
            assert(all.take(i + 1).drop_last() =~= all.take(i));
            assert(all.take(i + 1).last() == condition@);
        }
        new_expr = Box::new(Expression::Select(new_expr, Box::new(condition)));
    }
    proof {
        assert(all.take(all.len() as int) =~= all);
    }
    new_expr
}

/// Takes every condition back through a renaming.
fn rename_in_conditions(conditions: Vec<Condition>, old_columns: &Vec<String>, new_columns: &Vec<String>) -> (r:
    Vec<Condition>)
    ensures
        conditions_view(r@) == conditions_view(conditions@).map_values(
            origins(names_view(old_columns@), names_view(new_columns@)),
        ),
{
    let ghost all = conditions_view(conditions@);
    let ghost back = origins(names_view(old_columns@), names_view(new_columns@));
    let mut out: Vec<Condition> = Vec::new();
    proof {
        assert(conditions_view(out@) =~= all.take(0).map_values(back));
    }
    for condition in it: conditions
        invariant
            it.seq() == conditions@,
            all == conditions_view(conditions@),
            back == origins(names_view(old_columns@), names_view(new_columns@)),
            conditions_view(out@) == all.take(it.index() as int).map_values(back),
    {
        let ghost i = it.index() as int;
        let ghost before = conditions_view(out@);
        let renamed = rename_in_condition(Box::new(condition), old_columns, new_columns);
        out.push(*renamed);
        proof {
            assert(all[i] == condition@);
            assert(conditions_view(out@) =~= before.push(back(all[i])));
            assert(all.take(i + 1).map_values(back) =~= all.take(i).map_values(back).push(
                back(all[i]),
            ));
        }
    }
    proof {
        assert(all.take(all.len() as int) =~= all);
    }
    out
}

/// Moves selections towards the loads. `selections` holds the conditions
/// of the selections met on the way down, which are still to be placed.
pub fn push_down_selections(expression: Box<Expression>, selections: Vec<Condition>) -> (r: Result<
    Box<Expression>,
    Error,
>)
    ensures
        plan_result(r) == selections_pushed(expression@, conditions_view(selections@)),
    decreases expression,
{
    let ghost pending = conditions_view(selections@);
    match *expression {
        Expression::Select(expression_from, condition) => {
            let mut selections = selections;
            selections.push(*condition);
            proof {
                assert(conditions_view(selections@) =~= pending.push(condition@));
            }
            push_down_selections(expression_from, selections)
        },
        Expression::Project(expression_from, columns) => {
            match push_down_selections(expression_from, selections) {
                Ok(x) => Ok(Box::new(Expression::Project(x, columns))),
                Err(e) => Err(e),
            }
        },
        Expression::Product(expr1, expr2) => {
            let fields1 = match get_exposed_columns(&*expr1) {
                Ok(fields) => fields,
                Err(e) => {
                    return Err(e);
                },
            };
            let (selections1, rest) = partition_conditions(selections, &fields1, true);
            let (selections2, spanning) = partition_conditions(rest, &fields1, false);
            match push_down_selections(expr1, selections1) {
                Ok(x) => match push_down_selections(expr2, selections2) {
                    Ok(y) => Ok(wrap_selections(Box::new(Expression::Product(x, y)), spanning)),
                    Err(e) => Err(e),
                },
                Err(e) => Err(e),
            }
        },
        Expression::Except(expr1, expr2) => {
            let selections2 = clone_conditions(&selections);
            match push_down_selections(expr1, selections) {
                Ok(x) => match push_down_selections(expr2, selections2) {
                    Ok(y) => Ok(Box::new(Expression::Except(x, y))),
                    Err(e) => Err(e),
                },
                Err(e) => Err(e),
            }
        },
        Expression::Union(expr1, expr2) => {
            let selections2 = clone_conditions(&selections);
            match push_down_selections(expr1, selections) {
                Ok(x) => match push_down_selections(expr2, selections2) {
                    Ok(y) => Ok(Box::new(Expression::Union(x, y))),
                    Err(e) => Err(e),
                },
                Err(e) => Err(e),
            }
        },
        Expression::Rename(expression_from, old_columns, new_columns) => {
            let updated = rename_in_conditions(selections, &old_columns, &new_columns);
            match push_down_selections(expression_from, updated) {
                Ok(x) => Ok(Box::new(Expression::Rename(x, old_columns, new_columns))),
                Err(e) => Err(e),
            }
        },
        Expression::Load(name, columns) => Ok(
            wrap_selections(Box::new(Expression::Load(name, columns)), selections),
        ),
        _ => Err(Error::Precedence),
    }
}

/// The pass that moves selections towards the loads. The columns of the
/// loads must have been discovered wherever a product is met.
pub struct PushDownSelectionsOptimizer {}

impl Optimizer for PushDownSelectionsOptimizer {
    open spec fn rewritten(&self, plan: Plan, sources: Sources) -> Result<Plan, Error> {
        selections_pushed(plan, Seq::empty())
    }

    fn optimize(&self, expression: Box<Expression>, catalog: &Catalog) -> (r: Result<
        Box<Expression>,
        Error,
    >) {
        let selections: Vec<Condition> = Vec::new();
        proof {
            assert(conditions_view(selections@) =~= Seq::<Formula>::empty());
        }
        push_down_selections(expression, selections)
    }
}

// ---------------------------------------------------------------------------
// Fusion
// ---------------------------------------------------------------------------

/// What the walk down a chain has recorded: at most one selection, the
/// outermost projection, at most one renaming.
pub struct Seen {
    pub selection: Option<Box<Condition>>,
    pub projection: Option<Vec<String>>,
    pub renaming: Option<(Vec<String>, Vec<String>)>,
}

impl View for Seen {
    type V = Recorded;

    open spec fn view(&self) -> Recorded {
        Recorded {
            selection: match self.selection {
                Some(c) => Some(c@),
                None => None,
            },
            projection: discovered_view(self.projection),
            renaming: match self.renaming {
                Some((old, new)) => Some((names_view(old@), names_view(new@))),
                None => None,
            },
        }
    }
}

impl Seen {
    /// Nothing recorded.
    pub fn new() -> (r: Seen)
        ensures
            r@ == nothing(),
    {
        Seen { selection: None, projection: None, renaming: None }
    }
}

/// Puts back above `expression` what the walk has recorded: the selection
/// innermost, then the projection, the renaming outermost.
fn rewrap(expression: Box<Expression>, seen: Seen) -> (r: Box<Expression>)
    ensures
        r@ == rewrapped(expression@, seen@),
{
    proof {
        reveal_with_fuel(crate::types::expression_model, 4);
    }
    let Seen { selection, projection, renaming } = seen;
    let a = match selection {
        Some(c) => Box::new(Expression::Select(expression, c)),
        None => expression,
    };
    let b = match projection {
        Some(columns) => Box::new(Expression::Project(a, columns)),
        None => a,
    };
    match renaming {
        Some((old, new)) => Box::new(Expression::Rename(b, old, new)),
        None => b,
    }
}

/// The fused read that a chain over the load of `name` collapses into.
fn fuse_read(
    name: String,
    all: Vec<String>,
    condition: Box<Condition>,
    projection: Option<Vec<String>>,
    renaming: Option<(Vec<String>, Vec<String>)>,
) -> (r: Box<Expression>)
    ensures
        r@ == fused_read(
            name@,
            names_view(all@),
            condition@,
            (Seen { selection: Some(condition), projection, renaming })@,
        ),
{
    let fields = match projection {
        Some(columns) => columns,
        None => all,
    };
    let (old_attrs, new_attrs) = match renaming {
        Some((old, new)) => (old, new),
        None => {
            let old: Vec<String> = Vec::new();
            let new: Vec<String> = Vec::new();
            proof {
                assert(names_view(old@) =~= Seq::<Name>::empty());
                assert(names_view(new@) =~= Seq::<Name>::empty());
            }
            (old, new)
        },
    };
    let mut once: Vec<String> = Vec::new();
    proof {
        assert(names_view(once@) =~= Seq::<Name>::empty());
    }
    add_names(&mut once, &fields);
    let mut still_there = filter_names(&once, &old_attrs, false);
    let mut still_there_too = clone_names(&still_there);
    let mut old_attrs = old_attrs;
    let mut new_attrs = new_attrs;
    let ghost old_before = names_view(old_attrs@);
    let ghost new_before = names_view(new_attrs@);
    let ghost rest = names_view(still_there@);
    old_attrs.append(&mut still_there);
    new_attrs.append(&mut still_there_too);
    proof {
        assert(names_view(old_attrs@) =~= old_before + rest);
        assert(names_view(new_attrs@) =~= new_before + rest);
    }
    Box::new(Expression::ReadSelectProjectRename(name, condition, old_attrs, new_attrs))
}

/// The pass that collapses chains over loads into fused reads. Selections
/// must have been pushed down first, projections second.
pub struct FoldComplexExpressionsOptimizer {}

impl FoldComplexExpressionsOptimizer {
    /// Collapses every chain of a renaming, projections and a selection over
    /// a load into a fused read. `seen` is what the walk down the chain has
    /// recorded so far.
    pub fn fold(&self, expression: Box<Expression>, seen: Seen, catalog: &Catalog) -> (r: Result<
        Box<Expression>,
        Error,
    >)
        ensures
            plan_result(r) == fused(expression@, seen@),
        decreases expression,
    {
        let Seen { selection, projection, renaming } = seen;
        match *expression {
            Expression::Select(expr, condition) => match selection {
                None => self.fold(
                    expr,
                    Seen { selection: Some(condition), projection, renaming },
                    catalog,
                ),
                Some(first) => self.fold_below(
                    Box::new(Expression::Select(expr, condition)),
                    Seen { selection: Some(first), projection, renaming },
                    catalog,
                ),
            },
            Expression::Project(expr, attrs) => {
                let projection = match projection {
                    Some(columns) => Some(columns),
                    None => Some(attrs),
                };
                self.fold(expr, Seen { selection, projection, renaming }, catalog)
            },
            Expression::Rename(expr, old_attrs, new_attrs) => {
                if projection.is_none() && selection.is_none() && renaming.is_none() {
                    self.fold(
                        expr,
                        Seen { selection, projection, renaming: Some((old_attrs, new_attrs)) },
                        catalog,
                    )
                } else {
                    self.fold_below(
                        Box::new(Expression::Rename(expr, old_attrs, new_attrs)),
                        Seen { selection, projection, renaming },
                        catalog,
                    )
                }
            },
            Expression::Load(name, columns) => match selection {
                Some(condition) => match columns {
                    Some(all) => Ok(fuse_read(name, all, condition, projection, renaming)),
                    None => Err(Error::Precedence),
                },
                None => self.fold_below(
                    Box::new(Expression::Load(name, columns)),
                    Seen { selection: None, projection, renaming },
                    catalog,
                ),
            },
            other => self.fold_below(
                Box::new(other),
                Seen { selection, projection, renaming },
                catalog,
            ),
        }
    }

    /// Where the walk stops short of a fusion: fuses the children of the
    /// node on their own, by the default visit, and puts back above the
    /// result what was recorded.
    fn fold_below(&self, expression: Box<Expression>, seen: Seen, catalog: &Catalog) -> (r: Result<
        Box<Expression>,
        Error,
    >)
        ensures
            plan_result(r) == fused_below(expression@, seen@),
    {
        proof {
            assert(forall|plan: Plan, sources: Sources| #[trigger]
                self.rewritten(plan, sources) == fused(plan, nothing()));
        }
        match visit_children(self, expression, catalog) {
            Ok(x) => Ok(rewrap(x, seen)),
            Err(e) => Err(e),
        }
    }
}

impl Optimizer for FoldComplexExpressionsOptimizer {
    open spec fn rewritten(&self, plan: Plan, sources: Sources) -> Result<Plan, Error> {
        fused(plan, nothing())
    }

    fn optimize(&self, expression: Box<Expression>, catalog: &Catalog) -> (r: Result<
        Box<Expression>,
        Error,
    >) {
        self.fold(expression, Seen::new(), catalog)
    }
}

// ---------------------------------------------------------------------------
// Passes by name
// ---------------------------------------------------------------------------

/// One of the five passes, as a value.
#[derive(Clone, Copy, Debug, PartialEq, Eq, Structural)]
pub enum Pass {
    /// Expands fused nodes.
    Unfold,
    /// Discovers the columns of the loads.
    DetectLoadColumns,
    /// Moves selections towards the loads.
    PushDownSelections,
    /// Moves projections towards the loads.
    ApplyProjectionsEarly,
    /// Fuses chains over loads.
    Fold,
}

impl Optimizer for Pass {
    open spec fn rewritten(&self, plan: Plan, sources: Sources) -> Result<Plan, Error> {
        match self {
            Pass::Unfold => Ok(unfused(plan)),
            Pass::DetectLoadColumns => discovered(plan, sources),
            Pass::PushDownSelections => selections_pushed(plan, Seq::empty()),
            Pass::ApplyProjectionsEarly => projections_pushed(plan, None),
            Pass::Fold => fused(plan, nothing()),
        }
    }

    fn optimize(&self, expression: Box<Expression>, catalog: &Catalog) -> (r: Result<
        Box<Expression>,
        Error,
    >) {
        match self {
            Pass::Unfold => UnfoldComplexExpressionsOptimizer {  }.optimize(expression, catalog),
            Pass::DetectLoadColumns => DetectLoadColumnsOptimizer {  }.optimize(expression, catalog),
            Pass::PushDownSelections => PushDownSelectionsOptimizer {  }.optimize(
                expression,
                catalog,
            ),
            Pass::ApplyProjectionsEarly => ApplyProjectionsEarlyOptimizer {  }.optimize(
                expression,
                catalog,
            ),
            Pass::Fold => FoldComplexExpressionsOptimizer {  }.optimize(expression, catalog),
        }
    }
}

/// The pass that a short name stands for: `UCE` expands fused nodes, `DLC`
/// discovers load columns, `PDS` pushes selections down, `APE` pushes
/// projections down, `FCE` fuses chains over loads.
pub open spec fn pass_named(name: Seq<char>) -> Option<Pass> {
    if name == "UCE"@ {
        Some(Pass::Unfold)
    } else if name == "DLC"@ {
        Some(Pass::DetectLoadColumns)
    } else if name == "PDS"@ {
        Some(Pass::PushDownSelections)
    } else if name == "APE"@ {
        Some(Pass::ApplyProjectionsEarly)
    } else if name == "FCE"@ {
        Some(Pass::Fold)
    } else {
        None
    }
}

/// The pass with the given short name, if there is one.
pub fn opti_from_string(opti: String) -> (r: Option<Pass>)
    ensures
        r == pass_named(opti@),
{
    if opti == String::from_str("UCE") {
        Some(Pass::Unfold)
    } else if opti == String::from_str("DLC") {
        Some(Pass::DetectLoadColumns)
    } else if opti == String::from_str("PDS") {
        Some(Pass::PushDownSelections)
    } else if opti == String::from_str("APE") {
        Some(Pass::ApplyProjectionsEarly)
    } else if opti == String::from_str("FCE") {
        Some(Pass::Fold)
    } else {
        None
    }
}

} // verus!
