//! What each optimizer pass makes of a plan, stated over the models.

use vstd::prelude::*;
use crate::error::Error;
use crate::model::Datum;
use crate::model::Formula;
use crate::model::Name;
use crate::model::Plan;
use crate::model::Sources;
use crate::model::find;

verus! {

// ---------------------------------------------------------------------------
// Lists of names used as sets
// ---------------------------------------------------------------------------

/// `names` with `name` added at the end, unless it is there already.
pub open spec fn insert_name(names: Seq<Name>, name: Name) -> Seq<Name> {
    if names.contains(name) {
        names
    } else {
        names.push(name)
    }
}

/// The predicate "the name is not `name`".
pub open spec fn other_than(name: Name) -> spec_fn(Name) -> bool {
    |n: Name| n != name
}

/// `names` without `name`.
pub open spec fn remove_name(names: Seq<Name>, name: Name) -> Seq<Name> {
    names.filter(other_than(name))
}

/// `names` with those names of `more` added, in order, that are not there
/// yet.
pub open spec fn merge_names(names: Seq<Name>, more: Seq<Name>) -> Seq<Name>
    decreases more.len(),
{
    if more.len() == 0 {
        names
    } else {
        insert_name(merge_names(names, more.drop_last()), more.last())
    }
}

/// The predicate "the name occurs in `names`".
pub open spec fn member_of(names: Seq<Name>) -> spec_fn(Name) -> bool {
    |n: Name| names.contains(n)
}

/// The predicate "the name does not occur in `names`".
pub open spec fn not_member_of(names: Seq<Name>) -> spec_fn(Name) -> bool {
    |n: Name| !names.contains(n)
}

// ---------------------------------------------------------------------------
// Columns of conditions, renaming of conditions
// ---------------------------------------------------------------------------

/// `acc` with the column that `v` refers to, if it refers to one.
pub open spec fn insert_operand(acc: Seq<Name>, v: Datum) -> Seq<Name> {
    match v {
        Datum::Column(name) => insert_name(acc, name),
        _ => acc,
    }
}

/// `acc` with the columns that `c` refers to, in the order in which they
/// are first met.
pub open spec fn used_columns(c: Formula, acc: Seq<Name>) -> Seq<Name>
    decreases c,
{
    match c {
        Formula::True => acc,
        Formula::False => acc,
        Formula::Not(a) => used_columns(*a, acc),
        Formula::And(a, b) => used_columns(*b, used_columns(*a, acc)),
        Formula::Or(a, b) => used_columns(*b, used_columns(*a, acc)),
        Formula::Equal(x, y) => insert_operand(insert_operand(acc, x), y),
        Formula::Less(x, y) => insert_operand(insert_operand(acc, x), y),
        Formula::More(x, y) => insert_operand(insert_operand(acc, x), y),
    }
}

/// The columns that `c` refers to.
pub open spec fn columns_of(c: Formula) -> Seq<Name> {
    used_columns(c, Seq::empty())
}

/// The number of renaming pairs that the two lists give.
pub open spec fn pair_count(old: Seq<Name>, new: Seq<Name>) -> nat {
    if old.len() <= new.len() {
        old.len()
    } else {
        new.len()
    }
}

/// The name that `name` had before the first `count` renaming pairs: if
/// `name` is a new name, the old name of the last pair that gives it, else
/// `name` itself.
pub open spec fn origin(name: Name, old: Seq<Name>, new: Seq<Name>, count: nat) -> Name
    decreases count,
{
    if count == 0 || count > old.len() || count > new.len() {
        name
    } else if new[count - 1] == name {
        old[count - 1]
    } else {
        origin(name, old, new, (count - 1) as nat)
    }
}

/// `v` with a column reference taken back through the renaming.
pub open spec fn origin_of_operand(v: Datum, old: Seq<Name>, new: Seq<Name>) -> Datum {
    match v {
        Datum::Column(name) => Datum::Column(origin(name, old, new, pair_count(old, new))),
        _ => v,
    }
}

/// `c` with every column reference taken back through the renaming.
pub open spec fn origin_of_formula(c: Formula, old: Seq<Name>, new: Seq<Name>) -> Formula
    decreases c,
{
    match c {
        Formula::True => Formula::True,
        Formula::False => Formula::False,
        Formula::Not(a) => Formula::Not(Box::new(origin_of_formula(*a, old, new))),
        Formula::And(a, b) => Formula::And(
            Box::new(origin_of_formula(*a, old, new)),
            Box::new(origin_of_formula(*b, old, new)),
        ),
        Formula::Or(a, b) => Formula::Or(
            Box::new(origin_of_formula(*a, old, new)),
            Box::new(origin_of_formula(*b, old, new)),
        ),
        Formula::Equal(x, y) => Formula::Equal(
            origin_of_operand(x, old, new),
            origin_of_operand(y, old, new),
        ),
        Formula::Less(x, y) => Formula::Less(
            origin_of_operand(x, old, new),
            origin_of_operand(y, old, new),
        ),
        Formula::More(x, y) => Formula::More(
            origin_of_operand(x, old, new),
            origin_of_operand(y, old, new),
        ),
    }
}

/// The function that takes a condition back through the renaming.
pub open spec fn origins(old: Seq<Name>, new: Seq<Name>) -> spec_fn(Formula) -> Formula {
    |c: Formula| origin_of_formula(c, old, new)
}

// ---------------------------------------------------------------------------
// Unfusing
// ---------------------------------------------------------------------------

/// The chain of plain nodes that a fused read stands for.
pub open spec fn read_chain(name: Name, c: Formula, old: Seq<Name>, new: Seq<Name>) -> Plan {
    Plan::Rename(
        Box::new(
            Plan::Project(
                Box::new(Plan::Select(Box::new(Plan::Load(name, None)), c)),
                old,
            ),
        ),
        old,
        new,
    )
}

/// The chain of plain nodes that a fused join of `p` and `q` stands for.
pub open spec fn join_chain(p: Plan, q: Plan, c: Formula, old: Seq<Name>, new: Seq<Name>) -> Plan {
    Plan::Rename(
        Box::new(
            Plan::Project(
                Box::new(Plan::Select(Box::new(Plan::Product(Box::new(p), Box::new(q))), c)),
                old,
            ),
        ),
        old,
        new,
    )
}

/// The plan with every fused node expanded into the chain it stands for.
pub open spec fn unfused(plan: Plan) -> Plan
    decreases plan,
{
    match plan {
        Plan::Select(p, c) => Plan::Select(Box::new(unfused(*p)), c),
        Plan::Project(p, columns) => Plan::Project(Box::new(unfused(*p)), columns),
        Plan::Rename(p, old, new) => Plan::Rename(Box::new(unfused(*p)), old, new),
        Plan::Except(p, q) => Plan::Except(Box::new(unfused(*p)), Box::new(unfused(*q))),
        Plan::Union(p, q) => Plan::Union(Box::new(unfused(*p)), Box::new(unfused(*q))),
        Plan::Product(p, q) => Plan::Product(Box::new(unfused(*p)), Box::new(unfused(*q))),
        Plan::ReadSelectProjectRename(name, c, old, new) => read_chain(name, c, old, new),
        Plan::JoinProjectRename(p, q, c, old, new) => join_chain(
            unfused(*p),
            unfused(*q),
            c,
            old,
            new,
        ),
        Plan::Load(name, columns) => plan,
    }
}

// ---------------------------------------------------------------------------
// Discovery of load columns
// ---------------------------------------------------------------------------

/// The plan with the columns of every `Load` that has none yet read from
/// the sources. Fused nodes are refused.
pub open spec fn discovered(plan: Plan, sources: Sources) -> Result<Plan, Error>
    decreases plan,
{
    match plan {
        Plan::Select(p, c) => match discovered(*p, sources) {
            Ok(x) => Ok(Plan::Select(Box::new(x), c)),
            Err(e) => Err(e),
        },
        Plan::Project(p, columns) => match discovered(*p, sources) {
            Ok(x) => Ok(Plan::Project(Box::new(x), columns)),
            Err(e) => Err(e),
        },
        Plan::Rename(p, old, new) => match discovered(*p, sources) {
            Ok(x) => Ok(Plan::Rename(Box::new(x), old, new)),
            Err(e) => Err(e),
        },
        Plan::Except(p, q) => match discovered(*p, sources) {
            Ok(x) => match discovered(*q, sources) {
                Ok(y) => Ok(Plan::Except(Box::new(x), Box::new(y))),
                Err(e) => Err(e),
            },
            Err(e) => Err(e),
        },
        Plan::Union(p, q) => match discovered(*p, sources) {
            Ok(x) => match discovered(*q, sources) {
                Ok(y) => Ok(Plan::Union(Box::new(x), Box::new(y))),
                Err(e) => Err(e),
            },
            Err(e) => Err(e),
        },
        Plan::Product(p, q) => match discovered(*p, sources) {
            Ok(x) => match discovered(*q, sources) {
                Ok(y) => Ok(Plan::Product(Box::new(x), Box::new(y))),
                Err(e) => Err(e),
            },
            Err(e) => Err(e),
        },
        Plan::Load(name, None) => match find(sources, name) {
            Some(t) => Ok(Plan::Load(name, Some(t.columns))),
            None => Err(Error::SourceAccess),
        },
        Plan::Load(name, Some(columns)) => Ok(plan),
        _ => Err(Error::Precedence),
    }
}

// ---------------------------------------------------------------------------
// Exposed columns
// ---------------------------------------------------------------------------

/// `names` after the first `count` renaming pairs, each taking the old
/// name out and putting the new name in.
pub open spec fn exposed_after(names: Seq<Name>, old: Seq<Name>, new: Seq<Name>, count: nat) -> Seq<Name>
    decreases count,
{
    if count == 0 || count > old.len() || count > new.len() {
        names
    } else {
        insert_name(
            remove_name(exposed_after(names, old, new, (count - 1) as nat), old[count - 1]),
            new[count - 1],
        )
    }
}

/// The column names that a plan can provide, each once. A `Load` without
/// discovered columns and a fused node are refused.
pub open spec fn exposed_columns(plan: Plan) -> Result<Seq<Name>, Error>
    decreases plan,
{
    match plan {
        Plan::Select(p, _) => exposed_columns(*p),
        Plan::Project(_, columns) => Ok(merge_names(Seq::empty(), columns)),
        Plan::Product(p, q) => match exposed_columns(*p) {
            Ok(a) => match exposed_columns(*q) {
                Ok(b) => Ok(merge_names(a, b)),
                Err(e) => Err(e),
            },
            Err(e) => Err(e),
        },
        Plan::Except(p, _) => exposed_columns(*p),
        Plan::Union(p, _) => exposed_columns(*p),
        Plan::Rename(p, old, new) => match exposed_columns(*p) {
            Ok(a) => Ok(exposed_after(a, old, new, pair_count(old, new))),
            Err(e) => Err(e),
        },
        Plan::Load(_, Some(columns)) => Ok(merge_names(Seq::empty(), columns)),
        _ => Err(Error::Precedence),
    }
}

// ---------------------------------------------------------------------------
// Projection pushdown
// ---------------------------------------------------------------------------

/// The required names seen from below the first `count` renaming pairs: a
/// required new name becomes its old name; an old name is not required
/// below for its own sake.
pub open spec fn required_below(fields: Seq<Name>, old: Seq<Name>, new: Seq<Name>, count: nat) -> Seq<Name>
    decreases count,
{
    if count == 0 || count > old.len() || count > new.len() {
        fields
    } else {
        let before = required_below(fields, old, new, (count - 1) as nat);
        if before.contains(new[count - 1]) {
            insert_name(remove_name(before, new[count - 1]), old[count - 1])
        } else {
            remove_name(before, old[count - 1])
        }
    }
}

/// The plan with projections moved towards the loads. `fields` is what the
/// nodes above still need, `None` standing for every column.
pub open spec fn projections_pushed(plan: Plan, fields: Option<Seq<Name>>) -> Result<Plan, Error>
    decreases plan,
{
    match plan {
        Plan::Select(p, c) => match fields {
            Some(required) => {
                let used = columns_of(c);
                match projections_pushed(*p, Some(merge_names(required, used))) {
                    Ok(x) => if !all_in(used, required) {
                        Ok(Plan::Project(Box::new(Plan::Select(Box::new(x), c)), required))
                    } else {
                        Ok(Plan::Select(Box::new(x), c))
                    },
                    Err(e) => Err(e),
                }
            },
            None => match projections_pushed(*p, None) {
                Ok(x) => Ok(Plan::Select(Box::new(x), c)),
                Err(e) => Err(e),
            },
        },
        Plan::Project(p, columns) => projections_pushed(
            *p,
            Some(merge_names(Seq::empty(), columns)),
        ),
        Plan::Product(p, q) => match projections_pushed(*p, fields) {
            Ok(x) => match projections_pushed(*q, fields) {
                Ok(y) => Ok(Plan::Product(Box::new(x), Box::new(y))),
                Err(e) => Err(e),
            },
            Err(e) => Err(e),
        },
        Plan::Except(p, q) => match projections_pushed(*p, fields) {
            Ok(x) => match projections_pushed(*q, fields) {
                Ok(y) => Ok(Plan::Except(Box::new(x), Box::new(y))),
                Err(e) => Err(e),
            },
            Err(e) => Err(e),
        },
        Plan::Union(p, q) => match projections_pushed(*p, fields) {
            Ok(x) => match projections_pushed(*q, fields) {
                Ok(y) => Ok(Plan::Union(Box::new(x), Box::new(y))),
                Err(e) => Err(e),
            },
            Err(e) => Err(e),
        },
        Plan::Rename(p, old, new) => {
            let below = match fields {
                Some(required) => Some(required_below(required, old, new, pair_count(old, new))),
                None => None,
            };
            match projections_pushed(*p, below) {
                Ok(x) => Ok(Plan::Rename(Box::new(x), old, new)),
                Err(e) => Err(e),
            }
        },
        Plan::Load(name, columns) => match fields {
            Some(required) => match columns {
                Some(all) => {
                    let kept = all.filter(member_of(required));
                    if kept.len() != all.len() {
                        Ok(Plan::Project(Box::new(plan), kept))
                    } else {
                        Ok(plan)
                    }
                },
                None => Err(Error::Precedence),
            },
            None => Ok(plan),
        },
        _ => Err(Error::Precedence),
    }
}

// ---------------------------------------------------------------------------
// Selection pushdown
// ---------------------------------------------------------------------------

/// Every name of `names` is in `fields`.
pub open spec fn all_in(names: Seq<Name>, fields: Seq<Name>) -> bool {
    forall|i: int| 0 <= i < names.len() ==> fields.contains(#[trigger] names[i])
}

/// No name of `names` is in `fields`.
pub open spec fn none_in(names: Seq<Name>, fields: Seq<Name>) -> bool {
    forall|i: int| 0 <= i < names.len() ==> !fields.contains(#[trigger] names[i])
}

/// The predicate "every column of the condition is in `fields`".
pub open spec fn within(fields: Seq<Name>) -> spec_fn(Formula) -> bool {
    |c: Formula| all_in(columns_of(c), fields)
}

/// The predicate "some column of the condition is not in `fields`".
pub open spec fn not_within(fields: Seq<Name>) -> spec_fn(Formula) -> bool {
    |c: Formula| !all_in(columns_of(c), fields)
}

/// The predicate "no column of the condition is in `fields`".
pub open spec fn outside(fields: Seq<Name>) -> spec_fn(Formula) -> bool {
    |c: Formula| none_in(columns_of(c), fields)
}

/// The predicate "some column of the condition is in `fields`".
pub open spec fn not_outside(fields: Seq<Name>) -> spec_fn(Formula) -> bool {
    |c: Formula| !none_in(columns_of(c), fields)
}

/// `plan` under one selection for each condition, the first innermost.
pub open spec fn selections_above(plan: Plan, conditions: Seq<Formula>) -> Plan
    decreases conditions.len(),
{
    if conditions.len() == 0 {
        plan
    } else {
        Plan::Select(
            Box::new(selections_above(plan, conditions.drop_last())),
            conditions.last(),
        )
    }
}

/// The plan with selections moved towards the loads. `pending` holds the
/// conditions of the selections met on the way down.
pub open spec fn selections_pushed(plan: Plan, pending: Seq<Formula>) -> Result<Plan, Error>
    decreases plan,
{
    match plan {
        Plan::Select(p, c) => selections_pushed(*p, pending.push(c)),
        Plan::Project(p, columns) => match selections_pushed(*p, pending) {
            Ok(x) => Ok(Plan::Project(Box::new(x), columns)),
            Err(e) => Err(e),
        },
        Plan::Product(p, q) => match exposed_columns(*p) {
            Ok(fields) => {
                let left = pending.filter(within(fields));
                let rest = pending.filter(not_within(fields));
                let right = rest.filter(outside(fields));
                let spanning = rest.filter(not_outside(fields));
                match selections_pushed(*p, left) {
                    Ok(x) => match selections_pushed(*q, right) {
                        Ok(y) => Ok(
                            selections_above(Plan::Product(Box::new(x), Box::new(y)), spanning),
                        ),
                        Err(e) => Err(e),
                    },
                    Err(e) => Err(e),
                }
            },
            Err(e) => Err(e),
        },
        Plan::Except(p, q) => match selections_pushed(*p, pending) {
            Ok(x) => match selections_pushed(*q, pending) {
                Ok(y) => Ok(Plan::Except(Box::new(x), Box::new(y))),
                Err(e) => Err(e),
            },
            Err(e) => Err(e),
        },
        Plan::Union(p, q) => match selections_pushed(*p, pending) {
            Ok(x) => match selections_pushed(*q, pending) {
                Ok(y) => Ok(Plan::Union(Box::new(x), Box::new(y))),
                Err(e) => Err(e),
            },
            Err(e) => Err(e),
        },
        Plan::Rename(p, old, new) => match selections_pushed(
            *p,
            pending.map_values(origins(old, new)),
        ) {
            Ok(x) => Ok(Plan::Rename(Box::new(x), old, new)),
            Err(e) => Err(e),
        },
        Plan::Load(name, columns) => Ok(selections_above(plan, pending)),
        _ => Err(Error::Precedence),
    }
}

// ---------------------------------------------------------------------------
// Fusion
// ---------------------------------------------------------------------------

/// What the walk down a chain has recorded: at most one selection, the
/// outermost projection, at most one renaming.
pub struct Recorded {
    pub selection: Option<Formula>,
    pub projection: Option<Seq<Name>>,
    pub renaming: Option<(Seq<Name>, Seq<Name>)>,
}

/// Nothing recorded.
pub open spec fn nothing() -> Recorded {
    Recorded { selection: None, projection: None, renaming: None }
}

/// `plan` under what was recorded: the selection innermost, then the
/// projection, the renaming outermost.
pub open spec fn rewrapped(plan: Plan, seen: Recorded) -> Plan {
    let a = match seen.selection {
        Some(c) => Plan::Select(Box::new(plan), c),
        None => plan,
    };
    let b = match seen.projection {
        Some(columns) => Plan::Project(Box::new(a), columns),
        None => a,
    };
    match seen.renaming {
        Some((old, new)) => Plan::Rename(Box::new(b), old, new),
        None => b,
    }
}

/// The old names of the recorded renaming.
pub open spec fn renamed_from(seen: Recorded) -> Seq<Name> {
    match seen.renaming {
        Some((old, _)) => old,
        None => Seq::empty(),
    }
}

/// The new names of the recorded renaming.
pub open spec fn renamed_to(seen: Recorded) -> Seq<Name> {
    match seen.renaming {
        Some((_, new)) => new,
        None => Seq::empty(),
    }
}

/// The columns a fused read keeps under their own name: those of the
/// recorded projection, or else all columns of the load, each once, but for
/// the old names of the recorded renaming.
pub open spec fn kept_as_is(seen: Recorded, all: Seq<Name>) -> Seq<Name> {
    let fields = match seen.projection {
        Some(columns) => columns,
        None => all,
    };
    merge_names(Seq::empty(), fields).filter(not_member_of(renamed_from(seen)))
}

/// The fused read that a chain over the load of `name` collapses into.
pub open spec fn fused_read(name: Name, all: Seq<Name>, c: Formula, seen: Recorded) -> Plan {
    Plan::ReadSelectProjectRename(
        name,
        c,
        renamed_from(seen) + kept_as_is(seen, all),
        renamed_to(seen) + kept_as_is(seen, all),
    )
}

/// The plan with every chain of a renaming, projections and a selection
/// over a load collapsed into a fused read. `seen` is what the walk down
/// the chain has recorded so far.
pub open spec fn fused(plan: Plan, seen: Recorded) -> Result<Plan, Error>
    decreases plan, 1nat,
{
    match plan {
        Plan::Select(p, c) => if seen.selection is None {
            fused(*p, Recorded { selection: Some(c), ..seen })
        } else {
            fused_below(plan, seen)
        },
        Plan::Project(p, columns) => if seen.projection is None {
            fused(*p, Recorded { projection: Some(columns), ..seen })
        } else {
            fused(*p, seen)
        },
        Plan::Rename(p, old, new) => if seen.projection is None && seen.selection is None
            && seen.renaming is None {
            fused(*p, Recorded { renaming: Some((old, new)), ..seen })
        } else {
            fused_below(plan, seen)
        },
        Plan::Load(name, columns) => match seen.selection {
            Some(c) => match columns {
                Some(all) => Ok(fused_read(name, all, c, seen)),
                None => Err(Error::Precedence),
            },
            None => fused_below(plan, seen),
        },
        _ => fused_below(plan, seen),
    }
}

/// Where the walk stops short of a fusion: the children of `plan` are fused
/// on their own, and what was recorded is put back above the result.
pub open spec fn fused_below(plan: Plan, seen: Recorded) -> Result<Plan, Error>
    decreases plan, 0nat,
{
    match plan {
        Plan::Select(p, c) => match fused(*p, nothing()) {
            Ok(x) => Ok(rewrapped(Plan::Select(Box::new(x), c), seen)),
            Err(e) => Err(e),
        },
        Plan::Project(p, columns) => match fused(*p, nothing()) {
            Ok(x) => Ok(rewrapped(Plan::Project(Box::new(x), columns), seen)),
            Err(e) => Err(e),
        },
        Plan::Rename(p, old, new) => match fused(*p, nothing()) {
            Ok(x) => Ok(rewrapped(Plan::Rename(Box::new(x), old, new), seen)),
            Err(e) => Err(e),
        },
        Plan::Except(p, q) => match fused(*p, nothing()) {
            Ok(x) => match fused(*q, nothing()) {
                Ok(y) => Ok(rewrapped(Plan::Except(Box::new(x), Box::new(y)), seen)),
                Err(e) => Err(e),
            },
            Err(e) => Err(e),
        },
        Plan::Union(p, q) => match fused(*p, nothing()) {
            Ok(x) => match fused(*q, nothing()) {
                Ok(y) => Ok(rewrapped(Plan::Union(Box::new(x), Box::new(y)), seen)),
                Err(e) => Err(e),
            },
            Err(e) => Err(e),
        },
        Plan::Product(p, q) => match fused(*p, nothing()) {
            Ok(x) => match fused(*q, nothing()) {
                Ok(y) => Ok(rewrapped(Plan::Product(Box::new(x), Box::new(y)), seen)),
                Err(e) => Err(e),
            },
            Err(e) => Err(e),
        },
        Plan::Load(name, columns) => Ok(rewrapped(plan, seen)),
        _ => Err(Error::Precedence),
    }
}

} // verus!
