//! Mathematical models of values, conditions, plans and relations, and the
//! meaning of every relational operator over them.

use vstd::prelude::*;
use crate::error::Error;

verus! {

/// A column name, as the sequence of its characters.
pub type Name = Seq<char>;

/// A row of a relation.
pub type Row = Seq<Datum>;

/// Model of a scalar: an integer, a text, or a reference to a column.
pub enum Datum {
    Int(i64),
    Text(Name),
    Column(Name),
}

/// Model of a condition.
pub enum Formula {
    True,
    False,
    Not(Box<Formula>),
    Or(Box<Formula>, Box<Formula>),
    And(Box<Formula>, Box<Formula>),
    Less(Datum, Datum),
    Equal(Datum, Datum),
    More(Datum, Datum),
}

/// Model of a query plan.
pub enum Plan {
    Select(Box<Plan>, Formula),
    Project(Box<Plan>, Seq<Name>),
    Rename(Box<Plan>, Seq<Name>, Seq<Name>),
    Except(Box<Plan>, Box<Plan>),
    Union(Box<Plan>, Box<Plan>),
    Product(Box<Plan>, Box<Plan>),
    ReadSelectProjectRename(Name, Formula, Seq<Name>, Seq<Name>),
    JoinProjectRename(Box<Plan>, Box<Plan>, Formula, Seq<Name>, Seq<Name>),
    Load(Name, Option<Seq<Name>>),
}

/// Model of a table: the column names by position, and the rows in order.
pub struct Relation {
    pub columns: Seq<Name>,
    pub rows: Seq<Row>,
}

/// The named relations a plan is evaluated against, oldest first; the last
/// entry with a given name is the one that a `Load` of that name reads.
pub type Sources = Seq<(Name, Relation)>;

impl Relation {
    /// Column names are unique, every row has one cell per column, and no
    /// cell is a column reference.
    pub open spec fn wf(self) -> bool {
        &&& self.columns.no_duplicates()
        &&& rows_fit(self.rows, self.columns.len())
    }
}

/// Every row has `width` cells, none of them a column reference.
pub open spec fn rows_fit(rows: Seq<Row>, width: nat) -> bool {
    forall|i: int| 0 <= i < rows.len() ==> row_fits(#[trigger] rows[i], width)
}

/// `row` has `width` cells, none of them a column reference.
pub open spec fn row_fits(row: Row, width: nat) -> bool {
    &&& row.len() == width
    &&& forall|j: int| 0 <= j < row.len() ==> !(#[trigger] row[j] is Column)
}

/// Every relation of `sources` is well formed.
pub open spec fn sources_wf(sources: Sources) -> bool {
    forall|i: int| 0 <= i < sources.len() ==> (#[trigger] sources[i]).1.wf()
}

/// The relation that `name` denotes in `sources`, if any.
pub open spec fn find(sources: Sources, name: Name) -> Option<Relation>
    decreases sources.len(),
{
    if sources.len() == 0 {
        None
    } else if sources.last().0 == name {
        Some(sources.last().1)
    } else {
        find(sources.drop_last(), name)
    }
}

// ---------------------------------------------------------------------------
// Conditions
// ---------------------------------------------------------------------------

/// The value an operand of a comparison stands for in `row`: a literal is
/// itself, a column reference is the cell at the column's position.
pub open spec fn operand(row: Row, columns: Seq<Name>, v: Datum) -> Result<Datum, Error> {
    match v {
        Datum::Column(name) => if columns.contains(name) && columns.index_of(name) < row.len() {
            Ok(row[columns.index_of(name)])
        } else {
            Err(Error::Schema)
        },
        _ => Ok(v),
    }
}

/// Equality of two resolved operands: integers and texts compare by value,
/// every other pairing is unequal.
pub open spec fn same_datum(a: Datum, b: Datum) -> bool {
    match (a, b) {
        (Datum::Int(i), Datum::Int(j)) => i == j,
        (Datum::Text(s), Datum::Text(t)) => s == t,
        _ => false,
    }
}

/// Strict order of two resolved operands: defined between integers only.
pub open spec fn less_datum(a: Datum, b: Datum) -> bool {
    match (a, b) {
        (Datum::Int(i), Datum::Int(j)) => i < j,
        _ => false,
    }
}

/// The truth value of `c` on `row`; `And` and `Or` evaluate their second
/// operand only when the first does not decide.
pub open spec fn holds(row: Row, columns: Seq<Name>, c: Formula) -> Result<bool, Error>
    decreases c,
{
    match c {
        Formula::True => Ok(true),
        Formula::False => Ok(false),
        Formula::Not(a) => match holds(row, columns, *a) {
            Ok(b) => Ok(!b),
            Err(e) => Err(e),
        },
        Formula::And(a, b) => match holds(row, columns, *a) {
            Ok(true) => holds(row, columns, *b),
            other => other,
        },
        Formula::Or(a, b) => match holds(row, columns, *a) {
            Ok(false) => holds(row, columns, *b),
            other => other,
        },
        Formula::Equal(x, y) => match (operand(row, columns, x), operand(row, columns, y)) {
            (Ok(p), Ok(q)) => Ok(same_datum(p, q)),
            _ => Err(Error::Schema),
        },
        Formula::Less(x, y) => match (operand(row, columns, x), operand(row, columns, y)) {
            (Ok(p), Ok(q)) => Ok(less_datum(p, q)),
            _ => Err(Error::Schema),
        },
        Formula::More(x, y) => match (operand(row, columns, x), operand(row, columns, y)) {
            (Ok(p), Ok(q)) => Ok(less_datum(q, p)),
            _ => Err(Error::Schema),
        },
    }
}

/// The operand is a literal or refers to a column of the schema.
pub open spec fn operand_scoped(v: Datum, columns: Seq<Name>) -> bool {
    v matches Datum::Column(name) ==> columns.contains(name)
}

/// Every column that `c` refers to is a column of the schema.
pub open spec fn scoped(c: Formula, columns: Seq<Name>) -> bool
    decreases c,
{
    match c {
        Formula::True => true,
        Formula::False => true,
        Formula::Not(a) => scoped(*a, columns),
        Formula::And(a, b) => scoped(*a, columns) && scoped(*b, columns),
        Formula::Or(a, b) => scoped(*a, columns) && scoped(*b, columns),
        Formula::Equal(x, y) => operand_scoped(x, columns) && operand_scoped(y, columns),
        Formula::Less(x, y) => operand_scoped(x, columns) && operand_scoped(y, columns),
        Formula::More(x, y) => operand_scoped(x, columns) && operand_scoped(y, columns),
    }
}

/// The predicate "`c` holds on the row".
pub open spec fn keeps(columns: Seq<Name>, c: Formula) -> spec_fn(Row) -> bool {
    |row: Row| holds(row, columns, c) == Ok::<bool, Error>(true)
}

/// `c` can be evaluated on every row of `rows`.
pub open spec fn decidable(rows: Seq<Row>, columns: Seq<Name>, c: Formula) -> bool {
    forall|i: int| 0 <= i < rows.len() ==> (#[trigger] holds(rows[i], columns, c)) is Ok
}

// ---------------------------------------------------------------------------
// Operators on relations
// ---------------------------------------------------------------------------

/// Selection: the rows on which `c` holds, in their order.
pub open spec fn select(t: Relation, c: Formula) -> Result<Relation, Error> {
    if decidable(t.rows, t.columns, c) {
        Ok(Relation { columns: t.columns, rows: t.rows.filter(keeps(t.columns, c)) })
    } else {
        Err(Error::Schema)
    }
}

/// The cells of `row` that `targets` name, in the order of `targets`.
pub open spec fn gather(row: Row, columns: Seq<Name>, targets: Seq<Name>) -> Row {
    Seq::new(targets.len(), |i: int| row[columns.index_of(targets[i])])
}

/// The function that projects one row.
pub open spec fn gathers(columns: Seq<Name>, targets: Seq<Name>) -> spec_fn(Row) -> Row {
    |row: Row| gather(row, columns, targets)
}

/// `targets` names columns of `columns`, each once.
pub open spec fn projectable(columns: Seq<Name>, targets: Seq<Name>) -> bool {
    &&& targets.no_duplicates()
    &&& forall|i: int| 0 <= i < targets.len() ==> columns.contains(#[trigger] targets[i])
}

/// Projection: the target columns, in target order, at positions `0..k`.
pub open spec fn project(t: Relation, targets: Seq<Name>) -> Result<Relation, Error> {
    if projectable(t.columns, targets) {
        Ok(Relation { columns: targets, rows: t.rows.map_values(gathers(t.columns, targets)) })
    } else {
        Err(Error::Schema)
    }
}

/// `row` with the cells at `a` and `b` exchanged.
pub open spec fn swap_cells<T>(row: Seq<T>, a: int, b: int) -> Seq<T> {
    row.update(a, row[b]).update(b, row[a])
}

/// `row` after the exchanges of `swaps`, applied in order.
pub open spec fn apply_swaps<T>(row: Seq<T>, swaps: Seq<(usize, usize)>) -> Seq<T>
    decreases swaps.len(),
{
    if swaps.len() == 0 {
        row
    } else {
        swap_cells(
            apply_swaps(row, swaps.drop_last()),
            swaps.last().0 as int,
            swaps.last().1 as int,
        )
    }
}

/// Every exchange of `swaps` stays within a row of `width` cells.
pub open spec fn swaps_within(swaps: Seq<(usize, usize)>, width: nat) -> bool {
    forall|i: int| 0 <= i < swaps.len() ==> (#[trigger] swaps[i]).0 < width && swaps[i].1 < width
}

/// Applying `swaps` to a row of the schema `columns` and cutting it to the
/// number of targets projects the row onto `targets`.
pub open spec fn realigns(swaps: Seq<(usize, usize)>, columns: Seq<Name>, targets: Seq<Name>) -> bool {
    forall|row: Row|
        row.len() == columns.len() ==> (#[trigger] apply_swaps(row, swaps)).take(
            targets.len() as int,
        ) == gather(row, columns, targets)
}

/// One renaming step: the column `old` is called `new` from now on.
pub open spec fn rename_one(columns: Seq<Name>, old: Name, new: Name) -> Result<Seq<Name>, Error> {
    if !columns.contains(old) {
        Err(Error::Schema)
    } else if new != old && columns.contains(new) {
        Err(Error::Schema)
    } else {
        Ok(columns.update(columns.index_of(old), new))
    }
}

/// The renaming steps `(old[i], new[i])` from pair `from` on, in order.
pub open spec fn rename_from(columns: Seq<Name>, old: Seq<Name>, new: Seq<Name>, from: int) -> Result<
    Seq<Name>,
    Error,
>
    decreases old.len() - from,
{
    if 0 <= from < old.len() && from < new.len() {
        match rename_one(columns, old[from], new[from]) {
            Ok(next) => rename_from(next, old, new, from + 1),
            Err(e) => Err(e),
        }
    } else {
        Ok(columns)
    }
}

/// All renaming steps `(old[i], new[i])`, in order.
pub open spec fn rename_all(columns: Seq<Name>, old: Seq<Name>, new: Seq<Name>) -> Result<
    Seq<Name>,
    Error,
> {
    rename_from(columns, old, new, 0)
}

/// Renaming: the schema changes, the rows stay.
pub open spec fn rename(t: Relation, old: Seq<Name>, new: Seq<Name>) -> Result<Relation, Error> {
    match rename_all(t.columns, old, new) {
        Ok(columns) => Ok(Relation { columns, rows: t.rows }),
        Err(e) => Err(e),
    }
}

/// Some name occurs in both `left` and `right`.
pub open spec fn clash(left: Seq<Name>, right: Seq<Name>) -> bool {
    exists|i: int| 0 <= i < left.len() && right.contains(#[trigger] left[i])
}

/// The function that puts `l` in front of a row.
pub open spec fn prefixed(l: Row) -> spec_fn(Row) -> Row {
    |r: Row| l + r
}

/// The function that puts `r` behind a row.
pub open spec fn suffixed(r: Row) -> spec_fn(Row) -> Row {
    |l: Row| l + r
}

/// Every left row paired with every right row; each left row meets all the
/// right rows before the next left row is taken.
pub open spec fn cross(left: Seq<Row>, right: Seq<Row>) -> Seq<Row>
    decreases left.len(),
{
    if left.len() == 0 {
        Seq::empty()
    } else {
        cross(left.drop_last(), right) + right.map_values(prefixed(left.last()))
    }
}

/// Cross product: left columns keep their positions, right columns follow.
pub open spec fn product(a: Relation, b: Relation) -> Result<Relation, Error> {
    if clash(a.columns, b.columns) {
        Err(Error::Schema)
    } else {
        Ok(Relation { columns: a.columns + b.columns, rows: cross(a.rows, b.rows) })
    }
}

/// The predicate "the row does not occur in `rows`".
pub open spec fn absent_from(rows: Seq<Row>) -> spec_fn(Row) -> bool {
    |row: Row| !rows.contains(row)
}

/// Difference: each left row stays unless some right row equals it.
pub open spec fn except(a: Relation, b: Relation) -> Relation {
    Relation { columns: a.columns, rows: a.rows.filter(absent_from(b.rows)) }
}

/// The two schemas name the same columns.
pub open spec fn same_names(left: Seq<Name>, right: Seq<Name>) -> bool {
    &&& left.len() == right.len()
    &&& forall|i: int| 0 <= i < left.len() ==> right.contains(#[trigger] left[i])
}

/// Union: the left rows, then the right rows realigned to the left schema.
pub open spec fn union(a: Relation, b: Relation) -> Result<Relation, Error> {
    if same_names(a.columns, b.columns) {
        Ok(
            Relation {
                columns: a.columns,
                rows: a.rows + b.rows.map_values(gathers(b.columns, a.columns)),
            },
        )
    } else {
        Err(Error::Schema)
    }
}

/// Selection, then projection onto `old`, then renaming of `old` to `new`:
/// what both fused nodes do to the rows they have read or joined.
pub open spec fn select_project_rename(
    t: Relation,
    c: Formula,
    old: Seq<Name>,
    new: Seq<Name>,
) -> Result<Relation, Error> {
    match select(t, c) {
        Ok(selected) => match project(selected, old) {
            Ok(projected) => rename(projected, old, new),
            Err(e) => Err(e),
        },
        Err(e) => Err(e),
    }
}

// ---------------------------------------------------------------------------
// Hash join
// ---------------------------------------------------------------------------

/// `c` equates a column of one side with a column of the other.
pub open spec fn is_equi_pair(c: Formula, left: Seq<Name>, right: Seq<Name>) -> bool {
    c matches Formula::Equal(Datum::Column(f1), Datum::Column(f2)) && ((left.contains(f1)
        && right.contains(f2)) || (right.contains(f1) && left.contains(f2)))
}

/// The equi-join pairs among the conjuncts of `c`, as positions in the left
/// and in the right schema, in the order of the conjuncts.
pub open spec fn equi_pairs(c: Formula, left: Seq<Name>, right: Seq<Name>) -> Seq<(int, int)>
    decreases c,
{
    match c {
        Formula::And(a, b) => equi_pairs(*a, left, right) + equi_pairs(*b, left, right),
        Formula::Equal(Datum::Column(f1), Datum::Column(f2)) => if left.contains(f1)
            && right.contains(f2) {
            seq![(left.index_of(f1), right.index_of(f2))]
        } else if right.contains(f1) && left.contains(f2) {
            seq![(left.index_of(f2), right.index_of(f1))]
        } else {
            Seq::empty()
        },
        _ => Seq::empty(),
    }
}

/// The residual condition: `c` with every equi-join conjunct replaced by
/// the condition that always holds.
pub open spec fn residual(c: Formula, left: Seq<Name>, right: Seq<Name>) -> Formula
    decreases c,
{
    match c {
        Formula::And(a, b) => Formula::And(
            Box::new(residual(*a, left, right)),
            Box::new(residual(*b, left, right)),
        ),
        _ => if is_equi_pair(c, left, right) {
            Formula::True
        } else {
            c
        },
    }
}

/// The positions a list of pairs of indices stands for.
pub open spec fn pairs_view(pairs: Seq<(usize, usize)>) -> Seq<(int, int)> {
    pairs.map_values(|p: (usize, usize)| (p.0 as int, p.1 as int))
}

/// Every pair names a cell of a left row of `left` cells and a cell of a
/// right row of `right` cells.
pub open spec fn pairs_within(pairs: Seq<(int, int)>, left: nat, right: nat) -> bool {
    forall|k: int|
        0 <= k < pairs.len() ==> 0 <= (#[trigger] pairs[k]).0 < left && 0 <= pairs[k].1 < right
}

/// The composite key of a left row.
pub open spec fn left_key(l: Row, pairs: Seq<(int, int)>) -> Seq<Datum> {
    Seq::new(pairs.len(), |k: int| l[pairs[k].0])
}

/// The composite key of a right row.
pub open spec fn right_key(r: Row, pairs: Seq<(int, int)>) -> Seq<Datum> {
    Seq::new(pairs.len(), |k: int| r[pairs[k].1])
}

/// The predicate "the left row has the key `key`".
pub open spec fn keyed(key: Seq<Datum>, pairs: Seq<(int, int)>) -> spec_fn(Row) -> bool {
    |l: Row| left_key(l, pairs) == key
}

/// The rows one right row contributes: each left row with the same key, in
/// left order, followed by the right row.
pub open spec fn probe(left: Seq<Row>, r: Row, pairs: Seq<(int, int)>) -> Seq<Row> {
    left.filter(keyed(right_key(r, pairs), pairs)).map_values(suffixed(r))
}

/// The joined rows: right rows are probed in order.
pub open spec fn joined(left: Seq<Row>, right: Seq<Row>, pairs: Seq<(int, int)>) -> Seq<Row>
    decreases right.len(),
{
    if right.len() == 0 {
        Seq::empty()
    } else {
        joined(left, right.drop_last(), pairs) + probe(left, right.last(), pairs)
    }
}

/// Hash join with the trailing projection and renaming folded in.
pub open spec fn join(a: Relation, b: Relation, c: Formula, old: Seq<Name>, new: Seq<Name>) -> Result<
    Relation,
    Error,
> {
    if clash(a.columns, b.columns) {
        Err(Error::Schema)
    } else {
        let pairs = equi_pairs(c, a.columns, b.columns);
        let wide = Relation { columns: a.columns + b.columns, rows: joined(a.rows, b.rows, pairs) };
        select_project_rename(wide, residual(c, a.columns, b.columns), old, new)
    }
}

// ---------------------------------------------------------------------------
// Plans
// ---------------------------------------------------------------------------

/// What `Load` reads.
pub open spec fn load(sources: Sources, name: Name) -> Result<Relation, Error> {
    match find(sources, name) {
        Some(t) => Ok(t),
        None => Err(Error::SourceAccess),
    }
}

/// The table a plan evaluates to, or the first error met; the children of a
/// binary node are evaluated left to right.
pub open spec fn eval_plan(plan: Plan, sources: Sources) -> Result<Relation, Error>
    decreases plan,
{
    match plan {
        Plan::Select(p, c) => match eval_plan(*p, sources) {
            Ok(t) => select(t, c),
            Err(e) => Err(e),
        },
        Plan::Project(p, targets) => match eval_plan(*p, sources) {
            Ok(t) => project(t, targets),
            Err(e) => Err(e),
        },
        Plan::Rename(p, old, new) => match eval_plan(*p, sources) {
            Ok(t) => rename(t, old, new),
            Err(e) => Err(e),
        },
        Plan::Except(p, q) => match eval_plan(*p, sources) {
            Ok(a) => match eval_plan(*q, sources) {
                Ok(b) => Ok(except(a, b)),
                Err(e) => Err(e),
            },
            Err(e) => Err(e),
        },
        Plan::Union(p, q) => match eval_plan(*p, sources) {
            Ok(a) => match eval_plan(*q, sources) {
                Ok(b) => union(a, b),
                Err(e) => Err(e),
            },
            Err(e) => Err(e),
        },
        Plan::Product(p, q) => match eval_plan(*p, sources) {
            Ok(a) => match eval_plan(*q, sources) {
                Ok(b) => product(a, b),
                Err(e) => Err(e),
            },
            Err(e) => Err(e),
        },
        Plan::ReadSelectProjectRename(name, c, old, new) => match load(sources, name) {
            Ok(t) => select_project_rename(t, c, old, new),
            Err(e) => Err(e),
        },
        Plan::JoinProjectRename(p, q, c, old, new) => match eval_plan(*p, sources) {
            Ok(a) => match eval_plan(*q, sources) {
                Ok(b) => join(a, b, c, old, new),
                Err(e) => Err(e),
            },
            Err(e) => Err(e),
        },
        Plan::Load(name, _) => load(sources, name),
    }
}

} // verus!
