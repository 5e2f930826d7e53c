//! The evaluator: conditions on rows, the relational operators on tables,
//! and the interpreter of plans.

use vstd::prelude::*;
use crate::equality::same_value;
use crate::error::Error;
use crate::join::collect_pairs;
use crate::join::hash_join;
use crate::join::residual_condition;
use crate::lemmas::iota;
use crate::lemmas::lemma_concat_fits;
use crate::lemmas::lemma_filter_step;
use crate::lemmas::lemma_gather_fits;
use crate::lemmas::lemma_joined_fits;
use crate::lemmas::lemma_swaps_follow;
use crate::lemmas::lemma_swaps_len;
use crate::lemmas::lemma_swaps_map;
use crate::model::Datum;
use crate::model::Name;
use crate::model::Relation;
use crate::model::Row;
use crate::model::absent_from;
use crate::model::apply_swaps;
use crate::model::clash;
use crate::model::cross;
use crate::model::decidable;
use crate::model::equi_pairs;
use crate::model::eval_plan;
use crate::model::gather;
use crate::model::gathers;
use crate::model::holds;
use crate::model::joined;
use crate::model::keeps;
use crate::model::less_datum;
use crate::model::load;
use crate::model::operand;
use crate::model::pairs_view;
use crate::model::prefixed;
use crate::model::projectable;
use crate::model::realigns;
use crate::model::rename_all;
use crate::model::rename_from;
use crate::model::rename_one;
use crate::model::residual;
use crate::model::row_fits;
use crate::model::rows_fit;
use crate::model::same_datum;
use crate::model::select_project_rename;
use crate::model::swap_cells;
use crate::model::swaps_within;
use crate::model;
use crate::table::Catalog;
use crate::table::Schema;
use crate::table::Table;
use crate::table::lemma_index_of_unique;
use crate::table::position;
use crate::types::Condition;
use crate::types::Entry;
use crate::types::Expression;
use crate::types::Value;
use crate::types::clone_entry;
use crate::types::clone_names;
use crate::types::entries_view;
use crate::types::entry_view;
use crate::types::names_view;
use crate::types::value_view;

verus! {

/// Exchanging two elements of a slice: `<[T]>::swap` puts each of the two
/// where the other was and leaves the rest; out of bounds it panics.
pub assume_specification<Elem>[ <[Elem]>::swap ](s: &mut [Elem], a: usize, b: usize)
    requires
        a < old(s)@.len(),
        b < old(s)@.len(),
    ensures
        final(s)@ == swap_cells(old(s)@, a as int, b as int),
;

/// What a fallible table stands for.
pub open spec fn table_result(r: Result<Table, Error>) -> Result<Relation, Error> {
    match r {
        Ok(t) => Ok(t@),
        Err(e) => Err(e),
    }
}

/// What a fallible value stands for.
pub open spec fn value_result(r: Result<Value, Error>) -> Result<Datum, Error> {
    match r {
        Ok(v) => Ok(v@),
        Err(e) => Err(e),
    }
}

/// Resolves an operand of a comparison against a row: a column reference is
/// looked up in the schema, a literal passes through.
pub fn get_value(entry: &Entry, column_names: &Schema, value: &Value) -> (r: Result<Value, Error>)
    ensures
        value_result(r) == operand(entry_view(entry@), column_names@, value@),
{
    match value {
        Value::Column(name) => match column_names.get(name) {
            Some(i) => if i < entry.len() {
                Ok(entry[i].clone())
            } else {
                Err(Error::Schema)
            },
            None => Err(Error::Schema),
        },
        v => Ok(v.clone()),
    }
}

/// Equality of two resolved operands.
fn values_same(a: &Value, b: &Value) -> (r: bool)
    ensures
        r == same_datum(a@, b@),
{
    match (a, b) {
        (Value::Int(i), Value::Int(j)) => *i == *j,
        (Value::Str(s), Value::Str(t)) => *s == *t,
        _ => false,
    }
}

/// Strict order of two resolved operands.
fn values_less(a: &Value, b: &Value) -> (r: bool)
    ensures
        r == less_datum(a@, b@),
{
    match (a, b) {
        (Value::Int(i), Value::Int(j)) => *i < *j,
        _ => false,
    }
}

/// Evaluates a condition on a row.
pub fn eval_condition(entry: &Entry, column_names: &Schema, condition: &Condition) -> (r: Result<
    bool,
    Error,
>)
    ensures
        r == holds(entry_view(entry@), column_names@, condition@),
    decreases condition,
{
    match condition {
        Condition::True => Ok(true),
        Condition::False => Ok(false),
        Condition::Not(c) => match eval_condition(entry, column_names, c) {
            Ok(b) => Ok(!b),
            Err(e) => Err(e),
        },
        Condition::And(c1, c2) => match eval_condition(entry, column_names, c1) {
            Ok(true) => eval_condition(entry, column_names, c2),
            other => other,
        },
        Condition::Or(c1, c2) => match eval_condition(entry, column_names, c1) {
            Ok(false) => eval_condition(entry, column_names, c2),
            other => other,
        },
        Condition::Equal(v1, v2) => {
            let p = get_value(entry, column_names, v1);
            let q = get_value(entry, column_names, v2);
            match (p, q) {
                (Ok(a), Ok(b)) => Ok(values_same(&a, &b)),
                _ => Err(Error::Schema),
            }
        },
        Condition::Less(v1, v2) => {
            let p = get_value(entry, column_names, v1);
            let q = get_value(entry, column_names, v2);
            match (p, q) {
                (Ok(a), Ok(b)) => Ok(values_less(&a, &b)),
                _ => Err(Error::Schema),
            }
        },
        Condition::More(v1, v2) => {
            let p = get_value(entry, column_names, v1);
            let q = get_value(entry, column_names, v2);
            match (p, q) {
                (Ok(a), Ok(b)) => Ok(values_less(&b, &a)),
                _ => Err(Error::Schema),
            }
        },
    }
}

/// Selection: keeps the rows on which the condition holds, in their order.
pub fn select(table: Table, condition: &Condition) -> (r: Result<Table, Error>)
    ensures
        table_result(r) == model::select(table@, condition@),
        r matches Ok(t) ==> t@.wf(),
{
    proof {
        use_type_invariant(&table);
    }
    let Table { schema, entries } = table;
    let ghost rows = entries_view(entries@);
    let ghost columns = schema@;
    let ghost keep = keeps(columns, condition@);
    let ghost whole = table@;
    let mut kept: Vec<Entry> = Vec::new();
    for entry in it: entries
        invariant
            it.seq() == entries@,
            rows == entries_view(entries@),
            columns == schema@,
            whole == (Relation { columns, rows }),
            whole == table@,
            keep == keeps(columns, condition@),
            rows_fit(rows, columns.len()),
            decidable(rows.take(it.index() as int), columns, condition@),
            entries_view(kept@) == rows.take(it.index() as int).filter(keep),
            rows_fit(entries_view(kept@), columns.len()),
    {
        let ghost i = it.index() as int;
        let ghost before = entries_view(kept@);
        proof {
            lemma_filter_step(rows, keep, i);
            assert(rows[i] == entry_view(entry@));
        }
        match eval_condition(&entry, &schema, condition) {
            Ok(true) => {
                kept.push(entry);
                proof {
                    assert(entries_view(kept@) =~= before.push(rows[i]));
                }
            },
            Ok(false) => {},
            Err(_) => {
                proof {
                    assert(holds(rows[i], columns, condition@) is Err);
                    assert(!decidable(rows, columns, condition@));
                }
                return Err(Error::Schema);
            },
        }
        proof {
            assert forall|j: int| 0 <= j < i + 1 implies (#[trigger] holds(
                rows.take(i + 1)[j],
                columns,
                condition@,
            )) is Ok by {
                if j < i {
                    assert(rows.take(i + 1)[j] == rows.take(i)[j]);
                }
            }
        }
    }
    proof {
        assert(rows.take(rows.len() as int) =~= rows);
    }
    Ok(Table { schema, entries: kept })
}

/// The positions `0..n`, in order.
fn identity_layout(n: usize) -> (r: Vec<usize>)
    ensures
        r@ == iota(n as nat),
{
    let mut out: Vec<usize> = Vec::new();
    let mut i: usize = 0;
    while i < n
        invariant
            0 <= i <= n,
            out@ == iota(i as nat),
        decreases n - i,
    {
        out.push(i);
        proof {
            assert(out@ =~= iota((i + 1) as nat));
        }
        i += 1;
    }
    out
}

/// Every target column is at its place already: the schema begins with
/// the targets, in their order.
pub open spec fn in_place(columns: Seq<Name>, targets: Seq<Name>) -> bool {
    &&& targets.len() <= columns.len()
    &&& forall|i: int| 0 <= i < targets.len() ==> #[trigger] columns[i] == targets[i]
}

/// Column-position reconciliation: the exchanges of cells that bring the
/// columns named by `columns`, in that order, to the positions `0..k` of a
/// row of the schema `column_names`, and the schema of the projected rows.
/// A column is exchanged only when another one holds its place: there is at
/// most one exchange for each target column, each brings a column from
/// further right to its place, the places are filled from left to right,
/// and nothing is exchanged where every target column is at its place.
pub fn swaps_for_projection(column_names: &Schema, columns: &Vec<String>) -> (r: Result<
    (Vec<(usize, usize)>, Schema),
    Error,
>)
    ensures
        r is Ok <==> projectable(column_names@, names_view(columns@)),
        r matches Err(e) ==> e == Error::Schema,
        r matches Ok(p) ==> {
            &&& p.1@ == names_view(columns@)
            &&& swaps_within(p.0@, column_names@.len())
            &&& realigns(p.0@, column_names@, names_view(columns@))
            &&& columns.len() <= column_names@.len()
            &&& p.0@.len() <= columns.len()
            &&& forall|j: int| 0 <= j < p.0@.len() ==> (#[trigger] p.0@[j]).1 < p.0@[j].0
            &&& forall|a: int, b: int|
                0 <= a < b < p.0@.len() ==> (#[trigger] p.0@[a]).1 < (#[trigger] p.0@[b]).1
            &&& in_place(column_names@, names_view(columns@)) ==> p.0@.len() == 0
        },
{
    let n = column_names.len();
    let k = columns.len();
    let ghost cols = column_names@;
    let ghost targets = names_view(columns@);
    let mut layout = identity_layout(n);
    let mut place = identity_layout(n);
    let mut swaps: Vec<(usize, usize)> = Vec::new();
    let mut i: usize = 0;
    while i < k
        invariant
            n == cols.len(),
            k == targets.len(),
            cols == column_names@,
            targets == names_view(columns@),
            0 <= i <= k,
            i <= n,
            layout@.len() == n,
            place@.len() == n,
            forall|p: int| 0 <= p < n ==> (#[trigger] layout@[p]) < n && place@[layout@[p] as int] == p,
            forall|o: int| 0 <= o < n ==> (#[trigger] place@[o]) < n && layout@[place@[o] as int] == o,
            forall|j: int|
                0 <= j < i ==> cols.contains(#[trigger] targets[j]) && layout@[j] == cols.index_of(
                    targets[j],
                ),
            forall|a: int, b: int| 0 <= a < b < i ==> #[trigger] targets[a] != #[trigger] targets[b],
            layout@ == apply_swaps(iota(n as nat), swaps@),
            swaps_within(swaps@, n as nat),
            swaps@.len() <= i,
            forall|j: int|
                0 <= j < swaps@.len() ==> (#[trigger] swaps@[j]).1 < swaps@[j].0 && swaps@[j].1 < i,
            forall|a: int, b: int|
                0 <= a < b < swaps@.len() ==> (#[trigger] swaps@[a]).1 < (#[trigger] swaps@[b]).1,
            in_place(cols, targets) ==> swaps@.len() == 0 && place@ == iota(n as nat),
        decreases k - i,
    {
        assert(targets[i as int] == columns@[i as int]@);
        let t = match column_names.get(&columns[i]) {
            Some(t) => t,
            None => {
                return Err(Error::Schema);
            },
        };
        let cur = place[t];
        proof {
            if in_place(cols, targets) {
                assert(cols[i as int] == targets[i as int]);
                lemma_index_of_unique(cols, targets[i as int], i as int);
            }
        }
        if cur < i {
            proof {
                assert(layout@[cur as int] == t);
                assert(cols[t as int] == targets[i as int]);
                assert(cols[cols.index_of(targets[cur as int])] == targets[cur as int]);
                assert(targets[cur as int] == targets[i as int]);
            }
            return Err(Error::Schema);
        }
        proof {
            assert forall|a: int| 0 <= a < i implies targets[a] != targets[i as int] by {
                if targets[a] == targets[i as int] {
                    assert(layout@[a] == t);
                    assert(place@[layout@[a] as int] == a);
                }
            }
        }
        if cur != i {
            let other = layout[i];
            let ghost layout_before = layout@;
            let ghost place_before = place@;
            let ghost swaps_before = swaps@;
            proof {
                assert(layout_before[cur as int] == t);
                assert(place_before[other as int] == i);
            }
            swaps.push((cur, i));
            layout[i] = t;
            layout[cur] = other;
            place[t] = i;
            place[other] = cur;
            proof {
                assert(swaps@.drop_last() =~= swaps_before);
                assert(layout@ =~= swap_cells(layout_before, cur as int, i as int));
                assert forall|p: int| 0 <= p < n implies (#[trigger] layout@[p]) < n
                    && place@[layout@[p] as int] == p by {
                    assert(layout_before[p] < n && place_before[layout_before[p] as int] == p);
                }
                assert forall|o: int| 0 <= o < n implies (#[trigger] place@[o]) < n
                    && layout@[place@[o] as int] == o by {
                    assert(place_before[o] < n && layout_before[place_before[o] as int] == o);
                }
            }
        }
        i += 1;
    }
    proof {
        assert forall|row: Row| row.len() == cols.len() implies (#[trigger] apply_swaps(
            row,
            swaps@,
        )).take(targets.len() as int) == gather(row, cols, targets) by {
            lemma_swaps_len(row, swaps@);
            assert forall|j: int| 0 <= j < k implies apply_swaps(row, swaps@)[j] == row[cols.index_of(
                targets[j],
            )] by {
                lemma_swaps_follow(row, swaps@, j);
            }
            assert(apply_swaps(row, swaps@).take(targets.len() as int) =~= gather(
                row,
                cols,
                targets,
            ));
        }
    }
    Ok((swaps, Schema { names: clone_names(columns) }))
}

/// Applies the exchanges to a row and cuts it to `width` cells.
pub fn swap_truncate(entry: &mut Entry, swaps: &Vec<(usize, usize)>, width: usize)
    requires
        swaps_within(swaps@, old(entry)@.len()),
        width <= old(entry)@.len(),
    ensures
        final(entry)@ == apply_swaps(old(entry)@, swaps@).take(width as int),
        entry_view(final(entry)@) == apply_swaps(entry_view(old(entry)@), swaps@).take(width as int),
{
    let ghost start = entry@;
    let mut j: usize = 0;
    while j < swaps.len()
        invariant
            0 <= j <= swaps.len(),
            swaps_within(swaps@, start.len()),
            entry@.len() == start.len(),
            entry@ == apply_swaps(start, swaps@.take(j as int)),
        decreases swaps.len() - j,
    {
        let (a, b) = swaps[j];
        entry.swap(a, b);
        proof {
            assert(swaps@.take(j + 1).drop_last() =~= swaps@.take(j as int));
        }
        j += 1;
    }
    proof {
        assert(swaps@.take(swaps.len() as int) =~= swaps@);
        lemma_swaps_len(start, swaps@);
        lemma_swaps_map(start, value_view(), swaps@);
    }
    entry.truncate(width);
    proof {
        assert(entry_view(entry@) =~= apply_swaps(start, swaps@).map_values(value_view()).take(
            width as int,
        ));
    }
}

/// Applies the exchanges to every row and cuts each to `width` cells.
fn realign_entries(entries: &mut Vec<Entry>, swaps: &Vec<(usize, usize)>, width: usize, Ghost(
    from,
): Ghost<Seq<Name>>, Ghost(to): Ghost<Seq<Name>>)
    requires
        rows_fit(entries_view(old(entries)@), from.len()),
        from.no_duplicates(),
        projectable(from, to),
        swaps_within(swaps@, from.len()),
        realigns(swaps@, from, to),
        width == to.len(),
        width <= from.len(),
    ensures
        entries_view(final(entries)@) == entries_view(old(entries)@).map_values(gathers(from, to)),
        rows_fit(entries_view(final(entries)@), to.len()),
{
    let ghost rows = entries_view(entries@);
    let n = entries.len();
    let mut i: usize = 0;
    while i < n
        invariant
            0 <= i <= n,
            n == entries@.len(),
            n == rows.len(),
            rows_fit(rows, from.len()),
            from.no_duplicates(),
            projectable(from, to),
            swaps_within(swaps@, from.len()),
            realigns(swaps@, from, to),
            width == to.len(),
            width <= from.len(),
            forall|j: int| 0 <= j < i ==> #[trigger] entries_view(entries@)[j] == gather(rows[j], from, to),
            forall|j: int| i <= j < n ==> #[trigger] entries_view(entries@)[j] == rows[j],
        decreases n - i,
    {
        let ghost before = entries_view(entries@);
        proof {
            assert(row_fits(rows[i as int], from.len()));
            assert(before[i as int] == rows[i as int]);
        }
        let entry = &mut entries[i];
        swap_truncate(entry, swaps, width);
        proof {
            assert(apply_swaps(rows[i as int], swaps@).take(to.len() as int) == gather(
                rows[i as int],
                from,
                to,
            ));
            assert forall|j: int| 0 <= j < i + 1 implies #[trigger] entries_view(entries@)[j]
                == gather(rows[j], from, to) by {
                if j < i {
                    assert(before[j] == gather(rows[j], from, to));
                }
            }
            assert forall|j: int| i + 1 <= j < n implies #[trigger] entries_view(entries@)[j]
                == rows[j] by {
                assert(before[j] == rows[j]);
            }
        }
        i += 1;
    }
    proof {
        assert(entries_view(entries@) =~= rows.map_values(gathers(from, to)));
        assert forall|j: int| 0 <= j < n implies row_fits(
            #[trigger] entries_view(entries@)[j],
            to.len(),
        ) by {
            let row = rows[j];
            assert(row_fits(row, from.len()));
            assert forall|c: int| 0 <= c < to.len() implies !(#[trigger] gather(row, from, to)[c]
                is Column) by {
                assert(from.contains(to[c]));
                assert(!(row[from.index_of(to[c])] is Column));
            }
        }
    }
}

/// Projection: brings the named columns, in the order given, to the front
/// of every row and drops the rest.
pub fn project(table: Table, columns: Vec<String>) -> (r: Result<Table, Error>)
    ensures
        table_result(r) == model::project(table@, names_view(columns@)),
        r matches Ok(t) ==> t@.wf(),
{
    proof {
        use_type_invariant(&table);
    }
    let Table { schema, entries } = table;
    let mut entries = entries;
    match swaps_for_projection(&schema, &columns) {
        Err(_) => Err(Error::Schema),
        Ok((swaps, final_columns)) => {
            realign_entries(
                &mut entries,
                &swaps,
                columns.len(),
                Ghost(schema@),
                Ghost(names_view(columns@)),
            );
            Ok(Table { schema: final_columns, entries })
        },
    }
}

/// Renames columns in order: the column `old_columns[i]` is called
/// `new_columns[i]` from then on. The schema changes only if every step
/// succeeds; a step fails if its old name is absent or its new name is
/// taken by another column.
pub fn rename_columns(column_names: &mut Schema, old_columns: &Vec<String>, new_columns: &Vec<String>) -> (r:
    Result<(), Error>)
    ensures
        match rename_all(old(column_names)@, names_view(old_columns@), names_view(new_columns@)) {
            Ok(columns) => r is Ok && final(column_names)@ == columns,
            Err(e) => r == Err::<(), Error>(e) && final(column_names)@ == old(column_names)@,
        },
        final(column_names)@.len() == old(column_names)@.len(),
{
    proof {
        use_type_invariant(&*column_names);
    }
    let ghost start = column_names@;
    let ghost old = names_view(old_columns@);
    let ghost new = names_view(new_columns@);
    let mut names = clone_names(&column_names.names);
    let mut i: usize = 0;
    while i < old_columns.len() && i < new_columns.len()
        invariant
            0 <= i <= old_columns.len(),
            i <= new_columns.len(),
            old == names_view(old_columns@),
            new == names_view(new_columns@),
            names_view(names@).no_duplicates(),
            names@.len() == start.len(),
            rename_from(names_view(names@), old, new, i as int) == rename_all(start, old, new),
            column_names@ == start,
        decreases old_columns.len() - i,
    {
        let ghost current = names_view(names@);
        assert(old[i as int] == old_columns@[i as int]@);
        assert(new[i as int] == new_columns@[i as int]@);
        let p = match position(&names, &old_columns[i]) {
            Some(p) => p,
            None => {
                return Err(Error::Schema);
            },
        };
        proof {
            lemma_index_of_unique(current, old[i as int], p as int);
        }
        if new_columns[i] != old_columns[i] && position(&names, &new_columns[i]).is_some() {
            return Err(Error::Schema);
        }
        names[p] = new_columns[i].clone();
        proof {
            assert(names_view(names@) =~= current.update(p as int, new[i as int]));
            assert(rename_one(current, old[i as int], new[i as int]) == Ok::<Seq<Name>, Error>(
                names_view(names@),
            ));
            assert forall|a: int, b: int|
                0 <= a < current.len() && 0 <= b < current.len() && a != b implies names_view(
                names@,
            )[a] != names_view(names@)[b] by {
                if a != p && b != p {
                    assert(current[a] != current[b]);
                } else if a == p {
                    assert(current[b] != current[p as int]);
                    if current.contains(new[i as int]) {
                    }
                } else {
                    assert(current[a] != current[p as int]);
                }
            }
        }
        i += 1;
    }
    column_names.names = names;
    Ok(())
}

/// Renaming: the schema changes, the rows stay.
pub fn renaming(table: Table, old_columns: &Vec<String>, new_columns: &Vec<String>) -> (r: Result<
    Table,
    Error,
>)
    ensures
        table_result(r) == model::rename(table@, names_view(old_columns@), names_view(new_columns@)),
        r matches Ok(t) ==> t@.wf(),
{
    proof {
        use_type_invariant(&table);
    }
    let Table { schema, entries } = table;
    let mut schema = schema;
    match rename_columns(&mut schema, old_columns, new_columns) {
        Ok(()) => {
            proof {
                use_type_invariant(&schema);
            }
            Ok(Table { schema, entries })
        },
        Err(e) => Err(e),
    }
}

/// Whether some name occurs in both schemas.
fn schemas_clash(left: &Schema, right: &Schema) -> (r: bool)
    ensures
        r == clash(left@, right@),
{
    let mut i: usize = 0;
    while i < left.names.len()
        invariant
            0 <= i <= left.names.len(),
            forall|j: int| 0 <= j < i ==> !right@.contains(#[trigger] left@[j]),
        decreases left.names.len() - i,
    {
        assert(left@[i as int] == left.names@[i as int]@);
        if right.contains_key(&left.names[i]) {
            return true;
        }
        i += 1;
    }
    false
}

/// The names of `left` followed by those of `right`.
fn joined_schema(left: &Schema, right: &Schema) -> (r: Schema)
    requires
        !clash(left@, right@),
    ensures
        r@ == left@ + right@,
        r@.no_duplicates(),
{
    proof {
        use_type_invariant(left);
        use_type_invariant(right);
    }
    let mut names = clone_names(&left.names);
    let mut tail = clone_names(&right.names);
    names.append(&mut tail);
    proof {
        let all = names_view(names@);
        assert(all =~= left@ + right@);
        assert forall|a: int, b: int| 0 <= a < all.len() && 0 <= b < all.len() && a != b implies all[a]
            != all[b] by {
            if a < left@.len() && b >= left@.len() {
                assert(right@[b - left@.len()] == all[b]);
                assert(right@.contains(all[b]));
                assert(left@[a] == all[a]);
            } else if b < left@.len() && a >= left@.len() {
                assert(right@[a - left@.len()] == all[a]);
                assert(right@.contains(all[a]));
                assert(left@[b] == all[b]);
            } else if a < left@.len() {
                assert(left@[a] != left@[b]);
            } else {
                assert(right@[a - left@.len()] != right@[b - left@.len()]);
            }
        }
    }
    Schema { names }
}

/// The row `left` followed by the row `right`.
fn concat_entries(left: &Entry, right: &Entry) -> (r: Entry)
    ensures
        r@ == left@ + right@,
        entry_view(r@) == entry_view(left@) + entry_view(right@),
{
    let mut entry = clone_entry(left);
    let mut tail = clone_entry(right);
    entry.append(&mut tail);
    proof {
        assert(entry_view(entry@) =~= entry_view(left@) + entry_view(right@));
    }
    entry
}

/// Cross product: every left row is followed by every right row, the left
/// row changing last. The two schemas must not share a name.
pub fn product(table1: Table, table2: Table) -> (r: Result<Table, Error>)
    ensures
        table_result(r) == model::product(table1@, table2@),
        r matches Ok(t) ==> t@.wf(),
{
    proof {
        use_type_invariant(&table1);
        use_type_invariant(&table2);
    }
    if schemas_clash(&table1.schema, &table2.schema) {
        return Err(Error::Schema);
    }
    let schema = joined_schema(&table1.schema, &table2.schema);
    let ghost rows1 = entries_view(table1.entries@);
    let ghost rows2 = entries_view(table2.entries@);
    let ghost w1 = table1.schema@.len();
    let ghost w2 = table2.schema@.len();
    let mut out: Vec<Entry> = Vec::new();
    let mut i: usize = 0;
    proof {
        assert(entries_view(out@) =~= cross(rows1.take(0), rows2));
    }
    while i < table1.entries.len()
        invariant
            0 <= i <= table1.entries.len(),
            rows1 == entries_view(table1.entries@),
            rows2 == entries_view(table2.entries@),
            rows_fit(rows1, w1),
            rows_fit(rows2, w2),
            entries_view(out@) == cross(rows1.take(i as int), rows2),
            rows_fit(entries_view(out@), w1 + w2),
        decreases table1.entries.len() - i,
    {
        let ghost base = entries_view(out@);
        let mut j: usize = 0;
        proof {
            assert(rows2.take(0).map_values(prefixed(rows1[i as int])) =~= Seq::<Row>::empty());
            assert(base + Seq::<Row>::empty() =~= base);
        }
        while j < table2.entries.len()
            invariant
                0 <= i < table1.entries.len(),
                0 <= j <= table2.entries.len(),
                rows1 == entries_view(table1.entries@),
                rows2 == entries_view(table2.entries@),
                rows_fit(rows1, w1),
                rows_fit(rows2, w2),
                entries_view(out@) == base + rows2.take(j as int).map_values(
                    prefixed(rows1[i as int]),
                ),
                rows_fit(entries_view(out@), w1 + w2),
            decreases table2.entries.len() - j,
        {
            let ghost before = entries_view(out@);
            let entry = concat_entries(&table1.entries[i], &table2.entries[j]);
            out.push(entry);
            proof {
                let l = rows1[i as int];
                let r = rows2[j as int];
                assert(row_fits(l, w1));
                assert(row_fits(r, w2));
                lemma_concat_fits(l, r, w1, w2);
                assert(entries_view(out@) =~= before.push(l + r));
                assert(rows2.take(j + 1).map_values(prefixed(l)) =~= rows2.take(j as int).map_values(
                    prefixed(l),
                ).push(l + r));
                assert(entries_view(out@) =~= base + rows2.take(j + 1).map_values(prefixed(l)));
            }
            j += 1;
        }
        proof {
            assert(rows2.take(rows2.len() as int) =~= rows2);
            assert(rows1.take(i + 1).drop_last() =~= rows1.take(i as int));
            assert(rows1.take(i + 1).last() == rows1[i as int]);
        }
        i += 1;
    }
    proof {
        assert(rows1.take(rows1.len() as int) =~= rows1);
    }
    Ok(Table { schema, entries: out })
}

/// Whether two rows hold the same values.
pub fn entries_equal(a: &Entry, b: &Entry) -> (r: bool)
    ensures
        r == (entry_view(a@) == entry_view(b@)),
{
    if a.len() != b.len() {
        assert(entry_view(a@).len() != entry_view(b@).len());
        return false;
    }
    let mut i: usize = 0;
    while i < a.len()
        invariant
            0 <= i <= a.len(),
            a.len() == b.len(),
            forall|j: int| 0 <= j < i ==> entry_view(a@)[j] == entry_view(b@)[j],
        decreases a.len() - i,
    {
        if !same_value(&a[i], &b[i]) {
            assert(entry_view(a@)[i as int] != entry_view(b@)[i as int]);
            return false;
        }
        i += 1;
    }
    proof {
        assert(entry_view(a@) =~= entry_view(b@));
    }
    true
}

/// Whether some row of `entries` holds the same values as `entry`.
fn contains_entry(entries: &Vec<Entry>, entry: &Entry) -> (r: bool)
    ensures
        r == entries_view(entries@).contains(entry_view(entry@)),
{
    let mut i: usize = 0;
    while i < entries.len()
        invariant
            0 <= i <= entries.len(),
            forall|j: int| 0 <= j < i ==> entries_view(entries@)[j] != entry_view(entry@),
        decreases entries.len() - i,
    {
        if entries_equal(&entries[i], entry) {
            assert(entries_view(entries@)[i as int] == entry_view(entry@));
            return true;
        }
        i += 1;
    }
    false
}

/// Difference: every left row stays unless some right row holds the same
/// values; a left row that occurs twice is judged twice.
pub fn minus(table1: Table, table2: Table) -> (r: Table)
    ensures
        r@ == model::except(table1@, table2@),
        r@.wf(),
{
    proof {
        use_type_invariant(&table1);
    }
    let Table { schema, entries } = table1;
    let ghost rows = entries_view(entries@);
    let ghost others = entries_view(table2.entries@);
    let ghost keep = absent_from(others);
    let mut kept: Vec<Entry> = Vec::new();
    for entry in it: entries
        invariant
            it.seq() == entries@,
            rows == entries_view(entries@),
            others == entries_view(table2.entries@),
            keep == absent_from(others),
            rows_fit(rows, schema@.len()),
            entries_view(kept@) == rows.take(it.index() as int).filter(keep),
            rows_fit(entries_view(kept@), schema@.len()),
    {
        let ghost i = it.index() as int;
        let ghost before = entries_view(kept@);
        proof {
            lemma_filter_step(rows, keep, i);
            assert(rows[i] == entry_view(entry@));
        }
        if !contains_entry(&table2.entries, &entry) {
            kept.push(entry);
            proof {
                assert(entries_view(kept@) =~= before.push(rows[i]));
            }
        }
    }
    proof {
        assert(rows.take(rows.len() as int) =~= rows);
    }
    Table { schema, entries: kept }
}

/// Union: the left rows, then the right rows with their cells brought to
/// the positions of the left schema. Both schemas must name the same
/// columns.
pub fn union(table1: Table, table2: Table) -> (r: Result<Table, Error>)
    ensures
        table_result(r) == model::union(table1@, table2@),
        r matches Ok(t) ==> t@.wf(),
{
    proof {
        use_type_invariant(&table1);
        use_type_invariant(&table2);
    }
    let Table { schema: schema1, entries: entries1 } = table1;
    let Table { schema: schema2, entries: entries2 } = table2;
    let mut entries1 = entries1;
    let mut entries2 = entries2;
    proof {
        use_type_invariant(&schema1);
        use_type_invariant(&schema2);
    }
    if schema1.len() != schema2.len() {
        return Err(Error::Schema);
    }
    match swaps_for_projection(&schema2, &schema1.names) {
        Err(_) => Err(Error::Schema),
        Ok((swaps, _)) => {
            let ghost rows1 = entries_view(entries1@);
            realign_entries(&mut entries2, &swaps, schema1.len(), Ghost(schema2@), Ghost(schema1@));
            let ghost rows2 = entries_view(entries2@);
            entries1.append(&mut entries2);
            proof {
                assert(entries_view(entries1@) =~= rows1 + rows2);
                assert forall|j: int| 0 <= j < entries1@.len() implies row_fits(
                    #[trigger] entries_view(entries1@)[j],
                    schema1@.len(),
                ) by {
                    if j < rows1.len() {
                        assert(row_fits(rows1[j], schema1@.len()));
                    } else {
                        assert(row_fits(rows2[j - rows1.len()], schema1@.len()));
                    }
                }
            }
            Ok(Table { schema: schema1, entries: entries1 })
        },
    }
}

/// One pass over rows: the rows on which the condition holds, each
/// realigned by the exchanges and cut to `width` cells.
fn select_project_rows(
    entries: &Vec<Entry>,
    schema: &Schema,
    condition: &Condition,
    swaps: &Vec<(usize, usize)>,
    width: usize,
    Ghost(targets): Ghost<Seq<Name>>,
) -> (r: Result<Vec<Entry>, Error>)
    requires
        rows_fit(entries_view(entries@), schema@.len()),
        projectable(schema@, targets),
        swaps_within(swaps@, schema@.len()),
        realigns(swaps@, schema@, targets),
        width == targets.len(),
        width <= schema@.len(),
    ensures
        r is Ok <==> decidable(entries_view(entries@), schema@, condition@),
        r matches Err(e) ==> e == Error::Schema,
        r matches Ok(out) ==> entries_view(out@) == entries_view(entries@).filter(
            keeps(schema@, condition@),
        ).map_values(gathers(schema@, targets)) && rows_fit(entries_view(out@), targets.len()),
{
    let ghost rows = entries_view(entries@);
    let ghost columns = schema@;
    let ghost keep = keeps(columns, condition@);
    let ghost pick = gathers(columns, targets);
    let mut out: Vec<Entry> = Vec::new();
    let mut i: usize = 0;
    proof {
        reveal(Seq::filter);
        assert(rows.take(0).filter(keep).map_values(pick) =~= Seq::<Row>::empty());
    }
    while i < entries.len()
        invariant
            0 <= i <= entries.len(),
            rows == entries_view(entries@),
            columns == schema@,
            keep == keeps(columns, condition@),
            pick == gathers(columns, targets),
            rows_fit(rows, columns.len()),
            projectable(columns, targets),
            swaps_within(swaps@, columns.len()),
            realigns(swaps@, columns, targets),
            width == targets.len(),
            width <= columns.len(),
            decidable(rows.take(i as int), columns, condition@),
            entries_view(out@) == rows.take(i as int).filter(keep).map_values(pick),
            rows_fit(entries_view(out@), targets.len()),
        decreases entries.len() - i,
    {
        let ghost before = entries_view(out@);
        proof {
            lemma_filter_step(rows, keep, i as int);
            assert(rows[i as int] == entry_view(entries@[i as int]@));
            assert(row_fits(rows[i as int], columns.len()));
        }
        match eval_condition(&entries[i], schema, condition) {
            Ok(true) => {
                let mut record = clone_entry(&entries[i]);
                swap_truncate(&mut record, swaps, width);
                proof {
                    assert(apply_swaps(rows[i as int], swaps@).take(targets.len() as int) == gather(
                        rows[i as int],
                        columns,
                        targets,
                    ));
                    lemma_gather_fits(rows[i as int], columns, targets);
                }
                out.push(record);
                proof {
                    assert(entries_view(out@) =~= before.push(pick(rows[i as int])));
                    assert(rows.take(i + 1).filter(keep).map_values(pick) =~= rows.take(
                        i as int,
                    ).filter(keep).map_values(pick).push(pick(rows[i as int])));
                }
            },
            Ok(false) => {},
            Err(_) => {
                proof {
                    assert(holds(rows[i as int], columns, condition@) is Err);
                }
                return Err(Error::Schema);
            },
        }
        proof {
            assert forall|j: int| 0 <= j < i + 1 implies (#[trigger] holds(
                rows.take(i + 1)[j],
                columns,
                condition@,
            )) is Ok by {
                if j < i {
                    assert(rows.take(i + 1)[j] == rows.take(i as int)[j]);
                }
            }
        }
        i += 1;
    }
    proof {
        assert(rows.take(rows.len() as int) =~= rows);
    }
    Ok(out)
}

/// The fused tail of both fused nodes, in one pass over the rows:
/// selection, projection onto `old_attrs`, renaming to `new_attrs`.
fn select_project_rename_rows(
    entries: &Vec<Entry>,
    schema: &Schema,
    condition: &Condition,
    old_attrs: &Vec<String>,
    new_attrs: &Vec<String>,
) -> (r: Result<Table, Error>)
    requires
        rows_fit(entries_view(entries@), schema@.len()),
    ensures
        table_result(r) == select_project_rename(
            Relation { columns: schema@, rows: entries_view(entries@) },
            condition@,
            names_view(old_attrs@),
            names_view(new_attrs@),
        ),
        r matches Ok(t) ==> t@.wf(),
{
    let (swaps, final_columns) = match swaps_for_projection(schema, old_attrs) {
        Ok(p) => p,
        Err(_) => {
            return Err(Error::Schema);
        },
    };
    let mut final_columns = final_columns;
    let out = match select_project_rows(
        entries,
        schema,
        condition,
        &swaps,
        old_attrs.len(),
        Ghost(names_view(old_attrs@)),
    ) {
        Ok(out) => out,
        Err(_) => {
            return Err(Error::Schema);
        },
    };
    match rename_columns(&mut final_columns, old_attrs, new_attrs) {
        Ok(()) => {
            proof {
                use_type_invariant(&final_columns);
            }
            Ok(Table { schema: final_columns, entries: out })
        },
        Err(e) => Err(e),
    }
}

/// What `Load` reads: a copy of the relation called `filename`.
pub fn read(filename: &String, catalog: &Catalog) -> (r: Result<Table, Error>)
    ensures
        table_result(r) == load(catalog@, filename@),
        r matches Ok(t) ==> t@.wf(),
{
    match catalog.get(filename) {
        Some(table) => Ok(table.clone()),
        None => Err(Error::SourceAccess),
    }
}

/// The fused read: the rows of the relation called `filename` on which the
/// condition holds, projected onto `old_attrs` and renamed to `new_attrs`,
/// in one pass over the rows. The result is that of the chain of a load, a
/// selection, a projection and a renaming.
pub fn read_select_project_rename(
    filename: &String,
    condition: &Condition,
    old_attrs: &Vec<String>,
    new_attrs: &Vec<String>,
    catalog: &Catalog,
) -> (r: Result<Table, Error>)
    ensures
        table_result(r) == (match load(catalog@, filename@) {
            Ok(t) => select_project_rename(
                t,
                condition@,
                names_view(old_attrs@),
                names_view(new_attrs@),
            ),
            Err(e) => Err(e),
        }),
        r matches Ok(t) ==> t@.wf(),
{
    match catalog.get(filename) {
        Some(table) => {
            proof {
                use_type_invariant(table);
            }
            select_project_rename_rows(
                &table.entries,
                &table.schema,
                condition,
                old_attrs,
                new_attrs,
            )
        },
        None => Err(Error::SourceAccess),
    }
}

/// The fused join: a hash join of the two tables on the equi-join pairs of
/// the condition, the residual condition as a filter on the joined rows,
/// then the projection onto `old_attrs` and the renaming to `new_attrs`.
/// The two schemas must not share a name.
pub fn join_project_rename(
    table1: Table,
    table2: Table,
    condition: &Condition,
    old_attrs: &Vec<String>,
    new_attrs: &Vec<String>,
) -> (r: Result<Table, Error>)
    ensures
        table_result(r) == model::join(
            table1@,
            table2@,
            condition@,
            names_view(old_attrs@),
            names_view(new_attrs@),
        ),
        r matches Ok(t) ==> t@.wf(),
{
    proof {
        use_type_invariant(&table1);
        use_type_invariant(&table2);
    }
    if schemas_clash(&table1.schema, &table2.schema) {
        return Err(Error::Schema);
    }
    let schema = joined_schema(&table1.schema, &table2.schema);
    let mut pairs: Vec<(usize, usize)> = Vec::new();
    proof {
        assert(pairs_view(pairs@) =~= Seq::<(int, int)>::empty());
    }
    collect_pairs(condition, &table1.schema, &table2.schema, &mut pairs);
    proof {
        assert(pairs_view(pairs@) =~= equi_pairs(condition@, table1.schema@, table2.schema@));
    }
    let rest = residual_condition(condition, &table1.schema, &table2.schema);
    let ghost a = table1.schema@.len();
    let ghost b = table2.schema@.len();
    let ghost rows1 = entries_view(table1.entries@);
    let ghost rows2 = entries_view(table2.entries@);
    let Table { schema: _, entries: entries1 } = table1;
    proof {
        assert forall|i: int| 0 <= i < entries1@.len() implies (#[trigger] entries1@[i])@.len()
            == a by {
            assert(row_fits(rows1[i], a));
        }
        assert forall|i: int| 0 <= i < table2.entries@.len() implies (
        #[trigger] table2.entries@[i])@.len() == b by {
            assert(row_fits(rows2[i], b));
        }
        lemma_joined_fits(rows1, rows2, pairs_view(pairs@), a, b);
    }
    let wide = hash_join(entries1, &table2.entries, &pairs, Ghost(a), Ghost(b));
    select_project_rename_rows(&wide, &schema, &rest, old_attrs, new_attrs)
}

/// Evaluates a plan against the relations of the catalog.
pub fn eval(expression: Box<Expression>, catalog: &Catalog) -> (r: Result<Table, Error>)
    ensures
        table_result(r) == eval_plan(expression@, catalog@),
        r matches Ok(t) ==> t@.wf(),
    decreases expression,
{
    match *expression {
        Expression::Select(expression_from, condition) => {
            match eval(expression_from, catalog) {
                Ok(table) => select(table, &*condition),
                Err(e) => Err(e),
            }
        },
        Expression::Project(expression_from, columns) => {
            match eval(expression_from, catalog) {
                Ok(table) => project(table, columns),
                Err(e) => Err(e),
            }
        },
        Expression::Product(expr1, expr2) => {
            match eval(expr1, catalog) {
                Ok(table1) => match eval(expr2, catalog) {
                    Ok(table2) => product(table1, table2),
                    Err(e) => Err(e),
                },
                Err(e) => Err(e),
            }
        },
        Expression::Except(expr1, expr2) => {
            match eval(expr1, catalog) {
                Ok(table1) => match eval(expr2, catalog) {
                    Ok(table2) => Ok(minus(table1, table2)),
                    Err(e) => Err(e),
                },
                Err(e) => Err(e),
            }
        },
        Expression::Union(expr1, expr2) => {
            match eval(expr1, catalog) {
                Ok(table1) => match eval(expr2, catalog) {
                    Ok(table2) => union(table1, table2),
                    Err(e) => Err(e),
                },
                Err(e) => Err(e),
            }
        },
        Expression::Rename(expression_from, old_columns, new_columns) => {
            match eval(expression_from, catalog) {
                Ok(table) => renaming(table, &old_columns, &new_columns),
                Err(e) => Err(e),
            }
        },
        Expression::ReadSelectProjectRename(filename, condition, old_attrs, new_attrs) => {
            read_select_project_rename(&filename, &*condition, &old_attrs, &new_attrs, catalog)
        },
        Expression::JoinProjectRename(expr1, expr2, condition, old_attrs, new_attrs) => {
            match eval(expr1, catalog) {
                Ok(table1) => match eval(expr2, catalog) {
                    Ok(table2) => join_project_rename(
                        table1,
                        table2,
                        &*condition,
                        &old_attrs,
                        &new_attrs,
                    ),
                    Err(e) => Err(e),
                },
                Err(e) => Err(e),
            }
        },
        Expression::Load(filename, _) => read(&filename, catalog),
    }
}

} // verus!
