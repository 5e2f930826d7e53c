//! Tables as delimited text.

use vstd::prelude::*;
use crate::model::Datum;
use crate::model::Relation;
use crate::model::Row;
use crate::source::records_view;
use crate::table::Table;
use crate::text::decimal_text;
use crate::text::integer_to_string;
use crate::types::Entry;
use crate::types::Value;
use crate::types::entries_view;
use crate::types::entry_view;
use crate::types::names_view;

verus! {

/// The delimited text that the `csv` crate writes for a list of records
/// with its default settings; `None` where it reports an error.
pub uninterp spec fn csv_text(records: Seq<Seq<Seq<char>>>) -> Option<Seq<u8>>;

/// `csv::Writer::from_writer`, `write_record` and `into_inner`: the text
/// of the records, written one after the other into memory, or nothing
/// where the writer reports an error. The result depends on the records
/// alone.
#[verifier::external_body]
fn write_csv(records: &Vec<Vec<String>>) -> (r: Option<Vec<u8>>)
    ensures
        match csv_text(records_view(records@)) {
            Some(text) => r matches Some(v) && v@ == text,
            None => r is None,
        },
{
    let mut writer = csv::Writer::from_writer(Vec::new());
    for record in records {
        writer.write_record(record).ok()?;
    }
    writer.into_inner().ok()
}

/// The text of a cell: an integer in decimal, a text as it is.
pub open spec fn datum_text(d: Datum) -> Seq<char> {
    match d {
        Datum::Int(i) => decimal_text(i),
        Datum::Text(s) => s,
        Datum::Column(s) => s,
    }
}

/// The function that gives the text of a cell.
pub open spec fn texts() -> spec_fn(Datum) -> Seq<char> {
    |d: Datum| datum_text(d)
}

/// The function that gives the texts of the cells of a row.
pub open spec fn row_texts() -> spec_fn(Row) -> Seq<Seq<char>> {
    |row: Row| row.map_values(texts())
}

/// The records of a table: the column names in position order, then one
/// record for each row.
pub open spec fn relation_records(t: Relation) -> Seq<Seq<Seq<char>>> {
    seq![t.columns] + t.rows.map_values(row_texts())
}

/// The text of a cell. A column reference is no cell.
pub fn get_string_for_value(v: Value) -> (r: String)
    requires
        !(v@ is Column),
    ensures
        r@ == datum_text(v@),
{
    match v {
        Value::Int(i) => integer_to_string(i),
        Value::Str(s) => s,
        Value::Column(s) => s,
    }
}

/// The texts of the cells of a row.
fn entry_texts(entry: &Entry) -> (r: Vec<String>)
    requires
        forall|j: int| 0 <= j < entry@.len() ==> !(#[trigger] entry_view(entry@)[j] is Column),
    ensures
        names_view(r@) == row_texts()(entry_view(entry@)),
{
    let ghost row = entry_view(entry@);
    let mut out: Vec<String> = Vec::new();
    let mut j: usize = 0;
    proof {
        assert(names_view(out@) =~= row.take(0).map_values(texts()));
    }
    while j < entry.len()
        invariant
            0 <= j <= entry.len(),
            row == entry_view(entry@),
            forall|j: int| 0 <= j < entry@.len() ==> !(#[trigger] entry_view(entry@)[j] is Column),
            names_view(out@) == row.take(j as int).map_values(texts()),
        decreases entry.len() - j,
    {
        let ghost before = names_view(out@);
        proof {
            assert(!(entry_view(entry@)[j as int] is Column));
        }
        out.push(get_string_for_value(entry[j].clone()));
        proof {
            assert(names_view(out@) =~= before.push(texts()(row[j as int])));
            assert(row.take(j + 1).map_values(texts()) =~= row.take(j as int).map_values(
                texts(),
            ).push(texts()(row[j as int])));
        }
        j += 1;
    }
    proof {
        assert(row.take(row.len() as int) =~= row);
    }
    out
}

/// The records of a table: the column names in position order, then one
/// record for each row, integers in decimal and texts as they are.
pub fn table_records(table: &Table) -> (r: Vec<Vec<String>>)
    ensures
        records_view(r@) == relation_records(table@),
{
    let entries = table.entries();
    let ghost rows = entries_view(entries@);
    let ghost head = seq![table@.columns];
    let mut out: Vec<Vec<String>> = Vec::new();
    out.push(table.schema().keys());
    let mut i: usize = 0;
    proof {
        assert(records_view(out@) =~= head + rows.take(0).map_values(row_texts()));
    }
    while i < entries.len()
        invariant
            0 <= i <= entries.len(),
            rows == entries_view(entries@),
            rows == table@.rows,
            table@.wf(),
            head == seq![table@.columns],
            records_view(out@) == head + rows.take(i as int).map_values(row_texts()),
        decreases entries.len() - i,
    {
        let ghost before = records_view(out@);
        proof {
            assert(crate::model::row_fits(rows[i as int], table@.columns.len()));
            assert(rows[i as int] == entry_view(entries@[i as int]@));
        }
        out.push(entry_texts(&entries[i]));
        proof {
            assert(records_view(out@) =~= before.push(row_texts()(rows[i as int])));
            assert(rows.take(i + 1).map_values(row_texts()) =~= rows.take(i as int).map_values(
                row_texts(),
            ).push(row_texts()(rows[i as int])));
        }
        i += 1;
    }
    proof {
        assert(rows.take(rows.len() as int) =~= rows);
    }
    out
}

/// The delimited text of a table, or nothing where the writer refuses its
/// records.
pub fn write_table(table: &Table) -> (r: Option<Vec<u8>>)
    ensures
        match csv_text(relation_records(table@)) {
            Some(text) => r matches Some(v) && v@ == text,
            None => r is None,
        },
{
    let records = table_records(table);
    write_csv(&records)
}

} // verus!
