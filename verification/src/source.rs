//! Relations from delimited text, and the names of the relations a plan
//! reads.

use vstd::prelude::*;
use crate::error::Error;
use crate::eval::table_result;
use crate::model::Name;
use crate::model::Plan;
use crate::model::Relation;
use crate::model::Row;
use crate::model::row_fits;
use crate::model::rows_fit;
use crate::table::Schema;
use crate::table::Table;
use crate::table::distinct;
use crate::text::cell_value;
use crate::text::parsed_integer;
use crate::text::typed_datum;
use crate::types::Entry;
use crate::types::Expression;
use crate::types::Value;
use crate::types::entries_view;
use crate::types::entry_view;
use crate::types::names_view;

verus! {

/// The records that the `csv` crate reads from a text with its default
/// settings, the header record first; `None` where it reports an error.
pub uninterp spec fn csv_records(text: Seq<u8>) -> Option<Seq<Seq<Seq<char>>>>;

/// The fields a list of records stands for.
pub open spec fn records_view(records: Seq<Vec<String>>) -> Seq<Seq<Seq<char>>> {
    records.map_values(|r: Vec<String>| names_view(r@))
}

/// `csv::Reader::from_reader`, `headers` and `records`: the header record
/// and then every other record of the text, each as its fields, or nothing
/// where the reader reports an error. The result depends on the text
/// alone.
#[verifier::external_body]
fn parse_csv(text: &[u8]) -> (r: Option<Vec<Vec<String>>>)
    ensures
        match csv_records(text@) {
            Some(records) => r matches Some(v) && records_view(v@) == records,
            None => r is None,
        },
{
    let mut reader = csv::Reader::from_reader(text);
    let mut out: Vec<Vec<String>> = Vec::new();
    out.push(reader.headers().ok()?.iter().map(String::from).collect());
    for record in reader.records() {
        out.push(record.ok()?.iter().map(String::from).collect());
    }
    Some(out)
}

/// The function that types one cell.
pub open spec fn typed() -> spec_fn(Seq<char>) -> crate::model::Datum {
    |cell: Seq<char>| typed_datum(cell, parsed_integer(cell))
}

/// The function that types the cells of one record.
pub open spec fn typed_row() -> spec_fn(Seq<Seq<char>>) -> Row {
    |record: Seq<Seq<char>>| record.map_values(typed())
}

/// Every record has `width` fields.
pub open spec fn records_fit(records: Seq<Seq<Seq<char>>>, width: nat) -> bool {
    forall|i: int| 0 <= i < records.len() ==> (#[trigger] records[i]).len() == width
}

/// The relation that records stand for: the first record names the
/// columns, every other record is a row, each cell an integer if it is the
/// literal of one and a text if not. No record at all is the relation
/// without columns. A column name that occurs twice is a schema error; a
/// row with another number of cells than the header makes the relation
/// unreadable.
pub open spec fn relation_of(records: Seq<Seq<Seq<char>>>) -> Result<Relation, Error> {
    if records.len() == 0 {
        Ok(Relation { columns: Seq::empty(), rows: Seq::empty() })
    } else if !records[0].no_duplicates() {
        Err(Error::Schema)
    } else if !records_fit(records.skip(1), records[0].len()) {
        Err(Error::SourceAccess)
    } else {
        Ok(Relation { columns: records[0], rows: records.skip(1).map_values(typed_row()) })
    }
}

/// Types the cells of one record.
fn typed_entry(record: Vec<String>) -> (r: Entry)
    ensures
        entry_view(r@) == typed_row()(names_view(record@)),
{
    let ghost cells = names_view(record@);
    let mut entry: Vec<Value> = Vec::new();
    proof {
        assert(entry_view(entry@) =~= cells.take(0).map_values(typed()));
    }
    for cell in it: record
        invariant
            it.seq() == record@,
            cells == names_view(record@),
            entry_view(entry@) == cells.take(it.index() as int).map_values(typed()),
    {
        let ghost i = it.index() as int;
        let ghost before = entry_view(entry@);
        proof {
            assert(cells[i] == cell@);
        }
        entry.push(cell_value(cell));
        proof {
            assert(entry_view(entry@) =~= before.push(typed()(cells[i])));
            assert(cells.take(i + 1).map_values(typed()) =~= cells.take(i).map_values(
                typed(),
            ).push(typed()(cells[i])));
        }
    }
    proof {
        assert(cells.take(cells.len() as int) =~= cells);
    }
    entry
}

/// The table that records stand for.
pub fn table_from_records(records: Vec<Vec<String>>) -> (r: Result<Table, Error>)
    ensures
        table_result(r) == relation_of(records_view(records@)),
        r matches Ok(t) ==> t@.wf(),
{
    let ghost all = records_view(records@);
    if records.len() == 0 {
        let schema = Schema { names: Vec::new() };
        let table = Table { schema, entries: Vec::new() };
        proof {
            assert(table@.columns =~= Seq::<Name>::empty());
            assert(table@.rows =~= Seq::<Row>::empty());
        }
        return Ok(table);
    }
    let mut header: Vec<String> = Vec::new();
    let mut entries: Vec<Entry> = Vec::new();
    let mut bad_header = false;
    let mut ragged = false;
    let mut first = true;
    proof {
        assert(entries_view(entries@) =~= all.skip(1).take(0).map_values(typed_row()));
    }
    for record in it: records
        invariant
            it.seq() == records@,
            all == records_view(records@),
            records@.len() > 0,
            first == (it.index() == 0),
            it.index() > 0 ==> names_view(header@) == all[0],
            it.index() > 0 ==> bad_header == !all[0].no_duplicates(),
            it.index() == 0 ==> !ragged && !bad_header && entries@.len() == 0,
            it.index() > 0 && !bad_header ==> (ragged == !records_fit(
                all.skip(1).take(it.index() - 1),
                all[0].len(),
            )),
            it.index() > 0 && !bad_header && !ragged ==> entries_view(entries@) == all.skip(1).take(
                it.index() - 1,
            ).map_values(typed_row()),
            it.index() > 0 && !bad_header && !ragged ==> rows_fit(
                entries_view(entries@),
                all[0].len(),
            ),
    {
        let ghost i = it.index() as int;
        proof {
            assert(all[i] == names_view(record@));
        }
        if first {
            first = false;
            bad_header = !distinct(&record);
            header = record;
            proof {
                assert(all.skip(1).take(0) =~= Seq::<Seq<Seq<char>>>::empty());
            }
        } else if !bad_header && !ragged {
            let ghost before = entries_view(entries@);
            let ghost seen = all.skip(1).take(i - 1);
            proof {
                assert(all.skip(1).take(i) =~= seen.push(all[i]));
                assert forall|j: int| 0 <= j < seen.len() implies all.skip(1).take(i)[j]
                    == seen[j] by {}
            }
            if record.len() != header.len() {
                ragged = true;
                proof {
                    assert(all.skip(1).take(i)[i - 1] == all[i]);
                    assert(!records_fit(all.skip(1).take(i), all[0].len()));
                }
            } else {
                let entry = typed_entry(record);
                proof {
                    let row = entry_view(entry@);
                    assert(row == typed_row()(all[i]));
                    assert forall|c: int| 0 <= c < row.len() implies !(#[trigger] row[c]
                        is Column) by {
                        assert(row[c] == typed()(all[i][c]));
                    }
                    assert(row_fits(row, all[0].len()));
                }
                entries.push(entry);
                proof {
                    assert(entries_view(entries@) =~= before.push(typed_row()(all[i])));
                    assert(all.skip(1).take(i).map_values(typed_row()) =~= seen.map_values(
                        typed_row(),
                    ).push(typed_row()(all[i])));
                    assert forall|j: int| 0 <= j < all.skip(1).take(i).len() implies (
                    #[trigger] all.skip(1).take(i)[j]).len() == all[0].len() by {
                        if j < seen.len() {
                            assert(seen[j].len() == all[0].len());
                        }
                    }
                }
            }
        } else if !bad_header {
            proof {
                let seen = all.skip(1).take(i - 1);
                let j = choose|j: int| 0 <= j < seen.len() && (#[trigger] seen[j]).len() != all[0].len();
                assert(all.skip(1).take(i)[j] == seen[j]);
            }
        }
    }
    proof {
        assert(all.skip(1).take(all.len() - 1) =~= all.skip(1));
    }
    if bad_header {
        return Err(Error::Schema);
    }
    if ragged {
        return Err(Error::SourceAccess);
    }
    Ok(Table { schema: Schema { names: header }, entries })
}

/// Reads a relation from delimited text: the first record names the
/// columns, every other record is a row.
pub fn read_table(text: &[u8]) -> (r: Result<Table, Error>)
    ensures
        table_result(r) == (match csv_records(text@) {
            Some(records) => relation_of(records),
            None => Err(Error::SourceAccess),
        }),
        r matches Ok(t) ==> t@.wf(),
{
    match parse_csv(text) {
        Some(records) => table_from_records(records),
        None => Err(Error::SourceAccess),
    }
}

/// The names of the relations that a plan reads, in the order of the plan,
/// a name as often as it is read.
pub open spec fn plan_sources(plan: Plan) -> Seq<Name>
    decreases plan,
{
    match plan {
        Plan::Select(p, _) => plan_sources(*p),
        Plan::Project(p, _) => plan_sources(*p),
        Plan::Rename(p, _, _) => plan_sources(*p),
        Plan::Except(p, q) => plan_sources(*p) + plan_sources(*q),
        Plan::Union(p, q) => plan_sources(*p) + plan_sources(*q),
        Plan::Product(p, q) => plan_sources(*p) + plan_sources(*q),
        Plan::ReadSelectProjectRename(name, _, _, _) => seq![name],
        Plan::JoinProjectRename(p, q, _, _, _) => plan_sources(*p) + plan_sources(*q),
        Plan::Load(name, _) => seq![name],
    }
}

/// Adds to `names` the names of the relations that a plan reads.
fn collect_sources(expression: &Expression, names: &mut Vec<String>)
    ensures
        names_view(final(names)@) == names_view(old(names)@) + plan_sources(expression@),
    decreases expression,
{
    let ghost before = names_view(names@);
    match expression {
        Expression::Select(p, _) => collect_sources(p, names),
        Expression::Project(p, _) => collect_sources(p, names),
        Expression::Rename(p, _, _) => collect_sources(p, names),
        Expression::Except(p, q) => {
            collect_sources(p, names);
            collect_sources(q, names);
            proof {
                assert(names_view(names@) =~= before + plan_sources(expression@));
            }
        },
        Expression::Union(p, q) => {
            collect_sources(p, names);
            collect_sources(q, names);
            proof {
                assert(names_view(names@) =~= before + plan_sources(expression@));
            }
        },
        Expression::Product(p, q) => {
            collect_sources(p, names);
            collect_sources(q, names);
            proof {
                assert(names_view(names@) =~= before + plan_sources(expression@));
            }
        },
        Expression::ReadSelectProjectRename(name, _, _, _) => {
            names.push(name.clone());
            proof {
                assert(names_view(names@) =~= before + seq![name@]);
            }
        },
        Expression::JoinProjectRename(p, q, _, _, _) => {
            collect_sources(p, names);
            collect_sources(q, names);
            proof {
                assert(names_view(names@) =~= before + plan_sources(expression@));
            }
        },
        Expression::Load(name, _) => {
            names.push(name.clone());
            proof {
                assert(names_view(names@) =~= before + seq![name@]);
            }
        },
    }
}

/// The names of the relations that a plan reads.
pub fn sources(expression: &Expression) -> (r: Vec<String>)
    ensures
        names_view(r@) == plan_sources(expression@),
{
    let mut names: Vec<String> = Vec::new();
    proof {
        assert(names_view(names@) =~= Seq::<Name>::empty());
    }
    collect_sources(expression, &mut names);
    proof {
        assert(Seq::<Name>::empty() + plan_sources(expression@) =~= plan_sources(expression@));
    }
    names
}

} // verus!
