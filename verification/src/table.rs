//! Schemas, tables and the catalog of named relations.

use vstd::prelude::*;
use crate::model::Name;
use crate::model::Relation;
use crate::model::Sources;
use crate::model::find;
use crate::model::row_fits;
use crate::model::rows_fit;
use crate::types::Entry;
use crate::types::Value;
use crate::types::clone_entry;
use crate::types::clone_names;
use crate::types::entries_view;
use crate::types::entry_view;
use crate::types::names_view;

verus! {

/// The column names of a table, by position. No name occurs twice.
#[derive(Debug)]
pub struct Schema {
    pub(crate) names: Vec<String>,
}

/// A schema and the rows that fit it.
#[derive(Debug)]
pub struct Table {
    pub(crate) schema: Schema,
    pub(crate) entries: Vec<Entry>,
}

/// The relations that `Load` can read, by name. A name inserted again
/// shadows the earlier relation.
#[derive(Debug)]
pub struct Catalog {
    pub(crate) relations: Vec<(String, Table)>,
}

/// `name` occurs at position `i` of `names` and nowhere else.
pub proof fn lemma_index_of_unique(names: Seq<Name>, name: Name, i: int)
    requires
        names.no_duplicates(),
        0 <= i < names.len(),
        names[i] == name,
    ensures
        names.contains(name),
        names.index_of(name) == i,
{
}

/// Whether `names` holds `name`, and where it holds it first.
pub fn position(names: &Vec<String>, name: &String) -> (r: Option<usize>)
    ensures
        match r {
            Some(i) => i < names.len() && names_view(names@)[i as int] == name@ && forall|j: int|
                0 <= j < i ==> names_view(names@)[j] != name@,
            None => !names_view(names@).contains(name@),
        },
{
    let mut i: usize = 0;
    while i < names.len()
        invariant
            0 <= i <= names.len(),
            forall|j: int| 0 <= j < i ==> names_view(names@)[j] != name@,
        decreases names.len() - i,
    {
        if names[i] == *name {
            return Some(i);
        }
        i += 1;
    }
    None
}

/// Whether no name occurs twice in `names`.
pub fn distinct(names: &Vec<String>) -> (r: bool)
    ensures
        r == names_view(names@).no_duplicates(),
{
    let ghost all = names_view(names@);
    let mut i: usize = 0;
    while i < names.len()
        invariant
            0 <= i <= names.len(),
            all == names_view(names@),
            forall|a: int, b: int| 0 <= a < b < i ==> #[trigger] all[a] != #[trigger] all[b],
        decreases names.len() - i,
    {
        match position(names, &names[i]) {
            Some(j) => {
                if j < i {
                    assert(all[j as int] == all[i as int]);
                    return false;
                }
            },
            None => {
                assert(all[i as int] == names[i as int]@);
            },
        }
        i += 1;
    }
    true
}

impl Schema {
    #[verifier::type_invariant]
    pub open(crate) spec fn inv(self) -> bool {
        names_view(self.names@).no_duplicates()
    }

    /// The column names, by position.
    pub open(crate) spec fn view(&self) -> Seq<Name> {
        names_view(self.names@)
    }

    /// The schema with the given column names, unless a name occurs twice.
    pub fn new(names: Vec<String>) -> (r: Option<Schema>)
        ensures
            r is Some <==> names_view(names@).no_duplicates(),
            r matches Some(s) ==> s@ == names_view(names@),
    {
        if distinct(&names) {
            Some(Schema { names })
        } else {
            None
        }
    }

    /// The number of columns.
    pub fn len(&self) -> (r: usize)
        ensures
            r == self@.len(),
    {
        self.names.len()
    }

    /// The position of the column called `name`.
    pub fn get(&self, name: &String) -> (r: Option<usize>)
        ensures
            self@.no_duplicates(),
            match r {
                Some(i) => self@.contains(name@) && i == self@.index_of(name@) && i < self@.len(),
                None => !self@.contains(name@),
            },
    {
        proof {
            use_type_invariant(self);
        }
        let r = position(&self.names, name);
        proof {
            if let Some(i) = r {
                lemma_index_of_unique(self@, name@, i as int);
            }
        }
        r
    }

    /// Whether a column is called `name`.
    pub fn contains_key(&self, name: &String) -> (r: bool)
        ensures
            r == self@.contains(name@),
    {
        self.get(name).is_some()
    }

    /// The column names, by position.
    pub fn keys(&self) -> (r: Vec<String>)
        ensures
            names_view(r@) == self@,
            self@.no_duplicates(),
    {
        proof {
            use_type_invariant(self);
        }
        clone_names(&self.names)
    }
}

impl Clone for Schema {
    fn clone(&self) -> (r: Self)
        ensures
            r@ == self@,
    {
        proof {
            use_type_invariant(self);
        }
        Schema { names: clone_names(&self.names) }
    }
}

/// Whether `entry` has `width` cells, none of them a column reference.
pub fn entry_fits(entry: &Entry, width: usize) -> (r: bool)
    ensures
        r == row_fits(entry_view(entry@), width as nat),
{
    if entry.len() != width {
        return false;
    }
    let mut j: usize = 0;
    while j < entry.len()
        invariant
            0 <= j <= entry.len(),
            forall|k: int| 0 <= k < j ==> !(#[trigger] entry_view(entry@)[k] is Column),
        decreases entry.len() - j,
    {
        match &entry[j] {
            Value::Column(_) => {
                assert(entry_view(entry@)[j as int] is Column);
                return false;
            },
            _ => {},
        }
        j += 1;
    }
    true
}

impl Table {
    #[verifier::type_invariant]
    pub open(crate) spec fn inv(self) -> bool {
        &&& self.schema@.no_duplicates()
        &&& rows_fit(entries_view(self.entries@), self.schema@.len())
    }

    /// The relation the table stands for.
    pub open(crate) spec fn view(&self) -> Relation {
        Relation { columns: self.schema@, rows: entries_view(self.entries@) }
    }

    /// The table with the given column names and rows, unless a name occurs
    /// twice, a row has another number of cells than there are columns, or
    /// a cell is a column reference.
    pub fn new(columns: Vec<String>, entries: Vec<Entry>) -> (r: Option<Table>)
        ensures
            r is Some <==> (Relation {
                columns: names_view(columns@),
                rows: entries_view(entries@),
            }).wf(),
            r matches Some(t) ==> t@ == (Relation {
                columns: names_view(columns@),
                rows: entries_view(entries@),
            }),
    {
        let width = columns.len();
        let ghost names = names_view(columns@);
        let schema = match Schema::new(columns) {
            Some(s) => s,
            None => {
                return None;
            },
        };
        let mut i: usize = 0;
        while i < entries.len()
            invariant
                0 <= i <= entries.len(),
                width == names.len(),
                names == names_view(columns@),
                names.no_duplicates(),
                forall|k: int| 0 <= k < i ==> row_fits(#[trigger] entries_view(entries@)[k], width as nat),
            decreases entries.len() - i,
        {
            if !entry_fits(&entries[i], width) {
                assert(!row_fits(entries_view(entries@)[i as int], width as nat));
                return None;
            }
            i += 1;
        }
        Some(Table { schema, entries })
    }

    /// The schema.
    pub fn schema(&self) -> (r: &Schema)
        ensures
            r@ == self@.columns,
            self@.wf(),
    {
        proof {
            use_type_invariant(self);
        }
        &self.schema
    }

    /// The rows.
    pub fn entries(&self) -> (r: &Vec<Entry>)
        ensures
            entries_view(r@) == self@.rows,
            self@.wf(),
    {
        proof {
            use_type_invariant(self);
        }
        &self.entries
    }
}

/// A copy of a list of rows.
pub fn clone_entries(entries: &Vec<Entry>) -> (r: Vec<Entry>)
    ensures
        entries_view(r@) == entries_view(entries@),
{
    let mut out: Vec<Entry> = Vec::new();
    let mut i: usize = 0;
    while i < entries.len()
        invariant
            0 <= i <= entries.len(),
            entries_view(out@) == entries_view(entries@).take(i as int),
        decreases entries.len() - i,
    {
        let ghost before = entries_view(out@);
        out.push(clone_entry(&entries[i]));
        proof {
            assert(entries_view(out@) =~= before.push(entry_view(entries@[i as int]@)));
            assert(entries_view(out@) =~= entries_view(entries@).take(i + 1));
        }
        i += 1;
    }
    proof {
        assert(entries_view(entries@).take(entries.len() as int) =~= entries_view(entries@));
    }
    out
}

impl Clone for Table {
    fn clone(&self) -> (r: Self)
        ensures
            r@ == self@,
    {
        proof {
            use_type_invariant(self);
        }
        Table { schema: self.schema.clone(), entries: clone_entries(&self.entries) }
    }
}

/// The sources a list of named tables stands for.
pub open spec fn relations_view(relations: Seq<(String, Table)>) -> Sources {
    relations.map_values(|p: (String, Table)| (p.0@, p.1@))
}

impl Catalog {
    /// The named relations, oldest first.
    pub open(crate) spec fn view(&self) -> Sources {
        relations_view(self.relations@)
    }

    /// A catalog without relations.
    pub fn new() -> (r: Catalog)
        ensures
            r@ == Seq::<(Name, Relation)>::empty(),
    {
        let r = Catalog { relations: Vec::new() };
        proof {
            assert(r@ =~= Seq::<(Name, Relation)>::empty());
        }
        r
    }

    /// Makes `table` the relation called `name`.
    pub fn insert(&mut self, name: String, table: Table)
        ensures
            final(self)@ == old(self)@.push((name@, table@)),
    {
        let ghost before = self@;
        self.relations.push((name, table));
        proof {
            assert(self@ =~= before.push((name@, table@)));
        }
    }

    /// The relation called `name`.
    pub fn get(&self, name: &String) -> (r: Option<&Table>)
        ensures
            match r {
                Some(t) => find(self@, name@) == Some(t@) && t@.wf(),
                None => find(self@, name@) is None,
            },
    {
        let mut i: usize = self.relations.len();
        proof {
            assert(self@.take(i as int) =~= self@);
        }
        while i > 0
            invariant
                0 <= i <= self.relations.len(),
                find(self@, name@) == find(self@.take(i as int), name@),
            decreases i,
        {
            i -= 1;
            proof {
                assert(self@.take(i + 1).drop_last() =~= self@.take(i as int));
            }
            if self.relations[i].0 == *name {
                let t = &self.relations[i].1;
                proof {
                    use_type_invariant(t);
                }
                return Some(t);
            }
        }
        None
    }
}

} // verus!
