//! The rows of the state, configuration and application databases.

use vstd::prelude::*;
use crate::ord_map::{IdxMap, MapKey, OrdMap, StrMap};

verus! {

/// Names one table of a database.
pub type TableId = usize;

/// The fields of one row.
pub type Row = StrMap<String>;

/// What the fields of a row hold.
pub type Fields = Map<Seq<char>, Seq<char>>;

/// What the tables hold: the fields of each row, by table and key.
pub type DbState = Map<(TableId, Seq<char>), Fields>;

/// The fields of a row, none where the row is absent.
pub open spec fn fields_at(db: DbState, t: TableId, key: Seq<char>) -> Fields {
    if db.contains_key((t, key)) {
        db[(t, key)]
    } else {
        Map::empty()
    }
}

/// One field of a row.
pub open spec fn field_at(db: DbState, t: TableId, key: Seq<char>, field: Seq<char>) -> Option<Seq<char>> {
    if db.contains_key((t, key)) && db[(t, key)].contains_key(field) {
        Some(db[(t, key)][field])
    } else {
        None
    }
}

/// `fields` written to a row: the row's other fields stay.
pub open spec fn with_set(db: DbState, t: TableId, key: Seq<char>, fields: Fields) -> DbState {
    db.insert((t, key), fields_at(db, t, key).union_prefer_right(fields))
}

/// One field written to a row: the row's other fields stay.
pub open spec fn with_hset(db: DbState, t: TableId, key: Seq<char>, field: Seq<char>, value: Seq<char>) -> DbState {
    db.insert((t, key), fields_at(db, t, key).insert(field, value))
}

/// A row deleted.
pub open spec fn with_del(db: DbState, t: TableId, key: Seq<char>) -> DbState {
    db.remove((t, key))
}

/// The keys of the rows of a table.
pub open spec fn keys_of(db: DbState, t: TableId) -> Set<Seq<char>> {
    Set::new(|k: Seq<char>| db.contains_key((t, k)))
}

/// The tables, each a map from keys to rows.
pub struct Db {
    tables: IdxMap<StrMap<Row>>,
}

impl View for Db {
    type V = DbState;

    closed spec fn view(&self) -> DbState {
        Map::new(
            |tk: (TableId, Seq<char>)|
                self.tables@.contains_key(tk.0) && self.tables@[tk.0].contains_key(tk.1),
            |tk: (TableId, Seq<char>)| self.tables@[tk.0][tk.1],
        )
    }
}

impl Db {
    pub fn new() -> (r: Self)
        ensures
            r@ == DbState::empty(),
    {
        let r = Db { tables: OrdMap::new() };
        assert(r@ =~= DbState::empty());
        r
    }

    /// The row `key` of table `t`.
    pub fn get(&self, t: TableId, key: &str) -> (r: Option<&Row>)
        ensures
            match r {
                Some(row) => self@.contains_key((t, key@)) && row@ == self@[(t, key@)],
                None => !self@.contains_key((t, key@)),
            },
    {
        match self.tables.get(&t) {
            Some(rows) => rows.get_str(key),
            None => None,
        }
    }

    /// Whether table `t` has a row `key`.
    pub fn has_row(&self, t: TableId, key: &str) -> (r: bool)
        ensures
            r == self@.contains_key((t, key@)),
    {
        self.get(t, key).is_some()
    }

    /// One field of the row `key` of table `t`.
    pub fn hget(&self, t: TableId, key: &str, field: &str) -> (r: Option<String>)
        ensures
            r.deep_view() == field_at(self@, t, key@, field@),
    {
        match self.get(t, key) {
            Some(row) => match row.get_str(field) {
                Some(v) => Some(v.clone()),
                None => None,
            },
            None => None,
        }
    }

    /// How many rows table `t` has.
    pub fn get_size(&self, t: TableId) -> (r: usize)
        ensures
            r == keys_of(self@, t).len(),
    {
        match self.tables.get(&t) {
            Some(rows) => {
                let n: usize = rows.len();
                rows.recall_order();
                proof {
                    assert(keys_of(self@, t) =~= rows@.dom());
                    let keys = rows.keys();
                    assert forall|i: int, j: int| 0 <= i < j < keys.len() implies keys[i] != keys[j] by {
                        String::before_asym(keys[i], keys[j]);
                    }
                    assert(rows.keys().to_set() =~= rows@.dom());
                    rows.keys().unique_seq_to_set();
                }
                n
            },
            None => {
                assert(keys_of(self@, t) =~= Set::<Seq<char>>::empty());
                0
            },
        }
    }

    /// Takes the row `key` of table `t` out, or an empty one.
    fn take_row(&mut self, t: TableId, key: &str) -> (r: (StrMap<Row>, Row))
        ensures
            r.1@ == fields_at(old(self)@, t, key@),
            r.0@ == Map::new(
                |k: Seq<char>| k != key@ && old(self)@.contains_key((t, k)),
                |k: Seq<char>| old(self)@[(t, k)],
            ),
            final(self)@ == Map::new(
                |tk: (TableId, Seq<char>)| tk.0 != t && old(self)@.contains_key(tk),
                |tk: (TableId, Seq<char>)| old(self)@[tk],
            ),
    {
        let mut rows: StrMap<Row> = match self.tables.take(&t) {
            Some(rows) => rows,
            None => OrdMap::new(),
        };
        let row: Row = match rows.take(&key.to_owned()) {
            Some(row) => row,
            None => OrdMap::new(),
        };
        (rows, row)
    }

    /// Makes `rows` the rows of table `t`.
    fn put_rows(&mut self, t: TableId, rows: StrMap<Row>)
        ensures
            final(self)@ == Map::new(
                |tk: (TableId, Seq<char>)|
                    if tk.0 == t {
                        rows@.contains_key(tk.1)
                    } else {
                        old(self)@.contains_key(tk)
                    },
                |tk: (TableId, Seq<char>)|
                    if tk.0 == t {
                        rows@[tk.1]
                    } else {
                        old(self)@[tk]
                    },
            ),
    {
        self.tables.insert(t, rows);
    }

    /// Writes `fields` to the row `key` of table `t`; its other fields stay.
    pub fn set(&mut self, t: TableId, key: &str, fields: &Row)
        ensures
            final(self)@ == with_set(old(self)@, t, key@, fields@),
    {
        let (mut rows, mut row) = self.take_row(t, key);
        row.merge(fields);
        rows.insert(key.to_owned(), row);
        self.put_rows(t, rows);
        assert(self@ =~= with_set(old(self)@, t, key@, fields@));
    }

    /// Writes one field of the row `key` of table `t`; its other fields stay.
    pub fn hset(&mut self, t: TableId, key: &str, field: &str, value: &str)
        ensures
            final(self)@ == with_hset(old(self)@, t, key@, field@, value@),
    {
        let (mut rows, mut row) = self.take_row(t, key);
        row.insert(field.to_owned(), value.to_owned());
        rows.insert(key.to_owned(), row);
        self.put_rows(t, rows);
        assert(self@ =~= with_hset(old(self)@, t, key@, field@, value@));
    }

    /// Deletes the row `key` of table `t`.
    pub fn del(&mut self, t: TableId, key: &str)
        ensures
            final(self)@ == with_del(old(self)@, t, key@),
    {
        let (rows, _row) = self.take_row(t, key);
        self.put_rows(t, rows);
        assert(self@ =~= with_del(old(self)@, t, key@));
    }
}

/// What was written to a field is read back; every other field, of this row and
/// of the others, reads as before.
pub proof fn law_written_field_reads_back(
    db: DbState,
    t: TableId,
    key: Seq<char>,
    field: Seq<char>,
    value: Seq<char>,
    t2: TableId,
    key2: Seq<char>,
    field2: Seq<char>,
)
    ensures
        field_at(with_hset(db, t, key, field, value), t2, key2, field2) == if t2 == t && key2 == key
            && field2 == field {
            Some(value)
        } else {
            field_at(db, t2, key2, field2)
        },
{
}

/// The fields written to a row are read back; its other fields, and every other
/// row, read as before.
pub proof fn law_written_row_reads_back(
    db: DbState,
    t: TableId,
    key: Seq<char>,
    fields: Fields,
    t2: TableId,
    key2: Seq<char>,
    field2: Seq<char>,
)
    ensures
        field_at(with_set(db, t, key, fields), t2, key2, field2) == if t2 == t && key2 == key
            && fields.contains_key(field2) {
            Some(fields[field2])
        } else {
            field_at(db, t2, key2, field2)
        },
{
}

/// A deleted row is gone, and the others stay.
pub proof fn law_deleted_row_is_gone(db: DbState, t: TableId, key: Seq<char>, t2: TableId, key2: Seq<char>)
    ensures
        !with_del(db, t, key).contains_key((t, key)),
        (t2, key2) != (t, key) ==> fields_at(with_del(db, t, key), t2, key2) == fields_at(
            db,
            t2,
            key2,
        ),
{
}

/// A table has exactly the keys of its rows: a row that is written adds its key, and one
/// that is deleted takes it away.
pub proof fn law_table_has_the_keys_of_its_rows(db: DbState, t: TableId, key: Seq<char>, fields: Fields, t2: TableId)
    requires
        t2 != t,
    ensures
        keys_of(db, t).contains(key) == db.contains_key((t, key)),
        keys_of(with_set(db, t, key, fields), t) == keys_of(db, t).insert(key),
        keys_of(with_del(db, t, key), t) == keys_of(db, t).remove(key),
        keys_of(with_set(db, t, key, fields), t2) == keys_of(db, t2),
        keys_of(with_del(db, t, key), t2) == keys_of(db, t2),
{
}

} // verus!
