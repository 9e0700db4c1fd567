//! The change count and the times of each latched flag.

use vstd::prelude::*;
use vstd::string::*;
use crate::db::{field_at, fields_at, with_hset, with_set, Db, DbState, Fields, Row, TableId};
use crate::dom::utilities::db::{py_str, stamped, value_to_py_str, Beautifier, DbUtils};
use crate::ord_map::{among, ascending, lemma_among_all, lemma_among_step, MapKey};
use crate::text::{dec_int, i64_text, parse_i64, parse_signed, same, trim, trimmed};
use crate::value::{py_truthy, truthy, Dict, DictState, Val, Value};

verus! {

/// A value table of flags and the tables of their change counts and times.
pub struct FlagTables {
    pub value: TableId,
    pub change_count: TableId,
    pub set_time: TableId,
    pub clear_time: TableId,
}

/// `m` written to a row, where it holds anything.
pub open spec fn with_fields(db: DbState, t: TableId, key: Seq<char>, m: Fields) -> DbState {
    if m.dom() == Set::<Seq<char>>::empty() {
        db
    } else {
        with_set(db, t, key, m)
    }
}

/// Three rows written, the later over the earlier where they share a table.
pub open spec fn three_written(
    db: DbState,
    port: Seq<char>,
    ft: FlagTables,
    counts: Fields,
    sets: Fields,
    clears: Fields,
) -> DbState {
    with_fields(
        with_fields(with_fields(db, ft.change_count, port, counts), ft.set_time, port, sets),
        ft.clear_time,
        port,
        clears,
    )
}

/// Every flag of `keys` with the same text.
pub open spec fn all_to(keys: Set<Seq<char>>, text: Seq<char>) -> Fields {
    Map::new(|k: Seq<char>| keys.contains(k), |k: Seq<char>| text)
}

/// The metadata of flags seen for the first time: no change counted, and neither
/// set nor cleared yet.
pub open spec fn flags_initialized(db: DbState, port: Seq<char>, keys: Set<Seq<char>>, ft: FlagTables) -> DbState {
    three_written(db, port, ft, all_to(keys, "0"@), all_to(keys, "never"@), all_to(keys, "never"@))
}

/// The flag has a value, and it differs from the one that the row holds.
pub open spec fn transitioned(row: Fields, curr: DictState, k: Seq<char>) -> bool {
    &&& curr.contains_key(k)
    &&& trimmed(py_str(curr[k])) != "N/A"@
    &&& row.contains_key(k)
    &&& row[k] != py_str(curr[k])
}

/// One more than a count, from the least number on behind the greatest.
pub open spec fn next_count(n: int) -> int {
    if n == i64::MAX {
        i64::MIN as int
    } else {
        n + 1
    }
}

/// The change count that a row holds for a flag; zero where it holds none.
pub open spec fn count_in(row: Fields, k: Seq<char>) -> int {
    if row.contains_key(k) {
        match parse_signed(row[k]) {
            Some(n) => n,
            None => 0,
        }
    } else {
        0
    }
}

/// The new counts of the flags of `keys` that have transitioned.
pub open spec fn new_counts(row: Fields, counts: Fields, curr: DictState, keys: Set<Seq<char>>) -> Fields {
    Map::new(
        |k: Seq<char>| keys.contains(k) && transitioned(row, curr, k),
        |k: Seq<char>| dec_int(next_count(count_in(counts, k))),
    )
}

/// `time` for the flags of `keys` that have transitioned to `on`.
pub open spec fn new_times(row: Fields, curr: DictState, keys: Set<Seq<char>>, on: bool, time: Seq<char>) -> Fields {
    Map::new(
        |k: Seq<char>| keys.contains(k) && transitioned(row, curr, k) && truthy(curr[k]) == on,
        |k: Seq<char>| time,
    )
}

/// The metadata of the flags of `keys` against the row of their values: each that
/// has transitioned is counted and gets its time.
pub open spec fn flags_updated(
    db: DbState,
    port: Seq<char>,
    row: Fields,
    curr: DictState,
    keys: Set<Seq<char>>,
    time: Seq<char>,
    ft: FlagTables,
) -> DbState {
    if !db.contains_key((ft.change_count, port)) {
        db
    } else {
        three_written(
            db,
            port,
            ft,
            new_counts(row, db[(ft.change_count, port)], curr, keys),
            new_times(row, curr, keys, true, time),
            new_times(row, curr, keys, false, time),
        )
    }
}

/// The metadata after flags were read: initialized where the value row is absent,
/// else updated against it.
pub open spec fn flags_tracked(db: DbState, port: Seq<char>, curr: DictState, time: Seq<char>, ft: FlagTables) -> DbState {
    if db.contains_key((ft.value, port)) {
        flags_updated(db, port, db[(ft.value, port)], curr, curr.dom(), time, ft)
    } else {
        flags_initialized(db, port, curr.dom(), ft)
    }
}

proof fn lemma_three_written_both(
    db: DbState,
    port: Seq<char>,
    ft: FlagTables,
    counts: Fields,
    sets: Fields,
    clears: Fields,
    x: Seq<char>,
    n: Seq<char>,
    s: Seq<char>,
    c: Seq<char>,
)
    requires
        !counts.contains_key(x),
        !sets.contains_key(x),
        !clears.contains_key(x),
    ensures
        with_hset(
            with_hset(
                with_hset(
                    three_written(db, port, ft, counts, sets, clears),
                    ft.change_count,
                    port,
                    x,
                    n,
                ),
                ft.set_time,
                port,
                x,
                s,
            ),
            ft.clear_time,
            port,
            x,
            c,
        ) == three_written(db, port, ft, counts.insert(x, n), sets.insert(x, s), clears.insert(x, c)),
{
    let a = with_hset(
        with_hset(
            with_hset(three_written(db, port, ft, counts, sets, clears), ft.change_count, port, x, n),
            ft.set_time,
            port,
            x,
            s,
        ),
        ft.clear_time,
        port,
        x,
        c,
    );
    let b = three_written(db, port, ft, counts.insert(x, n), sets.insert(x, s), clears.insert(x, c));
    assert(counts.insert(x, n).dom().contains(x));
    assert(sets.insert(x, s).dom().contains(x));
    assert(clears.insert(x, c).dom().contains(x));
    assert forall|tk: (TableId, Seq<char>)| #[trigger] a.contains_key(tk) == b.contains_key(tk) by {}
    assert forall|tk: (TableId, Seq<char>)| a.contains_key(tk) implies #[trigger] a[tk] == b[tk] by {
        assert(a[tk] =~= b[tk]);
    }
    assert(a =~= b);
}

proof fn lemma_three_written_set(
    db: DbState,
    port: Seq<char>,
    ft: FlagTables,
    counts: Fields,
    sets: Fields,
    clears: Fields,
    x: Seq<char>,
    n: Seq<char>,
    s: Seq<char>,
)
    requires
        !counts.contains_key(x),
        !sets.contains_key(x),
        !clears.contains_key(x),
    ensures
        with_hset(
            with_hset(three_written(db, port, ft, counts, sets, clears), ft.change_count, port, x, n),
            ft.set_time,
            port,
            x,
            s,
        ) == three_written(db, port, ft, counts.insert(x, n), sets.insert(x, s), clears),
{
    let a = with_hset(
        with_hset(three_written(db, port, ft, counts, sets, clears), ft.change_count, port, x, n),
        ft.set_time,
        port,
        x,
        s,
    );
    let b = three_written(db, port, ft, counts.insert(x, n), sets.insert(x, s), clears);
    assert(counts.insert(x, n).dom().contains(x));
    assert(sets.insert(x, s).dom().contains(x));
    assert forall|tk: (TableId, Seq<char>)| #[trigger] a.contains_key(tk) == b.contains_key(tk) by {}
    assert forall|tk: (TableId, Seq<char>)| a.contains_key(tk) implies #[trigger] a[tk] == b[tk] by {
        assert(a[tk] =~= b[tk]);
    }
    assert(a =~= b);
}

proof fn lemma_three_written_clear(
    db: DbState,
    port: Seq<char>,
    ft: FlagTables,
    counts: Fields,
    sets: Fields,
    clears: Fields,
    x: Seq<char>,
    n: Seq<char>,
    c: Seq<char>,
)
    requires
        !counts.contains_key(x),
        !sets.contains_key(x),
        !clears.contains_key(x),
    ensures
        with_hset(
            with_hset(three_written(db, port, ft, counts, sets, clears), ft.change_count, port, x, n),
            ft.clear_time,
            port,
            x,
            c,
        ) == three_written(db, port, ft, counts.insert(x, n), sets, clears.insert(x, c)),
{
    let a = with_hset(
        with_hset(three_written(db, port, ft, counts, sets, clears), ft.change_count, port, x, n),
        ft.clear_time,
        port,
        x,
        c,
    );
    let b = three_written(db, port, ft, counts.insert(x, n), sets, clears.insert(x, c));
    assert(counts.insert(x, n).dom().contains(x));
    assert(clears.insert(x, c).dom().contains(x));
    assert forall|tk: (TableId, Seq<char>)| #[trigger] a.contains_key(tk) == b.contains_key(tk) by {}
    assert forall|tk: (TableId, Seq<char>)| a.contains_key(tk) implies #[trigger] a[tk] == b[tk] by {
        assert(a[tk] =~= b[tk]);
    }
    assert(a =~= b);
}

/// The names among the first `n` keys.
pub open spec fn first_keys(keys: Seq<Seq<char>>, n: int) -> Set<Seq<char>> {
    Set::new(|k: Seq<char>| among(keys, n, k))
}

proof fn lemma_first_keys_step(keys: Seq<Seq<char>>, i: int)
    requires
        ascending::<String>(keys),
        0 <= i < keys.len(),
    ensures
        !first_keys(keys, i).contains(keys[i]),
        first_keys(keys, i + 1) == first_keys(keys, i).insert(keys[i]),
{
    if among(keys, i, keys[i]) {
        let j = choose|j: int| 0 <= j < i && #[trigger] keys[j] == keys[i];
        assert(String::before(keys[j], keys[i]));
        String::before_asym(keys[j], keys[i]);
    }
    lemma_among_step(keys, i);
    assert(first_keys(keys, i + 1) =~= first_keys(keys, i).insert(keys[i]));
}

proof fn lemma_no_keys(db: DbState, port: Seq<char>, row: Fields, curr: DictState, time: Seq<char>, ft: FlagTables, keys: Seq<Seq<char>>)
    ensures
        flags_initialized(db, port, first_keys(keys, 0), ft) == db,
        flags_updated(db, port, row, curr, first_keys(keys, 0), time, ft) == db,
{
    let none = Set::<Seq<char>>::empty();
    let k = first_keys(keys, 0);
    assert(k =~= none);
    assert(all_to(k, "0"@).dom() =~= none);
    assert(all_to(k, "never"@).dom() =~= none);
    let counts = db[(ft.change_count, port)];
    assert(new_counts(row, counts, curr, k).dom() =~= none);
    assert(new_times(row, curr, k, true, time).dom() =~= none);
    assert(new_times(row, curr, k, false, time).dom() =~= none);
}

proof fn lemma_initialized_step(db: DbState, port: Seq<char>, keys: Set<Seq<char>>, x: Seq<char>, ft: FlagTables)
    requires
        !keys.contains(x),
    ensures
        with_hset(
            with_hset(
                with_hset(flags_initialized(db, port, keys, ft), ft.change_count, port, x, "0"@),
                ft.set_time,
                port,
                x,
                "never"@,
            ),
            ft.clear_time,
            port,
            x,
            "never"@,
        ) == flags_initialized(db, port, keys.insert(x), ft),
{
    let a = all_to(keys, "0"@);
    let b = all_to(keys, "never"@);
    lemma_three_written_both(db, port, ft, a, b, b, x, "0"@, "never"@, "never"@);
    assert(all_to(keys.insert(x), "0"@) =~= a.insert(x, "0"@));
    assert(all_to(keys.insert(x), "never"@) =~= b.insert(x, "never"@));
}

proof fn lemma_updated_step(
    db: DbState,
    port: Seq<char>,
    row: Fields,
    curr: DictState,
    keys: Set<Seq<char>>,
    x: Seq<char>,
    time: Seq<char>,
    ft: FlagTables,
)
    requires
        !keys.contains(x),
    ensures
        ({
            let w = flags_updated(db, port, row, curr, keys, time, ft);
            flags_updated(db, port, row, curr, keys.insert(x), time, ft) == if transitioned(row, curr, x) {
                flag_counted(w, port, x, curr[x], time, ft)
            } else {
                w
            }
        }),
{
    if db.contains_key((ft.change_count, port)) {
        let counts = db[(ft.change_count, port)];
        let n = new_counts(row, counts, curr, keys);
        let s = new_times(row, curr, keys, true, time);
        let c = new_times(row, curr, keys, false, time);
        let w = three_written(db, port, ft, n, s, c);
        let ks = keys.insert(x);
        if transitioned(row, curr, x) {
            assert(w.contains_key((ft.change_count, port)));
            assert(count_in(w[(ft.change_count, port)], x) == count_in(counts, x));
            let t = dec_int(next_count(count_in(counts, x)));
            assert(new_counts(row, counts, curr, ks) =~= n.insert(x, t));
            if truthy(curr[x]) {
                lemma_three_written_set(db, port, ft, n, s, c, x, t, time);
                assert(new_times(row, curr, ks, true, time) =~= s.insert(x, time));
                assert(new_times(row, curr, ks, false, time) =~= c);
            } else {
                lemma_three_written_clear(db, port, ft, n, s, c, x, t, time);
                assert(new_times(row, curr, ks, true, time) =~= s);
                assert(new_times(row, curr, ks, false, time) =~= c.insert(x, time));
            }
        } else {
            assert(new_counts(row, counts, curr, ks) =~= n);
            assert(new_times(row, curr, ks, true, time) =~= s);
            assert(new_times(row, curr, ks, false, time) =~= c);
        }
    } else if transitioned(row, curr, x) {
    }
}

/// One transition of a flag counted and timed, where the port has counts.
pub open spec fn flag_counted(db: DbState, port: Seq<char>, k: Seq<char>, v: Val, time: Seq<char>, ft: FlagTables) -> DbState {
    if !db.contains_key((ft.change_count, port)) {
        db
    } else {
        let counted = with_hset(
            db,
            ft.change_count,
            port,
            k,
            dec_int(next_count(count_in(db[(ft.change_count, port)], k))),
        );
        with_hset(
            counted,
            if truthy(v) {
                ft.set_time
            } else {
                ft.clear_time
            },
            port,
            k,
            time,
        )
    }
}

impl DbUtils {
    /// Compares freshly read flags with the row of their values and keeps their
    /// change counts and times.
    pub fn update_flag_metadata_tables(
        &self,
        logical_port_name: &str,
        curr_flag_dict: &Dict,
        flag_values_dict_update_time: &str,
        db: &mut Db,
        flag_value_table: TableId,
        flag_change_count_table: TableId,
        flag_last_set_time_table: TableId,
        flag_last_clear_time_table: TableId,
    )
        ensures
            final(db)@ == flags_tracked(
                old(db)@,
                logical_port_name@,
                curr_flag_dict@,
                flag_values_dict_update_time@,
                (FlagTables {
                    value: flag_value_table,
                    change_count: flag_change_count_table,
                    set_time: flag_last_set_time_table,
                    clear_time: flag_last_clear_time_table,
                }),
            ),
    {
        let ft = FlagTables {
            value: flag_value_table,
            change_count: flag_change_count_table,
            set_time: flag_last_set_time_table,
            clear_time: flag_last_clear_time_table,
        };
        let row: Row = match db.get(flag_value_table, logical_port_name) {
            None => {
                self.initialize_metadata_tables(logical_port_name, curr_flag_dict, db, &ft);
                return ;
            },
            Some(row) => row.copy(),
        };
        let ghost before = db@;
        let ghost keys = curr_flag_dict.keys();
        curr_flag_dict.recall_order();
        let n: usize = curr_flag_dict.len();
        let mut i: usize = 0;
        proof {
            lemma_no_keys(
                before,
                logical_port_name@,
                row@,
                curr_flag_dict@,
                flag_values_dict_update_time@,
                ft,
                keys,
            );
        }
        while i < n
            invariant
                i <= n,
                n == keys.len(),
                keys == curr_flag_dict.keys(),
                ascending::<String>(keys),
                db@ == flags_updated(
                    before,
                    logical_port_name@,
                    row@,
                    curr_flag_dict@,
                    first_keys(keys, i as int),
                    flag_values_dict_update_time@,
                    ft,
                ),
            decreases n - i,
        {
            let flag_key = curr_flag_dict.key_at(i);
            let curr_flag_value = curr_flag_dict.value_at(i);
            proof {
                lemma_first_keys_step(keys, i as int);
                lemma_updated_step(
                    before,
                    logical_port_name@,
                    row@,
                    curr_flag_dict@,
                    first_keys(keys, i as int),
                    flag_key@,
                    flag_values_dict_update_time@,
                    ft,
                );
            }
            let curr_str = value_to_py_str(curr_flag_value);
            if !same(trim(curr_str.as_str()).as_str(), "N/A") {
                if let Some(db_val) = row.get(flag_key) {
                    if *db_val != curr_str {
                        self.update_flag_metadata(
                            logical_port_name,
                            flag_key.as_str(),
                            curr_flag_value,
                            flag_values_dict_update_time,
                            db,
                            &ft,
                        );
                    }
                }
            }
            i = i + 1;
        }
        proof {
            lemma_among_all(keys, curr_flag_dict@.dom());
            assert(first_keys(keys, n as int) =~= curr_flag_dict@.dom());
        }
    }

    fn initialize_metadata_tables(&self, logical_port_name: &str, curr_flag_dict: &Dict, db: &mut Db, ft: &FlagTables)
        ensures
            final(db)@ == flags_initialized(old(db)@, logical_port_name@, curr_flag_dict@.dom(), *ft),
    {
        let ghost before = db@;
        let ghost keys = curr_flag_dict.keys();
        curr_flag_dict.recall_order();
        let n: usize = curr_flag_dict.len();
        let mut i: usize = 0;
        proof {
            lemma_no_keys(before, logical_port_name@, Map::empty(), Map::empty(), Seq::empty(), *ft, keys);
        }
        while i < n
            invariant
                i <= n,
                n == keys.len(),
                keys == curr_flag_dict.keys(),
                ascending::<String>(keys),
                db@ == flags_initialized(before, logical_port_name@, first_keys(keys, i as int), *ft),
            decreases n - i,
        {
            let key = curr_flag_dict.key_at(i);
            proof {
                lemma_first_keys_step(keys, i as int);
                lemma_initialized_step(
                    before,
                    logical_port_name@,
                    first_keys(keys, i as int),
                    key@,
                    *ft,
                );
            }
            db.hset(ft.change_count, logical_port_name, key.as_str(), "0");
            db.hset(ft.set_time, logical_port_name, key.as_str(), DbUtils::NEVER);
            db.hset(ft.clear_time, logical_port_name, key.as_str(), DbUtils::NEVER);
            i = i + 1;
        }
        proof {
            lemma_among_all(keys, curr_flag_dict@.dom());
            assert(first_keys(keys, n as int) =~= curr_flag_dict@.dom());
        }
    }

    fn update_flag_metadata(
        &self,
        logical_port_name: &str,
        flag_key: &str,
        curr_flag_value: &Value,
        flag_values_dict_update_time: &str,
        db: &mut Db,
        ft: &FlagTables,
    )
        ensures
            final(db)@ == flag_counted(
                old(db)@,
                logical_port_name@,
                flag_key@,
                curr_flag_value@,
                flag_values_dict_update_time@,
                *ft,
            ),
    {
        let count: i64 = match db.get(ft.change_count, logical_port_name) {
            None => {
                return ;
            },
            Some(row) => match row.get_str(flag_key) {
                Some(s) => match parse_i64(s.as_str()) {
                    Some(n) => n,
                    None => 0,
                },
                None => 0,
            },
        };
        let next: i64 = if count == i64::MAX {
            i64::MIN
        } else {
            count + 1
        };
        db.hset(ft.change_count, logical_port_name, flag_key, i64_text(next).as_str());
        if py_truthy(curr_flag_value) {
            db.hset(ft.set_time, logical_port_name, flag_key, flag_values_dict_update_time);
        } else {
            db.hset(ft.clear_time, logical_port_name, flag_key, flag_values_dict_update_time);
        }
    }
}

impl FlagTables {
    /// The four tables are four.
    pub open spec fn distinct(&self) -> bool {
        &&& self.value != self.change_count
        &&& self.value != self.set_time
        &&& self.value != self.clear_time
        &&& self.change_count != self.set_time
        &&& self.change_count != self.clear_time
        &&& self.set_time != self.clear_time
    }
}

/// A flag that is seen for the first time has changed no times, and was neither
/// set nor cleared.
pub proof fn law_first_flags_have_no_history(
    db: DbState,
    port: Seq<char>,
    curr: DictState,
    time: Seq<char>,
    ft: FlagTables,
    k: Seq<char>,
)
    requires
        ft.distinct(),
        !db.contains_key((ft.value, port)),
        curr.contains_key(k),
    ensures
        ({
            let after = flags_tracked(db, port, curr, time, ft);
            &&& field_at(after, ft.change_count, port, k) == Some("0"@)
            &&& field_at(after, ft.set_time, port, k) == Some("never"@)
            &&& field_at(after, ft.clear_time, port, k) == Some("never"@)
        }),
{
    assert(all_to(curr.dom(), "0"@).dom().contains(k));
    assert(all_to(curr.dom(), "never"@).dom().contains(k));
}

/// Flags that have not changed leave everything as it was.
pub proof fn law_steady_flags_keep_their_history(
    db: DbState,
    port: Seq<char>,
    curr: DictState,
    time: Seq<char>,
    ft: FlagTables,
)
    requires
        db.contains_key((ft.value, port)),
        forall|k: Seq<char>| !transitioned(db[(ft.value, port)], curr, k),
    ensures
        flags_tracked(db, port, curr, time, ft) == db,
{
    let row = db[(ft.value, port)];
    let none = Set::<Seq<char>>::empty();
    assert(new_counts(row, db[(ft.change_count, port)], curr, curr.dom()).dom() =~= none);
    assert(new_times(row, curr, curr.dom(), true, time).dom() =~= none);
    assert(new_times(row, curr, curr.dom(), false, time).dom() =~= none);
}

/// A flag that was posted and is read again with the same value has not changed:
/// posting it twice counts it once, however the row shows its values, as long as it
/// shows a flag by its text.
pub proof fn law_posted_flags_are_steady(
    db: DbState,
    port: Seq<char>,
    curr: DictState,
    kind: Beautifier,
    now: u64,
    time: Seq<char>,
    ft: FlagTables,
)
    requires
        forall|k: Seq<char>| #[trigger]
            curr.contains_key(k) ==> stamped(kind, curr, now)[k] == py_str(curr[k]) || trimmed(
                py_str(curr[k]),
            ) == "N/A"@,
    ensures
        ({
            let posted = with_set(db, ft.value, port, stamped(kind, curr, now));
            flags_tracked(posted, port, curr, time, ft) == posted
        }),
{
    let posted = with_set(db, ft.value, port, stamped(kind, curr, now));
    law_steady_flags_keep_their_history(posted, port, curr, time, ft);
}

/// Every flag that is no string is shown by its text, so posting such flags twice
/// counts them once.
pub proof fn law_flags_without_units_are_steady(
    db: DbState,
    port: Seq<char>,
    curr: DictState,
    kind: Beautifier,
    now: u64,
    time: Seq<char>,
    ft: FlagTables,
)
    requires
        !curr.contains_key("last_update_time"@),
        forall|k: Seq<char>| #[trigger] curr.contains_key(k) ==> !(curr[k] is Text),
    ensures
        ({
            let posted = with_set(db, ft.value, port, stamped(kind, curr, now));
            flags_tracked(posted, port, curr, time, ft) == posted
        }),
{
    law_posted_flags_are_steady(db, port, curr, kind, now, time, ft);
}

/// A flag that changes is counted once more and gets the time in the table of its
/// new value; the time in the other table stays.
pub proof fn law_changed_flag_is_counted_and_timed(
    db: DbState,
    port: Seq<char>,
    curr: DictState,
    time: Seq<char>,
    ft: FlagTables,
    k: Seq<char>,
)
    requires
        ft.distinct(),
        db.contains_key((ft.value, port)),
        db.contains_key((ft.change_count, port)),
        transitioned(db[(ft.value, port)], curr, k),
    ensures
        ({
            let after = flags_tracked(db, port, curr, time, ft);
            let (hit, other) = if truthy(curr[k]) {
                (ft.set_time, ft.clear_time)
            } else {
                (ft.clear_time, ft.set_time)
            };
            &&& field_at(after, ft.change_count, port, k) == Some(
                dec_int(next_count(count_in(db[(ft.change_count, port)], k))),
            )
            &&& field_at(after, hit, port, k) == Some(time)
            &&& field_at(after, other, port, k) == field_at(db, other, port, k)
        }),
{
    let row = db[(ft.value, port)];
    let on = truthy(curr[k]);
    assert(new_counts(row, db[(ft.change_count, port)], curr, curr.dom()).dom().contains(k));
    assert(new_times(row, curr, curr.dom(), on, time).dom().contains(k));
    assert(!new_times(row, curr, curr.dom(), !on, time).dom().contains(k));
}

/// A value that is not available is no change: the metadata of the flag stays.
pub proof fn law_unavailable_flag_is_no_change(
    db: DbState,
    port: Seq<char>,
    curr: DictState,
    time: Seq<char>,
    ft: FlagTables,
    k: Seq<char>,
    t: TableId,
)
    requires
        db.contains_key((ft.value, port)),
        curr.contains_key(k),
        trimmed(py_str(curr[k])) == "N/A"@,
    ensures
        field_at(flags_tracked(db, port, curr, time, ft), t, port, k) == field_at(db, t, port, k),
{
}

/// Keeping the metadata of a port's flags touches the three rows of the port and
/// no other row.
pub proof fn law_flag_history_is_all_that_changes(
    db: DbState,
    port: Seq<char>,
    curr: DictState,
    time: Seq<char>,
    ft: FlagTables,
    t: TableId,
    key: Seq<char>,
)
    requires
        key != port || (t != ft.change_count && t != ft.set_time && t != ft.clear_time),
    ensures
        flags_tracked(db, port, curr, time, ft).contains_key((t, key)) == db.contains_key((t, key)),
        fields_at(flags_tracked(db, port, curr, time, ft), t, key) == fields_at(db, t, key),
{
}

} // verus!
