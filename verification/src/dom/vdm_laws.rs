//! Where the thresholds and flags of each kind are published.

use vstd::prelude::*;
use vstd::string::*;
use crate::clock::utc_text;
use crate::db::{field_at, fields_at, DbState, TableId};
use crate::dom::history_laws::{history_kept, law_flag_history_is_kept};
use crate::dom::monitor_laws::plugged;
use crate::dom::utilities::db::py_str;
use crate::dom::utilities::flags::{law_flag_history_is_all_that_changes, FlagTables};
use crate::dom::utilities::vdm::{
    real_values_posted, type_posted, type_suffix, type_tracked, typed, typed_upto, types_posted, types_tracked,
    vdm_flags_posted, vdm_thresholds_posted, VdmFlagTables, VdmTables, VdmThresholdTables,
};
use crate::error::XcvrdError;
use crate::hal::Hal;
use crate::text::{holds_text, stands_at, without};
use crate::text_laws::law_leaving_out_joins_the_rest;
use crate::value::{Dict, DictState, Reply, Val};
use crate::xcvrd_utilities::port_event_helper::Mapping;
use crate::xcvrd_utilities::xcvr_table_helper::VdmType;

verus! {

/// What marks the names of the four kinds: high alarms, low alarms, high warnings and
/// low warnings.
pub open spec fn marks() -> Seq<Seq<char>> {
    seq!["_halarm"@, "_lalarm"@, "_hwarn"@, "_lwarn"@]
}

/// The tables of the four kinds, in the order of their marks.
pub open spec fn tables_by_kind(t: VdmTables) -> Seq<TableId> {
    seq![t.halarm, t.lalarm, t.hwarn, t.lwarn]
}

/// The flag tables of the four kinds, in the order of their marks.
pub open spec fn history_by_kind(t: VdmFlagTables) -> Seq<FlagTables> {
    seq![
        FlagTables {
            value: t.flag.halarm,
            change_count: t.change_count.halarm,
            set_time: t.set_time.halarm,
            clear_time: t.clear_time.halarm,
        },
        FlagTables {
            value: t.flag.lalarm,
            change_count: t.change_count.lalarm,
            set_time: t.set_time.lalarm,
            clear_time: t.clear_time.lalarm,
        },
        FlagTables {
            value: t.flag.hwarn,
            change_count: t.change_count.hwarn,
            set_time: t.set_time.hwarn,
            clear_time: t.clear_time.hwarn,
        },
        FlagTables {
            value: t.flag.lwarn,
            change_count: t.change_count.lwarn,
            set_time: t.set_time.lwarn,
            clear_time: t.clear_time.lwarn,
        },
    ]
}

/// The four kinds, in the order of their marks.
spec fn kinds() -> Seq<VdmType> {
    seq![VdmType::Halarm, VdmType::Lalarm, VdmType::Hwarn, VdmType::Lwarn]
}

/// Among `names` stands `a`, the mark and `b`, with the mark only there, and no other
/// name that leaves `a` and `b` without the mark.
pub open spec fn names_entry(names: Seq<Seq<char>>, mark: Seq<char>, a: Seq<char>, b: Seq<char>) -> bool {
    &&& names.contains(a + mark + b)
    &&& forall|j: int| #[trigger] stands_at(a + mark + b, mark, j) ==> j == a.len()
    &&& forall|k: Seq<char>| #[trigger]
        names.contains(k) && holds_text(k, mark) && without(k, mark) == a + b ==> k == a + mark + b
}

proof fn lemma_suffix(i: int)
    requires
        0 <= i < 4,
    ensures
        type_suffix(kinds()[i]) == marks()[i],
        marks()[i].len() > 0,
{
    reveal_strlit("_");
    reveal_strlit("halarm");
    reveal_strlit("lalarm");
    reveal_strlit("hwarn");
    reveal_strlit("lwarn");
    reveal_strlit("_halarm");
    reveal_strlit("_lalarm");
    reveal_strlit("_hwarn");
    reveal_strlit("_lwarn");
    assert("_"@ + "halarm"@ =~= "_halarm"@);
    assert("_"@ + "lalarm"@ =~= "_lalarm"@);
    assert("_"@ + "hwarn"@ =~= "_hwarn"@);
    assert("_"@ + "lwarn"@ =~= "_lwarn"@);
}

proof fn lemma_entry(names: Seq<Seq<char>>, d: DictState, mark: Seq<char>, a: Seq<char>, b: Seq<char>, n: int)
    requires
        mark.len() > 0,
        names_entry(names, mark, a, b),
        0 <= n <= names.len(),
    ensures
        ({
            let t = typed_upto(names, d, mark, n);
            &&& t.contains_key(a + b) ==> t[a + b] == d[a + mark + b]
            &&& forall|j: int| 0 <= j < n && #[trigger] names[j] == a + mark + b ==> t.contains_key(a + b)
        }),
    decreases n,
{
    law_leaving_out_joins_the_rest(a, mark, b, a);
    if n > 0 {
        lemma_entry(names, d, mark, a, b, n - 1);
        let k = names[n - 1];
        assert(names.contains(k));
    }
}

proof fn lemma_typed(d: Dict, i: int, a: Seq<char>, b: Seq<char>)
    requires
        0 <= i < 4,
        names_entry(d.keys(), marks()[i], a, b),
    ensures
        ({
            let t = typed(Ok(Reply::Object(d)), kinds()[i]);
            t.contains_key(a + b) && t[a + b] == d@[a + marks()[i] + b]
        }),
{
    lemma_suffix(i);
    let names = d.keys();
    lemma_entry(names, d@, marks()[i], a, b, names.len() as int);
    let j = choose|j: int| 0 <= j < names.len() && #[trigger] names[j] == a + marks()[i] + b;
    assert(names[j] == a + marks()[i] + b);
}

proof fn lemma_posted(db: DbState, port: Seq<char>, d: DictState, t: TableId, now: u64, k: Seq<char>, u: TableId)
    ensures
        ({
            let after = type_posted(db, port, d, t, now);
            &&& d.contains_key(k) && k != "last_update_time"@ ==> field_at(after, t, port, k) == Some(py_str(d[k]))
            &&& d.contains_key(k) ==> field_at(after, t, port, "last_update_time"@) == Some(utc_text(now))
            &&& u != t ==> fields_at(after, u, port) == fields_at(db, u, port) && after.contains_key((u, port))
                == db.contains_key((u, port))
        }),
{
    if d.contains_key(k) {
        assert(d.dom().contains(k));
    }
}

proof fn lemma_types_posted(
    db: DbState,
    port: Seq<char>,
    d: Dict,
    tables: VdmTables,
    now: u64,
    i: int,
    a: Seq<char>,
    b: Seq<char>,
)
    requires
        0 <= i < 4,
        tables_by_kind(tables).no_duplicates(),
        names_entry(d.keys(), marks()[i], a, b),
    ensures
        ({
            let after = types_posted(db, port, Ok(Reply::Object(d)), tables, now);
            let t = tables_by_kind(tables)[i];
            &&& a + b != "last_update_time"@ ==> field_at(after, t, port, a + b) == Some(
                py_str(d@[a + marks()[i] + b]),
            )
            &&& field_at(after, t, port, "last_update_time"@) == Some(utc_text(now))
        }),
{
    lemma_typed(d, i, a, b);
    let r = Ok(Reply::Object(d));
    let ts = tables_by_kind(tables);
    assert(ts[0] != ts[1] && ts[0] != ts[2] && ts[0] != ts[3] && ts[1] != ts[2] && ts[1] != ts[3] && ts[2] != ts[3]);
    let u = ts[i];
    let d1 = type_posted(db, port, typed(r, VdmType::Halarm), tables.halarm, now);
    let d2 = type_posted(d1, port, typed(r, VdmType::Lalarm), tables.lalarm, now);
    let d3 = type_posted(d2, port, typed(r, VdmType::Hwarn), tables.hwarn, now);
    lemma_posted(db, port, typed(r, VdmType::Halarm), tables.halarm, now, a + b, u);
    lemma_posted(d1, port, typed(r, VdmType::Lalarm), tables.lalarm, now, a + b, u);
    lemma_posted(d2, port, typed(r, VdmType::Hwarn), tables.hwarn, now, a + b, u);
    lemma_posted(d3, port, typed(r, VdmType::Lwarn), tables.lwarn, now, a + b, u);
}

/// The threshold of every kind is published in the table of that very kind: an entry
/// whose name holds the mark of a kind is found in the row of the port in the table of
/// the kind, under its name without the mark and with the text of its value.
pub proof fn law_thresholds_go_to_the_table_of_their_kind(
    db: DbState,
    m: Mapping,
    hal: &Hal,
    port: Seq<char>,
    p: usize,
    tables: VdmThresholdTables,
    now: u64,
    d: Dict,
    i: int,
    a: Seq<char>,
    b: Seq<char>,
)
    requires
        plugged(m, hal, port, p),
        hal.sfps@[p as int].vdm_thresholds == Ok::<Reply, XcvrdError>(Reply::Object(d)),
        tables_by_kind(tables.thresholds).no_duplicates(),
        0 <= i < 4,
        names_entry(d.keys(), marks()[i], a, b),
    ensures
        ({
            let after = vdm_thresholds_posted(db, false, m, hal, port, tables, now);
            let t = tables_by_kind(tables.thresholds)[i];
            &&& a + b != "last_update_time"@ ==> field_at(after, t, port, a + b) == Some(
                py_str(d@[a + marks()[i] + b]),
            )
            &&& field_at(after, t, port, "last_update_time"@) == Some(utc_text(now))
        }),
{
    lemma_types_posted(db, port, d, tables.thresholds, now, i, a, b);
}

/// The flag of every kind is published in the table of that very kind, under its name
/// without the mark of the kind and with the text of its value.
pub proof fn law_flags_go_to_the_table_of_their_kind(
    db: DbState,
    m: Mapping,
    hal: &Hal,
    port: Seq<char>,
    p: usize,
    tables: VdmFlagTables,
    now: u64,
    d: Dict,
    i: int,
    a: Seq<char>,
    b: Seq<char>,
)
    requires
        plugged(m, hal, port, p),
        hal.sfps@[p as int].vdm_flags == Ok::<Reply, XcvrdError>(Reply::Object(d)),
        tables_by_kind(tables.flag).no_duplicates(),
        0 <= i < 4,
        names_entry(d.keys(), marks()[i], a, b),
    ensures
        ({
            let after = vdm_flags_posted(db, false, m, hal, port, tables, now);
            let t = tables_by_kind(tables.flag)[i];
            &&& a + b != "last_update_time"@ ==> field_at(after, t, port, a + b) == Some(
                py_str(d@[a + marks()[i] + b]),
            )
            &&& field_at(after, t, port, "last_update_time"@) == Some(utc_text(now))
        }),
{
    let r = hal.sfps@[p as int].vdm_flags;
    lemma_types_posted(types_tracked(db, port, r, tables, now), port, d, tables.flag, now, i, a, b);
}

/// The four tables of one kind hold the same rows of the port in both.
spec fn same_rows(a: DbState, b: DbState, ft: FlagTables, port: Seq<char>) -> bool {
    &&& same_row(a, b, ft.value, port)
    &&& same_row(a, b, ft.change_count, port)
    &&& same_row(a, b, ft.set_time, port)
    &&& same_row(a, b, ft.clear_time, port)
}

spec fn same_row(a: DbState, b: DbState, t: TableId, port: Seq<char>) -> bool {
    a.contains_key((t, port)) == b.contains_key((t, port)) && fields_at(a, t, port) == fields_at(b, t, port)
}

/// The tables of one kind are none of those of the other.
pub open spec fn kinds_apart(x: FlagTables, y: FlagTables) -> bool {
    &&& x.value != y.value && x.value != y.change_count && x.value != y.set_time && x.value != y.clear_time
    &&& x.change_count != y.value && x.change_count != y.change_count && x.change_count != y.set_time
        && x.change_count != y.clear_time
    &&& x.set_time != y.value && x.set_time != y.change_count && x.set_time != y.set_time && x.set_time
        != y.clear_time
    &&& x.clear_time != y.value && x.clear_time != y.change_count && x.clear_time != y.set_time && x.clear_time
        != y.clear_time
}

proof fn lemma_other_kind(db: DbState, port: Seq<char>, d: DictState, x: FlagTables, y: FlagTables, now: u64)
    requires
        kinds_apart(x, y),
    ensures
        same_rows(db, type_tracked(db, port, d, y, now), x, port),
        same_rows(db, type_posted(db, port, d, y.value, now), x, port),
{
    law_flag_history_is_all_that_changes(db, port, d, utc_text(now), y, x.value, port);
    law_flag_history_is_all_that_changes(db, port, d, utc_text(now), y, x.change_count, port);
    law_flag_history_is_all_that_changes(db, port, d, utc_text(now), y, x.set_time, port);
    law_flag_history_is_all_that_changes(db, port, d, utc_text(now), y, x.clear_time, port);
}

proof fn lemma_own_kind(
    start: DbState,
    before: DbState,
    port: Seq<char>,
    d: DictState,
    x: FlagTables,
    now: u64,
    k: Seq<char>,
    count: int,
)
    requires
        x.distinct(),
        same_rows(start, before, x, port),
        d.contains_key(k),
    ensures
        history_kept(start, type_tracked(before, port, d, x, now), x, port, k, d[k], count, utc_text(now)),
{
    assert(d.dom().contains(k));
    law_flag_history_is_kept(before, port, d, utc_text(now), x, k, count);
}

proof fn lemma_history_stays(
    start: DbState,
    a: DbState,
    b: DbState,
    port: Seq<char>,
    x: FlagTables,
    k: Seq<char>,
    v: Val,
    count: int,
    time: Seq<char>,
)
    requires
        history_kept(start, a, x, port, k, v, count, time),
        same_row(a, b, x.change_count, port),
        same_row(a, b, x.set_time, port),
        same_row(a, b, x.clear_time, port),
    ensures
        history_kept(start, b, x, port, k, v, count, time),
{
}

/// The history of the flags of every kind is kept in the tables of that very kind.
pub proof fn law_flag_history_is_kept_by_kind(
    db: DbState,
    m: Mapping,
    hal: &Hal,
    port: Seq<char>,
    p: usize,
    tables: VdmFlagTables,
    now: u64,
    d: Dict,
    i: int,
    a: Seq<char>,
    b: Seq<char>,
    count: int,
)
    requires
        plugged(m, hal, port, p),
        hal.sfps@[p as int].vdm_flags == Ok::<Reply, XcvrdError>(Reply::Object(d)),
        0 <= i < 4,
        history_by_kind(tables)[i].distinct(),
        forall|j: int| 0 <= j < 4 && j != i ==> kinds_apart(history_by_kind(tables)[i], #[trigger] history_by_kind(tables)[j]),
        names_entry(d.keys(), marks()[i], a, b),
    ensures
        history_kept(
            db,
            vdm_flags_posted(db, false, m, hal, port, tables, now),
            history_by_kind(tables)[i],
            port,
            a + b,
            d@[a + marks()[i] + b],
            count,
            utc_text(now),
        ),
{
    lemma_typed(d, i, a, b);
    let r = hal.sfps@[p as int].vdm_flags;
    let x = history_by_kind(tables)[i];
    let f0 = history_by_kind(tables)[0];
    let f1 = history_by_kind(tables)[1];
    let f2 = history_by_kind(tables)[2];
    let f3 = history_by_kind(tables)[3];
    let e0 = typed(r, VdmType::Halarm);
    let e1 = typed(r, VdmType::Lalarm);
    let e2 = typed(r, VdmType::Hwarn);
    let e3 = typed(r, VdmType::Lwarn);
    let d0 = type_tracked(db, port, e0, f0, now);
    let d1 = type_tracked(d0, port, e1, f1, now);
    let d2 = type_tracked(d1, port, e2, f2, now);
    let d3 = type_tracked(d2, port, e3, f3, now);
    assert(d3 == types_tracked(db, port, r, tables, now));
    let k = a + b;
    let v = d@[a + marks()[i] + b];
    let time = utc_text(now);
    if i == 0 {
        lemma_own_kind(db, db, port, e0, x, now, k, count);
        lemma_other_kind(d0, port, e1, x, f1, now);
        lemma_other_kind(d1, port, e2, x, f2, now);
        lemma_other_kind(d2, port, e3, x, f3, now);
        lemma_history_stays(db, d0, d3, port, x, k, v, count, time);
    } else if i == 1 {
        lemma_other_kind(db, port, e0, x, f0, now);
        lemma_own_kind(db, d0, port, e1, x, now, k, count);
        lemma_other_kind(d1, port, e2, x, f2, now);
        lemma_other_kind(d2, port, e3, x, f3, now);
        lemma_history_stays(db, d1, d3, port, x, k, v, count, time);
    } else if i == 2 {
        lemma_other_kind(db, port, e0, x, f0, now);
        lemma_other_kind(d0, port, e1, x, f1, now);
        lemma_own_kind(db, d1, port, e2, x, now, k, count);
        lemma_other_kind(d2, port, e3, x, f3, now);
        lemma_history_stays(db, d2, d3, port, x, k, v, count, time);
    } else {
        lemma_other_kind(db, port, e0, x, f0, now);
        lemma_other_kind(d0, port, e1, x, f1, now);
        lemma_other_kind(d1, port, e2, x, f2, now);
        lemma_own_kind(db, d2, port, e3, x, now, k, count);
    }
    let p0 = type_posted(d3, port, e0, tables.flag.halarm, now);
    let p1 = type_posted(p0, port, e1, tables.flag.lalarm, now);
    let p2 = type_posted(p1, port, e2, tables.flag.hwarn, now);
    let p3 = type_posted(p2, port, e3, tables.flag.lwarn, now);
    assert(p3 == vdm_flags_posted(db, false, m, hal, port, tables, now));
    lemma_values_spare_history(d3, port, e0, f0, now, x);
    lemma_values_spare_history(p0, port, e1, f1, now, x);
    lemma_values_spare_history(p1, port, e2, f2, now, x);
    lemma_values_spare_history(p2, port, e3, f3, now, x);
    lemma_history_stays(db, d3, p3, port, x, k, v, count, time);
}

proof fn lemma_values_spare_history(db: DbState, port: Seq<char>, d: DictState, y: FlagTables, now: u64, x: FlagTables)
    requires
        x.distinct(),
        x == y || kinds_apart(x, y),
    ensures
        ({
            let after = type_posted(db, port, d, y.value, now);
            &&& same_row(db, after, x.change_count, port)
            &&& same_row(db, after, x.set_time, port)
            &&& same_row(db, after, x.clear_time, port)
        }),
{
}

/// Every real value is published in the row of the port, under its name and with its
/// text, together with the time.
pub proof fn law_real_values_are_published(
    db: DbState,
    m: Mapping,
    hal: &Hal,
    port: Seq<char>,
    p: usize,
    t: TableId,
    d: DictState,
    now: u64,
    k: Seq<char>,
)
    requires
        plugged(m, hal, port, p),
        d.contains_key(k),
    ensures
        ({
            let after = real_values_posted(db, false, m, hal, port, t, d, now);
            &&& k != "last_update_time"@ ==> field_at(after, t, port, k) == Some(py_str(d[k]))
            &&& field_at(after, t, port, "last_update_time"@) == Some(utc_text(now))
        }),
{
    lemma_posted(db, port, d, t, now, k, t);
}

proof fn lemma_no_entry(names: Seq<Seq<char>>, d: DictState, mark: Seq<char>, k: Seq<char>, n: int)
    requires
        0 <= n <= names.len(),
        forall|x: Seq<char>| #[trigger] names.contains(x) && holds_text(x, mark) ==> without(x, mark) != k,
    ensures
        !typed_upto(names, d, mark, n).contains_key(k),
    decreases n,
{
    if n > 0 {
        lemma_no_entry(names, d, mark, k, n - 1);
        assert(names.contains(names[n - 1]));
    }
}

/// Nothing but the entries of its own kind is published in the table of a kind: a name
/// that none of them leaves keeps what was published before.
pub proof fn law_no_other_kind_is_published(
    db: DbState,
    m: Mapping,
    hal: &Hal,
    port: Seq<char>,
    p: usize,
    thresholds: VdmThresholdTables,
    flags: VdmFlagTables,
    now: u64,
    d: Dict,
    i: int,
    k: Seq<char>,
)
    requires
        plugged(m, hal, port, p),
        0 <= i < 4,
        tables_by_kind(thresholds.thresholds).no_duplicates(),
        tables_by_kind(flags.flag).no_duplicates(),
        forall|j: int|
            0 <= j < 4 ==> no_history_at(#[trigger] history_by_kind(flags)[j], tables_by_kind(flags.flag)[i]),
        forall|x: Seq<char>| #[trigger] d.keys().contains(x) && holds_text(x, marks()[i]) ==> without(x, marks()[i]) != k,
        k != "last_update_time"@,
    ensures
        ({
            let told = Ok::<Reply, XcvrdError>(Reply::Object(d));
            let t = tables_by_kind(thresholds.thresholds)[i];
            let f = tables_by_kind(flags.flag)[i];
            &&& hal.sfps@[p as int].vdm_thresholds == told ==> field_at(
                vdm_thresholds_posted(db, false, m, hal, port, thresholds, now),
                t,
                port,
                k,
            ) == field_at(db, t, port, k)
            &&& hal.sfps@[p as int].vdm_flags == told ==> field_at(
                vdm_flags_posted(db, false, m, hal, port, flags, now),
                f,
                port,
                k,
            ) == field_at(db, f, port, k)
        }),
{
    let r = Ok::<Reply, XcvrdError>(Reply::Object(d));
    lemma_suffix(i);
    lemma_no_entry(d.keys(), d@, marks()[i], k, d.keys().len() as int);
    assert(!typed(r, kinds()[i]).contains_key(k));
    lemma_types_spare(db, port, d, thresholds.thresholds, now, i, k);
    let e0 = typed(r, VdmType::Halarm);
    let e1 = typed(r, VdmType::Lalarm);
    let e2 = typed(r, VdmType::Hwarn);
    let e3 = typed(r, VdmType::Lwarn);
    let h = history_by_kind(flags);
    let f = tables_by_kind(flags.flag)[i];
    let d0 = type_tracked(db, port, e0, h[0], now);
    let d1 = type_tracked(d0, port, e1, h[1], now);
    let d2 = type_tracked(d1, port, e2, h[2], now);
    let d3 = type_tracked(d2, port, e3, h[3], now);
    assert(d3 == types_tracked(db, port, r, flags, now));
    law_flag_history_is_all_that_changes(db, port, e0, utc_text(now), h[0], f, port);
    law_flag_history_is_all_that_changes(d0, port, e1, utc_text(now), h[1], f, port);
    law_flag_history_is_all_that_changes(d1, port, e2, utc_text(now), h[2], f, port);
    law_flag_history_is_all_that_changes(d2, port, e3, utc_text(now), h[3], f, port);
    lemma_types_spare(d3, port, d, flags.flag, now, i, k);
    assert(same_row(db, d3, f, port));
}

/// No history is kept in the table.
pub open spec fn no_history_at(x: FlagTables, t: TableId) -> bool {
    t != x.change_count && t != x.set_time && t != x.clear_time
}

proof fn lemma_types_spare(db: DbState, port: Seq<char>, d: Dict, tables: VdmTables, now: u64, i: int, k: Seq<char>)
    requires
        0 <= i < 4,
        tables_by_kind(tables).no_duplicates(),
        !typed(Ok(Reply::Object(d)), kinds()[i]).contains_key(k),
        k != "last_update_time"@,
    ensures
        field_at(types_posted(db, port, Ok(Reply::Object(d)), tables, now), tables_by_kind(tables)[i], port, k)
            == field_at(db, tables_by_kind(tables)[i], port, k),
{
    let r = Ok(Reply::Object(d));
    let ts = tables_by_kind(tables);
    assert(ts[0] != ts[1] && ts[0] != ts[2] && ts[0] != ts[3] && ts[1] != ts[2] && ts[1] != ts[3] && ts[2] != ts[3]);
    let u = ts[i];
    let d1 = type_posted(db, port, typed(r, VdmType::Halarm), tables.halarm, now);
    let d2 = type_posted(d1, port, typed(r, VdmType::Lalarm), tables.lalarm, now);
    let d3 = type_posted(d2, port, typed(r, VdmType::Hwarn), tables.hwarn, now);
    lemma_posted(db, port, typed(r, VdmType::Halarm), tables.halarm, now, k, u);
    lemma_posted(d1, port, typed(r, VdmType::Lalarm), tables.lalarm, now, k, u);
    lemma_posted(d2, port, typed(r, VdmType::Hwarn), tables.hwarn, now, k, u);
    lemma_posted(d3, port, typed(r, VdmType::Lwarn), tables.lwarn, now, k, u);
}

} // verus!
