//! When the flags of every module are read besides the polls.

use vstd::prelude::*;
use vstd::string::*;
use crate::clock::utc_text;
use crate::daemon::first_diagnostics;
use crate::db::{field_at, DbState, TableId};
use crate::dom::dom_mgr::{terminal_name, DomInfoUpdateTask, DomSetup, FlagStatusTables, VdmPmFirmwareTables};
use crate::dom::history_laws::history_kept;
use crate::dom::isolation::{plainly_named, same_row};
use crate::dom::laws::{lemma_flag_status, lemma_vdm_flags};
use crate::dom::monitor_laws::plugged;
use crate::dom::poll_laws::{
    apart_from_flags, apart_from_kinds, comes_to, flag_tables_apart, law_poll_publishes_the_monitors, lemma_flags_row,
    lemma_flags_spare_four, lemma_history_moves, lemma_row_of_table, monitor_history, open_to_polls, same_four,
    status_history,
};
use crate::dom::utilities::db::{py_str, readable_port, Beautifier, Diagnostic};
use crate::dom::utilities::dom_sensor::monitor_text;
use crate::dom::utilities::flags::{law_flag_history_is_all_that_changes, FlagTables};
use crate::dom::utilities::vdm::{
    flag_tables_of, type_posted, type_tracked, typed, types_tracked, vdm_flags_posted,
};
use crate::dom::vdm_laws::{
    history_by_kind, kinds_apart, law_flag_history_is_kept_by_kind, law_flags_go_to_the_table_of_their_kind, marks,
    names_entry, tables_by_kind,
};
use crate::error::XcvrdError;
use crate::hal::Hal;
use crate::text::holds_text;
use crate::value::{Dict, DictState, Reply, Value};
use crate::xcvrd_utilities::common::cmis_state_text;
use crate::xcvrd_utilities::port_event_helper::{consistent, physical_of, ports_of};
use crate::xcvrd_utilities::xcvr_table_helper::VdmType;

verus! {

/// Nothing but its bring-up keeps the flags of the port from being read: it is the first
/// of the slot `p`, where a module is in; the configuration has it and does not turn its
/// monitoring off; and no error keeps its EEPROM from being read.
pub open spec fn open_to_flags(setup: &DomSetup, hal: &Hal, db: DbState, p: usize, port: Seq<char>) -> bool {
    let m = setup.port_mapping@;
    &&& consistent(m)
    &&& plainly_named(m)
    &&& plugged(m, hal, port, p)
    &&& m.to_logical.contains_key(p)
    &&& m.to_logical[p][0] == port
    &&& !(setup.deconfigured_ports matches Some(s) && s@.contains(port))
    &&& field_at(db, setup.cfg_port_tbl, port, "dom_polling"@) != Some("disabled"@)
    &&& !(field_at(db, setup.status_sw_tbl, port, "error"@) matches Some(e) && holds_text(
        e,
        "Blocking EEPROM from being read"@,
    ))
}

/// The bring-up of the port, if there is one, has ended.
pub open spec fn bring_up_ended(setup: &DomSetup, db: DbState, port: Seq<char>) -> bool {
    let state = field_at(db, setup.status_sw_tbl, port, "cmis_state"@);
    setup.skip_cmis_mgr || state == Some("READY"@) || state == Some("FAILED"@) || state == Some("REMOVED"@)
}

/// What is published of the monitor flags and the status flags that a module reports as
/// `d`: each as it is shown, and its history.
pub open spec fn shows_flags(
    before: DbState,
    after: DbState,
    hal: &Hal,
    p: usize,
    port: Seq<char>,
    ft: FlagStatusTables,
    now: u64,
    d: Dict,
    k: Seq<char>,
    count: int,
) -> bool {
    let told = Ok::<Reply, XcvrdError>(Reply::Object(d));
    &&& hal.sfps@[p as int].dom_flags == told && d@.contains_key(k) ==> {
        &&& k != "last_update_time"@ ==> field_at(after, ft.dom_flag_tbl, port, k) == Some(monitor_text(k, d@[k]))
        &&& history_kept(before, after, monitor_history(ft), port, k, d@[k], count, utc_text(now))
    }
    &&& hal.sfps@[p as int].status_flags == told && d@.contains_key(k) ==> {
        &&& k != "last_update_time"@ ==> field_at(after, ft.status_flag_tbl, port, k) == Some(py_str(d@[k]))
        &&& history_kept(before, after, status_history(ft), port, k, d@[k], count, utc_text(now))
    }
}

proof fn lemma_shown_elsewhere(
    b0: DbState,
    b1: DbState,
    a0: DbState,
    a1: DbState,
    hal: &Hal,
    p: usize,
    port: Seq<char>,
    ft: FlagStatusTables,
    now: u64,
    d: Dict,
    k: Seq<char>,
    count: int,
)
    requires
        shows_flags(b0, a0, hal, p, port, ft, now, d, k, count),
        same_four(b1, b0, monitor_history(ft), port),
        same_four(b1, b0, status_history(ft), port),
        same_four(a0, a1, monitor_history(ft), port),
        same_four(a0, a1, status_history(ft), port),
    ensures
        shows_flags(b1, a1, hal, p, port, ft, now, d, k, count),
{
    let told = Ok::<Reply, XcvrdError>(Reply::Object(d));
    if hal.sfps@[p as int].dom_flags == told && d@.contains_key(k) {
        lemma_history_moves(b0, b1, a0, a1, monitor_history(ft), port, k, d@[k], count, utc_text(now));
    }
    if hal.sfps@[p as int].status_flags == told && d@.contains_key(k) {
        lemma_history_moves(b0, b1, a0, a1, status_history(ft), port, k, d@[k], count, utc_text(now));
    }
}

proof fn lemma_both_flags(
    setup: &DomSetup,
    hal: &Hal,
    db: DbState,
    p: usize,
    port: Seq<char>,
    ft: FlagStatusTables,
    now: u64,
    d: Dict,
    k: Seq<char>,
    count: int,
)
    requires
        plugged(setup.port_mapping@, hal, port, p),
        flag_tables_apart(setup, ft),
    ensures
        shows_flags(db, setup.both_flags_posted(hal, db, port, ft, now), hal, p, port, ft, now, d, k, count),
{
    let m = setup.port_mapping@;
    let x = monitor_history(ft);
    let y = status_history(ft);
    let d1 = setup.dom_flags_posted(hal, db, port, ft, now);
    let d2 = setup.status_flags_posted(hal, d1, port, ft, now);
    let told = Ok::<Reply, XcvrdError>(Reply::Object(d));
    assert(kinds_apart(y, x));
    lemma_flags_spare_four(db, m, hal, port, Diagnostic::DomFlags, Beautifier::Dom, now, x, y);
    lemma_flags_spare_four(d1, m, hal, port, Diagnostic::StatusFlags, Beautifier::Plain, now, y, x);
    if hal.sfps@[p as int].dom_flags == told && d@.contains_key(k) {
        lemma_flags_row(db, m, hal, port, p, Diagnostic::DomFlags, Beautifier::Dom, x, now, d@, k, count);
        lemma_history_moves(db, db, d1, d2, x, port, k, d@[k], count, utc_text(now));
    }
    if hal.sfps@[p as int].status_flags == told && d@.contains_key(k) {
        lemma_flags_row(d1, m, hal, port, p, Diagnostic::StatusFlags, Beautifier::Plain, y, now, d@, k, count);
        lemma_history_moves(d1, db, d2, d2, y, port, k, d@[k], count, utc_text(now));
    }
}

proof fn lemma_open(setup: &DomSetup, hal: &Hal, db: DbState, p: usize, port: Seq<char>)
    requires
        open_to_flags(setup, hal, db, p, port),
    ensures
        setup.primed(db, port),
        bring_up_ended(setup, db, port) ==> setup.polled(db, port),
        setup.port_mapping@.first_logical(p) == Some(port),
        physical_of(setup.port_mapping@, port) == Some(p),
{
    let m = setup.port_mapping@;
    assert(m.to_physical.contains_key(port));
    assert(m.first_logical(p) == Some(port));
    reveal_strlit("disabled");
    reveal_strlit("enabled");
    assert("disabled"@[0] == 'd' && "enabled"@[0] == 'e');
}

/// The tables of the versatile flags are none of those of the other flags.
pub open spec fn versatile_apart(setup: &DomSetup, ft: FlagStatusTables) -> bool {
    setup.vdm_pm_fw matches Some(v) ==> all_outside(v, monitor_history(ft)) && all_outside(v, status_history(ft))
}

/// The four tables are none of those of the versatile flags.
pub open spec fn all_outside(v: VdmPmFirmwareTables, x: FlagTables) -> bool {
    &&& apart_from_kinds(v.vdm_flag_tables, x.value)
    &&& apart_from_kinds(v.vdm_flag_tables, x.change_count)
    &&& apart_from_kinds(v.vdm_flag_tables, x.set_time)
    &&& apart_from_kinds(v.vdm_flag_tables, x.clear_time)
}

proof fn lemma_versatile_spares(
    setup: &DomSetup,
    hal: &Hal,
    db: DbState,
    port: Seq<char>,
    v: VdmPmFirmwareTables,
    now: u64,
    x: FlagTables,
)
    requires
        all_outside(v, x),
    ensures
        same_four(
            db,
            vdm_flags_posted(db, false, setup.port_mapping@, hal, port, v.vdm_flag_tables, now),
            x,
            port,
        ),
{
    let m = setup.port_mapping@;
    let after = vdm_flags_posted(db, false, m, hal, port, v.vdm_flag_tables, now);
    lemma_vdm_flags(db, m, hal, port, v.vdm_flag_tables, now, x.value);
    lemma_vdm_flags(db, m, hal, port, v.vdm_flag_tables, now, x.change_count);
    lemma_vdm_flags(db, m, hal, port, v.vdm_flag_tables, now, x.set_time);
    lemma_vdm_flags(db, m, hal, port, v.vdm_flag_tables, now, x.clear_time);
    lemma_row_of_table(db, after, x.value, port);
    lemma_row_of_table(db, after, x.change_count, port);
    lemma_row_of_table(db, after, x.set_time, port);
    lemma_row_of_table(db, after, x.clear_time, port);
}

/// After a change of its link the monitor flags and the status flags of a port are
/// published, each as it is shown, and their history is kept.
pub proof fn law_link_change_publishes_the_flags(
    setup: &DomSetup,
    hal: &Hal,
    db: DbState,
    p: usize,
    port: Seq<char>,
    ft: FlagStatusTables,
    now: u64,
    d: Dict,
    k: Seq<char>,
    count: int,
)
    requires
        open_to_flags(setup, hal, db, p, port),
        bring_up_ended(setup, db, port),
        setup.flag_status_tables == Some(ft),
        flag_tables_apart(setup, ft),
        versatile_apart(setup, ft),
    ensures
        shows_flags(db, setup.link_change_posted(hal, db, p, now), hal, p, port, ft, now, d, k, count),
{
    lemma_open(setup, hal, db, p, port);
    lemma_both_flags(setup, hal, db, p, port, ft, now, d, k, count);
    let d1 = setup.both_flags_posted(hal, db, port, ft, now);
    match setup.vdm_pm_fw {
        Some(v) => {
            lemma_versatile_spares(setup, hal, d1, port, v, now, monitor_history(ft));
            lemma_versatile_spares(setup, hal, d1, port, v, now, status_history(ft));
        },
        None => {},
    }
    lemma_shown_elsewhere(
        db,
        db,
        d1,
        setup.link_change_posted(hal, db, p, now),
        hal,
        p,
        port,
        ft,
        now,
        d,
        k,
        count,
    );
}

/// After a change of its link the versatile flags of every kind of a port are published
/// in the table of that very kind, and their history is kept there.
pub proof fn law_link_change_publishes_the_versatile_flags(
    setup: &DomSetup,
    hal: &Hal,
    db: DbState,
    p: usize,
    port: Seq<char>,
    ft: FlagStatusTables,
    v: VdmPmFirmwareTables,
    now: u64,
    d: Dict,
    kind: int,
    a: Seq<char>,
    b: Seq<char>,
    count: int,
)
    requires
        open_to_flags(setup, hal, db, p, port),
        bring_up_ended(setup, db, port),
        setup.flag_status_tables == Some(ft),
        setup.vdm_pm_fw == Some(v),
        hal.sfps@[p as int].vdm_supported == Ok::<Value, XcvrdError>(Value::Bool(true)),
        hal.sfps@[p as int].vdm_flags == Ok::<Reply, XcvrdError>(Reply::Object(d)),
        0 <= kind < 4,
        tables_by_kind(v.vdm_flag_tables.flag).no_duplicates(),
        history_by_kind(v.vdm_flag_tables)[kind].distinct(),
        forall|j: int|
            0 <= j < 4 && j != kind ==> kinds_apart(
                history_by_kind(v.vdm_flag_tables)[kind],
                #[trigger] history_by_kind(v.vdm_flag_tables)[j],
            ),
        kinds_apart(history_by_kind(v.vdm_flag_tables)[kind], monitor_history(ft)),
        kinds_apart(history_by_kind(v.vdm_flag_tables)[kind], status_history(ft)),
        names_entry(d.keys(), marks()[kind], a, b),
    ensures
        ({
            let after = setup.link_change_posted(hal, db, p, now);
            let x = history_by_kind(v.vdm_flag_tables)[kind];
            &&& a + b != "last_update_time"@ ==> field_at(after, x.value, port, a + b) == Some(
                py_str(d@[a + marks()[kind] + b]),
            )
            &&& history_kept(db, after, x, port, a + b, d@[a + marks()[kind] + b], count, utc_text(now))
        }),
{
    lemma_open(setup, hal, db, p, port);
    let m = setup.port_mapping@;
    let x = history_by_kind(v.vdm_flag_tables)[kind];
    let d1 = setup.dom_flags_posted(hal, db, port, ft, now);
    let d2 = setup.status_flags_posted(hal, d1, port, ft, now);
    lemma_flags_spare_four(db, m, hal, port, Diagnostic::DomFlags, Beautifier::Dom, now, monitor_history(ft), x);
    lemma_flags_spare_four(d1, m, hal, port, Diagnostic::StatusFlags, Beautifier::Plain, now, status_history(ft), x);
    law_flags_go_to_the_table_of_their_kind(d2, m, hal, port, p, v.vdm_flag_tables, now, d, kind, a, b);
    law_flag_history_is_kept_by_kind(d2, m, hal, port, p, v.vdm_flag_tables, now, d, kind, a, b, count);
    let after = setup.link_change_posted(hal, db, p, now);
    lemma_history_moves(d2, db, after, after, x, port, a + b, d@[a + marks()[kind] + b], count, utc_text(now));
}

proof fn lemma_link_change_of_another(setup: &DomSetup, hal: &Hal, db: DbState, q: usize, now: u64, t: TableId, port: Seq<char>)
    requires
        setup.port_mapping@.first_logical(q) != Some(port),
    ensures
        same_row(db, setup.link_change_posted(hal, db, q, now), t, port),
{
    match setup.port_mapping@.first_logical(q) {
        Some(other) => {
            match setup.flag_status_tables {
                Some(ft) => {
                    let d1 = setup.both_flags_posted(hal, db, other, ft, now);
                    lemma_flags_of_another(setup, hal, db, other, ft, now, t, port);
                    match setup.vdm_pm_fw {
                        Some(v) => {
                            lemma_versatile_flags_of_another(setup, hal, d1, other, v, now, t, port);
                        },
                        None => {},
                    }
                },
                None => {},
            }
        },
        None => {},
    }
}

proof fn lemma_flags_of_another(
    setup: &DomSetup,
    hal: &Hal,
    db: DbState,
    other: Seq<char>,
    ft: FlagStatusTables,
    now: u64,
    t: TableId,
    port: Seq<char>,
)
    requires
        other != port,
    ensures
        same_row(db, setup.both_flags_posted(hal, db, other, ft, now), t, port),
{
    let d1 = setup.dom_flags_posted(hal, db, other, ft, now);
    assert(same_row(db, d1, t, port));
    assert(same_row(d1, setup.status_flags_posted(hal, d1, other, ft, now), t, port));
}

proof fn lemma_versatile_flags_of_another(
    setup: &DomSetup,
    hal: &Hal,
    db: DbState,
    other: Seq<char>,
    v: VdmPmFirmwareTables,
    now: u64,
    t: TableId,
    port: Seq<char>,
)
    requires
        other != port,
    ensures
        same_row(
            db,
            vdm_flags_posted(db, false, setup.port_mapping@, hal, other, v.vdm_flag_tables, now),
            t,
            port,
        ),
{
    let m = setup.port_mapping@;
    match readable_port(false, m, hal, other) {
        Some(p) => if m.asic_of(other) is Some {
            let tables = v.vdm_flag_tables;
            let r = hal.sfps@[p as int].vdm_flags;
            let e0 = typed(r, VdmType::Halarm);
            let e1 = typed(r, VdmType::Lalarm);
            let e2 = typed(r, VdmType::Hwarn);
            let e3 = typed(r, VdmType::Lwarn);
            let d0 = type_tracked(db, other, e0, flag_tables_of(tables, VdmType::Halarm), now);
            let d1 = type_tracked(d0, other, e1, flag_tables_of(tables, VdmType::Lalarm), now);
            let d2 = type_tracked(d1, other, e2, flag_tables_of(tables, VdmType::Hwarn), now);
            let d3 = type_tracked(d2, other, e3, flag_tables_of(tables, VdmType::Lwarn), now);
            lemma_kind_of_another(db, other, e0, flag_tables_of(tables, VdmType::Halarm), now, t, port);
            lemma_kind_of_another(d0, other, e1, flag_tables_of(tables, VdmType::Lalarm), now, t, port);
            lemma_kind_of_another(d1, other, e2, flag_tables_of(tables, VdmType::Hwarn), now, t, port);
            lemma_kind_of_another(d2, other, e3, flag_tables_of(tables, VdmType::Lwarn), now, t, port);
            assert(d3 == types_tracked(db, other, r, tables, now));
            let p0 = type_posted(d3, other, e0, tables.flag.halarm, now);
            let p1 = type_posted(p0, other, e1, tables.flag.lalarm, now);
            let p2 = type_posted(p1, other, e2, tables.flag.hwarn, now);
            lemma_kind_of_another(d3, other, e0, flag_tables_of(tables, VdmType::Halarm), now, t, port);
            lemma_kind_of_another(p0, other, e1, flag_tables_of(tables, VdmType::Lalarm), now, t, port);
            lemma_kind_of_another(p1, other, e2, flag_tables_of(tables, VdmType::Hwarn), now, t, port);
            lemma_kind_of_another(p2, other, e3, flag_tables_of(tables, VdmType::Lwarn), now, t, port);
        },
        None => {},
    }
}

proof fn lemma_kind_of_another(
    db: DbState,
    other: Seq<char>,
    d: DictState,
    x: FlagTables,
    now: u64,
    t: TableId,
    port: Seq<char>,
)
    requires
        other != port,
    ensures
        same_row(db, type_tracked(db, other, d, x, now), t, port),
        same_row(db, type_posted(db, other, d, x.value, now), t, port),
{
    law_flag_history_is_all_that_changes(db, other, d, utc_text(now), x, t, port);
}

/// The flags of every slot are published at the start, whatever its bring-up has come to,
/// and their history begins.
pub proof fn law_start_publishes_the_flags(
    setup: &DomSetup,
    hal: &Hal,
    db: DbState,
    p: usize,
    port: Seq<char>,
    ft: FlagStatusTables,
    now: u64,
    i: int,
    n: int,
    d: Dict,
    k: Seq<char>,
    count: int,
)
    requires
        open_to_flags(setup, hal, db, p, port),
        flag_tables_apart(setup, ft),
        comes_to(setup, p, i),
        i < n <= setup.port_mapping.physical_to_logical.keys().len(),
    ensures
        shows_flags(db, setup.ports_primed(hal, db, ft, now, n), hal, p, port, ft, now, d, k, count),
    decreases n,
{
    let m = setup.port_mapping@;
    let q = setup.port_mapping.physical_to_logical.keys()[n - 1];
    let before = setup.ports_primed(hal, db, ft, now, n - 1);
    let after = setup.ports_primed(hal, db, ft, now, n);
    let x = monitor_history(ft);
    let y = status_history(ft);
    if i < n - 1 {
        law_start_publishes_the_flags(setup, hal, db, p, port, ft, now, i, n - 1, d, k, count);
        lemma_first_of_another(setup, p, q, port);
        assert forall|t: TableId| #[trigger] same_row(before, after, t, port) by {
            lemma_primed_another(setup, hal, db, ft, now, n, t, port);
        }
        lemma_shown_elsewhere(db, db, before, after, hal, p, port, ft, now, d, k, count);
    } else {
        assert forall|t: TableId| #[trigger] same_row(db, before, t, port) by {
            lemma_primed_before(setup, hal, db, p, ft, now, n - 1, t, port);
        }
        assert(same_row(db, before, setup.cfg_port_tbl, port));
        assert(same_row(db, before, setup.status_sw_tbl, port));
        lemma_open(setup, hal, before, p, port);
        lemma_both_flags(setup, hal, before, p, port, ft, now, d, k, count);
        lemma_shown_elsewhere(before, db, after, after, hal, p, port, ft, now, d, k, count);
    }
}

proof fn lemma_first_of_another(setup: &DomSetup, p: usize, q: usize, port: Seq<char>)
    requires
        consistent(setup.port_mapping@),
        p != q,
        setup.port_mapping@.first_physical(port) == Some(p),
    ensures
        setup.port_mapping@.first_logical(q) != Some(port),
{
    let m = setup.port_mapping@;
    match m.first_logical(q) {
        Some(other) => {
            assert(ports_of(m, q)[0] == other);
            assert(ports_of(m, q).contains(other));
        },
        None => {},
    }
}

proof fn lemma_primed_another(
    setup: &DomSetup,
    hal: &Hal,
    db: DbState,
    ft: FlagStatusTables,
    now: u64,
    n: int,
    t: TableId,
    port: Seq<char>,
)
    requires
        n > 0,
        setup.port_mapping@.first_logical(setup.port_mapping.physical_to_logical.keys()[n - 1]) != Some(port),
    ensures
        same_row(setup.ports_primed(hal, db, ft, now, n - 1), setup.ports_primed(hal, db, ft, now, n), t, port),
{
    let before = setup.ports_primed(hal, db, ft, now, n - 1);
    match setup.port_mapping@.first_logical(setup.port_mapping.physical_to_logical.keys()[n - 1]) {
        Some(other) => {
            lemma_flags_of_another(setup, hal, before, other, ft, now, t, port);
        },
        None => {},
    }
}

proof fn lemma_primed_before(
    setup: &DomSetup,
    hal: &Hal,
    db: DbState,
    p: usize,
    ft: FlagStatusTables,
    now: u64,
    n: int,
    t: TableId,
    port: Seq<char>,
)
    requires
        consistent(setup.port_mapping@),
        setup.port_mapping@.first_physical(port) == Some(p),
        0 <= n <= setup.port_mapping.physical_to_logical.keys().len(),
        forall|j: int| 0 <= j < n ==> #[trigger] setup.port_mapping.physical_to_logical.keys()[j] != p,
    ensures
        same_row(db, setup.ports_primed(hal, db, ft, now, n), t, port),
    decreases n,
{
    if n > 0 {
        lemma_primed_before(setup, hal, db, p, ft, now, n - 1, t, port);
        lemma_first_of_another(setup, p, setup.port_mapping.physical_to_logical.keys()[n - 1], port);
        lemma_primed_another(setup, hal, db, ft, now, n, t, port);
    }
}

/// Once the time has come, the flags of every slot that is due are published, and their
/// history is kept; what is due later is left alone.
pub proof fn law_due_flags_are_published(
    setup: &DomSetup,
    hal: &Hal,
    db: DbState,
    p: usize,
    port: Seq<char>,
    ft: FlagStatusTables,
    slots: Seq<usize>,
    pending: Map<usize, u64>,
    at: u64,
    now: u64,
    i: int,
    n: int,
    d: Dict,
    k: Seq<char>,
    count: int,
)
    requires
        open_to_flags(setup, hal, db, p, port),
        bring_up_ended(setup, db, port),
        setup.flag_status_tables == Some(ft),
        flag_tables_apart(setup, ft),
        versatile_apart(setup, ft),
        slots.no_duplicates(),
        0 <= i < n <= slots.len(),
        slots[i] == p,
    ensures
        ({
            let after = setup.due_read(hal, db, slots, pending, at, now, n);
            &&& pending[p] <= at ==> shows_flags(db, after, hal, p, port, ft, now, d, k, count)
            &&& pending[p] > at ==> forall|t: TableId| #[trigger] same_row(db, after, t, port)
        }),
    decreases n,
{
    let before = setup.due_read(hal, db, slots, pending, at, now, n - 1);
    let after = setup.due_read(hal, db, slots, pending, at, now, n);
    if i < n - 1 {
        law_due_flags_are_published(
            setup, hal, db, p, port, ft, slots, pending, at, now, i, n - 1, d, k, count,
        );
        assert(slots[n - 1] != p);
        lemma_first_of_another(setup, p, slots[n - 1], port);
        assert forall|t: TableId| #[trigger] same_row(before, after, t, port) by {
            lemma_link_change_of_another(setup, hal, before, slots[n - 1], now, t, port);
        }
        if pending[p] <= at {
            lemma_shown_elsewhere(db, db, before, after, hal, p, port, ft, now, d, k, count);
        } else {
            assert forall|t: TableId| #[trigger] same_row(db, after, t, port) by {
                assert(same_row(db, before, t, port));
                assert(same_row(before, after, t, port));
            }
        }
    } else {
        assert forall|t: TableId| #[trigger] same_row(db, before, t, port) by {
            lemma_due_before(setup, hal, db, p, slots, pending, at, now, i, n - 1, t, port);
        }
        assert(same_row(db, before, setup.cfg_port_tbl, port));
        assert(same_row(db, before, setup.status_sw_tbl, port));
        if pending[p] <= at {
            law_link_change_publishes_the_flags(setup, hal, before, p, port, ft, now, d, k, count);
            lemma_shown_elsewhere(before, db, after, after, hal, p, port, ft, now, d, k, count);
        }
    }
}

proof fn lemma_due_before(
    setup: &DomSetup,
    hal: &Hal,
    db: DbState,
    p: usize,
    slots: Seq<usize>,
    pending: Map<usize, u64>,
    at: u64,
    now: u64,
    i: int,
    n: int,
    t: TableId,
    port: Seq<char>,
)
    requires
        consistent(setup.port_mapping@),
        setup.port_mapping@.first_physical(port) == Some(p),
        slots.no_duplicates(),
        0 <= n <= i < slots.len(),
        slots[i] == p,
    ensures
        same_row(db, setup.due_read(hal, db, slots, pending, at, now, n), t, port),
    decreases n,
{
    if n > 0 {
        lemma_due_before(setup, hal, db, p, slots, pending, at, now, i, n - 1, t, port);
        assert(slots[n - 1] != p);
        lemma_first_of_another(setup, p, slots[n - 1], port);
        lemma_link_change_of_another(
            setup,
            hal,
            setup.due_read(hal, db, slots, pending, at, now, n - 1),
            slots[n - 1],
            now,
            t,
            port,
        );
    }
}

/// The state of the port in the tables is one in which the bring-up has ended.
pub open spec fn state_ended(setup: &DomSetup, db: DbState, port: Seq<char>) -> bool {
    let state = field_at(db, setup.status_sw_tbl, port, "cmis_state"@);
    state == Some("READY"@) || state == Some("FAILED"@) || state == Some("REMOVED"@)
}

/// A look at the bring-up of every slot: where it has ended and had not the last time, or
/// where it has ended and the port has no monitor flags yet, the flags of the port are
/// published; else its rows are left alone. What was seen is kept for the next look.
pub proof fn law_ended_bring_up_publishes_the_flags(
    setup: &DomSetup,
    hal: &Hal,
    db: DbState,
    seen: Map<Seq<char>, bool>,
    p: usize,
    port: Seq<char>,
    ft: FlagStatusTables,
    now: u64,
    i: int,
    n: int,
    d: Dict,
    k: Seq<char>,
    count: int,
)
    requires
        open_to_flags(setup, hal, db, p, port),
        setup.flag_status_tables == Some(ft),
        flag_tables_apart(setup, ft),
        versatile_apart(setup, ft),
        comes_to(setup, p, i),
        i < n <= setup.port_mapping.physical_to_logical.keys().len(),
    ensures
        ({
            let (after, noted) = setup.gates_watched(hal, db, seen, ft, now, n);
            let ended = state_ended(setup, db, port);
            let anew = ended && (seen.contains_key(port) && !seen[port] || !db.contains_key((ft.dom_flag_tbl, port)));
            &&& noted.contains_key(port) && noted[port] == ended
            &&& anew ==> shows_flags(db, after, hal, p, port, ft, now, d, k, count)
            &&& !anew ==> forall|t: TableId| #[trigger] same_row(db, after, t, port)
        }),
    decreases n,
{
    let q = setup.port_mapping.physical_to_logical.keys()[n - 1];
    let (before, seen_before) = setup.gates_watched(hal, db, seen, ft, now, n - 1);
    let (after, noted) = setup.gates_watched(hal, db, seen, ft, now, n);
    let ended = state_ended(setup, db, port);
    let anew = ended && (seen.contains_key(port) && !seen[port] || !db.contains_key((ft.dom_flag_tbl, port)));
    lemma_open(setup, hal, db, p, port);
    if i < n - 1 {
        law_ended_bring_up_publishes_the_flags(
            setup, hal, db, seen, p, port, ft, now, i, n - 1, d, k, count,
        );
        lemma_first_of_another(setup, p, q, port);
        assert forall|t: TableId| #[trigger] same_row(before, after, t, port) by {
            lemma_link_change_of_another(setup, hal, before, q, now, t, port);
        }
        if anew {
            lemma_shown_elsewhere(db, db, before, after, hal, p, port, ft, now, d, k, count);
        } else {
            assert forall|t: TableId| #[trigger] same_row(db, after, t, port) by {
                assert(same_row(db, before, t, port));
                assert(same_row(before, after, t, port));
            }
        }
    } else {
        lemma_gates_before(setup, hal, db, seen, p, ft, now, n - 1, port);
        assert(same_row(db, before, setup.cfg_port_tbl, port));
        assert(same_row(db, before, setup.status_sw_tbl, port));
        assert(same_row(db, before, ft.dom_flag_tbl, port));
        lemma_state_ended(setup, before, port);
        if anew {
            law_link_change_publishes_the_flags(setup, hal, before, p, port, ft, now, d, k, count);
            lemma_shown_elsewhere(before, db, after, after, hal, p, port, ft, now, d, k, count);
        }
    }
}

proof fn lemma_state_ended(setup: &DomSetup, db: DbState, port: Seq<char>)
    ensures
        terminal_name(cmis_state_text(db, setup.status_sw_tbl, port)) == state_ended(setup, db, port),
{
    reveal_strlit("UNKNOWN");
    reveal_strlit("READY");
    reveal_strlit("FAILED");
    reveal_strlit("REMOVED");
    assert("UNKNOWN"@[0] == 'U' && "READY"@[0] == 'R' && "FAILED"@[0] == 'F' && "REMOVED"@[0] == 'R');
}

proof fn lemma_gates_before(
    setup: &DomSetup,
    hal: &Hal,
    db: DbState,
    seen: Map<Seq<char>, bool>,
    p: usize,
    ft: FlagStatusTables,
    now: u64,
    n: int,
    port: Seq<char>,
)
    requires
        consistent(setup.port_mapping@),
        setup.port_mapping@.first_physical(port) == Some(p),
        0 <= n <= setup.port_mapping.physical_to_logical.keys().len(),
        forall|j: int| 0 <= j < n ==> #[trigger] setup.port_mapping.physical_to_logical.keys()[j] != p,
    ensures
        ({
            let (after, noted) = setup.gates_watched(hal, db, seen, ft, now, n);
            &&& forall|t: TableId| #[trigger] same_row(db, after, t, port)
            &&& noted.contains_key(port) == seen.contains_key(port)
            &&& seen.contains_key(port) ==> noted[port] == seen[port]
        }),
    decreases n,
{
    if n > 0 {
        lemma_gates_before(setup, hal, db, seen, p, ft, now, n - 1, port);
        let q = setup.port_mapping.physical_to_logical.keys()[n - 1];
        lemma_first_of_another(setup, p, q, port);
        let (before, seen_before) = setup.gates_watched(hal, db, seen, ft, now, n - 1);
        let (after, noted) = setup.gates_watched(hal, db, seen, ft, now, n);
        assert forall|t: TableId| #[trigger] same_row(db, after, t, port) by {
            assert(same_row(db, before, t, port));
            lemma_link_change_of_another(setup, hal, before, q, now, t, port);
        }
    }
}

proof fn lemma_primes_spare(
    setup: &DomSetup,
    hal: &Hal,
    db: DbState,
    ft: FlagStatusTables,
    now: u64,
    n: int,
    t: TableId,
    port: Seq<char>,
)
    requires
        !ft.all().contains(t),
        !setup.deconfigured(port),
        n <= setup.port_mapping.physical_to_logical.keys().len(),
    ensures
        same_row(db, setup.ports_primed(hal, db, ft, now, n), t, port),
    decreases n,
{
    if n > 0 {
        lemma_primes_spare(setup, hal, db, ft, now, n - 1, t, port);
        let before = setup.ports_primed(hal, db, ft, now, n - 1);
        let first = setup.port_mapping@.first_logical(setup.port_mapping.physical_to_logical.keys()[n - 1]);
        if first == Some(port) {
            lemma_flag_status(setup, hal, before, port, ft, true, now, t);
            lemma_row_of_table(before, setup.both_flags_posted(hal, before, port, ft, now), t, port);
        } else {
            lemma_primed_another(setup, hal, db, ft, now, n, t, port);
        }
    }
}

proof fn lemma_quiet_polls_spare(
    setup: &DomSetup,
    hal: &Hal,
    db: DbState,
    ft: FlagStatusTables,
    now: u64,
    n: int,
    t: TableId,
    port: Seq<char>,
)
    requires
        setup.flag_status_tables == Some(ft),
        t != setup.dom_tbl,
        t != ft.status_tbl,
        !setup.deconfigured(port),
    ensures
        same_row(db, setup.ports_polled(hal, db, false, false, now, n), t, port),
    decreases n,
{
    if n > 0 {
        lemma_quiet_polls_spare(setup, hal, db, ft, now, n - 1, t, port);
        let before = setup.ports_polled(hal, db, false, false, now, n - 1);
        match setup.port_mapping@.first_logical(setup.port_mapping.physical_to_logical.keys()[n - 1]) {
            Some(other) => {
                let d1 = setup.sensor_posted(hal, before, other, now);
                assert(same_row(before, d1, t, port));
                assert(same_row(d1, setup.status_posted(hal, d1, other, ft, now), t, port));
            },
            None => {},
        }
    }
}

/// The first diagnostics of every slot: the flags are published and their history begins,
/// and the monitors are published, whatever else is.
pub proof fn law_first_diagnostics_of_every_slot(
    dom: DomInfoUpdateTask,
    hal: &Hal,
    db: DbState,
    now: u64,
    p: usize,
    port: Seq<char>,
    i: int,
    ft: FlagStatusTables,
    d: Dict,
    k: Seq<char>,
    count: int,
)
    requires
        open_to_polls(&dom.setup, hal, db, p, port),
        comes_to(&dom.setup, p, i),
        dom.setup.flag_status_tables == Some(ft),
        flag_tables_apart(&dom.setup, ft),
        apart_from_flags(&dom.setup, dom.setup.dom_tbl),
        apart_from_flags(&dom.setup, dom.setup.cfg_port_tbl),
        apart_from_flags(&dom.setup, dom.setup.status_sw_tbl),
        d@.contains_key(k),
    ensures
        ({
            let after = first_diagnostics(dom, hal, db, now);
            let told = Ok::<Reply, XcvrdError>(Reply::Object(d));
            &&& shows_flags(db, after, hal, p, port, ft, now, d, k, count)
            &&& hal.sfps@[p as int].dom_real_value == told && k != "last_update_time"@ ==> field_at(
                after,
                dom.setup.dom_tbl,
                port,
                k,
            ) == Some(monitor_text(k, d@[k]))
        }),
{
    let setup = &dom.setup;
    let n = setup.port_mapping.physical_to_logical.keys().len() as int;
    let primed = setup.ports_primed(hal, db, ft, now, n);
    let after = setup.ports_polled(hal, primed, false, false, now, n);
    lemma_primes_spare(setup, hal, db, ft, now, n, setup.cfg_port_tbl, port);
    lemma_primes_spare(setup, hal, db, ft, now, n, setup.status_sw_tbl, port);
    assert(open_to_flags(setup, hal, db, p, port));
    assert(open_to_polls(setup, hal, primed, p, port));
    law_start_publishes_the_flags(setup, hal, db, p, port, ft, now, i, n, d, k, count);
    let x = monitor_history(ft);
    let y = status_history(ft);
    lemma_quiet_polls_spare(setup, hal, primed, ft, now, n, x.value, port);
    lemma_quiet_polls_spare(setup, hal, primed, ft, now, n, x.change_count, port);
    lemma_quiet_polls_spare(setup, hal, primed, ft, now, n, x.set_time, port);
    lemma_quiet_polls_spare(setup, hal, primed, ft, now, n, x.clear_time, port);
    lemma_quiet_polls_spare(setup, hal, primed, ft, now, n, y.value, port);
    lemma_quiet_polls_spare(setup, hal, primed, ft, now, n, y.change_count, port);
    lemma_quiet_polls_spare(setup, hal, primed, ft, now, n, y.set_time, port);
    lemma_quiet_polls_spare(setup, hal, primed, ft, now, n, y.clear_time, port);
    lemma_shown_elsewhere(db, db, primed, after, hal, p, port, ft, now, d, k, count);
    if hal.sfps@[p as int].dom_real_value == Ok::<Reply, XcvrdError>(Reply::Object(d)) {
        law_poll_publishes_the_monitors(setup, hal, primed, false, false, now, p, port, i, d, k);
    }
}

/// A change of the link of a slot without a module changes nothing; one of a module
/// without versatile diagnostics changes no table but those of the monitor flags and of
/// the status flags.
pub proof fn law_link_change_reads_what_is_there(setup: &DomSetup, hal: &Hal, db: DbState, p: usize, now: u64, t: TableId, k: Seq<char>)
    requires
        p < hal.sfps@.len(),
    ensures
        hal.sfps@[p as int].presence != Ok::<bool, XcvrdError>(true) ==> setup.link_change_posted(hal, db, p, now) == db,
        hal.sfps@[p as int].vdm_supported != Ok::<Value, XcvrdError>(Value::Bool(true)) && apart_from_flags(setup, t)
            ==> same_row(db, setup.link_change_posted(hal, db, p, now), t, k),
{
    match (setup.port_mapping@.first_logical(p), setup.flag_status_tables) {
        (Some(port), Some(ft)) => {
            if apart_from_flags(setup, t) {
                lemma_flag_status(setup, hal, db, port, ft, true, now, t);
                lemma_row_of_table(db, setup.both_flags_posted(hal, db, port, ft, now), t, k);
            }
        },
        _ => {},
    }
}

} // verus!
