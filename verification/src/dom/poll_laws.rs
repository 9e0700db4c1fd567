//! What a poll publishes of every module.

use vstd::prelude::*;
use vstd::string::*;
use crate::clock::utc_text;
use crate::db::{field_at, DbState, Fields, TableId};
use crate::dom::dom_mgr::{
    firmware_posted, pm_posted, set_for_names, DomSetup, FlagStatusTables, VdmPmFirmwareTables,
};
use crate::dom::history_laws::{history_kept, law_flag_history_is_kept};
use crate::dom::isolation::{law_poll_of_a_port_spares_the_others, plainly_named, same_row};
use crate::dom::laws::{
    lemma_flag_status, lemma_names_set, lemma_same_chain, lemma_vdm_block, lemma_vdm_flags, outside_vdm, same_table,
};
use crate::dom::monitor_laws::plugged;
use crate::dom::utilities::db::{diagnosed, py_str, shown, shown_text, Beautifier, Diagnostic};
use crate::dom::utilities::dom_sensor::{monitor_text, monitors_posted, port_flags_posted};
use crate::dom::utilities::flags::FlagTables;
use crate::dom::utilities::vdm::{confirmed, polls_confirm, real_values_posted, vdm_flags_posted, VdmFlagTables};
use crate::dom::vdm_laws::{
    history_by_kind, kinds_apart, law_flag_history_is_kept_by_kind, law_flags_go_to_the_table_of_their_kind,
    law_real_values_are_published, marks, names_entry, tables_by_kind,
};
use crate::error::{XResult, XcvrdError};
use crate::hal::{dict_read, Hal, Handshake, Sfp};
use crate::text::holds_text;
use crate::value::{Dict, DictState, Reply, ReplyState, Val, Value};
use crate::xcvrd_utilities::port_event_helper::{consistent, physical_of, ports_of, Mapping};

verus! {

/// Nothing keeps the port from being polled: it is the first of the slot `p`, where a
/// module is in; the configuration has it and does not turn its monitoring off; its
/// bring-up, if there is one, has ended; and no error keeps its EEPROM from being read.
pub open spec fn open_to_polls(setup: &DomSetup, hal: &Hal, db: DbState, p: usize, port: Seq<char>) -> bool {
    let m = setup.port_mapping@;
    let state = field_at(db, setup.status_sw_tbl, port, "cmis_state"@);
    &&& consistent(m)
    &&& plainly_named(m)
    &&& plugged(m, hal, port, p)
    &&& m.to_logical.contains_key(p)
    &&& m.to_logical[p][0] == port
    &&& !(setup.deconfigured_ports matches Some(s) && s@.contains(port))
    &&& field_at(db, setup.cfg_port_tbl, port, "dom_polling"@) != Some("disabled"@)
    &&& setup.skip_cmis_mgr || state == Some("READY"@) || state == Some("FAILED"@) || state == Some("REMOVED"@)
    &&& !(field_at(db, setup.status_sw_tbl, port, "error"@) matches Some(e) && holds_text(
        e,
        "Blocking EEPROM from being read"@,
    ))
}

/// The poll comes to the slot `p` at its `i`-th step and at no other.
pub open spec fn comes_to(setup: &DomSetup, p: usize, i: int) -> bool {
    let slots = setup.port_mapping.physical_to_logical.keys();
    &&& 0 <= i < slots.len()
    &&& slots[i] == p
    &&& forall|j: int| 0 <= j < slots.len() && j != i ==> #[trigger] slots[j] != p
}

/// The tables after a poll.
pub open spec fn polled_all(setup: &DomSetup, hal: &Hal, db: DbState, flags: bool, vdm: bool, now: u64) -> DbState {
    setup.ports_polled(hal, db, flags, vdm, now, setup.port_mapping.physical_to_logical.keys().len() as int)
}

/// The table is none of those of the flags and of the hardware status.
pub open spec fn apart_from_flags(setup: &DomSetup, t: TableId) -> bool {
    setup.flag_status_tables matches Some(ft) ==> !seq![
        ft.dom_flag_tbl,
        ft.dom_flag_change_count_tbl,
        ft.dom_flag_set_time_tbl,
        ft.dom_flag_clear_time_tbl,
        ft.status_tbl,
        ft.status_flag_tbl,
        ft.status_flag_change_count_tbl,
        ft.status_flag_set_time_tbl,
        ft.status_flag_clear_time_tbl,
    ].contains(t)
}

/// The table is none of those of the versatile flags.
pub open spec fn apart_from_kinds(v: VdmFlagTables, t: TableId) -> bool {
    &&& !tables_by_kind(v.flag).contains(t)
    &&& !tables_by_kind(v.change_count).contains(t)
    &&& !tables_by_kind(v.set_time).contains(t)
    &&& !tables_by_kind(v.clear_time).contains(t)
}

/// The table is none of those of the versatile diagnostics, the performance monitoring
/// and the firmware.
pub open spec fn apart_from_vdm(setup: &DomSetup, t: TableId) -> bool {
    setup.vdm_pm_fw matches Some(v) ==> {
        &&& apart_from_kinds(v.vdm_flag_tables, t)
        &&& t != v.vdm_real_value_tbl
        &&& t != v.pm_tbl
        &&& t != v.firmware_info_tbl
    }
}

proof fn lemma_open_is_polled(setup: &DomSetup, hal: &Hal, db: DbState, p: usize, port: Seq<char>)
    requires
        open_to_polls(setup, hal, db, p, port),
    ensures
        setup.polled(db, port),
        physical_of(setup.port_mapping@, port) == Some(p),
{
    let m = setup.port_mapping@;
    assert(m.to_physical.contains_key(port));
    assert(m.first_logical(p) == Some(port));
    reveal_strlit("disabled");
    reveal_strlit("enabled");
    assert("disabled"@[0] == 'd' && "enabled"@[0] == 'e');
}

proof fn lemma_other_step(
    setup: &DomSetup,
    hal: &Hal,
    db: DbState,
    flags: bool,
    vdm: bool,
    now: u64,
    p: usize,
    n: int,
    t: TableId,
    k: Seq<char>,
)
    requires
        consistent(setup.port_mapping@),
        plainly_named(setup.port_mapping@),
        0 < n <= setup.port_mapping.physical_to_logical.keys().len(),
        setup.port_mapping.physical_to_logical.keys()[n - 1] != p,
        ports_of(setup.port_mapping@, p).contains(k),
    ensures
        same_row(
            setup.ports_polled(hal, db, flags, vdm, now, n - 1),
            setup.ports_polled(hal, db, flags, vdm, now, n),
            t,
            k,
        ),
{
    let m = setup.port_mapping@;
    let q = setup.port_mapping.physical_to_logical.keys()[n - 1];
    let before = setup.ports_polled(hal, db, flags, vdm, now, n - 1);
    match m.first_logical(q) {
        Some(other) => {
            assert(ports_of(m, q)[0] == other);
            assert(ports_of(m, q).contains(other));
            law_poll_of_a_port_spares_the_others(setup, hal, before, q, other, flags, vdm, now);
            assert(!ports_of(m, q).contains(k));
        },
        None => {},
    }
}

proof fn lemma_steps_before(
    setup: &DomSetup,
    hal: &Hal,
    db: DbState,
    flags: bool,
    vdm: bool,
    now: u64,
    p: usize,
    n: int,
    t: TableId,
    k: Seq<char>,
)
    requires
        consistent(setup.port_mapping@),
        plainly_named(setup.port_mapping@),
        0 <= n <= setup.port_mapping.physical_to_logical.keys().len(),
        forall|j: int| 0 <= j < n ==> #[trigger] setup.port_mapping.physical_to_logical.keys()[j] != p,
        ports_of(setup.port_mapping@, p).contains(k),
    ensures
        same_row(db, setup.ports_polled(hal, db, flags, vdm, now, n), t, k),
    decreases n,
{
    if n > 0 {
        lemma_steps_before(setup, hal, db, flags, vdm, now, p, n - 1, t, k);
        lemma_other_step(setup, hal, db, flags, vdm, now, p, n, t, k);
    }
}

proof fn lemma_steps_behind(
    setup: &DomSetup,
    hal: &Hal,
    db: DbState,
    flags: bool,
    vdm: bool,
    now: u64,
    p: usize,
    i: int,
    n: int,
    t: TableId,
    k: Seq<char>,
)
    requires
        consistent(setup.port_mapping@),
        plainly_named(setup.port_mapping@),
        comes_to(setup, p, i),
        i < n <= setup.port_mapping.physical_to_logical.keys().len(),
        ports_of(setup.port_mapping@, p).contains(k),
    ensures
        same_row(
            setup.ports_polled(hal, db, flags, vdm, now, i + 1),
            setup.ports_polled(hal, db, flags, vdm, now, n),
            t,
            k,
        ),
    decreases n,
{
    if n > i + 1 {
        lemma_steps_behind(setup, hal, db, flags, vdm, now, p, i, n - 1, t, k);
        lemma_other_step(setup, hal, db, flags, vdm, now, p, n, t, k);
    }
}

/// The tables before the poll comes to its `i`-th slot.
spec fn before_step(setup: &DomSetup, hal: &Hal, db: DbState, flags: bool, vdm: bool, now: u64, i: int) -> DbState {
    setup.ports_polled(hal, db, flags, vdm, now, i)
}

/// The rows of a port are the same before the poll and before it comes to the slot of
/// the port, and the same behind that step and behind the poll.
proof fn lemma_step(
    setup: &DomSetup,
    hal: &Hal,
    db: DbState,
    flags: bool,
    vdm: bool,
    now: u64,
    p: usize,
    port: Seq<char>,
    i: int,
    t: TableId,
    k: Seq<char>,
)
    requires
        open_to_polls(setup, hal, db, p, port),
        comes_to(setup, p, i),
        setup.port_mapping@.to_logical[p].contains(k),
    ensures
        ({
            let b = before_step(setup, hal, db, flags, vdm, now, i);
            &&& same_row(db, b, t, k)
            &&& same_row(setup.port_polled(hal, b, port, flags, vdm, now), polled_all(setup, hal, db, flags, vdm, now), t, k)
            &&& open_to_polls(setup, hal, b, p, port)
        }),
{
    let m = setup.port_mapping@;
    let b = before_step(setup, hal, db, flags, vdm, now, i);
    assert(ports_of(m, p) == m.to_logical[p]);
    assert(m.to_logical[p].contains(port)) by {
        assert(m.to_logical[p].len() > 0);
        assert(m.to_logical[p][0] == port);
    }
    lemma_steps_before(setup, hal, db, flags, vdm, now, p, i, t, k);
    lemma_steps_before(setup, hal, db, flags, vdm, now, p, i, setup.cfg_port_tbl, port);
    lemma_steps_before(setup, hal, db, flags, vdm, now, p, i, setup.status_sw_tbl, port);
    lemma_steps_behind(
        setup,
        hal,
        db,
        flags,
        vdm,
        now,
        p,
        i,
        setup.port_mapping.physical_to_logical.keys().len() as int,
        t,
        k,
    );
    assert(m.first_logical(p) == Some(port));
    assert(setup.ports_polled(hal, db, flags, vdm, now, i + 1) == setup.port_polled(hal, b, port, flags, vdm, now));
}

proof fn lemma_monitors_row(
    db: DbState,
    m: Mapping,
    hal: &Hal,
    port: Seq<char>,
    p: usize,
    t: TableId,
    what: Diagnostic,
    kind: Beautifier,
    now: u64,
    d: DictState,
    k: Seq<char>,
)
    requires
        plugged(m, hal, port, p),
        diagnosed(hal.sfps@[p as int], what) == Some(ReplyState::Object(d)),
        d.contains_key(k),
    ensures
        ({
            let after = monitors_posted(db, Map::empty(), false, m, hal, port, t, what, kind, now);
            &&& k != "last_update_time"@ ==> field_at(after, t, port, k) == Some(shown_text(kind, k, d[k]))
            &&& field_at(after, t, port, "last_update_time"@) == Some(utc_text(now))
        }),
{
    assert(d.dom().contains(k));
}

/// The flags of a port are published as they are shown, with the time, and their history
/// is kept.
pub proof fn lemma_flags_row(
    db: DbState,
    m: Mapping,
    hal: &Hal,
    port: Seq<char>,
    p: usize,
    what: Diagnostic,
    kind: Beautifier,
    ft: FlagTables,
    now: u64,
    d: DictState,
    k: Seq<char>,
    count: int,
)
    requires
        plugged(m, hal, port, p),
        diagnosed(hal.sfps@[p as int], what) == Some(ReplyState::Object(d)),
        d.contains_key(k),
        ft.distinct(),
    ensures
        ({
            let after = port_flags_posted(db, Map::empty(), false, m, hal, port, what, kind, ft, now);
            &&& k != "last_update_time"@ ==> field_at(after, ft.value, port, k) == Some(shown_text(kind, k, d[k]))
            &&& field_at(after, ft.value, port, "last_update_time"@) == Some(utc_text(now))
            &&& history_kept(db, after, ft, port, k, d[k], count, utc_text(now))
        }),
{
    assert(d.dom().contains(k));
    law_flag_history_is_kept(db, port, d, utc_text(now), ft, k, count);
}

/// A poll publishes every monitor that a module reports, as it is shown, with the time.
pub proof fn law_poll_publishes_the_monitors(
    setup: &DomSetup,
    hal: &Hal,
    db: DbState,
    flags: bool,
    vdm: bool,
    now: u64,
    p: usize,
    port: Seq<char>,
    i: int,
    d: Dict,
    k: Seq<char>,
)
    requires
        open_to_polls(setup, hal, db, p, port),
        comes_to(setup, p, i),
        apart_from_flags(setup, setup.dom_tbl),
        apart_from_vdm(setup, setup.dom_tbl),
        hal.sfps@[p as int].dom_real_value == Ok::<Reply, XcvrdError>(Reply::Object(d)),
        d@.contains_key(k),
    ensures
        ({
            let after = polled_all(setup, hal, db, flags, vdm, now);
            &&& k != "last_update_time"@ ==> field_at(after, setup.dom_tbl, port, k) == Some(monitor_text(k, d@[k]))
            &&& field_at(after, setup.dom_tbl, port, "last_update_time"@) == Some(utc_text(now))
        }),
{
    let m = setup.port_mapping@;
    let t = setup.dom_tbl;
    let b = before_step(setup, hal, db, flags, vdm, now, i);
    assert(m.to_logical[p].contains(port)) by {
        assert(m.to_logical[p][0] == port);
    }
    lemma_step(setup, hal, db, flags, vdm, now, p, port, i, t, port);
    lemma_open_is_polled(setup, hal, b, p, port);
    lemma_monitors_row(b, m, hal, port, p, t, Diagnostic::DomSensor, Beautifier::Dom, now, d@, k);
    let d1 = setup.sensor_posted(hal, b, port, now);
    lemma_rest_spares(setup, hal, d1, port, flags, vdm, now, t);
    lemma_polled_in_steps(setup, hal, b, port, flags, vdm, now);
    assert(d1.contains_key((t, port)));
}

/// The tables of a port after its monitors were published.
spec fn after_flags(setup: &DomSetup, hal: &Hal, d1: DbState, port: Seq<char>, flags: bool, now: u64) -> DbState {
    match setup.flag_status_tables {
        Some(ft) => setup.flag_status_posted(hal, d1, port, ft, flags, now),
        None => d1,
    }
}

/// The tables of a port after its flags and its hardware status were published.
spec fn after_vdm(setup: &DomSetup, hal: &Hal, d2: DbState, port: Seq<char>, vdm: bool, now: u64) -> DbState {
    match setup.vdm_pm_fw {
        Some(vpf) => if vdm {
            setup.vdm_block_posted(hal, d2, port, vpf, now)
        } else {
            d2
        },
        None => d2,
    }
}

proof fn lemma_polled_in_steps(setup: &DomSetup, hal: &Hal, b: DbState, port: Seq<char>, flags: bool, vdm: bool, now: u64)
    requires
        setup.polled(b, port),
    ensures
        setup.port_polled(hal, b, port, flags, vdm, now) == after_vdm(
            setup,
            hal,
            after_flags(setup, hal, setup.sensor_posted(hal, b, port, now), port, flags, now),
            port,
            vdm,
            now,
        ),
{
}

proof fn lemma_vdm_spares(setup: &DomSetup, hal: &Hal, d2: DbState, port: Seq<char>, vdm: bool, now: u64, t: TableId)
    requires
        apart_from_vdm(setup, t),
    ensures
        same_table(d2, after_vdm(setup, hal, d2, port, vdm, now), t),
{
    match setup.vdm_pm_fw {
        Some(v) => {
            lemma_vdm_block(setup, hal, d2, port, v, now, t);
        },
        None => {},
    }
}

proof fn lemma_flags_spare(setup: &DomSetup, hal: &Hal, d1: DbState, port: Seq<char>, flags: bool, now: u64, t: TableId)
    requires
        apart_from_flags(setup, t),
    ensures
        same_table(d1, after_flags(setup, hal, d1, port, flags, now), t),
{
    match setup.flag_status_tables {
        Some(ft) => {
            lemma_flag_status(setup, hal, d1, port, ft, flags, now, t);
        },
        None => {},
    }
}

proof fn lemma_rest_spares(setup: &DomSetup, hal: &Hal, d1: DbState, port: Seq<char>, flags: bool, vdm: bool, now: u64, t: TableId)
    requires
        apart_from_flags(setup, t),
        apart_from_vdm(setup, t),
    ensures
        same_table(
            d1,
            after_vdm(setup, hal, after_flags(setup, hal, d1, port, flags, now), port, vdm, now),
            t,
        ),
{
    let d2 = after_flags(setup, hal, d1, port, flags, now);
    lemma_flags_spare(setup, hal, d1, port, flags, now, t);
    lemma_vdm_spares(setup, hal, d2, port, vdm, now, t);
    lemma_same_chain(d1, d2, after_vdm(setup, hal, d2, port, vdm, now), t);
}

/// The tables of the monitor flags.
pub open spec fn monitor_history(ft: FlagStatusTables) -> FlagTables {
    FlagTables {
        value: ft.dom_flag_tbl,
        change_count: ft.dom_flag_change_count_tbl,
        set_time: ft.dom_flag_set_time_tbl,
        clear_time: ft.dom_flag_clear_time_tbl,
    }
}

/// The tables of the status flags.
pub open spec fn status_history(ft: FlagStatusTables) -> FlagTables {
    FlagTables {
        value: ft.status_flag_tbl,
        change_count: ft.status_flag_change_count_tbl,
        set_time: ft.status_flag_set_time_tbl,
        clear_time: ft.status_flag_clear_time_tbl,
    }
}

/// The tables of the monitors, the flags and the hardware status are different ones,
/// and none of those of the versatile diagnostics.
pub open spec fn flag_tables_apart(setup: &DomSetup, ft: FlagStatusTables) -> bool {
    let x = monitor_history(ft);
    let y = status_history(ft);
    &&& x.distinct()
    &&& y.distinct()
    &&& kinds_apart(x, y)
    &&& no_table_of(x, ft.status_tbl)
    &&& no_table_of(y, ft.status_tbl)
    &&& no_table_of(x, setup.dom_tbl)
    &&& no_table_of(y, setup.dom_tbl)
    &&& setup.dom_tbl != ft.status_tbl
    &&& apart_from_vdm(setup, setup.dom_tbl)
    &&& apart_from_vdm(setup, ft.status_tbl)
    &&& all_apart_from_vdm(setup, x)
    &&& all_apart_from_vdm(setup, y)
}

/// The table is none of the four.
pub open spec fn no_table_of(x: FlagTables, t: TableId) -> bool {
    t != x.value && t != x.change_count && t != x.set_time && t != x.clear_time
}

/// The four tables are none of those of the versatile diagnostics.
pub open spec fn all_apart_from_vdm(setup: &DomSetup, x: FlagTables) -> bool {
    &&& apart_from_vdm(setup, x.value)
    &&& apart_from_vdm(setup, x.change_count)
    &&& apart_from_vdm(setup, x.set_time)
    &&& apart_from_vdm(setup, x.clear_time)
}

/// The four rows of the port are the same in both.
pub open spec fn same_four(a: DbState, b: DbState, x: FlagTables, port: Seq<char>) -> bool {
    &&& same_row(a, b, x.value, port)
    &&& same_row(a, b, x.change_count, port)
    &&& same_row(a, b, x.set_time, port)
    &&& same_row(a, b, x.clear_time, port)
}

/// What is kept of a history holds between tables that show the same of it.
pub proof fn lemma_history_moves(
    b0: DbState,
    b1: DbState,
    a0: DbState,
    a1: DbState,
    x: FlagTables,
    port: Seq<char>,
    k: Seq<char>,
    v: Val,
    count: int,
    time: Seq<char>,
)
    requires
        history_kept(b0, a0, x, port, k, v, count, time),
        same_four(b0, b1, x, port),
        same_four(a0, a1, x, port),
    ensures
        history_kept(b1, a1, x, port, k, v, count, time),
        field_at(a1, x.value, port, k) == field_at(a0, x.value, port, k),
        field_at(a1, x.value, port, "last_update_time"@) == field_at(a0, x.value, port, "last_update_time"@),
{
}

proof fn lemma_step_four(
    setup: &DomSetup,
    hal: &Hal,
    db: DbState,
    flags: bool,
    vdm: bool,
    now: u64,
    p: usize,
    port: Seq<char>,
    i: int,
    x: FlagTables,
)
    requires
        open_to_polls(setup, hal, db, p, port),
        comes_to(setup, p, i),
    ensures
        ({
            let b = before_step(setup, hal, db, flags, vdm, now, i);
            &&& same_four(b, db, x, port)
            &&& same_four(
                setup.port_polled(hal, b, port, flags, vdm, now),
                polled_all(setup, hal, db, flags, vdm, now),
                x,
                port,
            )
            &&& open_to_polls(setup, hal, b, p, port)
        }),
{
    let m = setup.port_mapping@;
    assert(m.to_logical[p].contains(port)) by {
        assert(m.to_logical[p][0] == port);
    }
    lemma_step(setup, hal, db, flags, vdm, now, p, port, i, x.value, port);
    lemma_step(setup, hal, db, flags, vdm, now, p, port, i, x.change_count, port);
    lemma_step(setup, hal, db, flags, vdm, now, p, port, i, x.set_time, port);
    lemma_step(setup, hal, db, flags, vdm, now, p, port, i, x.clear_time, port);
}

/// Tables that are the same have the same rows.
pub proof fn lemma_row_of_table(a: DbState, b: DbState, t: TableId, k: Seq<char>)
    requires
        same_table(a, b, t),
    ensures
        same_row(a, b, t, k),
{
    assert(b.contains_key((t, k)) == a.contains_key((t, k)));
}

proof fn lemma_vdm_spares_four(setup: &DomSetup, hal: &Hal, d2: DbState, port: Seq<char>, vdm: bool, now: u64, x: FlagTables)
    requires
        all_apart_from_vdm(setup, x),
    ensures
        same_four(d2, after_vdm(setup, hal, d2, port, vdm, now), x, port),
{
    let after = after_vdm(setup, hal, d2, port, vdm, now);
    lemma_vdm_spares(setup, hal, d2, port, vdm, now, x.value);
    lemma_vdm_spares(setup, hal, d2, port, vdm, now, x.change_count);
    lemma_vdm_spares(setup, hal, d2, port, vdm, now, x.set_time);
    lemma_vdm_spares(setup, hal, d2, port, vdm, now, x.clear_time);
    lemma_row_of_table(d2, after, x.value, port);
    lemma_row_of_table(d2, after, x.change_count, port);
    lemma_row_of_table(d2, after, x.set_time, port);
    lemma_row_of_table(d2, after, x.clear_time, port);
}

proof fn lemma_one_row_spares_four(
    db: DbState,
    m: Mapping,
    hal: &Hal,
    port: Seq<char>,
    t: TableId,
    what: Diagnostic,
    kind: Beautifier,
    now: u64,
    x: FlagTables,
)
    requires
        no_table_of(x, t),
    ensures
        same_four(db, monitors_posted(db, Map::empty(), false, m, hal, port, t, what, kind, now), x, port),
{
}

/// Flags of one kind leave the tables of another alone.
pub proof fn lemma_flags_spare_four(
    db: DbState,
    m: Mapping,
    hal: &Hal,
    port: Seq<char>,
    what: Diagnostic,
    kind: Beautifier,
    now: u64,
    y: FlagTables,
    x: FlagTables,
)
    requires
        kinds_apart(x, y),
    ensures
        same_four(db, port_flags_posted(db, Map::empty(), false, m, hal, port, what, kind, y, now), x, port),
{
}

/// A poll publishes every entry of the hardware status, by its text, with the time.
pub proof fn law_poll_publishes_the_status(
    setup: &DomSetup,
    hal: &Hal,
    db: DbState,
    flags: bool,
    vdm: bool,
    now: u64,
    p: usize,
    port: Seq<char>,
    i: int,
    ft: FlagStatusTables,
    d: Dict,
    k: Seq<char>,
)
    requires
        open_to_polls(setup, hal, db, p, port),
        comes_to(setup, p, i),
        setup.flag_status_tables == Some(ft),
        flag_tables_apart(setup, ft),
        hal.sfps@[p as int].status == Ok::<Reply, XcvrdError>(Reply::Object(d)),
        d@.contains_key(k),
    ensures
        ({
            let after = polled_all(setup, hal, db, flags, vdm, now);
            &&& k != "last_update_time"@ ==> field_at(after, ft.status_tbl, port, k) == Some(py_str(d@[k]))
            &&& field_at(after, ft.status_tbl, port, "last_update_time"@) == Some(utc_text(now))
        }),
{
    let m = setup.port_mapping@;
    let t = ft.status_tbl;
    let b = before_step(setup, hal, db, flags, vdm, now, i);
    assert(m.to_logical[p].contains(port)) by {
        assert(m.to_logical[p][0] == port);
    }
    lemma_step(setup, hal, db, flags, vdm, now, p, port, i, t, port);
    lemma_open_is_polled(setup, hal, b, p, port);
    lemma_polled_in_steps(setup, hal, b, port, flags, vdm, now);
    let d1 = setup.sensor_posted(hal, b, port, now);
    let d1f = if flags {
        setup.dom_flags_posted(hal, d1, port, ft, now)
    } else {
        d1
    };
    lemma_monitors_row(d1f, m, hal, port, p, t, Diagnostic::Status, Beautifier::Plain, now, d@, k);
    let d2 = after_flags(setup, hal, d1, port, flags, now);
    assert(same_row(setup.status_posted(hal, d1f, port, ft, now), d2, t, port));
    lemma_vdm_spares(setup, hal, d2, port, vdm, now, t);
    lemma_row_of_table(d2, after_vdm(setup, hal, d2, port, vdm, now), t, port);
}

/// A poll of flags publishes every monitor flag as it is shown, with the time, and keeps
/// its history.
pub proof fn law_poll_publishes_the_monitor_flags(
    setup: &DomSetup,
    hal: &Hal,
    db: DbState,
    vdm: bool,
    now: u64,
    p: usize,
    port: Seq<char>,
    i: int,
    ft: FlagStatusTables,
    d: Dict,
    k: Seq<char>,
    count: int,
)
    requires
        open_to_polls(setup, hal, db, p, port),
        comes_to(setup, p, i),
        setup.flag_status_tables == Some(ft),
        flag_tables_apart(setup, ft),
        hal.sfps@[p as int].dom_flags == Ok::<Reply, XcvrdError>(Reply::Object(d)),
        d@.contains_key(k),
    ensures
        ({
            let after = polled_all(setup, hal, db, true, vdm, now);
            &&& k != "last_update_time"@ ==> field_at(after, ft.dom_flag_tbl, port, k) == Some(monitor_text(k, d@[k]))
            &&& field_at(after, ft.dom_flag_tbl, port, "last_update_time"@) == Some(utc_text(now))
            &&& history_kept(db, after, monitor_history(ft), port, k, d@[k], count, utc_text(now))
        }),
{
    let m = setup.port_mapping@;
    let x = monitor_history(ft);
    let y = status_history(ft);
    let b = before_step(setup, hal, db, true, vdm, now, i);
    lemma_step_four(setup, hal, db, true, vdm, now, p, port, i, x);
    lemma_open_is_polled(setup, hal, b, p, port);
    lemma_polled_in_steps(setup, hal, b, port, true, vdm, now);
    let d1 = setup.sensor_posted(hal, b, port, now);
    let d2 = setup.dom_flags_posted(hal, d1, port, ft, now);
    let d3 = setup.status_posted(hal, d2, port, ft, now);
    let d4 = setup.status_flags_posted(hal, d3, port, ft, now);
    let d5 = after_vdm(setup, hal, d4, port, vdm, now);
    assert(d4 == after_flags(setup, hal, d1, port, true, now));
    lemma_one_row_spares_four(b, m, hal, port, setup.dom_tbl, Diagnostic::DomSensor, Beautifier::Dom, now, x);
    lemma_flags_row(d1, m, hal, port, p, Diagnostic::DomFlags, Beautifier::Dom, x, now, d@, k, count);
    lemma_one_row_spares_four(d2, m, hal, port, ft.status_tbl, Diagnostic::Status, Beautifier::Plain, now, x);
    lemma_flags_spare_four(d3, m, hal, port, Diagnostic::StatusFlags, Beautifier::Plain, now, y, x);
    lemma_vdm_spares_four(setup, hal, d4, port, vdm, now, x);
    lemma_history_moves(d1, db, d2, d5, x, port, k, d@[k], count, utc_text(now));
    lemma_history_moves(
        db,
        db,
        d5,
        polled_all(setup, hal, db, true, vdm, now),
        x,
        port,
        k,
        d@[k],
        count,
        utc_text(now),
    );
}

/// A poll of flags publishes every status flag by its text, with the time, and keeps
/// its history.
pub proof fn law_poll_publishes_the_status_flags(
    setup: &DomSetup,
    hal: &Hal,
    db: DbState,
    vdm: bool,
    now: u64,
    p: usize,
    port: Seq<char>,
    i: int,
    ft: FlagStatusTables,
    d: Dict,
    k: Seq<char>,
    count: int,
)
    requires
        open_to_polls(setup, hal, db, p, port),
        comes_to(setup, p, i),
        setup.flag_status_tables == Some(ft),
        flag_tables_apart(setup, ft),
        hal.sfps@[p as int].status_flags == Ok::<Reply, XcvrdError>(Reply::Object(d)),
        d@.contains_key(k),
    ensures
        ({
            let after = polled_all(setup, hal, db, true, vdm, now);
            &&& k != "last_update_time"@ ==> field_at(after, ft.status_flag_tbl, port, k) == Some(py_str(d@[k]))
            &&& field_at(after, ft.status_flag_tbl, port, "last_update_time"@) == Some(utc_text(now))
            &&& history_kept(db, after, status_history(ft), port, k, d@[k], count, utc_text(now))
        }),
{
    let m = setup.port_mapping@;
    let x = status_history(ft);
    let y = monitor_history(ft);
    let b = before_step(setup, hal, db, true, vdm, now, i);
    lemma_step_four(setup, hal, db, true, vdm, now, p, port, i, x);
    lemma_open_is_polled(setup, hal, b, p, port);
    lemma_polled_in_steps(setup, hal, b, port, true, vdm, now);
    let d1 = setup.sensor_posted(hal, b, port, now);
    let d2 = setup.dom_flags_posted(hal, d1, port, ft, now);
    let d3 = setup.status_posted(hal, d2, port, ft, now);
    let d4 = setup.status_flags_posted(hal, d3, port, ft, now);
    let d5 = after_vdm(setup, hal, d4, port, vdm, now);
    assert(d4 == after_flags(setup, hal, d1, port, true, now));
    assert(kinds_apart(x, y));
    lemma_one_row_spares_four(b, m, hal, port, setup.dom_tbl, Diagnostic::DomSensor, Beautifier::Dom, now, x);
    lemma_flags_spare_four(d1, m, hal, port, Diagnostic::DomFlags, Beautifier::Dom, now, y, x);
    lemma_one_row_spares_four(d2, m, hal, port, ft.status_tbl, Diagnostic::Status, Beautifier::Plain, now, x);
    lemma_flags_row(d3, m, hal, port, p, Diagnostic::StatusFlags, Beautifier::Plain, x, now, d@, k, count);
    lemma_vdm_spares_four(setup, hal, d4, port, vdm, now, x);
    lemma_history_moves(d3, db, d4, d5, x, port, k, d@[k], count, utc_text(now));
    lemma_history_moves(
        db,
        db,
        d5,
        polled_all(setup, hal, db, true, vdm, now),
        x,
        port,
        k,
        d@[k],
        count,
        utc_text(now),
    );
}

/// The tables of the firmware, of the performance monitoring and of the real values are
/// different ones, and none of those of the versatile flags.
pub open spec fn vdm_tables_apart(v: VdmPmFirmwareTables) -> bool {
    &&& v.firmware_info_tbl != v.pm_tbl
    &&& v.firmware_info_tbl != v.vdm_real_value_tbl
    &&& v.pm_tbl != v.vdm_real_value_tbl
    &&& apart_from_kinds(v.vdm_flag_tables, v.firmware_info_tbl)
    &&& apart_from_kinds(v.vdm_flag_tables, v.pm_tbl)
    &&& apart_from_kinds(v.vdm_flag_tables, v.vdm_real_value_tbl)
}

/// The statistics of a module are read: it has them, is not in low-power mode, and has
/// frozen them.
pub open spec fn statistics_frozen(s: Sfp) -> bool {
    &&& s.vdm_statistic_supported == Ok::<Value, XcvrdError>(Value::Bool(true))
    &&& s.lpmode != Ok::<bool, XcvrdError>(true)
    &&& confirmed(s.vdm_freeze)
}

proof fn lemma_none_confirms(polls: Seq<(u64, XResult<Value>)>, i: int)
    requires
        0 <= i,
        forall|j: int| i <= j < polls.len() ==> (#[trigger] polls[j]).1 != Ok::<Value, XcvrdError>(Value::Bool(true)),
    ensures
        !polls_confirm(polls, i),
    decreases polls.len() - i,
{
    if i < polls.len() {
        assert(polls[i].1 != Ok::<Value, XcvrdError>(Value::Bool(true)));
        lemma_none_confirms(polls, i + 1);
    }
}

proof fn lemma_one_confirms(polls: Seq<(u64, XResult<Value>)>, i: int, j: int)
    requires
        0 <= i <= j < polls.len(),
        forall|x: int| i <= x <= j ==> (#[trigger] polls[x]).0 < 1000,
        polls[j].1 == Ok::<Value, XcvrdError>(Value::Bool(true)),
    ensures
        polls_confirm(polls, i),
    decreases j - i,
{
    assert(polls[i].0 < 1000);
    if i < j {
        lemma_one_confirms(polls, i + 1, j);
    }
}

/// A freeze is confirmed where it was accepted and one of the answers says that it is
/// done, all of them up to that one within a second; it is not where it was not accepted,
/// where no answer says so, and where the first one comes too late.
pub proof fn law_freeze_is_confirmed_within_a_second(h: Handshake, j: int)
    ensures
        h.action == Ok::<Value, XcvrdError>(Value::Bool(true)) && 0 <= j < h.polls@.len() && (forall|x: int|
            0 <= x <= j ==> (#[trigger] h.polls@[x]).0 < 1000) && h.polls@[j].1 == Ok::<Value, XcvrdError>(
            Value::Bool(true),
        ) ==> confirmed(h),
        h.action != Ok::<Value, XcvrdError>(Value::Bool(true)) ==> !confirmed(h),
        (forall|x: int|
            0 <= x < h.polls@.len() ==> (#[trigger] h.polls@[x]).1 != Ok::<Value, XcvrdError>(Value::Bool(true)))
            ==> !confirmed(h),
        h.polls@.len() > 0 && h.polls@[0].0 >= 1000 ==> !confirmed(h),
{
    let polls = h.polls@;
    if forall|x: int| 0 <= x < polls.len() ==> (#[trigger] polls[x]).1 != Ok::<Value, XcvrdError>(Value::Bool(true)) {
        lemma_none_confirms(polls, 0);
    }
    if 0 <= j < polls.len() && (forall|x: int| 0 <= x <= j ==> (#[trigger] polls[x]).0 < 1000) && polls[j].1 == Ok::<
        Value,
        XcvrdError,
    >(Value::Bool(true)) {
        lemma_one_confirms(polls, 0, j);
    }
}

/// The tables of a port after its performance monitoring was published.
spec fn after_pm(setup: &DomSetup, hal: &Hal, d: DbState, p: usize, port: Seq<char>, v: VdmPmFirmwareTables) -> DbState {
    if statistics_frozen(hal.sfps@[p as int]) {
        pm_posted(d, setup.port_mapping@, hal, port, v.pm_tbl)
    } else {
        d
    }
}

/// The real values of a module.
spec fn real_values(s: Sfp) -> DictState {
    if statistics_frozen(s) {
        dict_read(s.vdm_real_value_basic).union_prefer_right(dict_read(s.vdm_real_value_statistic))
    } else {
        dict_read(s.vdm_real_value_basic)
    }
}

proof fn lemma_block_in_steps(
    setup: &DomSetup,
    hal: &Hal,
    d2: DbState,
    p: usize,
    port: Seq<char>,
    v: VdmPmFirmwareTables,
    now: u64,
)
    requires
        plugged(setup.port_mapping@, hal, port, p),
    ensures
        ({
            let m = setup.port_mapping@;
            let f1 = firmware_posted(d2, m, hal, port, v.firmware_info_tbl);
            let f2 = after_pm(setup, hal, f1, p, port, v);
            let f3 = real_values_posted(
                f2,
                false,
                m,
                hal,
                port,
                v.vdm_real_value_tbl,
                real_values(hal.sfps@[p as int]),
                now,
            );
            setup.vdm_block_posted(hal, d2, port, v, now) == if hal.sfps@[p as int].vdm_supported == Ok::<
                Value,
                XcvrdError,
            >(Value::Bool(true)) {
                vdm_flags_posted(f3, false, m, hal, port, v.vdm_flag_tables, now)
            } else {
                f1
            }
        }),
{
}

proof fn lemma_kinds(v: VdmFlagTables, t: TableId)
    requires
        apart_from_kinds(v, t),
    ensures
        outside_vdm(v, t),
{
}

proof fn lemma_named_rows(db: DbState, t: TableId, names: Seq<Seq<char>>, f: Fields, n: int, at: int, k: Seq<char>)
    requires
        0 <= at < n <= names.len(),
        f.contains_key(k),
    ensures
        field_at(set_for_names(db, t, names, f, n), t, names[at], k) == Some(f[k]),
    decreases n,
{
    if at < n - 1 {
        lemma_named_rows(db, t, names, f, n - 1, at, k);
    }
}

/// A poll of the versatile diagnostics publishes the firmware versions that a module
/// reports, each by its text, for every logical port of its slot.
pub proof fn law_poll_publishes_the_firmware(
    setup: &DomSetup,
    hal: &Hal,
    db: DbState,
    flags: bool,
    now: u64,
    p: usize,
    port: Seq<char>,
    i: int,
    v: VdmPmFirmwareTables,
    at: int,
    d: Dict,
    k: Seq<char>,
)
    requires
        open_to_polls(setup, hal, db, p, port),
        comes_to(setup, p, i),
        setup.vdm_pm_fw == Some(v),
        vdm_tables_apart(v),
        0 <= at < setup.port_mapping@.to_logical[p].len(),
        hal.sfps@[p as int].firmware_versions == Ok::<Reply, XcvrdError>(Reply::Object(d)),
        d@.contains_key(k),
    ensures
        field_at(
            polled_all(setup, hal, db, flags, true, now),
            v.firmware_info_tbl,
            setup.port_mapping@.to_logical[p][at],
            k,
        ) == Some(py_str(d@[k])),
{
    let m = setup.port_mapping@;
    let t = v.firmware_info_tbl;
    let sib = m.to_logical[p][at];
    assert(m.to_logical[p].contains(sib));
    let b = before_step(setup, hal, db, flags, true, now, i);
    lemma_step(setup, hal, db, flags, true, now, p, port, i, t, sib);
    lemma_open_is_polled(setup, hal, b, p, port);
    lemma_polled_in_steps(setup, hal, b, port, flags, true, now);
    let d2 = after_flags(setup, hal, setup.sensor_posted(hal, b, port, now), port, flags, now);
    lemma_block_in_steps(setup, hal, d2, p, port, v, now);
    assert(d@.dom().contains(k));
    let f1 = firmware_posted(d2, m, hal, port, t);
    lemma_named_rows(d2, t, m.to_logical[p], shown(Beautifier::Plain, d@), m.to_logical[p].len() as int, at, k);
    let f2 = after_pm(setup, hal, f1, p, port, v);
    let f3 = real_values_posted(f2, false, m, hal, port, v.vdm_real_value_tbl, real_values(hal.sfps@[p as int]), now);
    lemma_kinds(v.vdm_flag_tables, t);
    lemma_vdm_flags(f3, m, hal, port, v.vdm_flag_tables, now, t);
    lemma_row_of_table(f3, vdm_flags_posted(f3, false, m, hal, port, v.vdm_flag_tables, now), t, sib);
    assert(same_row(f1, f3, t, sib));
}

/// A poll of the versatile diagnostics publishes the real values of a module that has
/// them, each by its text: those besides the statistics, and the statistics and the
/// performance monitoring where the module has frozen them.
pub proof fn law_poll_publishes_the_real_values(
    setup: &DomSetup,
    hal: &Hal,
    db: DbState,
    flags: bool,
    now: u64,
    p: usize,
    port: Seq<char>,
    i: int,
    v: VdmPmFirmwareTables,
    d: Dict,
    k: Seq<char>,
)
    requires
        open_to_polls(setup, hal, db, p, port),
        comes_to(setup, p, i),
        setup.vdm_pm_fw == Some(v),
        vdm_tables_apart(v),
        hal.sfps@[p as int].vdm_supported == Ok::<Value, XcvrdError>(Value::Bool(true)),
        d@.contains_key(k),
        k != "last_update_time"@,
    ensures
        ({
            let after = polled_all(setup, hal, db, flags, true, now);
            let s = hal.sfps@[p as int];
            let told = Ok::<Reply, XcvrdError>(Reply::Object(d));
            let value = field_at(after, v.vdm_real_value_tbl, port, k);
            &&& statistics_frozen(s) && s.vdm_real_value_statistic == told ==> value == Some(py_str(d@[k]))
            &&& s.vdm_real_value_basic == told && !(statistics_frozen(s) && dict_read(
                s.vdm_real_value_statistic,
            ).contains_key(k)) ==> value == Some(py_str(d@[k]))
            &&& statistics_frozen(s) && s.flat_memory != Ok::<Value, XcvrdError>(Value::Bool(true)) && s.pm == told
                ==> field_at(after, v.pm_tbl, port, k) == Some(py_str(d@[k]))
        }),
{
    let m = setup.port_mapping@;
    let s = hal.sfps@[p as int];
    assert(m.to_logical[p].contains(port)) by {
        assert(m.to_logical[p][0] == port);
    }
    let b = before_step(setup, hal, db, flags, true, now, i);
    lemma_step(setup, hal, db, flags, true, now, p, port, i, v.vdm_real_value_tbl, port);
    lemma_step(setup, hal, db, flags, true, now, p, port, i, v.pm_tbl, port);
    lemma_open_is_polled(setup, hal, b, p, port);
    lemma_polled_in_steps(setup, hal, b, port, flags, true, now);
    let d2 = after_flags(setup, hal, setup.sensor_posted(hal, b, port, now), port, flags, now);
    lemma_block_in_steps(setup, hal, d2, p, port, v, now);
    assert(d@.dom().contains(k));
    let f1 = firmware_posted(d2, m, hal, port, v.firmware_info_tbl);
    let f2 = after_pm(setup, hal, f1, p, port, v);
    let f3 = real_values_posted(f2, false, m, hal, port, v.vdm_real_value_tbl, real_values(s), now);
    let f4 = vdm_flags_posted(f3, false, m, hal, port, v.vdm_flag_tables, now);
    lemma_kinds(v.vdm_flag_tables, v.vdm_real_value_tbl);
    lemma_kinds(v.vdm_flag_tables, v.pm_tbl);
    lemma_vdm_flags(f3, m, hal, port, v.vdm_flag_tables, now, v.vdm_real_value_tbl);
    lemma_vdm_flags(f3, m, hal, port, v.vdm_flag_tables, now, v.pm_tbl);
    lemma_row_of_table(f3, f4, v.vdm_real_value_tbl, port);
    lemma_row_of_table(f3, f4, v.pm_tbl, port);
    if real_values(s).contains_key(k) {
        law_real_values_are_published(f2, m, hal, port, p, v.vdm_real_value_tbl, real_values(s), now, k);
    }
    assert(same_row(f2, f3, v.pm_tbl, port));
}

/// A poll of the versatile diagnostics publishes every flag of every kind in the table
/// of that very kind, by its text, and keeps its history there.
pub proof fn law_poll_publishes_the_versatile_flags(
    setup: &DomSetup,
    hal: &Hal,
    db: DbState,
    flags: bool,
    now: u64,
    p: usize,
    port: Seq<char>,
    i: int,
    v: VdmPmFirmwareTables,
    d: Dict,
    kind: int,
    a: Seq<char>,
    b: Seq<char>,
    count: int,
)
    requires
        open_to_polls(setup, hal, db, p, port),
        comes_to(setup, p, i),
        setup.vdm_pm_fw == Some(v),
        vdm_tables_apart(v),
        hal.sfps@[p as int].vdm_supported == Ok::<Value, XcvrdError>(Value::Bool(true)),
        hal.sfps@[p as int].vdm_flags == Ok::<Reply, XcvrdError>(Reply::Object(d)),
        0 <= kind < 4,
        tables_by_kind(v.vdm_flag_tables.flag).no_duplicates(),
        history_by_kind(v.vdm_flag_tables)[kind].distinct(),
        forall|j: int|
            0 <= j < 4 && j != kind ==> kinds_apart(
                history_by_kind(v.vdm_flag_tables)[kind],
                #[trigger] history_by_kind(v.vdm_flag_tables)[j],
            ),
        all_apart_from_others(setup, history_by_kind(v.vdm_flag_tables)[kind]),
        names_entry(d.keys(), marks()[kind], a, b),
    ensures
        ({
            let after = polled_all(setup, hal, db, flags, true, now);
            let x = history_by_kind(v.vdm_flag_tables)[kind];
            &&& a + b != "last_update_time"@ ==> field_at(after, x.value, port, a + b) == Some(
                py_str(d@[a + marks()[kind] + b]),
            )
            &&& field_at(after, x.value, port, "last_update_time"@) == Some(utc_text(now))
            &&& history_kept(db, after, x, port, a + b, d@[a + marks()[kind] + b], count, utc_text(now))
        }),
{
    let m = setup.port_mapping@;
    let s = hal.sfps@[p as int];
    let x = history_by_kind(v.vdm_flag_tables)[kind];
    let c = before_step(setup, hal, db, flags, true, now, i);
    lemma_step_four(setup, hal, db, flags, true, now, p, port, i, x);
    lemma_open_is_polled(setup, hal, c, p, port);
    lemma_polled_in_steps(setup, hal, c, port, flags, true, now);
    let d1 = setup.sensor_posted(hal, c, port, now);
    let d2 = after_flags(setup, hal, d1, port, flags, now);
    lemma_one_row_spares_four(c, m, hal, port, setup.dom_tbl, Diagnostic::DomSensor, Beautifier::Dom, now, x);
    lemma_flags_spare(setup, hal, d1, port, flags, now, x.value);
    lemma_flags_spare(setup, hal, d1, port, flags, now, x.change_count);
    lemma_flags_spare(setup, hal, d1, port, flags, now, x.set_time);
    lemma_flags_spare(setup, hal, d1, port, flags, now, x.clear_time);
    lemma_row_of_table(d1, d2, x.value, port);
    lemma_row_of_table(d1, d2, x.change_count, port);
    lemma_row_of_table(d1, d2, x.set_time, port);
    lemma_row_of_table(d1, d2, x.clear_time, port);
    lemma_block_in_steps(setup, hal, d2, p, port, v, now);
    let f1 = firmware_posted(d2, m, hal, port, v.firmware_info_tbl);
    let f2 = after_pm(setup, hal, f1, p, port, v);
    let f3 = real_values_posted(f2, false, m, hal, port, v.vdm_real_value_tbl, real_values(s), now);
    let f4 = vdm_flags_posted(f3, false, m, hal, port, v.vdm_flag_tables, now);
    lemma_kind_tables(v, kind);
    lemma_names_spare(d2, m, hal, port, v.firmware_info_tbl, x.value);
    lemma_names_spare(d2, m, hal, port, v.firmware_info_tbl, x.change_count);
    lemma_names_spare(d2, m, hal, port, v.firmware_info_tbl, x.set_time);
    lemma_names_spare(d2, m, hal, port, v.firmware_info_tbl, x.clear_time);
    assert(same_four(f1, f2, x, port));
    assert(same_four(f2, f3, x, port));
    law_flags_go_to_the_table_of_their_kind(f3, m, hal, port, p, v.vdm_flag_tables, now, d, kind, a, b);
    law_flag_history_is_kept_by_kind(f3, m, hal, port, p, v.vdm_flag_tables, now, d, kind, a, b, count);
    let k = a + b;
    let val = d@[a + marks()[kind] + b];
    lemma_history_moves(f3, db, f4, f4, x, port, k, val, count, utc_text(now));
    lemma_history_moves(
        db,
        db,
        f4,
        polled_all(setup, hal, db, flags, true, now),
        x,
        port,
        k,
        val,
        count,
        utc_text(now),
    );
}

/// The four tables are none of those of the monitors, the flags and the hardware status.
pub open spec fn all_apart_from_others(setup: &DomSetup, x: FlagTables) -> bool {
    &&& no_table_of(x, setup.dom_tbl)
    &&& apart_from_flags(setup, x.value)
    &&& apart_from_flags(setup, x.change_count)
    &&& apart_from_flags(setup, x.set_time)
    &&& apart_from_flags(setup, x.clear_time)
}

proof fn lemma_kind_tables(v: VdmPmFirmwareTables, kind: int)
    requires
        0 <= kind < 4,
        vdm_tables_apart(v),
    ensures
        no_table_of(history_by_kind(v.vdm_flag_tables)[kind], v.firmware_info_tbl),
        no_table_of(history_by_kind(v.vdm_flag_tables)[kind], v.pm_tbl),
        no_table_of(history_by_kind(v.vdm_flag_tables)[kind], v.vdm_real_value_tbl),
{
    let f = v.vdm_flag_tables;
    let x = history_by_kind(f)[kind];
    assert(tables_by_kind(f.flag)[kind] == x.value);
    assert(tables_by_kind(f.change_count)[kind] == x.change_count);
    assert(tables_by_kind(f.set_time)[kind] == x.set_time);
    assert(tables_by_kind(f.clear_time)[kind] == x.clear_time);
}

proof fn lemma_names_spare(db: DbState, m: Mapping, hal: &Hal, port: Seq<char>, fw: TableId, t: TableId)
    requires
        t != fw,
    ensures
        same_row(db, firmware_posted(db, m, hal, port, fw), t, port),
{
    match physical_of(m, port) {
        Some(p) => {
            let f = shown(Beautifier::Plain, dict_read(hal.sfps@[p as int].firmware_versions));
            let n = m.to_logical[p].len() as int;
            lemma_names_set(db, fw, m.to_logical[p], f, n, t);
            lemma_row_of_table(db, set_for_names(db, fw, m.to_logical[p], f, n), t, port);
        },
        None => {},
    }
}

/// A poll leaves the performance monitoring of a port alone where its module has no
/// versatile diagnostics, has not frozen its statistics, or has flat memory; and the real
/// values where it has no versatile diagnostics.
pub proof fn law_performance_monitoring_needs_a_freeze(
    setup: &DomSetup,
    hal: &Hal,
    db: DbState,
    flags: bool,
    vdm: bool,
    now: u64,
    p: usize,
    port: Seq<char>,
    i: int,
    v: VdmPmFirmwareTables,
)
    requires
        open_to_polls(setup, hal, db, p, port),
        comes_to(setup, p, i),
        setup.vdm_pm_fw == Some(v),
        vdm_tables_apart(v),
        setup.dom_tbl != v.pm_tbl,
        setup.dom_tbl != v.vdm_real_value_tbl,
        apart_from_flags(setup, v.pm_tbl),
        apart_from_flags(setup, v.vdm_real_value_tbl),
    ensures
        ({
            let after = polled_all(setup, hal, db, flags, vdm, now);
            let s = hal.sfps@[p as int];
            let yes = Ok::<Value, XcvrdError>(Value::Bool(true));
            &&& !vdm || s.vdm_supported != yes || !statistics_frozen(s) || s.flat_memory == yes ==> same_row(
                db,
                after,
                v.pm_tbl,
                port,
            )
            &&& !vdm || s.vdm_supported != yes ==> same_row(db, after, v.vdm_real_value_tbl, port)
        }),
{
    let m = setup.port_mapping@;
    let s = hal.sfps@[p as int];
    assert(m.to_logical[p].contains(port)) by {
        assert(m.to_logical[p][0] == port);
    }
    let b = before_step(setup, hal, db, flags, vdm, now, i);
    lemma_step(setup, hal, db, flags, vdm, now, p, port, i, v.vdm_real_value_tbl, port);
    lemma_step(setup, hal, db, flags, vdm, now, p, port, i, v.pm_tbl, port);
    lemma_open_is_polled(setup, hal, b, p, port);
    lemma_polled_in_steps(setup, hal, b, port, flags, vdm, now);
    let d1 = setup.sensor_posted(hal, b, port, now);
    let d2 = after_flags(setup, hal, d1, port, flags, now);
    assert(same_row(b, d1, v.pm_tbl, port));
    assert(same_row(b, d1, v.vdm_real_value_tbl, port));
    lemma_flags_spare(setup, hal, d1, port, flags, now, v.pm_tbl);
    lemma_flags_spare(setup, hal, d1, port, flags, now, v.vdm_real_value_tbl);
    lemma_row_of_table(d1, d2, v.pm_tbl, port);
    lemma_row_of_table(d1, d2, v.vdm_real_value_tbl, port);
    lemma_block_in_steps(setup, hal, d2, p, port, v, now);
    let f1 = firmware_posted(d2, m, hal, port, v.firmware_info_tbl);
    let f2 = after_pm(setup, hal, f1, p, port, v);
    let f3 = real_values_posted(f2, false, m, hal, port, v.vdm_real_value_tbl, real_values(s), now);
    let f4 = vdm_flags_posted(f3, false, m, hal, port, v.vdm_flag_tables, now);
    lemma_names_spare(d2, m, hal, port, v.firmware_info_tbl, v.pm_tbl);
    lemma_names_spare(d2, m, hal, port, v.firmware_info_tbl, v.vdm_real_value_tbl);
    lemma_kinds(v.vdm_flag_tables, v.pm_tbl);
    lemma_vdm_flags(f3, m, hal, port, v.vdm_flag_tables, now, v.pm_tbl);
    lemma_row_of_table(f3, f4, v.pm_tbl, port);
    assert(same_row(f2, f3, v.pm_tbl, port));
}

} // verus!
