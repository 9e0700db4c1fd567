//! What holds of the monitoring as a whole.

use vstd::prelude::*;
use vstd::string::*;
use crate::cmis::cmis_manager_task::{CmisSetup, World};
use crate::db::{field_at, fields_at, DbState, TableId};
use crate::dom::dom_mgr::{
    firmware_posted, four_tables, freeze_needed, link_event, not_due, pm_posted, set_for_names, terminal_name,
    DomSetup, FlagStatusTables, VdmPmFirmwareTables, LINK_CHANGE_DELAY_MSECS,
};
use crate::dom::utilities::db::{diagnostic_posted, flags_posted, readable_port, Beautifier, CacheState, Diagnostic};
use crate::dom::utilities::flags::FlagTables;
use crate::dom::utilities::vdm::{
    confirmed, flag_tables_of, real_values_posted, type_tracked, types_posted, types_tracked, vdm_flags_posted,
    VdmFlagTables,
};
use crate::hal::{dict_read, present, Hal};
use crate::xcvrd_utilities::common::{cmis_state_text, law_state_names_read_back, state_name, terminal, CmisState};
use crate::xcvrd_utilities::port_event_helper::{consistent, physical_of, ports_of, EventState, Mapping, PortChangeEventType};
use crate::xcvrd_utilities::sfp_status_helper::error_blocked;
use crate::xcvrd_utilities::xcvr_table_helper::VdmType;

verus! {

/// While the bring-up of a port is under way, where the configuration turns its
/// monitoring off, and where an error keeps its EEPROM from being read, nothing is
/// written for the port, neither by a poll nor after a link change.
pub proof fn law_unpolled_port_is_left_alone(
    setup: &DomSetup,
    hal: &Hal,
    db: DbState,
    port: Seq<char>,
    physical: usize,
    include_flags: bool,
    include_vdm: bool,
    now: u64,
)
    requires
        !setup.deconfigured(port),
        setup.cmis_initializing(db, port) || setup.polling_disabled(db, port) || error_blocked(
            db,
            setup.status_sw_tbl,
            port,
        ),
    ensures
        setup.port_polled(hal, db, port, include_flags, include_vdm, now) == db,
        setup.port_mapping@.first_logical(physical) == Some(port) ==> setup.link_change_posted(
            hal,
            db,
            physical,
            now,
        ) == db,
{
}

/// The rows of a port that the configuration has no more are gone from every table
/// that the monitoring writes, and no other row is touched.
pub proof fn law_deconfigured_port_is_purged(
    setup: &DomSetup,
    hal: &Hal,
    db: DbState,
    port: Seq<char>,
    include_flags: bool,
    include_vdm: bool,
    now: u64,
    t: TableId,
    key: Seq<char>,
)
    requires
        setup.deconfigured(port),
        physical_of(setup.port_mapping@, port) is Some,
    ensures
        ({
            let after = setup.port_polled(hal, db, port, include_flags, include_vdm, now);
            &&& after.contains_key((t, key)) <==> db.contains_key((t, key)) && !(key == port
                && setup.owned_tables().contains(t))
            &&& after.contains_key((t, key)) ==> after[(t, key)] == db[(t, key)]
        }),
{
}

/// The monitoring takes the bring-up to have ended in the states in which it has.
pub proof fn law_gate_follows_bring_up(s: CmisState)
    ensures
        terminal_name(state_name(s)) == terminal(s),
{
    law_state_names_read_back(s);
    law_state_names_read_back(CmisState::Failed);
    law_state_names_read_back(CmisState::Ready);
    law_state_names_read_back(CmisState::Removed);
}

/// Writing a state of the bring-up opens or closes the monitoring of a port: it is
/// open in the states in which the bring-up has ended, and closed in the others.
pub proof fn law_bring_up_state_gates_monitoring(
    dom: &DomSetup,
    cmis: &CmisSetup,
    w: World,
    port: Seq<char>,
    s: CmisState,
)
    requires
        dom.status_sw_tbl == cmis.status_sw_tbl,
        !dom.skip_cmis_mgr,
        dom.port_mapping@.asic_of(port) is Some,
    ensures
        dom.cmis_initializing(cmis.with_state(w, port, s).db, port) == !terminal(s),
{
    law_gate_follows_bring_up(s);
}

/// A module that is not there, a port that is not mapped, and a daemon that stops
/// leave the tables as they are.
pub proof fn law_unreadable_module_posts_nothing(
    db: DbState,
    cache: CacheState,
    stop: bool,
    m: Mapping,
    hal: &Hal,
    port: Seq<char>,
    t: TableId,
    what: Diagnostic,
    kind: Beautifier,
    ft: FlagTables,
    now: u64,
)
    requires
        stop || m.first_physical(port) is None || (m.first_physical(port) matches Some(p) && !present(
            hal,
            p,
        )),
    ensures
        diagnostic_posted(db, cache, stop, m, hal, port, t, what, kind, now) == db,
        flags_posted(db, cache, stop, m, hal, port, what, kind, ft, now) == db,
{
}

/// A module that was read once in a pass is not read again in it: what is posted
/// is what was read first, whatever the module reports by then.
pub proof fn law_module_is_read_once_a_pass(
    db: DbState,
    cache: CacheState,
    stop: bool,
    m: Mapping,
    hal: &Hal,
    later: &Hal,
    port: Seq<char>,
    t: TableId,
    what: Diagnostic,
    kind: Beautifier,
    ft: FlagTables,
    now: u64,
    p: usize,
)
    requires
        readable_port(stop, m, hal, port) == Some(p),
        readable_port(stop, m, later, port) == Some(p),
        cache.contains_key(p),
    ensures
        diagnostic_posted(db, cache, stop, m, hal, port, t, what, kind, now) == diagnostic_posted(
            db,
            cache,
            stop,
            m,
            later,
            port,
            t,
            what,
            kind,
            now,
        ),
        flags_posted(db, cache, stop, m, hal, port, what, kind, ft, now) == flags_posted(
            db,
            cache,
            stop,
            m,
            later,
            port,
            what,
            kind,
            ft,
            now,
        ),
{
}

/// The rows of a table are the same in both.
pub open spec fn same_table(a: DbState, b: DbState, t: TableId) -> bool {
    forall|k: Seq<char>|
        {
            &&& #[trigger] b.contains_key((t, k)) == a.contains_key((t, k))
            &&& fields_at(b, t, k) == fields_at(a, t, k)
        }
}

/// What is the same in the first two and in the last two is the same throughout.
pub proof fn lemma_same_chain(a: DbState, b: DbState, c: DbState, t: TableId)
    requires
        same_table(a, b, t),
        same_table(b, c, t),
    ensures
        same_table(a, c, t),
{
    assert forall|k: Seq<char>|
        {
            &&& #[trigger] c.contains_key((t, k)) == a.contains_key((t, k))
            &&& fields_at(c, t, k) == fields_at(a, t, k)
        } by {
        assert(b.contains_key((t, k)) == a.contains_key((t, k)));
    }
}

/// Rows written to one table leave every other table alone.
pub proof fn lemma_names_set(db: DbState, t2: TableId, names: Seq<Seq<char>>, fields: crate::db::Fields, n: int, t: TableId)
    requires
        t != t2,
    ensures
        same_table(db, set_for_names(db, t2, names, fields, n), t),
    decreases n,
{
    if 0 < n <= names.len() {
        lemma_names_set(db, t2, names, fields, n - 1, t);
        lemma_same_chain(
            db,
            set_for_names(db, t2, names, fields, n - 1),
            set_for_names(db, t2, names, fields, n),
            t,
        );
    }
}

/// No table of a module's versatile flags.
pub open spec fn outside_vdm(tables: VdmFlagTables, t: TableId) -> bool {
    &&& !four_tables(tables.flag).contains(t)
    &&& !four_tables(tables.change_count).contains(t)
    &&& !four_tables(tables.set_time).contains(t)
    &&& !four_tables(tables.clear_time).contains(t)
}

/// The versatile flags stay in their tables.
pub proof fn lemma_vdm_flags(
    db: DbState,
    m: Mapping,
    hal: &Hal,
    port: Seq<char>,
    tables: VdmFlagTables,
    now: u64,
    t: TableId,
)
    requires
        outside_vdm(tables, t),
    ensures
        same_table(db, vdm_flags_posted(db, false, m, hal, port, tables, now), t),
{
    let f = four_tables(tables.flag);
    assert(f[0] != t && f[1] != t && f[2] != t && f[3] != t);
    let c = four_tables(tables.change_count);
    assert(c[0] != t && c[1] != t && c[2] != t && c[3] != t);
    let s = four_tables(tables.set_time);
    assert(s[0] != t && s[1] != t && s[2] != t && s[3] != t);
    let l = four_tables(tables.clear_time);
    assert(l[0] != t && l[1] != t && l[2] != t && l[3] != t);
    match readable_port(false, m, hal, port) {
        Some(p) => if m.asic_of(port) is Some {
            let r = hal.sfps@[p as int].vdm_flags;
            let d1 = type_tracked(
                db,
                port,
                crate::dom::utilities::vdm::typed(r, VdmType::Halarm),
                flag_tables_of(tables, VdmType::Halarm),
                now,
            );
            let d2 = type_tracked(
                d1,
                port,
                crate::dom::utilities::vdm::typed(r, VdmType::Lalarm),
                flag_tables_of(tables, VdmType::Lalarm),
                now,
            );
            let d3 = type_tracked(
                d2,
                port,
                crate::dom::utilities::vdm::typed(r, VdmType::Hwarn),
                flag_tables_of(tables, VdmType::Hwarn),
                now,
            );
            let d4 = types_tracked(db, port, r, tables, now);
            lemma_same_chain(db, d1, d2, t);
            lemma_same_chain(db, d2, d3, t);
            lemma_same_chain(db, d3, d4, t);
            lemma_same_chain(db, d4, types_posted(d4, port, r, tables.flag, now), t);
        },
        None => {},
    }
}

/// The firmware, the performance monitoring and the versatile diagnostics stay in
/// their tables.
pub proof fn lemma_vdm_block(
    setup: &DomSetup,
    hal: &Hal,
    db: DbState,
    port: Seq<char>,
    vpf: VdmPmFirmwareTables,
    now: u64,
    t: TableId,
)
    requires
        outside_vdm(vpf.vdm_flag_tables, t),
        t != vpf.vdm_real_value_tbl,
        t != vpf.pm_tbl,
        t != vpf.firmware_info_tbl,
    ensures
        same_table(db, setup.vdm_block_posted(hal, db, port, vpf, now), t),
{
    let m = setup.port_mapping@;
    let d1 = firmware_posted(db, m, hal, port, vpf.firmware_info_tbl);
    assert(same_table(db, d1, t)) by {
        match physical_of(m, port) {
            Some(p) => {
                lemma_names_set(
                    db,
                    vpf.firmware_info_tbl,
                    m.to_logical[p],
                    crate::dom::utilities::db::shown(
                        Beautifier::Plain,
                        dict_read(hal.sfps@[p as int].firmware_versions),
                    ),
                    m.to_logical[p].len() as int,
                    t,
                );
            },
            None => {},
        }
    }
    match m.first_physical(port) {
        Some(p) => {
            let s = hal.sfps@[p as int];
            let frozen = freeze_needed(s) && confirmed(s.vdm_freeze);
            let d2 = if frozen {
                pm_posted(d1, m, hal, port, vpf.pm_tbl)
            } else {
                d1
            };
            let merged = if frozen {
                dict_read(s.vdm_real_value_basic).union_prefer_right(dict_read(s.vdm_real_value_statistic))
            } else {
                dict_read(s.vdm_real_value_basic)
            };
            let d3 = real_values_posted(d2, false, m, hal, port, vpf.vdm_real_value_tbl, merged, now);
            let d4 = vdm_flags_posted(d3, false, m, hal, port, vpf.vdm_flag_tables, now);
            lemma_same_chain(db, d1, d2, t);
            lemma_same_chain(db, d2, d3, t);
            lemma_vdm_flags(d3, m, hal, port, vpf.vdm_flag_tables, now, t);
            lemma_same_chain(db, d3, d4, t);
        },
        None => {},
    }
}

/// The flags and the hardware status stay in their tables.
pub proof fn lemma_flag_status(
    setup: &DomSetup,
    hal: &Hal,
    db: DbState,
    port: Seq<char>,
    ft: FlagStatusTables,
    include_flags: bool,
    now: u64,
    t: TableId,
)
    requires
        !ft.all().contains(t),
    ensures
        same_table(db, setup.flag_status_posted(hal, db, port, ft, include_flags, now), t),
        same_table(db, setup.both_flags_posted(hal, db, port, ft, now), t),
{
    let a = ft.all();
    assert(a[0] != t && a[1] != t && a[2] != t && a[3] != t && a[4] != t && a[5] != t && a[6] != t && a[7]
        != t && a[8] != t);
    let d1 = setup.dom_flags_posted(hal, db, port, ft, now);
    let d2 = setup.status_posted(hal, d1, port, ft, now);
    let d3 = setup.status_flags_posted(hal, d2, port, ft, now);
    lemma_same_chain(db, d1, d2, t);
    lemma_same_chain(db, d2, d3, t);
    lemma_same_chain(db, d1, setup.status_flags_posted(hal, d1, port, ft, now), t);
}

/// The tables of a module's versatile diagnostics are among the owned ones.
proof fn lemma_owned(setup: &DomSetup, t: TableId)
    requires
        !setup.owned_tables().contains(t),
    ensures
        t != setup.dom_tbl,
        setup.flag_status_tables matches Some(ft) ==> !ft.all().contains(t),
        setup.vdm_pm_fw matches Some(vpf) ==> {
            &&& outside_vdm(vpf.vdm_flag_tables, t)
            &&& t != vpf.vdm_real_value_tbl
            &&& t != vpf.pm_tbl
            &&& t != vpf.firmware_info_tbl
        },
{
    let o = setup.owned_tables();
    assert(o[0] == setup.dom_tbl);
    let base = match setup.flag_status_tables {
        Some(ft) => {
            let a = ft.all();
            assert forall|i: int| 0 <= i < a.len() implies a[i] != t by {
                assert(o[1 + i] == a[i]);
            }
            10int
        },
        None => 1int,
    };
    match setup.vdm_pm_fw {
        Some(vpf) => {
            let a = vpf.all();
            assert(a.len() == 19);
            assert forall|i: int| 0 <= i < a.len() implies a[i] != t by {
                assert(o[base + i] == a[i]);
            }
            let v = vpf.vdm_flag_tables;
            assert(a[0] == vpf.vdm_real_value_tbl);
            assert(a[17] == vpf.pm_tbl);
            assert(a[18] == vpf.firmware_info_tbl);
            assert forall|i: int| 0 <= i < 4 implies four_tables(v.flag)[i] != t && four_tables(
                v.change_count,
            )[i] != t && four_tables(v.set_time)[i] != t && four_tables(v.clear_time)[i] != t by {
                assert(a[1 + i] == four_tables(v.flag)[i]);
                assert(a[5 + i] == four_tables(v.change_count)[i]);
                assert(a[9 + i] == four_tables(v.set_time)[i]);
                assert(a[13 + i] == four_tables(v.clear_time)[i]);
            }
        },
        None => {},
    }
}

/// A poll of a port writes to the tables of the monitoring and to no others.
pub proof fn law_poll_of_a_port_stays_in_its_tables(
    setup: &DomSetup,
    hal: &Hal,
    db: DbState,
    port: Seq<char>,
    include_flags: bool,
    include_vdm: bool,
    now: u64,
    t: TableId,
)
    requires
        !setup.owned_tables().contains(t),
    ensures
        same_table(db, setup.port_polled(hal, db, port, include_flags, include_vdm, now), t),
{
    lemma_owned(setup, t);
    let d1 = setup.sensor_posted(hal, db, port, now);
    let d2 = match setup.flag_status_tables {
        Some(ft) => setup.flag_status_posted(hal, d1, port, ft, include_flags, now),
        None => d1,
    };
    match setup.flag_status_tables {
        Some(ft) => {
            lemma_flag_status(setup, hal, d1, port, ft, include_flags, now, t);
            lemma_same_chain(db, d1, d2, t);
        },
        None => {},
    }
    match setup.vdm_pm_fw {
        Some(vpf) => {
            lemma_vdm_block(setup, hal, d2, port, vpf, now, t);
            lemma_same_chain(db, d2, setup.vdm_block_posted(hal, d2, port, vpf, now), t);
        },
        None => {},
    }
}

/// A poll writes to the tables of the monitoring and to no others: the identities,
/// the bring-up states and the configuration are safe from it.
pub proof fn law_poll_stays_in_its_tables(
    setup: &DomSetup,
    hal: &Hal,
    db: DbState,
    include_flags: bool,
    include_vdm: bool,
    now: u64,
    n: int,
    t: TableId,
)
    requires
        !setup.owned_tables().contains(t),
    ensures
        same_table(db, setup.ports_polled(hal, db, include_flags, include_vdm, now, n), t),
    decreases n,
{
    if n > 0 {
        let before = setup.ports_polled(hal, db, include_flags, include_vdm, now, n - 1);
        law_poll_stays_in_its_tables(setup, hal, db, include_flags, include_vdm, now, n - 1, t);
        match setup.port_mapping@.first_logical(setup.port_mapping.physical_to_logical.keys()[n - 1]) {
            Some(port) => {
                law_poll_of_a_port_stays_in_its_tables(
                    setup,
                    hal,
                    before,
                    port,
                    include_flags,
                    include_vdm,
                    now,
                    t,
                );
                lemma_same_chain(
                    db,
                    before,
                    setup.port_polled(hal, before, port, include_flags, include_vdm, now),
                    t,
                );
            },
            None => {},
        }
    }
}

/// A link change makes the flags of its port due after the delay and not before.
pub proof fn law_link_change_waits(pending: Map<usize, u64>, e: EventState, at: u64, later: u64)
    requires
        e.event_type == PortChangeEventType::PortSet,
        e.db_name == Some("APPL_DB"@),
        at + LINK_CHANGE_DELAY_MSECS <= u64::MAX,
    ensures
        not_due(link_event(pending, e, at), later).contains_key(e.port_index as usize) == (later < at
            + LINK_CHANGE_DELAY_MSECS),
{
}

/// Where no pending port is due, no module is read.
pub proof fn law_nothing_due_reads_nothing(
    setup: &DomSetup,
    hal: &Hal,
    db: DbState,
    ports: Seq<usize>,
    pending: Map<usize, u64>,
    at: u64,
    now: u64,
    n: int,
)
    requires
        n <= ports.len(),
        forall|i: int| 0 <= i < ports.len() ==> pending[#[trigger] ports[i]] > at,
    ensures
        setup.due_read(hal, db, ports, pending, at, now, n) == db,
    decreases n,
{
    if n > 0 {
        law_nothing_due_reads_nothing(setup, hal, db, ports, pending, at, now, n - 1);
        assert(pending[ports[n - 1]] > at);
    }
}

/// The flap count that the application table holds for a port.
pub open spec fn flap_count(db: DbState, appl: TableId, port: Seq<char>) -> Seq<char> {
    match field_at(db, appl, port, "flap_count"@) {
        Some(c) => c,
        None => Seq::empty(),
    }
}

/// A port whose flap count was not seen before, or has not changed, makes nothing
/// due: the first look at the counts is where they are counted from.
pub proof fn law_steady_links_make_nothing_due(
    setup: &DomSetup,
    db: DbState,
    appl: TableId,
    seen: Map<Seq<char>, Seq<char>>,
    pending: Map<usize, u64>,
    at: u64,
    n: int,
)
    requires
        n <= setup.port_mapping@.logical.len(),
        forall|k: Seq<char>| #[trigger] seen.contains_key(k) ==> seen[k] == flap_count(db, appl, k),
    ensures
        setup.flaps_watched(db, appl, seen, pending, at, n).1 == pending,
        forall|k: Seq<char>| #[trigger]
            setup.flaps_watched(db, appl, seen, pending, at, n).0.contains_key(k)
                ==> setup.flaps_watched(db, appl, seen, pending, at, n).0[k] == flap_count(db, appl, k),
    decreases n,
{
    if n > 0 {
        law_steady_links_make_nothing_due(setup, db, appl, seen, pending, at, n - 1);
    }
}

proof fn lemma_link_change_stays(setup: &DomSetup, hal: &Hal, db: DbState, physical: usize, now: u64, t: TableId)
    requires
        !setup.owned_tables().contains(t),
    ensures
        same_table(db, setup.link_change_posted(hal, db, physical, now), t),
{
    lemma_owned(setup, t);
    match (setup.port_mapping@.first_logical(physical), setup.flag_status_tables) {
        (Some(port), Some(ft)) => {
            lemma_flag_status(setup, hal, db, port, ft, true, now, t);
            let posted = setup.both_flags_posted(hal, db, port, ft, now);
            match setup.vdm_pm_fw {
                Some(vpf) => {
                    lemma_vdm_flags(posted, setup.port_mapping@, hal, port, vpf.vdm_flag_tables, now, t);
                    lemma_same_chain(
                        db,
                        posted,
                        vdm_flags_posted(
                            posted,
                            false,
                            setup.port_mapping@,
                            hal,
                            port,
                            vpf.vdm_flag_tables,
                            now,
                        ),
                        t,
                    );
                },
                None => {},
            }
        },
        _ => {},
    }
}

/// No row is lost.
spec fn rows_kept(a: DbState, b: DbState) -> bool {
    forall|k: (TableId, Seq<char>)| #[trigger] a.contains_key(k) ==> b.contains_key(k)
}

proof fn lemma_types_keep_rows(
    db: DbState,
    port: Seq<char>,
    r: crate::error::XResult<crate::value::Reply>,
    tables: VdmFlagTables,
    now: u64,
)
    ensures
        rows_kept(db, types_posted(types_tracked(db, port, r, tables, now), port, r, tables.flag, now)),
{
    let typed = |k: VdmType| crate::dom::utilities::vdm::typed(r, k);
    let d1 = type_tracked(db, port, typed(VdmType::Halarm), flag_tables_of(tables, VdmType::Halarm), now);
    let d2 = type_tracked(d1, port, typed(VdmType::Lalarm), flag_tables_of(tables, VdmType::Lalarm), now);
    let d3 = type_tracked(d2, port, typed(VdmType::Hwarn), flag_tables_of(tables, VdmType::Hwarn), now);
    let d4 = types_tracked(db, port, r, tables, now);
    assert(rows_kept(db, d1));
    assert(rows_kept(d1, d2));
    assert(rows_kept(d2, d3));
    assert(rows_kept(d3, d4));
}

proof fn lemma_link_change_keeps_rows(setup: &DomSetup, hal: &Hal, db: DbState, physical: usize, now: u64)
    ensures
        rows_kept(db, setup.link_change_posted(hal, db, physical, now)),
{
    match (setup.port_mapping@.first_logical(physical), setup.flag_status_tables) {
        (Some(port), Some(ft)) => {
            let d1 = setup.dom_flags_posted(hal, db, port, ft, now);
            let d2 = setup.both_flags_posted(hal, db, port, ft, now);
            assert(rows_kept(db, d1));
            assert(rows_kept(d1, d2));
            match (setup.vdm_pm_fw, readable_port(false, setup.port_mapping@, hal, port)) {
                (Some(vpf), Some(p)) => {
                    lemma_types_keep_rows(d2, port, hal.sfps@[p as int].vdm_flags, vpf.vdm_flag_tables, now);
                },
                _ => {},
            }
        },
        _ => {},
    }
}

/// What is written after a link change depends on nothing but the module of the
/// physical port.
proof fn lemma_link_change_reads_one(
    setup: &DomSetup,
    hal: &Hal,
    other: &Hal,
    db: DbState,
    physical: usize,
    now: u64,
)
    requires
        consistent(setup.port_mapping@),
        hal.sfps@.len() == other.sfps@.len(),
        hal.sfps@[physical as int] == other.sfps@[physical as int],
    ensures
        setup.link_change_posted(hal, db, physical, now) == setup.link_change_posted(other, db, physical, now),
{
    let m = setup.port_mapping@;
    match m.first_logical(physical) {
        Some(port) => {
            assert(ports_of(m, physical).contains(port)) by {
                assert(m.to_logical[physical][0] == port);
            }
            assert(m.first_physical(port) == Some(physical));
        },
        None => {},
    }
}

/// What decides whether a module is read has not changed, but that flag rows may
/// have come.
spec fn as_decided(setup: &DomSetup, db: DbState, d: DbState) -> bool {
    &&& same_table(db, d, setup.cfg_port_tbl)
    &&& same_table(db, d, setup.status_sw_tbl)
    &&& rows_kept(db, d)
}

proof fn lemma_decided_step(setup: &DomSetup, hal: &Hal, db: DbState, d: DbState, physical: usize, now: u64)
    requires
        !setup.owned_tables().contains(setup.cfg_port_tbl),
        !setup.owned_tables().contains(setup.status_sw_tbl),
        as_decided(setup, db, d),
    ensures
        as_decided(setup, db, setup.link_change_posted(hal, d, physical, now)),
{
    let e = setup.link_change_posted(hal, d, physical, now);
    lemma_link_change_stays(setup, hal, d, physical, now, setup.cfg_port_tbl);
    lemma_link_change_stays(setup, hal, d, physical, now, setup.status_sw_tbl);
    lemma_same_chain(db, d, e, setup.cfg_port_tbl);
    lemma_same_chain(db, d, e, setup.status_sw_tbl);
    lemma_link_change_keeps_rows(setup, hal, d, physical, now);
}

proof fn lemma_same_decision(setup: &DomSetup, db: DbState, d: DbState, port: Seq<char>)
    requires
        as_decided(setup, db, d),
    ensures
        setup.polled(d, port) == setup.polled(db, port),
        cmis_state_text(d, setup.status_sw_tbl, port) == cmis_state_text(db, setup.status_sw_tbl, port),
{
    let m = setup.port_mapping@;
    assert(d.contains_key((setup.status_sw_tbl, port)) == db.contains_key((setup.status_sw_tbl, port)));
    match m.first_physical(port) {
        Some(p) => match m.first_logical(p) {
            Some(first) => {
                assert(d.contains_key((setup.cfg_port_tbl, first)) == db.contains_key((setup.cfg_port_tbl, first)));
            },
            None => {},
        },
        None => {},
    }
}

/// The modules whose flags a look may read report the same.
spec fn same_wanted(
    setup: &DomSetup,
    hal: &Hal,
    other: &Hal,
    db: DbState,
    pending: Map<usize, u64>,
    seen: Map<Seq<char>, bool>,
    at: u64,
) -> bool {
    &&& hal.sfps@.len() == other.sfps@.len()
    &&& forall|p: usize| #[trigger]
        setup.flags_wanted(db, pending, seen, p, at) ==> hal.sfps@[p as int] == other.sfps@[p as int]
}

/// A module that is read, or may be, reports the same, and one that is not read
/// does not count.
proof fn lemma_wanted_step(
    setup: &DomSetup,
    hal: &Hal,
    other: &Hal,
    db: DbState,
    d: DbState,
    pending: Map<usize, u64>,
    seen: Map<Seq<char>, bool>,
    physical: usize,
    at: u64,
    now: u64,
)
    requires
        consistent(setup.port_mapping@),
        as_decided(setup, db, d),
        same_wanted(setup, hal, other, db, pending, seen, at),
        setup.port_mapping@.first_logical(physical) matches Some(port) && setup.polled(db, port)
            && setup.flag_status_tables is Some ==> setup.flags_wanted(db, pending, seen, physical, at),
    ensures
        setup.link_change_posted(hal, d, physical, now) == setup.link_change_posted(other, d, physical, now),
{
    match setup.port_mapping@.first_logical(physical) {
        Some(port) => {
            lemma_same_decision(setup, db, d, port);
            if setup.polled(db, port) && setup.flag_status_tables is Some {
                lemma_link_change_reads_one(setup, hal, other, d, physical, now);
            }
        },
        None => {},
    }
}

proof fn lemma_due_read_same(
    setup: &DomSetup,
    hal: &Hal,
    other: &Hal,
    db: DbState,
    ports: Seq<usize>,
    pending: Map<usize, u64>,
    seen: Map<Seq<char>, bool>,
    at: u64,
    now: u64,
    n: int,
)
    requires
        consistent(setup.port_mapping@),
        !setup.owned_tables().contains(setup.cfg_port_tbl),
        !setup.owned_tables().contains(setup.status_sw_tbl),
        same_wanted(setup, hal, other, db, pending, seen, at),
        forall|i: int| 0 <= i < ports.len() ==> pending.contains_key(#[trigger] ports[i]),
        n <= ports.len(),
    ensures
        setup.due_read(hal, db, ports, pending, at, now, n) == setup.due_read(other, db, ports, pending, at, now, n),
        as_decided(setup, db, setup.due_read(hal, db, ports, pending, at, now, n)),
    decreases n,
{
    if n > 0 {
        lemma_due_read_same(setup, hal, other, db, ports, pending, seen, at, now, n - 1);
        let d = setup.due_read(hal, db, ports, pending, at, now, n - 1);
        let p = ports[n - 1];
        if pending[p] <= at {
            lemma_wanted_step(setup, hal, other, db, d, pending, seen, p, at, now);
            lemma_decided_step(setup, hal, db, d, p, now);
        }
    }
}

proof fn lemma_gates_same(
    setup: &DomSetup,
    hal: &Hal,
    other: &Hal,
    db: DbState,
    d: DbState,
    pending: Map<usize, u64>,
    seen: Map<Seq<char>, bool>,
    ft: FlagStatusTables,
    at: u64,
    now: u64,
    n: int,
)
    requires
        consistent(setup.port_mapping@),
        !setup.owned_tables().contains(setup.cfg_port_tbl),
        !setup.owned_tables().contains(setup.status_sw_tbl),
        same_wanted(setup, hal, other, db, pending, seen, at),
        as_decided(setup, db, d),
        setup.flag_status_tables == Some(ft),
        n <= setup.port_mapping.physical_to_logical.keys().len(),
    ensures
        setup.gates_watched(hal, d, seen, ft, now, n) == setup.gates_watched(other, d, seen, ft, now, n),
        as_decided(setup, db, setup.gates_watched(hal, d, seen, ft, now, n).0),
        forall|k: Seq<char>|
            #![trigger setup.gates_watched(hal, d, seen, ft, now, n).1.contains_key(k)]
            setup.gates_watched(hal, d, seen, ft, now, n).1.contains_key(k) && !setup.gates_watched(
                hal,
                d,
                seen,
                ft,
                now,
                n,
            ).1[k] ==> (seen.contains_key(k) && !seen[k]) || !terminal_name(
                cmis_state_text(db, setup.status_sw_tbl, k),
            ),
    decreases n,
{
    if n > 0 {
        lemma_gates_same(setup, hal, other, db, d, pending, seen, ft, at, now, n - 1);
        let (e, s) = setup.gates_watched(hal, d, seen, ft, now, n - 1);
        let p = setup.port_mapping.physical_to_logical.keys()[n - 1];
        match setup.port_mapping@.first_logical(p) {
            Some(port) => {
                lemma_same_decision(setup, db, e, port);
                let ended = terminal_name(cmis_state_text(e, setup.status_sw_tbl, port));
                let just_ended = s.contains_key(port) && !s[port] && ended;
                let missing = ended && !e.contains_key((ft.dom_flag_tbl, port));
                if just_ended || missing {
                    assert(missing ==> !db.contains_key((ft.dom_flag_tbl, port)));
                    lemma_wanted_step(setup, hal, other, db, e, pending, seen, p, at, now);
                    lemma_decided_step(setup, hal, db, e, p, now);
                }
            },
            None => {},
        }
    }
}

/// A look at the link changes, of which those of `ports` are pending, reads no
/// module but those whose flags it may read: what any other module reports makes
/// no difference.
pub proof fn law_only_wanted_modules_are_read(
    setup: &DomSetup,
    hal: &Hal,
    other: &Hal,
    db: DbState,
    ports: Seq<usize>,
    pending: Map<usize, u64>,
    seen: Map<Seq<char>, bool>,
    at: u64,
    now: u64,
)
    requires
        consistent(setup.port_mapping@),
        !setup.owned_tables().contains(setup.cfg_port_tbl),
        !setup.owned_tables().contains(setup.status_sw_tbl),
        forall|i: int| 0 <= i < ports.len() ==> pending.contains_key(#[trigger] ports[i]),
        hal.sfps@.len() == other.sfps@.len(),
        forall|p: usize| #[trigger]
            setup.flags_wanted(db, pending, seen, p, at) ==> hal.sfps@[p as int] == other.sfps@[p as int],
    ensures
        ({
            let n = ports.len() as int;
            let read = setup.due_read(hal, db, ports, pending, at, now, n);
            &&& read == setup.due_read(other, db, ports, pending, at, now, n)
            &&& setup.gates_checked(hal, read, seen, now) == setup.gates_checked(other, read, seen, now)
        }),
{
    let n = ports.len() as int;
    lemma_due_read_same(setup, hal, other, db, ports, pending, seen, at, now, n);
    match setup.flag_status_tables {
        Some(ft) => {
            lemma_gates_same(
                setup,
                hal,
                other,
                db,
                setup.due_read(hal, db, ports, pending, at, now, n),
                pending,
                seen,
                ft,
                at,
                now,
                setup.port_mapping.physical_to_logical.keys().len() as int,
            );
        },
        None => {},
    }
}

} // verus!
