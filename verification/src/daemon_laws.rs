//! What the daemon as a whole comes to.

use vstd::prelude::*;
use vstd::string::*;
use crate::daemon::{
    change_followed, changes_followed, config_followed, eeproms_retried, law_followed_configuration_settles,
    module_wanted,    numbered_tables, passed, removal, rows_at_start, rows_restored, state_tables, table_places, DaemonTables, Database,
    LoopState,
};
use crate::db::{field_at, DbState, TableId};
use crate::dom::isolation::same_row;
use crate::dom::utilities::dom_sensor::monitor_text;
use crate::dom::vdm_laws::tables_by_kind;
use crate::error::XcvrdError;
use crate::hal::{reading, Hal};
use crate::ord_map::{among, in_order, lemma_in_order, MapKey};
use crate::text::{all_ascii, dec, is_digit, parse_unsigned, uppercase};
use crate::value::{Dict, DictState, Reply, ReplyState};
use crate::xcvrd::laws::{law_deconfigured_port_has_no_rows, law_stale_identities_are_gone};
use crate::xcvrd::sfp_state_update::{states_projected, statuses_seeded, SfpSetup, StateTables};
use crate::xcvrd::slot_laws::{
    identifies, lemma_names_differ, lemma_same_chain, port_same, shows_inserted, tables_apart, unreadable,
};
use crate::xcvrd::start_laws::{
    law_added_port_shows_its_slot, law_missing_rows_are_restored, law_modules_are_read_again, law_read_modules_are_ready,
    law_start_publishes_the_identities, law_start_publishes_the_statuses, law_start_publishes_the_thresholds,
    law_restoring_is_wanted,    may_be_restored, there,
};
use crate::xcvrd::{identity_fields, identity_posted, stale_removed};
use crate::xcvrd_utilities::mapping_laws::{lemma_slot_configured, slot_configured};
use crate::xcvrd_utilities::port_event_helper::{
    lemma_slot_names_differ, physical_of, slot_change, slot_changes, slot_name, EventState, Mapping,
};
use crate::xcvrd_utilities::xcvr_table_helper::{vdm_type_name, VdmType};

verus! {

/// The table lies in the state database under the name.
pub open spec fn lies_at(table: usize, name: Seq<char>) -> bool {
    table < table_places().len() && table_places()[table as int] == (Database::State, name)
}

proof fn lemma_kind_name(i: int)
    requires
        0 <= i < 4,
    ensures
        uppercase(vdm_type_name(seq![VdmType::Halarm, VdmType::Lalarm, VdmType::Hwarn, VdmType::Lwarn][i])) == seq![
            "HALARM"@,
            "LALARM"@,
            "HWARN"@,
            "LWARN"@,
        ][i],
{
    reveal_strlit("halarm");
    reveal_strlit("lalarm");
    reveal_strlit("hwarn");
    reveal_strlit("lwarn");
    reveal_strlit("HALARM");
    reveal_strlit("LALARM");
    reveal_strlit("HWARN");
    reveal_strlit("LWARN");
    if i == 0 {
        assert(all_ascii("halarm"@));
        assert(uppercase("halarm"@) =~= "HALARM"@);
    } else if i == 1 {
        assert(all_ascii("lalarm"@));
        assert(uppercase("lalarm"@) =~= "LALARM"@);
    } else if i == 2 {
        assert(all_ascii("hwarn"@));
        assert(uppercase("hwarn"@) =~= "HWARN"@);
    } else {
        assert(all_ascii("lwarn"@));
        assert(uppercase("lwarn"@) =~= "LWARN"@);
    }
}

/// Every table lies under its own name.
pub proof fn law_tables_lie_under_their_names()
    ensures
        ({
            let t = numbered_tables();
            &&& lies_at(t.info, "TRANSCEIVER_INFO"@)
            &&& lies_at(t.status_sw, "TRANSCEIVER_STATUS_SW"@)
            &&& lies_at(t.dom_sensor, "TRANSCEIVER_DOM_SENSOR"@)
            &&& lies_at(t.dom_temperature, "TRANSCEIVER_DOM_TEMPERATURE"@)
            &&& lies_at(t.dom_threshold, "TRANSCEIVER_DOM_THRESHOLD"@)
            &&& lies_at(t.flags.dom_flag_tbl, "TRANSCEIVER_DOM_FLAG"@)
            &&& lies_at(t.flags.dom_flag_change_count_tbl, "TRANSCEIVER_DOM_FLAG_CHANGE_COUNT"@)
            &&& lies_at(t.flags.dom_flag_set_time_tbl, "TRANSCEIVER_DOM_FLAG_SET_TIME"@)
            &&& lies_at(t.flags.dom_flag_clear_time_tbl, "TRANSCEIVER_DOM_FLAG_CLEAR_TIME"@)
            &&& lies_at(t.flags.status_tbl, "TRANSCEIVER_STATUS"@)
            &&& lies_at(t.flags.status_flag_tbl, "TRANSCEIVER_STATUS_FLAG"@)
            &&& lies_at(t.flags.status_flag_change_count_tbl, "TRANSCEIVER_STATUS_FLAG_CHANGE_COUNT"@)
            &&& lies_at(t.flags.status_flag_set_time_tbl, "TRANSCEIVER_STATUS_FLAG_SET_TIME"@)
            &&& lies_at(t.flags.status_flag_clear_time_tbl, "TRANSCEIVER_STATUS_FLAG_CLEAR_TIME"@)
            &&& lies_at(t.vdm.vdm_real_value_tbl, "TRANSCEIVER_VDM_REAL_VALUE"@)
            &&& lies_at(t.vdm.pm_tbl, "TRANSCEIVER_PM"@)
            &&& lies_at(t.vdm.firmware_info_tbl, "TRANSCEIVER_FIRMWARE_INFO"@)
            &&& lies_at(t.state_port, "PORT_TABLE"@)
            &&& t.cfg_port < table_places().len() && table_places()[t.cfg_port as int] == (Database::Config, "PORT"@)
            &&& t.appl_port < table_places().len() && table_places()[t.appl_port as int] == (
                Database::Appl,
                "PORT_TABLE"@,
            )
        }),
{
}

/// The tables of the versatile diagnostics lie under the names of their kinds.
pub proof fn law_versatile_tables_lie_under_their_kinds(i: int)
    requires
        0 <= i < 4,
    ensures
        ({
            let t = numbered_tables();
            let kind = seq!["HALARM"@, "LALARM"@, "HWARN"@, "LWARN"@][i];
            let f = t.vdm.vdm_flag_tables;
            let name = |ending: Seq<char>| "TRANSCEIVER_VDM_"@ + kind + ending;
            &&& lies_at(tables_by_kind(f.flag)[i], name("_FLAG"@))
            &&& lies_at(tables_by_kind(f.change_count)[i], name("_FLAG_CHANGE_COUNT"@))
            &&& lies_at(tables_by_kind(f.set_time)[i], name("_FLAG_SET_TIME"@))
            &&& lies_at(tables_by_kind(f.clear_time)[i], name("_FLAG_CLEAR_TIME"@))
            &&& lies_at(tables_by_kind(t.vdm_thresholds.thresholds)[i], name("_THRESHOLD"@))
        }),
{
    lemma_kind_name(i);
}

/// The rows that go with a module are those of every table that holds anything of it but
/// its identity and its status.
pub proof fn law_rows_that_go_with_a_module(t: DaemonTables, i: int)
    requires
        0 <= i < 4,
    ensures
        ({
            let r = removal(t);
            let f = t.vdm.vdm_flag_tables;
            &&& r.len() == 35
            &&& r.contains(t.dom_sensor) && r.contains(t.dom_temperature) && r.contains(t.dom_threshold)
            &&& r.contains(t.flags.dom_flag_tbl) && r.contains(t.flags.dom_flag_change_count_tbl)
            &&& r.contains(t.flags.dom_flag_set_time_tbl) && r.contains(t.flags.dom_flag_clear_time_tbl)
            &&& r.contains(t.flags.status_tbl) && r.contains(t.flags.status_flag_tbl)
            &&& r.contains(t.flags.status_flag_change_count_tbl) && r.contains(t.flags.status_flag_set_time_tbl)
            &&& r.contains(t.flags.status_flag_clear_time_tbl)
            &&& r.contains(t.vdm.vdm_real_value_tbl) && r.contains(t.vdm.pm_tbl) && r.contains(
                t.vdm.firmware_info_tbl,
            )
            &&& r.contains(tables_by_kind(t.vdm_thresholds.thresholds)[i])
            &&& r.contains(tables_by_kind(f.flag)[i]) && r.contains(tables_by_kind(f.change_count)[i])
            &&& r.contains(tables_by_kind(f.set_time)[i]) && r.contains(tables_by_kind(f.clear_time)[i])
        }),
{
    let r = removal(t);
    let f = t.vdm.vdm_flag_tables;
    assert(r[0] == t.dom_sensor && r[1] == t.dom_temperature && r[6] == t.dom_threshold);
    assert(r[2] == t.flags.dom_flag_tbl && r[3] == t.flags.dom_flag_change_count_tbl);
    assert(r[4] == t.flags.dom_flag_set_time_tbl && r[5] == t.flags.dom_flag_clear_time_tbl);
    assert(r[7] == t.flags.status_tbl && r[8] == t.flags.status_flag_tbl);
    assert(r[9] == t.flags.status_flag_change_count_tbl && r[10] == t.flags.status_flag_set_time_tbl);
    assert(r[11] == t.flags.status_flag_clear_time_tbl && r[12] == t.vdm.vdm_real_value_tbl);
    assert(r[13] == t.vdm.pm_tbl && r[14] == t.vdm.firmware_info_tbl);
    assert(r[15 + 5 * i] == tables_by_kind(t.vdm_thresholds.thresholds)[i]);
    assert(r[16 + 5 * i] == tables_by_kind(f.flag)[i]);
    assert(r[17 + 5 * i] == tables_by_kind(f.change_count)[i]);
    assert(r[18 + 5 * i] == tables_by_kind(f.set_time)[i]);
    assert(r[19 + 5 * i] == tables_by_kind(f.clear_time)[i]);
}

/// The tables that are written at the start are different ones.
pub open spec fn start_tables_apart(setup: SfpSetup, t: DaemonTables) -> bool {
    &&& t.info != t.status_sw
    &&& t.info != t.dom_threshold
    &&& t.status_sw != t.dom_threshold
    &&& setup.vdm_threshold_tables matches Some(v) ==> {
        &&& !tables_by_kind(v.thresholds).contains(t.info)
        &&& !tables_by_kind(v.thresholds).contains(t.status_sw)
        &&& !tables_by_kind(v.thresholds).contains(t.dom_threshold)
    }
}

proof fn lemma_thresholds_spare(
    setup: SfpSetup,
    db: DbState,
    m: Mapping,
    hal: &Hal,
    dt: TableId,
    again: Set<Seq<char>>,
    now: u64,
    n: int,
    t: TableId,
    k: Seq<char>,
)
    requires
        t != dt,
        setup.vdm_threshold_tables matches Some(v) ==> !tables_by_kind(v.thresholds).contains(t),
    ensures
        same_row(db, setup.all_thresholds_posted(db, m, hal, dt, again, now, n).0, t, k),
    decreases n,
{
    if n > 0 {
        lemma_thresholds_spare(setup, db, m, hal, dt, again, now, n - 1, t, k);
        match setup.vdm_threshold_tables {
            Some(v) => {
                let f = tables_by_kind(v.thresholds);
                assert(f[0] == v.thresholds.halarm && f[1] == v.thresholds.lalarm && f[2] == v.thresholds.hwarn
                    && f[3] == v.thresholds.lwarn);
                assert(f.contains(f[0]) && f.contains(f[1]) && f.contains(f[2]) && f.contains(f[3]));
            },
            None => {},
        }
    }
}

proof fn lemma_statuses_spare(db: DbState, m: Mapping, hal: &Hal, st: TableId, n: int, t: TableId, k: Seq<char>)
    requires
        t != st,
    ensures
        same_row(db, statuses_seeded(db, m, hal, st, n), t, k),
    decreases n,
{
    if n > 0 {
        lemma_statuses_spare(db, m, hal, st, n - 1, t, k);
    }
}

proof fn lemma_projecting_spares(
    db: DbState,
    m: Mapping,
    hal: &Hal,
    st: TableId,
    again: Set<Seq<char>>,
    n: int,
    t: TableId,
    k: Seq<char>,
    f: Seq<char>,
)
    ensures
        t != st ==> same_row(db, states_projected(db, m, hal, st, again, n), t, k),
        f != "cmis_state"@ ==> field_at(states_projected(db, m, hal, st, again, n), st, k, f) == field_at(db, st, k, f),
    decreases n,
{
    if n > 0 {
        lemma_projecting_spares(db, m, hal, st, again, n - 1, t, k, f);
    }
}

proof fn lemma_identities_spare(setup: SfpSetup, db: DbState, m: Mapping, hal: &Hal, t: TableId, n: int, i: int)
    requires
        m.logical.no_duplicates(),
        0 <= i < m.logical.len(),
        !there(m, hal, m.logical[i]),
    ensures
        same_row(db, setup.identities_posted(db, m, hal, t, n).0, t, m.logical[i]),
    decreases n,
{
    if 0 < n {
        lemma_identities_spare(setup, db, m, hal, t, n - 1, i);
        let port = m.logical[i];
        if n <= m.logical.len() && n - 1 != i {
            assert(m.logical[n - 1] != port);
        }
        assert(!there(m, hal, port));
    }
}

/// At the start every mapped port shows what is in its slot. Where a module is there, the
/// status says so without an error; where it can be read, its identity and its thresholds
/// are published and its bring-up is taken as done; where it cannot, it is to be read
/// again. Where none is there, the status says so and no identity is left.
pub proof fn law_start_shows_every_slot(
    setup: SfpSetup,
    t: DaemonTables,
    m: Mapping,
    hal: &Hal,
    db: DbState,
    now: u64,
    i: int,
    p: usize,
    d: DictState,
    th: Dict,
    name: Seq<char>,
)
    requires
        start_tables_apart(setup, t),
        m.logical.no_duplicates(),
        0 <= i < m.logical.len(),
        m.to_asic.contains_key(m.logical[i]),
        m.to_physical.contains_key(m.logical[i]),
        m.to_physical[m.logical[i]] == p,
        physical_of(m, m.logical[i]) == Some(p),
    ensures
        ({
            let port = m.logical[i];
            let (after, again) = rows_at_start(setup, t, m, hal, db, now);
            let inside = p < hal.sfps@.len() && hal.sfps@[p as int].presence == Ok::<bool, XcvrdError>(true);
            let f = identity_fields(d, hal.sfps@[p as int].replaceable == Ok::<bool, XcvrdError>(true));
            &&& field_at(after, t.status_sw, port, "status"@) == Some(
                if inside {
                    "1"@
                } else {
                    "0"@
                },
            )
            &&& field_at(after, t.status_sw, port, "error"@) == Some("N/A"@)
            &&& identifies(hal, p, d) ==> {
                &&& !again.contains(port)
                &&& f.contains_key(name) ==> field_at(after, t.info, port, name) == Some(f[name])
                &&& field_at(after, t.status_sw, port, "cmis_state"@) == Some("READY"@)
                &&& hal.sfps@[p as int].threshold_info == Ok::<Reply, XcvrdError>(Reply::Object(th))
                    && th@.contains_key(name) && name != "last_update_time"@ ==> field_at(
                    after,
                    t.dom_threshold,
                    port,
                    name,
                ) == Some(monitor_text(name, th@[name]))
            }
            &&& unreadable(hal, p) ==> again.contains(port)
            &&& !inside ==> !after.contains_key((t.info, port))
        }),
{
    let port = m.logical[i];
    let n = m.logical.len() as int;
    let fresh = stale_removed(db, m, t.info, hal, n);
    let (posted, again) = setup.identities_posted(fresh, m, hal, t.info, n);
    let published = setup.all_thresholds_posted(posted, m, hal, t.dom_threshold, again, now, n).0;
    let seeded = statuses_seeded(published, m, hal, t.status_sw, n);
    let after = states_projected(seeded, m, hal, t.status_sw, again, n);
    lemma_names_differ();
    law_start_publishes_the_identities(&setup, fresh, m, hal, t.info, i, n, p, d, name);
    lemma_thresholds_spare(setup, posted, m, hal, t.dom_threshold, again, now, n, t.info, port);
    lemma_statuses_spare(published, m, hal, t.status_sw, n, t.info, port);
    lemma_statuses_spare(published, m, hal, t.status_sw, n, t.dom_threshold, port);
    lemma_projecting_spares(seeded, m, hal, t.status_sw, again, n, t.info, port, "status"@);
    lemma_projecting_spares(seeded, m, hal, t.status_sw, again, n, t.dom_threshold, port, "error"@);
    law_start_publishes_the_statuses(published, m, hal, t.status_sw, i, n);
    law_read_modules_are_ready(seeded, m, hal, t.status_sw, again, i, n);
    if identifies(hal, p, d) && hal.sfps@[p as int].threshold_info == Ok::<Reply, XcvrdError>(Reply::Object(th))
        && th@.contains_key(name) && name != "last_update_time"@ {
        law_start_publishes_the_thresholds(
            &setup,
            posted,
            m,
            hal,
            t.dom_threshold,
            again,
            now,
            i,
            n,
            p,
            th,
            name,
        );
    }
    if !there(m, hal, port) {
        law_stale_identities_are_gone(db, m, t.info, hal, n, t.info, port);
        assert(among(m.logical, n, port)) by {
            assert(m.logical[i] == port);
        }
        lemma_identities_spare(setup, fresh, m, hal, t.info, n, i);
    }
}

/// A minute after the last time, or at once where there was none, the modules that could
/// not be read are read again: the identity and the thresholds of every port that is to
/// be read again are published where its module can be read by then.
pub proof fn law_unread_modules_get_their_minute(
    setup: SfpSetup,
    s: LoopState,
    t: StateTables,
    hal: &Hal,
    at: u64,
    now: u64,
    port: Seq<char>,
    p: usize,
    d: DictState,
    th: DictState,
    name: Seq<char>,
)
    requires
        tables_apart(&setup, t),
        s.slots.retry.finite(),
        s.slots.retry.contains(port),
        s.mapping.first_physical(port) == Some(p),
        physical_of(s.mapping, port) == Some(p),
        s.mapping.to_asic.contains_key(port),
    ensures
        ({
            let r = eeproms_retried(setup, s, t, hal, at, now);
            let due = s.last_retry matches Some(l) ==> at >= l + 60_000;
            let f = identity_fields(d, hal.sfps@[p as int].replaceable == Ok::<bool, XcvrdError>(true));
            &&& !due ==> r == s
            &&& due ==> r.last_retry == Some(at)
            &&& due && identifies(hal, p, d) ==> {
                &&& f.contains_key(name) ==> field_at(r.slots.db, t.int_tbl, port, name) == Some(f[name])
                &&& !r.slots.retry.contains(port)
                &&& reading(hal.sfps@[p as int].threshold_info) == Some(ReplyState::Object(th)) && th.contains_key(name)
                    && name != "last_update_time"@ ==> field_at(r.slots.db, t.dom_threshold_tbl, port, name) == Some(
                    monitor_text(name, th[name]),
                )
            }
            &&& unreadable(hal, p) ==> r.slots.retry.contains(port)
        }),
{
    let names = in_order::<String>(s.slots.retry);
    lemma_in_order::<String>(s.slots.retry);
    assert(names.contains(port));
    let i = names.index_of(port);
    assert forall|x: int, y: int| 0 <= x < y < names.len() implies names[x] != names[y] by {
        String::before_asym(names[x], names[y]);
    }
    assert(names.no_duplicates());
    law_modules_are_read_again(
        &setup,
        s.slots.db,
        s.mapping,
        hal,
        t,
        names,
        s.slots.retry,
        now,
        i,
        names.len() as int,
        p,
        d,
        th,
        name,
    );
}

/// Five seconds after the last time, or at once where there was none, the rows that are
/// missing are restored, of every mapped port whom nothing keeps from it.
pub proof fn law_missing_rows_get_their_turn(
    setup: SfpSetup,
    s: LoopState,
    t: StateTables,
    hal: &Hal,
    later: &Hal,
    at: u64,
    now: u64,
    i: int,
    p: usize,
    d: DictState,
    th: DictState,
    name: Seq<char>,
)
    requires
        tables_apart(&setup, t),
        s.mapping.logical.no_duplicates(),
        0 <= i < s.mapping.logical.len(),
        may_be_restored(s.slots, s.mapping, hal, t, s.gone, s.mapping.logical[i], p),
        !s.slots.db.contains_key((t.int_tbl, s.mapping.logical[i])),
    ensures
        ({
            let r = rows_restored(setup, s, t, hal, later, at, now);
            let due = s.last_recover matches Some(l) ==> at >= l + 5_000;
            &&& !due ==> r == s
            &&& due ==> r.last_recover == Some(at) && shows_inserted(
                r.slots,
                hal,
                later,
                t,
                p,
                s.mapping.logical[i],
                d,
                th,
                name,
            )
        }),
{
    law_missing_rows_are_restored(
        &setup,
        s.slots,
        s.mapping,
        hal,
        later,
        t,
        s.gone,
        now,
        i,
        s.mapping.logical.len() as int,
        p,
        d,
        th,
        name,
    );
}

/// What is known of the port is the same in both: its rows, whether it is to be read
/// again, where it is mapped to, and what is kept of errors.
spec fn port_kept(a: LoopState, b: LoopState, port: Seq<char>) -> bool {
    &&& port_same(a.slots, b.slots, port)
    &&& a.slots.errors == b.slots.errors
    &&& a.mapping.to_physical.contains_key(port) == b.mapping.to_physical.contains_key(port)
    &&& a.mapping.to_physical.contains_key(port) ==> a.mapping.to_physical[port] == b.mapping.to_physical[port]
}

proof fn lemma_kept_chain(a: LoopState, b: LoopState, c: LoopState, port: Seq<char>)
    requires
        port_kept(a, b, port),
        port_kept(b, c, port),
    ensures
        port_kept(a, c, port),
{
    lemma_same_chain(a.slots, b.slots, c.slots, port);
}

proof fn lemma_thresholds_of_another(
    setup: SfpSetup,
    db: DbState,
    m: Mapping,
    hal: &Hal,
    t: StateTables,
    other: Seq<char>,
    now: u64,
    tbl: TableId,
    port: Seq<char>,
)
    requires
        other != port,
    ensures
        same_row(
            db,
            setup.thresholds_posted(
                identity_posted(db, t.int_tbl, m, hal, other),
                Map::empty(),
                m,
                hal,
                t.dom_threshold_tbl,
                other,
                now,
            ),
            tbl,
            port,
        ),
{
}

proof fn lemma_change_of_another(
    setup: SfpSetup,
    s: LoopState,
    t: StateTables,
    hal: &Hal,
    e: EventState,
    now: u64,
    port: Seq<char>,
)
    requires
        e.port_name != port,
    ensures
        port_kept(s, change_followed(setup, s, t, hal, e, now), port),
{
    let r = change_followed(setup, s, t, hal, e, now);
    assert forall|tbl: TableId| #[trigger] same_row(s.slots.db, r.slots.db, tbl, port) by {
        let seeded = setup.reseeded(s.slots.db, e.port_name);
        lemma_thresholds_of_another(setup, seeded, r.mapping, hal, t, e.port_name, now, tbl, port);
    }
}

proof fn lemma_changes_of_others(
    setup: SfpSetup,
    s: LoopState,
    t: StateTables,
    hal: &Hal,
    es: Seq<EventState>,
    now: u64,
    from: int,
    n: int,
    port: Seq<char>,
)
    requires
        0 <= from <= n <= es.len(),
        forall|i: int| from <= i < n ==> (#[trigger] es[i]).port_name != port,
    ensures
        port_kept(
            changes_followed(setup, s, t, hal, es, now, from),
            changes_followed(setup, s, t, hal, es, now, n),
            port,
        ),
    decreases n - from,
{
    if from < n {
        lemma_changes_of_others(setup, s, t, hal, es, now, from, n - 1, port);
        let before = changes_followed(setup, s, t, hal, es, now, n - 1);
        assert(es[n - 1].port_name != port);
        lemma_change_of_another(setup, before, t, hal, es[n - 1], now, port);
        lemma_kept_chain(
            changes_followed(setup, s, t, hal, es, now, from),
            before,
            changes_followed(setup, s, t, hal, es, now, n),
            port,
        );
    }
}

proof fn lemma_change_is_alone(config: DbState, cfg: TableId, m: Mapping, n: nat, q: nat) -> (k: int)
    requires
        n <= usize::MAX,
        q < n,
        slot_change(config, cfg, m, q as usize) is Some,
    ensures
        ({
            let es = slot_changes(config, cfg, m, n);
            &&& 0 <= k < es.len()
            &&& es[k] == slot_change(config, cfg, m, q as usize)->0
            &&& forall|i: int| 0 <= i < es.len() && i != k ==> (#[trigger] es[i]).port_name != slot_name(q)
        }),
    decreases n,
{
    let es = slot_changes(config, cfg, m, n);
    let before = slot_changes(config, cfg, m, (n - 1) as nat);
    if q == n - 1 {
        lemma_no_change_behind(config, cfg, m, (n - 1) as nat, q);
        assert forall|i: int| 0 <= i < es.len() && i != before.len() implies (#[trigger] es[i]).port_name != slot_name(
            q,
        ) by {
            assert(es[i] == before[i]);
        }
        before.len() as int
    } else {
        let k = lemma_change_is_alone(config, cfg, m, (n - 1) as nat, q);
        lemma_slot_names_differ((n - 1) as nat, q);
        assert forall|i: int| 0 <= i < es.len() && i != k implies (#[trigger] es[i]).port_name != slot_name(q) by {
            if i < before.len() {
                assert(es[i] == before[i]);
            }
        }
        assert(es[k] == before[k]);
        k
    }
}

proof fn lemma_no_change_behind(config: DbState, cfg: TableId, m: Mapping, n: nat, q: nat)
    requires
        n <= q <= usize::MAX,
    ensures
        forall|i: int|
            0 <= i < slot_changes(config, cfg, m, n).len() ==> (#[trigger] slot_changes(config, cfg, m, n)[i]).port_name
                != slot_name(q),
    decreases n,
{
    if n > 0 {
        lemma_no_change_behind(config, cfg, m, (n - 1) as nat, q);
        lemma_slot_names_differ((n - 1) as nat, q);
        let es = slot_changes(config, cfg, m, n);
        let before = slot_changes(config, cfg, m, (n - 1) as nat);
        assert forall|i: int| 0 <= i < es.len() implies (#[trigger] es[i]).port_name != slot_name(q) by {
            if i < before.len() {
                assert(es[i] == before[i]);
            }
        }
    }
}

/// The port of every slot that the configuration has no row for any more loses its
/// identity, its status and every row that goes with its module, and is known no more.
pub proof fn law_taken_away_ports_lose_their_rows(
    setup: SfpSetup,
    s: LoopState,
    t: DaemonTables,
    hal: &Hal,
    num_sfps: usize,
    now: u64,
    q: nat,
    gone: TableId,
)
    requires
        q < num_sfps,
        s.mapping.to_physical.contains_key(slot_name(q)),
        !s.slots.db.contains_key((t.cfg_port, slot_name(q))),
        gone == t.info || gone == t.status_sw || setup.removal_tables@.contains(gone),
    ensures
        ({
            let r = config_followed(setup, s, t, hal, num_sfps, now);
            let port = slot_name(q);
            &&& !r.mapping.to_physical.contains_key(port)
            &&& !r.slots.db.contains_key((gone, port))
            &&& !r.slots.retry.contains(port)
        }),
{
    let port = slot_name(q);
    let st = state_tables(t);
    let es = slot_changes(s.slots.db, t.cfg_port, s.mapping, num_sfps as nat);
    let k = lemma_change_is_alone(s.slots.db, t.cfg_port, s.mapping, num_sfps as nat, q);
    let n = es.len() as int;
    lemma_changes_of_others(setup, s, st, hal, es, now, 0, k, port);
    let before = changes_followed(setup, s, st, hal, es, now, k);
    assert(port_kept(s, before, port));
    let after = changes_followed(setup, s, st, hal, es, now, k + 1);
    assert(after == change_followed(setup, before, st, hal, es[k], now));
    law_deconfigured_port_has_no_rows(&setup, before.slots, before.mapping, st, port, gone);
    lemma_changes_of_others(setup, s, st, hal, es, now, k + 1, n, port);
    let end = changes_followed(setup, s, st, hal, es, now, n);
    assert(same_row(after.slots.db, end.slots.db, gone, port));
}

/// The port of every slot that the configuration has anew is mapped to the slot and shows
/// what is in it: its status says whether a module is there, without an error, and its
/// identity is published or is to be read again.
pub proof fn law_brought_ports_show_their_slots(
    setup: SfpSetup,
    s: LoopState,
    t: DaemonTables,
    hal: &Hal,
    num_sfps: usize,
    now: u64,
    q: usize,
    d: DictState,
    name: Seq<char>,
)
    requires
        tables_apart(&setup, state_tables(t)),
        setup.state_port_tbl != Some(t.info),
        q < num_sfps,
        q <= i32::MAX,
        !s.mapping.to_physical.contains_key(slot_name(q as nat)),
        slot_configured(s.slots.db, t.cfg_port, q as nat),
        !s.slots.errors.contains_key(dec(q as nat)),
    ensures
        ({
            let r = config_followed(setup, s, t, hal, num_sfps, now);
            let port = slot_name(q as nat);
            let inside = q < hal.sfps@.len() && hal.sfps@[q as int].presence == Ok::<bool, XcvrdError>(true);
            let f = identity_fields(d, hal.sfps@[q as int].replaceable == Ok::<bool, XcvrdError>(true));
            &&& r.mapping.to_physical.contains_key(port) && r.mapping.to_physical[port] == q
            &&& field_at(r.slots.db, t.status_sw, port, "status"@) == Some(
                if inside {
                    "1"@
                } else {
                    "0"@
                },
            )
            &&& field_at(r.slots.db, t.status_sw, port, "error"@) == Some("N/A"@)
            &&& identifies(hal, q, d) && f.contains_key(name) ==> field_at(r.slots.db, t.info, port, name) == Some(f[name])
            &&& unreadable(hal, q) ==> r.slots.retry.contains(port)
        }),
{
    let port = slot_name(q as nat);
    let st = state_tables(t);
    let es = slot_changes(s.slots.db, t.cfg_port, s.mapping, num_sfps as nat);
    lemma_slot_configured(s.slots.db, t.cfg_port, q as nat);
    let k = lemma_change_is_alone(s.slots.db, t.cfg_port, s.mapping, num_sfps as nat, q as nat);
    let n = es.len() as int;
    lemma_changes_of_others(setup, s, st, hal, es, now, 0, k, port);
    let before = changes_followed(setup, s, st, hal, es, now, k);
    let after = changes_followed(setup, s, st, hal, es, now, k + 1);
    assert(after == change_followed(setup, before, st, hal, es[k], now));
    assert(es[k].port_index == q);
    lemma_slot_name_is_no_number(q as nat);
    law_added_port_shows_its_slot(&setup, before.slots, after.mapping, hal, st, es[k], now, q, 0, d, name);
    lemma_changes_of_others(setup, s, st, hal, es, now, k + 1, n, port);
    let end = changes_followed(setup, s, st, hal, es, now, n);
    assert(same_row(after.slots.db, end.slots.db, t.info, port));
    assert(same_row(after.slots.db, end.slots.db, t.status_sw, port));
}

proof fn lemma_slot_name_is_no_number(q: nat)
    ensures
        parse_unsigned(slot_name(q), usize::MAX as nat) is None,
{
    reveal_strlit("Ethernet");
    assert(slot_name(q)[0] == 'E');
    assert(!is_digit(slot_name(q)[0]));
}

/// A turn of the main loop does all that is due: the configuration asks for nothing more
/// afterwards, and when modules were last read again and rows last restored is noted.
pub proof fn law_turn_does_all_that_is_due(
    setup: SfpSetup,
    s: LoopState,
    t: DaemonTables,
    hal: &Hal,
    later: &Hal,
    num_sfps: usize,
    config_read: bool,
    at: u64,
    now: u64,
)
    ensures
        ({
            let r = passed(setup, s, t, hal, later, num_sfps, config_read, at, now);
            let followed = if config_read {
                config_followed(setup, s, t, hal, num_sfps, now)
            } else {
                s
            };
            let read_due = s.last_retry matches Some(l) ==> at >= l + 60_000;
            let restore_due = s.last_recover matches Some(l) ==> at >= l + 5_000;
            &&& config_read ==> slot_changes(s.slots.db, t.cfg_port, r.mapping, num_sfps as nat).len() == 0
            &&& !config_read ==> r.mapping == s.mapping
            &&& read_due && followed.slots.retry != Set::<Seq<char>>::empty() ==> r.last_retry == Some(at)
            &&& !read_due || followed.slots.retry == Set::<Seq<char>>::empty() ==> r.last_retry == s.last_retry
            &&& restore_due ==> r.last_recover == Some(at)
            &&& !restore_due ==> r.last_recover == s.last_recover
        }),
{
    law_followed_configuration_settles(setup, s, t, hal, num_sfps, now);
    let es = slot_changes(s.slots.db, t.cfg_port, s.mapping, num_sfps as nat);
    lemma_times_stay(setup, s, state_tables(t), hal, es, now, es.len() as int);
}

proof fn lemma_times_stay(setup: SfpSetup, s: LoopState, t: StateTables, hal: &Hal, es: Seq<EventState>, now: u64, n: int)
    ensures
        changes_followed(setup, s, t, hal, es, now, n).last_retry == s.last_retry,
        changes_followed(setup, s, t, hal, es, now, n).last_recover == s.last_recover,
    decreases n,
{
    if n > 0 {
        lemma_times_stay(setup, s, t, hal, es, now, n - 1);
    }
}

/// A turn asks the module of a port where the module is to be read again and a minute has
/// gone by since the last time, or where rows of the port are missing that are to be
/// restored and five seconds have gone by, and at no other time.
pub proof fn law_module_is_asked_when_it_is_due(setup: SfpSetup, s: LoopState, t: DaemonTables, at: u64, port: Seq<char>)
    ensures
        ({
            let wanted = module_wanted(setup, s, t, at, port);
            let read_due = s.last_retry matches Some(l) ==> at >= l + 60_000;
            let restore_due = s.last_recover matches Some(l) ==> at >= l + 5_000;
            let complete = s.slots.db.contains_key((t.info, port)) && s.slots.db.contains_key((t.dom_threshold, port));
            let again = s.slots.retry.contains(port);
            let error = field_at(s.slots.db, t.status_sw, port, "error"@);
            let restorable = {
                &&& s.mapping.to_asic.contains_key(port)
                &&& s.mapping.to_physical.contains_key(port)
                &&& field_at(s.slots.db, t.status_sw, port, "status"@) != Some("0"@)
                &&& !(s.gone matches Some(g) && g.contains(port))
                &&& error is None || error == Some("N/A"@) || error->0.len() == 0
                &&& !s.slots.attempts.contains_key(port) || s.slots.attempts[port] < 3
            };
            &&& again ==> wanted == read_due
            &&& !again && !restore_due ==> !wanted
            &&& !again && complete ==> !wanted
            &&& !again && !complete && restore_due ==> wanted == restorable
        }),
{
    law_restoring_is_wanted(&setup, s.slots, s.mapping, state_tables(t), s.gone, port);
}

} // verus!
