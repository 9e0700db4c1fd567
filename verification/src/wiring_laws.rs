//! What the tasks of a daemon that has just started do with its tables.

use vstd::prelude::*;
use vstd::string::*;
use crate::clock::utc_text;
use crate::cmis::cmis_manager_task::{port_of, CmisManagerTask, World};
use crate::cmis::lane_laws::{law_bring_up_lights_the_configured_lanes, lanes_are, listed, lists_lanes};
use crate::cmis::datapath::status_text;
use crate::cmis::laws::steps_taken;
use crate::cmis::step_laws::law_waits_are_as_long_as_set;
use crate::daemon::{cmis_wired, dom_wired, numbered_tables, removal, sfp_wired, state_tables};
use crate::db::{field_at, DbState, TableId};
use crate::dom::dom_mgr::DomInfoUpdateTask;
use crate::dom::isolation::plainly_named;
use crate::dom::monitor_laws::plugged;
use crate::dom::poll_laws::{
    comes_to, law_poll_publishes_the_firmware, law_poll_publishes_the_monitors, law_poll_publishes_the_status,
    open_to_polls, polled_all,
};
use crate::dom::utilities::db::py_str;
use crate::dom::utilities::dom_sensor::monitor_text;
use crate::error::XcvrdError;
use crate::hal::Hal;
use crate::text::{dec, holds_text};
use crate::value::{Dict, Reply};
use crate::xcvrd::sfp_state_update::{SfpStateUpdateTask, Slots};
use crate::xcvrd::slot_laws::{law_report_reaches_every_port_of_a_slot, names_slot, tables_apart};
use crate::xcvrd_utilities::common::{law_state_names_read_back, CmisState};
use crate::xcvrd_utilities::port_event_helper::{consistent, physical_of, Mapping};

verus! {

/// Nothing in the daemon's tables keeps a port from being polled: it is the first of the
/// slot `p`, where a module is in, the configuration does not turn its monitoring off,
/// its bring-up has ended, and no error keeps its EEPROM from being read.
pub open spec fn ready_for_polls(m: Mapping, hal: &Hal, db: DbState, p: usize, port: Seq<char>) -> bool {
    let t = numbered_tables();
    let state = field_at(db, t.status_sw, port, "cmis_state"@);
    &&& consistent(m)
    &&& plainly_named(m)
    &&& plugged(m, hal, port, p)
    &&& m.to_logical.contains_key(p)
    &&& m.to_logical[p][0] == port
    &&& field_at(db, t.cfg_port, port, "dom_polling"@) != Some("disabled"@)
    &&& state == Some("READY"@) || state == Some("FAILED"@) || state == Some("REMOVED"@)
    &&& !(field_at(db, t.status_sw, port, "error"@) matches Some(e) && holds_text(e, "Blocking EEPROM from being read"@))
}

/// The first poll of a daemon is due a minute after its start, and every other one a
/// minute after the one before. Each publishes the monitors, the hardware status and the
/// firmware versions of a module in the tables that the daemon has for them.
pub proof fn law_started_monitoring_polls(
    task: DomInfoUpdateTask,
    m: Mapping,
    appl_reached: bool,
    boot: u64,
    hal: &Hal,
    db: DbState,
    flags: bool,
    now: u64,
    p: usize,
    port: Seq<char>,
    i: int,
    d: Dict,
    k: Seq<char>,
)
    requires
        dom_wired(task, numbered_tables(), m, appl_reached, boot),
        boot + 60_000 <= u64::MAX,
        ready_for_polls(m, hal, db, p, port),
        comes_to(&task.setup, p, i),
        d@.contains_key(k),
    ensures
        ({
            let t = numbered_tables();
            let s = hal.sfps@[p as int];
            let told = Ok::<Reply, XcvrdError>(Reply::Object(d));
            let after = polled_all(&task.setup, hal, db, flags, true, now);
            &&& task.first_periodic_deadline matches Some(at) && at - boot == 60 * 1000
            &&& task.dom_update_interval == 60
            &&& s.dom_real_value == told && k != "last_update_time"@ ==> field_at(after, t.dom_sensor, port, k) == Some(
                monitor_text(k, d@[k]),
            )
            &&& s.dom_real_value == told ==> field_at(after, t.dom_sensor, port, "last_update_time"@) == Some(
                utc_text(now),
            )
            &&& s.status == told && k != "last_update_time"@ ==> field_at(after, t.flags.status_tbl, port, k) == Some(
                py_str(d@[k]),
            )
            &&& s.firmware_versions == told ==> field_at(after, t.vdm.firmware_info_tbl, port, k) == Some(py_str(d@[k]))
        }),
{
    let t = numbered_tables();
    let s = hal.sfps@[p as int];
    let told = Ok::<Reply, XcvrdError>(Reply::Object(d));
    let setup = &task.setup;
    assert(open_to_polls(setup, hal, db, p, port));
    if s.dom_real_value == told {
        law_poll_publishes_the_monitors(setup, hal, db, flags, true, now, p, port, i, d, k);
    }
    if s.status == told {
        law_poll_publishes_the_status(setup, hal, db, flags, true, now, p, port, i, t.flags, d, k);
    }
    if s.firmware_versions == told {
        law_poll_publishes_the_firmware(setup, hal, db, flags, now, p, port, i, t.vdm, 0, d, k);
    }
}

/// The bring-up of a daemon looks at its ports every second. It takes the wishes for a port from the tables that the daemon has for them,
/// and says there how far the port has come and which lanes it lights.
pub proof fn law_started_bring_up_lights_the_lanes(
    task: CmisManagerTask,
    m: Mapping,
    h: Seq<Hal>,
    w: World,
    port: Seq<char>,
    physical: usize,
    at: Seq<u64>,
    entries: Seq<Seq<char>>,
)
    requires
        cmis_wired(task, numbered_tables(), m),
        h.len() == 7,
        at.len() == 7,
        forall|k: int| 0 <= k < 7 ==> physical < (#[trigger] h[k]).sfps@.len(),
        field_at(w.db, numbered_tables().status_sw, port, "cmis_state"@) == Some("INSERTED"@),
        field_at(w.db, numbered_tables().cfg_port, port, "admin_status"@) == Some("up"@),
        field_at(w.db, numbered_tables().state_port, port, "host_tx_ready"@) != Some("false"@),
        lists_lanes(w.db, numbered_tables().cfg_port, port, entries),
        1 <= listed(entries) <= 8,
        port_of(w, port).retries <= 3,
        !port_of(w, port).forced_tx_disabled,
        status_text(&h[3], physical, "module_state"@) == Some("ModuleReady"@),
        lanes_are(&h[3], physical, listed(entries), "DataPathDeactivated"@, "DataPathDeactivated"@),
        lanes_are(&h[5], physical, listed(entries), "DataPathInitialized"@, "DataPathActivated"@),
        lanes_are(&h[6], physical, listed(entries), "DataPathActivated"@, "DataPathActivated"@),
        w.db.contains_key((numbered_tables().info, port)),
    ensures
        ({
            let t = numbered_tables();
            let r = steps_taken(&task.setup, h, w, port, physical, at, 7);
            &&& task.tick == 1000
            &&& field_at(r.db, t.status_sw, port, "cmis_state"@) == Some("READY"@)
            &&& field_at(r.db, t.info, port, "host_lane_count"@) == Some(seq!["0123456789"@[listed(entries)]])
            &&& field_at(r.db, t.info, port, "media_lane_count"@) == Some(seq!["0123456789"@[listed(entries)]])
        }),
{
    law_state_names_read_back(CmisState::Inserted);
    law_bring_up_lights_the_configured_lanes(
        &task.setup,
        h,
        w,
        port,
        physical,
        at,
        entries,
        numbered_tables().info,
        1,
    );
}

/// The bring-up of a daemon waits three seconds for a state.
pub proof fn law_started_bring_up_waits(
    task: CmisManagerTask,
    m: Mapping,
    hal: &Hal,
    w: World,
    port: Seq<char>,
    physical: usize,
    at: u64,
)
    requires
        cmis_wired(task, numbered_tables(), m),
        port_of(w, port).retries <= 3,
        field_at(w.db, numbered_tables().status_sw, port, "cmis_state"@) == Some("DP_DEINIT"@),
        at + 3000 <= u64::MAX,
    ensures
        port_of(task.setup.stepped(hal, w, port, physical, at), port).expired == Some((at + 3000) as u64),
{
    law_waits_are_as_long_as_set(&task.setup, hal, w, port, physical, at);
}

proof fn lemma_removal_apart(x: TableId)
    requires
        removal(numbered_tables()).contains(x),
    ensures
        x != numbered_tables().info,
        x != numbered_tables().status_sw,
        x != numbered_tables().state_port,
{
}

/// A module that is taken out of a slot of a started daemon leaves no row in any of the
/// tables that go with a module, and the daemon says in its tables that the port is
/// empty and that its settings are to be notified anew.
pub proof fn law_started_daemon_clears_empty_slots(
    task: SfpStateUpdateTask,
    w: Slots,
    m: Mapping,
    hal: &Hal,
    later: &Hal,
    report: Map<Seq<char>, Seq<char>>,
    p: usize,
    at: int,
    descriptions: Map<Seq<char>, Seq<char>>,
    now: u64,
    gone: TableId,
)
    requires
        sfp_wired(task, numbered_tables(), m),
        consistent(m),
        report.dom().finite(),
        report.contains_key(dec(p as nat)),
        report[dec(p as nat)] == "0"@,
        forall|k: Seq<char>| #[trigger] report.contains_key(k) && names_slot(k, p) ==> k == dec(p as nat),
        p <= 0x7fff_ffff_ffff_ffff,
        m.to_logical.contains_key(p),
        0 <= at < m.to_logical[p].len(),
        physical_of(m, m.to_logical[p][at]) == Some(p),
        m.to_asic.contains_key(m.to_logical[p][at]),
        removal(numbered_tables()).contains(gone),
    ensures
        ({
            let t = numbered_tables();
            let port = m.to_logical[p][at];
            let after = task.setup.report_applied(w, m, hal, later, state_tables(t), true, report, descriptions, now);
            &&& field_at(after.db, t.status_sw, port, "status"@) == Some("0"@)
            &&& field_at(after.db, t.status_sw, port, "error"@) == Some("N/A"@)
            &&& field_at(after.db, t.status_sw, port, "cmis_state"@) == Some("INSERTED"@)
            &&& field_at(after.db, t.state_port, port, "NPU_SI_SETTINGS_SYNC_STATUS"@) == Some(
                "NPU_SI_SETTINGS_DEFAULT"@,
            )
            &&& !after.db.contains_key((t.info, port))
            &&& !after.db.contains_key((gone, port))
        }),
{
    let t = state_tables(numbered_tables());
    assert(!removal(numbered_tables()).contains(t.status_sw_tbl) && !removal(numbered_tables()).contains(t.int_tbl)
        && !removal(numbered_tables()).contains(numbered_tables().state_port)) by {
        if removal(numbered_tables()).contains(t.status_sw_tbl) {
            lemma_removal_apart(t.status_sw_tbl);
        }
        if removal(numbered_tables()).contains(t.int_tbl) {
            lemma_removal_apart(t.int_tbl);
        }
        if removal(numbered_tables()).contains(numbered_tables().state_port) {
            lemma_removal_apart(numbered_tables().state_port);
        }
    }
    assert(tables_apart(&task.setup, t));
    law_report_reaches_every_port_of_a_slot(
        &task.setup,
        w,
        m,
        hal,
        later,
        t,
        report,
        p,
        at,
        descriptions,
        now,
        0,
        Map::empty(),
        Map::empty(),
        Seq::empty(),
        gone,
    );
}

} // verus!
