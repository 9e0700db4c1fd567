//! Which ports are monitored, and when.

use vstd::prelude::*;
use vstd::string::*;
use crate::clock::utc_text;
use crate::db::{field_at, DbState, TableId};
use crate::dom::dom_mgr::{
    link_event, not_due, read_under_freeze, DomSetup, DomThermalInfoUpdateTask, FlagStatusTables, FrozenReading,
    VdmPmFirmwareTables,
};
use crate::dom::isolation::same_row;
use crate::dom::monitor_laws::plugged;
use crate::dom::utilities::dom_sensor::monitor_text;
use crate::dom::utilities::vdm::{confirmed, next_step, HandshakeStep, VdmRequest};
use crate::dom::vdm_laws::tables_by_kind;
use crate::dom::vdm_run::{request_after, vdm_part};
use crate::error::XcvrdError;
use crate::hal::{Hal, Handshake, Sfp};
use crate::text::holds_text;
use crate::value::{Dict, Reply, Val, Value};
use crate::xcvrd_utilities::port_event_helper::{
    consistent, physical_of, ports_of, EventState, PortChangeEventType,
};
use crate::xcvrd_utilities::utils::flat;

verus! {

/// A port is left alone by the polls where the configuration turns the monitoring of its
/// slot off, where its bring-up has not ended, and where its error says that its EEPROM
/// cannot be read.
pub proof fn law_closed_ports_are_left_alone(
    setup: &DomSetup,
    hal: &Hal,
    db: DbState,
    p: usize,
    port: Seq<char>,
    flags: bool,
    vdm: bool,
    now: u64,
)
    requires
        setup.port_mapping@.to_physical.contains_key(port),
        setup.port_mapping@.to_physical[port] == p,
        setup.port_mapping@.to_logical.contains_key(p),
        setup.port_mapping@.to_logical[p].len() > 0,
        setup.port_mapping@.to_asic.contains_key(port),
        !(setup.deconfigured_ports matches Some(s) && s@.contains(port)),
        ({
            let first = setup.port_mapping@.to_logical[p][0];
            let state = field_at(db, setup.status_sw_tbl, port, "cmis_state"@);
            ||| field_at(db, setup.cfg_port_tbl, first, "dom_polling"@) == Some("disabled"@)
            ||| !setup.skip_cmis_mgr && state != Some("READY"@) && state != Some("FAILED"@) && state != Some(
                "REMOVED"@,
            )
            ||| field_at(db, setup.status_sw_tbl, port, "error"@) matches Some(e) && holds_text(
                e,
                "Blocking EEPROM from being read"@,
            )
        }),
    ensures
        setup.port_polled(hal, db, port, flags, vdm, now) == db,
{
    reveal_strlit("UNKNOWN");
    reveal_strlit("READY");
    reveal_strlit("FAILED");
    reveal_strlit("REMOVED");
    assert("UNKNOWN"@[0] == 'U' && "READY"@[0] == 'R' && "FAILED"@[0] == 'F' && "REMOVED"@[0] == 'R');
}

/// Every row that the monitoring writes is gone once the configuration has a port no
/// more, in whichever of its tables it is.
pub proof fn law_every_row_of_a_gone_port_is_purged(
    setup: &DomSetup,
    hal: &Hal,
    db: DbState,
    port: Seq<char>,
    flags: bool,
    vdm: bool,
    now: u64,
    ft: FlagStatusTables,
    v: VdmPmFirmwareTables,
    kind: int,
)
    requires
        setup.deconfigured_ports matches Some(s) && s@.contains(port),
        physical_of(setup.port_mapping@, port) is Some,
        setup.flag_status_tables == Some(ft),
        setup.vdm_pm_fw == Some(v),
        0 <= kind < 4,
    ensures
        ({
            let after = setup.port_polled(hal, db, port, flags, vdm, now);
            let f = v.vdm_flag_tables;
            &&& !after.contains_key((setup.dom_tbl, port))
            &&& !after.contains_key((ft.dom_flag_tbl, port)) && !after.contains_key((ft.dom_flag_change_count_tbl, port))
            &&& !after.contains_key((ft.dom_flag_set_time_tbl, port)) && !after.contains_key(
                (ft.dom_flag_clear_time_tbl, port),
            )
            &&& !after.contains_key((ft.status_tbl, port)) && !after.contains_key((ft.status_flag_tbl, port))
            &&& !after.contains_key((ft.status_flag_change_count_tbl, port)) && !after.contains_key(
                (ft.status_flag_set_time_tbl, port),
            )
            &&& !after.contains_key((ft.status_flag_clear_time_tbl, port))
            &&& !after.contains_key((v.vdm_real_value_tbl, port)) && !after.contains_key((v.pm_tbl, port))
            &&& !after.contains_key((v.firmware_info_tbl, port))
            &&& !after.contains_key((tables_by_kind(f.flag)[kind], port)) && !after.contains_key(
                (tables_by_kind(f.change_count)[kind], port),
            )
            &&& !after.contains_key((tables_by_kind(f.set_time)[kind], port)) && !after.contains_key(
                (tables_by_kind(f.clear_time)[kind], port),
            )
        }),
{
    let o = setup.owned_tables();
    let f = v.vdm_flag_tables;
    assert(o.len() == 29);
    assert(o[0] == setup.dom_tbl);
    assert(o[1] == ft.dom_flag_tbl && o[2] == ft.dom_flag_change_count_tbl && o[3] == ft.dom_flag_set_time_tbl);
    assert(o[4] == ft.dom_flag_clear_time_tbl && o[5] == ft.status_tbl && o[6] == ft.status_flag_tbl);
    assert(o[7] == ft.status_flag_change_count_tbl && o[8] == ft.status_flag_set_time_tbl);
    assert(o[9] == ft.status_flag_clear_time_tbl && o[10] == v.vdm_real_value_tbl);
    assert(o[11 + kind] == tables_by_kind(f.flag)[kind]);
    assert(o[15 + kind] == tables_by_kind(f.change_count)[kind]);
    assert(o[19 + kind] == tables_by_kind(f.set_time)[kind]);
    assert(o[23 + kind] == tables_by_kind(f.clear_time)[kind]);
    assert(o[27] == v.pm_tbl && o[28] == v.firmware_info_tbl);
}

/// A port that is set in the application database makes the flags of its slot due a
/// second later, and no other event makes anything due; what is due stays pending until
/// its time has come.
pub proof fn law_link_events_make_due(pending: Map<usize, u64>, e: EventState, at: u64, p: usize)
    requires
        e.port_index >= 0,
        at + 1000 <= u64::MAX,
    ensures
        ({
            let link = e.event_type == PortChangeEventType::PortSet && e.db_name == Some("APPL_DB"@);
            let after = link_event(pending, e, at);
            &&& link ==> after.contains_key(e.port_index as usize) && after[e.port_index as usize] == at + 1000
            &&& !link || p != e.port_index ==> after.contains_key(p) == pending.contains_key(p)
            &&& (!link || p != e.port_index) && pending.contains_key(p) ==> after[p] == pending[p]
            &&& not_due(pending, at).contains_key(p) == (pending.contains_key(p) && at < pending[p])
            &&& not_due(pending, at).contains_key(p) ==> not_due(pending, at)[p] == pending[p]
        }),
{
}

/// A handshake is over without success where it was not accepted, with success as soon as
/// an answer says that it is done, and without success after a second; until then it is
/// polled.
pub proof fn law_handshake_goes_on_for_a_second(h: Handshake, elapsed: u64)
    ensures
        ({
            let said = Ok::<Value, XcvrdError>(Value::Bool(true));
            let done = h.polls@.len() > 0 && h.polls@.last().1 == said;
            &&& h.action != said ==> next_step(h, elapsed) == HandshakeStep::Done(false)
            &&& h.action == said && done ==> next_step(h, elapsed) == HandshakeStep::Done(true)
            &&& h.action == said && !done && elapsed >= 1000 ==> next_step(h, elapsed) == HandshakeStep::Done(false)
            &&& h.action == said && !done && elapsed < 1000 ==> next_step(h, elapsed) == HandshakeStep::Poll
        }),
{
}

/// What is asked of a module for its versatile diagnostics: nothing where it has none;
/// else, where it has statistics and is not in low-power mode, to freeze them, the
/// statistics and the performance monitoring where it froze, and to release them; then
/// its other values, and last its flags.
pub proof fn law_module_is_asked_in_order(s: Sfp)
    ensures
        ({
            let said = Ok::<Value, XcvrdError>(Value::Bool(true));
            let offers = s.vdm_supported == said;
            let freezes = s.vdm_statistic_supported == said && s.lpmode != Ok::<bool, XcvrdError>(true);
            &&& !offers ==> vdm_part(s).len() == 0 && request_after(VdmRequest::Firmware, s) == VdmRequest::Done
            &&& offers && !freezes ==> vdm_part(s) == seq![VdmRequest::Basic, VdmRequest::Flags] && request_after(
                VdmRequest::Firmware,
                s,
            ) == VdmRequest::Basic
            &&& offers && freezes && !confirmed(s.vdm_freeze) ==> vdm_part(s) == seq![
                VdmRequest::Freeze,
                VdmRequest::Release,
                VdmRequest::Basic,
                VdmRequest::Flags,
            ]
            &&& offers && freezes && confirmed(s.vdm_freeze) ==> vdm_part(s) == seq![
                VdmRequest::Freeze,
                VdmRequest::Statistic,
                VdmRequest::Pm,
                VdmRequest::Release,
                VdmRequest::Basic,
                VdmRequest::Flags,
            ]
            &&& offers && freezes ==> request_after(VdmRequest::Firmware, s) == VdmRequest::Freeze
            &&& confirmed(s.vdm_freeze) ==> request_after(VdmRequest::Freeze, s) == VdmRequest::Statistic
            &&& !confirmed(s.vdm_freeze) ==> request_after(VdmRequest::Freeze, s) == VdmRequest::Release
            &&& request_after(VdmRequest::Statistic, s) == VdmRequest::Pm
            &&& request_after(VdmRequest::Pm, s) == VdmRequest::Release
            &&& request_after(VdmRequest::Release, s) == VdmRequest::Basic
            &&& request_after(VdmRequest::Basic, s) == VdmRequest::Flags
            &&& request_after(VdmRequest::Flags, s) == VdmRequest::Done
        }),
{
    assert(seq![VdmRequest::Freeze] + Seq::<VdmRequest>::empty() + seq![
        VdmRequest::Release,
        VdmRequest::Basic,
        VdmRequest::Flags,
    ] =~= seq![VdmRequest::Freeze, VdmRequest::Release, VdmRequest::Basic, VdmRequest::Flags]);
    assert(seq![VdmRequest::Freeze] + seq![VdmRequest::Statistic, VdmRequest::Pm] + seq![
        VdmRequest::Release,
        VdmRequest::Basic,
        VdmRequest::Flags,
    ] =~= seq![
        VdmRequest::Freeze,
        VdmRequest::Statistic,
        VdmRequest::Pm,
        VdmRequest::Release,
        VdmRequest::Basic,
        VdmRequest::Flags,
    ]);
}

proof fn lemma_temperature_of_another(
    task: &DomThermalInfoUpdateTask,
    hal: &Hal,
    db: DbState,
    now: u64,
    n: int,
    p: usize,
    t: TableId,
    port: Seq<char>,
)
    requires
        consistent(task.port_mapping@),
        task.port_mapping@.first_physical(port) == Some(p),
        0 < n <= task.port_mapping.physical_to_logical.keys().len(),
        task.port_mapping.physical_to_logical.keys()[n - 1] != p,
    ensures
        same_row(task.ports_polled(hal, db, now, n - 1), task.ports_polled(hal, db, now, n), t, port),
{
    let m = task.port_mapping@;
    let q = task.port_mapping.physical_to_logical.keys()[n - 1];
    match m.first_logical(q) {
        Some(other) => {
            assert(ports_of(m, q)[0] == other);
            assert(ports_of(m, q).contains(other));
            assert(other != port);
        },
        None => {},
    }
}

proof fn lemma_temperatures_before(
    task: &DomThermalInfoUpdateTask,
    hal: &Hal,
    db: DbState,
    now: u64,
    n: int,
    p: usize,
    t: TableId,
    port: Seq<char>,
)
    requires
        consistent(task.port_mapping@),
        task.port_mapping@.first_physical(port) == Some(p),
        0 <= n <= task.port_mapping.physical_to_logical.keys().len(),
        forall|j: int| 0 <= j < n ==> #[trigger] task.port_mapping.physical_to_logical.keys()[j] != p,
    ensures
        same_row(db, task.ports_polled(hal, db, now, n), t, port),
    decreases n,
{
    if n > 0 {
        lemma_temperatures_before(task, hal, db, now, n - 1, p, t, port);
        lemma_temperature_of_another(task, hal, db, now, n, p, t, port);
    }
}

/// A poll of the temperatures publishes that of every slot where a module is in, for its
/// first logical port, unless the configuration turns the monitoring off.
pub proof fn law_poll_publishes_the_temperatures(
    task: &DomThermalInfoUpdateTask,
    hal: &Hal,
    db: DbState,
    now: u64,
    p: usize,
    port: Seq<char>,
    i: int,
    n: int,
    v: Value,
)
    requires
        consistent(task.port_mapping@),
        plugged(task.port_mapping@, hal, port, p),
        task.port_mapping@.to_logical.contains_key(p),
        task.port_mapping@.to_logical[p][0] == port,
        0 <= i < n <= task.port_mapping.physical_to_logical.keys().len(),
        task.port_mapping.physical_to_logical.keys()[i] == p,
        forall|j: int|
            0 <= j < task.port_mapping.physical_to_logical.keys().len() && j != i
                ==> #[trigger] task.port_mapping.physical_to_logical.keys()[j] != p,
        !(task.deconfigured_ports matches Some(s) && s@.contains(port)),
        hal.sfps@[p as int].temperature == Ok::<Value, XcvrdError>(v),
    ensures
        ({
            let after = task.ports_polled(hal, db, now, n);
            let t = task.dom_temperature_tbl;
            let off = field_at(db, task.cfg_port_tbl, port, "dom_polling"@) == Some("disabled"@);
            &&& !off ==> field_at(after, t, port, "temperature"@) == Some(monitor_text("temperature"@, v@))
            &&& !off ==> field_at(after, t, port, "last_update_time"@) == Some(utc_text(now))
            &&& off ==> same_row(db, after, t, port)
        }),
    decreases n,
{
    let t = task.dom_temperature_tbl;
    let m = task.port_mapping@;
    if i < n - 1 {
        law_poll_publishes_the_temperatures(task, hal, db, now, p, port, i, n - 1, v);
        lemma_temperature_of_another(task, hal, db, now, n, p, t, port);
    } else {
        lemma_temperatures_before(task, hal, db, now, n - 1, p, t, port);
        lemma_temperatures_before(task, hal, db, now, n - 1, p, task.cfg_port_tbl, port);
        assert(m.first_logical(p) == Some(port));
        let d = Map::<Seq<char>, Val>::empty().insert("temperature"@, v@);
        assert(d.dom().contains("temperature"@));
        reveal_strlit("temperature");
        reveal_strlit("last_update_time");
        reveal_strlit("disabled");
        reveal_strlit("enabled");
        assert("temperature"@.len() == 11 && "last_update_time"@.len() == 16);
        assert("disabled"@[0] == 'd' && "enabled"@[0] == 'e');
    }
}

/// What is asked of the module of a port: its firmware versions first, where a module is
/// in, then what its versatile diagnostics call for.
pub proof fn law_firmware_is_asked_first(setup: &DomSetup, hal: &Hal, port: Seq<char>, p: usize)
    requires
        setup.port_mapping@.to_physical.contains_key(port),
        setup.port_mapping@.to_physical[port] == p,
        physical_of(setup.port_mapping@, port) == Some(p),
        p < hal.sfps@.len(),
    ensures
        ({
            let asked = setup.vdm_asked(hal, port);
            let s = hal.sfps@[p as int];
            let there = s.presence == Ok::<bool, XcvrdError>(true);
            &&& there ==> asked.len() > 0 && asked[0] == VdmRequest::Firmware && asked.skip(1) == vdm_part(s)
            &&& !there ==> asked == vdm_part(s)
        }),
{
    let asked = setup.vdm_asked(hal, port);
    let s = hal.sfps@[p as int];
    assert((seq![VdmRequest::Firmware] + vdm_part(s)).skip(1) =~= vdm_part(s));
    assert(Seq::<VdmRequest>::empty() + vdm_part(s) =~= vdm_part(s));
}

/// Between freezing and releasing, a module that froze is asked for its statistics and
/// for its performance monitoring, and one that did not is asked for nothing.
pub proof fn law_statistics_need_a_freeze(s: Sfp, frozen: bool, o: FrozenReading, d: Dict)
    requires
        read_under_freeze(s, frozen, o),
        s.vdm_real_value_statistic == Ok::<Reply, XcvrdError>(Reply::Object(d)),
    ensures
        o.0.0 == frozen,
        frozen ==> o.0.1@ == d@ && o.1@.len() == 2 && o.1@[0] == VdmRequest::Statistic && o.1@[1] == VdmRequest::Pm,
        !frozen ==> o.0.1@.dom().len() == 0 && o.1@.len() == 0,
{
}

/// The memory of a module counts as flat unless the module says that it is not.
pub proof fn law_memory_is_flat_unless_denied(e: XcvrdError, b: bool, v: Value)
    ensures
        flat(Ok(Value::Bool(b))) == b,
        !(v is Bool) ==> flat(Ok(v)),
        flat(Err(e)),
{
}

} // verus!
