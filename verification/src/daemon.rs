//! The start of the daemon and its passes: the tables it works with, what is set
//! up in which order, and what one turn of its main loop does.

use vstd::prelude::*;
use vstd::string::*;
use crate::cmis::cmis_manager_task::{CmisManagerTask, DEFAULT_AP_CONF_WAIT_MSECS, DEFAULT_TICK_MSECS};
use crate::cmis::datapath::Port;
use crate::db::{field_at, Db, DbState, TableId};
use crate::dom::dom_mgr::{four_tables, DomInfoUpdateTask, FlagStatusTables, VdmPmFirmwareTables};
use crate::dom::utilities::vdm::{table_of, VdmFlagTables, VdmTables, VdmThresholdTables};
use crate::hal::{present, Command, Hal};
use crate::ord_map::{in_order, StrSet};
use crate::xcvrd::sfp_state_update::{
    is_pause_over, marked_for, pause_over, set_of, states_projected, statuses_seeded, ErrorEvents, LogicalPortCtx, SfpSetup,
    SfpStateUpdateTask, Slots, StateTables, RECOVER_BASELINE_INTERVAL_MSECS, RETRY_EEPROM_READING_INTERVAL_MSECS,
    TIME_FOR_SFP_READY_MSECS,
};
use crate::xcvrd::{stale_removed, DaemonXcvrd};
use crate::xcvrd_utilities::common::{cmis_state_text, CMIS_STATE_READY};
use crate::xcvrd_utilities::port_event_helper::{
    event_applied, events_applied, get_port_mapping, law_applied_changes_settle, lemma_slot_names_differ, physical_of,
    poll_config_port_changes, slot_change, slot_changes, slot_name, slots_mapped, EventState, Mapping,
    PortChangeEventType,
};
use crate::xcvrd_utilities::xcvr_table_helper::{
    vdm_flag_change_count_table_name, vdm_flag_clear_time_table_name, vdm_flag_set_time_table_name,
    vdm_flag_table_name, vdm_table_name, vdm_threshold_table_name, vdm_type_name, VdmType,
    TRANSCEIVER_DOM_FLAG_CHANGE_COUNT_TABLE, TRANSCEIVER_DOM_FLAG_CLEAR_TIME_TABLE,
    TRANSCEIVER_DOM_FLAG_SET_TIME_TABLE, TRANSCEIVER_DOM_FLAG_TABLE, TRANSCEIVER_DOM_SENSOR_TABLE,
    TRANSCEIVER_DOM_TEMPERATURE_TABLE, TRANSCEIVER_DOM_THRESHOLD_TABLE, TRANSCEIVER_FIRMWARE_INFO_TABLE,
    TRANSCEIVER_INFO_TABLE, TRANSCEIVER_PM_TABLE, TRANSCEIVER_STATUS_FLAG_CHANGE_COUNT_TABLE,
    TRANSCEIVER_STATUS_FLAG_CLEAR_TIME_TABLE, TRANSCEIVER_STATUS_FLAG_SET_TIME_TABLE,
    TRANSCEIVER_STATUS_FLAG_TABLE, TRANSCEIVER_STATUS_SW_TABLE, TRANSCEIVER_STATUS_TABLE,
    TRANSCEIVER_VDM_REAL_VALUE_TABLE,
};

verus! {

/// The table of the configured ports.
pub const CFG_PORT_TABLE: &'static str = "PORT";

/// The table of the ports in the state and in the application database.
pub const PORT_TABLE: &'static str = "PORT_TABLE";

/// How long one poll for changes of the slots waits.
pub const CHANGE_EVENT_POLL_MSECS: u64 = 1000;

/// How long the poll at the start waits.
pub const CHANGE_EVENT_PRIME_MSECS: u64 = 1;

/// The databases.
#[derive(Debug, Clone, Copy, PartialEq, Eq, Structural)]
pub enum Database {
    State,
    Config,
    Appl,
}

/// Where a table lies.
pub struct TablePlace {
    pub database: Database,
    pub name: String,
}

impl DeepView for TablePlace {
    type V = (Database, Seq<char>);

    open spec fn deep_view(&self) -> (Database, Seq<char>) {
        (self.database, self.name@)
    }
}

/// The tables that the daemon works with.
#[derive(Debug, Clone, Copy)]
pub struct DaemonTables {
    pub info: TableId,
    pub status_sw: TableId,
    pub dom_sensor: TableId,
    pub dom_temperature: TableId,
    pub dom_threshold: TableId,
    pub flags: FlagStatusTables,
    pub vdm: VdmPmFirmwareTables,
    pub vdm_thresholds: VdmThresholdTables,
    pub state_port: TableId,
    pub cfg_port: TableId,
    pub appl_port: TableId,
}

/// The four tables from `first` on.
pub open spec fn four_from(first: TableId) -> VdmTables {
    VdmTables {
        halarm: first,
        lalarm: (first + 1) as usize,
        hwarn: (first + 2) as usize,
        lwarn: (first + 3) as usize,
    }
}

/// The tables, numbered in the order of their places.
pub open spec fn numbered_tables() -> DaemonTables {
    DaemonTables {
        info: 0,
        status_sw: 1,
        dom_sensor: 2,
        dom_temperature: 3,
        dom_threshold: 4,
        flags: FlagStatusTables {
            dom_flag_tbl: 5,
            dom_flag_change_count_tbl: 6,
            dom_flag_set_time_tbl: 7,
            dom_flag_clear_time_tbl: 8,
            status_tbl: 9,
            status_flag_tbl: 10,
            status_flag_change_count_tbl: 11,
            status_flag_set_time_tbl: 12,
            status_flag_clear_time_tbl: 13,
        },
        vdm: VdmPmFirmwareTables {
            vdm_real_value_tbl: 14,
            pm_tbl: 15,
            firmware_info_tbl: 16,
            vdm_flag_tables: VdmFlagTables {
                flag: four_from(17),
                change_count: four_from(21),
                set_time: four_from(25),
                clear_time: four_from(29),
            },
        },
        vdm_thresholds: VdmThresholdTables { thresholds: four_from(33) },
        state_port: 37,
        cfg_port: 38,
        appl_port: 39,
    }
}

/// The places of the four tables of a kind.
pub open spec fn four_places(ending: Seq<char>) -> Seq<(Database, Seq<char>)> {
    seq![
        (Database::State, vdm_table_name(vdm_type_name(VdmType::Halarm), ending)),
        (Database::State, vdm_table_name(vdm_type_name(VdmType::Lalarm), ending)),
        (Database::State, vdm_table_name(vdm_type_name(VdmType::Hwarn), ending)),
        (Database::State, vdm_table_name(vdm_type_name(VdmType::Lwarn), ending)),
    ]
}

/// The places of the tables; a table is named by the position of its place.
pub open spec fn table_places() -> Seq<(Database, Seq<char>)> {
    seq![
        (Database::State, TRANSCEIVER_INFO_TABLE@),
        (Database::State, TRANSCEIVER_STATUS_SW_TABLE@),
        (Database::State, TRANSCEIVER_DOM_SENSOR_TABLE@),
        (Database::State, TRANSCEIVER_DOM_TEMPERATURE_TABLE@),
        (Database::State, TRANSCEIVER_DOM_THRESHOLD_TABLE@),
        (Database::State, TRANSCEIVER_DOM_FLAG_TABLE@),
        (Database::State, TRANSCEIVER_DOM_FLAG_CHANGE_COUNT_TABLE@),
        (Database::State, TRANSCEIVER_DOM_FLAG_SET_TIME_TABLE@),
        (Database::State, TRANSCEIVER_DOM_FLAG_CLEAR_TIME_TABLE@),
        (Database::State, TRANSCEIVER_STATUS_TABLE@),
        (Database::State, TRANSCEIVER_STATUS_FLAG_TABLE@),
        (Database::State, TRANSCEIVER_STATUS_FLAG_CHANGE_COUNT_TABLE@),
        (Database::State, TRANSCEIVER_STATUS_FLAG_SET_TIME_TABLE@),
        (Database::State, TRANSCEIVER_STATUS_FLAG_CLEAR_TIME_TABLE@),
        (Database::State, TRANSCEIVER_VDM_REAL_VALUE_TABLE@),
        (Database::State, TRANSCEIVER_PM_TABLE@),
        (Database::State, TRANSCEIVER_FIRMWARE_INFO_TABLE@),
    ] + four_places("_FLAG"@) + four_places("_FLAG_CHANGE_COUNT"@) + four_places("_FLAG_SET_TIME"@) + four_places(
        "_FLAG_CLEAR_TIME"@,
    ) + four_places("_THRESHOLD"@) + seq![
        (Database::State, PORT_TABLE@),
        (Database::Config, CFG_PORT_TABLE@),
        (Database::Appl, PORT_TABLE@),
    ]
}

/// Adds a table and gives the name by which it goes.
fn open_table(places: &mut Vec<TablePlace>, database: Database, name: String) -> (r: TableId)
    ensures
        r == old(places)@.len(),
        final(places)@.len() == old(places)@.len() + 1,
        final(places).deep_view() == old(places).deep_view().push((database, name@)),
{
    let r: usize = places.len();
    places.push(TablePlace { database, name });
    assert(places.deep_view() =~= old(places).deep_view().push((database, name@)));
    r
}

fn open_state_table(places: &mut Vec<TablePlace>, name: &str) -> (r: TableId)
    ensures
        r == old(places)@.len(),
        final(places)@.len() == old(places)@.len() + 1,
        final(places).deep_view() == old(places).deep_view().push((Database::State, name@)),
{
    open_table(places, Database::State, name.to_owned())
}

/// The tables that exist for each kind of thresholds.
#[derive(Debug, Clone, Copy, PartialEq, Eq, Structural)]
enum VdmTableKind {
    Flag,
    ChangeCount,
    SetTime,
    ClearTime,
    Threshold,
}

spec fn kind_ending(kind: VdmTableKind) -> Seq<char> {
    match kind {
        VdmTableKind::Flag => "_FLAG"@,
        VdmTableKind::ChangeCount => "_FLAG_CHANGE_COUNT"@,
        VdmTableKind::SetTime => "_FLAG_SET_TIME"@,
        VdmTableKind::ClearTime => "_FLAG_CLEAR_TIME"@,
        VdmTableKind::Threshold => "_THRESHOLD"@,
    }
}

fn kind_name(kind: VdmTableKind, t: VdmType) -> (r: String)
    ensures
        r@ == vdm_table_name(vdm_type_name(t), kind_ending(kind)),
{
    match kind {
        VdmTableKind::Flag => vdm_flag_table_name(t.as_str()),
        VdmTableKind::ChangeCount => vdm_flag_change_count_table_name(t.as_str()),
        VdmTableKind::SetTime => vdm_flag_set_time_table_name(t.as_str()),
        VdmTableKind::ClearTime => vdm_flag_clear_time_table_name(t.as_str()),
        VdmTableKind::Threshold => vdm_threshold_table_name(t.as_str()),
    }
}

fn open_four(places: &mut Vec<TablePlace>, kind: VdmTableKind) -> (r: VdmTables)
    requires
        old(places)@.len() <= 1000,
    ensures
        r == four_from(old(places)@.len() as usize),
        final(places)@.len() == old(places)@.len() + 4,
        final(places).deep_view() == old(places).deep_view() + four_places(kind_ending(kind)),
{
    let halarm: TableId = open_table(places, Database::State, kind_name(kind, VdmType::Halarm));
    let lalarm: TableId = open_table(places, Database::State, kind_name(kind, VdmType::Lalarm));
    let hwarn: TableId = open_table(places, Database::State, kind_name(kind, VdmType::Hwarn));
    let lwarn: TableId = open_table(places, Database::State, kind_name(kind, VdmType::Lwarn));
    assert(places.deep_view() =~= old(places).deep_view() + four_places(kind_ending(kind)));
    VdmTables { halarm, lalarm, hwarn, lwarn }
}

/// The tables and their places.
pub fn open_tables() -> (r: (DaemonTables, Vec<TablePlace>))
    ensures
        r.0 == numbered_tables(),
        r.1.deep_view() == table_places(),
{
    let mut p: Vec<TablePlace> = Vec::new();
    let info: TableId = open_state_table(&mut p, TRANSCEIVER_INFO_TABLE);
    let status_sw: TableId = open_state_table(&mut p, TRANSCEIVER_STATUS_SW_TABLE);
    let dom_sensor: TableId = open_state_table(&mut p, TRANSCEIVER_DOM_SENSOR_TABLE);
    let dom_temperature: TableId = open_state_table(&mut p, TRANSCEIVER_DOM_TEMPERATURE_TABLE);
    let dom_threshold: TableId = open_state_table(&mut p, TRANSCEIVER_DOM_THRESHOLD_TABLE);
    let flags = FlagStatusTables {
        dom_flag_tbl: open_state_table(&mut p, TRANSCEIVER_DOM_FLAG_TABLE),
        dom_flag_change_count_tbl: open_state_table(&mut p, TRANSCEIVER_DOM_FLAG_CHANGE_COUNT_TABLE),
        dom_flag_set_time_tbl: open_state_table(&mut p, TRANSCEIVER_DOM_FLAG_SET_TIME_TABLE),
        dom_flag_clear_time_tbl: open_state_table(&mut p, TRANSCEIVER_DOM_FLAG_CLEAR_TIME_TABLE),
        status_tbl: open_state_table(&mut p, TRANSCEIVER_STATUS_TABLE),
        status_flag_tbl: open_state_table(&mut p, TRANSCEIVER_STATUS_FLAG_TABLE),
        status_flag_change_count_tbl: open_state_table(&mut p, TRANSCEIVER_STATUS_FLAG_CHANGE_COUNT_TABLE),
        status_flag_set_time_tbl: open_state_table(&mut p, TRANSCEIVER_STATUS_FLAG_SET_TIME_TABLE),
        status_flag_clear_time_tbl: open_state_table(&mut p, TRANSCEIVER_STATUS_FLAG_CLEAR_TIME_TABLE),
    };
    let vdm_real_value_tbl: TableId = open_state_table(&mut p, TRANSCEIVER_VDM_REAL_VALUE_TABLE);
    let pm_tbl: TableId = open_state_table(&mut p, TRANSCEIVER_PM_TABLE);
    let firmware_info_tbl: TableId = open_state_table(&mut p, TRANSCEIVER_FIRMWARE_INFO_TABLE);
    let vdm_flag_tables = VdmFlagTables {
        flag: open_four(&mut p, VdmTableKind::Flag),
        change_count: open_four(&mut p, VdmTableKind::ChangeCount),
        set_time: open_four(&mut p, VdmTableKind::SetTime),
        clear_time: open_four(&mut p, VdmTableKind::ClearTime),
    };
    let vdm_thresholds = VdmThresholdTables { thresholds: open_four(&mut p, VdmTableKind::Threshold) };
    let state_port: TableId = open_state_table(&mut p, PORT_TABLE);
    let cfg_port: TableId = open_table(&mut p, Database::Config, CFG_PORT_TABLE.to_owned());
    let appl_port: TableId = open_table(&mut p, Database::Appl, PORT_TABLE.to_owned());
    assert(p.deep_view() =~= table_places());
    let t = DaemonTables {
        info,
        status_sw,
        dom_sensor,
        dom_temperature,
        dom_threshold,
        flags,
        vdm: VdmPmFirmwareTables { vdm_real_value_tbl, vdm_flag_tables, pm_tbl, firmware_info_tbl },
        vdm_thresholds,
        state_port,
        cfg_port,
        appl_port,
    };
    (t, p)
}

/// The tables of one kind of thresholds whose rows go with a module.
pub open spec fn vdm_removal(t: DaemonTables, k: VdmType) -> Seq<TableId> {
    seq![
        table_of(t.vdm_thresholds.thresholds, k),
        table_of(t.vdm.vdm_flag_tables.flag, k),
        table_of(t.vdm.vdm_flag_tables.change_count, k),
        table_of(t.vdm.vdm_flag_tables.set_time, k),
        table_of(t.vdm.vdm_flag_tables.clear_time, k),
    ]
}

/// The tables whose rows go with a module.
pub open spec fn removal(t: DaemonTables) -> Seq<TableId> {
    seq![
        t.dom_sensor,
        t.dom_temperature,
        t.flags.dom_flag_tbl,
        t.flags.dom_flag_change_count_tbl,
        t.flags.dom_flag_set_time_tbl,
        t.flags.dom_flag_clear_time_tbl,
        t.dom_threshold,
        t.flags.status_tbl,
        t.flags.status_flag_tbl,
        t.flags.status_flag_change_count_tbl,
        t.flags.status_flag_set_time_tbl,
        t.flags.status_flag_clear_time_tbl,
        t.vdm.vdm_real_value_tbl,
        t.vdm.pm_tbl,
        t.vdm.firmware_info_tbl,
    ] + vdm_removal(t, VdmType::Halarm) + vdm_removal(t, VdmType::Lalarm) + vdm_removal(t, VdmType::Hwarn)
        + vdm_removal(t, VdmType::Lwarn)
}

fn push_vdm_removal(v: &mut Vec<TableId>, t: &DaemonTables, k: VdmType)
    ensures
        final(v)@ == old(v)@ + vdm_removal(*t, k),
{
    v.push(t.vdm_thresholds.thresholds.table(k));
    v.push(t.vdm.vdm_flag_tables.flag.table(k));
    v.push(t.vdm.vdm_flag_tables.change_count.table(k));
    v.push(t.vdm.vdm_flag_tables.set_time.table(k));
    v.push(t.vdm.vdm_flag_tables.clear_time.table(k));
    assert(v@ =~= old(v)@ + vdm_removal(*t, k));
}

/// The tables whose rows go with a module.
pub fn removal_tables(t: &DaemonTables) -> (r: Vec<TableId>)
    ensures
        r@ == removal(*t),
{
    let mut v: Vec<TableId> = Vec::new();
    v.push(t.dom_sensor);
    v.push(t.dom_temperature);
    v.push(t.flags.dom_flag_tbl);
    v.push(t.flags.dom_flag_change_count_tbl);
    v.push(t.flags.dom_flag_set_time_tbl);
    v.push(t.flags.dom_flag_clear_time_tbl);
    v.push(t.dom_threshold);
    v.push(t.flags.status_tbl);
    v.push(t.flags.status_flag_tbl);
    v.push(t.flags.status_flag_change_count_tbl);
    v.push(t.flags.status_flag_set_time_tbl);
    v.push(t.flags.status_flag_clear_time_tbl);
    v.push(t.vdm.vdm_real_value_tbl);
    v.push(t.vdm.pm_tbl);
    v.push(t.vdm.firmware_info_tbl);
    push_vdm_removal(&mut v, t, VdmType::Halarm);
    push_vdm_removal(&mut v, t, VdmType::Lalarm);
    push_vdm_removal(&mut v, t, VdmType::Hwarn);
    push_vdm_removal(&mut v, t, VdmType::Lwarn);
    assert(v@ =~= removal(*t));
    v
}

/// The tasks that the daemon runs.
pub struct Tasks {
    pub sfp: SfpStateUpdateTask,
    pub dom: DomInfoUpdateTask,
    pub cmis: CmisManagerTask,
}

/// The tables that the following of the modules writes.
pub open spec fn state_tables(t: DaemonTables) -> StateTables {
    StateTables { int_tbl: t.info, status_sw_tbl: t.status_sw, dom_threshold_tbl: t.dom_threshold }
}

/// The task that follows the modules works on the tables `t` and the ports `m`.
pub open spec fn sfp_wired(task: SfpStateUpdateTask, t: DaemonTables, m: Mapping) -> bool {
    &&& task.namespaces@.len() == 1
    &&& task.namespaces@[0]@ == ""@
    &&& task.port_mapping@ == m
    &&& !task.setup.skip_cmis_mgr
    &&& task.setup.sfp_ready_wait == TIME_FOR_SFP_READY_MSECS
    &&& task.setup.removal_tables@ == removal(t)
    &&& task.setup.vdm_threshold_tables == Some(t.vdm_thresholds)
    &&& task.setup.state_port_tbl == Some(t.state_port)
    &&& set_of(task.deconfigured_ports) == Some(Set::<Seq<char>>::empty())
    &&& task.last_retry_eeprom_time is None
    &&& task.last_recover_baseline_time is None
    &&& task.sfp_error_dict@ == ErrorEvents::empty()
    &&& task.recover_attempts@ == Map::<Seq<char>, u32>::empty()
}

/// The monitoring works on the tables `t` and the ports `m`; its first poll is due
/// one interval after `boot`, and the application database is watched where it is
/// reached.
pub open spec fn dom_wired(task: DomInfoUpdateTask, t: DaemonTables, m: Mapping, appl_reached: bool, boot: u64) -> bool {
    &&& task.setup.port_mapping@ == m
    &&& !task.setup.skip_cmis_mgr
    &&& task.setup.dom_tbl == t.dom_sensor
    &&& task.setup.status_sw_tbl == t.status_sw
    &&& task.setup.cfg_port_tbl == t.cfg_port
    &&& task.setup.flag_status_tables == Some(t.flags)
    &&& task.setup.vdm_pm_fw == Some(t.vdm)
    &&& task.setup.appl_port_tbl == if appl_reached {
        Some(t.appl_port)
    } else {
        None
    }
    &&& set_of(task.setup.deconfigured_ports) == Some(Set::<Seq<char>>::empty())
    &&& task.dom_update_interval == 60
    &&& task.first_periodic_deadline == Some((boot + 60_000) as u64)
    &&& task.flap_last@ == Map::<Seq<char>, Seq<char>>::empty()
    &&& task.link_change_affected_ports@ == Map::<usize, u64>::empty()
    &&& task.cmis_terminal_last@ == Map::<Seq<char>, bool>::empty()
}

/// The bring-up works on the tables `t` and the ports `m`.
pub open spec fn cmis_wired(task: CmisManagerTask, t: DaemonTables, m: Mapping) -> bool {
    &&& task.setup.port_mapping@ == m
    &&& !task.setup.skip_cmis_mgr
    &&& task.setup.status_sw_tbl == t.status_sw
    &&& task.setup.cfg_port_tbl == t.cfg_port
    &&& task.setup.state_port_tbl == Some(t.state_port)
    &&& task.setup.int_tbl == Some(t.info)
    &&& task.setup.ap_conf_wait == DEFAULT_AP_CONF_WAIT_MSECS
    &&& set_of(task.setup.deconfigured_ports) == Some(Set::<Seq<char>>::empty())
    &&& task.tick == DEFAULT_TICK_MSECS
    &&& task.port_state@ == Map::<Seq<char>, Port>::empty()
}

/// The rows at the start: the identities of the modules that are gone deleted, the
/// identities and thresholds of those that are there published, the status of
/// every port set, and the bring-up of every module that was read taken as done.
/// With them, the ports whose EEPROM is to be read again.
pub open spec fn rows_at_start(setup: SfpSetup, t: DaemonTables, m: Mapping, hal: &Hal, db: DbState, now: u64) -> (
    DbState,
    Set<Seq<char>>,
) {
    let n = m.logical.len() as int;
    let fresh = stale_removed(db, m, t.info, hal, n);
    let (posted, retry) = setup.identities_posted(fresh, m, hal, t.info, n);
    let published = setup.all_thresholds_posted(posted, m, hal, t.dom_threshold, retry, now, n).0;
    let seeded = statuses_seeded(published, m, hal, t.status_sw, n);
    (states_projected(seeded, m, hal, t.status_sw, retry, n), retry)
}

/// Sets the daemon up: maps the configured ports, writes the rows of the modules
/// that are there, and makes the tasks.
pub fn start(
    t: &DaemonTables,
    hal: &Hal,
    db: &mut Db,
    num_sfps: usize,
    appl_reached: bool,
    boot: u64,
    now: u64,
) -> (r: Tasks)
    requires
        num_sfps * 4 <= usize::MAX,
        boot + 60_000 <= u64::MAX,
    ensures
        ({
            let m = slots_mapped(old(db)@, t.cfg_port, num_sfps as nat);
            &&& sfp_wired(r.sfp, *t, m)
            &&& dom_wired(r.dom, *t, m, appl_reached, boot)
            &&& cmis_wired(r.cmis, *t, m)
            &&& (final(db)@, r.sfp.retry_eeprom_set@) == rows_at_start(r.sfp.setup, *t, m, hal, old(db)@, now)
        }),
{
    let mapping = get_port_mapping(db, t.cfg_port, num_sfps);
    let mut dom = DomInfoUpdateTask::new(
        mapping.copy(),
        false,
        None,
        t.dom_sensor,
        t.status_sw,
        t.cfg_port,
    );
    dom.set_flag_status_tables(t.flags);
    dom.set_vdm_pm_firmware_tables(t.vdm);
    if appl_reached {
        dom.set_appl_port_table(t.appl_port);
    }
    dom.set_deconfigured_ports(StrSet::new());
    dom.set_first_periodic_from_boot(boot);
    let mut cmis = CmisManagerTask::new(mapping.copy(), false, t.status_sw, t.cfg_port);
    cmis.set_deconfigured_ports(StrSet::new());
    cmis.set_state_port_table(t.state_port);
    cmis.set_info_table(t.info);
    DaemonXcvrd::new(false, false).remove_stale_transceiver_info(&mapping, db, t.info, hal);
    let mut namespaces: Vec<String> = Vec::new();
    namespaces.push("".to_owned());
    let mut sfp = SfpStateUpdateTask::new(namespaces, mapping, false);
    sfp.set_vdm_threshold_tables(t.vdm_thresholds);
    sfp.set_removal_tables(removal_tables(t));
    sfp.set_state_port_table(t.state_port);
    sfp.set_deconfigured_ports(StrSet::new());
    let _ = sfp.post_port_sfp_info_and_dom_thr_to_db_once(hal, db, t.info, t.dom_threshold, now);
    let _ = sfp.init_port_sfp_status_sw_tbl(hal, db, t.status_sw);
    sfp.project_cmis_state_for_present_ports(hal, db, t.status_sw);
    Tasks { sfp, dom, cmis }
}

/// The diagnostics at the start: first the flags of every port, then the monitors
/// and the status.
pub open spec fn first_diagnostics(dom: DomInfoUpdateTask, hal: &Hal, db: DbState, now: u64) -> DbState {
    let n = dom.setup.port_mapping.physical_to_logical.keys().len() as int;
    let primed = match dom.setup.flag_status_tables {
        Some(ft) => dom.setup.ports_primed(hal, db, ft, now, n),
        None => db,
    };
    dom.setup.ports_polled(hal, primed, false, false, now, n)
}

/// Publishes the diagnostics at the start.
pub fn publish_first_diagnostics(dom: &DomInfoUpdateTask, db: &mut Db, hal: &Hal, now: u64)
    ensures
        final(db)@ == first_diagnostics(*dom, hal, old(db)@, now),
{
    dom.prime_flag_baselines(false, db, hal, now);
    dom.poll_once(false, db, hal, false, false, now);
}

/// What the main loop reads and changes.
#[verifier::ext_equal]
pub struct LoopState {
    pub slots: Slots,
    pub mapping: Mapping,
    /// The logical ports that the configuration has no more.
    pub gone: Option<Set<Seq<char>>>,
    pub last_retry: Option<u64>,
    pub last_recover: Option<u64>,
}

/// What the main loop reads and changes of the task.
pub open spec fn loop_state(task: SfpStateUpdateTask, db: DbState, commands: Seq<(usize, Command)>) -> LoopState {
    LoopState {
        slots: task.slots(db, commands),
        mapping: task.port_mapping@,
        gone: set_of(task.deconfigured_ports),
        last_retry: task.last_retry_eeprom_time,
        last_recover: task.last_recover_baseline_time,
    }
}

/// One change of the configured ports followed.
pub open spec fn change_followed(setup: SfpSetup, s: LoopState, t: StateTables, hal: &Hal, e: EventState, now: u64) -> LoopState {
    let mapping = event_applied(s.mapping, e);
    LoopState {
        slots: match e.event_type {
            PortChangeEventType::PortRemove => setup.port_deconfigured(s.slots, s.mapping, t, e.port_name),
            PortChangeEventType::PortAdd => setup.port_configured(s.slots, mapping, hal, t, e, now),
            _ => s.slots,
        },
        mapping,
        gone: marked_for(s.gone, e),
        ..s
    }
}

/// The first `n` of the changes followed, in order.
pub open spec fn changes_followed(
    setup: SfpSetup,
    s: LoopState,
    t: StateTables,
    hal: &Hal,
    es: Seq<EventState>,
    now: u64,
    n: int,
) -> LoopState
    decreases n,
{
    if n <= 0 {
        s
    } else {
        change_followed(setup, changes_followed(setup, s, t, hal, es, now, n - 1), t, hal, es[n - 1], now)
    }
}

/// The changes that the configuration asks for followed.
pub open spec fn config_followed(
    setup: SfpSetup,
    s: LoopState,
    t: DaemonTables,
    hal: &Hal,
    num_sfps: usize,
    now: u64,
) -> LoopState {
    let es = slot_changes(s.slots.db, t.cfg_port, s.mapping, num_sfps as nat);
    changes_followed(setup, s, state_tables(t), hal, es, now, es.len() as int)
}

/// The ports whose EEPROM could not be read are read again, once the pause is over.
pub open spec fn eeproms_retried(setup: SfpSetup, s: LoopState, t: StateTables, hal: &Hal, at: u64, now: u64) -> LoopState {
    let names = in_order::<String>(s.slots.retry);
    if s.slots.retry != Set::<Seq<char>>::empty() && pause_over(
        s.last_retry,
        at,
        RETRY_EEPROM_READING_INTERVAL_MSECS,
    ) {
        let (db, retry) = setup.retried(
            s.slots.db,
            s.mapping,
            hal,
            t,
            names,
            s.slots.retry,
            now,
            names.len() as int,
        );
        LoopState { slots: Slots { db, retry, ..s.slots }, last_retry: Some(at), ..s }
    } else {
        s
    }
}

/// The rows that are missing restored, once the pause is over.
pub open spec fn rows_restored(
    setup: SfpSetup,
    s: LoopState,
    t: StateTables,
    hal: &Hal,
    later: &Hal,
    at: u64,
    now: u64,
) -> LoopState {
    if pause_over(s.last_recover, at, RECOVER_BASELINE_INTERVAL_MSECS) {
        LoopState {
            slots: setup.ports_restored(
                s.slots,
                s.mapping,
                hal,
                later,
                t,
                s.gone,
                now,
                s.mapping.logical.len() as int,
            ),
            last_recover: Some(at),
            ..s
        }
    } else {
        s
    }
}

/// Follows the changes that the configuration asks for.
pub fn follow_config(task: &mut SfpStateUpdateTask, t: &DaemonTables, hal: &Hal, db: &mut Db, num_sfps: usize, now: u64)
    requires
        num_sfps * 4 <= usize::MAX,
    ensures
        forall|c: Seq<(usize, Command)>| #[trigger]
            loop_state(*final(task), final(db)@, c) == config_followed(
                old(task).setup,
                loop_state(*old(task), old(db)@, c),
                *t,
                hal,
                num_sfps,
                now,
            ),
        final(task).setup == old(task).setup,
        final(task).namespaces == old(task).namespaces,
{
    let ctx = LogicalPortCtx {
        hal,
        int_tbl: t.info,
        status_sw_tbl: t.status_sw,
        dom_threshold_tbl: t.dom_threshold,
    };
    let events = poll_config_port_changes(db, t.cfg_port, num_sfps, &task.port_mapping);
    let ghost es = events.deep_view();
    let mut i: usize = 0;
    while i < events.len()
        invariant
            i <= events.len(),
            es == events.deep_view(),
            ctx.hal == hal,
            ctx.tables() == state_tables(*t),
            forall|c: Seq<(usize, Command)>| #[trigger]
                loop_state(*task, db@, c) == changes_followed(
                    old(task).setup,
                    loop_state(*old(task), old(db)@, c),
                    state_tables(*t),
                    hal,
                    es,
                    now,
                    i as int,
                ),
            task.setup == old(task).setup,
            task.namespaces == old(task).namespaces,
        decreases events.len() - i,
    {
        let ghost before = *task;
        let ghost rows = db@;
        task.on_port_config_change(&ctx, db, &events[i], now);
        proof {
            assert(es[i as int] == events[i as int]@);
            assert forall|c: Seq<(usize, Command)>| #[trigger]
                loop_state(*task, db@, c) == changes_followed(
                    old(task).setup,
                    loop_state(*old(task), old(db)@, c),
                    state_tables(*t),
                    hal,
                    es,
                    now,
                    i + 1,
                ) by {
                let s = loop_state(before, rows, c);
                assert(task.slots(db@, c) == change_followed(
                    old(task).setup,
                    s,
                    state_tables(*t),
                    hal,
                    es[i as int],
                    now,
                ).slots);
            }
        }
        i = i + 1;
    }
}

/// What the main loop does before it polls for changes of the slots: follow the
/// configuration, where it could be read, read again what could not be read, and
/// restore what is missing.
pub open spec fn passed(
    setup: SfpSetup,
    s: LoopState,
    t: DaemonTables,
    hal: &Hal,
    later: &Hal,
    num_sfps: usize,
    config_read: bool,
    at: u64,
    now: u64,
) -> LoopState {
    let followed = if config_read {
        config_followed(setup, s, t, hal, num_sfps, now)
    } else {
        s
    };
    let retried = eeproms_retried(setup, followed, state_tables(t), hal, at, now);
    rows_restored(setup, retried, state_tables(t), hal, later, at, now)
}

/// A turn of the main loop needs to know what the modules report: the configuration
/// asks for changes, EEPROMs are to be read again, or missing rows to be restored.
pub open spec fn modules_wanted(s: LoopState, t: DaemonTables, num_sfps: usize, config_read: bool, at: u64) -> bool {
    ||| config_read && slot_changes(s.slots.db, t.cfg_port, s.mapping, num_sfps as nat).len() > 0
    ||| s.slots.retry != Set::<Seq<char>>::empty() && pause_over(
        s.last_retry,
        at,
        RETRY_EEPROM_READING_INTERVAL_MSECS,
    )
    ||| pause_over(s.last_recover, at, RECOVER_BASELINE_INTERVAL_MSECS)
}

/// Whether a turn of the main loop needs to know what the modules report.
pub fn needs_modules(
    task: &SfpStateUpdateTask,
    t: &DaemonTables,
    db: &Db,
    num_sfps: usize,
    config_read: bool,
    at: u64,
) -> (r: bool)
    requires
        num_sfps * 4 <= usize::MAX,
    ensures
        forall|c: Seq<(usize, Command)>|
            r == modules_wanted(#[trigger] loop_state(*task, db@, c), *t, num_sfps, config_read, at),
{
    if config_read {
        let events = poll_config_port_changes(db, t.cfg_port, num_sfps, &task.port_mapping);
        if events.len() > 0 {
            assert(events.deep_view().len() > 0);
            return true;
        }
        assert(events.deep_view().len() == 0);
    }
    !task.retry_eeprom_set.is_empty() && is_pause_over(
        task.last_retry_eeprom_time,
        at,
        RETRY_EEPROM_READING_INTERVAL_MSECS,
    ) || is_pause_over(task.last_recover_baseline_time, at, RECOVER_BASELINE_INTERVAL_MSECS)
}

/// A turn of the main loop needs to know what the module of a port reports, besides
/// what changes of the configuration call for: its EEPROM is to be read again, or its
/// rows are to be restored.
pub open spec fn module_wanted(setup: SfpSetup, s: LoopState, t: DaemonTables, at: u64, port: Seq<char>) -> bool {
    ||| s.slots.retry.contains(port) && pause_over(s.last_retry, at, RETRY_EEPROM_READING_INTERVAL_MSECS)
    ||| pause_over(s.last_recover, at, RECOVER_BASELINE_INTERVAL_MSECS) && setup.restoring_wanted(
        s.slots,
        s.mapping,
        state_tables(t),
        s.gone,
        port,
    )
}

/// Whether a turn of the main loop needs to know what the module of a port reports,
/// besides what changes of the configuration call for.
pub fn needs_module(task: &SfpStateUpdateTask, t: &DaemonTables, db: &Db, at: u64, port: &str) -> (r: bool)
    ensures
        forall|c: Seq<(usize, Command)>|
            r == module_wanted(task.setup, #[trigger] loop_state(*task, db@, c), *t, at, port@),
{
    let again = task.retry_eeprom_set.contains(port) && is_pause_over(
        task.last_retry_eeprom_time,
        at,
        RETRY_EEPROM_READING_INTERVAL_MSECS,
    );
    let restore = is_pause_over(task.last_recover_baseline_time, at, RECOVER_BASELINE_INTERVAL_MSECS)
        && task.needs_restoring(db, t.info, t.status_sw, t.dom_threshold, port);
    proof {
        assert forall|c: Seq<(usize, Command)>|
            (again || restore) == module_wanted(
                task.setup,
                #[trigger] loop_state(*task, db@, c),
                *t,
                at,
                port@,
            ) by {
            assert(loop_state(*task, db@, c).slots == task.slots(db@, c));
        }
    }
    again || restore
}

/// A turn of the main loop that does not need to know what the modules report
/// changes nothing, whatever they report.
pub proof fn law_idle_turn_reads_no_module(
    setup: SfpSetup,
    s: LoopState,
    t: DaemonTables,
    hal: &Hal,
    later: &Hal,
    num_sfps: usize,
    config_read: bool,
    at: u64,
    now: u64,
)
    requires
        !modules_wanted(s, t, num_sfps, config_read, at),
    ensures
        passed(setup, s, t, hal, later, num_sfps, config_read, at, now) == s,
{
}

/// One turn of the main loop, up to the poll for changes of the slots.
pub fn pass(
    task: &mut SfpStateUpdateTask,
    t: &DaemonTables,
    hal: &Hal,
    later: &Hal,
    db: &mut Db,
    num_sfps: usize,
    config_read: bool,
    at: u64,
    now: u64,
)
    requires
        num_sfps * 4 <= usize::MAX,
    ensures
        forall|c: Seq<(usize, Command)>| #[trigger]
            loop_state(*final(task), final(db)@, c) == passed(
                old(task).setup,
                loop_state(*old(task), old(db)@, c),
                *t,
                hal,
                later,
                num_sfps,
                config_read,
                at,
                now,
            ),
        final(task).setup == old(task).setup,
        final(task).namespaces == old(task).namespaces,
{
    if config_read {
        follow_config(task, t, hal, db, num_sfps, now);
    }
    let ghost f = *task;
    let ghost f_rows = db@;
    task.retry_eeprom_reading(hal, db, t.info, t.status_sw, t.dom_threshold, at, now);
    let ghost r = *task;
    let ghost r_rows = db@;
    proof {
        assert forall|c: Seq<(usize, Command)>| #[trigger]
            loop_state(r, r_rows, c) == eeproms_retried(
                old(task).setup,
                loop_state(f, f_rows, c),
                state_tables(*t),
                hal,
                at,
                now,
            ) by {
            assert(loop_state(r, r_rows, c) =~= eeproms_retried(
                old(task).setup,
                loop_state(f, f_rows, c),
                state_tables(*t),
                hal,
                at,
                now,
            ));
        }
    }
    task.recover_missing_port_baselines(
        hal,
        later,
        db,
        t.info,
        t.status_sw,
        t.dom_threshold,
        at,
        now,
    );
    proof {
        assert forall|c: Seq<(usize, Command)>| #[trigger]
            loop_state(*task, db@, c) == passed(
                old(task).setup,
                loop_state(*old(task), old(db)@, c),
                *t,
                hal,
                later,
                num_sfps,
                config_read,
                at,
                now,
            ) by {
            assert(loop_state(r, r_rows, c) == eeproms_retried(
                old(task).setup,
                loop_state(f, f_rows, c),
                state_tables(*t),
                hal,
                at,
                now,
            ));
            assert(task.slots(db@, c) == rows_restored(
                old(task).setup,
                loop_state(r, r_rows, c),
                state_tables(*t),
                hal,
                later,
                at,
                now,
            ).slots);
        }
    }
}

/// Every table that the daemon works with.
pub open spec fn all_tables(t: DaemonTables) -> Seq<TableId> {
    seq![t.info, t.status_sw] + removal(t) + seq![t.state_port, t.cfg_port, t.appl_port]
}

/// The tables are distinct, and each has a place.
pub proof fn law_tables_are_distinct()
    ensures
        all_tables(numbered_tables()).no_duplicates(),
        all_tables(numbered_tables()).len() == table_places().len(),
        forall|i: int|
            0 <= i < all_tables(numbered_tables()).len() ==> #[trigger] all_tables(numbered_tables())[i]
                < table_places().len(),
{
    let a = all_tables(numbered_tables());
    assert(a =~= seq![
        0, 1, 2, 3, 5, 6, 7, 8, 4, 9, 10, 11, 12, 13, 14, 15, 16, 33, 17, 21, 25, 29, 34, 18, 22, 26, 30, 35, 19,
        23, 27, 31, 36, 20, 24, 28, 32, 37, 38, 39,
    ]);
}

/// What is published of a module goes with it: every table that the monitoring
/// writes, the temperatures and the thresholds are among those whose rows are
/// deleted.
pub proof fn law_published_rows_go_with_the_module(dom: DomInfoUpdateTask, t: DaemonTables, table: TableId)
    requires
        dom.setup.dom_tbl == t.dom_sensor,
        dom.setup.flag_status_tables == Some(t.flags),
        dom.setup.vdm_pm_fw == Some(t.vdm),
        dom.setup.owned_tables().contains(table) || table == t.dom_temperature || table == t.dom_threshold
            || four_tables(t.vdm_thresholds.thresholds).contains(table),
    ensures
        removal(t).contains(table),
{
    let r = removal(t);
    let own = dom.setup.owned_tables();
    if own.contains(table) {
        let i = own.index_of(table);
        let at: int = if i == 0 {
            0
        } else if i <= 4 {
            i + 1
        } else if i <= 9 {
            i + 2
        } else if i == 10 {
            12
        } else if i <= 26 {
            let j = i - 11;
            15 + 5 * (j % 4) + 1 + j / 4
        } else {
            i - 14
        };
        assert(r[at] == table);
    } else if table == t.dom_temperature {
        assert(r[1] == table);
    } else if table == t.dom_threshold {
        assert(r[6] == table);
    } else {
        let i = four_tables(t.vdm_thresholds.thresholds).index_of(table);
        assert(r[15 + 5 * i] == table);
    }
}

proof fn lemma_projected(db: DbState, m: Mapping, hal: &Hal, t: TableId, retry: Set<Seq<char>>, n: int, i: int)
    requires
        0 <= i < n <= m.logical.len(),
        !retry.contains(m.logical[i]),
        physical_of(m, m.logical[i]) matches Some(p) && present(hal, p),
    ensures
        field_at(states_projected(db, m, hal, t, retry, n), t, m.logical[i], "cmis_state"@) == Some(
            CMIS_STATE_READY@,
        ),
    decreases n,
{
    if i < n - 1 {
        lemma_projected(db, m, hal, t, retry, n - 1, i);
    }
}

/// Of a module that is there and was read at the start the diagnostics are
/// published at once: its bring-up is taken as done.
pub proof fn law_module_at_start_is_monitored(
    setup: SfpSetup,
    dom: DomInfoUpdateTask,
    t: DaemonTables,
    hal: &Hal,
    db: DbState,
    now: u64,
    port: Seq<char>,
)
    requires
        dom.setup.status_sw_tbl == t.status_sw,
        dom.setup.port_mapping@.logical.contains(port),
        physical_of(dom.setup.port_mapping@, port) matches Some(p) && present(hal, p),
        !rows_at_start(setup, t, dom.setup.port_mapping@, hal, db, now).1.contains(port),
    ensures
        ({
            let rows = rows_at_start(setup, t, dom.setup.port_mapping@, hal, db, now).0;
            &&& cmis_state_text(rows, t.status_sw, port) == CMIS_STATE_READY@
            &&& !dom.setup.cmis_initializing(rows, port)
        }),
{
    let m = dom.setup.port_mapping@;
    let n = m.logical.len() as int;
    let fresh = stale_removed(db, m, t.info, hal, n);
    let (posted, retry) = setup.identities_posted(fresh, m, hal, t.info, n);
    let published = setup.all_thresholds_posted(posted, m, hal, t.dom_threshold, retry, now, n).0;
    let seeded = statuses_seeded(published, m, hal, t.status_sw, n);
    lemma_projected(seeded, m, hal, t.status_sw, retry, n, m.logical.index_of(port));
}

proof fn lemma_mapping_followed(
    setup: SfpSetup,
    s: LoopState,
    t: StateTables,
    hal: &Hal,
    es: Seq<EventState>,
    now: u64,
    n: int,
)
    requires
        0 <= n <= es.len(),
    ensures
        changes_followed(setup, s, t, hal, es, now, n).mapping == events_applied(s.mapping, es.take(n)),
    decreases n,
{
    if n > 0 {
        lemma_mapping_followed(setup, s, t, hal, es, now, n - 1);
        assert(es.take(n).drop_last() =~= es.take(n - 1));
    } else {
        assert(es.take(0) =~= Seq::<EventState>::empty());
    }
}

/// Once the configuration was followed, it asks for nothing more.
pub proof fn law_followed_configuration_settles(
    setup: SfpSetup,
    s: LoopState,
    t: DaemonTables,
    hal: &Hal,
    num_sfps: usize,
    now: u64,
)
    ensures
        slot_changes(
            s.slots.db,
            t.cfg_port,
            config_followed(setup, s, t, hal, num_sfps, now).mapping,
            num_sfps as nat,
        ).len() == 0,
{
    let es = slot_changes(s.slots.db, t.cfg_port, s.mapping, num_sfps as nat);
    lemma_mapping_followed(setup, s, state_tables(t), hal, es, now, es.len() as int);
    assert(es.take(es.len() as int) =~= es);
    law_applied_changes_settle(s.slots.db, t.cfg_port, s.mapping, num_sfps as nat);
}

/// What the changes of the first `k` slots do to the mark of a slot's port.
proof fn lemma_marked(
    setup: SfpSetup,
    s: LoopState,
    st: StateTables,
    hal: &Hal,
    cfg: TableId,
    es: Seq<EventState>,
    now: u64,
    k: nat,
    q: nat,
)
    requires
        s.gone is Some,
        q < usize::MAX,
        k <= usize::MAX,
        slot_changes(s.slots.db, cfg, s.mapping, k).len() <= es.len(),
        es.take(slot_changes(s.slots.db, cfg, s.mapping, k).len() as int) == slot_changes(s.slots.db, cfg, s.mapping, k),
    ensures
        ({
            let n = slot_changes(s.slots.db, cfg, s.mapping, k).len() as int;
            let gone = changes_followed(setup, s, st, hal, es, now, n).gone;
            &&& gone is Some
            &&& gone->0.contains(slot_name(q)) == if q < k {
                match slot_change(s.slots.db, cfg, s.mapping, q as usize) {
                    Some(e) => e.event_type == PortChangeEventType::PortRemove,
                    None => s.gone->0.contains(slot_name(q)),
                }
            } else {
                s.gone->0.contains(slot_name(q))
            }
        }),
    decreases k,
{
    if k > 0 {
        let p = (k - 1) as nat;
        let before = slot_changes(s.slots.db, cfg, s.mapping, p);
        let all = slot_changes(s.slots.db, cfg, s.mapping, k);
        match slot_change(s.slots.db, cfg, s.mapping, p as usize) {
            Some(e) => {
                assert(all == before.push(e));
                assert(all.take(before.len() as int) =~= before);
                assert(es.take(before.len() as int) =~= es.take(all.len() as int).take(before.len() as int));
                assert(es[before.len() as int] == es.take(all.len() as int)[before.len() as int]);
                lemma_marked(setup, s, st, hal, cfg, es, now, p, q);
                if p != q {
                    lemma_slot_names_differ(p, q);
                }
            },
            None => {
                lemma_marked(setup, s, st, hal, cfg, es, now, p, q);
            },
        }
    }
}

/// Once the configuration was followed, the ports that it took away are marked as
/// gone, those that it brought are not, and no other mark has changed.
pub proof fn law_followed_ports_are_marked(
    setup: SfpSetup,
    s: LoopState,
    t: DaemonTables,
    hal: &Hal,
    num_sfps: usize,
    now: u64,
    q: nat,
)
    requires
        s.gone is Some,
        q < num_sfps,
    ensures
        ({
            let gone = config_followed(setup, s, t, hal, num_sfps, now).gone;
            &&& gone is Some
            &&& gone->0.contains(slot_name(q)) == match slot_change(s.slots.db, t.cfg_port, s.mapping, q as usize) {
                Some(e) => e.event_type == PortChangeEventType::PortRemove,
                None => s.gone->0.contains(slot_name(q)),
            }
        }),
{
    let es = slot_changes(s.slots.db, t.cfg_port, s.mapping, num_sfps as nat);
    assert(es.take(es.len() as int) =~= es);
    lemma_marked(setup, s, state_tables(t), hal, t.cfg_port, es, now, num_sfps as nat, q);
}

/// What could not be read is not read again before the pause is over.
pub proof fn law_reading_again_waits(setup: SfpSetup, s: LoopState, t: StateTables, hal: &Hal, at: u64, now: u64)
    requires
        s.last_retry matches Some(l) && at < l + RETRY_EEPROM_READING_INTERVAL_MSECS,
    ensures
        eeproms_retried(setup, s, t, hal, at, now) == s,
{
}

} // verus!
