use xcvrd::db::{Db, Row};
use xcvrd::dom::utilities::vdm::{VdmTables, VdmThresholdTables};
use xcvrd::error::{XResult, XcvrdError};
use xcvrd::hal::{ChangeEvent, CommandLog, Hal, Sfp, SfpCommand};
use xcvrd::ord_map::{OrdMap, StrMap, StrSet};
use xcvrd::value::{Dict, Reply, Value};
use xcvrd::xcvrd::sfp_state_update::{
    LogicalPortCtx, SfpStateUpdateTask, SystemEvent, EVENT_ON_ALL_SFP, MAX_RECOVER_ATTEMPTS, SYSTEM_BECOME_READY,
    SYSTEM_FAIL, SYSTEM_NOT_READY,
};
use xcvrd::xcvrd_utilities::common::CMIS_STATE_INSERTED;
use xcvrd::xcvrd_utilities::port_event_helper::{PortChangeEvent, PortChangeEventType, PortMapping};
use xcvrd::xcvrd_utilities::sfp_status_helper::{SFP_STATUS_INSERTED, SFP_STATUS_REMOVED};
use xcvrd::xcvrd_utilities::xcvr_table_helper::{NPU_SI_SETTINGS_DEFAULT_VALUE, NPU_SI_SETTINGS_SYNC_STATUS_KEY};

const INT: usize = 0;
const STATUS_SW: usize = 1;
const DOM_THR: usize = 2;
const DOM: usize = 3;
const DOM_FLAG: usize = 4;
const DOM_FLAG_CC: usize = 5;
const STATUS: usize = 6;
const STATUS_FLAG: usize = 7;
const VDM_HALARM: usize = 8;
const FIRMWARE: usize = 9;
const STATE_PORT: usize = 10;

const NOW: u64 = 1_700_000_000;

fn text(s: &str) -> Value {
    Value::String(s.to_string())
}

fn dict(entries: Vec<(&str, Value)>) -> Dict {
    let mut d: Dict = OrdMap::new();
    for (k, v) in entries {
        d.insert(k.to_string(), v);
    }
    d
}

fn row(fields: &[(&str, &str)]) -> Row {
    let mut r: Row = OrdMap::new();
    for (k, v) in fields {
        r.insert(k.to_string(), v.to_string());
    }
    r
}

fn report(entries: &[(&str, &str)]) -> StrMap<String> {
    row(entries)
}

fn absent() -> Sfp {
    Sfp::empty_slot()
}

fn present() -> Sfp {
    Sfp {
        presence: Ok(true),
        replaceable: Ok(true),
        transceiver_info: Ok(Reply::Scalar(Value::Null)),
        threshold_info: Ok(Reply::Scalar(Value::Null)),
        error_description: Ok(None),
        ..Sfp::empty_slot()
    }
}

fn identified() -> Sfp {
    Sfp {
        transceiver_info: Ok(Reply::Object(dict(vec![
            ("cmis_rev", text("5.0")),
            ("manufacturer", text("xcvr-emu")),
            ("model", text("EMU-100G")),
        ]))),
        ..present()
    }
}

fn with_thresholds() -> Sfp {
    Sfp {
        threshold_info: Ok(Reply::Object(dict(vec![
            ("temphighalarm", text("75.0")),
            ("vcchighalarm", text("3.5")),
        ]))),
        ..identified()
    }
}

fn hal(sfps: Vec<Sfp>) -> Hal {
    Hal { sfps }
}

fn mapping_with(ports: &[(&str, usize)]) -> PortMapping {
    let mut pm = PortMapping::new();
    for (name, phys) in ports {
        pm.handle_port_change_event(&PortChangeEvent::new(name, *phys as i32, 0, PortChangeEventType::PortAdd));
    }
    pm
}

fn task_with(ports: &[(&str, usize)]) -> SfpStateUpdateTask {
    SfpStateUpdateTask::new(vec![String::new()], mapping_with(ports), false)
}

fn names(list: &[&str]) -> StrSet {
    let mut s = StrSet::new();
    for n in list {
        s.insert(n);
    }
    s
}

fn apply(task: &mut SfpStateUpdateTask, hal: &Hal, db: &mut Db, log: &mut CommandLog, ev: &[(&str, &str)]) {
    let mut d = report(ev);
    task.handle_change_event(hal, hal, db, log, INT, STATUS_SW, DOM_THR, true, &mut d, &OrdMap::new(), NOW);
}

fn poll(task: &mut SfpStateUpdateTask, hal: &Hal, db: &mut Db, poll: XResult<ChangeEvent>) {
    let mut log = CommandLog::new();
    task.process_change_event_poll(hal, hal, db, &mut log, INT, STATUS_SW, DOM_THR, poll, NOW);
}

fn event(ev: &[(&str, &str)]) -> XResult<ChangeEvent> {
    Ok(ChangeEvent { status: true, sfp: report(ev), sfp_error: OrdMap::new() })
}

fn recover(task: &mut SfpStateUpdateTask, hal: &Hal, db: &mut Db, at: u64) {
    task.recover_missing_port_baselines(hal, hal, db, INT, STATUS_SW, DOM_THR, at, NOW);
}

fn ctx(hal: &Hal) -> LogicalPortCtx<'_> {
    LogicalPortCtx { hal, int_tbl: INT, status_sw_tbl: STATUS_SW, dom_threshold_tbl: DOM_THR }
}

#[test]
fn test_mapping_event_from_change_event() {
    let task = task_with(&[]);

    let mut port_dict = report(&[]);
    assert_eq!(task.mapping_event_from_change_event(false, &mut port_dict), SystemEvent::Fail);
    assert_eq!(port_dict.get_str(EVENT_ON_ALL_SFP).map(String::as_str), Some(SYSTEM_FAIL));

    let mut port_dict = report(&[(EVENT_ON_ALL_SFP, SYSTEM_FAIL)]);
    assert_eq!(task.mapping_event_from_change_event(false, &mut port_dict), SystemEvent::Fail);

    let mut port_dict = report(&[]);
    assert_eq!(task.mapping_event_from_change_event(true, &mut port_dict), SystemEvent::BecomeReady);
    assert_eq!(port_dict.get_str(EVENT_ON_ALL_SFP).map(String::as_str), Some(SYSTEM_BECOME_READY));

    let mut port_dict = report(&[("1", SFP_STATUS_INSERTED)]);
    assert_eq!(task.mapping_event_from_change_event(true, &mut port_dict), SystemEvent::Normal);
}

#[test]
fn system_events_go_by_their_names() {
    let task = task_with(&[]);
    for (name, e) in [
        ("system_not_ready", SystemEvent::NotReady),
        ("system_become_ready", SystemEvent::BecomeReady),
        ("normal", SystemEvent::Normal),
        ("system_fail", SystemEvent::Fail),
    ] {
        assert_eq!(e.as_str(), name);
        let mut d = report(&[(EVENT_ON_ALL_SFP, name)]);
        assert_eq!(task.mapping_event_from_change_event(false, &mut d), e);
    }
    let mut d = report(&[(EVENT_ON_ALL_SFP, "odd")]);
    assert_eq!(task.mapping_event_from_change_event(false, &mut d), SystemEvent::Fail);
}

#[test]
fn a_system_report_changes_nothing() {
    let mut task = task_with(&[("Ethernet0", 0)]);
    let mut db = Db::new();
    let mut log = CommandLog::new();
    let mut d = report(&[(EVENT_ON_ALL_SFP, SYSTEM_NOT_READY), ("0", SFP_STATUS_INSERTED)]);
    let h = hal(vec![with_thresholds()]);
    task.handle_change_event(&h, &h, &mut db, &mut log, INT, STATUS_SW, DOM_THR, false, &mut d, &OrdMap::new(), NOW);
    assert_eq!(db.get_size(INT), 0);
    assert_eq!(db.get_size(STATUS_SW), 0);
    assert!(log.list.is_empty());
}

#[test]
fn test_init_port_sfp_status_sw_tbl() {
    let task = task_with(&[("Ethernet0", 0), ("Ethernet4", 1)]);
    let mut db = Db::new();
    let h = hal(vec![present(), absent()]);

    task.init_port_sfp_status_sw_tbl(&h, &mut db, STATUS_SW).unwrap();
    assert_eq!(db.hget(STATUS_SW, "Ethernet0", "status").as_deref(), Some("1"));
    assert_eq!(db.hget(STATUS_SW, "Ethernet4", "status").as_deref(), Some("0"));
    assert_eq!(db.hget(STATUS_SW, "Ethernet0", "error").as_deref(), Some("N/A"));
}

#[test]
fn test_init_port_sfp_status_sw_tbl_no_physical_port_found() {
    let mut pm = PortMapping::new();
    pm.logical_port_list.push("Ethernet0".to_string());
    pm.logical_to_asic.insert("Ethernet0".to_string(), 0);
    let task = SfpStateUpdateTask::new(vec![String::new()], pm, false);
    let mut db = Db::new();
    let h = hal(vec![]);

    task.init_port_sfp_status_sw_tbl(&h, &mut db, STATUS_SW).unwrap();
    assert_eq!(db.hget(STATUS_SW, "Ethernet0", "status").as_deref(), Some("0"));
}

#[test]
fn test_post_port_sfp_info_and_dom_thr_to_db_once() {
    let mut task = task_with(&[("Ethernet0", 0), ("Ethernet4", 1)]);
    let mut db = Db::new();
    let h = hal(vec![with_thresholds(), present()]);

    task.post_port_sfp_info_and_dom_thr_to_db_once(&h, &mut db, INT, DOM_THR, NOW).unwrap();
    assert_eq!(db.hget(INT, "Ethernet0", "manufacturer").as_deref(), Some("xcvr-emu"));
    assert!(db.get(INT, "Ethernet4").is_none());
    assert!(task.retry_eeprom_set.contains("Ethernet4"));
    assert!(!task.retry_eeprom_set.contains("Ethernet0"));
    assert_eq!(db.hget(DOM_THR, "Ethernet0", "temphighalarm").as_deref(), Some("75.0"));
    assert!(db.get(DOM_THR, "Ethernet4").is_none());
}

#[test]
fn thresholds_of_every_kind_are_published_at_the_start() {
    let mut task = task_with(&[("Ethernet0", 0)]);
    let vdm = VdmTables { halarm: 20, lalarm: 21, hwarn: 22, lwarn: 23 };
    task.set_vdm_threshold_tables(VdmThresholdTables { thresholds: vdm });
    let mut db = Db::new();
    let sfp = Sfp {
        vdm_thresholds: Ok(Reply::Object(dict(vec![("laser_halarm", text("80")), ("laser_lwarn", text("5"))]))),
        ..with_thresholds()
    };
    task.post_port_sfp_info_and_dom_thr_to_db_once(&hal(vec![sfp]), &mut db, INT, DOM_THR, NOW).unwrap();
    assert_eq!(db.hget(20, "Ethernet0", "laser").as_deref(), Some("80"));
    assert_eq!(db.hget(23, "Ethernet0", "laser").as_deref(), Some("5"));
    assert_eq!(db.get_size(21) + db.get_size(22), 0);
    assert_eq!(db.hget(20, "Ethernet0", "last_update_time").as_deref(), Some("Tue Nov 14 22:13:20 2023"));
}

#[test]
fn test_retry_eeprom_reading() {
    let mut task = task_with(&[("Ethernet0", 0)]);
    let mut db = Db::new();
    let mut h = hal(vec![present()]);
    let at = 1_000_000;

    task.retry_eeprom_reading(&h, &mut db, INT, STATUS_SW, DOM_THR, at, NOW);
    assert!(db.get(INT, "Ethernet0").is_none());

    task.retry_eeprom_set.insert("Ethernet0");
    task.last_retry_eeprom_time = Some(at);
    task.retry_eeprom_reading(&h, &mut db, INT, STATUS_SW, DOM_THR, at, NOW);
    assert!(db.get(INT, "Ethernet0").is_none());
    assert!(task.retry_eeprom_set.contains("Ethernet0"));

    task.last_retry_eeprom_time = None;
    task.retry_eeprom_reading(&h, &mut db, INT, STATUS_SW, DOM_THR, at, NOW);
    assert!(task.retry_eeprom_set.contains("Ethernet0"));

    task.last_retry_eeprom_time = None;
    h.sfps[0] = with_thresholds();
    task.retry_eeprom_reading(&h, &mut db, INT, STATUS_SW, DOM_THR, at, NOW);
    assert!(!task.retry_eeprom_set.contains("Ethernet0"));
    assert_eq!(db.hget(INT, "Ethernet0", "manufacturer").as_deref(), Some("xcvr-emu"));
    assert_eq!(db.hget(STATUS_SW, "Ethernet0", "cmis_state"), None);
    assert_eq!(db.hget(DOM_THR, "Ethernet0", "temphighalarm").as_deref(), Some("75.0"));
}

#[test]
fn eeproms_are_read_again_after_a_minute() {
    let mut task = task_with(&[("Ethernet0", 0), ("Ethernet4", 1)]);
    let mut db = Db::new();
    let h = hal(vec![with_thresholds(), present()]);
    task.retry_eeprom_set = names(&["Ethernet0", "Ethernet4"]);
    task.last_retry_eeprom_time = Some(1000);
    task.retry_eeprom_reading(&h, &mut db, INT, STATUS_SW, DOM_THR, 60_999, NOW);
    assert_eq!(task.last_retry_eeprom_time, Some(1000));
    assert_eq!(db.get_size(INT), 0);
    task.retry_eeprom_reading(&h, &mut db, INT, STATUS_SW, DOM_THR, 61_000, NOW);
    assert_eq!(task.last_retry_eeprom_time, Some(61_000));
    assert_eq!(db.get_size(INT), 1);
    assert_eq!(task.retry_eeprom_set.len(), 1);
    assert!(task.retry_eeprom_set.contains("Ethernet4"));
}

#[test]
fn test_recover_missing_port_baselines_publishes_present_unpublished_port() {
    let mut task = task_with(&[("Ethernet0", 0), ("Ethernet4", 1)]);
    task.setup.sfp_ready_wait = 0;
    let mut db = Db::new();
    let h = hal(vec![with_thresholds(), with_thresholds()]);

    db.set(INT, "Ethernet0", &row(&[("manufacturer", "already-here")]));
    db.set(DOM_THR, "Ethernet0", &row(&[("temphighalarm", "sentinel")]));

    recover(&mut task, &h, &mut db, 0);

    assert_eq!(db.hget(INT, "Ethernet4", "manufacturer").as_deref(), Some("xcvr-emu"));
    assert_eq!(db.hget(DOM_THR, "Ethernet4", "temphighalarm").as_deref(), Some("75.0"));
    assert_eq!(db.hget(STATUS_SW, "Ethernet4", "status").as_deref(), Some("1"));
    assert_eq!(db.hget(STATUS_SW, "Ethernet4", "error").as_deref(), Some("N/A"));
    assert_eq!(db.hget(INT, "Ethernet0", "manufacturer").as_deref(), Some("already-here"));
    assert_eq!(db.hget(DOM_THR, "Ethernet0", "temphighalarm").as_deref(), Some("sentinel"));
}

#[test]
fn test_recover_missing_port_baselines_reposts_missing_dom_threshold() {
    let mut task = task_with(&[("Ethernet0", 0)]);
    task.setup.sfp_ready_wait = 0;
    let mut db = Db::new();
    let h = hal(vec![with_thresholds()]);
    db.set(INT, "Ethernet0", &row(&[("manufacturer", "xcvr-emu")]));
    db.set(STATUS_SW, "Ethernet0", &row(&[("status", "1"), ("error", "N/A")]));

    recover(&mut task, &h, &mut db, 0);

    assert_eq!(db.hget(DOM_THR, "Ethernet0", "temphighalarm").as_deref(), Some("75.0"));
    assert_eq!(db.hget(DOM_THR, "Ethernet0", "vcchighalarm").as_deref(), Some("3.5"));
    assert_eq!(db.hget(INT, "Ethernet0", "manufacturer").as_deref(), Some("xcvr-emu"));
    assert_eq!(db.hget(STATUS_SW, "Ethernet0", "status").as_deref(), Some("1"));
}

#[test]
fn test_recover_missing_port_baselines_skips_just_removed_port() {
    let mut task = task_with(&[("Ethernet0", 0)]);
    task.setup.sfp_ready_wait = 0;
    let mut db = Db::new();
    let h = hal(vec![with_thresholds()]);
    db.set(STATUS_SW, "Ethernet0", &row(&[("status", "0"), ("error", "N/A")]));

    recover(&mut task, &h, &mut db, 0);

    assert!(db.get(INT, "Ethernet0").is_none());
    assert!(db.get(DOM_THR, "Ethernet0").is_none());
    assert_eq!(db.hget(STATUS_SW, "Ethernet0", "status").as_deref(), Some("0"));
}

#[test]
fn test_recover_missing_port_baselines_skips_absent_module() {
    let mut task = task_with(&[("Ethernet0", 0)]);
    task.setup.sfp_ready_wait = 0;
    let mut db = Db::new();
    let h = hal(vec![absent()]);

    recover(&mut task, &h, &mut db, 0);

    assert!(db.get(INT, "Ethernet0").is_none());
    assert!(db.get(DOM_THR, "Ethernet0").is_none());
}

#[test]
fn test_recover_missing_port_baselines_caps_unbaselinable_port() {
    let mut task = task_with(&[("Ethernet0", 0)]);
    task.setup.sfp_ready_wait = 0;
    let mut db = Db::new();
    let h = hal(vec![identified()]);

    for _ in 0..(SfpStateUpdateTask::MAX_RECOVER_ATTEMPTS + 5) {
        task.last_recover_baseline_time = None;
        recover(&mut task, &h, &mut db, 0);
    }

    assert!(db.get(INT, "Ethernet0").is_some());
    assert!(db.get(DOM_THR, "Ethernet0").is_none());
    assert_eq!(
        task.recover_attempts.get_str("Ethernet0"),
        Some(&SfpStateUpdateTask::MAX_RECOVER_ATTEMPTS)
    );

    db.set(DOM_THR, "Ethernet0", &row(&[("temphighalarm", "75.0")]));
    task.last_recover_baseline_time = None;
    recover(&mut task, &h, &mut db, 0);
    assert_eq!(task.recover_attempts.get_str("Ethernet0"), None);
}

#[test]
fn the_two_limits_on_restoring_agree() {
    assert_eq!(SfpStateUpdateTask::MAX_RECOVER_ATTEMPTS, MAX_RECOVER_ATTEMPTS);
    assert_eq!(MAX_RECOVER_ATTEMPTS, 3);
}

#[test]
fn test_recover_attempts_reset_on_change_event() {
    let mut task = task_with(&[("Ethernet0", 0)]);
    task.setup.sfp_ready_wait = 0;
    let mut db = Db::new();
    let mut log = CommandLog::new();
    let h = hal(vec![identified()]);

    for _ in 0..(SfpStateUpdateTask::MAX_RECOVER_ATTEMPTS + 2) {
        task.last_recover_baseline_time = None;
        recover(&mut task, &h, &mut db, 0);
    }
    assert_eq!(
        task.recover_attempts.get_str("Ethernet0"),
        Some(&SfpStateUpdateTask::MAX_RECOVER_ATTEMPTS)
    );

    apply(&mut task, &h, &mut db, &mut log, &[("0", SFP_STATUS_INSERTED)]);
    assert_eq!(task.recover_attempts.get_str("Ethernet0"), None);
}

#[test]
fn test_recover_missing_port_baselines_skips_deconfigured_port() {
    let mut task = task_with(&[("Ethernet0", 0)]);
    task.setup.sfp_ready_wait = 0;
    task.set_deconfigured_ports(names(&["Ethernet0"]));
    let mut db = Db::new();
    let h = hal(vec![with_thresholds()]);

    recover(&mut task, &h, &mut db, 0);

    assert!(db.get(INT, "Ethernet0").is_none());
    assert!(db.get(DOM_THR, "Ethernet0").is_none());
}

#[test]
fn test_recover_missing_port_baselines_skips_error_blocked_port() {
    let mut task = task_with(&[("Ethernet0", 0)]);
    task.setup.sfp_ready_wait = 0;
    let mut db = Db::new();
    let h = hal(vec![with_thresholds()]);
    db.set(STATUS_SW, "Ethernet0", &row(&[("status", "2"), ("error", "Blocking EEPROM from being read")]));

    recover(&mut task, &h, &mut db, 0);

    assert!(db.get(INT, "Ethernet0").is_none());
    assert!(db.get(DOM_THR, "Ethernet0").is_none());
    assert_eq!(db.hget(STATUS_SW, "Ethernet0", "status").as_deref(), Some("2"));
    assert_eq!(
        db.hget(STATUS_SW, "Ethernet0", "error").as_deref(),
        Some("Blocking EEPROM from being read")
    );
}

#[test]
fn an_empty_error_does_not_keep_rows_from_being_restored() {
    let mut task = task_with(&[("Ethernet0", 0)]);
    let mut db = Db::new();
    db.hset(STATUS_SW, "Ethernet0", "error", "");
    recover(&mut task, &hal(vec![with_thresholds()]), &mut db, 0);
    assert!(db.has_row(INT, "Ethernet0"));
}

#[test]
fn test_recover_missing_port_baselines_interval_gated() {
    let mut task = task_with(&[("Ethernet0", 0)]);
    task.setup.sfp_ready_wait = 0;
    let mut db = Db::new();
    let h = hal(vec![with_thresholds()]);

    recover(&mut task, &h, &mut db, 10_000);
    assert_eq!(db.hget(INT, "Ethernet0", "manufacturer").as_deref(), Some("xcvr-emu"));

    db.del(INT, "Ethernet0");
    recover(&mut task, &h, &mut db, 10_000);
    assert!(db.get(INT, "Ethernet0").is_none());
    recover(&mut task, &h, &mut db, 14_999);
    assert!(db.get(INT, "Ethernet0").is_none());

    task.last_recover_baseline_time = None;
    recover(&mut task, &h, &mut db, 10_000);
    assert_eq!(db.hget(INT, "Ethernet0", "manufacturer").as_deref(), Some("xcvr-emu"));
}

#[test]
fn rows_are_restored_again_after_five_seconds() {
    let mut task = task_with(&[("Ethernet0", 0)]);
    let mut db = Db::new();
    let h = hal(vec![with_thresholds()]);
    recover(&mut task, &h, &mut db, 10_000);
    db.del(INT, "Ethernet0");
    recover(&mut task, &h, &mut db, 15_000);
    assert!(db.has_row(INT, "Ethernet0"));
    assert_eq!(task.last_recover_baseline_time, Some(15_000));
}

#[test]
fn test_handle_change_event_insert_then_remove() {
    let mut task = task_with(&[("Ethernet0", 0)]);
    task.setup.sfp_ready_wait = 0;
    let mut db = Db::new();
    let mut log = CommandLog::new();
    let h = hal(vec![with_thresholds()]);

    apply(&mut task, &h, &mut db, &mut log, &[("0", SFP_STATUS_INSERTED)]);
    assert_eq!(db.hget(INT, "Ethernet0", "manufacturer").as_deref(), Some("xcvr-emu"));
    assert_eq!(db.hget(STATUS_SW, "Ethernet0", "status").as_deref(), Some("1"));
    assert_eq!(db.hget(STATUS_SW, "Ethernet0", "cmis_state"), None);
    assert_eq!(db.hget(DOM_THR, "Ethernet0", "vcchighalarm").as_deref(), Some("3.5"));

    let gone = hal(vec![absent()]);
    apply(&mut task, &gone, &mut db, &mut log, &[("0", SFP_STATUS_REMOVED)]);
    assert!(db.get(INT, "Ethernet0").is_none());
    assert_eq!(db.hget(STATUS_SW, "Ethernet0", "status").as_deref(), Some("0"));
    assert_eq!(db.hget(STATUS_SW, "Ethernet0", "cmis_state").as_deref(), Some(CMIS_STATE_INSERTED));
}

#[test]
fn test_handle_remove_purges_dom_status_tables() {
    let mut task = task_with(&[("Ethernet0", 0)]);
    task.setup.sfp_ready_wait = 0;
    let mut db = Db::new();
    let mut log = CommandLog::new();
    task.set_removal_tables(vec![DOM, DOM_FLAG, DOM_FLAG_CC, STATUS, STATUS_FLAG]);

    db.hset(INT, "Ethernet0", "manufacturer", "xcvr-emu");
    db.hset(DOM, "Ethernet0", "temperature", "22.0");
    db.hset(DOM_FLAG, "Ethernet0", "tempHAlarm", "False");
    db.hset(DOM_FLAG_CC, "Ethernet0", "tempHAlarm", "3");
    db.hset(STATUS, "Ethernet0", "status", "1");
    db.hset(STATUS_FLAG, "Ethernet0", "tx_fault", "False");

    apply(&mut task, &hal(vec![absent()]), &mut db, &mut log, &[("0", SFP_STATUS_REMOVED)]);

    for t in [INT, DOM, DOM_FLAG, DOM_FLAG_CC, STATUS, STATUS_FLAG] {
        assert!(db.get(t, "Ethernet0").is_none());
    }
    assert_eq!(db.hget(STATUS_SW, "Ethernet0", "status").as_deref(), Some("0"));
}

#[test]
fn test_handle_remove_drops_cached_xcvr_api() {
    let mut task = task_with(&[("Ethernet0", 0)]);
    task.setup.sfp_ready_wait = 0;
    let mut db = Db::new();
    let mut log = CommandLog::new();

    apply(&mut task, &hal(vec![present()]), &mut db, &mut log, &[("0", SFP_STATUS_REMOVED)]);

    assert!(
        log.list.iter().any(|(p, c)| *p == 0 && matches!(c, SfpCommand::RemoveXcvrApi)),
        "handle_remove must call remove_xcvr_api to drop the cached api"
    );
}

#[test]
fn test_handle_change_event_insert_faulted_queues_retry() {
    let mut task = task_with(&[("Ethernet0", 0)]);
    task.setup.sfp_ready_wait = 0;
    let mut db = Db::new();
    let mut log = CommandLog::new();

    apply(&mut task, &hal(vec![present()]), &mut db, &mut log, &[("0", SFP_STATUS_INSERTED)]);

    assert!(db.get(INT, "Ethernet0").is_none());
    assert_eq!(db.hget(STATUS_SW, "Ethernet0", "status").as_deref(), Some("1"));
    assert!(task.retry_eeprom_set.contains("Ethernet0"));
    assert!(db.get(DOM_THR, "Ethernet0").is_none());
}

#[test]
fn a_module_that_needs_the_wait_is_read_after_it() {
    let mut task = task_with(&[("Ethernet0", 0)]);
    let mut db = Db::new();
    let mut log = CommandLog::new();
    let mut d = report(&[("0", SFP_STATUS_INSERTED)]);
    let (first, later) = (hal(vec![present()]), hal(vec![with_thresholds()]));
    assert!(!task.is_identity_ready(&first, "Ethernet0"));
    assert!(task.is_identity_ready(&later, "Ethernet0"));
    task.handle_change_event(
        &first, &later, &mut db, &mut log, INT, STATUS_SW, DOM_THR, true, &mut d, &OrdMap::new(), NOW,
    );
    assert!(db.has_row(INT, "Ethernet0"));
    assert!(db.has_row(DOM_THR, "Ethernet0"));
    assert!(task.retry_eeprom_set.is_empty());
}

#[test]
fn test_handle_change_event_sfp_error() {
    let mut task = task_with(&[("Ethernet0", 0)]);
    task.setup.sfp_ready_wait = 0;
    let mut db = Db::new();
    let mut log = CommandLog::new();
    task.set_removal_tables(vec![DOM, STATUS]);

    db.hset(INT, "Ethernet0", "manufacturer", "xcvr-emu");
    db.hset(DOM, "Ethernet0", "temperature", "22.0");
    db.hset(STATUS, "Ethernet0", "status", "1");

    let h = hal(vec![present()]);
    apply(&mut task, &h, &mut db, &mut log, &[("0", "7")]);

    assert_eq!(db.hget(STATUS_SW, "Ethernet0", "status").as_deref(), Some("7"));
    assert_eq!(
        db.hget(STATUS_SW, "Ethernet0", "error").as_deref(),
        Some("Blocking EEPROM from being read|Power budget exceeded")
    );
    assert!(db.get(DOM, "Ethernet0").is_none());
    assert!(db.get(STATUS, "Ethernet0").is_none());
    assert_eq!(db.hget(INT, "Ethernet0", "manufacturer").as_deref(), Some("xcvr-emu"));
    assert!(task.sfp_error_dict.contains_str("0"));

    db.hset(DOM, "Ethernet0", "temperature", "23.0");
    apply(&mut task, &h, &mut db, &mut log, &[("0", "65")]);
    assert_eq!(db.hget(STATUS_SW, "Ethernet0", "status").as_deref(), Some("65"));
    assert_eq!(db.hget(STATUS_SW, "Ethernet0", "error").as_deref(), Some("High temperature"));
    assert!(db.get(DOM, "Ethernet0").is_some());

    let ok = hal(vec![identified()]);
    apply(&mut task, &ok, &mut db, &mut log, &[("0", SFP_STATUS_INSERTED)]);
    assert_eq!(db.hget(STATUS_SW, "Ethernet0", "status").as_deref(), Some("1"));
    assert_eq!(db.hget(STATUS_SW, "Ethernet0", "error").as_deref(), Some("N/A"));
    assert!(!task.sfp_error_dict.contains_str("0"));
}

#[test]
fn vendor_errors_come_from_the_event_or_the_module() {
    let run = |descriptions: &[(&str, &str)], module: XResult<Option<String>>| {
        let mut task = task_with(&[("Ethernet0", 0)]);
        let mut db = Db::new();
        let mut log = CommandLog::new();
        let h = hal(vec![Sfp { error_description: module, ..present() }]);
        let mut d = report(&[("0", "65541")]);
        task.handle_change_event(
            &h, &h, &mut db, &mut log, INT, STATUS_SW, DOM_THR, true, &mut d, &report(descriptions), NOW,
        );
        db.hget(STATUS_SW, "Ethernet0", "error")
    };
    assert_eq!(run(&[("0", "fan")], Ok(Some("asic".to_string()))).as_deref(), Some("Power budget exceeded|fan"));
    assert_eq!(run(&[("1", "fan")], Ok(Some("asic".to_string()))).as_deref(), Some("Power budget exceeded"));
    assert_eq!(run(&[], Ok(Some("asic".to_string()))).as_deref(), Some("Power budget exceeded|asic"));
    assert_eq!(run(&[], Ok(None)).as_deref(), Some("Power budget exceeded"));
    assert_eq!(run(&[], Err(XcvrdError::Bridge)).as_deref(), Some("Power budget exceeded"));
}

#[test]
fn odd_events_are_noted_and_otherwise_ignored() {
    let mut task = task_with(&[("Ethernet0", 0)]);
    let mut db = Db::new();
    let mut log = CommandLog::new();
    let h = hal(vec![identified()]);
    apply(&mut task, &h, &mut db, &mut log, &[("0", "odd"), ("x", "1"), ("-2", "1"), ("7", "1"), ("y", "9")]);
    assert_eq!(db.get_size(STATUS_SW), 0);
    assert!(task.sfp_error_dict.contains_str("0"));
    assert!(task.sfp_error_dict.contains_str("y"));
    assert_eq!(task.sfp_error_dict.len(), 2);
}

#[test]
fn test_handle_change_event_e2e_bitmaps() {
    let run = |value: &str| -> (Option<String>, bool) {
        let mut task = task_with(&[("Ethernet0", 0)]);
        task.setup.sfp_ready_wait = 0;
        let mut db = Db::new();
        let mut log = CommandLog::new();
        task.set_removal_tables(vec![DOM]);
        db.hset(INT, "Ethernet0", "manufacturer", "xcvr-emu");
        db.hset(DOM, "Ethernet0", "temperature", "22.0");
        apply(&mut task, &hal(vec![present()]), &mut db, &mut log, &[("0", value)]);
        assert_eq!(db.hget(INT, "Ethernet0", "manufacturer").as_deref(), Some("xcvr-emu"));
        (db.hget(STATUS_SW, "Ethernet0", "error"), db.get(DOM, "Ethernet0").is_some())
    };

    let (err, dom_present) = run("11");
    assert_eq!(
        err.as_deref(),
        Some("Blocking EEPROM from being read|Bus stuck (I2C data or clock shorted)")
    );
    assert!(!dom_present, "blocking error must remove DOM");

    let (err, dom_present) = run("19");
    assert_eq!(err.as_deref(), Some("Blocking EEPROM from being read|Bad or unsupported EEPROM"));
    assert!(!dom_present, "blocking error must remove DOM");

    let (err, dom_present) = run("65");
    assert_eq!(err.as_deref(), Some("High temperature"));
    assert!(dom_present, "non-blocking error must keep DOM");
}

#[test]
fn test_process_change_event_poll_survives_read_error() {
    let mut task = task_with(&[("Ethernet0", 0)]);
    task.setup.sfp_ready_wait = 0;
    let mut db = Db::new();
    task.set_removal_tables(vec![DOM]);
    db.hset(DOM, "Ethernet0", "temperature", "22.0");
    let h = hal(vec![present()]);

    poll(&mut task, &h, &mut db, Err(XcvrdError::Bridge));
    assert!(db.hget(STATUS_SW, "Ethernet0", "error").is_none());
    assert!(db.get(DOM, "Ethernet0").is_some());

    poll(&mut task, &h, &mut db, event(&[("0", "11")]));
    assert_eq!(
        db.hget(STATUS_SW, "Ethernet0", "error").as_deref(),
        Some("Blocking EEPROM from being read|Bus stuck (I2C data or clock shorted)")
    );
    assert!(db.get(DOM, "Ethernet0").is_none());
}

#[test]
fn test_baseline_poll_then_inject_publishes_error() {
    let mut task = task_with(&[("Ethernet0", 0)]);
    task.setup.sfp_ready_wait = 0;
    let mut db = Db::new();
    task.set_removal_tables(vec![DOM]);
    db.hset(INT, "Ethernet0", "manufacturer", "xcvr-emu");
    db.hset(DOM, "Ethernet0", "temperature", "22.0");
    let h = hal(vec![present()]);

    poll(&mut task, &h, &mut db, event(&[]));
    assert!(db.hget(STATUS_SW, "Ethernet0", "error").is_none(), "baseline poll must not publish an error");
    assert!(db.get(DOM, "Ethernet0").is_some(), "baseline poll must not touch DOM");

    poll(&mut task, &h, &mut db, event(&[("0", "65")]));
    assert_eq!(db.hget(STATUS_SW, "Ethernet0", "error").as_deref(), Some("High temperature"));
    assert!(db.get(DOM, "Ethernet0").is_some(), "non-blocking error keeps DOM");
}

#[test]
fn test_process_change_event_poll_e2e_error_bitmaps() {
    let cases = [
        ("11", "Blocking EEPROM from being read|Bus stuck (I2C data or clock shorted)", false),
        ("19", "Blocking EEPROM from being read|Bad or unsupported EEPROM", false),
        ("65", "High temperature", true),
    ];
    for (bitmap, expected_err, dom_retained) in cases {
        let mut task = task_with(&[("Ethernet0", 0)]);
        task.setup.sfp_ready_wait = 0;
        let mut db = Db::new();
        task.set_removal_tables(vec![DOM]);
        db.hset(INT, "Ethernet0", "manufacturer", "xcvr-emu");
        db.hset(DOM, "Ethernet0", "temperature", "22.0");
        let h = hal(vec![identified()]);

        poll(&mut task, &h, &mut db, event(&[("0", bitmap)]));

        assert_eq!(
            db.hget(STATUS_SW, "Ethernet0", "error").as_deref(),
            Some(expected_err),
            "bitmap {bitmap}: wrong TRANSCEIVER_STATUS_SW.error",
        );
        assert_eq!(
            db.hget(STATUS_SW, "Ethernet0", "status").as_deref(),
            Some(bitmap),
            "bitmap {bitmap}: status must be the raw injected code",
        );
        assert_eq!(
            db.get(DOM, "Ethernet0").is_some(),
            dom_retained,
            "bitmap {bitmap}: DOM retention wrong",
        );
        assert_eq!(
            db.hget(INT, "Ethernet0", "manufacturer").as_deref(),
            Some("xcvr-emu"),
            "bitmap {bitmap}: TRANSCEIVER_INFO must be kept",
        );
    }

    let mut task = task_with(&[("Ethernet0", 0)]);
    task.setup.sfp_ready_wait = 0;
    let mut db = Db::new();
    task.set_removal_tables(vec![DOM]);
    db.hset(DOM, "Ethernet0", "temperature", "22.0");
    let h = hal(vec![identified()]);

    poll(&mut task, &h, &mut db, event(&[("0", "11")]));
    assert!(
        db.hget(STATUS_SW, "Ethernet0", "error")
            .as_deref()
            .unwrap_or("")
            .contains("Bus stuck (I2C data or clock shorted)"),
        "blocking error must be published before recovery",
    );
    assert!(db.get(DOM, "Ethernet0").is_none(), "blocking error removes DOM");

    poll(&mut task, &h, &mut db, event(&[("0", SFP_STATUS_INSERTED)]));
    assert_eq!(
        db.hget(STATUS_SW, "Ethernet0", "error").as_deref(),
        Some("N/A"),
        "plug-in event must clear the error back to N/A",
    );
    assert_eq!(db.hget(STATUS_SW, "Ethernet0", "status").as_deref(), Some(SFP_STATUS_INSERTED));
}

#[test]
fn test_project_cmis_state_for_present_ports() {
    let mut task = task_with(&[("Ethernet0", 0), ("Ethernet4", 1)]);
    task.retry_eeprom_set.insert("Ethernet4");
    let mut db = Db::new();
    let h = hal(vec![present(), present()]);

    task.project_cmis_state_for_present_ports(&h, &mut db, STATUS_SW);
    assert_eq!(db.hget(STATUS_SW, "Ethernet0", "cmis_state").as_deref(), Some("READY"));
    assert!(db.hget(STATUS_SW, "Ethernet4", "cmis_state").is_none());
}

#[test]
fn test_on_add_logical_port() {
    let mut task = task_with(&[("Ethernet0", 1)]);
    let mut db = Db::new();
    task.set_state_port_table(STATE_PORT);
    let ev = PortChangeEvent::new("Ethernet0", 1, 0, PortChangeEventType::PortAdd);

    let h = hal(vec![absent(), present()]);
    task.on_add_logical_port(&ctx(&h), &mut db, &ev, NOW);
    assert_eq!(db.hget(STATUS_SW, "Ethernet0", "status").as_deref(), Some(SFP_STATUS_INSERTED));
    assert_eq!(db.hget(STATUS_SW, "Ethernet0", "error").as_deref(), Some("N/A"));
    assert!(db.get(INT, "Ethernet0").is_none(), "not-ready EEPROM posts no INFO");
    assert!(db.get(DOM_THR, "Ethernet0").is_none(), "not-ready EEPROM posts no thresholds");
    assert!(task.retry_eeprom_set.contains("Ethernet0"));
    assert_eq!(
        db.hget(STATE_PORT, "Ethernet0", NPU_SI_SETTINGS_SYNC_STATUS_KEY).as_deref(),
        Some(NPU_SI_SETTINGS_DEFAULT_VALUE),
        "NPU_SI_SETTINGS_SYNC_STATUS must be re-seeded to DEFAULT",
    );
    task.retry_eeprom_set.clear();

    let h = hal(vec![absent(), with_thresholds()]);
    task.on_add_logical_port(&ctx(&h), &mut db, &ev, NOW);
    assert_eq!(db.hget(STATUS_SW, "Ethernet0", "status").as_deref(), Some(SFP_STATUS_INSERTED));
    assert_eq!(db.hget(INT, "Ethernet0", "manufacturer").as_deref(), Some("xcvr-emu"));
    assert_eq!(db.hget(DOM_THR, "Ethernet0", "temphighalarm").as_deref(), Some("75.0"));
    assert!(!task.retry_eeprom_set.contains("Ethernet0"));

    let h = hal(vec![absent(), absent()]);
    task.on_add_logical_port(&ctx(&h), &mut db, &ev, NOW);
    assert_eq!(db.hget(STATUS_SW, "Ethernet0", "status").as_deref(), Some(SFP_STATUS_REMOVED));
    assert_eq!(db.hget(STATUS_SW, "Ethernet0", "error").as_deref(), Some("N/A"));

    task.sfp_error_dict.insert("1".to_string(), ("6".to_string(), OrdMap::new()));
    let h = hal(vec![absent(), absent()]);
    task.on_add_logical_port(&ctx(&h), &mut db, &ev, NOW);
    assert_eq!(db.hget(STATUS_SW, "Ethernet0", "status").as_deref(), Some("6"));
    assert_eq!(
        db.hget(STATUS_SW, "Ethernet0", "error").as_deref(),
        Some("Blocking EEPROM from being read|Power budget exceeded"),
    );
}

#[test]
fn a_port_added_with_a_kept_error_is_read_unless_the_error_blocks() {
    let ev = PortChangeEvent::new("Ethernet0", 0, 0, PortChangeEventType::PortAdd);
    let h = hal(vec![with_thresholds()]);
    for (value, read, error) in [
        ("65", true, "High temperature"),
        ("3", false, "Blocking EEPROM from being read"),
        ("odd", true, "N/A"),
    ] {
        let mut task = task_with(&[("Ethernet0", 0)]);
        let mut db = Db::new();
        task.sfp_error_dict.insert("0".to_string(), (value.to_string(), OrdMap::new()));
        task.recover_attempts.insert("Ethernet0".to_string(), 3);
        task.on_add_logical_port(&ctx(&h), &mut db, &ev, NOW);
        assert_eq!(db.has_row(INT, "Ethernet0"), read);
        assert_eq!(db.hget(STATUS_SW, "Ethernet0", "status").as_deref(), Some(value));
        assert_eq!(db.hget(STATUS_SW, "Ethernet0", "error").as_deref(), Some(error));
        assert!(!task.recover_attempts.contains_str("Ethernet0"));
    }
}

#[test]
fn test_on_remove_logical_port_tears_down_full_set_incl_status_sw() {
    let dom_threshold = 12;
    let mut task = task_with(&[("Ethernet0", 1)]);
    let mut db = Db::new();
    task.set_removal_tables(vec![DOM, dom_threshold, VDM_HALARM, STATUS, FIRMWARE]);
    task.set_deconfigured_ports(StrSet::new());
    task.retry_eeprom_set.insert("Ethernet0");

    db.hset(INT, "Ethernet0", "manufacturer", "xcvr-emu");
    db.hset(DOM, "Ethernet0", "temperature", "22.0");
    db.hset(dom_threshold, "Ethernet0", "temphighalarm", "75.0");
    db.hset(VDM_HALARM, "Ethernet0", "laser_temperature_media1", "80.0");
    db.hset(STATUS, "Ethernet0", "status", "1");
    db.hset(FIRMWARE, "Ethernet0", "active_firmware", "1.0");
    db.hset(STATUS_SW, "Ethernet0", "status", "1");
    db.hset(STATUS_SW, "Ethernet0", "cmis_state", "READY");

    let h = hal(vec![absent(), absent()]);
    let ev = PortChangeEvent::new("Ethernet0", 1, 0, PortChangeEventType::PortRemove);
    task.on_remove_logical_port(&ctx(&h), &mut db, &ev);

    assert!(db.get(INT, "Ethernet0").is_none(), "INFO deleted");
    assert!(db.get(DOM, "Ethernet0").is_none(), "DOM_SENSOR deleted");
    assert!(db.get(dom_threshold, "Ethernet0").is_none(), "DOM_THRESHOLD deleted");
    assert!(db.get(VDM_HALARM, "Ethernet0").is_none(), "VDM_HALARM_THRESHOLD deleted");
    assert!(db.get(STATUS, "Ethernet0").is_none(), "STATUS deleted");
    assert!(db.get(FIRMWARE, "Ethernet0").is_none(), "FIRMWARE_INFO deleted");
    assert!(
        db.get(STATUS_SW, "Ethernet0").is_none(),
        "STATUS_SW deleted on a logical-port removal (unlike a physical unplug)",
    );
    assert!(!task.retry_eeprom_set.contains("Ethernet0"), "dropped from retry set");
    assert!(
        task.deconfigured_ports.as_ref().unwrap().contains("Ethernet0"),
        "port marked deconfigured so DOM/CMIS threads stop servicing it",
    );
}

#[test]
fn test_on_port_config_change_remove_then_readd() {
    let mut task = task_with(&[("Ethernet0", 1)]);
    let mut db = Db::new();
    task.set_removal_tables(vec![DOM, DOM_THR, STATUS]);
    task.set_state_port_table(STATE_PORT);
    task.set_deconfigured_ports(StrSet::new());

    let h = hal(vec![absent(), with_thresholds()]);

    db.hset(INT, "Ethernet0", "manufacturer", "xcvr-emu");
    db.hset(DOM, "Ethernet0", "temperature", "22.0");
    db.hset(DOM_THR, "Ethernet0", "temphighalarm", "75.0");
    db.hset(STATUS, "Ethernet0", "status", "1");
    db.hset(STATUS_SW, "Ethernet0", "status", "1");

    let remove_ev = PortChangeEvent::new("Ethernet0", 1, 0, PortChangeEventType::PortRemove);
    task.on_port_config_change(&ctx(&h), &mut db, &remove_ev, NOW);
    assert!(db.get(INT, "Ethernet0").is_none());
    assert!(db.get(DOM, "Ethernet0").is_none());
    assert!(db.get(DOM_THR, "Ethernet0").is_none());
    assert!(db.get(STATUS, "Ethernet0").is_none());
    assert!(db.get(STATUS_SW, "Ethernet0").is_none());
    assert!(
        !task.port_mapping.is_logical_port("Ethernet0"),
        "logical port removed from the mapping on PORT_DEL",
    );
    assert!(task.deconfigured_ports.as_ref().unwrap().contains("Ethernet0"));

    let add_ev = PortChangeEvent::new("Ethernet0", 1, 0, PortChangeEventType::PortAdd);
    task.on_port_config_change(&ctx(&h), &mut db, &add_ev, NOW);
    assert!(
        task.port_mapping.is_logical_port("Ethernet0"),
        "logical port back in the mapping on PORT_ADD",
    );
    assert_eq!(db.hget(INT, "Ethernet0", "manufacturer").as_deref(), Some("xcvr-emu"));
    assert_eq!(db.hget(DOM_THR, "Ethernet0", "temphighalarm").as_deref(), Some("75.0"));
    assert_eq!(db.hget(STATUS_SW, "Ethernet0", "status").as_deref(), Some(SFP_STATUS_INSERTED));
    assert_eq!(
        db.hget(STATE_PORT, "Ethernet0", NPU_SI_SETTINGS_SYNC_STATUS_KEY).as_deref(),
        Some(NPU_SI_SETTINGS_DEFAULT_VALUE),
    );
    assert!(
        !task.deconfigured_ports.as_ref().unwrap().contains("Ethernet0"),
        "deconfigured mark cleared on re-add so DOM/CMIS resume",
    );
}

#[test]
fn an_unplugged_module_is_not_restored() {
    let mut task = task_with(&[("Ethernet0", 0)]);
    let mut db = Db::new();
    let mut log = CommandLog::new();
    let h = hal(vec![with_thresholds()]);
    apply(&mut task, &h, &mut db, &mut log, &[("0", SFP_STATUS_INSERTED)]);
    apply(&mut task, &h, &mut db, &mut log, &[("0", SFP_STATUS_REMOVED)]);
    recover(&mut task, &h, &mut db, 1_000_000);
    assert!(!db.has_row(INT, "Ethernet0"));
}

#[test]
fn events_reach_every_logical_port_of_the_slot() {
    let mut task = task_with(&[("Ethernet0", 0), ("Ethernet1", 0)]);
    let mut db = Db::new();
    let mut log = CommandLog::new();
    apply(&mut task, &hal(vec![with_thresholds()]), &mut db, &mut log, &[("0", SFP_STATUS_INSERTED)]);
    assert!(db.has_row(INT, "Ethernet0"));
    assert!(db.has_row(INT, "Ethernet1"));
}
