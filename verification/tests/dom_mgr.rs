use xcvrd::db::{Db, Row};
use xcvrd::dom::dom_mgr::{
    schedule_remaining, DomInfoUpdateTask, DomThermalInfoUpdateTask, FlagStatusTables, VdmPmFirmwareTables,
};
use xcvrd::dom::utilities::vdm::{VdmFlagTables, VdmRequest, VdmTables};
use xcvrd::hal::{Hal, Handshake, Sfp};
use xcvrd::ord_map::{OrdMap, StrSet};
use xcvrd::value::{Dict, Reply, Value};
use xcvrd::xcvrd_utilities::port_event_helper::{PortChangeEvent, PortChangeEventType, PortMapping};
use xcvrd::xcvrd_utilities::sfp_status_helper::SFP_ERROR_DESCRIPTION_BLOCKING;

const DOM: usize = 0;
const STATUS_SW: usize = 1;
const CFG: usize = 2;
const FLAG: usize = 3;
const FLAG_CC: usize = 4;
const FLAG_ST: usize = 5;
const FLAG_CT: usize = 6;
const STATUS: usize = 7;
const SFLAG: usize = 8;
const SFLAG_CC: usize = 9;
const REAL: usize = 12;
const PM: usize = 13;
const FW: usize = 14;
const VDM_FLAG: usize = 20;
const APPL: usize = 40;
const TEMP: usize = 41;

const NOW: u64 = 1_700_000_000;

fn text(s: &str) -> Value {
    Value::String(s.to_string())
}

fn number(s: &str) -> Value {
    Value::Number(s.to_string())
}

fn yes() -> Value {
    Value::Bool(true)
}

fn no() -> Value {
    Value::Bool(false)
}

fn object(entries: Vec<(&str, Value)>) -> Reply {
    let mut d: Dict = OrdMap::new();
    for (k, v) in entries {
        d.insert(k.to_string(), v);
    }
    Reply::Object(d)
}

fn row(fields: &[(&str, &str)]) -> Row {
    let mut r: Row = OrdMap::new();
    for (k, v) in fields {
        r.insert(k.to_string(), v.to_string());
    }
    r
}

fn absent() -> Sfp {
    Sfp::empty_slot()
}

fn present() -> Sfp {
    Sfp { presence: Ok(true), lpmode: Ok(false), ..Sfp::empty_slot() }
}

fn hal(sfps: Vec<Sfp>) -> Hal {
    Hal { sfps }
}

fn mapping_with(ports: &[(&str, usize)]) -> PortMapping {
    let mut pm = PortMapping::new();
    for (name, phys) in ports {
        pm.handle_port_change_event(&PortChangeEvent::new(name, *phys as i32, 0, PortChangeEventType::PortAdd));
    }
    pm
}

fn dom_sensor_values() -> Reply {
    let mut d: Dict = OrdMap::new();
    d.insert("temperature".to_string(), text("22.75"));
    d.insert("voltage".to_string(), text("0.5"));
    for i in 1..=8 {
        d.insert(format!("rx{i}power"), text("0.7"));
        d.insert(format!("tx{i}bias"), text("0.7"));
        d.insert(format!("tx{i}power"), text("0.7"));
    }
    Reply::Object(d)
}

fn sensing() -> Sfp {
    Sfp { dom_real_value: Ok(dom_sensor_values()), ..present() }
}

fn flagged() -> Sfp {
    Sfp {
        dom_flags: Ok(object(vec![("tempHAlarm", yes())])),
        status_flags: Ok(object(vec![("tx_fault", no())])),
        ..present()
    }
}

fn dom_task(pm: PortMapping, skip_cmis: bool, interval: Option<u64>) -> DomInfoUpdateTask {
    DomInfoUpdateTask::new(pm, skip_cmis, interval, DOM, STATUS_SW, CFG)
}

fn flag_tables() -> FlagStatusTables {
    FlagStatusTables {
        dom_flag_tbl: FLAG,
        dom_flag_change_count_tbl: FLAG_CC,
        dom_flag_set_time_tbl: FLAG_ST,
        dom_flag_clear_time_tbl: FLAG_CT,
        status_tbl: STATUS,
        status_flag_tbl: SFLAG,
        status_flag_change_count_tbl: SFLAG_CC,
        status_flag_set_time_tbl: 10,
        status_flag_clear_time_tbl: 11,
    }
}

fn four(first: usize) -> VdmTables {
    VdmTables { halarm: first, lalarm: first + 1, hwarn: first + 2, lwarn: first + 3 }
}

fn vpf_tables() -> VdmPmFirmwareTables {
    VdmPmFirmwareTables {
        vdm_real_value_tbl: REAL,
        vdm_flag_tables: VdmFlagTables {
            flag: four(VDM_FLAG),
            change_count: four(24),
            set_time: four(28),
            clear_time: four(32),
        },
        pm_tbl: PM,
        firmware_info_tbl: FW,
    }
}

fn fields_of(db: &Db, t: usize, key: &str) -> usize {
    db.get(t, key).map(|r| r.len()).unwrap_or(0)
}

#[test]
fn test_dom_update_interval_parameter() {
    let default = dom_task(PortMapping::new(), true, None);
    assert_eq!(default.dom_update_interval, 60);
    assert_eq!(default.dom_update_interval, DomInfoUpdateTask::DEFAULT_DOM_INFO_UPDATE_PERIOD_SECS);
    assert_eq!(dom_task(PortMapping::new(), true, Some(0)).dom_update_interval, 0);
    assert_eq!(dom_task(PortMapping::new(), true, Some(120)).dom_update_interval, 120);
    assert_eq!(dom_task(PortMapping::new(), true, Some(1000)).dom_update_interval, 1000);
    assert_eq!(DomInfoUpdateTask::DEFAULT_DOM_INFO_UPDATE_PERIOD_SECS, 60);
}

#[test]
fn the_next_poll_is_due_one_interval_after_the_last_began() {
    let mut task = dom_task(PortMapping::new(), true, Some(60));
    assert_eq!(task.next_poll_due(1_500), 61_500);
    assert_eq!(task.next_poll_due(u64::MAX - 60_000), u64::MAX);
    assert_eq!(task.next_poll_due(u64::MAX - 59_999), u64::MAX);
    task.dom_update_interval = u64::MAX;
    assert_eq!(task.next_poll_due(0), u64::MAX);
}

#[test]
fn only_disabled_turns_the_monitoring_off() {
    let mut db = Db::new();
    let task = dom_task(mapping_with(&[("Ethernet0", 0)]), true, None);
    for (setting, polling) in [("off", "enabled"), ("DISABLED", "enabled"), ("disabled", "disabled")] {
        db.hset(CFG, "Ethernet0", "dom_polling", setting);
        assert_eq!(task.get_dom_polling_from_config_db(&db, "Ethernet0"), polling);
    }
}

#[test]
fn test_get_dom_polling_from_config_db() {
    let pm = mapping_with(&[
        ("Ethernet4", 1),
        ("Ethernet12", 1),
        ("Ethernet8", 1),
        ("Ethernet0", 1),
        ("Ethernet16", 2),
    ]);
    let mut db = Db::new();
    db.hset(CFG, "Ethernet0", "dom_polling", "disabled");
    db.hset(CFG, "Ethernet4", "dom_polling", "enabled");
    db.hset(CFG, "Ethernet8", "dom_polling", "enabled");
    db.hset(CFG, "Ethernet12", "dom_polling", "enabled");
    db.hset(CFG, "Ethernet16", "dom_polling", "enabled");
    let task = dom_task(pm, true, None);

    assert_eq!(task.get_dom_polling_from_config_db(&db, "Ethernet0"), "disabled");
    assert_eq!(task.get_dom_polling_from_config_db(&db, "Ethernet4"), "disabled");
    assert_eq!(task.get_dom_polling_from_config_db(&db, "Ethernet8"), "disabled");
    assert_eq!(task.get_dom_polling_from_config_db(&db, "Ethernet12"), "disabled");
    assert_eq!(task.get_dom_polling_from_config_db(&db, "Ethernet16"), "enabled");
    assert_eq!(task.get_dom_polling_from_config_db(&db, "Ethernet20"), "enabled");
}

#[test]
fn test_is_port_in_cmis_initialization_process() {
    let pm = || mapping_with(&[("Ethernet0", 0)]);
    let mut db = Db::new();

    let skip = dom_task(pm(), true, None);
    assert!(!skip.is_port_in_cmis_initialization_process(&db, "Ethernet0"));

    let task = dom_task(pm(), false, None);
    db.hset(STATUS_SW, "Ethernet0", "cmis_state", "INSERTED");
    assert!(task.is_port_in_cmis_initialization_process(&db, "Ethernet0"));

    db.hset(STATUS_SW, "Ethernet0", "cmis_state", "READY");
    assert!(!task.is_port_in_cmis_initialization_process(&db, "Ethernet0"));

    assert!(task.is_port_in_cmis_initialization_process(&Db::new(), "Ethernet0"));

    assert!(!task.is_port_in_cmis_initialization_process(&Db::new(), "INVALID_PORT"));
}

#[test]
fn monitoring_is_open_in_the_states_that_end_the_bring_up() {
    let task = dom_task(mapping_with(&[("Ethernet0", 0)]), false, None);
    let mut db = Db::new();
    for (state, open) in [
        ("INSERTED", false),
        ("DP_PRE_INIT_CHECK", false),
        ("DP_DEINIT", false),
        ("AP_CONFIGURED", false),
        ("DP_INIT", false),
        ("DP_TXON", false),
        ("DP_ACTIVATION", false),
        ("READY", true),
        ("REMOVED", true),
        ("FAILED", true),
    ] {
        db.hset(STATUS_SW, "Ethernet0", "cmis_state", state);
        assert_eq!(task.is_port_dom_monitoring_disabled(&db, "Ethernet0"), !open);
        assert_eq!(task.is_port_polled(&db, "Ethernet0"), open);
    }
}

#[test]
fn test_poll_once_posts_dom_sensor_when_enabled() {
    let mut db = Db::new();
    db.hset(STATUS_SW, "Ethernet0", "cmis_state", "READY");
    let task = dom_task(mapping_with(&[("Ethernet0", 0)]), false, Some(60));

    task.poll_once(false, &mut db, &hal(vec![sensing()]), true, true, NOW);
    assert_eq!(fields_of(&db, DOM, "Ethernet0"), 27);
}

fn full_flag_sfp() -> Sfp {
    Sfp {
        dom_real_value: Ok(dom_sensor_values()),
        status: Ok(object(vec![("status", text("1")), ("cmis_state", text("READY"))])),
        ..flagged()
    }
}

#[test]
fn test_poll_once_posts_flags_and_status() {
    let mut db = Db::new();
    db.hset(STATUS_SW, "Ethernet0", "cmis_state", "READY");
    let mut task = dom_task(mapping_with(&[("Ethernet0", 0)]), false, Some(60));
    task.set_flag_status_tables(flag_tables());

    task.poll_once(false, &mut db, &hal(vec![full_flag_sfp()]), true, true, NOW);

    assert_eq!(fields_of(&db, DOM, "Ethernet0"), 27);
    assert_eq!(db.hget(FLAG, "Ethernet0", "tempHAlarm").as_deref(), Some("True"));
    assert!(db.hget(FLAG, "Ethernet0", "last_update_time").is_some());
    assert_eq!(db.hget(FLAG_CC, "Ethernet0", "tempHAlarm").as_deref(), Some("0"));
    assert_eq!(db.hget(FLAG_ST, "Ethernet0", "tempHAlarm").as_deref(), Some("never"));
    assert_eq!(db.hget(FLAG_CT, "Ethernet0", "tempHAlarm").as_deref(), Some("never"));
    assert_eq!(db.hget(STATUS, "Ethernet0", "status").as_deref(), Some("1"));
    assert!(db.hget(STATUS, "Ethernet0", "last_update_time").is_some());
    assert_eq!(db.hget(SFLAG, "Ethernet0", "tx_fault").as_deref(), Some("False"));
    assert_eq!(db.hget(SFLAG_CC, "Ethernet0", "tx_fault").as_deref(), Some("0"));
}

#[test]
fn test_boot_prime_publishes_latched_flags_for_prompt_baseline() {
    let mut db = Db::new();
    db.hset(STATUS_SW, "Ethernet0", "cmis_state", "READY");
    let mut task = dom_task(mapping_with(&[("Ethernet0", 0)]), false, Some(60));
    task.set_flag_status_tables(flag_tables());

    task.poll_once(false, &mut db, &hal(vec![full_flag_sfp()]), true, false, NOW);

    assert_eq!(fields_of(&db, DOM, "Ethernet0"), 27);
    assert_eq!(db.hget(STATUS, "Ethernet0", "status").as_deref(), Some("1"));
    assert_eq!(db.hget(FLAG, "Ethernet0", "tempHAlarm").as_deref(), Some("True"));
    assert_eq!(db.hget(FLAG_CC, "Ethernet0", "tempHAlarm").as_deref(), Some("0"));
    assert_eq!(db.hget(FLAG_ST, "Ethernet0", "tempHAlarm").as_deref(), Some("never"));
    assert_eq!(db.hget(FLAG_CT, "Ethernet0", "tempHAlarm").as_deref(), Some("never"));
    assert_eq!(db.hget(SFLAG, "Ethernet0", "tx_fault").as_deref(), Some("False"));
    assert_eq!(db.hget(SFLAG_CC, "Ethernet0", "tx_fault").as_deref(), Some("0"));
}

#[test]
fn a_poll_without_flags_posts_the_status_only() {
    let mut db = Db::new();
    let mut task = dom_task(mapping_with(&[("Ethernet0", 0)]), true, Some(60));
    task.set_flag_status_tables(flag_tables());
    task.poll_once(false, &mut db, &hal(vec![full_flag_sfp()]), false, false, NOW);
    assert!(db.has_row(DOM, "Ethernet0"));
    assert!(db.has_row(STATUS, "Ethernet0"));
    assert_eq!(db.get_size(FLAG) + db.get_size(SFLAG) + db.get_size(FLAG_CC), 0);
}

#[test]
fn test_boot_prime_defers_vdm_periodic_publishes() {
    let mut db = Db::new();
    db.hset(STATUS_SW, "Ethernet0", "cmis_state", "READY");
    let mut task = dom_task(mapping_with(&[("Ethernet0", 0)]), false, Some(60));
    task.set_vdm_pm_firmware_tables(vpf_tables());
    let h = hal(vec![full_vdm_sfp()]);

    task.poll_once(false, &mut db, &h, true, false, NOW);
    assert!(db.get(REAL, "Ethernet0").is_none());
    assert!(db.get(PM, "Ethernet0").is_none());
    assert!(db.get(FW, "Ethernet0").is_none());

    task.poll_once(false, &mut db, &h, true, true, NOW);
    assert!(db.hget(REAL, "Ethernet0", "laser_temperature_media1").is_some());
    assert_eq!(fields_of(&db, FW, "Ethernet0"), 2);
}

#[test]
fn the_first_poll_waits_one_interval() {
    let mut task = dom_task(PortMapping::new(), true, Some(60));
    assert_eq!(task.first_poll_due(5_000), 65_000);
    assert_eq!(task.nap_msecs(65_000, 5_000), 1000);
    assert_eq!(task.nap_msecs(65_000, 64_600), 400);
    assert_eq!(task.nap_msecs(65_000, 65_000), 0);
    assert_eq!(task.nap_msecs(65_000, 70_000), 0);
    task.set_first_periodic_from_boot(1_000);
    assert_eq!(task.first_poll_due(5_000), 61_000);
}

#[test]
fn test_poll_once_respects_dom_polling_toggle() {
    let mut db = Db::new();
    db.hset(STATUS_SW, "Ethernet0", "cmis_state", "READY");
    let task = dom_task(mapping_with(&[("Ethernet0", 0)]), true, Some(60));
    let h = hal(vec![sensing()]);

    db.hset(CFG, "Ethernet0", "dom_polling", "disabled");
    task.poll_once(false, &mut db, &h, true, true, NOW);
    assert_eq!(db.get_size(DOM), 0);

    db.del(CFG, "Ethernet0");
    task.poll_once(false, &mut db, &h, true, true, NOW);
    assert_eq!(fields_of(&db, DOM, "Ethernet0"), 27);
}

#[test]
fn test_poll_once_skips_blocking_error_port() {
    let mut db = Db::new();
    db.set(
        STATUS_SW,
        "Ethernet0",
        &row(&[("status", "1"), ("error", SFP_ERROR_DESCRIPTION_BLOCKING), ("cmis_state", "READY")]),
    );
    let task = dom_task(mapping_with(&[("Ethernet0", 0)]), true, Some(60));

    task.poll_once(false, &mut db, &hal(vec![sensing()]), true, true, NOW);
    assert_eq!(db.get_size(DOM), 0);
}

#[test]
fn test_poll_once_skips_absent_and_survives_missing_slot() {
    let mut db = Db::new();
    db.hset(STATUS_SW, "Ethernet0", "cmis_state", "READY");
    db.hset(STATUS_SW, "Ethernet4", "cmis_state", "READY");
    let task = dom_task(mapping_with(&[("Ethernet0", 0), ("Ethernet4", 1)]), true, Some(60));

    task.poll_once(false, &mut db, &hal(vec![sensing()]), true, true, NOW);
    assert_eq!(fields_of(&db, DOM, "Ethernet0"), 27);
    assert!(db.get(DOM, "Ethernet4").is_none());
}

#[test]
fn a_stopping_daemon_polls_nothing() {
    let mut db = Db::new();
    let task = dom_task(mapping_with(&[("Ethernet0", 0)]), true, Some(60));
    task.poll_once(true, &mut db, &hal(vec![sensing()]), true, true, NOW);
    assert_eq!(db.get_size(DOM), 0);
}

#[test]
fn deconfigured_ports_are_purged() {
    let mut db = Db::new();
    let mut task = dom_task(mapping_with(&[("Ethernet0", 0), ("Ethernet4", 1)]), true, Some(60));
    task.set_flag_status_tables(flag_tables());
    task.set_vdm_pm_firmware_tables(vpf_tables());
    let h = hal(vec![full_flag_sfp(), full_flag_sfp()]);
    task.poll_once(false, &mut db, &h, true, true, NOW);
    assert!(db.has_row(DOM, "Ethernet0"));
    db.hset(FW, "Ethernet0", "active_firmware", "1");
    db.hset(STATUS_SW, "Ethernet0", "status", "1");
    let mut gone = StrSet::new();
    gone.insert("Ethernet0");
    task.set_deconfigured_ports(gone);
    task.poll_once(false, &mut db, &h, true, true, NOW);
    for t in [DOM, FLAG, FLAG_CC, FLAG_ST, FLAG_CT, STATUS, SFLAG, SFLAG_CC, FW] {
        assert!(!db.has_row(t, "Ethernet0"), "table {t}");
    }
    assert!(db.has_row(STATUS_SW, "Ethernet0"));
    assert!(db.has_row(DOM, "Ethernet4"));
    assert!(!task.is_port_polled(&db, "Ethernet0"));
}

#[test]
fn test_scheduling_uses_loop_start_time() {
    let interval = 60_000;
    assert_eq!(schedule_remaining(interval, 30_000), 30_000);
    assert_eq!(schedule_remaining(interval, 90_000), 0);
}

#[test]
fn test_handle_port_change_event() {
    let mut task = dom_task(PortMapping::new(), true, None);
    task.setup.port_mapping.handle_port_change_event(&PortChangeEvent::new(
        "Ethernet0",
        1,
        0,
        PortChangeEventType::PortAdd,
    ));
    assert!(task.setup.port_mapping.is_logical_port("Ethernet0"));
    assert_eq!(task.setup.port_mapping.get_asic_id_for_logical_port("Ethernet0"), Some(0));
    assert_eq!(task.setup.port_mapping.get_logical_to_physical("Ethernet0"), Some(vec![1]));

    task.setup.port_mapping.handle_port_change_event(&PortChangeEvent::new(
        "Ethernet0",
        1,
        0,
        PortChangeEventType::PortRemove,
    ));
    assert!(!task.setup.port_mapping.is_logical_port("Ethernet0"));
    assert!(task.setup.port_mapping.logical_port_list.is_empty());
}

fn wired(pm: PortMapping, skip_cmis: bool) -> DomInfoUpdateTask {
    let mut task = dom_task(pm, skip_cmis, Some(60));
    task.set_flag_status_tables(flag_tables());
    task
}

#[test]
fn test_update_port_db_diagnostics_on_link_change_publishes_flags() {
    let mut db = Db::new();
    let task = wired(mapping_with(&[("Ethernet0", 0)]), true);

    task.update_port_db_diagnostics_on_link_change(&mut db, &hal(vec![flagged()]), 0, NOW);

    assert_eq!(db.hget(FLAG, "Ethernet0", "tempHAlarm").as_deref(), Some("True"));
    assert_eq!(db.hget(FLAG_CC, "Ethernet0", "tempHAlarm").as_deref(), Some("0"));
    assert_eq!(db.hget(FLAG_ST, "Ethernet0", "tempHAlarm").as_deref(), Some("never"));
    assert_eq!(db.hget(FLAG_CT, "Ethernet0", "tempHAlarm").as_deref(), Some("never"));
    assert_eq!(db.hget(SFLAG, "Ethernet0", "tx_fault").as_deref(), Some("False"));
    assert_eq!(db.hget(SFLAG_CC, "Ethernet0", "tx_fault").as_deref(), Some("0"));
}

#[test]
fn a_link_change_reads_the_versatile_flags_too() {
    let mut db = Db::new();
    let mut task = wired(mapping_with(&[("Ethernet0", 0)]), true);
    task.set_vdm_pm_firmware_tables(vpf_tables());
    task.update_port_db_diagnostics_on_link_change(&mut db, &hal(vec![full_vdm_sfp()]), 0, NOW);
    assert_eq!(db.hget(VDM_FLAG, "Ethernet0", "laser_temperature_media1").as_deref(), Some("False"));
    assert_eq!(db.get_size(REAL) + db.get_size(FW) + db.get_size(PM), 0);
}

#[test]
fn test_update_port_db_diagnostics_on_link_change_unknown_port() {
    let mut db = Db::new();
    let task = wired(mapping_with(&[("Ethernet0", 0)]), true);

    task.update_port_db_diagnostics_on_link_change(&mut db, &hal(vec![flagged()]), 9, NOW);

    assert_eq!(db.get_size(FLAG), 0);
    assert_eq!(db.get_size(SFLAG), 0);
}

#[test]
fn test_update_port_db_diagnostics_on_link_change_invalid_asic() {
    let mut pm = PortMapping::new();
    pm.physical_to_logical.insert(3, vec!["Ethernet1".to_string()]);
    let mut db = Db::new();
    let task = wired(pm, true);

    task.update_port_db_diagnostics_on_link_change(&mut db, &hal(vec![]), 3, NOW);

    assert_eq!(db.get_size(FLAG), 0);
    assert_eq!(db.get_size(SFLAG), 0);
}

#[test]
fn test_update_port_db_diagnostics_on_link_change_skips_error_status() {
    let mut db = Db::new();
    db.set(STATUS_SW, "Ethernet0", &row(&[("status", "1"), ("error", SFP_ERROR_DESCRIPTION_BLOCKING)]));
    let task = wired(mapping_with(&[("Ethernet0", 0)]), true);

    task.update_port_db_diagnostics_on_link_change(&mut db, &hal(vec![flagged()]), 0, NOW);

    assert_eq!(db.get_size(FLAG), 0);
    assert_eq!(db.get_size(SFLAG), 0);
}

#[test]
fn test_update_port_db_diagnostics_on_link_change_skips_absent() {
    let mut db = Db::new();
    let task = wired(mapping_with(&[("Ethernet0", 0)]), true);

    task.update_port_db_diagnostics_on_link_change(&mut db, &hal(vec![absent()]), 0, NOW);

    assert_eq!(db.get_size(FLAG), 0);
    assert_eq!(db.get_size(SFLAG), 0);
}

#[test]
fn test_prime_flag_baselines_publishes_full_temp_vcc_baseline_for_all_ports() {
    let mut db = Db::new();
    db.hset(STATUS_SW, "Ethernet0", "cmis_state", "READY");
    db.hset(STATUS_SW, "Ethernet4", "cmis_state", "READY");
    let sfp = || Sfp {
        dom_real_value: Ok(dom_sensor_values()),
        dom_flags: Ok(object(vec![
            ("tempHAlarm", no()),
            ("tempLAlarm", no()),
            ("tempHWarn", no()),
            ("tempLWarn", no()),
            ("vccHAlarm", no()),
            ("vccLAlarm", no()),
            ("vccHWarn", no()),
            ("vccLWarn", no()),
        ])),
        status_flags: Ok(object(vec![("tx_fault", no())])),
        ..present()
    };
    let task = wired(mapping_with(&[("Ethernet0", 0), ("Ethernet4", 1)]), true);

    task.prime_flag_baselines(false, &mut db, &hal(vec![sfp(), sfp()]), NOW);

    for p in ["Ethernet0", "Ethernet4"] {
        assert_eq!(db.hget(FLAG, p, "tempHAlarm").as_deref(), Some("False"), "{p} tempHAlarm");
        assert_eq!(db.hget(FLAG, p, "vccHAlarm").as_deref(), Some("False"), "{p} vccHAlarm");
        assert_eq!(db.hget(SFLAG, p, "tx_fault").as_deref(), Some("False"), "{p} status flag");
    }
    assert_eq!(db.get_size(DOM), 0, "DOM_SENSOR must not be published by the flag prime");
    assert_eq!(db.get_size(STATUS), 0, "TRANSCEIVER_STATUS must not be published by the flag prime");
}

#[test]
fn test_prime_flag_baselines_respects_gates() {
    let mut db = Db::new();
    db.hset(CFG, "Ethernet4", "dom_polling", "disabled");
    db.set(STATUS_SW, "Ethernet8", &row(&[("status", "1"), ("error", SFP_ERROR_DESCRIPTION_BLOCKING)]));
    let task = wired(mapping_with(&[("Ethernet0", 0), ("Ethernet4", 1), ("Ethernet8", 2)]), true);

    task.prime_flag_baselines(false, &mut db, &hal(vec![flagged(), flagged(), flagged()]), NOW);

    assert_eq!(db.hget(FLAG, "Ethernet0", "tempHAlarm").as_deref(), Some("True"));
    assert_eq!(db.hget(FLAG_CC, "Ethernet0", "tempHAlarm").as_deref(), Some("0"));
    assert_eq!(db.hget(FLAG_ST, "Ethernet0", "tempHAlarm").as_deref(), Some("never"));
    assert!(db.get(FLAG, "Ethernet4").is_none(), "dom-disabled port must be skipped");
    assert!(db.get(FLAG, "Ethernet8").is_none(), "blocking-error port must be skipped");
}

#[test]
fn test_prime_flag_baselines_publishes_when_cmis_state_absent_or_non_terminal() {
    let mut db = Db::new();
    db.hset(STATUS_SW, "Ethernet4", "cmis_state", "INSERTED");
    db.hset(STATUS_SW, "Ethernet8", "cmis_state", "INSERTED");
    db.hset(CFG, "Ethernet8", "dom_polling", "disabled");
    let task = wired(mapping_with(&[("Ethernet0", 0), ("Ethernet4", 1), ("Ethernet8", 2)]), false);

    assert!(task.is_port_dom_monitoring_disabled(&db, "Ethernet0"), "absent cmis_state gates steady-state");
    assert!(task.is_port_dom_monitoring_disabled(&db, "Ethernet4"), "INSERTED gates steady-state");

    task.prime_flag_baselines(false, &mut db, &hal(vec![flagged(), flagged(), flagged()]), NOW);

    for p in ["Ethernet0", "Ethernet4"] {
        assert_eq!(db.hget(FLAG, p, "tempHAlarm").as_deref(), Some("True"), "{p} flag published at boot");
        assert_eq!(db.hget(SFLAG, p, "tx_fault").as_deref(), Some("False"), "{p} status flag published");
    }
    assert!(db.get(FLAG, "Ethernet8").is_none(), "dom-disabled port stays skipped even at boot prime");
}

#[test]
fn test_prime_flag_baselines_noop_without_tables_and_survives_absent() {
    let mut db = Db::new();
    let task = dom_task(mapping_with(&[("Ethernet0", 0)]), true, Some(60));
    task.prime_flag_baselines(false, &mut db, &hal(vec![absent()]), NOW);
    assert_eq!(db.get_size(DOM), 0);
}

#[test]
fn test_prime_flags_on_cmis_gate_release_publishes_on_terminal_edge() {
    let mut db = Db::new();
    db.hset(STATUS_SW, "Ethernet0", "cmis_state", "INSERTED");
    let h = hal(vec![flagged()]);
    let mut task = wired(mapping_with(&[("Ethernet0", 0)]), false);

    task.prime_flags_on_cmis_gate_release(&mut db, &h, NOW);
    assert!(db.get(FLAG, "Ethernet0").is_none(), "no publish while cmis_state non-terminal");
    task.prime_flags_on_cmis_gate_release(&mut db, &h, NOW);
    assert!(db.get(FLAG, "Ethernet0").is_none(), "still withheld while in CMIS init");

    db.hset(STATUS_SW, "Ethernet0", "cmis_state", "READY");
    task.prime_flags_on_cmis_gate_release(&mut db, &h, NOW);
    assert_eq!(db.hget(FLAG, "Ethernet0", "tempHAlarm").as_deref(), Some("True"));
    assert_eq!(db.hget(FLAG_CC, "Ethernet0", "tempHAlarm").as_deref(), Some("0"));
    assert_eq!(db.hget(SFLAG, "Ethernet0", "tx_fault").as_deref(), Some("False"));
}

#[test]
fn test_prime_flags_on_cmis_gate_release_no_republish_for_steady_terminal() {
    let mut db = Db::new();
    db.hset(STATUS_SW, "Ethernet0", "cmis_state", "READY");
    let h = hal(vec![flagged()]);
    let mut task = wired(mapping_with(&[("Ethernet0", 0)]), false);

    db.set(FLAG, "Ethernet0", &row(&[("tempHAlarm", "SENTINEL")]));

    task.prime_flags_on_cmis_gate_release(&mut db, &h, NOW);
    task.prime_flags_on_cmis_gate_release(&mut db, &h, NOW);
    assert_eq!(
        db.hget(FLAG, "Ethernet0", "tempHAlarm").as_deref(),
        Some("SENTINEL"),
        "steady-state terminal port with a present baseline must not be republished",
    );
}

#[test]
fn test_prime_flags_on_cmis_gate_release_restores_missing_baseline() {
    let mut db = Db::new();
    db.hset(STATUS_SW, "Ethernet0", "cmis_state", "READY");
    let h = hal(vec![flagged()]);
    let mut task = wired(mapping_with(&[("Ethernet0", 0)]), false);
    assert!(db.get(FLAG, "Ethernet0").is_none(), "precondition: baseline absent (boot prime missed it)");

    task.prime_flags_on_cmis_gate_release(&mut db, &h, NOW);
    assert_eq!(db.hget(FLAG, "Ethernet0", "tempHAlarm").as_deref(), Some("True"));
    assert_eq!(db.hget(FLAG_CC, "Ethernet0", "tempHAlarm").as_deref(), Some("0"));
    assert_eq!(db.hget(SFLAG, "Ethernet0", "tx_fault").as_deref(), Some("False"));

    db.set(FLAG, "Ethernet0", &row(&[("tempHAlarm", "SENTINEL")]));
    task.prime_flags_on_cmis_gate_release(&mut db, &h, NOW);
    assert_eq!(
        db.hget(FLAG, "Ethernet0", "tempHAlarm").as_deref(),
        Some("SENTINEL"),
        "restore must not re-fire once the row is present",
    );
}

#[test]
fn test_prime_flags_on_cmis_gate_release_does_not_restore_while_non_terminal() {
    let mut db = Db::new();
    db.hset(STATUS_SW, "Ethernet0", "cmis_state", "DP_INIT");
    let h = hal(vec![flagged()]);
    let mut task = wired(mapping_with(&[("Ethernet0", 0)]), false);

    task.prime_flags_on_cmis_gate_release(&mut db, &h, NOW);
    task.prime_flags_on_cmis_gate_release(&mut db, &h, NOW);
    assert!(
        db.get(FLAG, "Ethernet0").is_none(),
        "DOM_FLAG must stay withheld while cmis_state is non-terminal (DOM gating)",
    );
}

#[test]
fn test_prime_flags_on_cmis_gate_release_inert_when_skip_cmis() {
    let mut db = Db::new();
    db.hset(STATUS_SW, "Ethernet0", "cmis_state", "INSERTED");
    let h = hal(vec![flagged()]);
    let mut task = wired(mapping_with(&[("Ethernet0", 0)]), true);

    task.prime_flags_on_cmis_gate_release(&mut db, &h, NOW);
    db.hset(STATUS_SW, "Ethernet0", "cmis_state", "READY");
    task.prime_flags_on_cmis_gate_release(&mut db, &h, NOW);
    assert!(db.get(FLAG, "Ethernet0").is_none());
}

#[test]
fn test_on_port_update_event_schedules_appl_db_port_set() {
    let mut task = dom_task(mapping_with(&[("Ethernet0", 0)]), true, Some(60));
    let at = 5_000;

    let mut ev = PortChangeEvent::new("Ethernet0", 0, 0, PortChangeEventType::PortSet);
    ev.db_name = Some("CONFIG_DB".to_string());
    task.on_port_update_event(&ev, at);
    assert!(task.link_change_affected_ports.is_empty());

    let mut ev = PortChangeEvent::new("Ethernet0", 0, 0, PortChangeEventType::PortSet);
    ev.db_name = Some("APPL_DB".to_string());
    task.on_port_update_event(&ev, at);
    assert!(task.link_change_affected_ports.contains_key(&0));
    assert!(*task.link_change_affected_ports.get(&0).unwrap() > at);
}

#[test]
fn a_link_change_is_due_after_a_second() {
    let mut db = Db::new();
    let h = hal(vec![flagged()]);
    let mut task = wired(mapping_with(&[("Ethernet0", 0)]), true);
    let mut ev = PortChangeEvent::new("Ethernet0", 0, 0, PortChangeEventType::PortSet);
    ev.db_name = Some("APPL_DB".to_string());
    task.on_port_update_event(&ev, 5_000);
    task.check_port_update(false, &mut db, &h, 5_999, NOW);
    assert!(!db.has_row(FLAG, "Ethernet0"));
    task.check_port_update(true, &mut db, &h, 6_000, NOW);
    assert!(!db.has_row(FLAG, "Ethernet0"));
    task.check_port_update(false, &mut db, &h, 6_000, NOW);
    assert!(db.has_row(FLAG, "Ethernet0"));
    assert!(task.link_change_affected_ports.is_empty());
}

#[test]
fn test_check_port_update_processes_due_port() {
    let mut db = Db::new();
    let mut task = wired(mapping_with(&[("Ethernet0", 0)]), true);

    task.link_change_affected_ports.insert(0, 7_000);
    task.check_port_update(false, &mut db, &hal(vec![flagged()]), 7_000, NOW);

    assert_eq!(db.hget(FLAG, "Ethernet0", "tempHAlarm").as_deref(), Some("True"));
    assert_eq!(db.hget(SFLAG, "Ethernet0", "tx_fault").as_deref(), Some("False"));
    assert!(task.link_change_affected_ports.is_empty());
}

#[test]
fn test_poll_flap_events_schedules_on_flap_count_bump() {
    let mut db = Db::new();
    let h = hal(vec![flagged()]);
    let mut task = wired(mapping_with(&[("Ethernet0", 0)]), true);
    db.hset(APPL, "Ethernet0", "flap_count", "1");
    task.set_appl_port_table(APPL);

    task.check_port_update(false, &mut db, &h, 1_000, NOW);
    assert!(task.link_change_affected_ports.is_empty());

    db.hset(APPL, "Ethernet0", "flap_count", "2");
    task.check_port_update(false, &mut db, &h, 1_000, NOW);
    assert!(task.link_change_affected_ports.contains_key(&0));
}

#[test]
fn a_flap_is_read_once_after_the_delay() {
    let mut db = Db::new();
    let h = hal(vec![flagged(), flagged()]);
    let mut task = wired(mapping_with(&[("Ethernet0", 0), ("Ethernet4", 1)]), true);
    task.set_appl_port_table(APPL);
    for port in ["Ethernet0", "Ethernet4"] {
        db.hset(APPL, port, "flap_count", "1");
    }
    task.check_port_update(false, &mut db, &h, 1_000, NOW);
    db.hset(APPL, "Ethernet4", "flap_count", "2");
    task.check_port_update(false, &mut db, &h, 2_000, NOW);
    assert_eq!(task.link_change_affected_ports.get(&1), Some(&3_000));
    assert!(!task.link_change_affected_ports.contains_key(&0));
    assert!(!db.has_row(FLAG, "Ethernet4"));
    task.check_port_update(false, &mut db, &h, 2_999, NOW);
    assert!(!db.has_row(FLAG, "Ethernet4"));
    task.check_port_update(false, &mut db, &h, 3_000, NOW);
    assert_eq!(db.hget(FLAG, "Ethernet4", "tempHAlarm").as_deref(), Some("True"));
    assert!(!db.has_row(FLAG, "Ethernet0"));
    assert!(task.link_change_affected_ports.is_empty());
    db.hset(FLAG, "Ethernet4", "tempHAlarm", "SENTINEL");
    task.check_port_update(false, &mut db, &h, 9_000, NOW);
    assert_eq!(db.hget(FLAG, "Ethernet4", "tempHAlarm").as_deref(), Some("SENTINEL"));
}

#[test]
fn test_dom_thermal_task_worker() {
    let mut pm = mapping_with(&[("Ethernet0", 1), ("Ethernet4", 2)]);
    pm.physical_to_logical.insert(3, vec!["Ethernet8".to_string()]);

    let mut db = Db::new();
    db.hset(CFG, "Ethernet4", "dom_polling", "disabled");

    let warm = |t: &str| Sfp { temperature: Ok(text(t)), ..present() };
    let h = hal(vec![warm("30.0"), warm("31.0"), warm("32.0"), warm("33.0")]);
    let task = DomThermalInfoUpdateTask::new(pm, 10, TEMP, STATUS_SW, CFG);

    task.poll_once(false, &mut db, &h, NOW);
    assert_eq!(fields_of(&db, TEMP, "Ethernet0"), 2);
    assert!(db.get(TEMP, "Ethernet4").is_none());
    assert!(db.get(TEMP, "Ethernet8").is_none());
}

#[test]
fn temperatures_of_deconfigured_and_absent_ports_are_not_published() {
    let mut db = Db::new();
    let mut task =
        DomThermalInfoUpdateTask::new(mapping_with(&[("Ethernet0", 0), ("Ethernet4", 1)]), 10, TEMP, STATUS_SW, CFG);
    let warm = Sfp { temperature: Ok(number("30.5")), ..present() };
    let h = hal(vec![warm, absent()]);
    task.poll_once(false, &mut db, &h, NOW);
    assert_eq!(db.hget(TEMP, "Ethernet0", "temperature").as_deref(), Some("30.5"));
    assert!(!db.has_row(TEMP, "Ethernet4"));
    let mut gone = StrSet::new();
    gone.insert("Ethernet0");
    task.set_deconfigured_ports(gone);
    task.poll_once(false, &mut db, &h, NOW);
    assert!(!db.has_row(TEMP, "Ethernet0"));
}

fn firmware_versions() -> Reply {
    object(vec![("active_firmware", text("1.0.1")), ("inactive_firmware", text("1.0.2"))])
}

fn pm_values() -> Reply {
    object(vec![
        ("prefec_ber_avg", number("0.001")),
        ("prefec_ber_min", number("0.0008")),
        ("prefec_ber_max", number("0.0012")),
        ("uncorr_frames_avg", number("0.0")),
        ("uncorr_frames_min", number("0.0")),
        ("uncorr_frames_max", number("0.0")),
    ])
}

#[test]
fn test_post_port_pm_info_to_db() {
    let mut db = Db::new();
    let sfp = Sfp { flat_memory: Ok(no()), pm: Ok(pm_values()), ..present() };
    let task = dom_task(mapping_with(&[("Ethernet0", 0)]), true, None);

    task.post_port_pm_info_to_db(false, "Ethernet0", &mut db, PM, &hal(vec![sfp]));
    assert_eq!(fields_of(&db, PM, "Ethernet0"), 6);
    assert!(db.hget(PM, "Ethernet0", "last_update_time").is_none());
}

#[test]
fn test_post_port_pm_info_to_db_skips_flat_memory() {
    let mut db = Db::new();
    let sfp = Sfp { flat_memory: Ok(yes()), pm: Ok(pm_values()), ..present() };
    let task = dom_task(mapping_with(&[("Ethernet0", 0)]), true, None);
    task.post_port_pm_info_to_db(false, "Ethernet0", &mut db, PM, &hal(vec![sfp]));
    assert!(db.get(PM, "Ethernet0").is_none());
}

#[test]
fn test_post_port_pm_info_to_db_skips_empty_and_absent() {
    let mut db = Db::new();
    let present_empty = Sfp { flat_memory: Ok(no()), pm: Ok(object(vec![])), ..present() };
    let h = hal(vec![present_empty, absent()]);
    let task = dom_task(mapping_with(&[("Ethernet0", 0), ("Ethernet4", 1)]), true, None);
    task.post_port_pm_info_to_db(false, "Ethernet0", &mut db, PM, &h);
    task.post_port_pm_info_to_db(false, "Ethernet4", &mut db, PM, &h);
    assert!(db.get(PM, "Ethernet0").is_none());
    assert!(db.get(PM, "Ethernet4").is_none());
}

#[test]
fn test_post_port_sfp_firmware_info_to_db() {
    let mut db = Db::new();
    let sfp1 = Sfp { firmware_versions: Ok(firmware_versions()), ..present() };
    let task = dom_task(mapping_with(&[("Ethernet0", 1), ("Ethernet4", 1)]), true, None);

    task.post_port_sfp_firmware_info_to_db(false, "Ethernet0", &mut db, FW, &hal(vec![absent(), sfp1]));
    assert_eq!(fields_of(&db, FW, "Ethernet0"), 2);
    assert_eq!(fields_of(&db, FW, "Ethernet4"), 2);
    assert_eq!(db.hget(FW, "Ethernet0", "active_firmware").as_deref(), Some("1.0.1"));
    assert_eq!(db.hget(FW, "Ethernet4", "inactive_firmware").as_deref(), Some("1.0.2"));
}

#[test]
fn test_post_port_sfp_firmware_info_to_db_absent_and_stop() {
    let mut db = Db::new();
    let task = dom_task(mapping_with(&[("Ethernet0", 1)]), true, None);
    task.post_port_sfp_firmware_info_to_db(false, "Ethernet0", &mut db, FW, &hal(vec![absent(), absent()]));
    assert!(db.get(FW, "Ethernet0").is_none());

    let sfp1 = Sfp { firmware_versions: Ok(firmware_versions()), ..present() };
    task.post_port_sfp_firmware_info_to_db(true, "Ethernet0", &mut db, FW, &hal(vec![absent(), sfp1]));
    assert!(db.get(FW, "Ethernet0").is_none());
}

#[test]
fn test_post_port_sfp_firmware_info_to_db_lport_list_none() {
    let mut pm = PortMapping::new();
    pm.logical_port_list.push("Ethernet0".to_string());
    pm.logical_to_physical.insert("Ethernet0".to_string(), 1);
    let mut db = Db::new();
    let sfp1 = Sfp { firmware_versions: Ok(firmware_versions()), ..present() };
    let task = dom_task(pm, true, None);
    task.post_port_sfp_firmware_info_to_db(false, "Ethernet0", &mut db, FW, &hal(vec![absent(), sfp1]));
    assert!(db.get(FW, "Ethernet0").is_none());
}

fn done() -> Handshake {
    Handshake { action: Ok(yes()), polls: vec![(0, Ok(yes()))] }
}

fn full_vdm_sfp() -> Sfp {
    Sfp {
        vdm_supported: Ok(yes()),
        vdm_statistic_supported: Ok(yes()),
        vdm_freeze: done(),
        vdm_unfreeze: done(),
        vdm_real_value_statistic: Ok(object(vec![("laser_temperature_media1_max", number("50.0"))])),
        vdm_real_value_basic: Ok(object(vec![("laser_temperature_media1", number("45.0"))])),
        vdm_flags: Ok(object(vec![("laser_temperature_media1_halarm", no())])),
        flat_memory: Ok(no()),
        pm: Ok(pm_values()),
        firmware_versions: Ok(firmware_versions()),
        ..present()
    }
}

#[test]
fn test_post_port_vdm_pm_firmware_full_freeze() {
    let mut db = Db::new();
    let task = dom_task(mapping_with(&[("Ethernet0", 0)]), true, None);
    let h = hal(vec![full_vdm_sfp()]);
    assert!(task.is_vdm_freeze_needed(&h.sfps[0]));

    let asked = task.post_port_vdm_pm_firmware_info(&mut db, &h, "Ethernet0", &vpf_tables(), NOW);

    assert_eq!(fields_of(&db, FW, "Ethernet0"), 2);
    assert_eq!(fields_of(&db, PM, "Ethernet0"), 6);
    assert_eq!(db.hget(REAL, "Ethernet0", "laser_temperature_media1").as_deref(), Some("45.0"));
    assert_eq!(db.hget(REAL, "Ethernet0", "laser_temperature_media1_max").as_deref(), Some("50.0"));
    assert!(db.hget(REAL, "Ethernet0", "last_update_time").is_some());
    assert_eq!(
        asked,
        vec![
            VdmRequest::Firmware,
            VdmRequest::Freeze,
            VdmRequest::Statistic,
            VdmRequest::Pm,
            VdmRequest::Release,
            VdmRequest::Basic,
            VdmRequest::Flags,
        ]
    );
}

#[test]
fn test_post_port_vdm_pm_firmware_skips_freeze_when_no_statistic() {
    let mut db = Db::new();
    let task = dom_task(mapping_with(&[("Ethernet0", 0)]), true, None);
    let h = hal(vec![Sfp { vdm_statistic_supported: Ok(no()), ..full_vdm_sfp() }]);

    let asked = task.post_port_vdm_pm_firmware_info(&mut db, &h, "Ethernet0", &vpf_tables(), NOW);

    assert_eq!(fields_of(&db, FW, "Ethernet0"), 2);
    assert!(db.get(PM, "Ethernet0").is_none());
    assert!(db.hget(REAL, "Ethernet0", "laser_temperature_media1").is_some());
    assert!(db.hget(REAL, "Ethernet0", "laser_temperature_media1_max").is_none());
    assert!(!task.is_vdm_freeze_needed(&h.sfps[0]));
    assert!(!asked.contains(&VdmRequest::Freeze));
}

#[test]
fn test_post_port_vdm_pm_firmware_skips_freeze_in_lpmode() {
    let mut db = Db::new();
    let task = dom_task(mapping_with(&[("Ethernet0", 0)]), true, None);
    let h = hal(vec![Sfp { lpmode: Ok(true), ..full_vdm_sfp() }]);

    let asked = task.post_port_vdm_pm_firmware_info(&mut db, &h, "Ethernet0", &vpf_tables(), NOW);

    assert_eq!(fields_of(&db, FW, "Ethernet0"), 2);
    assert!(db.get(PM, "Ethernet0").is_none());
    assert!(db.hget(REAL, "Ethernet0", "laser_temperature_media1").is_some());
    assert!(!task.is_vdm_freeze_needed(&h.sfps[0]));
    assert!(!asked.contains(&VdmRequest::Freeze));
}

#[test]
fn test_post_port_vdm_pm_firmware_freeze_failure_keeps_basic() {
    let mut db = Db::new();
    let task = dom_task(mapping_with(&[("Ethernet0", 0)]), true, None);
    let refused = Handshake { action: Ok(no()), polls: vec![] };
    let h = hal(vec![Sfp { vdm_freeze: refused, ..full_vdm_sfp() }]);
    assert!(task.is_vdm_freeze_needed(&h.sfps[0]));

    let asked = task.post_port_vdm_pm_firmware_info(&mut db, &h, "Ethernet0", &vpf_tables(), NOW);

    assert_eq!(fields_of(&db, FW, "Ethernet0"), 2);
    assert!(db.get(PM, "Ethernet0").is_none());
    assert!(db.hget(REAL, "Ethernet0", "laser_temperature_media1").is_some());
    assert!(db.hget(REAL, "Ethernet0", "laser_temperature_media1_max").is_none());
    assert!(asked.contains(&VdmRequest::Freeze));
    assert!(asked.contains(&VdmRequest::Release));
    assert!(!asked.contains(&VdmRequest::Pm));
    assert!(!asked.contains(&VdmRequest::Statistic));
}

#[test]
fn a_reading_asks_in_the_order_of_what_is_published() {
    let task = dom_task(mapping_with(&[("Ethernet0", 0)]), true, None);
    let refused = Handshake { action: Ok(no()), polls: vec![] };
    let late = Handshake { action: Ok(yes()), polls: vec![(0, Ok(no())), (1000, Ok(yes()))] };
    for sfp in [
        full_vdm_sfp(),
        Sfp { vdm_freeze: refused, ..full_vdm_sfp() },
        Sfp { vdm_freeze: late, ..full_vdm_sfp() },
        Sfp { lpmode: Ok(true), ..full_vdm_sfp() },
        Sfp { vdm_supported: Ok(no()), ..full_vdm_sfp() },
    ] {
        let h = hal(vec![sfp]);
        let mut asked = Vec::new();
        let mut request = VdmRequest::Firmware;
        while request != VdmRequest::Done {
            asked.push(request);
            request = task.next_vdm_request(request, &h.sfps[0]);
        }
        let freezes = asked.iter().filter(|r| **r == VdmRequest::Freeze).count();
        assert_eq!(asked.iter().filter(|r| **r == VdmRequest::Release).count(), freezes);
        let published = task.post_port_vdm_pm_firmware_info(&mut Db::new(), &h, "Ethernet0", &vpf_tables(), NOW);
        assert_eq!(published, asked);
    }
}

#[test]
fn flags_are_wanted_only_where_they_are_due() {
    let mut db = Db::new();
    db.hset(STATUS_SW, "Ethernet0", "cmis_state", "READY");
    let mut task = wired(mapping_with(&[("Ethernet0", 0), ("Ethernet4", 1)]), false);
    assert!(task.may_read_flags(&db, 0, 5_000));
    db.hset(FLAG, "Ethernet0", "tempHAlarm", "False");
    assert!(!task.may_read_flags(&db, 0, 5_000));
    task.link_change_affected_ports.insert(0, 6_000);
    assert!(!task.may_read_flags(&db, 0, 5_999));
    assert!(task.may_read_flags(&db, 0, 6_000));
    assert!(!task.may_read_flags(&db, 1, 6_000));
    assert!(!task.may_read_flags(&db, 7, 6_000));
    assert!(task.is_port_primed(&db, "Ethernet4"));
    db.hset(CFG, "Ethernet4", "dom_polling", "disabled");
    assert!(!task.is_port_primed(&db, "Ethernet4"));
}

#[test]
fn a_look_at_the_links_does_not_read_other_modules() {
    let mut db = Db::new();
    for port in ["Ethernet0", "Ethernet4"] {
        db.hset(STATUS_SW, port, "cmis_state", "READY");
        db.hset(FLAG, port, "tempHAlarm", "SENTINEL");
    }
    let mut task = wired(mapping_with(&[("Ethernet0", 0), ("Ethernet4", 1)]), false);
    task.link_change_affected_ports.insert(1, 6_000);
    assert!(!task.may_read_flags(&db, 0, 6_000));
    task.check_port_update(false, &mut db, &hal(vec![flagged(), flagged()]), 6_000, NOW);
    assert_eq!(db.hget(FLAG, "Ethernet0", "tempHAlarm").as_deref(), Some("SENTINEL"));
    assert_eq!(db.hget(FLAG, "Ethernet4", "tempHAlarm").as_deref(), Some("True"));
}

#[test]
fn a_module_that_cannot_be_read_does_not_disturb_the_poll() {
    let ports = [("Ethernet0", 0), ("Ethernet4", 1), ("Ethernet8", 2)];
    let mut task = wired(mapping_with(&ports), true);
    task.set_vdm_pm_firmware_tables(vpf_tables());
    let good = || Sfp { dom_real_value: Ok(dom_sensor_values()), ..full_vdm_sfp() };
    let bad = Sfp { dom_real_value: Ok(Reply::Scalar(Value::Null)), ..present() };
    let mut with_good = Db::new();
    let mut with_bad = Db::new();
    task.poll_once(false, &mut with_good, &hal(vec![good(), good(), good()]), true, true, NOW);
    task.poll_once(false, &mut with_bad, &hal(vec![good(), bad, good()]), true, true, NOW);
    assert!(with_good.has_row(DOM, "Ethernet4") && !with_bad.has_row(DOM, "Ethernet4"));
    for port in ["Ethernet0", "Ethernet8"] {
        for t in [DOM, STATUS, FW, REAL, PM, VDM_FLAG] {
            assert_eq!(with_good.has_row(t, port), with_bad.has_row(t, port));
            assert_eq!(fields_of(&with_good, t, port), fields_of(&with_bad, t, port));
        }
        assert_eq!(with_bad.hget(REAL, port, "laser_temperature_media1").as_deref(), Some("45.0"));
    }
}
