use xcvrd::daemon::{
    needs_module, needs_modules, follow_config, open_tables, pass, publish_first_diagnostics, removal_tables, start, DaemonTables, Database,
};
use xcvrd::db::Db;
use xcvrd::hal::{Hal, Sfp};
use xcvrd::ord_map::OrdMap;
use xcvrd::value::{Dict, Reply, Value};

const NOW: u64 = 1_700_000_000;

fn object(entries: &[(&str, &str)]) -> Reply {
    let mut d: Dict = OrdMap::new();
    for (k, v) in entries {
        d.insert(k.to_string(), Value::String(v.to_string()));
    }
    Reply::Object(d)
}

fn module() -> Sfp {
    Sfp {
        presence: Ok(true),
        replaceable: Ok(true),
        lpmode: Ok(false),
        transceiver_info: Ok(object(&[("type", "QSFP-DD"), ("serial", "1234")])),
        threshold_info: Ok(object(&[("temphighalarm", "75.0")])),
        dom_real_value: Ok(object(&[("temperature", "22.75")])),
        dom_flags: Ok(object(&[("tempHAlarm", "False")])),
        status: Ok(object(&[("module_state", "ModuleReady")])),
        status_flags: Ok(object(&[("tx_fault", "False")])),
        ..Sfp::empty_slot()
    }
}

fn configured(ports: &[&str]) -> (DaemonTables, Db) {
    let (t, _) = open_tables();
    let mut db = Db::new();
    for p in ports {
        db.hset(t.cfg_port, p, "admin_status", "up");
    }
    (t, db)
}

#[test]
fn every_table_has_its_own_place() {
    let (t, places) = open_tables();
    assert_eq!(places.len(), 40);
    for i in 0..places.len() {
        for j in 0..i {
            assert!(places[i].database != places[j].database || places[i].name != places[j].name);
        }
    }
    assert_eq!(places[t.info].name, "TRANSCEIVER_INFO");
    assert_eq!(places[t.vdm.vdm_flag_tables.flag.halarm].name, "TRANSCEIVER_VDM_HALARM_FLAG");
    assert_eq!(places[t.vdm.vdm_flag_tables.clear_time.lwarn].name, "TRANSCEIVER_VDM_LWARN_FLAG_CLEAR_TIME");
    assert_eq!(places[t.vdm_thresholds.thresholds.hwarn].name, "TRANSCEIVER_VDM_HWARN_THRESHOLD");
    assert_eq!(places[t.cfg_port].name, "PORT");
    assert!(places[t.cfg_port].database == Database::Config);
    assert!(places[t.appl_port].database == Database::Appl);
    assert!(places[t.state_port].database == Database::State);
}

#[test]
fn the_rows_of_a_module_go_with_it() {
    let (t, _) = open_tables();
    let removal = removal_tables(&t);
    assert_eq!(removal.len(), 35);
    for table in [t.dom_sensor, t.dom_temperature, t.flags.status_flag_tbl, t.vdm.vdm_flag_tables.set_time.lalarm] {
        assert!(removal.contains(&table));
    }
    for table in [t.info, t.status_sw, t.cfg_port, t.state_port, t.appl_port] {
        assert!(!removal.contains(&table));
    }
}

#[test]
fn the_start_writes_the_rows_of_the_modules_that_are_there() {
    let (t, mut db) = configured(&["Ethernet0", "Ethernet4"]);
    db.hset(t.info, "Ethernet4", "serial", "old");
    let hal = Hal { sfps: vec![module(), Sfp::empty_slot()] };
    let tasks = start(&t, &hal, &mut db, 2, true, 1_000, NOW);
    assert_eq!(db.hget(t.info, "Ethernet0", "serial").as_deref(), Some("1234"));
    assert!(!db.has_row(t.info, "Ethernet4"));
    assert!(db.has_row(t.dom_threshold, "Ethernet0"));
    assert_eq!(db.hget(t.status_sw, "Ethernet0", "status").as_deref(), Some("1"));
    assert_eq!(db.hget(t.status_sw, "Ethernet4", "status").as_deref(), Some("0"));
    assert_eq!(db.hget(t.status_sw, "Ethernet0", "cmis_state").as_deref(), Some("READY"));
    assert!(db.hget(t.status_sw, "Ethernet4", "cmis_state").is_none());
    assert_eq!(tasks.dom.first_periodic_deadline, Some(61_000));
    assert_eq!(tasks.dom.setup.appl_port_tbl, Some(t.appl_port));
    assert!(tasks.dom.is_port_polled(&db, "Ethernet0"));

    publish_first_diagnostics(&tasks.dom, &mut db, &hal, NOW);
    assert_eq!(db.hget(t.dom_sensor, "Ethernet0", "temperature").as_deref(), Some("22.75"));
    assert_eq!(db.hget(t.flags.dom_flag_tbl, "Ethernet0", "tempHAlarm").as_deref(), Some("False"));
    assert_eq!(db.hget(t.flags.status_tbl, "Ethernet0", "module_state").as_deref(), Some("ModuleReady"));
    assert!(!db.has_row(t.dom_sensor, "Ethernet4"));
    assert_eq!(db.get_size(t.vdm.vdm_real_value_tbl), 0);
}

#[test]
fn an_application_database_out_of_reach_is_not_watched() {
    let (t, mut db) = configured(&["Ethernet0"]);
    let tasks = start(&t, &Hal { sfps: vec![module()] }, &mut db, 1, false, 0, NOW);
    assert!(tasks.dom.setup.appl_port_tbl.is_none());
}

#[test]
fn a_port_that_the_configuration_loses_is_torn_down_and_set_up_again() {
    let (t, mut db) = configured(&["Ethernet0", "Ethernet4"]);
    let hal = Hal { sfps: vec![module(), module()] };
    let mut tasks = start(&t, &hal, &mut db, 2, true, 0, NOW);
    db.del(t.cfg_port, "Ethernet4");
    pass(&mut tasks.sfp, &t, &hal, &hal, &mut db, 2, false, 10_000, NOW);
    assert!(db.has_row(t.info, "Ethernet4"));
    pass(&mut tasks.sfp, &t, &hal, &hal, &mut db, 2, true, 20_000, NOW);
    assert!(!tasks.sfp.port_mapping.is_logical_port("Ethernet4"));
    for table in [t.info, t.status_sw, t.dom_threshold] {
        assert!(!db.has_row(table, "Ethernet4"));
        assert!(db.has_row(table, "Ethernet0"));
    }
    assert!(tasks.sfp.deconfigured_ports.as_ref().is_some_and(|s| s.contains("Ethernet4")));

    db.hset(t.cfg_port, "Ethernet4", "admin_status", "up");
    follow_config(&mut tasks.sfp, &t, &hal, &mut db, 2, NOW);
    assert!(tasks.sfp.port_mapping.is_logical_port("Ethernet4"));
    assert!(db.has_row(t.info, "Ethernet4"));
    assert!(tasks.sfp.deconfigured_ports.as_ref().is_some_and(|s| s.is_empty()));
}

#[test]
fn a_module_that_the_start_missed_is_read_again_and_restored() {
    let (t, mut db) = configured(&["Ethernet0", "Ethernet4"]);
    let unreadable = Sfp { transceiver_info: Ok(Reply::Scalar(Value::Null)), ..module() };
    let hal = Hal { sfps: vec![unreadable, module()] };
    let mut tasks = start(&t, &hal, &mut db, 2, true, 0, NOW);
    assert!(tasks.sfp.retry_eeprom_set.contains("Ethernet0"));
    assert!(!db.has_row(t.info, "Ethernet0"));
    db.del(t.info, "Ethernet4");

    let hal = Hal { sfps: vec![module(), module()] };
    pass(&mut tasks.sfp, &t, &hal, &hal, &mut db, 2, true, 100_000, NOW);
    assert!(tasks.sfp.retry_eeprom_set.is_empty());
    assert!(db.has_row(t.info, "Ethernet0"));
    assert!(db.has_row(t.info, "Ethernet4"));

    tasks.sfp.retry_eeprom_set.insert("Ethernet0");
    db.del(t.info, "Ethernet0");
    pass(&mut tasks.sfp, &t, &hal, &hal, &mut db, 2, true, 100_001, NOW);
    assert!(!db.has_row(t.info, "Ethernet0"));
}

#[test]
fn a_turn_with_nothing_to_do_needs_no_module() {
    let (t, mut db) = configured(&["Ethernet0"]);
    let hal = Hal { sfps: vec![module()] };
    let mut tasks = start(&t, &hal, &mut db, 1, true, 0, NOW);
    pass(&mut tasks.sfp, &t, &hal, &hal, &mut db, 1, true, 100_000, NOW);
    assert!(!needs_modules(&tasks.sfp, &t, &db, 1, true, 104_999));
    assert!(needs_modules(&tasks.sfp, &t, &db, 1, true, 105_000));

    let none = Hal { sfps: vec![Sfp::empty_slot()] };
    pass(&mut tasks.sfp, &t, &none, &none, &mut db, 1, true, 104_999, NOW);
    assert!(db.has_row(t.info, "Ethernet0"));

    tasks.sfp.retry_eeprom_set.insert("Ethernet0");
    assert_eq!(needs_modules(&tasks.sfp, &t, &db, 1, true, 101_000), tasks.sfp.last_retry_eeprom_time.is_none());
    tasks.sfp.retry_eeprom_set.remove("Ethernet0");
    db.del(t.cfg_port, "Ethernet0");
    assert!(needs_modules(&tasks.sfp, &t, &db, 1, true, 101_000));
    assert!(!needs_modules(&tasks.sfp, &t, &db, 1, false, 101_000));
}

#[test]
fn only_modules_of_ports_with_something_due_are_needed() {
    let (t, mut db) = configured(&["Ethernet0", "Ethernet4"]);
    let hal = Hal { sfps: vec![module(), module()] };
    let mut tasks = start(&t, &hal, &mut db, 2, true, 0, NOW);
    db.del(t.dom_threshold, "Ethernet4");
    assert!(needs_module(&tasks.sfp, &t, &db, 100_000, "Ethernet4"));
    assert!(!needs_module(&tasks.sfp, &t, &db, 100_000, "Ethernet0"));
    assert!(!needs_module(&tasks.sfp, &t, &db, 100_000, "Ethernet8"));

    let only = Hal { sfps: vec![Sfp::empty_slot(), module()] };
    pass(&mut tasks.sfp, &t, &only, &only, &mut db, 2, true, 100_000, NOW);
    assert!(db.has_row(t.dom_threshold, "Ethernet4"));
    assert!(db.has_row(t.info, "Ethernet0"));

    db.del(t.info, "Ethernet0");
    assert!(!needs_module(&tasks.sfp, &t, &db, 104_999, "Ethernet0"));
    assert!(needs_module(&tasks.sfp, &t, &db, 105_000, "Ethernet0"));
    db.hset(t.status_sw, "Ethernet0", "status", "0");
    assert!(!needs_module(&tasks.sfp, &t, &db, 105_000, "Ethernet0"));
    tasks.sfp.retry_eeprom_set.insert("Ethernet0");
    assert!(needs_module(&tasks.sfp, &t, &db, 105_000, "Ethernet0"));
}
