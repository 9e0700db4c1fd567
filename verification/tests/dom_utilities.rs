use xcvrd::clock::{civil_from_days, format_utc};
use xcvrd::db::{Db, Row};
use xcvrd::dom::utilities::db::{strip_unit, value_to_py_str, Beautifier, DbCache, DbUtils, Diagnostic};
use xcvrd::dom::utilities::dom_sensor::{DomDbUtils, DomUtils};
use xcvrd::dom::utilities::status::{StatusDbUtils, StatusUtils};
use xcvrd::dom::utilities::vdm::{
    HandshakeStep, VdmDbUtils, VdmFlagTables, VdmTables, VdmThresholdTables, VdmRequest, VdmUtils,
};
use xcvrd::error::XcvrdError;
use xcvrd::hal::{Hal, Handshake, Sfp};
use xcvrd::ord_map::OrdMap;
use xcvrd::value::{py_truthy, Dict, Reply, Value};
use xcvrd::xcvrd_utilities::port_event_helper::{PortChangeEvent, PortChangeEventType, PortMapping};

const VALUE: usize = 0;
const COUNT: usize = 1;
const SET: usize = 2;
const CLEAR: usize = 3;

const NOW: u64 = 1_609_459_200;

fn text(s: &str) -> Value {
    Value::String(s.to_string())
}

fn number(s: &str) -> Value {
    Value::Number(s.to_string())
}

fn dict(entries: Vec<(&str, Value)>) -> Dict {
    let mut d: Dict = OrdMap::new();
    for (k, v) in entries {
        d.insert(k.to_string(), v);
    }
    d
}

fn object(entries: Vec<(&str, Value)>) -> Reply {
    Reply::Object(dict(entries))
}

fn entries(r: Option<Reply>) -> Option<Vec<(String, Value)>> {
    match r {
        Some(Reply::Object(d)) => {
            let mut out = vec![];
            for i in 0..d.len() {
                let v = match d.value_at(i) {
                    Value::Bool(b) => Value::Bool(*b),
                    Value::String(s) => Value::String(s.clone()),
                    Value::Number(s) => Value::Number(s.clone()),
                    Value::Json(s) => Value::Json(s.clone()),
                    Value::Null => Value::Null,
                };
                out.push((d.key_at(i).clone(), v));
            }
            Some(out)
        }
        _ => None,
    }
}

fn row(fields: &[(&str, &str)]) -> Row {
    let mut r: Row = OrdMap::new();
    for (k, v) in fields {
        r.insert(k.to_string(), v.to_string());
    }
    r
}

fn present() -> Sfp {
    Sfp { presence: Ok(true), ..Sfp::empty_slot() }
}

fn hal(sfp: Sfp) -> Hal {
    Hal { sfps: vec![sfp] }
}

fn mapping_with(ports: &[(&str, usize)]) -> PortMapping {
    let mut pm = PortMapping::new();
    for (name, phys) in ports {
        pm.handle_port_change_event(&PortChangeEvent::new(name, *phys as i32, 0, PortChangeEventType::PortAdd));
    }
    pm
}

fn fields_of(db: &Db, t: usize, key: &str) -> usize {
    db.get(t, key).map(|r| r.len()).unwrap_or(0)
}

fn none() -> DbCache {
    OrdMap::new()
}

#[test]
fn test_beautify_info_dict() {
    let mut d = dict(vec![("eSNR", number("1.1"))]);
    DbUtils.beautify_info_dict(&mut d);
    assert_eq!(d.get_str("eSNR"), Some(&text("1.1")));
}

#[test]
fn test_get_current_time_format() {
    assert_eq!(format_utc(0), "Thu Jan 01 00:00:00 1970");
    assert_eq!(format_utc(1_609_459_200), "Fri Jan 01 00:00:00 2021");
    assert!(!DbUtils.get_current_time(1).is_empty());
}

#[test]
fn times_are_written_in_utc() {
    assert_eq!(format_utc(951_782_399), "Mon Feb 28 23:59:59 2000");
    assert_eq!(format_utc(951_782_400), "Tue Feb 29 00:00:00 2000");
    assert_eq!(format_utc(4_107_542_400), "Mon Mar 01 00:00:00 2100");
    assert_eq!(DbUtils.get_current_time(1_234_567_890), "Fri Feb 13 23:31:30 2009");
    assert_eq!(civil_from_days(0), (1970, 1, 1));
    assert_eq!(civil_from_days(11_016), (2000, 2, 29));
    assert_eq!(civil_from_days(-1), (1969, 12, 31));
    assert_eq!(civil_from_days(-719_468), (0, 3, 1));
    assert_eq!(civil_from_days(-719_529), (-1, 12, 31));
}

#[test]
fn test_value_to_py_str_and_strip_unit() {
    assert_eq!(value_to_py_str(&number("1.1")), "1.1");
    assert_eq!(value_to_py_str(&Value::Bool(true)), "True");
    assert_eq!(value_to_py_str(&text("N/A")), "N/A");
    assert_eq!(strip_unit(&text("0C"), "C"), "0");
    assert_eq!(strip_unit(&text("N/A"), "C"), "N/A");
    assert_eq!(strip_unit(&number("25.0"), "C"), "25.0");
    assert_eq!(strip_unit(&text("3.3Volts"), "Volts"), "3.3");
}

#[test]
fn other_values_have_their_texts() {
    assert_eq!(value_to_py_str(&Value::Bool(false)), "False");
    assert_eq!(value_to_py_str(&Value::Null), "None");
    assert_eq!(value_to_py_str(&Value::Json("[ 1, 2 ]".to_string())), "[1,2]");
    assert_eq!(value_to_py_str(&number("1.50")), "1.50");
    assert_eq!(strip_unit(&text("C"), "C"), "");
    assert_eq!(strip_unit(&text("CC"), "C"), "C");
}

#[test]
fn test_py_truthy() {
    assert!(py_truthy(&Value::Bool(true)));
    assert!(!py_truthy(&Value::Bool(false)));
    assert!(!py_truthy(&number("0")));
    assert!(py_truthy(&number("1")));
    assert!(!py_truthy(&Value::Null));
}

#[test]
fn emptiness_and_zero_are_false() {
    assert!(!py_truthy(&number("0.0")));
    assert!(!py_truthy(&number("-0.0")));
    assert!(!py_truthy(&number("0e9")));
    assert!(py_truthy(&number("0.001")));
    assert!(py_truthy(&number("-3")));
    assert!(!py_truthy(&text("")));
    assert!(py_truthy(&text("False")));
    assert!(!py_truthy(&Value::Json("[ ]".to_string())));
    assert!(!py_truthy(&Value::Json("{ }".to_string())));
    assert!(py_truthy(&Value::Json("[0]".to_string())));
}

fn track(db: &mut Db, key: &str, v: Value, time: &str) {
    DbUtils.update_flag_metadata_tables("Ethernet0", &dict(vec![(key, v)]), time, db, VALUE, COUNT, SET, CLEAR);
}

#[test]
fn test_update_flag_metadata_tables_first_publish_initializes() {
    let mut db = Db::new();
    track(&mut db, "tempHAlarm", Value::Bool(false), "Thu Jan 01 00:00:00 1970");
    assert_eq!(db.hget(COUNT, "Ethernet0", "tempHAlarm").as_deref(), Some("0"));
    assert_eq!(db.hget(SET, "Ethernet0", "tempHAlarm").as_deref(), Some("never"));
    assert_eq!(db.hget(CLEAR, "Ethernet0", "tempHAlarm").as_deref(), Some("never"));
}

#[test]
fn test_update_flag_metadata_tables_transition_and_noop() {
    let mut db = Db::new();
    db.set(VALUE, "Ethernet0", &row(&[("tempHAlarm", "False")]));
    db.set(COUNT, "Ethernet0", &row(&[("tempHAlarm", "0")]));

    track(&mut db, "tempHAlarm", Value::Bool(true), "RAISE_TIME");
    assert_eq!(db.hget(COUNT, "Ethernet0", "tempHAlarm").as_deref(), Some("1"));
    assert_eq!(db.hget(SET, "Ethernet0", "tempHAlarm").as_deref(), Some("RAISE_TIME"));
    assert!(db.hget(CLEAR, "Ethernet0", "tempHAlarm").is_none());

    db.set(VALUE, "Ethernet0", &row(&[("tempHAlarm", "True")]));

    track(&mut db, "tempHAlarm", Value::Bool(true), "NOOP_TIME");
    assert_eq!(db.hget(COUNT, "Ethernet0", "tempHAlarm").as_deref(), Some("1"));
    assert_eq!(db.hget(SET, "Ethernet0", "tempHAlarm").as_deref(), Some("RAISE_TIME"));

    track(&mut db, "tempHAlarm", Value::Bool(false), "CLEAR_TIME");
    assert_eq!(db.hget(COUNT, "Ethernet0", "tempHAlarm").as_deref(), Some("2"));
    assert_eq!(db.hget(CLEAR, "Ethernet0", "tempHAlarm").as_deref(), Some("CLEAR_TIME"));
}

#[test]
fn test_update_flag_metadata_tables_skips_na() {
    let mut db = Db::new();
    db.set(VALUE, "Ethernet0", &row(&[("tempHAlarm", "False")]));
    db.set(COUNT, "Ethernet0", &row(&[("tempHAlarm", "5")]));

    track(&mut db, "tempHAlarm", text("N/A"), "T");
    assert_eq!(db.hget(COUNT, "Ethernet0", "tempHAlarm").as_deref(), Some("5"));
    assert!(db.hget(SET, "Ethernet0", "tempHAlarm").is_none());
    assert!(db.hget(CLEAR, "Ethernet0", "tempHAlarm").is_none());
}

#[test]
fn padded_na_and_unseen_flags_are_no_change() {
    let mut db = Db::new();
    db.set(VALUE, "Ethernet0", &row(&[("tempHAlarm", "False")]));
    db.set(COUNT, "Ethernet0", &row(&[("tempHAlarm", "5")]));
    track(&mut db, "tempHAlarm", text(" N/A "), "T");
    track(&mut db, "vccHAlarm", Value::Bool(true), "T");
    assert_eq!(db.hget(COUNT, "Ethernet0", "tempHAlarm").as_deref(), Some("5"));
    assert_eq!(db.hget(COUNT, "Ethernet0", "vccHAlarm"), None);
    assert_eq!(db.get_size(SET), 0);
}

#[test]
fn flags_without_a_count_row_are_left_alone() {
    let mut db = Db::new();
    db.set(VALUE, "Ethernet0", &row(&[("tempHAlarm", "False")]));
    track(&mut db, "tempHAlarm", Value::Bool(true), "T");
    assert_eq!(db.get_size(COUNT), 0);
    assert_eq!(db.get_size(SET), 0);
}

#[test]
fn a_count_that_is_no_number_starts_over() {
    let mut db = Db::new();
    db.set(VALUE, "Ethernet0", &row(&[("a", "False"), ("b", "False")]));
    db.set(COUNT, "Ethernet0", &row(&[("a", "many"), ("b", "41")]));
    track(&mut db, "a", Value::Bool(true), "T");
    track(&mut db, "b", Value::Bool(true), "T");
    assert_eq!(db.hget(COUNT, "Ethernet0", "a").as_deref(), Some("1"));
    assert_eq!(db.hget(COUNT, "Ethernet0", "b").as_deref(), Some("42"));
}

fn dom_sensor_values() -> Reply {
    let mut d: Dict = OrdMap::new();
    d.insert("temperature".to_string(), text("22.75"));
    d.insert("voltage".to_string(), text("0.5"));
    for i in 1..=8 {
        d.insert(format!("rx{i}power"), text("0.7"));
        d.insert(format!("tx{i}bias"), text("0.7"));
        d.insert(format!("tx{i}power"), text("0.7"));
    }
    Reply::Object(d)
}

#[test]
fn test_get_transceiver_dom_temperature() {
    let dom = DomUtils;
    let sfp = Sfp { temperature: Ok(number("42.0")), ..present() };
    let v = entries(dom.get_transceiver_dom_temperature(&sfp)).unwrap();
    assert_eq!(v, vec![("temperature".to_string(), number("42.0"))]);
    assert!(dom.get_transceiver_dom_temperature(&present()).is_none());
}

#[test]
fn test_get_transceiver_dom_sensor_real_value() {
    let dom = DomUtils;
    let sfp = Sfp { dom_real_value: Ok(dom_sensor_values()), ..present() };
    assert!(dom.get_transceiver_dom_sensor_real_value(&sfp).is_some());
    let empty = Sfp { dom_real_value: Ok(object(vec![])), ..present() };
    assert_eq!(entries(dom.get_transceiver_dom_sensor_real_value(&empty)), Some(vec![]));
    assert!(dom.get_transceiver_dom_sensor_real_value(&present()).is_none());
}

#[test]
fn test_get_transceiver_dom_thresholds() {
    let dom = DomUtils;
    let sfp = Sfp { threshold_info: Ok(object(vec![("temphighalarm", text("75.0"))])), ..present() };
    assert!(dom.get_transceiver_dom_thresholds(&sfp).is_some());
    assert!(dom.get_transceiver_dom_thresholds(&present()).is_none());
}

#[test]
fn test_beautify_dom_info_dict() {
    let mut d = dict(vec![("temperature", text("0C")), ("eSNR", number("1.1"))]);
    DomDbUtils::beautify_dom_info_dict(&mut d);
    assert_eq!(d.get_str("temperature"), Some(&text("0")));
    assert_eq!(d.get_str("eSNR"), Some(&text("1.1")));
}

#[test]
fn test_beautify_dom_info_dict_units_and_na() {
    let mut d = dict(vec![
        ("temperature", text("22.0C")),
        ("voltage", text("3.3Volts")),
        ("rx1power", text("-1.2dBm")),
        ("tx8power", text("N/A")),
        ("tx1bias", text("7.5mA")),
    ]);
    DomDbUtils::beautify_dom_info_dict(&mut d);
    assert_eq!(d.get_str("temperature"), Some(&text("22.0")));
    assert_eq!(d.get_str("voltage"), Some(&text("3.3")));
    assert_eq!(d.get_str("rx1power"), Some(&text("-1.2")));
    assert_eq!(d.get_str("tx1bias"), Some(&text("7.5")));
    assert_eq!(d.get_str("tx8power"), Some(&text("N/A")));
}

#[test]
fn other_names_keep_what_looks_like_a_unit() {
    let mut d = dict(vec![("rx9power", text("1dBm")), ("rx0bias", text("1mA")), ("laser", text("4C"))]);
    DomDbUtils::beautify_dom_info_dict(&mut d);
    assert_eq!(d.get_str("rx9power"), Some(&text("1dBm")));
    assert_eq!(d.get_str("rx0bias"), Some(&text("1mA")));
    assert_eq!(d.get_str("laser"), Some(&text("4C")));
}

#[test]
fn test_post_port_dom_sensor_info_to_db() {
    let lport = "Ethernet0";
    let pm = mapping_with(&[(lport, 0)]);
    let tbl = 0;
    let mut db = Db::new();
    let dom = DomDbUtils;

    dom.post_port_dom_sensor_info_to_db(false, lport, &pm, &mut db, tbl, &hal(Sfp::empty_slot()), &mut none(), NOW);
    assert_eq!(db.get_size(tbl), 0);

    let h = hal(Sfp { dom_real_value: Ok(dom_sensor_values()), ..present() });
    dom.post_port_dom_sensor_info_to_db(true, lport, &pm, &mut db, tbl, &h, &mut none(), NOW);
    assert_eq!(db.get_size(tbl), 0);

    let empty = hal(Sfp { dom_real_value: Ok(object(vec![])), ..present() });
    dom.post_port_dom_sensor_info_to_db(false, lport, &pm, &mut db, tbl, &empty, &mut none(), NOW);
    assert_eq!(db.get_size(tbl), 0);

    let mut cache = none();
    dom.post_port_dom_sensor_info_to_db(false, lport, &pm, &mut db, tbl, &h, &mut cache, NOW);
    assert_eq!(fields_of(&db, tbl, lport), 27);
    assert!(cache.get(&0).is_some());

    let unread = hal(present());
    dom.post_port_dom_sensor_info_to_db(false, lport, &pm, &mut db, tbl, &unread, &mut cache, NOW);
    assert_eq!(fields_of(&db, tbl, lport), 27);

    dom.post_port_dom_sensor_info_to_db(false, "Ethernet999", &pm, &mut db, tbl, &h, &mut none(), NOW);
    assert!(db.get(tbl, "Ethernet999").is_none());
}

#[test]
fn test_post_port_dom_temperature_info_to_db() {
    let lport = "Ethernet0";
    let pm = mapping_with(&[(lport, 0)]);
    let tbl = 0;
    let mut db = Db::new();
    let dom = DomDbUtils;

    dom.post_port_dom_temperature_info_to_db(
        false, lport, &pm, &mut db, tbl, &hal(Sfp::empty_slot()), &mut none(), NOW,
    );
    assert_eq!(db.get_size(tbl), 0);

    let h = hal(Sfp { temperature: Ok(text("68.75")), ..present() });
    let mut cache = none();
    dom.post_port_dom_temperature_info_to_db(false, lport, &pm, &mut db, tbl, &h, &mut cache, NOW);
    assert_eq!(fields_of(&db, tbl, lport), 2);
    assert!(cache.get(&0).is_some());
    assert_eq!(db.hget(tbl, lport, "last_update_time").as_deref(), Some("Fri Jan 01 00:00:00 2021"));
}

#[test]
fn test_post_port_dom_thresholds_to_db() {
    let lport = "Ethernet0";
    let pm = mapping_with(&[(lport, 0)]);
    let tbl = 0;
    let mut db = Db::new();
    let dom = DomDbUtils;

    let thresholds = object(vec![
        ("temphighalarm", text("75.0")),
        ("templowalarm", text("-5.0")),
        ("temphighwarning", text("72.0")),
        ("templowwarning", text("-2.0")),
        ("vcchighalarm", text("3.63")),
        ("vcclowalarm", text("2.97")),
        ("vcchighwarning", text("3.465")),
        ("vcclowwarning", text("3.135")),
        ("rxpowerhighalarm", text("6.2")),
        ("rxpowerlowalarm", text("-11.198")),
        ("rxpowerhighwarning", text("4.2")),
        ("rxpowerlowwarning", text("-9.201")),
    ]);
    let h = hal(Sfp { threshold_info: Ok(thresholds), ..present() });
    let mut cache = none();
    dom.post_port_dom_thresholds_to_db(false, lport, &pm, &mut db, tbl, &h, &mut cache, NOW);
    assert_eq!(fields_of(&db, tbl, lport), 13);

    let unread = hal(present());
    dom.post_port_dom_thresholds_to_db(false, lport, &pm, &mut db, tbl, &unread, &mut cache, NOW);
    assert_eq!(fields_of(&db, tbl, lport), 13);
}

#[test]
fn test_get_transceiver_dom_flags() {
    let dom = DomUtils;
    let sfp = Sfp { dom_flags: Ok(object(vec![("tempHAlarm", Value::Bool(true))])), ..present() };
    assert_eq!(
        entries(dom.get_transceiver_dom_flags(&sfp)),
        Some(vec![("tempHAlarm".to_string(), Value::Bool(true))])
    );
    let empty = Sfp { dom_flags: Ok(object(vec![])), ..present() };
    assert_eq!(entries(dom.get_transceiver_dom_flags(&empty)), Some(vec![]));
    assert!(dom.get_transceiver_dom_flags(&present()).is_none());
}

const GROUP: [&str; 8] = [
    "tempHAlarm", "tempHWarn", "tempLAlarm", "tempLWarn", "vccHAlarm", "vccHWarn", "vccLAlarm", "vccLWarn",
];

fn group_flags(raised: &[&str]) -> Vec<(&'static str, Value)> {
    GROUP.iter().map(|k| (*k, Value::Bool(raised.contains(k)))).collect()
}

#[test]
fn test_get_transceiver_dom_flags_temp_vcc_group_passthrough() {
    let dom = DomUtils;
    for raised in [vec![], vec!["tempHAlarm", "vccHAlarm"]] {
        let sfp = Sfp { dom_flags: Ok(object(group_flags(&raised))), ..present() };
        let got = entries(dom.get_transceiver_dom_flags(&sfp)).unwrap();
        let expected: Vec<(String, Value)> =
            group_flags(&raised).into_iter().map(|(k, v)| (k.to_string(), v)).collect();
        assert_eq!(got, expected);
    }
}

#[test]
fn test_post_port_dom_flags_to_db() {
    let lport = "Ethernet0";
    let pm = mapping_with(&[(lport, 0)]);
    let mut db = Db::new();
    let dom = DomDbUtils;
    let post = |db: &mut Db, stop: bool, port: &str, h: &Hal, value: usize| {
        dom.post_port_dom_flags_to_db(stop, port, &pm, db, h, value, COUNT, SET, CLEAR, &mut none(), NOW);
    };

    post(&mut db, false, lport, &hal(Sfp::empty_slot()), VALUE);
    assert_eq!(db.get_size(VALUE), 0);

    let flag = |on: bool| {
        hal(Sfp { dom_flags: Ok(object(vec![("tempHAlarm", Value::Bool(on))])), ..present() })
    };
    post(&mut db, false, lport, &flag(false), VALUE);
    assert_eq!(db.hget(VALUE, lport, "tempHAlarm").as_deref(), Some("False"));
    assert!(db.hget(VALUE, lport, "last_update_time").is_some());
    assert_eq!(db.hget(COUNT, lport, "tempHAlarm").as_deref(), Some("0"));
    assert_eq!(db.hget(SET, lport, "tempHAlarm").as_deref(), Some("never"));
    assert_eq!(db.hget(CLEAR, lport, "tempHAlarm").as_deref(), Some("never"));

    post(&mut db, false, lport, &flag(false), VALUE);
    assert_eq!(db.hget(COUNT, lport, "tempHAlarm").as_deref(), Some("0"));

    post(&mut db, false, lport, &flag(true), VALUE);
    assert_eq!(db.hget(VALUE, lport, "tempHAlarm").as_deref(), Some("True"));
    assert_eq!(db.hget(COUNT, lport, "tempHAlarm").as_deref(), Some("1"));
    assert_ne!(db.hget(SET, lport, "tempHAlarm").as_deref(), Some("never"));

    post(&mut db, false, lport, &flag(false), VALUE);
    assert_eq!(db.hget(COUNT, lport, "tempHAlarm").as_deref(), Some("2"));
    assert_ne!(db.hget(CLEAR, lport, "tempHAlarm").as_deref(), Some("never"));

    let value2 = 9;
    post(&mut db, true, lport, &flag(true), value2);
    assert_eq!(db.get_size(value2), 0);

    post(&mut db, false, "Ethernet999", &flag(true), VALUE);
    assert!(db.get(VALUE, "Ethernet999").is_none());
}

#[test]
fn flags_read_before_in_the_pass_leave_the_metadata_alone() {
    let pm = mapping_with(&[("Ethernet0", 0), ("Ethernet1", 0)]);
    let mut db = Db::new();
    let mut cache = none();
    let h = hal(Sfp { dom_flags: Ok(object(vec![("tempHAlarm", Value::Bool(true))])), ..present() });
    for port in ["Ethernet0", "Ethernet1"] {
        DomDbUtils
            .post_port_dom_flags_to_db(false, port, &pm, &mut db, &h, VALUE, COUNT, SET, CLEAR, &mut cache, NOW);
    }
    assert_eq!(db.hget(VALUE, "Ethernet1", "tempHAlarm").as_deref(), Some("True"));
    assert!(db.has_row(COUNT, "Ethernet0"));
    assert!(!db.has_row(COUNT, "Ethernet1"));
}

#[test]
fn a_failed_read_is_remembered_for_values_and_not_for_flags() {
    let pm = mapping_with(&[("Ethernet0", 0)]);
    let mut db = Db::new();
    let mut values = none();
    let mut flags = none();
    let h = hal(present());
    DbUtils.post_diagnostic_values_to_db(
        false, "Ethernet0", &pm, &mut db, VALUE, &h, Diagnostic::DomSensor, &mut values, Beautifier::Dom, NOW,
    );
    DomDbUtils
        .post_port_dom_flags_to_db(false, "Ethernet0", &pm, &mut db, &h, VALUE, COUNT, SET, CLEAR, &mut flags, NOW);
    assert!(values.contains_key(&0));
    assert!(!flags.contains_key(&0));
    assert_eq!(db.get_size(VALUE), 0);
}

#[test]
fn test_post_skips_when_asic_index_none() {
    let pm = PortMapping::new();
    let mut db = Db::new();
    let h = hal(Sfp { dom_real_value: Ok(dom_sensor_values()), ..present() });
    DomDbUtils.post_port_dom_sensor_info_to_db(false, "Ethernet0", &pm, &mut db, 0, &h, &mut none(), NOW);
    assert_eq!(db.get_size(0), 0);
}

#[test]
fn test_post_port_transceiver_hw_status_to_db() {
    let lport = "Ethernet0";
    let pm = mapping_with(&[(lport, 0)]);
    let mut db = Db::new();
    let status = StatusDbUtils;

    let h = hal(Sfp {
        status: Ok(object(vec![("status", text("1")), ("cmis_state", text("READY")), ("error", number("0"))])),
        ..present()
    });
    status.post_port_transceiver_hw_status_to_db(false, lport, &pm, &mut db, 0, &h, &mut none(), NOW);
    assert_eq!(db.hget(0, lport, "status").as_deref(), Some("1"));
    assert_eq!(db.hget(0, lport, "cmis_state").as_deref(), Some("READY"));
    assert_eq!(db.hget(0, lport, "error").as_deref(), Some("0"));
    assert!(db.hget(0, lport, "last_update_time").is_some());

    status.post_port_transceiver_hw_status_to_db(
        false, lport, &pm, &mut db, 1, &hal(Sfp::empty_slot()), &mut none(), NOW,
    );
    assert_eq!(db.get_size(1), 0);

    status.post_port_transceiver_hw_status_to_db(false, "Ethernet999", &pm, &mut db, 2, &h, &mut none(), NOW);
    assert_eq!(db.get_size(2), 0);
}

#[test]
fn test_get_transceiver_status_flags() {
    let status = StatusUtils;
    let sfp = Sfp { status_flags: Ok(object(vec![("tx_fault", Value::Bool(true))])), ..present() };
    assert_eq!(
        entries(status.get_transceiver_status_flags(&sfp)),
        Some(vec![("tx_fault".to_string(), Value::Bool(true))])
    );
    let empty = Sfp { status_flags: Ok(object(vec![])), ..present() };
    assert_eq!(entries(status.get_transceiver_status_flags(&empty)), Some(vec![]));
    assert!(status.get_transceiver_status_flags(&present()).is_none());
}

#[test]
fn test_post_port_transceiver_hw_status_flags_to_db() {
    let lport = "Ethernet0";
    let pm = mapping_with(&[(lport, 0)]);
    let mut db = Db::new();
    let status = StatusDbUtils;
    let post = |db: &mut Db, port: &str, h: &Hal| {
        status.post_port_transceiver_hw_status_flags_to_db(
            false, port, &pm, db, h, VALUE, COUNT, SET, CLEAR, &mut none(), NOW,
        );
    };
    let fault = |on: bool| {
        hal(Sfp { status_flags: Ok(object(vec![("tx_fault", Value::Bool(on))])), ..present() })
    };

    post(&mut db, lport, &fault(false));
    assert_eq!(db.hget(VALUE, lport, "tx_fault").as_deref(), Some("False"));
    assert!(db.hget(VALUE, lport, "last_update_time").is_some());
    assert_eq!(db.hget(COUNT, lport, "tx_fault").as_deref(), Some("0"));
    assert_eq!(db.hget(SET, lport, "tx_fault").as_deref(), Some("never"));

    post(&mut db, lport, &fault(false));
    assert_eq!(db.hget(COUNT, lport, "tx_fault").as_deref(), Some("0"));

    post(&mut db, lport, &fault(true));
    assert_eq!(db.hget(VALUE, lport, "tx_fault").as_deref(), Some("True"));
    assert_eq!(db.hget(COUNT, lport, "tx_fault").as_deref(), Some("1"));
    assert_ne!(db.hget(SET, lport, "tx_fault").as_deref(), Some("never"));

    post(&mut db, "Ethernet999", &fault(true));
    assert!(db.get(VALUE, "Ethernet999").is_none());
}

#[test]
fn test_get_transceiver_status() {
    let status = StatusUtils;
    let sfp = Sfp {
        status: Ok(object(vec![
            ("module_state", text("ModuleLowPwr")),
            ("DP1State", text("DataPathDeactivated")),
        ])),
        ..present()
    };
    let got = entries(status.get_transceiver_status(&sfp)).expect("Some(dict)");
    assert!(got.contains(&("module_state".to_string(), text("ModuleLowPwr"))));

    let empty = Sfp { status: Ok(object(vec![])), ..present() };
    assert_eq!(entries(status.get_transceiver_status(&empty)), Some(vec![]));
}

fn tables(first: usize) -> VdmTables {
    VdmTables { halarm: first, lalarm: first + 1, hwarn: first + 2, lwarn: first + 3 }
}

fn flag_tables() -> VdmFlagTables {
    VdmFlagTables { flag: tables(10), change_count: tables(20), set_time: tables(30), clear_time: tables(40) }
}

#[test]
fn test_post_port_vdm_real_values_from_dict_to_db() {
    let pm = mapping_with(&[("Ethernet0", 0)]);
    let mut db = Db::new();
    let merged = dict(vec![("laser_temperature_media1", number("45.5")), ("esnr_media_input1", number("30"))]);

    VdmDbUtils::new()
        .post_port_vdm_real_values_from_dict_to_db(false, "Ethernet0", &pm, &mut db, 0, &hal(present()), merged, NOW);

    assert!(db.get(0, "Ethernet0").is_some());
    assert_eq!(db.hget(0, "Ethernet0", "laser_temperature_media1").as_deref(), Some("45.5"));
    assert_eq!(db.hget(0, "Ethernet0", "esnr_media_input1").as_deref(), Some("30"));
    assert!(db.hget(0, "Ethernet0", "last_update_time").is_some());
}

#[test]
fn test_post_port_vdm_real_values_empty_dict_noop() {
    let pm = mapping_with(&[("Ethernet0", 0)]);
    let mut db = Db::new();
    VdmDbUtils::new().post_port_vdm_real_values_from_dict_to_db(
        false, "Ethernet0", &pm, &mut db, 0, &hal(present()), OrdMap::new(), NOW,
    );
    assert!(db.get(0, "Ethernet0").is_none());
}

#[test]
fn test_post_port_vdm_thresholds_to_db_fans_out_by_type() {
    let raw = object(vec![
        ("laser_temperature_media_halarm1", number("80.0")),
        ("laser_temperature_media_lalarm1", number("5.0")),
        ("laser_temperature_media_hwarn1", number("75.0")),
        ("laser_temperature_media_lwarn1", number("0.0")),
    ]);
    let h = hal(Sfp { vdm_thresholds: Ok(raw), ..present() });
    let pm = mapping_with(&[("Ethernet0", 0)]);
    let mut db = Db::new();

    VdmDbUtils::new().post_port_vdm_thresholds_to_db(
        false, "Ethernet0", &pm, &mut db, &h, &VdmThresholdTables { thresholds: tables(0) }, NOW,
    );

    for t in 0..4 {
        let r = db.get(t, "Ethernet0").unwrap_or_else(|| panic!("row of table {t}"));
        let names: Vec<&String> = (0..r.len()).map(|i| r.key_at(i)).collect();
        assert!(r.contains_str("laser_temperature_media1"), "{t} missing bare key, got {names:?}");
        assert!(!names.iter().any(|k| k.contains("_halarm") || k.contains("_lwarn")));
        assert!(r.contains_str("last_update_time"));
    }
    assert_eq!(
        db.hget(3, "Ethernet0", "laser_temperature_media1").as_deref(),
        Some("0.0"),
        "lwarn laser_temperature_media1 must publish the real 0.0 value, not drop/NA"
    );
}

#[test]
fn test_post_port_vdm_flags_to_db_updates_metadata() {
    let flags = |halarm: bool| {
        hal(Sfp {
            vdm_flags: Ok(object(vec![
                ("laser_temperature_media_halarm1", Value::Bool(halarm)),
                ("laser_temperature_media_lalarm1", Value::Bool(false)),
            ])),
            ..present()
        })
    };
    let pm = mapping_with(&[("Ethernet0", 0)]);
    let mut db = Db::new();
    let t = flag_tables();

    VdmDbUtils::new().post_port_vdm_flags_to_db(false, "Ethernet0", &pm, &mut db, &flags(false), &t, NOW);
    assert_eq!(db.hget(10, "Ethernet0", "laser_temperature_media1").as_deref(), Some("False"));
    assert_eq!(db.hget(30, "Ethernet0", "laser_temperature_media1").as_deref(), Some("never"));

    VdmDbUtils::new().post_port_vdm_flags_to_db(false, "Ethernet0", &pm, &mut db, &flags(true), &t, NOW);
    assert_eq!(db.hget(10, "Ethernet0", "laser_temperature_media1").as_deref(), Some("True"));
    assert_ne!(db.hget(30, "Ethernet0", "laser_temperature_media1").as_deref(), Some("never"));
    assert_eq!(db.hget(20, "Ethernet0", "laser_temperature_media1").as_deref(), Some("1"));
    assert_eq!(db.hget(21, "Ethernet0", "laser_temperature_media1").as_deref(), Some("0"));
}

#[test]
fn test_vdm_supported_and_statistic_reads() {
    let sfp = Sfp {
        vdm_supported: Ok(Value::Bool(true)),
        vdm_statistic_supported: Ok(Value::Bool(false)),
        ..present()
    };
    assert!(VdmUtils::new().is_transceiver_vdm_supported(&sfp));
    assert!(!VdmUtils::new().is_vdm_statistic_supported(&sfp));
    assert!(!VdmUtils::new().is_transceiver_vdm_supported(&present()));
}

fn done() -> Handshake {
    Handshake { action: Ok(Value::Bool(true)), polls: vec![(0, Ok(Value::Bool(true)))] }
}

#[test]
fn test_vdm_freeze_context_confirms_and_reads_statistic() {
    let sfp = Sfp {
        vdm_freeze: done(),
        vdm_unfreeze: done(),
        vdm_real_value_statistic: Ok(object(vec![("laser_temperature_media1_max", number("50.0"))])),
        ..present()
    };
    let vdm = VdmUtils::new();
    let mut asked = vec![VdmRequest::Firmware];
    let stat = vdm.with_vdm_freeze(&sfp, &mut asked, |frozen| {
        assert!(frozen, "freeze must confirm when done-bit is set");
        (vdm.get_vdm_real_values_statistic(&sfp), vec![VdmRequest::Statistic])
    });
    assert_eq!(stat.get_str("laser_temperature_media1_max"), Some(&number("50.0")));
    assert_eq!(
        asked,
        vec![VdmRequest::Firmware, VdmRequest::Freeze, VdmRequest::Statistic, VdmRequest::Release]
    );
}

#[test]
fn test_vdm_freeze_fails_when_action_false() {
    let sfp = Sfp { vdm_freeze: Handshake { action: Ok(Value::Bool(false)), polls: vec![] }, ..present() };
    let vdm = VdmUtils::new();
    let mut asked = Vec::new();
    let saw = vdm.with_vdm_freeze(&sfp, &mut asked, |frozen| (frozen, Vec::new()));
    assert!(!saw);
    assert_eq!(asked, vec![VdmRequest::Freeze, VdmRequest::Release]);
}

#[test]
fn a_handshake_is_polled_until_it_is_done_or_too_late() {
    let vdm = VdmUtils::new();
    let no = || (1, Ok(Value::Bool(false)));
    let mut h = Handshake { action: Ok(Value::Bool(true)), polls: vec![] };
    assert_eq!(vdm.handshake_step(&h, 0), HandshakeStep::Poll);
    h.polls.push(no());
    assert_eq!(vdm.handshake_step(&h, 999), HandshakeStep::Poll);
    assert_eq!(vdm.handshake_step(&h, 1000), HandshakeStep::Done(false));
    h.polls.push((999, Ok(Value::Bool(true))));
    assert_eq!(vdm.handshake_step(&h, 1000), HandshakeStep::Done(true));
    assert!(vdm.freeze_and_confirm(&Sfp { vdm_freeze: h, ..present() }));
    let late = Handshake { action: Ok(Value::Bool(true)), polls: vec![no(), (1000, Ok(Value::Bool(true)))] };
    assert!(!vdm.unfreeze_and_confirm(&Sfp { vdm_unfreeze: late, ..present() }));
    let refused = Handshake { action: Err(XcvrdError::NotImplemented), polls: vec![] };
    assert_eq!(vdm.handshake_step(&refused, 0), HandshakeStep::Done(false));
}
