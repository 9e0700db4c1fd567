use xcvrd::db::{Db, Row};
use xcvrd::error::XcvrdError;
use xcvrd::hal::{Hal, Sfp};
use xcvrd::ord_map::OrdMap;
use xcvrd::value::{Dict, Reply, Value};
use xcvrd::xcvrd::{post_port_sfp_info_to_db, pybool, DaemonXcvrd};
use xcvrd::xcvrd_utilities::port_event_helper::{PortChangeEvent, PortChangeEventType, PortMapping};

const INT_TBL: usize = 0;

fn text(s: &str) -> Value {
    Value::String(s.to_string())
}

fn number(s: &str) -> Value {
    Value::Number(s.to_string())
}

fn dict(entries: Vec<(&str, Value)>) -> Dict {
    let mut d: Dict = OrdMap::new();
    for (k, v) in entries {
        d.insert(k.to_string(), v);
    }
    d
}

fn row(fields: &[(&str, &str)]) -> Row {
    let mut r: Row = OrdMap::new();
    for (k, v) in fields {
        r.insert(k.to_string(), v.to_string());
    }
    r
}

fn present() -> Sfp {
    Sfp {
        presence: Ok(true),
        replaceable: Ok(true),
        transceiver_info: Ok(Reply::Scalar(Value::Null)),
        ..Sfp::empty_slot()
    }
}

fn with_info(entries: Vec<(&str, Value)>) -> Sfp {
    Sfp { transceiver_info: Ok(Reply::Object(dict(entries))), ..present() }
}

fn mapping_with(ports: &[(&str, usize)]) -> PortMapping {
    let mut pm = PortMapping::new();
    for (name, phys) in ports {
        pm.handle_port_change_event(&PortChangeEvent::new(name, *phys as i32, 0, PortChangeEventType::PortAdd));
    }
    pm
}

#[test]
fn pybool_matches_python_str_bool() {
    assert_eq!(pybool(true), "True");
    assert_eq!(pybool(false), "False");
}

#[test]
fn stringify_trims_trailing_nul_and_space_padding() {
    assert_eq!(xcvrd::xcvrd::stringify(&text("QSFP-DD\0\0\0")).as_deref(), Some("QSFP-DD"));
    assert_eq!(xcvrd::xcvrd::stringify(&text("Acacia  ")).as_deref(), Some("Acacia"));
    assert_eq!(xcvrd::xcvrd::stringify(&text("Baz  \0\0")).as_deref(), Some("Baz"));
    assert_eq!(xcvrd::xcvrd::stringify(&text("Ethernet0")).as_deref(), Some("Ethernet0"));
}

#[test]
fn stringify_renders_scalars_like_python_str() {
    assert_eq!(xcvrd::xcvrd::stringify(&Value::Bool(true)).as_deref(), Some("True"));
    assert_eq!(xcvrd::xcvrd::stringify(&Value::Bool(false)).as_deref(), Some("False"));
    assert_eq!(xcvrd::xcvrd::stringify(&number("42")).as_deref(), Some("42"));
    assert_eq!(xcvrd::xcvrd::stringify(&number("1.5")).as_deref(), Some("1.5"));
}

#[test]
fn stringify_skips_json_null() {
    assert!(xcvrd::xcvrd::stringify(&Value::Null).is_none());
}

#[test]
fn stringify_writes_nested_values_compactly() {
    let nested = Value::Json("{ \"b\" : [1, 2.50, null] }".to_string());
    assert_eq!(xcvrd::xcvrd::stringify(&nested).as_deref(), Some("{\"b\":[1,2.5,null]}"));
    assert_eq!(xcvrd::xcvrd::stringify(&number("1.50")).as_deref(), Some("1.50"));
    assert_eq!(xcvrd::xcvrd::stringify(&number("not a number")).as_deref(), Some("not a number"));
}

#[test]
fn stringify_keeps_inner_padding() {
    assert_eq!(xcvrd::xcvrd::stringify(&text("a\0b \0")).as_deref(), Some("a\0b"));
    assert_eq!(xcvrd::xcvrd::stringify(&text("  a\u{a0}")).as_deref(), Some("  a"));
    assert_eq!(xcvrd::xcvrd::stringify(&text("a\0 ")).as_deref(), Some("a\0"));
}

#[test]
fn test_post_port_sfp_info_to_db_no_physical_port() {
    let pm = PortMapping::new();
    let mut db = Db::new();
    let hal = Hal { sfps: vec![] };
    let rc = post_port_sfp_info_to_db("Ethernet0", &pm, &mut db, INT_TBL, &hal);
    assert!(matches!(rc, Err(XcvrdError::PhysicalPortNotExist)));
    assert_eq!(db.get_size(INT_TBL), 0);
}

#[test]
fn test_post_port_sfp_info_to_db_with_sfp_not_present() {
    let pm = mapping_with(&[("Ethernet0", 0)]);
    let mut db = Db::new();
    let hal = Hal { sfps: vec![Sfp::empty_slot()] };
    let rc = post_port_sfp_info_to_db("Ethernet0", &pm, &mut db, INT_TBL, &hal);
    assert!(rc.is_ok());
    assert_eq!(db.get_size(INT_TBL), 0);
}

#[test]
fn test_post_port_sfp_info_to_db_cmis_present() {
    let pm = mapping_with(&[("Ethernet0", 0)]);
    let mut db = Db::new();
    let sfp = with_info(vec![
        ("cmis_rev", text("5.0")),
        ("manufacturer", text("xcvr-emu\u{0}\u{0}")),
        ("model", text("EMU-100G")),
        ("cable_length", number("100.0")),
    ]);
    let hal = Hal { sfps: vec![sfp] };

    let rc = post_port_sfp_info_to_db("Ethernet0", &pm, &mut db, INT_TBL, &hal);
    assert!(rc.is_ok());
    assert_eq!(db.hget(INT_TBL, "Ethernet0", "manufacturer").as_deref(), Some("xcvr-emu"));
    assert_eq!(db.hget(INT_TBL, "Ethernet0", "cmis_rev").as_deref(), Some("5.0"));
    assert_eq!(db.hget(INT_TBL, "Ethernet0", "cable_length").as_deref(), Some("100.0"));
    assert_eq!(db.hget(INT_TBL, "Ethernet0", "is_replaceable").as_deref(), Some("True"));
}

#[test]
fn cmis_identity_leaves_out_null_fields() {
    let pm = mapping_with(&[("Ethernet0", 0)]);
    let mut db = Db::new();
    let hal = Hal { sfps: vec![with_info(vec![("cmis_rev", text("5.0")), ("serial", Value::Null)])] };
    assert!(post_port_sfp_info_to_db("Ethernet0", &pm, &mut db, INT_TBL, &hal).is_ok());
    assert_eq!(db.hget(INT_TBL, "Ethernet0", "serial"), None);
    assert_eq!(db.get(INT_TBL, "Ethernet0").map(|r| r.len()), Some(2));
}

#[test]
fn other_identity_has_the_fixed_fields() {
    let pm = mapping_with(&[("Ethernet0", 0)]);
    let mut db = Db::new();
    let sfp = Sfp {
        replaceable: Err(XcvrdError::NotImplemented),
        ..with_info(vec![("model", text("SFF")), ("extra", text("left out")), ("serial", Value::Null)])
    };
    let hal = Hal { sfps: vec![sfp] };
    assert!(post_port_sfp_info_to_db("Ethernet0", &pm, &mut db, INT_TBL, &hal).is_ok());
    let get = |f: &str| db.hget(INT_TBL, "Ethernet0", f);
    assert_eq!(db.get(INT_TBL, "Ethernet0").map(|r| r.len()), Some(18));
    for field in [
        "type",
        "vendor_rev",
        "serial",
        "manufacturer",
        "vendor_oui",
        "vendor_date",
        "connector",
        "encoding",
        "ext_identifier",
        "ext_rateselect_compliance",
        "cable_type",
        "cable_length",
        "specification_compliance",
        "nominal_bit_rate",
    ] {
        assert_eq!(get(field).as_deref(), Some(""));
    }
    assert_eq!(get("model").as_deref(), Some("SFF"));
    assert_eq!(get("application_advertisement").as_deref(), Some("N/A"));
    assert_eq!(get("dom_capability").as_deref(), Some("N/A"));
    assert_eq!(get("is_replaceable").as_deref(), Some("False"));
    assert_eq!(get("extra"), None);
}

#[test]
fn test_post_port_sfp_info_to_db_eeprom_not_ready() {
    let pm = mapping_with(&[("Ethernet0", 0)]);
    let mut db = Db::new();
    let hal = Hal { sfps: vec![present()] };

    let rc = post_port_sfp_info_to_db("Ethernet0", &pm, &mut db, INT_TBL, &hal);
    assert!(matches!(rc, Err(XcvrdError::EepromNotReady)));
    assert_eq!(db.get_size(INT_TBL), 0);
}

#[test]
fn identity_errors_name_their_cause() {
    let pm = mapping_with(&[("Ethernet0", 0), ("Ethernet4", 1), ("Ethernet8", 2)]);
    let mut db = Db::new();
    let unread = Sfp { transceiver_info: Err(XcvrdError::Bridge), ..present() };
    let unseen = Sfp { presence: Err(XcvrdError::NotImplemented), ..present() };
    let hal = Hal { sfps: vec![unread, unseen] };
    let mut post = |port: &str| post_port_sfp_info_to_db(port, &pm, &mut db, INT_TBL, &hal);
    assert_eq!(post("Ethernet0"), Err(XcvrdError::EepromNotReady));
    assert_eq!(post("Ethernet4"), Err(XcvrdError::NotImplemented));
    assert_eq!(post("Ethernet8"), Err(XcvrdError::Bridge));
}

#[test]
fn test_remove_stale_transceiver_info() {
    let cases: &[(&[bool], &[&str])] = &[
        (&[false, false], &["Ethernet0", "Ethernet4"]),
        (&[true, false], &["Ethernet4"]),
        (&[true, true], &[]),
    ];
    for (presence, expected_removed) in cases {
        let pm = mapping_with(&[("Ethernet0", 0), ("Ethernet4", 1)]);
        let mut db = Db::new();
        db.set(INT_TBL, "Ethernet0", &row(&[("manufacturer", "xcvr-emu")]));
        db.set(INT_TBL, "Ethernet4", &row(&[("manufacturer", "xcvr-emu")]));
        let sfps: Vec<Sfp> =
            presence.iter().map(|&p| if p { present() } else { Sfp::empty_slot() }).collect();
        let hal = Hal { sfps };

        let daemon = DaemonXcvrd::new(false, false);
        daemon.remove_stale_transceiver_info(&pm, &mut db, INT_TBL, &hal);

        for port in ["Ethernet0", "Ethernet4"] {
            let removed = expected_removed.contains(&port);
            assert_eq!(
                db.get(INT_TBL, port).is_none(),
                removed,
                "port {port} removed?={removed} presence={presence:?}"
            );
        }
    }
}

#[test]
fn test_remove_stale_transceiver_info_no_ports() {
    let pm = PortMapping::new();
    let mut db = Db::new();
    let hal = Hal { sfps: vec![] };
    let daemon = DaemonXcvrd::new(false, false);
    daemon.remove_stale_transceiver_info(&pm, &mut db, INT_TBL, &hal);
    assert_eq!(db.get_size(INT_TBL), 0);
}

#[test]
fn stale_rows_of_other_tables_and_unmapped_ports_stay() {
    let pm = mapping_with(&[("Ethernet0", 0)]);
    let mut db = Db::new();
    db.set(INT_TBL, "Ethernet0", &row(&[("model", "x")]));
    db.set(INT_TBL, "Ethernet9", &row(&[("model", "x")]));
    db.set(5, "Ethernet0", &row(&[("model", "x")]));
    DaemonXcvrd::new(true, false).remove_stale_transceiver_info(&pm, &mut db, INT_TBL, &Hal { sfps: vec![] });
    assert!(!db.has_row(INT_TBL, "Ethernet0"));
    assert!(db.has_row(INT_TBL, "Ethernet9"));
    assert!(db.has_row(5, "Ethernet0"));
}
