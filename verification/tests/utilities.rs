use xcvrd::db::{Db, Row};
use xcvrd::error::XcvrdError;
use xcvrd::hal::Sfp;
use xcvrd::ord_map::{IdxMap, OrdMap};
use xcvrd::value::Value;
use xcvrd::xcvrd::sfp_state_update::SfpStateUpdateTask;
use xcvrd::xcvrd_utilities::common::{NOT_IMPLEMENTED_ERROR, 
    del_port_sfp_dom_info_from_db, get_cmis_state_from_state_db, get_physical_port_name, get_physical_port_name_dict,
    update_port_transceiver_status_table_sw, wrapper_get_presence, CmisState,
};
use xcvrd::xcvrd_utilities::natural::{natural_order, sort_names, Order};
use xcvrd::xcvrd_utilities::port_event_helper::{
    build_port_mapping_from_rows, get_port_mapping, is_front_panel_port, poll_config_port_changes, PortChangeEvent,
    PortChangeEventType, PortMapping,
};
use xcvrd::xcvrd_utilities::sfp_status_helper::{
    detect_port_in_error_status, fetch_generic_error_description, has_vendor_specific_error,
    is_error_block_eeprom_reading, join_bars, SFP_ERROR_BIT_TO_DESCRIPTION, SFP_ERROR_DESCRIPTION_BLOCKING, SFP_STATUS_INSERTED,
    SFP_STATUS_REMOVED,
};
use xcvrd::xcvrd_utilities::utils::XcvrdUtils;
use xcvrd::xcvrd_utilities::xcvr_table_helper::{
    vdm_flag_change_count_table_name, vdm_flag_clear_time_table_name, vdm_flag_set_time_table_name,
    vdm_flag_table_name, vdm_threshold_table_name, VdmType, XcvrTableHelper, VDM_THRESHOLD_TYPES,
};

fn row(fields: &[(&str, &str)]) -> Row {
    let mut r: Row = OrdMap::new();
    for (k, v) in fields {
        r.insert(k.to_string(), v.to_string());
    }
    r
}

fn present() -> Sfp {
    Sfp { presence: Ok(true), ..Sfp::empty_slot() }
}

#[test]
fn test_update_port_transceiver_status_table_sw() {
    let tbl = 0;
    let mut db = Db::new();
    update_port_transceiver_status_table_sw("Ethernet0", &mut db, tbl, SFP_STATUS_INSERTED, "N/A");
    assert_eq!(db.hget(tbl, "Ethernet0", "status").as_deref(), Some("1"));
    assert_eq!(db.hget(tbl, "Ethernet0", "error").as_deref(), Some("N/A"));

    update_port_transceiver_status_table_sw("Ethernet0", &mut db, tbl, SFP_STATUS_REMOVED, "N/A");
    assert_eq!(db.hget(tbl, "Ethernet0", "status").as_deref(), Some("0"));
}

#[test]
fn status_write_keeps_bring_up_state() {
    let mut db = Db::new();
    db.hset(0, "Ethernet0", "cmis_state", "DP_INIT");
    update_port_transceiver_status_table_sw("Ethernet0", &mut db, 0, SFP_STATUS_INSERTED, "N/A");
    assert_eq!(get_cmis_state_from_state_db("Ethernet0", &db, 0), "DP_INIT");
}

#[test]
fn test_get_cmis_state_from_state_db() {
    let tbl = 0;
    let mut db = Db::new();
    assert_eq!(get_cmis_state_from_state_db("Ethernet0", &db, tbl), "UNKNOWN");
    db.hset(tbl, "Ethernet0", "cmis_state", "READY");
    assert_eq!(get_cmis_state_from_state_db("Ethernet0", &db, tbl), "READY");
}

#[test]
fn test_get_physical_port_name() {
    assert_eq!(get_physical_port_name("Ethernet0", 1, false), "Ethernet0");
    assert_eq!(get_physical_port_name("Ethernet0", 2, true), "Ethernet0:2 (ganged)");
}

#[test]
fn physical_port_name_dict_has_one_entry() {
    let mut pm = PortMapping::new();
    pm.handle_port_change_event(&PortChangeEvent::new("Ethernet0", 7, 0, PortChangeEventType::PortAdd));
    let d = get_physical_port_name_dict("Ethernet0", &pm);
    assert_eq!(d.len(), 1);
    assert_eq!(d.get(&7).map(|s| s.as_str()), Some("Ethernet0"));
    assert!(get_physical_port_name_dict("Ethernet4", &pm).is_empty());
}

#[test]
fn test_del_port_sfp_dom_info_from_db() {
    let mut pm = PortMapping::new();
    pm.handle_port_change_event(&PortChangeEvent::new("Ethernet0", 0, 0, PortChangeEventType::PortAdd));
    let (intf, dom) = (0, 1);
    let mut db = Db::new();
    db.set(intf, "Ethernet0", &row(&[("manufacturer", "xcvr-emu")]));
    db.set(dom, "Ethernet0", &row(&[("temperature", "22.0")]));

    del_port_sfp_dom_info_from_db("Ethernet0", &pm, &mut db, &vec![intf, dom]);
    assert!(db.get(intf, "Ethernet0").is_none());
    assert!(db.get(dom, "Ethernet0").is_none());
}

#[test]
fn deleting_rows_of_an_unmapped_port_deletes_none() {
    let mut db = Db::new();
    db.set(0, "Ethernet0", &row(&[("manufacturer", "xcvr-emu")]));
    del_port_sfp_dom_info_from_db("Ethernet0", &PortMapping::new(), &mut db, &vec![0]);
    assert!(db.get(0, "Ethernet0").is_some());
    assert_eq!(db.get_size(0), 1);
    assert_eq!(db.get_size(1), 0);
}

#[test]
fn bring_up_states_read_back() {
    for (state, name, ended) in [
        (CmisState::Unknown, "UNKNOWN", false),
        (CmisState::Inserted, "INSERTED", false),
        (CmisState::DpPreInitCheck, "DP_PRE_INIT_CHECK", false),
        (CmisState::DpDeinit, "DP_DEINIT", false),
        (CmisState::ApConfigured, "AP_CONFIGURED", false),
        (CmisState::DpInit, "DP_INIT", false),
        (CmisState::DpTxOn, "DP_TXON", false),
        (CmisState::DpActivation, "DP_ACTIVATION", false),
        (CmisState::Ready, "READY", true),
        (CmisState::Removed, "REMOVED", true),
        (CmisState::Failed, "FAILED", true),
    ] {
        assert_eq!(state.as_str(), name);
        assert_eq!(CmisState::from_db_str(name), state);
        assert_eq!(state.is_terminal(), ended);
    }
    assert_eq!(CmisState::from_db_str("something else"), CmisState::Unknown);
}

#[test]
fn presence_passes_through() {
    assert_eq!(wrapper_get_presence(&present()), Ok(true));
    assert_eq!(wrapper_get_presence(&Sfp::empty_slot()), Ok(false));
    let broken = Sfp { presence: Err(XcvrdError::Bridge), ..Sfp::empty_slot() };
    assert_eq!(wrapper_get_presence(&broken), Err(XcvrdError::Bridge));
}

#[test]
fn test_get_port_mapping_filters_and_builds_maps() {
    let rows = vec![
        ("Ethernet0".to_string(), 1, None),
        ("Ethernet4".to_string(), 2, None),
        ("Ethernet-IB0".to_string(), 3, None),
        ("Ethernet8".to_string(), 4, Some("Dpc".to_string())),
    ];
    let m = build_port_mapping_from_rows(0, &rows);

    assert!(m.logical_port_list.contains(&"Ethernet0".to_string()));
    assert_eq!(m.get_asic_id_for_logical_port("Ethernet0"), Some(0));
    assert_eq!(m.get_physical_to_logical(1), Some(vec!["Ethernet0".to_string()]));
    assert_eq!(m.get_logical_to_physical("Ethernet0"), Some(vec![1]));

    assert!(m.logical_port_list.contains(&"Ethernet4".to_string()));
    assert_eq!(m.get_physical_to_logical(2), Some(vec!["Ethernet4".to_string()]));

    assert!(!m.logical_port_list.contains(&"Ethernet-IB0".to_string()));
    assert_eq!(m.get_asic_id_for_logical_port("Ethernet-IB0"), None);
    assert_eq!(m.get_physical_to_logical(3), None);
    assert!(!m.logical_port_list.contains(&"Ethernet8".to_string()));
    assert_eq!(m.get_physical_to_logical(4), None);
}

#[test]
fn test_is_front_panel_port() {
    assert!(is_front_panel_port("Ethernet0", None));
    assert!(is_front_panel_port("Ethernet100", Some("Ext")));
    assert!(!is_front_panel_port("Ethernet-IB0", None));
    assert!(!is_front_panel_port("Ethernet-BP0", None));
    assert!(!is_front_panel_port("Ethernet8", Some("Dpc")));
    assert!(!is_front_panel_port("Ethernet0.10", None));
    assert!(!is_front_panel_port("PortChannel0", None));
}

#[test]
fn internal_roles_and_recirculation_ports_do_not_face_the_panel() {
    for role in ["Int", "Inb", "Rec", "Dpc"] {
        assert!(!is_front_panel_port("Ethernet0", Some(role)));
    }
    assert!(!is_front_panel_port("Ethernet-Rec0", None));
}

#[test]
fn test_handle_port_change_event_add_remove() {
    let mut m = PortMapping::new();
    m.handle_port_change_event(&PortChangeEvent::new("Ethernet0", 0, 0, PortChangeEventType::PortAdd));
    assert!(m.is_logical_port("Ethernet0"));
    assert_eq!(m.get_logical_to_physical("Ethernet0"), Some(vec![0]));
    assert_eq!(m.get_physical_to_logical(0), Some(vec!["Ethernet0".to_string()]));

    m.handle_port_change_event(&PortChangeEvent::new("Ethernet0", 0, 0, PortChangeEventType::PortRemove));
    assert!(!m.is_logical_port("Ethernet0"));
    assert_eq!(m.get_physical_to_logical(0), None);
    assert!(m.logical_port_list.is_empty());
}

#[test]
fn removal_undoes_addition() {
    let mut m = PortMapping::new();
    for name in ["Ethernet2", "Ethernet10"] {
        m.handle_port_change_event(&PortChangeEvent::new(name, 0, 0, PortChangeEventType::PortAdd));
    }
    m.handle_port_change_event(&PortChangeEvent::new("Ethernet5", 0, 1, PortChangeEventType::PortAdd));
    assert_eq!(
        m.get_physical_to_logical(0),
        Some(vec!["Ethernet2".to_string(), "Ethernet5".to_string(), "Ethernet10".to_string()])
    );
    m.handle_port_change_event(&PortChangeEvent::new("Ethernet5", 0, 1, PortChangeEventType::PortRemove));
    assert_eq!(
        m.get_physical_to_logical(0),
        Some(vec!["Ethernet2".to_string(), "Ethernet10".to_string()])
    );
    assert_eq!(m.logical_port_list, vec!["Ethernet2".to_string(), "Ethernet10".to_string()]);
    assert_eq!(m.get_asic_id_for_logical_port("Ethernet5"), None);
}

#[test]
fn set_and_delete_events_leave_the_mapping_alone() {
    let mut m = PortMapping::new();
    m.handle_port_change_event(&PortChangeEvent::new("Ethernet0", 0, 0, PortChangeEventType::PortAdd));
    m.handle_port_change_event(&PortChangeEvent::new("Ethernet0", 3, 0, PortChangeEventType::PortSet));
    m.handle_port_change_event(&PortChangeEvent::new("Ethernet0", 0, 0, PortChangeEventType::PortDel));
    assert_eq!(m.get_logical_to_physical("Ethernet0"), Some(vec![0]));
}

#[test]
fn test_logical_port_name_to_physical_port_list() {
    let mut m = PortMapping::new();
    m.handle_port_change_event(&PortChangeEvent::new("Ethernet0", 5, 0, PortChangeEventType::PortAdd));
    assert_eq!(m.logical_port_name_to_physical_port_list("3"), Some(vec![3]));
    assert_eq!(m.logical_port_name_to_physical_port_list("Ethernet0"), Some(vec![5]));
    assert_eq!(m.logical_port_name_to_physical_port_list("Ethernet999"), None);
}

#[test]
fn test_physical_to_logical_natural_sort() {
    let mut m = PortMapping::new();
    m.handle_port_change_event(&PortChangeEvent::new("Ethernet10", 0, 0, PortChangeEventType::PortAdd));
    m.handle_port_change_event(&PortChangeEvent::new("Ethernet2", 0, 0, PortChangeEventType::PortAdd));
    assert_eq!(
        m.get_physical_to_logical(0),
        Some(vec!["Ethernet2".to_string(), "Ethernet10".to_string()])
    );
}

#[test]
fn natural_order_compares_numbers() {
    assert_eq!(natural_order("a2", "a10"), Order::Less);
    assert_eq!(natural_order("a10", "a2"), Order::Greater);
    assert_eq!(natural_order("a02", "a2"), Order::Equal);
    assert_eq!(natural_order("a", "a1"), Order::Less);
    assert_eq!(natural_order("", ""), Order::Equal);
    assert_eq!(natural_order("a99999999999999999999", "a1"), Order::Greater);
    assert_eq!(natural_order("ethernet18446744073709551616", "ethernet1"), Order::Greater);
    assert_eq!(natural_order("a18446744073709551616", "a0018446744073709551617"), Order::Less);
    assert_eq!(natural_order("a00018446744073709551616b", "a18446744073709551616b"), Order::Equal);
    assert_eq!(natural_order("a18446744073709551615", "a18446744073709551614"), Order::Greater);
}

#[test]
fn names_sort_whatever_their_case_and_keep_equal_ones_in_place() {
    let names = vec!["ETHERNET4".to_string(), "b1".to_string(), "Ethernet04".to_string(), "ethernet1".to_string()];
    assert_eq!(sort_names(&names), vec!["b1", "ethernet1", "ETHERNET4", "Ethernet04"]);
}

fn config(ports: &[(&str, Option<&str>)]) -> Db {
    let mut db = Db::new();
    for (name, role) in ports {
        db.hset(0, name, "admin_status", "up");
        if let Some(r) = role {
            db.hset(0, name, "role", r);
        }
    }
    db
}

#[test]
fn slots_are_mapped_by_their_configured_names() {
    let db = config(&[("Ethernet0", None), ("Ethernet4", Some("Dpc")), ("Ethernet8", Some("Ext")), ("Ethernet12", None)]);
    let m = get_port_mapping(&db, 0, 3);
    assert_eq!(m.logical_port_list, vec!["Ethernet0".to_string(), "Ethernet8".to_string()]);
    assert_eq!(m.get_logical_to_physical("Ethernet8"), Some(vec![2]));
    assert_eq!(m.get_asic_id_for_logical_port("Ethernet8"), Some(0));
}

#[test]
fn configured_changes_are_reported_once() {
    let db = config(&[("Ethernet0", None), ("Ethernet8", None)]);
    let mut m = PortMapping::new();
    m.handle_port_change_event(&PortChangeEvent::new("Ethernet4", 1, 0, PortChangeEventType::PortAdd));
    m.handle_port_change_event(&PortChangeEvent::new("Ethernet8", 2, 0, PortChangeEventType::PortAdd));
    let events = poll_config_port_changes(&db, 0, 3, &m);
    assert_eq!(events.len(), 2);
    assert_eq!(events[0].port_name, "Ethernet0");
    assert_eq!(events[0].port_index, 0);
    assert_eq!(events[0].event_type, PortChangeEventType::PortAdd);
    assert_eq!(events[1].port_name, "Ethernet4");
    assert_eq!(events[1].port_index, 1);
    assert_eq!(events[1].event_type, PortChangeEventType::PortRemove);
    for e in &events {
        m.handle_port_change_event(e);
    }
    assert!(poll_config_port_changes(&db, 0, 3, &m).is_empty());
    assert_eq!(m.logical_port_list, vec!["Ethernet8".to_string(), "Ethernet0".to_string()]);
}

#[test]
fn a_removed_port_is_reported_with_the_slot_it_was_mapped_to() {
    let db = Db::new();
    let mut m = PortMapping::new();
    m.handle_port_change_event(&PortChangeEvent::new("Ethernet4", 9, 0, PortChangeEventType::PortAdd));
    let events = poll_config_port_changes(&db, 0, 3, &m);
    assert_eq!(events.len(), 1);
    assert_eq!(events[0].port_index, 9);
}

#[test]
fn test_detect_port_in_error_status() {
    let tbl = 0;
    let mut db = Db::new();
    assert!(!detect_port_in_error_status("Ethernet0", &db, tbl));

    db.set(tbl, "Ethernet0", &row(&[("status", "1"), ("error", "N/A")]));
    assert!(!detect_port_in_error_status("Ethernet0", &db, tbl));

    db.hset(tbl, "Ethernet0", "error", SFP_ERROR_DESCRIPTION_BLOCKING);
    assert!(detect_port_in_error_status("Ethernet0", &db, tbl));
}

#[test]
fn test_is_error_sfp_status() {
    for error_value in [7u32, 11, 19, 35] {
        assert!(is_error_block_eeprom_reading(error_value));
    }
    assert!(!is_error_block_eeprom_reading(SFP_STATUS_INSERTED.parse().unwrap()));
    assert!(!is_error_block_eeprom_reading(SFP_STATUS_REMOVED.parse().unwrap()));
}

#[test]
fn only_the_blocking_bit_is_taken_for_blocking() {
    let mut db = Db::new();
    for (i, (bit, text)) in SFP_ERROR_BIT_TO_DESCRIPTION.iter().enumerate() {
        assert_eq!(*bit, 2u32 << i);
        assert_eq!(fetch_generic_error_description(*bit), vec![text.to_string()]);
    }
    for bits in 0..0x100u32 {
        db.hset(0, "Ethernet0", "error", &join_bars(&fetch_generic_error_description(bits)));
        assert_eq!(detect_port_in_error_status("Ethernet0", &db, 0), is_error_block_eeprom_reading(bits));
    }
}

#[test]
fn the_kinds_of_thresholds_have_their_names() {
    let kinds = [VdmType::Halarm, VdmType::Lalarm, VdmType::Hwarn, VdmType::Lwarn];
    assert_eq!(kinds.map(|k| k.as_str()), VDM_THRESHOLD_TYPES);
    assert_eq!(VDM_THRESHOLD_TYPES, ["halarm", "lalarm", "hwarn", "lwarn"]);
    assert_eq!(NOT_IMPLEMENTED_ERROR, 3);
    assert_eq!(SfpStateUpdateTask::RETRY_PERIOD_SEC, 60);
}

#[test]
fn test_fetch_generic_error_description() {
    assert!(fetch_generic_error_description(0x01).is_empty());

    assert_eq!(
        fetch_generic_error_description(0x01 | 0x02 | 0x04),
        vec!["Blocking EEPROM from being read".to_string(), "Power budget exceeded".to_string()]
    );

    assert_eq!(
        fetch_generic_error_description(0x08),
        vec!["Bus stuck (I2C data or clock shorted)".to_string()]
    );

    assert_eq!(fetch_generic_error_description(0x01 | 0x40), vec!["High temperature".to_string()]);

    assert!(fetch_generic_error_description(0x00010000).is_empty());
    assert!(has_vendor_specific_error(0x00010000));
    assert!(!has_vendor_specific_error(0x02));
}

#[test]
fn every_generic_bit_has_its_description() {
    assert_eq!(
        fetch_generic_error_description(0xffff_ffff),
        vec![
            "Blocking EEPROM from being read",
            "Power budget exceeded",
            "Bus stuck (I2C data or clock shorted)",
            "Bad or unsupported EEPROM",
            "Unsupported cable",
            "High temperature",
            "Bad cable (module/cable is shorted)",
        ]
    );
}

#[test]
fn bars_stand_between_parts() {
    assert_eq!(join_bars(&vec![]), "");
    assert_eq!(join_bars(&vec!["a".to_string()]), "a");
    assert_eq!(join_bars(&vec!["a".to_string(), "".to_string(), "b".to_string()]), "a||b");
}

#[test]
fn test_get_transceiver_presence() {
    let there = present();
    let absent = Sfp::empty_slot();
    let mut d: IdxMap<&Sfp> = OrdMap::new();
    d.insert(0, &there);
    d.insert(1, &absent);
    let utils = XcvrdUtils::new(d);
    assert!(utils.get_transceiver_presence(0));
    assert!(!utils.get_transceiver_presence(1));
    assert!(!utils.get_transceiver_presence(9));
}

#[test]
fn test_is_transceiver_lpmode_on() {
    let on = Sfp { lpmode: Ok(true), ..present() };
    let off = Sfp { lpmode: Ok(false), ..present() };
    let err = Sfp { lpmode: Err(XcvrdError::NotImplemented), ..present() };
    let mut d: IdxMap<&Sfp> = OrdMap::new();
    d.insert(1, &on);
    d.insert(2, &off);
    d.insert(3, &err);
    let utils = XcvrdUtils::new(d);

    assert!(utils.is_transceiver_lpmode_on(1));
    assert!(!utils.is_transceiver_lpmode_on(2));
    assert!(!utils.is_transceiver_lpmode_on(3));
    assert!(!utils.is_transceiver_lpmode_on(9));
}

#[test]
fn memory_is_flat_unless_the_module_denies_it() {
    let flat = Sfp { flat_memory: Ok(Value::Bool(true)), ..present() };
    let paged = Sfp { flat_memory: Ok(Value::Bool(false)), ..present() };
    let odd = Sfp { flat_memory: Ok(Value::Null), ..present() };
    let err = present();
    let mut d: IdxMap<&Sfp> = OrdMap::new();
    d.insert(0, &flat);
    d.insert(1, &paged);
    d.insert(2, &odd);
    d.insert(3, &err);
    let utils = XcvrdUtils::new(d);
    assert!(utils.is_transceiver_flat_memory(0));
    assert!(!utils.is_transceiver_flat_memory(1));
    assert!(utils.is_transceiver_flat_memory(2));
    assert!(utils.is_transceiver_flat_memory(3));
    assert!(utils.is_transceiver_flat_memory(9));
}

#[test]
fn vdm_tables_are_named_by_their_kind() {
    assert_eq!(vdm_threshold_table_name(VdmType::Halarm.as_str()), "TRANSCEIVER_VDM_HALARM_THRESHOLD");
    assert_eq!(vdm_flag_table_name(VdmType::Lalarm.as_str()), "TRANSCEIVER_VDM_LALARM_FLAG");
    assert_eq!(
        vdm_flag_change_count_table_name(VdmType::Hwarn.as_str()),
        "TRANSCEIVER_VDM_HWARN_FLAG_CHANGE_COUNT"
    );
    assert_eq!(vdm_flag_set_time_table_name(VdmType::Lwarn.as_str()), "TRANSCEIVER_VDM_LWARN_FLAG_SET_TIME");
    assert_eq!(vdm_flag_clear_time_table_name("halarm"), "TRANSCEIVER_VDM_HALARM_FLAG_CLEAR_TIME");
}

#[test]
fn settings_are_to_be_notified_until_they_were() {
    let helper = XcvrTableHelper::new(4);
    let mut db = Db::new();
    assert!(helper.is_npu_si_settings_update_required(&db, "Ethernet0"));
    db.hset(4, "Ethernet0", "NPU_SI_SETTINGS_SYNC_STATUS", "NPU_SI_SETTINGS_DEFAULT");
    assert!(helper.is_npu_si_settings_update_required(&db, "Ethernet0"));
    db.hset(4, "Ethernet0", "NPU_SI_SETTINGS_SYNC_STATUS", "NPU_SI_SETTINGS_NOTIFIED");
    assert!(!helper.is_npu_si_settings_update_required(&db, "Ethernet0"));
}
