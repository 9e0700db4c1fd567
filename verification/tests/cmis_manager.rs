use xcvrd::cmis::cmis_manager_task::{
    is_timer_expired, CmisManagerTask, CmisPass, DEFAULT_AP_CONF_WAIT_MSECS, REACTION_POLL_MSECS,
};
use xcvrd::cmis::datapath::{
    cmis_linear, lane_mask, APPLY_DPINIT_OFFSET, DPDEINIT_OFFSET, OUTPUT_DISABLE_TX_OFFSET, SCS0_DPCONFIG_START,
    SCS0_PAGE,
};
use xcvrd::db::{Db, Row};
use xcvrd::hal::{CommandLog, Hal, Sfp, SfpCommand};
use xcvrd::ord_map::{OrdMap, StrSet};
use xcvrd::value::{Dict, Reply, Value};
use xcvrd::xcvrd_utilities::common::{
    CmisState, CMIS_STATE_AP_CONF, CMIS_STATE_DP_DEINIT, CMIS_STATE_DP_INIT, CMIS_STATE_DP_PRE_INIT_CHECK,
    CMIS_STATE_FAILED, CMIS_STATE_INSERTED, CMIS_STATE_READY, CMIS_STATE_REMOVED,
};
use xcvrd::xcvrd_utilities::port_event_helper::{PortChangeEvent, PortChangeEventType, PortMapping};

const STATUS_SW: usize = 0;
const CFG: usize = 1;
const STATE_PORT: usize = 2;
const INFO: usize = 3;

const READY_STATUS: &str = "ModuleReady";
const LOWPWR_STATUS: &str = "ModuleLowPwr";
const PORT: &str = "Ethernet0";

fn mapping(lport: &str, pport: usize) -> PortMapping {
    let mut m = PortMapping::new();
    m.handle_port_change_event(&PortChangeEvent::new(lport, pport as i32, 0, PortChangeEventType::PortAdd));
    m
}

fn sfp_with_module_state(module_state: &str) -> Sfp {
    let mut d: Dict = OrdMap::new();
    d.insert("module_state".to_string(), Value::String(module_state.to_string()));
    Sfp { presence: Ok(true), lpmode: Ok(false), status: Ok(Reply::Object(d)), ..Sfp::empty_slot() }
}

fn module(module_state: &str) -> Hal {
    Hal { sfps: vec![sfp_with_module_state(module_state)] }
}

fn no_module() -> Hal {
    Hal { sfps: vec![Sfp::empty_slot()] }
}

fn rows(admin_status: &str, state: Option<&str>) -> Db {
    let mut db = Db::new();
    db.hset(CFG, PORT, "admin_status", admin_status);
    if let Some(s) = state {
        db.hset(STATUS_SW, PORT, "cmis_state", s);
    }
    db
}

fn cmis_state(db: &Db) -> Option<String> {
    db.hget(STATUS_SW, PORT, "cmis_state")
}

fn make_task(ap_conf_wait: u64) -> CmisManagerTask {
    CmisManagerTask::with_timing(mapping(PORT, 0), false, STATUS_SW, CFG, 0, ap_conf_wait)
}

fn make_task_full() -> CmisManagerTask {
    let mut task = make_task(0);
    task.set_state_port_table(STATE_PORT);
    task.set_info_table(INFO);
    task
}

fn step(task: &mut CmisManagerTask, db: &mut Db, hal: &Hal, log: &mut CommandLog, n: usize) {
    for _ in 0..n {
        task.tick_once(false, db, hal, log, 0);
    }
}

fn writes(log: &CommandLog) -> Vec<(usize, Vec<u8>)> {
    let mut r = Vec::new();
    for (_, c) in &log.list {
        if let SfpCommand::WriteEeprom { offset, data } = c {
            r.push((*offset, data.clone()));
        }
    }
    r
}

fn writes_to(log: &CommandLog, page: usize, offset: usize) -> Vec<Vec<u8>> {
    let want = cmis_linear(page, offset);
    writes(log).into_iter().filter(|(off, _)| *off == want).map(|(_, d)| d).collect()
}

fn first_index_of(log: &CommandLog, page: usize, offset: usize) -> Option<usize> {
    let want = cmis_linear(page, offset);
    writes(log).iter().position(|(off, _)| *off == want)
}

#[test]
fn test_update_port_transceiver_status_table_sw_cmis_state() {
    let mut db = Db::new();
    let mut r: Row = OrdMap::new();
    r.insert("status".to_string(), "1".to_string());
    r.insert("error".to_string(), "N/A".to_string());
    db.set(STATUS_SW, PORT, &r);
    let task = make_task(DEFAULT_AP_CONF_WAIT_MSECS);
    task.update_port_transceiver_status_table_sw_cmis_state(PORT, &mut db, STATUS_SW, CmisState::Ready);
    assert_eq!(db.hget(STATUS_SW, PORT, "cmis_state").as_deref(), Some(CMIS_STATE_READY));
    assert_eq!(db.hget(STATUS_SW, PORT, "status").as_deref(), Some("1"));
    assert_eq!(db.hget(STATUS_SW, PORT, "error").as_deref(), Some("N/A"));
}

#[test]
fn test_healthy_admin_up_reaches_ready() {
    let mut db = rows("up", Some(CMIS_STATE_INSERTED));
    let hal = module(READY_STATUS);
    let mut log = CommandLog::new();
    let mut task = make_task(0);

    let mut seen: Vec<String> = Vec::new();
    for _ in 0..12 {
        task.tick_once(false, &mut db, &hal, &mut log, 0);
        if let Some(s) = cmis_state(&db) {
            if seen.last() != Some(&s) {
                seen.push(s.clone());
            }
            if s == CMIS_STATE_READY {
                break;
            }
        }
    }
    assert_eq!(cmis_state(&db).as_deref(), Some(CMIS_STATE_READY));
    for st in [CMIS_STATE_DP_PRE_INIT_CHECK, CMIS_STATE_DP_DEINIT, CMIS_STATE_AP_CONF] {
        assert!(seen.iter().any(|s| s == st), "missing transition {st}; saw {seen:?}");
    }
}

#[test]
fn test_stalled_admin_up_retries_then_failed() {
    let mut db = rows("up", Some(CMIS_STATE_INSERTED));
    let hal = module(LOWPWR_STATUS);
    let mut log = CommandLog::new();
    let mut task = make_task(0);

    let mut non_terminal_samples = 0;
    let mut reached_failed = false;
    for _ in 0..80 {
        task.tick_once(false, &mut db, &hal, &mut log, 0);
        let s = cmis_state(&db).unwrap_or_default();
        if s == CMIS_STATE_FAILED {
            reached_failed = true;
            break;
        }
        if !CmisState::from_db_str(&s).is_terminal() {
            non_terminal_samples += 1;
        }
    }
    assert!(reached_failed, "stalled module never reached FAILED");
    assert!(non_terminal_samples >= 5, "expected >=5 non-terminal samples, saw {non_terminal_samples}");
}

#[test]
fn test_stalled_bringup_stays_non_terminal_until_failed() {
    let mut db = rows("up", Some(CMIS_STATE_INSERTED));
    let hal = module(LOWPWR_STATUS);
    let mut log = CommandLog::new();
    let mut task = make_task(0);
    loop {
        let s = cmis_state(&db).unwrap_or_default();
        if s == CMIS_STATE_FAILED {
            break;
        }
        assert!(!CmisState::from_db_str(&s).is_terminal(), "unexpected terminal state {s} before FAILED");
        task.tick_once(false, &mut db, &hal, &mut log, 0);
    }
}

#[test]
fn test_admin_down_goes_ready() {
    let mut db = rows("down", Some(CMIS_STATE_INSERTED));
    let mut log = CommandLog::new();
    let mut task = make_task(0);
    step(&mut task, &mut db, &module(LOWPWR_STATUS), &mut log, 3);
    assert_eq!(cmis_state(&db).as_deref(), Some(CMIS_STATE_READY));
}

#[test]
fn test_boot_projected_ready_triggers_real_bringup() {
    let mut db = rows("up", Some(CMIS_STATE_READY));
    let mut log = CommandLog::new();
    let mut task = make_task_full();
    step(&mut task, &mut db, &module(READY_STATUS), &mut log, 10);
    assert!(
        !writes_to(&log, SCS0_PAGE, DPDEINIT_OFFSET).is_empty(),
        "boot-projected READY must trigger a real bring-up (DataPathDeinit 10h:128)"
    );
    assert!(
        !writes_to(&log, SCS0_PAGE, APPLY_DPINIT_OFFSET).is_empty(),
        "boot-projected READY must trigger ApplyDPInitLane (10h:143)"
    );
    assert_eq!(cmis_state(&db).as_deref(), Some(CMIS_STATE_READY));
}

#[test]
fn test_task_driven_ready_is_adopted() {
    let mut db = rows("up", Some(CMIS_STATE_INSERTED));
    let hal = module(READY_STATUS);
    let mut log = CommandLog::new();
    let mut task = make_task_full();
    step(&mut task, &mut db, &hal, &mut log, 10);
    assert_eq!(cmis_state(&db).as_deref(), Some(CMIS_STATE_READY));
    let mut log = CommandLog::new();
    step(&mut task, &mut db, &hal, &mut log, 5);
    assert_eq!(cmis_state(&db).as_deref(), Some(CMIS_STATE_READY));
    assert!(
        writes_to(&log, SCS0_PAGE, DPDEINIT_OFFSET).is_empty()
            && writes_to(&log, SCS0_PAGE, APPLY_DPINIT_OFFSET).is_empty(),
        "a task-driven READY must be adopted without re-provisioning churn"
    );
}

#[test]
fn test_terminal_port_stops_polling_presence_over_bridge() {
    let mut db = rows("down", Some(CMIS_STATE_INSERTED));
    let hal = module(READY_STATUS);
    let mut log = CommandLog::new();
    let mut task = make_task(0);
    assert!(task.needs_presence(&db, PORT));

    step(&mut task, &mut db, &hal, &mut log, 3);
    assert_eq!(cmis_state(&db).as_deref(), Some(CMIS_STATE_READY));

    for _ in 0..20 {
        assert!(
            !task.needs_presence(&db, PORT),
            "a genuinely-terminal READY port must stop polling get_presence over the bridge"
        );
        task.tick_once(false, &mut db, &hal, &mut log, 0);
    }
}

#[test]
fn a_port_at_rest_is_not_moved_by_what_its_slot_says() {
    let mut db = rows("down", Some(CMIS_STATE_INSERTED));
    let mut log = CommandLog::new();
    let mut task = make_task(0);
    step(&mut task, &mut db, &module(READY_STATUS), &mut log, 3);
    let asked = log.list.len();
    step(&mut task, &mut db, &no_module(), &mut log, 5);
    assert_eq!(cmis_state(&db).as_deref(), Some(CMIS_STATE_READY));
    assert_eq!(log.list.len(), asked);
}

#[test]
fn test_absent_then_present_brings_up() {
    let mut db = rows("up", None);
    let mut log = CommandLog::new();
    let mut task = make_task(0);
    step(&mut task, &mut db, &no_module(), &mut log, 3);
    assert_eq!(cmis_state(&db), None);

    db.hset(STATUS_SW, PORT, "cmis_state", CMIS_STATE_INSERTED);
    let mut task = make_task(0);
    step(&mut task, &mut db, &module(READY_STATUS), &mut log, 10);
    assert_eq!(cmis_state(&db).as_deref(), Some(CMIS_STATE_READY));
}

#[test]
fn test_force_cmis_reinit_resets() {
    let mut db = rows("up", None);
    let mut task = make_task(0);
    task.force_cmis_reinit(&mut db, PORT, 2);
    assert_eq!(cmis_state(&db).as_deref(), Some(CMIS_STATE_INSERTED));
    assert_eq!(task.port_state.get(&PORT.to_string()).map(|s| s.retries), Some(2));
    task.force_cmis_reinit(&mut db, PORT, 0);
    assert_eq!(task.port_state.get(&PORT.to_string()).map(|s| s.retries), Some(0));
    assert!(task.port_state.get(&PORT.to_string()).and_then(|s| s.expired).is_none());
}

#[test]
fn test_skip_cmis_mgr_disables() {
    let mut db = rows("up", Some(CMIS_STATE_INSERTED));
    let hal = module(READY_STATUS);
    let mut log = CommandLog::new();
    let mut task = CmisManagerTask::with_timing(mapping(PORT, 0), true, STATUS_SW, CFG, 0, 0);
    for at in 0..3 {
        match task.next_pass(false, None, at) {
            CmisPass::Off => {}
            CmisPass::Tick => task.tick_once(false, &mut db, &hal, &mut log, at),
            CmisPass::React => task.poll_port_config_reactions(false, &mut db, &hal, &mut log, at),
        }
    }
    assert_eq!(cmis_state(&db).as_deref(), Some(CMIS_STATE_INSERTED));
}

#[test]
fn the_configuration_is_looked_at_between_two_looks_at_the_ports() {
    let task = CmisManagerTask::new(mapping(PORT, 0), false, STATUS_SW, CFG);
    assert_eq!(task.next_pass(false, None, 5_000), CmisPass::Tick);
    assert_eq!(task.next_pass(false, Some(5_000), 5_999), CmisPass::React);
    assert_eq!(task.next_pass(false, Some(5_000), 6_000), CmisPass::Tick);
    assert_eq!(task.next_pass(true, None, 5_000), CmisPass::Off);
    assert_eq!(task.nap_msecs(5_000, 5_200), REACTION_POLL_MSECS);
    assert_eq!(task.nap_msecs(5_000, 5_960), 40);
    assert_eq!(task.nap_msecs(5_000, 7_000), 0);
}

#[test]
fn test_bringup_emits_ordered_datapath_writes() {
    let mut db = rows("up", Some(CMIS_STATE_INSERTED));
    let mut log = CommandLog::new();
    let mut task = make_task_full();
    step(&mut task, &mut db, &module(READY_STATUS), &mut log, 10);
    assert_eq!(cmis_state(&db).as_deref(), Some(CMIS_STATE_READY));

    let i_deinit = first_index_of(&log, SCS0_PAGE, DPDEINIT_OFFSET)
        .expect("no DataPathDeinit (10h:128) write during bring-up");
    let i_config = first_index_of(&log, SCS0_PAGE, SCS0_DPCONFIG_START)
        .expect("no DPConfigLane (10h:145) write during bring-up");
    let i_apply = first_index_of(&log, SCS0_PAGE, APPLY_DPINIT_OFFSET)
        .expect("no ApplyDPInitLane (10h:143) write during bring-up");
    assert!(
        i_deinit < i_config && i_config <= i_apply,
        "write order violated: deinit@{i_deinit}, config@{i_config}, apply@{i_apply}"
    );
    let apply = writes_to(&log, SCS0_PAGE, APPLY_DPINIT_OFFSET);
    assert_eq!(apply.last().map(|d| d[0]), Some(0x0f));
}

#[test]
fn test_activated_clears_active_lane_deinit_and_txdisable() {
    let mut db = rows("up", Some(CMIS_STATE_INSERTED));
    let mut log = CommandLog::new();
    let mut task = make_task_full();
    step(&mut task, &mut db, &module(READY_STATUS), &mut log, 10);
    assert_eq!(cmis_state(&db).as_deref(), Some(CMIS_STATE_READY));
    let deinit = writes_to(&log, SCS0_PAGE, DPDEINIT_OFFSET);
    assert_eq!(deinit.last().map(|d| d[0]), Some(0xf0));
    let txdis = writes_to(&log, SCS0_PAGE, OUTPUT_DISABLE_TX_OFFSET);
    assert_eq!(txdis.last().map(|d| d[0]), Some(0xf0));
}

#[test]
fn test_admin_down_forces_tx_off_writes() {
    let mut db = rows("down", Some(CMIS_STATE_INSERTED));
    let mut log = CommandLog::new();
    let mut task = make_task_full();
    step(&mut task, &mut db, &module(LOWPWR_STATUS), &mut log, 3);
    assert_eq!(cmis_state(&db).as_deref(), Some(CMIS_STATE_READY));
    assert_eq!(
        writes_to(&log, SCS0_PAGE, DPDEINIT_OFFSET).last().map(|d| d[0]),
        Some(0xff),
        "admin-down must DataPathDeinit all module lanes"
    );
    assert_eq!(
        writes_to(&log, SCS0_PAGE, OUTPUT_DISABLE_TX_OFFSET).last().map(|d| d[0]),
        Some(0xff),
        "admin-down must OutputDisableTx all module lanes"
    );
}

#[test]
fn test_reaction_admin_down_tears_down_datapath() {
    let mut db = rows("up", Some(CMIS_STATE_INSERTED));
    let hal = module(READY_STATUS);
    let mut log = CommandLog::new();
    let mut task = make_task_full();
    step(&mut task, &mut db, &hal, &mut log, 10);
    assert_eq!(cmis_state(&db).as_deref(), Some(CMIS_STATE_READY));
    let mut log = CommandLog::new();

    db.hset(CFG, PORT, "admin_status", "down");
    step(&mut task, &mut db, &hal, &mut log, 3);
    assert!(
        !writes_to(&log, SCS0_PAGE, DPDEINIT_OFFSET).is_empty(),
        "no DataPathDeinit(10h:128) on admin-down reaction"
    );
    assert!(
        !writes_to(&log, SCS0_PAGE, OUTPUT_DISABLE_TX_OFFSET).is_empty(),
        "no OutputDisableTx(10h:130) on admin-down reaction"
    );
}

#[test]
fn test_reaction_host_tx_not_ready_tears_down() {
    let mut db = rows("up", Some(CMIS_STATE_INSERTED));
    let hal = module(READY_STATUS);
    let mut log = CommandLog::new();
    let mut task = make_task_full();
    step(&mut task, &mut db, &hal, &mut log, 10);
    assert_eq!(cmis_state(&db).as_deref(), Some(CMIS_STATE_READY));
    let mut log = CommandLog::new();

    db.hset(STATE_PORT, PORT, "host_tx_ready", "false");
    step(&mut task, &mut db, &hal, &mut log, 3);
    assert!(
        !writes_to(&log, SCS0_PAGE, DPDEINIT_OFFSET).is_empty(),
        "no DataPathDeinit(10h:128) on host_tx_ready=false reaction"
    );
    assert_ne!(cmis_state(&db).as_deref(), Some(CMIS_STATE_DP_INIT));
}

#[test]
fn test_fast_reaction_pass_catches_transient_host_tx_not_ready() {
    let mut db = rows("up", Some(CMIS_STATE_INSERTED));
    let hal = module(READY_STATUS);
    let mut log = CommandLog::new();
    let mut task = make_task_full();
    step(&mut task, &mut db, &hal, &mut log, 10);
    assert_eq!(cmis_state(&db).as_deref(), Some(CMIS_STATE_READY));
    let mut log = CommandLog::new();

    db.hset(STATE_PORT, PORT, "host_tx_ready", "false");
    task.poll_port_config_reactions(false, &mut db, &hal, &mut log, 0);

    assert!(
        !writes_to(&log, SCS0_PAGE, DPDEINIT_OFFSET).is_empty(),
        "fast reaction pass must write DataPathDeinit(10h:128) immediately on the transient \
         host_tx_ready=false, not defer it to a later (starved) tick",
    );
    assert!(
        !writes_to(&log, SCS0_PAGE, OUTPUT_DISABLE_TX_OFFSET).is_empty(),
        "fast reaction pass must force OutputDisableTx(10h:130) on host_tx_ready=false",
    );
    assert_eq!(
        writes_to(&log, SCS0_PAGE, DPDEINIT_OFFSET).last().map(|d| d[0]),
        Some(0xff),
        "forced-off DataPathDeinit must cover every module lane",
    );
    assert_eq!(cmis_state(&db).as_deref(), Some(CMIS_STATE_READY));

    let mut log = CommandLog::new();
    db.hset(STATE_PORT, PORT, "host_tx_ready", "true");
    step(&mut task, &mut db, &hal, &mut log, 6);
    assert!(
        !writes_to(&log, SCS0_PAGE, APPLY_DPINIT_OFFSET).is_empty(),
        "datapath must re-initialise once host_tx_ready returns",
    );
}

#[test]
fn test_host_tx_false_blocks_bringup() {
    let mut db = rows("up", Some(CMIS_STATE_INSERTED));
    db.hset(STATE_PORT, PORT, "host_tx_ready", "false");
    let mut log = CommandLog::new();
    let mut task = make_task_full();
    step(&mut task, &mut db, &module(READY_STATUS), &mut log, 4);
    assert_eq!(cmis_state(&db).as_deref(), Some(CMIS_STATE_READY));
    assert!(
        writes_to(&log, SCS0_PAGE, APPLY_DPINIT_OFFSET).is_empty(),
        "datapath must not be initialised while host_tx_ready=false"
    );
}

#[test]
fn test_fast_reaction_pass_inert_without_change() {
    let mut db = rows("up", Some(CMIS_STATE_INSERTED));
    db.hset(STATE_PORT, PORT, "host_tx_ready", "true");
    let hal = module(READY_STATUS);
    let mut log = CommandLog::new();
    let mut task = make_task_full();
    step(&mut task, &mut db, &hal, &mut log, 10);
    assert_eq!(cmis_state(&db).as_deref(), Some(CMIS_STATE_READY));
    let mut log = CommandLog::new();

    for _ in 0..5 {
        task.poll_port_config_reactions(false, &mut db, &hal, &mut log, 0);
    }
    assert_eq!(
        cmis_state(&db).as_deref(),
        Some(CMIS_STATE_READY),
        "steady-state fast passes must not re-init a healthy port",
    );
    assert!(log.list.is_empty(), "steady-state fast passes must issue no CMIS control writes");
}

#[test]
fn test_post_active_apsel_written_on_activation() {
    let mut db = rows("up", Some(CMIS_STATE_INSERTED));
    db.hset(INFO, PORT, "type", "QSFP-DD");
    let mut log = CommandLog::new();
    let mut task = make_task_full();
    step(&mut task, &mut db, &module(READY_STATUS), &mut log, 10);
    assert_eq!(cmis_state(&db).as_deref(), Some(CMIS_STATE_READY));
    assert_eq!(db.hget(INFO, PORT, "active_apsel_hostlane1").as_deref(), Some("1"));
    assert_eq!(db.hget(INFO, PORT, "active_apsel_hostlane4").as_deref(), Some("1"));
    assert_eq!(db.hget(INFO, PORT, "active_apsel_hostlane5").as_deref(), Some("N/A"));
    assert_eq!(db.hget(INFO, PORT, "host_lane_count").as_deref(), Some("4"));
    assert_eq!(db.hget(INFO, PORT, "media_lane_count").as_deref(), Some("4"));
}

#[test]
fn a_port_without_datapath_has_no_application() {
    let mut db = rows("up", Some(CMIS_STATE_INSERTED));
    db.hset(INFO, PORT, "type", "QSFP-DD");
    let mut log = CommandLog::new();
    let mut task = make_task_full();
    step(&mut task, &mut db, &module(READY_STATUS), &mut log, 10);
    assert_eq!(db.hget(INFO, PORT, "active_apsel_hostlane1").as_deref(), Some("1"));
    task.post_port_active_apsel_to_db(&mut db, PORT, INFO, 0xff, true);
    assert_eq!(db.hget(INFO, PORT, "active_apsel_hostlane1").as_deref(), Some("N/A"));
    assert_eq!(db.hget(INFO, PORT, "host_lane_count").as_deref(), Some("0"));
    assert_eq!(db.hget(INFO, PORT, "media_lane_count").as_deref(), Some("0"));
    assert_eq!(db.hget(INFO, PORT, "type").as_deref(), Some("QSFP-DD"));
}

#[test]
fn test_on_port_update_event_set_and_del() {
    let mut db = rows("up", Some(CMIS_STATE_READY));
    let mut task = make_task_full();
    let mut set_ev = PortChangeEvent::new(PORT, 0, 0, PortChangeEventType::PortSet);
    set_ev.port_dict.insert("admin_status".to_string(), "up".to_string());
    task.on_port_update_event(&mut db, &set_ev);
    assert_eq!(cmis_state(&db).as_deref(), Some(CMIS_STATE_INSERTED));

    let mut del_ev = PortChangeEvent::new(PORT, 0, 0, PortChangeEventType::PortDel);
    del_ev.db_name = Some("CONFIG_DB".to_string());
    del_ev.table_name = Some("PORT".to_string());
    task.on_port_update_event(&mut db, &del_ev);
    assert_eq!(cmis_state(&db).as_deref(), Some(CMIS_STATE_REMOVED));
    assert!(task.port_state.get(&PORT.to_string()).is_none());
}

#[test]
fn test_get_cmis_host_lanes_mask() {
    let task = make_task(DEFAULT_AP_CONF_WAIT_MSECS);
    assert_eq!(task.get_cmis_host_lanes_mask(1, 4, 0), 0x0f);
    assert_eq!(task.get_cmis_host_lanes_mask(1, 8, 0), 0xff);
    assert_eq!(task.get_cmis_host_lanes_mask(1, 1, 0), 0x01);
}

#[test]
fn lanes_of_subports_follow_one_another() {
    let task = make_task(0);
    assert_eq!(task.get_cmis_host_lanes_mask(1, 2, 1), 0x03);
    assert_eq!(task.get_cmis_host_lanes_mask(1, 2, 2), 0x0c);
    assert_eq!(task.get_cmis_host_lanes_mask(1, 4, 2), 0xf0);
    assert_eq!(task.get_cmis_host_lanes_mask(1, 4, 3), 0x00);
    assert_eq!(task.get_cmis_host_lanes_mask(1, 0, 1), 0);
    assert_eq!(task.get_cmis_host_lanes_mask(1, 9, 1), 0);
    assert_eq!([0, 1, 3, 8, 9].map(lane_mask), [0x00, 0x01, 0x07, 0xff, 0xff]);
    assert_eq!(cmis_linear(0x10, 128), 0x10 * 128 + 128);
    assert_eq!(cmis_linear(0, 5), 5);
}

#[test]
fn a_wait_is_over_at_its_end() {
    assert!(!is_timer_expired(None, 10));
    assert!(!is_timer_expired(Some(11), 10));
    assert!(is_timer_expired(Some(10), 10));
    assert!(is_timer_expired(Some(9), 10));
}

#[test]
fn a_module_that_is_not_ready_is_waited_for() {
    let mut db = rows("up", Some(CMIS_STATE_INSERTED));
    let hal = module(LOWPWR_STATUS);
    let mut log = CommandLog::new();
    let mut task = make_task(3000);
    for at in 0..10 {
        task.tick_once(false, &mut db, &hal, &mut log, at * 100);
    }
    assert_eq!(cmis_state(&db).as_deref(), Some(CMIS_STATE_AP_CONF));
    assert_eq!(task.port_state.get(&PORT.to_string()).map(|s| s.retries), Some(0));
    task.tick_once(false, &mut db, &hal, &mut log, 9_000);
    assert_eq!(cmis_state(&db).as_deref(), Some(CMIS_STATE_INSERTED));
    assert_eq!(task.port_state.get(&PORT.to_string()).map(|s| s.retries), Some(1));
}

#[test]
fn a_deconfigured_port_is_dropped_and_not_revived() {
    let mut db = rows("up", Some(CMIS_STATE_INSERTED));
    let hal = module(READY_STATUS);
    let mut log = CommandLog::new();
    let mut task = make_task_full();
    step(&mut task, &mut db, &hal, &mut log, 2);
    let mut gone = StrSet::new();
    gone.insert(PORT);
    task.set_deconfigured_ports(gone);
    let mut log = CommandLog::new();
    step(&mut task, &mut db, &hal, &mut log, 3);
    task.poll_port_config_reactions(false, &mut db, &hal, &mut log, 0);
    assert!(!db.has_row(STATUS_SW, PORT));
    assert!(task.port_state.get(&PORT.to_string()).is_none());
    assert!(log.list.is_empty());
}

#[test]
fn a_stopping_daemon_brings_nothing_up() {
    let mut db = rows("up", Some(CMIS_STATE_INSERTED));
    let hal = module(READY_STATUS);
    let mut log = CommandLog::new();
    let mut task = make_task_full();
    task.tick_once(true, &mut db, &hal, &mut log, 0);
    task.poll_port_config_reactions(true, &mut db, &hal, &mut log, 0);
    assert_eq!(cmis_state(&db).as_deref(), Some(CMIS_STATE_INSERTED));
    assert!(log.list.is_empty() && task.port_state.is_empty());
}
