//! What holds of the bring-up as a whole.

use vstd::prelude::*;
use vstd::string::*;
use crate::cmis::cmis_manager_task::{active_fields, port_of, with_port, CmisSetup, World};
use crate::cmis::datapath::{
    datapath_in, dpconfig_read, lanes, module_is_ready, no_apsel, register, staged, staged_apsel, Port, APPLY_DPINIT_OFFSET,
    CMIS_MAX_RETRIES, DPDEINIT_OFFSET, OUTPUT_DISABLE_TX_OFFSET, SCS0_DPCONFIG_START,
};
use crate::db::{field_at, fields_at, TableId};
use crate::hal::{present, Command, Hal};
use crate::xcvrd_utilities::common::{
    cmis_state_text, law_state_names_read_back, state_named, terminal, CmisState, CMIS_STATE_INSERTED,
};

verus! {

impl CmisSetup {
    /// What has changed from `a` to `b` is no more than the rows of the port in the
    /// status and identity tables and what is kept of the port, and no module but
    /// that of the physical port was asked for anything.
    pub open spec fn confined(&self, a: World, b: World, port: Seq<char>, physical: usize) -> bool {
        &&& forall|t: TableId, k: Seq<char>|
            k != port || (t != self.status_sw_tbl && self.int_tbl != Some(t)) ==> {
                &&& #[trigger] b.db.contains_key((t, k)) == a.db.contains_key((t, k))
                &&& fields_at(b.db, t, k) == fields_at(a.db, t, k)
            }
        &&& forall|k: Seq<char>|
            k != port ==> {
                &&& #[trigger] b.ports.contains_key(k) == a.ports.contains_key(k)
                &&& b.ports[k] == a.ports[k]
            }
        &&& a.commands.len() <= b.commands.len()
        &&& forall|i: int| 0 <= i < a.commands.len() ==> #[trigger] b.commands[i] == a.commands[i]
        &&& forall|i: int|
            a.commands.len() <= i < b.commands.len() ==> (#[trigger] b.commands[i]).0 == physical
    }
}

proof fn lemma_confined_chain(
    setup: &CmisSetup,
    a: World,
    b: World,
    c: World,
    port: Seq<char>,
    physical: usize,
)
    requires
        setup.confined(a, b, port, physical),
        setup.confined(b, c, port, physical),
    ensures
        setup.confined(a, c, port, physical),
{
    assert forall|t: TableId, k: Seq<char>|
        k != port || (t != setup.status_sw_tbl && setup.int_tbl != Some(t)) implies {
        &&& #[trigger] c.db.contains_key((t, k)) == a.db.contains_key((t, k))
        &&& fields_at(c.db, t, k) == fields_at(a.db, t, k)
    } by {
        assert(b.db.contains_key((t, k)) == a.db.contains_key((t, k)));
    }
    assert forall|k: Seq<char>| k != port implies {
        &&& #[trigger] c.ports.contains_key(k) == a.ports.contains_key(k)
        &&& c.ports[k] == a.ports[k]
    } by {
        assert(b.ports.contains_key(k) == a.ports.contains_key(k));
    }
    assert forall|i: int| 0 <= i < a.commands.len() implies #[trigger] c.commands[i] == a.commands[i] by {
        assert(b.commands[i] == a.commands[i]);
    }
    assert forall|i: int| a.commands.len() <= i < c.commands.len() implies (#[trigger] c.commands[i]).0
        == physical by {
        if i < b.commands.len() {
            assert(b.commands[i].0 == physical);
        }
    }
}

/// One step of a port's bring-up concerns that port and its module alone.
#[verifier::spinoff_prover]
#[verifier::rlimit(50)]
pub proof fn law_step_is_confined(
    setup: &CmisSetup,
    hal: &Hal,
    w: World,
    port: Seq<char>,
    physical: usize,
    at: u64,
)
    ensures
        setup.confined(w, setup.stepped(hal, w, port, physical, at), port, physical),
{
}

/// A look at a port concerns that port and its module alone.
#[verifier::spinoff_prover]
#[verifier::rlimit(50)]
pub proof fn law_look_is_confined(
    setup: &CmisSetup,
    hal: &Hal,
    w: World,
    port: Seq<char>,
    physical: usize,
    at: u64,
)
    ensures
        setup.confined(w, setup.processed(hal, w, port, physical, at), port, physical),
        setup.confined(w, setup.ticked(hal, w, port, physical, at), port, physical),
{
    let text = cmis_state_text(w.db, setup.status_sw_tbl, port);
    let state = state_named(text);
    let r = setup.reacted(w, port);
    let end = setup.processed(hal, w, port, physical, at);
    let mid = if setup.config_changed(w, port) {
        setup.presence_noted(r, port, true)
    } else if terminal(state) {
        setup.presence_noted(setup.reinitialized(r, port, 0), port, true)
    } else {
        let p = port_of(r, port);
        with_port(
            r,
            port,
            if state == CmisState::Inserted && p.last_written != CMIS_STATE_INSERTED@ {
                Port {
                    present_before: true,
                    retries: 0,
                    expired: None,
                    last_written: CMIS_STATE_INSERTED@,
                    ..p
                }
            } else {
                Port { present_before: true, ..p }
            },
        )
    };
    assert(setup.confined(w, mid, port, physical));
    law_step_is_confined(setup, hal, mid, port, physical, at);
    lemma_confined_chain(setup, w, mid, setup.stepped(hal, mid, port, physical, at), port, physical);
}

/// A look at the configuration of a port concerns that port and its module alone.
#[verifier::spinoff_prover]
#[verifier::rlimit(50)]
pub proof fn law_watch_is_confined(
    setup: &CmisSetup,
    hal: &Hal,
    w: World,
    port: Seq<char>,
    physical: usize,
    at: u64,
)
    ensures
        setup.confined(w, setup.watched(hal, w, port, physical, at), port, physical),
{
    let mid = setup.presence_noted(setup.reacted(w, port), port, present(hal, physical));
    assert(setup.confined(w, mid, port, physical));
    law_step_is_confined(setup, hal, mid, port, physical, at);
    lemma_confined_chain(setup, w, mid, setup.stepped(hal, mid, port, physical, at), port, physical);
}

/// A port at rest is left alone whatever its module would answer: nothing is
/// written and nothing asked.
pub proof fn law_port_at_rest_needs_no_module(
    setup: &CmisSetup,
    hal: &Hal,
    other: &Hal,
    w: World,
    port: Seq<char>,
    physical: usize,
    at: u64,
)
    requires
        setup.at_rest(w, port),
    ensures
        setup.processed(hal, w, port, physical, at) == setup.processed(other, w, port, physical, at),
        setup.processed(hal, w, port, physical, at).db == w.db,
        setup.processed(hal, w, port, physical, at).commands == w.commands,
{
}

/// Writing a state changes no other field that the bring-up reads.
proof fn lemma_state_written(setup: &CmisSetup, w: World, port: Seq<char>, s: CmisState)
    ensures
        setup.state_of(setup.with_state(w, port, s), port) == s,
        setup.wanted(setup.with_state(w, port, s).db, port) == setup.wanted(w.db, port),
        setup.host_lane_count(setup.with_state(w, port, s).db, port) == setup.host_lane_count(w.db, port),
        setup.host_tx_ready(setup.with_state(w, port, s).db, port) == setup.host_tx_ready(w.db, port),
        field_at(setup.with_state(w, port, s).db, setup.cfg_port_tbl, port, "admin_status"@) == field_at(
            w.db,
            setup.cfg_port_tbl,
            port,
            "admin_status"@,
        ),
{
    law_state_names_read_back(s);
    reveal_strlit("cmis_state");
    reveal_strlit("admin_status");
    reveal_strlit("host_tx_ready");
    reveal_strlit("lanes");
    assert("cmis_state"@.len() == 10);
    assert("admin_status"@.len() == 12);
    assert("host_tx_ready"@.len() == 13);
    assert("lanes"@.len() == 5);
}

/// The states that may come after a state in one step. A state stays only where the
/// module is waited for, and outside the bring-up.
pub open spec fn may_follow(before: CmisState, next: CmisState) -> bool {
    ||| next == CmisState::Failed
    ||| match before {
        CmisState::Inserted => next == CmisState::DpPreInitCheck || next == CmisState::Ready,
        CmisState::DpPreInitCheck => next == before || next == CmisState::DpDeinit,
        CmisState::DpDeinit => next == CmisState::ApConfigured,
        CmisState::ApConfigured => next == before || next == CmisState::DpInit || next == CmisState::Inserted,
        CmisState::DpInit => next == CmisState::DpTxOn || next == CmisState::Inserted,
        CmisState::DpTxOn => next == before || next == CmisState::DpActivation || next == CmisState::Inserted,
        CmisState::DpActivation => next == before || next == CmisState::Ready || next == CmisState::Inserted,
        _ => next == before,
    }
}

/// The bring-up goes through its states in order: a step waits for the module,
/// goes on by one, starts over, or fails. It fails where it was tried too often and then only, and it is
/// ready where the port is not wanted or its datapath is activated and then only.
pub proof fn law_bring_up_follows_its_order(
    setup: &CmisSetup,
    hal: &Hal,
    w: World,
    port: Seq<char>,
    physical: usize,
    at: u64,
)
    ensures
        ({
            let before = setup.state_of(w, port);
            let next = setup.state_of(setup.stepped(hal, w, port, physical, at), port);
            &&& may_follow(before, next)
            &&& next == CmisState::Failed && before != CmisState::Failed ==> port_of(w, port).retries
                > CMIS_MAX_RETRIES
            &&& port_of(w, port).retries > CMIS_MAX_RETRIES ==> next == CmisState::Failed
            &&& next == CmisState::Ready && before != CmisState::Ready ==> {
                ||| before == CmisState::Inserted && !setup.wanted(w.db, port)
                ||| before == CmisState::DpActivation && datapath_in(
                    hal,
                    physical,
                    port_of(w, port).host_lanes_mask,
                    "DataPathActivated"@,
                    "DataPathActivated"@,
                )
            }
        }),
{
    let r = setup.stepped(hal, w, port, physical, at);
    law_state_names_read_back(CmisState::Failed);
    law_state_names_read_back(CmisState::Inserted);
    law_state_names_read_back(CmisState::Ready);
    law_state_names_read_back(CmisState::DpPreInitCheck);
    law_state_names_read_back(CmisState::DpDeinit);
    law_state_names_read_back(CmisState::ApConfigured);
    law_state_names_read_back(CmisState::DpInit);
    law_state_names_read_back(CmisState::DpTxOn);
    law_state_names_read_back(CmisState::DpActivation);
}

/// A port that is not wanted gets its datapath taken down and its transmitters
/// turned off on every lane, has no applications, and is done.
pub proof fn law_unwanted_port_is_dark(
    setup: &CmisSetup,
    hal: &Hal,
    w: World,
    port: Seq<char>,
    physical: usize,
    at: u64,
)
    requires
        setup.state_of(w, port) == CmisState::Inserted,
        port_of(w, port).retries <= CMIS_MAX_RETRIES,
        !setup.wanted(w.db, port),
        physical < hal.sfps@.len(),
    ensures
        ({
            let r = setup.stepped(hal, w, port, physical, at);
            &&& setup.state_of(r, port) == CmisState::Ready
            &&& r.commands == w.commands.push(
                (
                    physical,
                    Command::WriteEeprom { offset: register(DPDEINIT_OFFSET), data: seq![0xffu8] },
                ),
            ).push(
                (
                    physical,
                    Command::WriteEeprom {
                        offset: register(OUTPUT_DISABLE_TX_OFFSET),
                        data: seq![0xffu8],
                    },
                ),
            )
            &&& port_of(r, port).active_apsel == no_apsel()
            &&& port_of(r, port).forced_tx_disabled
        }),
{
    law_state_names_read_back(CmisState::Ready);
    let d = port_of(w, port).deinit_reg;
    let t = port_of(w, port).tx_disable_reg;
    assert(d | 0xff == 0xff) by (bit_vector);
    assert(t | 0xff == 0xff) by (bit_vector);
}

/// A state that is waited for in vain: before the wait ends nothing happens, and
/// then the bring-up starts over and counts one more try.
pub proof fn law_stalled_bring_up_starts_over(
    setup: &CmisSetup,
    hal: &Hal,
    w: World,
    port: Seq<char>,
    physical: usize,
    at: u64,
)
    requires
        port_of(w, port).retries <= CMIS_MAX_RETRIES,
        ({
            let mask = port_of(w, port).host_lanes_mask;
            match setup.state_of(w, port) {
                CmisState::ApConfigured => !module_is_ready(hal, physical) || !datapath_in(
                    hal,
                    physical,
                    mask,
                    "DataPathDeactivated"@,
                    "DataPathDeactivated"@,
                ),
                CmisState::DpTxOn => !datapath_in(
                    hal,
                    physical,
                    mask,
                    "DataPathInitialized"@,
                    "DataPathActivated"@,
                ),
                CmisState::DpActivation => !datapath_in(
                    hal,
                    physical,
                    mask,
                    "DataPathActivated"@,
                    "DataPathActivated"@,
                ),
                _ => false,
            }
        }),
    ensures
        ({
            let r = setup.stepped(hal, w, port, physical, at);
            match port_of(w, port).expired {
                Some(end) => if at < end {
                    r == w
                } else {
                    &&& setup.state_of(r, port) == CmisState::Inserted
                    &&& port_of(r, port).retries == port_of(w, port).retries + 1
                    &&& port_of(r, port).expired is None
                    &&& r.commands == w.commands
                },
                None => r == w,
            }
        }),
{
    law_state_names_read_back(CmisState::Inserted);
}

/// A look at an unchanged configuration does nothing: the tables, the modules and
/// what is kept of a port that was seen before all stay.
pub proof fn law_unchanged_configuration_is_left_alone(
    setup: &CmisSetup,
    hal: &Hal,
    w: World,
    port: Seq<char>,
    physical: usize,
    at: u64,
)
    requires
        !setup.config_changed(w, port),
    ensures
        setup.watched(hal, w, port, physical, at).db == w.db,
        setup.watched(hal, w, port, physical, at).commands == w.commands,
        w.ports.contains_key(port) && w.ports[port].initialized ==> setup.watched(
            hal,
            w,
            port,
            physical,
            at,
        ) == w,
{
    if w.ports.contains_key(port) && w.ports[port].initialized {
        assert(setup.watched(hal, w, port, physical, at).ports =~= w.ports);
    }
}

/// A change of the configuration starts the bring-up over with a fresh count of
/// tries, also where it had ended.
pub proof fn law_configuration_change_starts_over(setup: &CmisSetup, w: World, port: Seq<char>)
    requires
        setup.config_changed(w, port),
    ensures
        ({
            let r = setup.reacted(w, port);
            &&& setup.state_of(r, port) == CmisState::Inserted
            &&& port_of(r, port).retries == 0
            &&& port_of(r, port).expired is None
            &&& !setup.config_changed(r, port)
        }),
{
    let noted = with_port(
        w,
        port,
        Port {
            initialized: true,
            last_admin: field_at(w.db, setup.cfg_port_tbl, port, "admin_status"@),
            last_htr: setup.host_tx_ready(w.db, port),
            ..port_of(w, port)
        },
    );
    lemma_state_written(setup, noted, port, CmisState::Inserted);
}

/// A module that is taken out has its bring-up set back to the start, once; the
/// state stays where it is while the module is away.
pub proof fn law_absent_module_is_waited_for(
    setup: &CmisSetup,
    hal: &Hal,
    w: World,
    port: Seq<char>,
    physical: usize,
    at: u64,
)
    requires
        !setup.at_rest(w, port),
        !present(hal, physical),
        !setup.config_changed(w, port),
    ensures
        ({
            let r = setup.processed(hal, w, port, physical, at);
            &&& r.commands == w.commands
            &&& !port_of(r, port).present_before
            &&& port_of(w, port).present_before ==> setup.state_of(r, port) == CmisState::Inserted
            &&& !port_of(w, port).present_before ==> r.db == w.db
        }),
{
    law_state_names_read_back(CmisState::Inserted);
}

/// A port that the configuration has no more has no status row and nothing kept of
/// it after a look, and its module is asked for nothing.
pub proof fn law_deconfigured_port_is_dropped(
    setup: &CmisSetup,
    hal: &Hal,
    w: World,
    port: Seq<char>,
    physical: usize,
    at: u64,
)
    requires
        setup.deconfigured(port),
    ensures
        ({
            let r = setup.ticked(hal, w, port, physical, at);
            &&& !r.db.contains_key((setup.status_sw_tbl, port))
            &&& !r.ports.contains_key(port)
            &&& r.commands == w.commands
        }),
        setup.watched(hal, w, port, physical, at) == w,
{
}

/// The bring-up of a wanted port whose module follows: seven steps lead from the
/// insertion to ready. The datapath is taken down and the transmitters turned off
/// on every lane, the module powered up, the applications staged and applied, the
/// datapath of the port's lanes initialized, and their transmitters turned on, in
/// this order and nothing else.
pub proof fn law_bring_up_reaches_ready(
    setup: &CmisSetup,
    h: Seq<Hal>,
    w: World,
    port: Seq<char>,
    physical: usize,
    at: Seq<u64>,
)
    requires
        h.len() == 7,
        at.len() == 7,
        forall|i: int| 0 <= i < 7 ==> physical < (#[trigger] h[i]).sfps@.len(),
        setup.state_of(w, port) == CmisState::Inserted,
        setup.wanted(w.db, port),
        port_of(w, port).retries <= CMIS_MAX_RETRIES,
        !port_of(w, port).forced_tx_disabled,
        ({
            let mask = lanes(setup.host_lane_count(w.db, port));
            &&& module_is_ready(&h[3], physical)
            &&& datapath_in(&h[3], physical, mask, "DataPathDeactivated"@, "DataPathDeactivated"@)
            &&& datapath_in(&h[5], physical, mask, "DataPathInitialized"@, "DataPathActivated"@)
            &&& datapath_in(&h[6], physical, mask, "DataPathActivated"@, "DataPathActivated"@)
        }),
    ensures
        ({
            let mask = lanes(setup.host_lane_count(w.db, port));
            let bytes = staged(dpconfig_read(&h[3], physical), 1, mask);
            let w7 = steps_taken(setup, h, w, port, physical, at, 7);
            &&& setup.state_of(w7, port) == CmisState::Ready
            &&& port_of(w7, port).active_apsel == staged_apsel(bytes, mask)
            &&& port_of(w7, port).host_lane_count == setup.host_lane_count(w.db, port)
            &&& forall|t: TableId, f: Seq<char>|
                {
                    let fields = active_fields(
                        staged_apsel(bytes, mask),
                        setup.host_lane_count(w.db, port) as nat,
                    );
                    setup.int_tbl == Some(t) && t != setup.status_sw_tbl && w.db.contains_key((t, port))
                        && fields.contains_key(f) ==> #[trigger] field_at(w7.db, t, port, f) == Some(fields[f])
                }
            &&& w7.commands == w.commands + seq![
                (physical, register_write(DPDEINIT_OFFSET, 0xff)),
                (physical, register_write(OUTPUT_DISABLE_TX_OFFSET, 0xff)),
                (physical, Command::SetLpmode(false)),
                (
                    physical,
                    Command::WriteEeprom { offset: register(SCS0_DPCONFIG_START), data: bytes },
                ),
                (physical, register_write(APPLY_DPINIT_OFFSET, mask)),
                (physical, register_write(DPDEINIT_OFFSET, !mask)),
                (physical, register_write(OUTPUT_DISABLE_TX_OFFSET, !mask)),
            ]
        }),
{
    let count = setup.host_lane_count(w.db, port);
    let mask = lanes(count);
    let p0 = Port {
        host_lane_count: count as usize,
        host_lanes_mask: mask,
        media_lanes_mask: mask,
        max_host_lanes_mask: 0xff,
        max_media_lanes_mask: 0xff,
        appl: 1,
        active_apsel: no_apsel(),
        ..port_of(w, port)
    };
    assert(steps_taken(setup, h, w, port, physical, at, 0) == w) by {
        reveal_with_fuel(steps_taken, 2);
    }
    lemma_next_step(setup, h, w, port, physical, at, 1);
    let w1 = setup.stepped(&h[0], w, port, physical, at[0]);
    assert(w1 == setup.with_state(with_port(w, port, p0), port, CmisState::DpPreInitCheck));
    lemma_state_written(setup, with_port(w, port, p0), port, CmisState::DpPreInitCheck);
    lemma_next_step(setup, h, w, port, physical, at, 2);
    let w2 = setup.stepped(&h[1], w1, port, physical, at[1]);
    lemma_state_written(setup, w1, port, CmisState::DpDeinit);
    assert(w2 == setup.with_state(w1, port, CmisState::DpDeinit));
    lemma_next_step(setup, h, w, port, physical, at, 3);
    let w3 = setup.stepped(&h[2], w2, port, physical, at[2]);
    let d = port_of(w, port).deinit_reg;
    let t = port_of(w, port).tx_disable_reg;
    assert(d | 0xff == 0xff) by (bit_vector);
    assert(t | 0xff == 0xff) by (bit_vector);
    let w3b = setup.timer_armed(
        setup.high_powered(
            &h[2],
            setup.tx_disabled(
                &h[2],
                setup.deinit_set(&h[2], with_port(w2, port, port_of(w2, port)), port, physical, 0xff),
                port,
                physical,
                0xff,
                true,
            ),
            physical,
        ),
        port,
        at[2],
    );
    assert(w3 == setup.with_state(w3b, port, CmisState::ApConfigured));
    lemma_state_written(setup, w3b, port, CmisState::ApConfigured);
    assert(w3b.db == w2.db);
    lemma_next_step(setup, h, w, port, physical, at, 4);
    let w4 = setup.stepped(&h[3], w3, port, physical, at[3]);
    let w4b = setup.application_applied(
        &h[3],
        setup.application_set(&h[3], w3, port, physical, mask),
        physical,
        mask,
    );
    assert(port_of(w3, port).host_lanes_mask == mask);
    assert(w4 == setup.with_state(w4b, port, CmisState::DpInit));
    lemma_state_written(setup, w4b, port, CmisState::DpInit);
    assert(w4b.db == w3.db);
    lemma_next_step(setup, h, w, port, physical, at, 5);
    let w5 = setup.stepped(&h[4], w4, port, physical, at[4]);
    let w5b = setup.timer_armed(setup.deinit_cleared(&h[4], w4, port, physical, mask), port, at[4]);
    assert(w5 == setup.with_state(w5b, port, CmisState::DpTxOn));
    lemma_state_written(setup, w5b, port, CmisState::DpTxOn);
    lemma_next_step(setup, h, w, port, physical, at, 6);
    let w6 = setup.stepped(&h[5], w5, port, physical, at[5]);
    let w6b = setup.timer_armed(setup.tx_disabled(&h[5], w5, port, physical, mask, false), port, at[5]);
    assert(w6 == setup.with_state(w6b, port, CmisState::DpActivation));
    lemma_state_written(setup, w6b, port, CmisState::DpActivation);
    lemma_next_step(setup, h, w, port, physical, at, 7);
    let w7 = setup.stepped(&h[6], w6, port, physical, at[6]);
    lemma_state_written(setup, setup.apsel_published(w6, port), port, CmisState::Ready);
    assert(w7 == setup.with_state(setup.apsel_published(w6, port), port, CmisState::Ready));
    assert(port_of(w6, port).active_apsel == staged_apsel(
        staged(dpconfig_read(&h[3], physical), 1, mask),
        mask,
    ));
    assert(port_of(w6, port).host_lane_count == count);
    assert forall|t: TableId| t != setup.status_sw_tbl implies #[trigger] w6.db.contains_key((t, port))
        == w.db.contains_key((t, port)) by {}
    assert(0xffu8 & !mask == !mask) by (bit_vector);
    assert(w7.commands =~= w.commands + seq![
        (physical, register_write(DPDEINIT_OFFSET, 0xff)),
        (physical, register_write(OUTPUT_DISABLE_TX_OFFSET, 0xff)),
        (physical, Command::SetLpmode(false)),
        (
            physical,
            Command::WriteEeprom {
                offset: register(SCS0_DPCONFIG_START),
                data: staged(dpconfig_read(&h[3], physical), 1, mask),
            },
        ),
        (physical, register_write(APPLY_DPINIT_OFFSET, mask)),
        (physical, register_write(DPDEINIT_OFFSET, !mask)),
        (physical, register_write(OUTPUT_DISABLE_TX_OFFSET, !mask)),
    ]);
}

/// One byte written to a register of the staged control set.
pub open spec fn register_write(offset: usize, byte: u8) -> Command {
    Command::WriteEeprom { offset: register(offset), data: seq![byte] }
}

/// The first `n` steps of a port's bring-up, each with what its module reports
/// and the time.
#[verifier::opaque]
pub open spec fn steps_taken(
    setup: &CmisSetup,
    h: Seq<Hal>,
    w: World,
    port: Seq<char>,
    physical: usize,
    at: Seq<u64>,
    n: int,
) -> World
    decreases n,
{
    if n <= 0 {
        w
    } else {
        setup.stepped(
            &h[n - 1],
            steps_taken(setup, h, w, port, physical, at, n - 1),
            port,
            physical,
            at[n - 1],
        )
    }
}

proof fn lemma_next_step(
    setup: &CmisSetup,
    h: Seq<Hal>,
    w: World,
    port: Seq<char>,
    physical: usize,
    at: Seq<u64>,
    n: int,
)
    requires
        n > 0,
    ensures
        steps_taken(setup, h, w, port, physical, at, n) == setup.stepped(
            &h[n - 1],
            steps_taken(setup, h, w, port, physical, at, n - 1),
            port,
            physical,
            at[n - 1],
        ),
{
    reveal_with_fuel(steps_taken, 2);
}

/// The bring-up of a wanted port is at its start after `k` tries.
#[verifier::opaque]
spec fn at_start(setup: &CmisSetup, w: World, port: Seq<char>, k: int) -> bool {
    &&& setup.state_of(w, port) == CmisState::Inserted
    &&& setup.wanted(w.db, port)
    &&& port_of(w, port).retries == k
    &&& !port_of(w, port).forced_tx_disabled
}

proof fn lemma_silent_try(
    setup: &CmisSetup,
    h: Seq<Hal>,
    w: World,
    port: Seq<char>,
    physical: usize,
    at: Seq<u64>,
    k: int,
)
    requires
        0 <= k <= CMIS_MAX_RETRIES,
        at_start(setup, steps_taken(setup, h, w, port, physical, at, 4 * k), port, k),
        !module_is_ready(&h[4 * k + 3], physical),
        at[4 * k + 2] + setup.ap_conf_wait <= at[4 * k + 3],
    ensures
        setup.state_of(steps_taken(setup, h, w, port, physical, at, 4 * k), port) == CmisState::Inserted,
        setup.state_of(steps_taken(setup, h, w, port, physical, at, 4 * k + 1), port)
            == CmisState::DpPreInitCheck,
        setup.state_of(steps_taken(setup, h, w, port, physical, at, 4 * k + 2), port) == CmisState::DpDeinit,
        setup.state_of(steps_taken(setup, h, w, port, physical, at, 4 * k + 3), port)
            == CmisState::ApConfigured,
        at_start(setup, steps_taken(setup, h, w, port, physical, at, 4 * k + 4), port, k + 1),
{
    reveal_with_fuel(steps_taken, 2);
    reveal(at_start);
    let w0 = steps_taken(setup, h, w, port, physical, at, 4 * k);
    let w1 = steps_taken(setup, h, w, port, physical, at, 4 * k + 1);
    let w2 = steps_taken(setup, h, w, port, physical, at, 4 * k + 2);
    let w3 = steps_taken(setup, h, w, port, physical, at, 4 * k + 3);
    let w4 = steps_taken(setup, h, w, port, physical, at, 4 * k + 4);
    assert(w1 == setup.stepped(&h[4 * k], w0, port, physical, at[4 * k]));
    assert(w2 == setup.stepped(&h[4 * k + 1], w1, port, physical, at[4 * k + 1]));
    assert(w3 == setup.stepped(&h[4 * k + 2], w2, port, physical, at[4 * k + 2]));
    assert(w4 == setup.stepped(&h[4 * k + 3], w3, port, physical, at[4 * k + 3]));
    let count = setup.host_lane_count(w0.db, port);
    let p0 = Port {
        host_lane_count: count as usize,
        host_lanes_mask: lanes(count),
        media_lanes_mask: lanes(count),
        max_host_lanes_mask: 0xff,
        max_media_lanes_mask: 0xff,
        appl: 1,
        active_apsel: no_apsel(),
        ..port_of(w0, port)
    };
    lemma_state_written(setup, with_port(w0, port, p0), port, CmisState::DpPreInitCheck);
    lemma_state_written(setup, w1, port, CmisState::DpDeinit);
    let w3b = setup.timer_armed(
        setup.high_powered(
            &h[4 * k + 2],
            setup.tx_disabled(
                &h[4 * k + 2],
                setup.deinit_set(
                    &h[4 * k + 2],
                    with_port(w2, port, port_of(w2, port)),
                    port,
                    physical,
                    0xff,
                ),
                port,
                physical,
                0xff,
                true,
            ),
            physical,
        ),
        port,
        at[4 * k + 2],
    );
    assert(w3 == setup.with_state(w3b, port, CmisState::ApConfigured));
    lemma_state_written(setup, w3b, port, CmisState::ApConfigured);
    assert(w3b.db == w2.db);
    lemma_state_written(setup, w3, port, CmisState::Inserted);
}

proof fn lemma_no_step(setup: &CmisSetup, h: Seq<Hal>, w: World, port: Seq<char>, physical: usize, at: Seq<u64>)
    requires
        setup.state_of(w, port) == CmisState::Inserted,
        setup.wanted(w.db, port),
        port_of(w, port).retries == 0,
        !port_of(w, port).forced_tx_disabled,
    ensures
        at_start(setup, steps_taken(setup, h, w, port, physical, at, 0), port, 0),
{
    reveal_with_fuel(steps_taken, 2);
    reveal(at_start);
}

proof fn lemma_last_try(
    setup: &CmisSetup,
    h: Seq<Hal>,
    w: World,
    port: Seq<char>,
    physical: usize,
    at: Seq<u64>,
    n: int,
)
    requires
        n >= 0,
        at_start(setup, steps_taken(setup, h, w, port, physical, at, n), port, CMIS_MAX_RETRIES + 1),
    ensures
        setup.state_of(steps_taken(setup, h, w, port, physical, at, n), port) == CmisState::Inserted,
        setup.state_of(steps_taken(setup, h, w, port, physical, at, n + 1), port) == CmisState::Failed,
{
    reveal_with_fuel(steps_taken, 2);
    reveal(at_start);
    lemma_state_written(
        setup,
        steps_taken(setup, h, w, port, physical, at, n),
        port,
        CmisState::Failed,
    );
}

/// A module that never becomes ready: the bring-up of its wanted port is tried
/// four times, each time until the wait has ended, and then it has failed. Until
/// then it has not come to an end.
pub proof fn law_silent_module_fails(
    setup: &CmisSetup,
    h: Seq<Hal>,
    w: World,
    port: Seq<char>,
    physical: usize,
    at: Seq<u64>,
    n: int,
)
    requires
        h.len() == 17,
        at.len() == 17,
        setup.state_of(w, port) == CmisState::Inserted,
        setup.wanted(w.db, port),
        port_of(w, port).retries == 0,
        !port_of(w, port).forced_tx_disabled,
        forall|i: int| 0 <= i < 17 ==> !module_is_ready(&#[trigger] h[i], physical),
        at[2] + setup.ap_conf_wait <= at[3],
        at[6] + setup.ap_conf_wait <= at[7],
        at[10] + setup.ap_conf_wait <= at[11],
        at[14] + setup.ap_conf_wait <= at[15],
        0 <= n <= 16,
    ensures
        setup.state_of(steps_taken(setup, h, w, port, physical, at, 17), port) == CmisState::Failed,
        !terminal(setup.state_of(steps_taken(setup, h, w, port, physical, at, n), port)),
{
    lemma_no_step(setup, h, w, port, physical, at);
    lemma_silent_try(setup, h, w, port, physical, at, 0);
    lemma_silent_try(setup, h, w, port, physical, at, 1);
    lemma_silent_try(setup, h, w, port, physical, at, 2);
    lemma_silent_try(setup, h, w, port, physical, at, 3);
    lemma_last_try(setup, h, w, port, physical, at, 16);
}

/// However many ports are looked at, those that the configuration has no more end
/// up without a status row and with nothing kept of them.
pub proof fn law_no_tick_revives_a_deconfigured_port(
    setup: &CmisSetup,
    hal: &Hal,
    w: World,
    at: u64,
    n: int,
    i: int,
    port: Seq<char>,
)
    requires
        setup.deconfigured(port),
        0 <= i < n <= setup.port_mapping.physical_to_logical.keys().len(),
        setup.port_mapping@.first_logical(setup.port_mapping.physical_to_logical.keys()[i]) == Some(port),
    ensures
        !setup.all_ticked(hal, w, at, n).db.contains_key((setup.status_sw_tbl, port)),
        !setup.all_ticked(hal, w, at, n).ports.contains_key(port),
    decreases n,
{
    let before = setup.all_ticked(hal, w, at, n - 1);
    let physical = setup.port_mapping.physical_to_logical.keys()[n - 1];
    if i < n - 1 {
        law_no_tick_revives_a_deconfigured_port(setup, hal, w, at, n - 1, i, port);
    }
    match setup.port_mapping@.first_logical(physical) {
        Some(other) => {
            law_look_is_confined(setup, hal, before, other, physical, at);
            law_deconfigured_port_is_dropped(setup, hal, before, port, physical, at);
            let r = setup.ticked(hal, before, other, physical, at);
            if other != port {
                assert(r.db.contains_key((setup.status_sw_tbl, port)) == before.db.contains_key(
                    (setup.status_sw_tbl, port),
                ));
                assert(r.ports.contains_key(port) == before.ports.contains_key(port));
            }
        },
        None => {},
    }
}

/// A look at the configuration of a port that has not changed reads no module: what
/// the modules report makes no difference.
pub proof fn law_unchanged_configuration_reads_no_module(
    setup: &CmisSetup,
    hal: &Hal,
    other: &Hal,
    w: World,
    port: Seq<char>,
    physical: usize,
    at: u64,
)
    requires
        !setup.config_changed(w, port),
    ensures
        setup.watched(hal, w, port, physical, at) == setup.watched(other, w, port, physical, at),
{
}

} // verus!
