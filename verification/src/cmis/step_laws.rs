//! What one look at each port comes to.

use vstd::prelude::*;
use vstd::string::*;
use crate::cmis::cmis_manager_task::{port_of, subport_mask, with_port, CmisSetup, World};
use crate::cmis::datapath::{
    datapath_in, lane_in, lane_state_name, lanes, no_apsel, register, Port, DPDEINIT_OFFSET, OUTPUT_DISABLE_TX_OFFSET,
};
use crate::cmis::lane_laws::{
    bit, law_every_lane_is_published, lanes_are, lemma_lanes_are, numbered_apsel, numbered_state,
};
use crate::cmis::laws::{law_look_is_confined, law_unwanted_port_is_dark, law_watch_is_confined};
use crate::db::{field_at, fields_at, with_hset, TableId};
use crate::error::XcvrdError;
use crate::hal::{Command, Hal};
use crate::text_laws::law_decimal_text_grows_by_digits;
use crate::value::{Dict, Reply, Val};
use crate::xcvrd_utilities::common::{
    cmis_state_text, law_state_names_read_back, state_name, state_named, terminal, CmisState,
};
use crate::xcvrd_utilities::port_event_helper::{EventState, PortChangeEventType};

verus! {

/// The names of the states in the status table, and which of them end the bring-up.
pub proof fn law_states_have_their_names(s: CmisState)
    ensures
        state_name(s) == match s {
            CmisState::Unknown => "UNKNOWN"@,
            CmisState::Inserted => "INSERTED"@,
            CmisState::DpPreInitCheck => "DP_PRE_INIT_CHECK"@,
            CmisState::DpDeinit => "DP_DEINIT"@,
            CmisState::ApConfigured => "AP_CONFIGURED"@,
            CmisState::DpActivation => "DP_ACTIVATION"@,
            CmisState::DpInit => "DP_INIT"@,
            CmisState::DpTxOn => "DP_TXON"@,
            CmisState::Ready => "READY"@,
            CmisState::Removed => "REMOVED"@,
            CmisState::Failed => "FAILED"@,
        },
        terminal(s) == (s == CmisState::Ready || s == CmisState::Removed || s == CmisState::Failed),
        state_named(state_name(s)) == s,
{
    law_state_names_read_back(s);
}

/// A port is wanted where the configuration has it up and its host is not said to be
/// unready; its configuration has changed where it was seen before with another setting
/// of either.
pub proof fn law_wish_for_a_port(setup: &CmisSetup, w: World, port: Seq<char>, t: TableId)
    requires
        setup.state_port_tbl == Some(t),
        w.ports.contains_key(port),
    ensures
        ({
            let admin = field_at(w.db, setup.cfg_port_tbl, port, "admin_status"@);
            let ready = field_at(w.db, t, port, "host_tx_ready"@);
            &&& setup.wanted(w.db, port) == (admin == Some("up"@) && ready != Some("false"@))
            &&& setup.config_changed(w, port) == (w.ports[port].initialized && (w.ports[port].last_admin != admin
                || w.ports[port].last_htr != ready))
        }),
{
}

/// The module in the slot reports the text `s` under `name` in its status.
pub open spec fn tells(hal: &Hal, physical: usize, d: Dict, name: Seq<char>, s: Seq<char>) -> bool {
    &&& physical < hal.sfps@.len()
    &&& hal.sfps@[physical as int].status == Ok::<Reply, XcvrdError>(Reply::Object(d))
    &&& d@.contains_key(name)
    &&& d@[name] == Val::Text(s)
}

/// Nothing came of a step but that the wait went on: before its end nothing happens,
/// and at its end the bring-up starts over and counts one more try.
pub open spec fn held(setup: &CmisSetup, w: World, r: World, port: Seq<char>, at: u64) -> bool {
    let ended = port_of(w, port).expired matches Some(d) && at >= d;
    &&& !ended ==> r == w
    &&& ended ==> {
        &&& r.commands == w.commands
        &&& field_at(r.db, setup.status_sw_tbl, port, "cmis_state"@) == Some("INSERTED"@)
        &&& port_of(r, port).retries == port_of(w, port).retries + 1
        &&& port_of(r, port).expired is None
    }
}

proof fn lemma_lane_fails(hal: &Hal, physical: usize, mask: u8, i: int, d: Dict, s: Seq<char>, a: Seq<char>, b: Seq<char>)
    requires
        1 <= i <= 8,
        bit(mask, (i - 1) as u8),
        tells(hal, physical, d, numbered_state(i), s),
        s != a,
        s != b,
    ensures
        !datapath_in(hal, physical, mask, a, b),
{
    law_decimal_text_grows_by_digits(0, i as nat);
    assert(lane_state_name(i - 1) == numbered_state(i));
    assert(lane_in(mask, i - 1));
}

/// Every lane of a port counts: as long as one of them, whichever it is, is not in the
/// state that is waited for, the bring-up does not go on.
pub proof fn law_every_lane_is_waited_for(
    setup: &CmisSetup,
    hal: &Hal,
    w: World,
    port: Seq<char>,
    physical: usize,
    at: u64,
    i: int,
    d: Dict,
    s: Seq<char>,
)
    requires
        1 <= i <= 8,
        bit(port_of(w, port).host_lanes_mask, (i - 1) as u8),
        port_of(w, port).retries <= 3,
        tells(hal, physical, d, numbered_state(i), s),
    ensures
        ({
            let state = field_at(w.db, setup.status_sw_tbl, port, "cmis_state"@);
            let r = setup.stepped(hal, w, port, physical, at);
            &&& state == Some("DP_PRE_INIT_CHECK"@) && port_of(w, port).forced_tx_disabled && s
                != "DataPathDeactivated"@ && s != "DataPathInitialized"@ ==> r == w
            &&& state == Some("AP_CONFIGURED"@) && s != "DataPathDeactivated"@ ==> held(setup, w, r, port, at)
            &&& state == Some("DP_TXON"@) && s != "DataPathInitialized"@ && s != "DataPathActivated"@ ==> held(
                setup,
                w,
                r,
                port,
                at,
            )
            &&& state == Some("DP_ACTIVATION"@) && s != "DataPathActivated"@ ==> held(setup, w, r, port, at)
        }),
{
    let mask = port_of(w, port).host_lanes_mask;
    law_state_names_read_back(CmisState::DpPreInitCheck);
    law_state_names_read_back(CmisState::ApConfigured);
    law_state_names_read_back(CmisState::DpTxOn);
    law_state_names_read_back(CmisState::DpActivation);
    if s != "DataPathDeactivated"@ && s != "DataPathInitialized"@ {
        lemma_lane_fails(hal, physical, mask, i, d, s, "DataPathDeactivated"@, "DataPathInitialized"@);
    }
    if s != "DataPathDeactivated"@ {
        lemma_lane_fails(hal, physical, mask, i, d, s, "DataPathDeactivated"@, "DataPathDeactivated"@);
    }
    if s != "DataPathInitialized"@ && s != "DataPathActivated"@ {
        lemma_lane_fails(hal, physical, mask, i, d, s, "DataPathInitialized"@, "DataPathActivated"@);
    }
    if s != "DataPathActivated"@ {
        lemma_lane_fails(hal, physical, mask, i, d, s, "DataPathActivated"@, "DataPathActivated"@);
    }
}

/// The module is waited for to say that it is ready before its lanes are configured.
pub proof fn law_module_is_waited_for(
    setup: &CmisSetup,
    hal: &Hal,
    w: World,
    port: Seq<char>,
    physical: usize,
    at: u64,
    d: Dict,
    s: Seq<char>,
)
    requires
        port_of(w, port).retries <= 3,
        tells(hal, physical, d, "module_state"@, s),
        s != "ModuleReady"@,
        field_at(w.db, setup.status_sw_tbl, port, "cmis_state"@) == Some("AP_CONFIGURED"@),
    ensures
        held(setup, w, setup.stepped(hal, w, port, physical, at), port, at),
{
    law_state_names_read_back(CmisState::ApConfigured);
}

/// Each wait of the bring-up ends as long after its beginning as is set.
pub proof fn law_waits_are_as_long_as_set(setup: &CmisSetup, hal: &Hal, w: World, port: Seq<char>, physical: usize, at: u64)
    requires
        port_of(w, port).retries <= 3,
        field_at(w.db, setup.status_sw_tbl, port, "cmis_state"@) == Some("DP_DEINIT"@),
        at + setup.ap_conf_wait <= u64::MAX,
    ensures
        ({
            let r = setup.stepped(hal, w, port, physical, at);
            &&& port_of(r, port).expired == Some((at + setup.ap_conf_wait) as u64)
            &&& field_at(r.db, setup.status_sw_tbl, port, "cmis_state"@) == Some("AP_CONFIGURED"@)
        }),
{
    law_state_names_read_back(CmisState::DpDeinit);
}

/// A look at a port whose bring-up is under way, whose configuration has not changed and
/// whose module was and is there goes one step on.
pub proof fn law_look_goes_a_step_on(setup: &CmisSetup, hal: &Hal, w: World, port: Seq<char>, physical: usize, at: u64)
    requires
        !(setup.deconfigured_ports matches Some(s) && s@.contains(port)),
        setup.port_mapping@.to_asic.contains_key(port),
        w.ports.contains_key(port),
        w.ports[port].initialized,
        w.ports[port].present_before,
        w.ports[port].last_admin == field_at(w.db, setup.cfg_port_tbl, port, "admin_status"@),
        w.ports[port].last_htr == match setup.state_port_tbl {
            Some(t) => field_at(w.db, t, port, "host_tx_ready"@),
            None => None,
        },
        physical < hal.sfps@.len(),
        hal.sfps@[physical as int].presence == Ok::<bool, XcvrdError>(true),
        ({
            let state = field_at(w.db, setup.status_sw_tbl, port, "cmis_state"@);
            ||| state == Some("INSERTED"@) && w.ports[port].last_written == "INSERTED"@
            ||| state == Some("DP_PRE_INIT_CHECK"@)
            ||| state == Some("DP_DEINIT"@)
            ||| state == Some("AP_CONFIGURED"@)
            ||| state == Some("DP_INIT"@)
            ||| state == Some("DP_TXON"@)
            ||| state == Some("DP_ACTIVATION"@)
        }),
    ensures
        setup.ticked(hal, w, port, physical, at) == setup.stepped(hal, w, port, physical, at),
{
    law_state_names_read_back(CmisState::Inserted);
    law_state_names_read_back(CmisState::DpPreInitCheck);
    law_state_names_read_back(CmisState::DpDeinit);
    law_state_names_read_back(CmisState::ApConfigured);
    law_state_names_read_back(CmisState::DpInit);
    law_state_names_read_back(CmisState::DpTxOn);
    law_state_names_read_back(CmisState::DpActivation);
    let r = setup.reacted(w, port);
    assert(r.ports =~= w.ports);
    assert(r == w);
    let p = w.ports[port];
    assert(w.ports.insert(port, Port { present_before: true, ..p }) =~= w.ports);
    assert(with_port(w, port, Port { present_before: true, ..p }) == w);
}

/// The bring-up of a port of which nothing is known yet begins with the insertion.
pub proof fn law_unknown_port_begins(setup: &CmisSetup, hal: &Hal, w: World, port: Seq<char>, physical: usize, at: u64)
    requires
        !(setup.deconfigured_ports matches Some(s) && s@.contains(port)),
        setup.port_mapping@.to_asic.contains_key(port),
        !w.ports.contains_key(port),
        field_at(w.db, setup.status_sw_tbl, port, "cmis_state"@) is None,
        physical < hal.sfps@.len(),
        hal.sfps@[physical as int].presence == Ok::<bool, XcvrdError>(true),
    ensures
        ({
            let r = setup.ticked(hal, w, port, physical, at);
            &&& field_at(r.db, setup.status_sw_tbl, port, "cmis_state"@) == Some("INSERTED"@)
            &&& r.commands == w.commands
            &&& r.ports.contains_key(port)
            &&& r.ports[port].present_before
            &&& r.ports[port].initialized
            &&& r.ports[port].retries == 0
            &&& r.ports[port].expired is None
            &&& r.ports[port].last_written == "INSERTED"@
            &&& r.ports[port].last_admin == field_at(w.db, setup.cfg_port_tbl, port, "admin_status"@)
        }),
{
    law_state_names_read_back(CmisState::Unknown);
    law_state_names_read_back(CmisState::Inserted);
}

/// An event that sets or adds a port notes its configuration and starts its bring-up
/// over, with no tries counted; an event that removes it marks it removed, and drops what
/// is kept of it where the configuration has it no more. Only front-panel ports matter.
pub proof fn law_port_events(setup: &CmisSetup, w: World, e: EventState)
    requires
        w.ports.contains_key(e.port_name),
    ensures
        ({
            let r = setup.updated(w, e);
            let front = e.port_name.len() >= 8 && e.port_name.subrange(0, 8) == "Ethernet"@;
            let comes = e.event_type == PortChangeEventType::PortSet || e.event_type == PortChangeEventType::PortAdd;
            let gone = e.db_name == Some("CONFIG_DB"@) && e.table_name == Some("PORT"@);
            let state = field_at(r.db, setup.status_sw_tbl, e.port_name, "cmis_state"@);
            &&& !front ==> r == w
            &&& r.commands == w.commands
            &&& front && comes ==> {
                &&& state == Some("INSERTED"@)
                &&& r.ports.contains_key(e.port_name)
                &&& r.ports[e.port_name].retries == 0
                &&& r.ports[e.port_name].expired is None
                &&& r.ports[e.port_name].initialized
                &&& !r.ports[e.port_name].forced_tx_disabled
                &&& e.port_dict.contains_key("admin_status"@) ==> r.ports[e.port_name].last_admin == Some(
                    e.port_dict["admin_status"@],
                )
                &&& !e.port_dict.contains_key("admin_status"@) ==> r.ports[e.port_name].last_admin
                    == w.ports[e.port_name].last_admin
                &&& e.port_dict.contains_key("host_tx_ready"@) ==> r.ports[e.port_name].last_htr == Some(
                    e.port_dict["host_tx_ready"@],
                )
                &&& !e.port_dict.contains_key("host_tx_ready"@) ==> r.ports[e.port_name].last_htr
                    == w.ports[e.port_name].last_htr
            }
            &&& front && !comes ==> {
                &&& state == Some("REMOVED"@)
                &&& r.ports.contains_key(e.port_name) == !gone
            }
        }),
{
    reveal_strlit("Ethernet");
    assert("Ethernet"@.len() == 8);
    assert("Ethernet"@.is_prefix_of(e.port_name) == (e.port_name.len() >= 8 && e.port_name.subrange(0, 8)
        == "Ethernet"@));
}

/// What the bring-up knows of a port is the same in both: its rows and what is kept of
/// it.
pub open spec fn port_alike(a: World, b: World, port: Seq<char>) -> bool {
    &&& a.ports.contains_key(port) == b.ports.contains_key(port)
    &&& a.ports.contains_key(port) ==> a.ports[port] == b.ports[port]
    &&& forall|t: TableId| #[trigger] a.db.contains_key((t, port)) == b.db.contains_key((t, port))
    &&& forall|t: TableId| #[trigger] fields_at(a.db, t, port) == fields_at(b.db, t, port)
}

proof fn lemma_alike_chain(a: World, b: World, c: World, port: Seq<char>)
    requires
        port_alike(a, b, port),
        port_alike(b, c, port),
    ensures
        port_alike(a, c, port),
{
    assert forall|t: TableId| #[trigger] a.db.contains_key((t, port)) == c.db.contains_key((t, port)) by {
        assert(a.db.contains_key((t, port)) == b.db.contains_key((t, port)));
        assert(b.db.contains_key((t, port)) == c.db.contains_key((t, port)));
    }
    assert forall|t: TableId| #[trigger] fields_at(a.db, t, port) == fields_at(c.db, t, port) by {
        assert(fields_at(a.db, t, port) == fields_at(b.db, t, port));
        assert(fields_at(b.db, t, port) == fields_at(c.db, t, port));
    }
}

proof fn lemma_confined_alike(setup: &CmisSetup, a: World, b: World, other: Seq<char>, physical: usize, port: Seq<char>)
    requires
        setup.confined(a, b, other, physical),
        other != port,
    ensures
        port_alike(a, b, port),
{
    assert(b.ports.contains_key(port) == a.ports.contains_key(port));
    assert forall|t: TableId| #[trigger] a.db.contains_key((t, port)) == b.db.contains_key((t, port)) by {
        assert(b.db.contains_key((t, port)) == a.db.contains_key((t, port)));
    }
    assert forall|t: TableId| #[trigger] fields_at(a.db, t, port) == fields_at(b.db, t, port) by {
        assert(b.db.contains_key((t, port)) == a.db.contains_key((t, port)));
    }
}

/// The looks come to the slot `p`, whose first logical port is `port`, at the `i`-th step,
/// and to no other slot of that port.
pub open spec fn looks_come_to(setup: &CmisSetup, p: usize, port: Seq<char>, i: int) -> bool {
    let slots = setup.port_mapping.physical_to_logical.keys();
    let m = setup.port_mapping@;
    &&& 0 <= i < slots.len()
    &&& slots[i] == p
    &&& m.to_logical.contains_key(p)
    &&& m.to_logical[p].len() > 0
    &&& m.to_logical[p][0] == port
    &&& forall|j: int| 0 <= j < slots.len() && j != i ==> m.first_logical(#[trigger] slots[j]) != Some(port)
}

proof fn lemma_other_look(setup: &CmisSetup, hal: &Hal, w: World, at: u64, n: int, port: Seq<char>)
    requires
        0 < n <= setup.port_mapping.physical_to_logical.keys().len(),
        setup.port_mapping@.first_logical(setup.port_mapping.physical_to_logical.keys()[n - 1]) != Some(port),
    ensures
        port_alike(setup.all_ticked(hal, w, at, n - 1), setup.all_ticked(hal, w, at, n), port),
        port_alike(setup.all_watched(hal, w, at, n - 1), setup.all_watched(hal, w, at, n), port),
{
    let q = setup.port_mapping.physical_to_logical.keys()[n - 1];
    let a = setup.all_ticked(hal, w, at, n - 1);
    let b = setup.all_watched(hal, w, at, n - 1);
    match setup.port_mapping@.first_logical(q) {
        Some(other) => {
            law_look_is_confined(setup, hal, a, other, q, at);
            law_watch_is_confined(setup, hal, b, other, q, at);
            lemma_confined_alike(setup, a, setup.ticked(hal, a, other, q, at), other, q, port);
            lemma_confined_alike(setup, b, setup.watched(hal, b, other, q, at), other, q, port);
        },
        None => {},
    }
}

proof fn lemma_looks_before(setup: &CmisSetup, hal: &Hal, w: World, at: u64, n: int, port: Seq<char>)
    requires
        0 <= n <= setup.port_mapping.physical_to_logical.keys().len(),
        forall|j: int|
            0 <= j < n ==> setup.port_mapping@.first_logical(
                #[trigger] setup.port_mapping.physical_to_logical.keys()[j],
            ) != Some(port),
    ensures
        port_alike(w, setup.all_ticked(hal, w, at, n), port),
        port_alike(w, setup.all_watched(hal, w, at, n), port),
    decreases n,
{
    if n > 0 {
        lemma_looks_before(setup, hal, w, at, n - 1, port);
        lemma_other_look(setup, hal, w, at, n, port);
        lemma_alike_chain(w, setup.all_ticked(hal, w, at, n - 1), setup.all_ticked(hal, w, at, n), port);
        lemma_alike_chain(w, setup.all_watched(hal, w, at, n - 1), setup.all_watched(hal, w, at, n), port);
    }
}

proof fn lemma_looks_behind(setup: &CmisSetup, hal: &Hal, w: World, at: u64, p: usize, port: Seq<char>, i: int, n: int)
    requires
        looks_come_to(setup, p, port, i),
        i < n <= setup.port_mapping.physical_to_logical.keys().len(),
    ensures
        port_alike(setup.all_ticked(hal, w, at, i + 1), setup.all_ticked(hal, w, at, n), port),
        port_alike(setup.all_watched(hal, w, at, i + 1), setup.all_watched(hal, w, at, n), port),
    decreases n,
{
    if n > i + 1 {
        lemma_looks_behind(setup, hal, w, at, p, port, i, n - 1);
        lemma_other_look(setup, hal, w, at, n, port);
        lemma_alike_chain(
            setup.all_ticked(hal, w, at, i + 1),
            setup.all_ticked(hal, w, at, n - 1),
            setup.all_ticked(hal, w, at, n),
            port,
        );
        lemma_alike_chain(
            setup.all_watched(hal, w, at, i + 1),
            setup.all_watched(hal, w, at, n - 1),
            setup.all_watched(hal, w, at, n),
            port,
        );
    }
}

/// A tick looks at the first logical port of every slot, whichever it is, once: what is
/// known of the port before its look is what was known before the tick, and what is known
/// after it is what is known after the tick. So does a look at every configuration.
pub proof fn law_every_slot_is_looked_at(
    setup: &CmisSetup,
    hal: &Hal,
    w: World,
    at: u64,
    p: usize,
    port: Seq<char>,
    i: int,
) -> (r: (World, World))
    requires
        looks_come_to(setup, p, port, i),
    ensures
        ({
            let n = setup.port_mapping.physical_to_logical.keys().len() as int;
            &&& port_alike(w, r.0, port)
            &&& port_alike(setup.ticked(hal, r.0, port, p, at), setup.all_ticked(hal, w, at, n), port)
            &&& port_alike(w, r.1, port)
            &&& port_alike(setup.watched(hal, r.1, port, p, at), setup.all_watched(hal, w, at, n), port)
        }),
{
    let n = setup.port_mapping.physical_to_logical.keys().len() as int;
    let a = setup.all_ticked(hal, w, at, i);
    let b = setup.all_watched(hal, w, at, i);
    lemma_looks_before(setup, hal, w, at, i, port);
    lemma_looks_behind(setup, hal, w, at, p, port, i, n);
    assert(setup.port_mapping@.first_logical(p) == Some(port));
    assert(setup.all_ticked(hal, w, at, i + 1) == setup.ticked(hal, a, port, p, at));
    assert(setup.all_watched(hal, w, at, i + 1) == setup.watched(hal, b, port, p, at));
    (a, b)
}

/// The bring-up of a port that is no longer wanted when its datapath is to be
/// initialized starts over, and its module is asked for nothing.
pub proof fn law_unwanted_port_is_not_initialized(
    setup: &CmisSetup,
    hal: &Hal,
    w: World,
    port: Seq<char>,
    physical: usize,
    at: u64,
)
    requires
        port_of(w, port).retries <= 3,
        field_at(w.db, setup.status_sw_tbl, port, "cmis_state"@) == Some("DP_INIT"@),
        field_at(w.db, setup.cfg_port_tbl, port, "admin_status"@) != Some("up"@) || (setup.state_port_tbl matches Some(
            t,
        ) && field_at(w.db, t, port, "host_tx_ready"@) == Some("false"@)),
    ensures
        ({
            let r = setup.stepped(hal, w, port, physical, at);
            &&& field_at(r.db, setup.status_sw_tbl, port, "cmis_state"@) == Some("INSERTED"@)
            &&& r.commands == w.commands
            &&& port_of(r, port).retries == 0
        }),
{
    law_state_names_read_back(CmisState::DpInit);
}

/// The bring-up that is started over begins with the insertion, without a wait.
pub proof fn law_starting_over(setup: &CmisSetup, w: World, port: Seq<char>, retries: u32)
    ensures
        ({
            let r = setup.reinitialized(w, port, retries);
            &&& field_at(r.db, setup.status_sw_tbl, port, "cmis_state"@) == Some("INSERTED"@)
            &&& r.commands == w.commands
            &&& r.ports.contains_key(port)
            &&& r.ports[port].retries == retries
            &&& r.ports[port].expired is None
            &&& r.ports[port].last_written == "INSERTED"@
        }),
{
}

/// The first step of a bring-up: a wanted port goes on, another is dark and done.
pub open spec fn first_step_taken(setup: &CmisSetup, w: World, r: World, port: Seq<char>) -> bool {
    let ready = match setup.state_port_tbl {
        Some(t) => field_at(w.db, t, port, "host_tx_ready"@),
        None => None,
    };
    let wanted = field_at(w.db, setup.cfg_port_tbl, port, "admin_status"@) == Some("up"@) && ready != Some("false"@);
    let state = field_at(r.db, setup.status_sw_tbl, port, "cmis_state"@);
    &&& wanted ==> state == Some("DP_PRE_INIT_CHECK"@)
    &&& !wanted ==> state == Some("READY"@)
    &&& r.ports.contains_key(port)
    &&& r.ports[port].present_before
    &&& r.ports[port].initialized
    &&& r.ports[port].retries == 0
}

proof fn lemma_first_step(setup: &CmisSetup, hal: &Hal, w: World, port: Seq<char>, physical: usize, at: u64)
    requires
        field_at(w.db, setup.status_sw_tbl, port, "cmis_state"@) == Some("INSERTED"@),
        w.ports.contains_key(port),
        w.ports[port].present_before,
        w.ports[port].initialized,
        w.ports[port].retries == 0,
    ensures
        first_step_taken(setup, w, setup.stepped(hal, w, port, physical, at), port),
{
    law_state_names_read_back(CmisState::Inserted);
}

/// Writing the insertion of a port leaves what the configuration says of it.
proof fn lemma_still_wished(setup: &CmisSetup, a: World, b: World, port: Seq<char>)
    requires
        b.db == with_hset(a.db, setup.status_sw_tbl, port, "cmis_state"@, "INSERTED"@),
    ensures
        field_at(b.db, setup.cfg_port_tbl, port, "admin_status"@) == field_at(
            a.db,
            setup.cfg_port_tbl,
            port,
            "admin_status"@,
        ),
        setup.state_port_tbl matches Some(t) ==> field_at(b.db, t, port, "host_tx_ready"@) == field_at(
            a.db,
            t,
            port,
            "host_tx_ready"@,
        ),
        field_at(b.db, setup.status_sw_tbl, port, "cmis_state"@) == Some("INSERTED"@),
{
    reveal_strlit("cmis_state");
    reveal_strlit("admin_status");
    reveal_strlit("host_tx_ready");
    assert("cmis_state"@.len() == 10 && "admin_status"@.len() == 12 && "host_tx_ready"@.len() == 13);
}

/// A changed configuration of a port whose module is there is acted on at once, by a tick
/// as by a look at the configuration: the bring-up takes its first step anew.
pub proof fn law_changed_configuration_is_acted_on(
    setup: &CmisSetup,
    hal: &Hal,
    w: World,
    port: Seq<char>,
    physical: usize,
    at: u64,
)
    requires
        !(setup.deconfigured_ports matches Some(s) && s@.contains(port)),
        setup.port_mapping@.to_asic.contains_key(port),
        w.ports.contains_key(port),
        w.ports[port].initialized,
        w.ports[port].last_admin != field_at(w.db, setup.cfg_port_tbl, port, "admin_status"@) || (
        setup.state_port_tbl matches Some(t) && w.ports[port].last_htr != field_at(w.db, t, port, "host_tx_ready"@)),
        physical < hal.sfps@.len(),
        hal.sfps@[physical as int].presence == Ok::<bool, XcvrdError>(true),
    ensures
        first_step_taken(setup, w, setup.ticked(hal, w, port, physical, at), port),
        first_step_taken(setup, w, setup.watched(hal, w, port, physical, at), port),
{
    assert(setup.config_changed(w, port));
    let r = setup.presence_noted(setup.reacted(w, port), port, true);
    lemma_still_wished(setup, w, r, port);
    lemma_first_step(setup, hal, r, port, physical, at);
}

/// A bring-up that others took as done is driven here from its first step on, where the
/// module is there.
pub proof fn law_foreign_success_is_not_taken(
    setup: &CmisSetup,
    hal: &Hal,
    w: World,
    port: Seq<char>,
    physical: usize,
    at: u64,
)
    requires
        !(setup.deconfigured_ports matches Some(s) && s@.contains(port)),
        setup.port_mapping@.to_asic.contains_key(port),
        w.ports.contains_key(port) ==> !w.ports[port].initialized && w.ports[port].last_written != "READY"@,
        field_at(w.db, setup.status_sw_tbl, port, "cmis_state"@) == Some("READY"@),
        physical < hal.sfps@.len(),
        hal.sfps@[physical as int].presence == Ok::<bool, XcvrdError>(true),
    ensures
        first_step_taken(setup, w, setup.ticked(hal, w, port, physical, at), port),
{
    law_state_names_read_back(CmisState::Ready);
    reveal_strlit("READY");
    assert("READY"@.len() == 5);
    let r = setup.presence_noted(setup.reinitialized(setup.reacted(w, port), port, 0), port, true);
    lemma_still_wished(setup, w, r, port);
    lemma_first_step(setup, hal, r, port, physical, at);
}

/// A bring-up that others set back to the insertion has its tries counted anew, and
/// waits for nothing that was waited for before.
pub proof fn law_set_back_port_is_tried_anew(
    setup: &CmisSetup,
    hal: &Hal,
    w: World,
    port: Seq<char>,
    physical: usize,
    at: u64,
)
    requires
        !(setup.deconfigured_ports matches Some(s) && s@.contains(port)),
        setup.port_mapping@.to_asic.contains_key(port),
        w.ports.contains_key(port),
        !w.ports[port].initialized || (w.ports[port].last_admin == field_at(
            w.db,
            setup.cfg_port_tbl,
            port,
            "admin_status"@,
        ) && w.ports[port].last_htr == match setup.state_port_tbl {
            Some(t) => field_at(w.db, t, port, "host_tx_ready"@),
            None => None,
        }),
        w.ports[port].last_written != "INSERTED"@,
        field_at(w.db, setup.status_sw_tbl, port, "cmis_state"@) == Some("INSERTED"@),
        physical < hal.sfps@.len(),
        hal.sfps@[physical as int].presence == Ok::<bool, XcvrdError>(true),
    ensures
        first_step_taken(setup, w, setup.ticked(hal, w, port, physical, at), port),
        port_of(setup.ticked(hal, w, port, physical, at), port).expired is None,
{
    law_state_names_read_back(CmisState::Inserted);
    let r = setup.reacted(w, port);
    let p = port_of(r, port);
    let seen = Port { present_before: true, retries: 0, expired: None, last_written: "INSERTED"@, ..p };
    lemma_first_step(setup, hal, with_port(r, port, seen), port, physical, at);
}

/// A port whose bring-up has ended here, or has ended otherwise than with success, and
/// whose configuration has not changed is left alone.
pub proof fn law_ended_bring_up_is_left_alone(
    setup: &CmisSetup,
    hal: &Hal,
    w: World,
    port: Seq<char>,
    physical: usize,
    at: u64,
)
    requires
        !(setup.deconfigured_ports matches Some(s) && s@.contains(port)),
        w.ports.contains_key(port),
        w.ports[port].last_admin == field_at(w.db, setup.cfg_port_tbl, port, "admin_status"@),
        w.ports[port].last_htr == match setup.state_port_tbl {
            Some(t) => field_at(w.db, t, port, "host_tx_ready"@),
            None => None,
        },
        ({
            let state = field_at(w.db, setup.status_sw_tbl, port, "cmis_state"@);
            ||| state == Some("READY"@) && w.ports[port].last_written == "READY"@
            ||| state == Some("FAILED"@)
            ||| state == Some("REMOVED"@)
        }),
    ensures
        setup.ticked(hal, w, port, physical, at).db == w.db,
        setup.ticked(hal, w, port, physical, at).commands == w.commands,
{
    law_state_names_read_back(CmisState::Ready);
    law_state_names_read_back(CmisState::Failed);
    law_state_names_read_back(CmisState::Removed);
}

/// The lanes of a subport, counted from one, are those behind the lanes of the subports
/// before it, as many as a subport has; without subports they are the first.
pub proof fn law_lanes_of_a_subport(count: u32, subport: u32, lane: u32)
    requires
        1 <= count <= 8,
        1 <= subport,
        (subport - 1) * count < 32,
        lane < 8,
    ensures
        (subport_mask(count, subport) & (1u32 << lane) != 0) == ((subport - 1) * count <= lane < subport * count),
        (subport_mask(count, 0) & (1u32 << lane) != 0) == (lane < count),
        subport_mask(count, subport) <= 0xff,
{
    let m = lanes(count as int) as u32;
    let shift = ((subport - 1) * count) as u32;
    assert(0 <= (subport - 1) * count && (subport - 1) * count + count == subport * count) by (nonlinear_arith)
        requires
            1 <= subport,
            1 <= count,
    ;
    assert(m == (1u32 << count) - 1) by {
        assert((1u32 << 1u32) == 2 && (1u32 << 2u32) == 4 && (1u32 << 3u32) == 8 && (1u32 << 4u32) == 16 && (1u32
            << 5u32) == 32 && (1u32 << 6u32) == 64 && (1u32 << 7u32) == 128 && (1u32 << 8u32) == 256) by (bit_vector);
    }
    assert((((m << shift) & 0xff) & (1u32 << lane) != 0) == (shift <= lane && lane < shift + count)) by (bit_vector)
        requires
            m == (1u32 << count) - 1,
            1 <= count <= 8,
            shift < 32,
            lane < 8,
    ;
    assert((((m << 0u32) & 0xff) & (1u32 << lane) != 0) == (lane < count)) by (bit_vector)
        requires
            m == (1u32 << count) - 1,
            1 <= count <= 8,
            lane < 8,
    ;
    assert(((m << shift) & 0xff) <= 0xff) by (bit_vector);
}

/// A port that is not wanted is dark: its datapath is taken down and its transmitters are
/// turned off on every lane, it is done, and no lane and no application of it is
/// published.
pub proof fn law_dark_port_publishes_no_lanes(
    setup: &CmisSetup,
    hal: &Hal,
    w: World,
    port: Seq<char>,
    physical: usize,
    at: u64,
    t: TableId,
    i: int,
)
    requires
        port_of(w, port).retries <= 3,
        field_at(w.db, setup.status_sw_tbl, port, "cmis_state"@) == Some("INSERTED"@),
        field_at(w.db, setup.cfg_port_tbl, port, "admin_status"@) != Some("up"@) || (setup.state_port_tbl matches Some(
            x,
        ) && field_at(w.db, x, port, "host_tx_ready"@) == Some("false"@)),
        physical < hal.sfps@.len(),
        setup.int_tbl == Some(t),
        t != setup.status_sw_tbl,
        w.db.contains_key((t, port)),
        1 <= i <= 8,
    ensures
        ({
            let r = setup.stepped(hal, w, port, physical, at);
            &&& field_at(r.db, setup.status_sw_tbl, port, "cmis_state"@) == Some("READY"@)
            &&& field_at(r.db, t, port, numbered_apsel(i)) == Some("N/A"@)
            &&& field_at(r.db, t, port, "host_lane_count"@) == Some(seq!["0123456789"@[0]])
            &&& field_at(r.db, t, port, "media_lane_count"@) == Some(seq!["0123456789"@[0]])
            &&& r.ports.contains_key(port) && r.ports[port].forced_tx_disabled
            &&& r.commands == w.commands.push(
                (physical, Command::WriteEeprom { offset: 2176, data: seq![0xffu8] }),
            ).push((physical, Command::WriteEeprom { offset: 2178, data: seq![0xffu8] }))
        }),
{
    law_state_names_read_back(CmisState::Inserted);
    law_unwanted_port_is_dark(setup, hal, w, port, physical, at);
    law_every_lane_is_published(no_apsel(), 0, i);
    assert(register(DPDEINIT_OFFSET) == 2176);
    assert(register(OUTPUT_DISABLE_TX_OFFSET) == 2178);
}

/// Where the transmitters were turned off before, the datapath of every lane has to settle
/// first; then, and else at once, the datapath is taken down next, and that they were
/// turned off counts no more.
pub proof fn law_settled_datapath_goes_on(
    setup: &CmisSetup,
    hal: &Hal,
    w: World,
    port: Seq<char>,
    physical: usize,
    at: u64,
    n: int,
)
    requires
        w.ports.contains_key(port),
        w.ports[port].retries <= 3,
        w.ports[port].host_lanes_mask == lanes(n),
        0 <= n <= 8,
        field_at(w.db, setup.status_sw_tbl, port, "cmis_state"@) == Some("DP_PRE_INIT_CHECK"@),
        w.ports[port].forced_tx_disabled ==> lanes_are(hal, physical, n, "DataPathDeactivated"@, "DataPathInitialized"@),
    ensures
        ({
            let r = setup.stepped(hal, w, port, physical, at);
            &&& field_at(r.db, setup.status_sw_tbl, port, "cmis_state"@) == Some("DP_DEINIT"@)
            &&& r.ports.contains_key(port) && !r.ports[port].forced_tx_disabled
            &&& r.commands == w.commands
        }),
{
    law_state_names_read_back(CmisState::DpPreInitCheck);
    lemma_lanes_are(hal, physical, n, "DataPathDeactivated"@, "DataPathInitialized"@);
}

/// A module that is taken out while its bring-up is under way has it set back to the
/// start, with no tries counted, and that it is gone is noted; so it is where the
/// configuration changes while the module is away.
pub proof fn law_gone_module_is_noted(setup: &CmisSetup, hal: &Hal, w: World, port: Seq<char>, physical: usize, at: u64)
    requires
        !(setup.deconfigured_ports matches Some(s) && s@.contains(port)),
        setup.port_mapping@.to_asic.contains_key(port),
        w.ports.contains_key(port),
        w.ports[port].initialized,
        physical < hal.sfps@.len(),
        hal.sfps@[physical as int].presence == Ok::<bool, XcvrdError>(false),
        ({
            let state = field_at(w.db, setup.status_sw_tbl, port, "cmis_state"@);
            state != Some("READY"@) && state != Some("FAILED"@) && state != Some("REMOVED"@)
        }),
    ensures
        ({
            let r = setup.ticked(hal, w, port, physical, at);
            let x = setup.watched(hal, w, port, physical, at);
            let changed = w.ports[port].last_admin != field_at(w.db, setup.cfg_port_tbl, port, "admin_status"@) || (
            setup.state_port_tbl matches Some(t) && w.ports[port].last_htr != field_at(w.db, t, port, "host_tx_ready"@));
            &&& r.commands == w.commands
            &&& r.ports.contains_key(port) && !r.ports[port].present_before
            &&& w.ports[port].present_before || changed ==> {
                &&& field_at(r.db, setup.status_sw_tbl, port, "cmis_state"@) == Some("INSERTED"@)
                &&& r.ports[port].retries == 0
                &&& r.ports[port].expired is None
            }
            &&& changed ==> {
                &&& x.commands == w.commands
                &&& x.ports.contains_key(port) && !x.ports[port].present_before
                &&& field_at(x.db, setup.status_sw_tbl, port, "cmis_state"@) == Some("INSERTED"@)
                &&& x.ports[port].retries == 0
            }
        }),
{
    law_state_names_read_back(CmisState::Unknown);
    lemma_ended_states(cmis_state_text(w.db, setup.status_sw_tbl, port));
    reveal_strlit("UNKNOWN");
    reveal_strlit("READY");
    reveal_strlit("FAILED");
    reveal_strlit("REMOVED");
    assert("UNKNOWN"@[0] == 'U' && "READY"@[0] == 'R' && "FAILED"@[0] == 'F' && "REMOVED"@[0] == 'R');
}

proof fn lemma_ended_states(s: Seq<char>)
    ensures
        terminal(state_named(s)) ==> s == "READY"@ || s == "FAILED"@ || s == "REMOVED"@,
{
}

} // verus!
