//! The state machine that brings up the datapath of each port.

use vstd::prelude::*;
use vstd::string::*;
use crate::cmis::datapath::{
    apsel_of, ask, asked, check_datapath_state, cmis_linear, datapath_in, dpconfig_read, empty_apsel, fresh_port,
    lane_mask, lanes, module_is_ready, no_apsel, read_status_text, reg_written, register, stage, staged,
    staged_apsel, write_reg, Port, PortState, APPLY_DPINIT_OFFSET, CMIS_MAX_HOST_LANES, CMIS_MAX_RETRIES,
    DPDEINIT_OFFSET, OUTPUT_DISABLE_TX_OFFSET, SCS0_DPCONFIG_START, SCS0_PAGE,
};
use crate::db::{field_at, with_del, with_hset, with_set, Db, DbState, Fields, Row, TableId};
use crate::hal::{present, Command, CommandLog, Hal, SfpCommand};
use crate::ord_map::{Duplicate, OrdMap, StrMap, StrSet};
use crate::text::{count_filled_parts, dec, filled, is_text, join, parts, same, same_option, starts_with, u64_text, usize_text};
use crate::xcvrd_utilities::common::{
    cmis_state_text, get_cmis_state_from_state_db, state_name, state_named, terminal, CmisState,
    CMIS_STATE_INSERTED,
};
use crate::xcvrd_utilities::port_event_helper::{EventState, PortChangeEvent, PortChangeEventType, PortMapping};

verus! {

/// The milliseconds from one step of the bring-up to the next.
pub const DEFAULT_TICK_MSECS: u64 = 1000;

/// The milliseconds between two looks at the configuration.
pub const REACTION_POLL_MSECS: u64 = 100;

/// The milliseconds that a state is waited for before the bring-up is tried again.
pub const DEFAULT_AP_CONF_WAIT_MSECS: u64 = 3000;

/// What the bring-up reads and changes: the tables, what is kept of each port,
/// and the commands asked of the modules.
#[verifier::ext_equal]
pub struct World {
    pub db: DbState,
    pub ports: Map<Seq<char>, Port>,
    pub commands: Seq<(usize, Command)>,
}

/// What is kept of a port; nothing known, where nothing is kept.
pub open spec fn port_of(w: World, port: Seq<char>) -> Port {
    if w.ports.contains_key(port) {
        w.ports[port]
    } else {
        fresh_port()
    }
}

/// What is kept of a port replaced.
pub open spec fn with_port(w: World, port: Seq<char>, p: Port) -> World {
    World { ports: w.ports.insert(port, p), ..w }
}

/// The name of the field that holds a lane's application.
pub open spec fn apsel_field(lane: int) -> Seq<char> {
    "active_apsel_hostlane"@ + dec((lane + 1) as nat)
}

/// The text of a lane's application.
pub open spec fn apsel_text(a: Option<u8>) -> Seq<char> {
    match a {
        Some(n) => dec(n as nat),
        None => "N/A"@,
    }
}

/// The applications of the first `n` lanes as fields.
pub open spec fn apsel_fields(a: Seq<Option<u8>>, n: int) -> Fields
    decreases n,
{
    if n <= 0 {
        Map::empty()
    } else {
        apsel_fields(a, n - 1).insert(apsel_field(n - 1), apsel_text(a[n - 1]))
    }
}

/// The applications of every lane and the lane counts as fields.
pub open spec fn active_fields(a: Seq<Option<u8>>, count: nat) -> Fields {
    apsel_fields(a, 8).insert("host_lane_count"@, dec(count)).insert("media_lane_count"@, dec(count))
}

/// The ports, tables and times that the bring-up works with.
pub struct CmisSetup {
    pub port_mapping: PortMapping,
    pub skip_cmis_mgr: bool,
    pub status_sw_tbl: TableId,
    pub cfg_port_tbl: TableId,
    pub state_port_tbl: Option<TableId>,
    pub int_tbl: Option<TableId>,
    /// The milliseconds that a state is waited for.
    pub ap_conf_wait: u64,
    /// The logical ports that the configuration has no more.
    pub deconfigured_ports: Option<StrSet>,
}

impl CmisSetup {
    /// The configuration has the port no more.
    pub open spec fn deconfigured(&self, port: Seq<char>) -> bool {
        self.deconfigured_ports matches Some(s) && s@.contains(port)
    }

    /// The state that the status table holds for a port.
    pub open spec fn state_of(&self, w: World, port: Seq<char>) -> CmisState {
        state_named(cmis_state_text(w.db, self.status_sw_tbl, port))
    }

    /// The configuration wants the port up.
    pub open spec fn admin_up(&self, db: DbState, port: Seq<char>) -> bool {
        field_at(db, self.cfg_port_tbl, port, "admin_status"@) == Some("up"@)
    }

    /// What the state table says of the host's transmitters.
    pub open spec fn host_tx_ready(&self, db: DbState, port: Seq<char>) -> Option<Seq<char>> {
        match self.state_port_tbl {
            Some(t) => field_at(db, t, port, "host_tx_ready"@),
            None => None,
        }
    }

    /// The port is wanted: up, and the host's transmitters not said to be unready.
    pub open spec fn wanted(&self, db: DbState, port: Seq<char>) -> bool {
        self.admin_up(db, port) && self.host_tx_ready(db, port) != Some("false"@)
    }

    /// How many host lanes the configuration gives a port: the entries of its lane
    /// list, or four where there are none or too many.
    pub open spec fn host_lane_count(&self, db: DbState, port: Seq<char>) -> int {
        match field_at(db, self.cfg_port_tbl, port, "lanes"@) {
            Some(s) => {
                let n = filled(parts(s)) as int;
                if n == 0 || n > CMIS_MAX_HOST_LANES {
                    4
                } else {
                    n
                }
            },
            None => 4,
        }
    }

    /// A port's state written and noted.
    pub open spec fn with_state(&self, w: World, port: Seq<char>, s: CmisState) -> World {
        World {
            db: with_hset(w.db, self.status_sw_tbl, port, "cmis_state"@, state_name(s)),
            ports: w.ports.insert(port, Port { last_written: state_name(s), ..port_of(w, port) }),
            commands: w.commands,
        }
    }

    /// The bring-up of a port started over.
    pub open spec fn reinitialized(&self, w: World, port: Seq<char>, retries: u32) -> World {
        let w = self.with_state(w, port, CmisState::Inserted);
        with_port(w, port, Port { retries, expired: None, ..port_of(w, port) })
    }

    /// The end of the present wait set.
    pub open spec fn timer_armed(&self, w: World, port: Seq<char>, at: u64) -> World {
        with_port(
            w,
            port,
            Port { expired: Some((at + self.ap_conf_wait) as u64), ..port_of(w, port) },
        )
    }

    /// The deinit bits of the lanes set.
    pub open spec fn deinit_set(&self, hal: &Hal, w: World, port: Seq<char>, physical: usize, mask: u8) -> World {
        let p = Port { deinit_reg: port_of(w, port).deinit_reg | mask, ..port_of(w, port) };
        World {
            commands: reg_written(hal, w.commands, physical, DPDEINIT_OFFSET, p.deinit_reg),
            ..with_port(w, port, p)
        }
    }

    /// The deinit bits of the lanes cleared.
    pub open spec fn deinit_cleared(&self, hal: &Hal, w: World, port: Seq<char>, physical: usize, mask: u8) -> World {
        let p = Port { deinit_reg: port_of(w, port).deinit_reg & !mask, ..port_of(w, port) };
        World {
            commands: reg_written(hal, w.commands, physical, DPDEINIT_OFFSET, p.deinit_reg),
            ..with_port(w, port, p)
        }
    }

    /// The transmitters of the lanes turned off or on.
    pub open spec fn tx_disabled(
        &self,
        hal: &Hal,
        w: World,
        port: Seq<char>,
        physical: usize,
        mask: u8,
        disable: bool,
    ) -> World {
        let reg = port_of(w, port).tx_disable_reg;
        let p = Port {
            tx_disable_reg: if disable {
                reg | mask
            } else {
                reg & !mask
            },
            ..port_of(w, port)
        };
        World {
            commands: reg_written(hal, w.commands, physical, OUTPUT_DISABLE_TX_OFFSET, p.tx_disable_reg),
            ..with_port(w, port, p)
        }
    }

    /// The module taken out of low-power mode.
    pub open spec fn high_powered(&self, hal: &Hal, w: World, physical: usize) -> World {
        World { commands: asked(hal, w.commands, physical, Command::SetLpmode(false)), ..w }
    }

    /// The application of the port.
    pub open spec fn application(&self, w: World, port: Seq<char>) -> u8 {
        if w.ports.contains_key(port) {
            w.ports[port].appl
        } else {
            1
        }
    }

    /// The application of each lane of the mask staged and noted.
    pub open spec fn application_set(&self, hal: &Hal, w: World, port: Seq<char>, physical: usize, mask: u8) -> World {
        let bytes = staged(dpconfig_read(hal, physical), self.application(w, port), mask);
        World {
            commands: asked(
                hal,
                w.commands,
                physical,
                Command::WriteEeprom { offset: register(SCS0_DPCONFIG_START), data: bytes },
            ),
            ..with_port(w, port, Port { active_apsel: staged_apsel(bytes, mask), ..port_of(w, port) })
        }
    }

    /// The staged applications applied to the lanes of the mask.
    pub open spec fn application_applied(&self, hal: &Hal, w: World, physical: usize, mask: u8) -> World {
        World { commands: reg_written(hal, w.commands, physical, APPLY_DPINIT_OFFSET, mask), ..w }
    }

    /// The applications of a port published, where its module is identified and
    /// anything is kept of the port.
    pub open spec fn apsel_published(&self, w: World, port: Seq<char>) -> World {
        match self.int_tbl {
            Some(t) => if w.db.contains_key((t, port)) && w.ports.contains_key(port) {
                World {
                    db: with_set(
                        w.db,
                        t,
                        port,
                        active_fields(w.ports[port].active_apsel, w.ports[port].host_lane_count as nat),
                    ),
                    ..w
                }
            } else {
                w
            },
            None => w,
        }
    }

    /// No applications and no lanes published, where the port's module is
    /// identified.
    pub open spec fn apsel_reset(&self, w: World, port: Seq<char>) -> World {
        match self.int_tbl {
            Some(t) => if w.db.contains_key((t, port)) {
                World { db: with_set(w.db, t, port, active_fields(no_apsel(), 0)), ..w }
            } else {
                w
            },
            None => w,
        }
    }

    /// A module was inserted: its lanes are taken from the configuration. The
    /// bring-up begins where the port is wanted; else its transmitters are turned
    /// off, which is all there is to do.
    pub open spec fn on_inserted(&self, hal: &Hal, w: World, port: Seq<char>, physical: usize) -> World {
        let count = self.host_lane_count(w.db, port);
        let w = with_port(
            w,
            port,
            Port {
                host_lane_count: count as usize,
                host_lanes_mask: lanes(count),
                media_lanes_mask: lanes(count),
                max_host_lanes_mask: 0xff,
                max_media_lanes_mask: 0xff,
                appl: 1,
                active_apsel: no_apsel(),
                ..port_of(w, port)
            },
        );
        if !self.wanted(w.db, port) {
            let w = self.deinit_set(hal, w, port, physical, 0xff);
            let w = self.tx_disabled(hal, w, port, physical, 0xff, true);
            let w = with_port(w, port, Port { forced_tx_disabled: true, ..port_of(w, port) });
            let w = self.apsel_reset(w, port);
            self.with_state(w, port, CmisState::Ready)
        } else {
            self.with_state(w, port, CmisState::DpPreInitCheck)
        }
    }

    /// Before the datapath is taken down: where the transmitters were turned off,
    /// the datapath has to settle first.
    pub open spec fn on_pre_init_check(&self, hal: &Hal, w: World, port: Seq<char>, physical: usize) -> World {
        let p = port_of(w, port);
        if p.forced_tx_disabled && !datapath_in(
            hal,
            physical,
            p.host_lanes_mask,
            "DataPathDeactivated"@,
            "DataPathInitialized"@,
        ) {
            w
        } else if p.forced_tx_disabled {
            self.with_state(
                with_port(w, port, Port { forced_tx_disabled: false, ..p }),
                port,
                CmisState::DpDeinit,
            )
        } else {
            self.with_state(w, port, CmisState::DpDeinit)
        }
    }

    /// The datapath is taken down on every lane and the module powered up.
    pub open spec fn on_deinit(&self, hal: &Hal, w: World, port: Seq<char>, physical: usize, at: u64) -> World {
        let p = port_of(w, port);
        let w = with_port(w, port, p);
        let w = self.deinit_set(hal, w, port, physical, p.max_host_lanes_mask);
        let w = self.tx_disabled(hal, w, port, physical, p.max_media_lanes_mask, true);
        let w = self.high_powered(hal, w, physical);
        let w = self.timer_armed(w, port, at);
        self.with_state(w, port, CmisState::ApConfigured)
    }

    /// A state that is waited for has not come: the bring-up is started over where
    /// the wait has ended.
    pub open spec fn waited(&self, w: World, port: Seq<char>, retries: u32, at: u64) -> World {
        match port_of(w, port).expired {
            Some(d) => if at >= d {
                self.reinitialized(w, port, (retries + 1) as u32)
            } else {
                w
            },
            None => w,
        }
    }

    /// The module is waited for to be ready with its datapath down; then the
    /// applications are staged and applied.
    pub open spec fn on_ap_configured(
        &self,
        hal: &Hal,
        w: World,
        port: Seq<char>,
        physical: usize,
        retries: u32,
        at: u64,
    ) -> World {
        let mask = port_of(w, port).host_lanes_mask;
        if module_is_ready(hal, physical) && datapath_in(
            hal,
            physical,
            mask,
            "DataPathDeactivated"@,
            "DataPathDeactivated"@,
        ) {
            let w = self.application_set(hal, w, port, physical, mask);
            let w = self.application_applied(hal, w, physical, mask);
            self.with_state(w, port, CmisState::DpInit)
        } else {
            self.waited(w, port, retries, at)
        }
    }

    /// The datapath is initialized on the port's lanes, where the port is still
    /// wanted.
    pub open spec fn on_dp_init(&self, hal: &Hal, w: World, port: Seq<char>, physical: usize, at: u64) -> World {
        if !self.wanted(w.db, port) {
            self.reinitialized(w, port, 0)
        } else {
            let w = self.deinit_cleared(hal, w, port, physical, port_of(w, port).host_lanes_mask);
            let w = self.timer_armed(w, port, at);
            self.with_state(w, port, CmisState::DpTxOn)
        }
    }

    /// The datapath is waited for to be initialized; then the port's transmitters
    /// are turned on.
    pub open spec fn on_tx_on(
        &self,
        hal: &Hal,
        w: World,
        port: Seq<char>,
        physical: usize,
        retries: u32,
        at: u64,
    ) -> World {
        let p = port_of(w, port);
        if !datapath_in(
            hal,
            physical,
            p.host_lanes_mask,
            "DataPathInitialized"@,
            "DataPathActivated"@,
        ) {
            self.waited(w, port, retries, at)
        } else {
            let w = self.tx_disabled(hal, w, port, physical, p.media_lanes_mask, false);
            let w = self.timer_armed(w, port, at);
            self.with_state(w, port, CmisState::DpActivation)
        }
    }

    /// The datapath is waited for to be activated; then the applications are
    /// published and the bring-up is done.
    pub open spec fn on_activation(
        &self,
        hal: &Hal,
        w: World,
        port: Seq<char>,
        physical: usize,
        retries: u32,
        at: u64,
    ) -> World {
        if !datapath_in(
            hal,
            physical,
            port_of(w, port).host_lanes_mask,
            "DataPathActivated"@,
            "DataPathActivated"@,
        ) {
            self.waited(w, port, retries, at)
        } else {
            self.with_state(self.apsel_published(w, port), port, CmisState::Ready)
        }
    }

    /// One step of a port's bring-up; it has failed where it was tried too often.
    pub open spec fn stepped(&self, hal: &Hal, w: World, port: Seq<char>, physical: usize, at: u64) -> World {
        let retries = port_of(w, port).retries;
        if retries > CMIS_MAX_RETRIES {
            self.with_state(w, port, CmisState::Failed)
        } else {
            match self.state_of(w, port) {
                CmisState::Inserted => self.on_inserted(hal, w, port, physical),
                CmisState::DpPreInitCheck => self.on_pre_init_check(hal, w, port, physical),
                CmisState::DpDeinit => self.on_deinit(hal, w, port, physical, at),
                CmisState::ApConfigured => self.on_ap_configured(hal, w, port, physical, retries, at),
                CmisState::DpInit => self.on_dp_init(hal, w, port, physical, at),
                CmisState::DpTxOn => self.on_tx_on(hal, w, port, physical, retries, at),
                CmisState::DpActivation => self.on_activation(hal, w, port, physical, retries, at),
                _ => w,
            }
        }
    }

    /// The configuration of the port differs from the one seen before.
    pub open spec fn config_changed(&self, w: World, port: Seq<char>) -> bool {
        let p = port_of(w, port);
        p.initialized && (field_at(w.db, self.cfg_port_tbl, port, "admin_status"@) != p.last_admin
            || self.host_tx_ready(w.db, port) != p.last_htr)
    }

    /// The configuration of the port noted; the bring-up is started over where it
    /// has changed.
    pub open spec fn reacted(&self, w: World, port: Seq<char>) -> World {
        let noted = with_port(
            w,
            port,
            Port {
                initialized: true,
                last_admin: field_at(w.db, self.cfg_port_tbl, port, "admin_status"@),
                last_htr: self.host_tx_ready(w.db, port),
                ..port_of(w, port)
            },
        );
        if self.config_changed(w, port) {
            self.reinitialized(noted, port, 0)
        } else {
            noted
        }
    }

    /// Nothing is left to do for the port: its configuration has not changed and
    /// its bring-up has ended, with a success that was driven here, or
    /// otherwise.
    pub open spec fn at_rest(&self, w: World, port: Seq<char>) -> bool {
        let text = cmis_state_text(w.db, self.status_sw_tbl, port);
        &&& !self.config_changed(w, port)
        &&& terminal(state_named(text))
        &&& state_named(text) == CmisState::Ready ==> port_of(self.reacted(w, port), port).last_written
            == text
    }

    /// Whether the module was there, noted.
    pub open spec fn presence_noted(&self, w: World, port: Seq<char>, there: bool) -> World {
        with_port(w, port, Port { present_before: there, ..port_of(w, port) })
    }

    /// One look at a port: its configuration is noted; a port at rest is left as
    /// it is, an absent module is waited for, and the bring-up of a present one
    /// goes one step on.
    pub open spec fn processed(&self, hal: &Hal, w: World, port: Seq<char>, physical: usize, at: u64) -> World {
        let text = cmis_state_text(w.db, self.status_sw_tbl, port);
        let state = state_named(text);
        let changed = self.config_changed(w, port);
        let r = self.reacted(w, port);
        if self.at_rest(w, port) {
            with_port(r, port, Port { present_before: true, last_written: text, ..port_of(r, port) })
        } else if !present(hal, physical) {
            self.presence_noted(
                if port_of(r, port).present_before {
                    self.reinitialized(r, port, 0)
                } else {
                    r
                },
                port,
                false,
            )
        } else if changed {
            self.stepped(hal, self.presence_noted(r, port, true), port, physical, at)
        } else if terminal(state) {
            self.stepped(
                hal,
                self.presence_noted(self.reinitialized(r, port, 0), port, true),
                port,
                physical,
                at,
            )
        } else if state == CmisState::Unknown {
            self.presence_noted(self.reinitialized(r, port, 0), port, true)
        } else {
            let p = port_of(r, port);
            let seen = if state == CmisState::Inserted && p.last_written != CMIS_STATE_INSERTED@ {
                Port {
                    present_before: true,
                    retries: 0,
                    expired: None,
                    last_written: CMIS_STATE_INSERTED@,
                    ..p
                }
            } else {
                Port { present_before: true, ..p }
            };
            self.stepped(hal, with_port(r, port, seen), port, physical, at)
        }
    }

    /// One look at the first logical port of a physical one; what is kept of a
    /// port that the configuration has no more is dropped, with its status row.
    pub open spec fn ticked(&self, hal: &Hal, w: World, port: Seq<char>, physical: usize, at: u64) -> World {
        if self.deconfigured(port) {
            World {
                db: with_del(w.db, self.status_sw_tbl, port),
                ports: w.ports.remove(port),
                commands: w.commands,
            }
        } else if self.port_mapping@.asic_of(port) is None {
            w
        } else {
            self.processed(hal, w, port, physical, at)
        }
    }

    /// The first `n` physical ports looked at, in order.
    pub open spec fn all_ticked(&self, hal: &Hal, w: World, at: u64, n: int) -> World
        decreases n,
    {
        if n <= 0 {
            w
        } else {
            let before = self.all_ticked(hal, w, at, n - 1);
            let physical = self.port_mapping.physical_to_logical.keys()[n - 1];
            match self.port_mapping@.first_logical(physical) {
                Some(port) => self.ticked(hal, before, port, physical, at),
                None => before,
            }
        }
    }

    /// The configuration of one port looked at: where it has changed, the bring-up
    /// of a present module goes its first step at once.
    pub open spec fn watched(&self, hal: &Hal, w: World, port: Seq<char>, physical: usize, at: u64) -> World {
        if self.deconfigured(port) || self.port_mapping@.asic_of(port) is None {
            w
        } else if self.config_changed(w, port) {
            let r = self.presence_noted(self.reacted(w, port), port, present(hal, physical));
            if present(hal, physical) {
                self.stepped(hal, r, port, physical, at)
            } else {
                r
            }
        } else {
            self.reacted(w, port)
        }
    }

    /// The configuration of the first `n` physical ports looked at, in order.
    pub open spec fn all_watched(&self, hal: &Hal, w: World, at: u64, n: int) -> World
        decreases n,
    {
        if n <= 0 {
            w
        } else {
            let before = self.all_watched(hal, w, at, n - 1);
            let physical = self.port_mapping.physical_to_logical.keys()[n - 1];
            match self.port_mapping@.first_logical(physical) {
                Some(port) => self.watched(hal, before, port, physical, at),
                None => before,
            }
        }
    }

    /// A port event: one that sets or adds a port notes its configuration and
    /// starts its bring-up over, one that removes it marks it removed and drops
    /// what is kept of it where the configuration has it no more.
    pub open spec fn updated(&self, w: World, e: EventState) -> World {
        if !"Ethernet"@.is_prefix_of(e.port_name) {
            w
        } else {
            match e.event_type {
                PortChangeEventType::PortSet | PortChangeEventType::PortAdd => {
                    let p = port_of(w, e.port_name);
                    let noted = Port {
                        last_admin: if e.port_dict.contains_key("admin_status"@) {
                            Some(e.port_dict["admin_status"@])
                        } else {
                            p.last_admin
                        },
                        last_htr: if e.port_dict.contains_key("host_tx_ready"@) {
                            Some(e.port_dict["host_tx_ready"@])
                        } else {
                            p.last_htr
                        },
                        initialized: true,
                        forced_tx_disabled: false,
                        ..p
                    };
                    self.reinitialized(with_port(w, e.port_name, noted), e.port_name, 0)
                },
                PortChangeEventType::PortDel | PortChangeEventType::PortRemove => {
                    let marked = if w.ports.contains_key(e.port_name) {
                        self.with_state(w, e.port_name, CmisState::Removed)
                    } else {
                        w
                    };
                    if e.db_name == Some("CONFIG_DB"@) && e.table_name == Some("PORT"@) {
                        World { ports: marked.ports.remove(e.port_name), ..marked }
                    } else {
                        marked
                    }
                },
            }
        }
    }
}

/// The task that brings up the datapath of each port.
pub struct CmisManagerTask {
    pub setup: CmisSetup,
    /// The milliseconds from one step of the bring-up to the next.
    pub tick: u64,
    pub port_state: StrMap<PortState>,
}

impl CmisManagerTask {
    /// What the bring-up reads and changes.
    pub open spec fn world(&self, db: DbState, commands: Seq<(usize, Command)>) -> World {
        World { db, ports: self.port_state@, commands }
    }

    pub fn new(port_mapping: PortMapping, skip_cmis_mgr: bool, status_sw_tbl: TableId, cfg_port_tbl: TableId) -> (r: Self)
        ensures
            r.setup == (CmisSetup {
                port_mapping,
                skip_cmis_mgr,
                status_sw_tbl,
                cfg_port_tbl,
                state_port_tbl: None,
                int_tbl: None,
                ap_conf_wait: DEFAULT_AP_CONF_WAIT_MSECS,
                deconfigured_ports: None,
            }),
            r.tick == DEFAULT_TICK_MSECS,
            r.port_state@ == Map::<Seq<char>, Port>::empty(),
    {
        Self::with_timing(
            port_mapping,
            skip_cmis_mgr,
            status_sw_tbl,
            cfg_port_tbl,
            DEFAULT_TICK_MSECS,
            DEFAULT_AP_CONF_WAIT_MSECS,
        )
    }

    pub fn with_timing(
        port_mapping: PortMapping,
        skip_cmis_mgr: bool,
        status_sw_tbl: TableId,
        cfg_port_tbl: TableId,
        tick: u64,
        ap_conf_wait: u64,
    ) -> (r: Self)
        ensures
            r.setup == (CmisSetup {
                port_mapping,
                skip_cmis_mgr,
                status_sw_tbl,
                cfg_port_tbl,
                state_port_tbl: None,
                int_tbl: None,
                ap_conf_wait,
                deconfigured_ports: None,
            }),
            r.tick == tick,
            r.port_state@ == Map::<Seq<char>, Port>::empty(),
    {
        CmisManagerTask {
            setup: CmisSetup {
                port_mapping,
                skip_cmis_mgr,
                status_sw_tbl,
                cfg_port_tbl,
                state_port_tbl: None,
                int_tbl: None,
                ap_conf_wait,
                deconfigured_ports: None,
            },
            tick,
            port_state: OrdMap::new(),
        }
    }

    /// Says which logical ports the configuration has no more.
    pub fn set_deconfigured_ports(&mut self, set: StrSet)
        ensures
            *final(self) == (CmisManagerTask {
                setup: CmisSetup { deconfigured_ports: Some(set), ..old(self).setup },
                ..*old(self)
            }),
    {
        self.setup.deconfigured_ports = Some(set);
    }

    pub fn set_state_port_table(&mut self, tbl: TableId)
        ensures
            *final(self) == (CmisManagerTask {
                setup: CmisSetup { state_port_tbl: Some(tbl), ..old(self).setup },
                ..*old(self)
            }),
    {
        self.setup.state_port_tbl = Some(tbl);
    }

    pub fn set_info_table(&mut self, tbl: TableId)
        ensures
            *final(self) == (CmisManagerTask {
                setup: CmisSetup { int_tbl: Some(tbl), ..old(self).setup },
                ..*old(self)
            }),
    {
        self.setup.int_tbl = Some(tbl);
    }

    fn is_deconfigured(&self, logical_port: &str) -> (r: bool)
        ensures
            r == self.setup.deconfigured(logical_port@),
    {
        match &self.setup.deconfigured_ports {
            Some(set) => set.contains(logical_port),
            None => false,
        }
    }

    /// What is kept of a port; nothing known, where nothing is kept.
    fn port(&self, lport: &str) -> (r: PortState)
        ensures
            forall|db: DbState, c: Seq<(usize, Command)>| r@ == #[trigger] port_of(self.world(db, c), lport@),
    {
        match self.port_state.get_str(lport) {
            Some(p) => p.duplicate(),
            None => PortState::default(),
        }
    }

    fn put(&mut self, lport: &str, p: PortState)
        ensures
            final(self).port_state@ == old(self).port_state@.insert(lport@, p@),
            final(self).setup == old(self).setup,
            final(self).tick == old(self).tick,
    {
        self.port_state.insert(lport.to_owned(), p);
    }

    fn get_cmis_state(&self, db: &Db, lport: &str) -> (r: String)
        ensures
            r@ == cmis_state_text(db@, self.setup.status_sw_tbl, lport@),
    {
        get_cmis_state_from_state_db(lport, db, self.setup.status_sw_tbl)
    }

    fn admin_up(&self, db: &Db, lport: &str) -> (r: bool)
        ensures
            r == self.setup.admin_up(db@, lport@),
    {
        is_text(&db.hget(self.setup.cfg_port_tbl, lport, "admin_status"), "up")
    }

    fn host_tx_ready(&self, db: &Db, lport: &str) -> (r: Option<String>)
        ensures
            r.deep_view() == self.setup.host_tx_ready(db@, lport@),
    {
        match self.setup.state_port_tbl {
            Some(t) => db.hget(t, lport, "host_tx_ready"),
            None => None,
        }
    }

    fn is_wanted(&self, db: &Db, lport: &str) -> (r: bool)
        ensures
            r == self.setup.wanted(db@, lport@),
    {
        self.admin_up(db, lport) && !is_text(&self.host_tx_ready(db, lport), "false")
    }

    fn get_host_lane_count(&self, db: &Db, lport: &str) -> (r: usize)
        ensures
            r == self.setup.host_lane_count(db@, lport@),
    {
        match db.hget(self.setup.cfg_port_tbl, lport, "lanes") {
            Some(s) => {
                let n: usize = count_filled_parts(s.as_str());
                if n == 0 || n > CMIS_MAX_HOST_LANES {
                    4
                } else {
                    n
                }
            },
            None => 4,
        }
    }

    /// Writes the state of a port; the other fields of its status row stay.
    pub fn update_port_transceiver_status_table_sw_cmis_state(
        &self,
        lport: &str,
        db: &mut Db,
        status_sw_tbl: TableId,
        cmis_state_to_set: CmisState,
    )
        ensures
            final(db)@ == with_hset(
                old(db)@,
                status_sw_tbl,
                lport@,
                "cmis_state"@,
                state_name(cmis_state_to_set),
            ),
    {
        db.hset(status_sw_tbl, lport, "cmis_state", cmis_state_to_set.as_str());
    }

    /// Writes the state of a port and notes it.
    fn set_cmis_state(&mut self, db: &mut Db, lport: &str, state: CmisState)
        ensures
            forall|c: Seq<(usize, Command)>| #[trigger]
                final(self).world(final(db)@, c) == old(self).setup.with_state(
                    old(self).world(old(db)@, c),
                    lport@,
                    state,
                ),
            final(self).setup == old(self).setup,
            final(self).tick == old(self).tick,
    {
        let tbl: TableId = self.setup.status_sw_tbl;
        self.update_port_transceiver_status_table_sw_cmis_state(lport, db, tbl, state);
        let mut p = self.port(lport);
        proof {
            assert(p@ == port_of(self.world(db@, Seq::empty()), lport@));
        }
        p.last_written = state.as_str().to_owned();
        self.put(lport, p);
        proof {
            assert forall|c: Seq<(usize, Command)>| #[trigger]
                self.world(db@, c) == old(self).setup.with_state(old(self).world(old(db)@, c), lport@, state) by {
                assert(self.world(db@, c) =~= old(self).setup.with_state(
                    old(self).world(old(db)@, c),
                    lport@,
                    state,
                ));
            }
        }
    }

    /// Starts the bring-up of a port over.
    pub fn force_cmis_reinit(&mut self, db: &mut Db, lport: &str, retries: u32)
        ensures
            forall|c: Seq<(usize, Command)>| #[trigger]
                final(self).world(final(db)@, c) == old(self).setup.reinitialized(
                    old(self).world(old(db)@, c),
                    lport@,
                    retries,
                ),
            final(self).setup == old(self).setup,
            final(self).tick == old(self).tick,
    {
        self.set_cmis_state(db, lport, CmisState::Inserted);
        let ghost mid = *self;
        let mut p = self.port(lport);
        proof {
            assert(p@ == port_of(mid.world(db@, Seq::empty()), lport@));
        }
        p.retries = retries;
        p.expired = None;
        self.put(lport, p);
        proof {
            assert forall|c: Seq<(usize, Command)>| #[trigger]
                self.world(db@, c) == old(self).setup.reinitialized(
                    old(self).world(old(db)@, c),
                    lport@,
                    retries,
                ) by {
                assert(mid.world(db@, c) == old(self).setup.with_state(
                    old(self).world(old(db)@, c),
                    lport@,
                    CmisState::Inserted,
                ));
                assert(self.world(db@, c) =~= old(self).setup.reinitialized(
                    old(self).world(old(db)@, c),
                    lport@,
                    retries,
                ));
            }
        }
    }

    /// Sets the end of the present wait.
    fn arm_timer(&mut self, lport: &str, at: u64)
        requires
            at + old(self).setup.ap_conf_wait <= u64::MAX,
        ensures
            forall|d: DbState, c: Seq<(usize, Command)>| #[trigger]
                final(self).world(d, c) == old(self).setup.timer_armed(old(self).world(d, c), lport@, at),
            final(self).setup == old(self).setup,
            final(self).tick == old(self).tick,
    {
        let mut p = self.port(lport);
        proof {
            assert(p@ == port_of(self.world(Map::empty(), Seq::empty()), lport@));
        }
        p.expired = Some(at + self.setup.ap_conf_wait);
        self.put(lport, p);
        proof {
            assert forall|d: DbState, c: Seq<(usize, Command)>| #[trigger]
                self.world(d, c) == old(self).setup.timer_armed(old(self).world(d, c), lport@, at) by {
                assert(self.world(d, c) =~= old(self).setup.timer_armed(old(self).world(d, c), lport@, at));
            }
        }
    }

    /// Notes whether the module was there.
    fn note_presence(&mut self, lport: &str, there: bool)
        ensures
            forall|d: DbState, c: Seq<(usize, Command)>| #[trigger]
                final(self).world(d, c) == old(self).setup.presence_noted(
                    old(self).world(d, c),
                    lport@,
                    there,
                ),
            final(self).setup == old(self).setup,
            final(self).tick == old(self).tick,
    {
        let mut p = self.port(lport);
        proof {
            assert(p@ == port_of(self.world(Map::empty(), Seq::empty()), lport@));
        }
        p.present_before = there;
        self.put(lport, p);
        proof {
            assert forall|d: DbState, c: Seq<(usize, Command)>| #[trigger]
                self.world(d, c) == old(self).setup.presence_noted(old(self).world(d, c), lport@, there) by {
                assert(self.world(d, c) =~= old(self).setup.presence_noted(
                    old(self).world(d, c),
                    lport@,
                    there,
                ));
            }
        }
    }

    /// Sets the deinit bits of the lanes.
    fn set_datapath_deinit(&mut self, hal: &Hal, commands: &mut CommandLog, lport: &str, pport: usize, mask: u8)
        ensures
            forall|d: DbState| #[trigger]
                final(self).world(d, final(commands)@) == old(self).setup.deinit_set(
                    hal,
                    old(self).world(d, old(commands)@),
                    lport@,
                    pport,
                    mask,
                ),
            final(self).setup == old(self).setup,
            final(self).tick == old(self).tick,
    {
        let mut p = self.port(lport);
        proof {
            assert(p@ == port_of(self.world(Map::empty(), Seq::empty()), lport@));
        }
        let byte: u8 = p.deinit_reg | mask;
        p.deinit_reg = byte;
        self.put(lport, p);
        write_reg(hal, commands, pport, DPDEINIT_OFFSET, byte);
        proof {
            assert forall|d: DbState| #[trigger]
                self.world(d, commands@) == old(self).setup.deinit_set(
                    hal,
                    old(self).world(d, old(commands)@),
                    lport@,
                    pport,
                    mask,
                ) by {
                assert(self.world(d, commands@) =~= old(self).setup.deinit_set(
                    hal,
                    old(self).world(d, old(commands)@),
                    lport@,
                    pport,
                    mask,
                ));
            }
        }
    }

    /// Clears the deinit bits of the lanes.
    fn set_datapath_init(&mut self, hal: &Hal, commands: &mut CommandLog, lport: &str, pport: usize, mask: u8)
        ensures
            forall|d: DbState| #[trigger]
                final(self).world(d, final(commands)@) == old(self).setup.deinit_cleared(
                    hal,
                    old(self).world(d, old(commands)@),
                    lport@,
                    pport,
                    mask,
                ),
            final(self).setup == old(self).setup,
            final(self).tick == old(self).tick,
    {
        let mut p = self.port(lport);
        proof {
            assert(p@ == port_of(self.world(Map::empty(), Seq::empty()), lport@));
        }
        let byte: u8 = p.deinit_reg & !mask;
        p.deinit_reg = byte;
        self.put(lport, p);
        write_reg(hal, commands, pport, DPDEINIT_OFFSET, byte);
        proof {
            assert forall|d: DbState| #[trigger]
                self.world(d, commands@) == old(self).setup.deinit_cleared(
                    hal,
                    old(self).world(d, old(commands)@),
                    lport@,
                    pport,
                    mask,
                ) by {
                assert(self.world(d, commands@) =~= old(self).setup.deinit_cleared(
                    hal,
                    old(self).world(d, old(commands)@),
                    lport@,
                    pport,
                    mask,
                ));
            }
        }
    }

    /// Turns the transmitters of the lanes off or on.
    fn tx_disable_channel(&mut self, hal: &Hal, commands: &mut CommandLog, lport: &str, pport: usize, mask: u8, disable: bool)
        ensures
            forall|d: DbState| #[trigger]
                final(self).world(d, final(commands)@) == old(self).setup.tx_disabled(
                    hal,
                    old(self).world(d, old(commands)@),
                    lport@,
                    pport,
                    mask,
                    disable,
                ),
            final(self).setup == old(self).setup,
            final(self).tick == old(self).tick,
    {
        let mut p = self.port(lport);
        proof {
            assert(p@ == port_of(self.world(Map::empty(), Seq::empty()), lport@));
        }
        let byte: u8 = if disable {
            p.tx_disable_reg | mask
        } else {
            p.tx_disable_reg & !mask
        };
        p.tx_disable_reg = byte;
        self.put(lport, p);
        write_reg(hal, commands, pport, OUTPUT_DISABLE_TX_OFFSET, byte);
        proof {
            assert forall|d: DbState| #[trigger]
                self.world(d, commands@) == old(self).setup.tx_disabled(
                    hal,
                    old(self).world(d, old(commands)@),
                    lport@,
                    pport,
                    mask,
                    disable,
                ) by {
                assert(self.world(d, commands@) =~= old(self).setup.tx_disabled(
                    hal,
                    old(self).world(d, old(commands)@),
                    lport@,
                    pport,
                    mask,
                    disable,
                ));
            }
        }
    }

    /// Stages the application of each lane of the mask and notes it.
    fn set_application(&mut self, hal: &Hal, commands: &mut CommandLog, lport: &str, pport: usize, host_mask: u8)
        ensures
            forall|d: DbState| #[trigger]
                final(self).world(d, final(commands)@) == old(self).setup.application_set(
                    hal,
                    old(self).world(d, old(commands)@),
                    lport@,
                    pport,
                    host_mask,
                ),
            final(self).setup == old(self).setup,
            final(self).tick == old(self).tick,
    {
        let appl: u8 = match self.port_state.get_str(lport) {
            Some(p) => p.appl,
            None => 1,
        };
        let bytes = stage(hal, pport, appl, host_mask);
        let mut p = self.port(lport);
        proof {
            assert(p@ == port_of(self.world(Map::empty(), Seq::empty()), lport@));
        }
        p.active_apsel = apsel_of(&bytes, host_mask);
        let addr: usize = cmis_linear(SCS0_PAGE, SCS0_DPCONFIG_START);
        ask(hal, commands, pport, SfpCommand::WriteEeprom { offset: addr, data: bytes });
        self.put(lport, p);
        proof {
            assert forall|d: DbState| #[trigger]
                self.world(d, commands@) == old(self).setup.application_set(
                    hal,
                    old(self).world(d, old(commands)@),
                    lport@,
                    pport,
                    host_mask,
                ) by {
                assert(self.world(d, commands@) =~= old(self).setup.application_set(
                    hal,
                    old(self).world(d, old(commands)@),
                    lport@,
                    pport,
                    host_mask,
                ));
            }
        }
    }

    /// Writes the applications of the first `n` lanes into `fields`.
    fn apsel_row(active_apsel: &[Option<u8>; 8], count: usize) -> (r: Row)
        ensures
            r@ == active_fields(active_apsel@, count as nat),
    {
        let mut fields: Row = OrdMap::new();
        let mut lane: usize = 0;
        while lane < 8
            invariant
                lane <= 8,
                fields@ == apsel_fields(active_apsel@, lane as int),
            decreases 8 - lane,
        {
            let val: String = match active_apsel[lane] {
                Some(a) => u64_text(a as u64),
                None => "N/A".to_owned(),
            };
            fields.insert(join("active_apsel_hostlane", usize_text(lane + 1).as_str()), val);
            lane = lane + 1;
        }
        fields.insert("host_lane_count".to_owned(), usize_text(count));
        fields.insert("media_lane_count".to_owned(), usize_text(count));
        fields
    }

    fn post_port_active_apsel_to_db_impl(&self, db: &mut Db, lport: &str)
        ensures
            forall|c: Seq<(usize, Command)>| #[trigger]
                self.world(final(db)@, c) == self.setup.apsel_published(self.world(old(db)@, c), lport@),
    {
        if let Some(tbl) = self.setup.int_tbl {
            if db.has_row(tbl, lport) {
                if let Some(ps) = self.port_state.get_str(lport) {
                    let fields = Self::apsel_row(&ps.active_apsel, ps.host_lane_count);
                    db.set(tbl, lport, &fields);
                }
            }
        }
    }

    fn post_port_active_apsel_reset(&self, db: &mut Db, lport: &str)
        ensures
            forall|c: Seq<(usize, Command)>| #[trigger]
                self.world(final(db)@, c) == self.setup.apsel_reset(self.world(old(db)@, c), lport@),
    {
        if let Some(tbl) = self.setup.int_tbl {
            if db.has_row(tbl, lport) {
                let fields = Self::apsel_row(&empty_apsel(), 0);
                db.set(tbl, lport, &fields);
            }
        }
    }

    /// Publishes the applications that a port was given, or that it has none. The
    /// table and the lanes are those that the task itself keeps.
    pub fn post_port_active_apsel_to_db(
        &self,
        db: &mut Db,
        lport: &str,
        _int_tbl: TableId,
        _host_lanes_mask: u32,
        reset_apsel: bool,
    )
        ensures
            forall|c: Seq<(usize, Command)>| #[trigger]
                self.world(final(db)@, c) == if reset_apsel {
                    self.setup.apsel_reset(self.world(old(db)@, c), lport@)
                } else {
                    self.setup.apsel_published(self.world(old(db)@, c), lport@)
                },
    {
        if reset_apsel {
            self.post_port_active_apsel_reset(db, lport);
        } else {
            self.post_port_active_apsel_to_db_impl(db, lport);
        }
    }

    /// Notes the configuration of a port and starts its bring-up over where it has
    /// changed; whether it has.
    fn react_to_port_config_change(&mut self, db: &mut Db, lport: &str) -> (r: bool)
        ensures
            forall|c: Seq<(usize, Command)>| #[trigger]
                final(self).world(final(db)@, c) == old(self).setup.reacted(old(self).world(old(db)@, c), lport@),
            forall|c: Seq<(usize, Command)>|
                r == old(self).setup.config_changed(#[trigger] old(self).world(old(db)@, c), lport@),
            final(self).setup == old(self).setup,
            final(self).tick == old(self).tick,
    {
        let admin = db.hget(self.setup.cfg_port_tbl, lport, "admin_status");
        let htr = self.host_tx_ready(db, lport);
        let mut p = self.port(lport);
        proof {
            assert(p@ == port_of(self.world(db@, Seq::empty()), lport@));
        }
        let changed = p.initialized && (!same_option(&admin, &p.last_admin) || !same_option(
            &htr,
            &p.last_htr,
        ));
        p.initialized = true;
        p.last_admin = admin;
        p.last_htr = htr;
        self.put(lport, p);
        let ghost mid = *self;
        proof {
            assert forall|c: Seq<(usize, Command)>|
                changed == old(self).setup.config_changed(#[trigger] old(self).world(old(db)@, c), lport@) by {}
        }
        if changed {
            self.force_cmis_reinit(db, lport, 0);
        }
        proof {
            assert forall|c: Seq<(usize, Command)>| #[trigger]
                self.world(db@, c) == old(self).setup.reacted(old(self).world(old(db)@, c), lport@) by {
                let w = old(self).world(old(db)@, c);
                assert(changed == old(self).setup.config_changed(w, lport@));
                let noted = with_port(
                    w,
                    lport@,
                    Port {
                        initialized: true,
                        last_admin: field_at(w.db, old(self).setup.cfg_port_tbl, lport@, "admin_status"@),
                        last_htr: old(self).setup.host_tx_ready(w.db, lport@),
                        ..port_of(w, lport@)
                    },
                );
                assert(mid.world(old(db)@, c) =~= noted);
            }
        }
        changed
    }

    /// Starts the bring-up over where the wait for a state has ended.
    fn give_up_waiting(&mut self, db: &mut Db, lport: &str, retries: u32, at: u64)
        requires
            retries <= CMIS_MAX_RETRIES,
        ensures
            forall|c: Seq<(usize, Command)>| #[trigger]
                final(self).world(final(db)@, c) == old(self).setup.waited(
                    old(self).world(old(db)@, c),
                    lport@,
                    retries,
                    at,
                ),
            final(self).setup == old(self).setup,
            final(self).tick == old(self).tick,
    {
        let p = self.port(lport);
        proof {
            assert forall|c: Seq<(usize, Command)>|
                p@ == port_of(#[trigger] old(self).world(old(db)@, c), lport@) by {}
        }
        if is_timer_expired(p.expired, at) {
            self.force_cmis_reinit(db, lport, retries + 1);
        }
    }

    fn handle_cmis_inserted_state(
        &mut self,
        db: &mut Db,
        hal: &Hal,
        commands: &mut CommandLog,
        lport: &str,
        pport: usize,
    )
        ensures
            final(self).world(final(db)@, final(commands)@) == old(self).setup.on_inserted(
                hal,
                old(self).world(old(db)@, old(commands)@),
                lport@,
                pport,
            ),
            final(self).setup == old(self).setup,
            final(self).tick == old(self).tick,
    {
        let host_lane_count: usize = self.get_host_lane_count(db, lport);
        let host_lanes_mask: u8 = lane_mask(host_lane_count);
        let mut p = self.port(lport);
        proof {
            assert(p@ == port_of(self.world(db@, commands@), lport@));
        }
        p.host_lane_count = host_lane_count;
        p.host_lanes_mask = host_lanes_mask;
        p.media_lanes_mask = host_lanes_mask;
        p.max_host_lanes_mask = 0xff;
        p.max_media_lanes_mask = 0xff;
        p.appl = 1;
        p.active_apsel = empty_apsel();
        self.put(lport, p);
        proof {
            let w = old(self).world(old(db)@, old(commands)@);
            let count = old(self).setup.host_lane_count(w.db, lport@);
            assert(self.world(db@, commands@) =~= with_port(
                w,
                lport@,
                Port {
                    host_lane_count: count as usize,
                    host_lanes_mask: lanes(count),
                    media_lanes_mask: lanes(count),
                    max_host_lanes_mask: 0xff,
                    max_media_lanes_mask: 0xff,
                    appl: 1,
                    active_apsel: no_apsel(),
                    ..port_of(w, lport@)
                },
            ));
        }
        if !self.is_wanted(db, lport) {
            self.set_datapath_deinit(hal, commands, lport, pport, 0xff);
            self.tx_disable_channel(hal, commands, lport, pport, 0xff, true);
            let ghost mid = self.world(db@, commands@);
            let mut p = self.port(lport);
            proof {
                assert(p@ == port_of(mid, lport@));
            }
            p.forced_tx_disabled = true;
            self.put(lport, p);
            proof {
                assert(self.world(db@, commands@) =~= with_port(
                    mid,
                    lport@,
                    Port { forced_tx_disabled: true, ..port_of(mid, lport@) },
                ));
            }
            self.post_port_active_apsel_reset(db, lport);
            self.set_cmis_state(db, lport, CmisState::Ready);
        } else {
            self.set_cmis_state(db, lport, CmisState::DpPreInitCheck);
        }
    }

    fn handle_cmis_dp_pre_init_check_state(
        &mut self,
        db: &mut Db,
        hal: &Hal,
        commands: &mut CommandLog,
        lport: &str,
        pport: usize,
    )
        ensures
            final(self).world(final(db)@, final(commands)@) == old(self).setup.on_pre_init_check(
                hal,
                old(self).world(old(db)@, old(commands)@),
                lport@,
                pport,
            ),
            final(self).setup == old(self).setup,
            final(self).tick == old(self).tick,
    {
        let mut p = self.port(lport);
        proof {
            assert(p@ == port_of(self.world(db@, commands@), lport@));
        }
        if p.forced_tx_disabled {
            if !check_datapath_state(
                hal,
                pport,
                p.host_lanes_mask,
                "DataPathDeactivated",
                "DataPathInitialized",
            ) {
                return ;
            }
            p.forced_tx_disabled = false;
            self.put(lport, p);
            proof {
                let w = old(self).world(old(db)@, old(commands)@);
                assert(self.world(db@, commands@) =~= with_port(
                    w,
                    lport@,
                    Port { forced_tx_disabled: false, ..port_of(w, lport@) },
                ));
            }
        }
        self.set_cmis_state(db, lport, CmisState::DpDeinit);
    }

    fn handle_cmis_dp_deinit_state(
        &mut self,
        db: &mut Db,
        hal: &Hal,
        commands: &mut CommandLog,
        lport: &str,
        pport: usize,
        at: u64,
    )
        requires
            at + old(self).setup.ap_conf_wait <= u64::MAX,
        ensures
            final(self).world(final(db)@, final(commands)@) == old(self).setup.on_deinit(
                hal,
                old(self).world(old(db)@, old(commands)@),
                lport@,
                pport,
                at,
            ),
            final(self).setup == old(self).setup,
            final(self).tick == old(self).tick,
    {
        let p = self.port(lport);
        proof {
            assert(p@ == port_of(self.world(db@, commands@), lport@));
        }
        let max_host: u8 = p.max_host_lanes_mask;
        let max_media: u8 = p.max_media_lanes_mask;
        self.put(lport, p);
        proof {
            let w = old(self).world(old(db)@, old(commands)@);
            assert(self.world(db@, commands@) =~= with_port(w, lport@, port_of(w, lport@)));
        }
        self.set_datapath_deinit(hal, commands, lport, pport, max_host);
        self.tx_disable_channel(hal, commands, lport, pport, max_media, true);
        let ghost mid = self.world(db@, commands@);
        ask(hal, commands, pport, SfpCommand::SetLpmode(false));
        proof {
            assert(self.world(db@, commands@) =~= self.setup.high_powered(hal, mid, pport));
        }
        self.arm_timer(lport, at);
        self.set_cmis_state(db, lport, CmisState::ApConfigured);
    }

    fn handle_cmis_ap_conf_state(
        &mut self,
        db: &mut Db,
        hal: &Hal,
        commands: &mut CommandLog,
        lport: &str,
        pport: usize,
        retries: u32,
        at: u64,
    )
        requires
            retries <= CMIS_MAX_RETRIES,
        ensures
            final(self).world(final(db)@, final(commands)@) == old(self).setup.on_ap_configured(
                hal,
                old(self).world(old(db)@, old(commands)@),
                lport@,
                pport,
                retries,
                at,
            ),
            final(self).setup == old(self).setup,
            final(self).tick == old(self).tick,
    {
        let p = self.port(lport);
        proof {
            assert(p@ == port_of(self.world(db@, commands@), lport@));
        }
        let host_mask: u8 = p.host_lanes_mask;
        let ready = is_text(&read_status_text(hal, pport, "module_state"), "ModuleReady")
            && check_datapath_state(
            hal,
            pport,
            host_mask,
            "DataPathDeactivated",
            "DataPathDeactivated",
        );
        if ready {
            self.set_application(hal, commands, lport, pport, host_mask);
            let ghost mid = self.world(db@, commands@);
            write_reg(hal, commands, pport, APPLY_DPINIT_OFFSET, host_mask);
            proof {
                assert(self.world(db@, commands@) =~= self.setup.application_applied(
                    hal,
                    mid,
                    pport,
                    host_mask,
                ));
            }
            self.set_cmis_state(db, lport, CmisState::DpInit);
        } else {
            self.give_up_waiting(db, lport, retries, at);
        }
    }

    fn handle_cmis_dp_init_state(
        &mut self,
        db: &mut Db,
        hal: &Hal,
        commands: &mut CommandLog,
        lport: &str,
        pport: usize,
        at: u64,
    )
        requires
            at + old(self).setup.ap_conf_wait <= u64::MAX,
        ensures
            final(self).world(final(db)@, final(commands)@) == old(self).setup.on_dp_init(
                hal,
                old(self).world(old(db)@, old(commands)@),
                lport@,
                pport,
                at,
            ),
            final(self).setup == old(self).setup,
            final(self).tick == old(self).tick,
    {
        if !self.is_wanted(db, lport) {
            self.force_cmis_reinit(db, lport, 0);
            return ;
        }
        let p = self.port(lport);
        proof {
            assert(p@ == port_of(self.world(db@, commands@), lport@));
        }
        self.set_datapath_init(hal, commands, lport, pport, p.host_lanes_mask);
        self.arm_timer(lport, at);
        self.set_cmis_state(db, lport, CmisState::DpTxOn);
    }

    fn handle_cmis_dp_txon_state(
        &mut self,
        db: &mut Db,
        hal: &Hal,
        commands: &mut CommandLog,
        lport: &str,
        pport: usize,
        retries: u32,
        at: u64,
    )
        requires
            at + old(self).setup.ap_conf_wait <= u64::MAX,
            retries <= CMIS_MAX_RETRIES,
        ensures
            final(self).world(final(db)@, final(commands)@) == old(self).setup.on_tx_on(
                hal,
                old(self).world(old(db)@, old(commands)@),
                lport@,
                pport,
                retries,
                at,
            ),
            final(self).setup == old(self).setup,
            final(self).tick == old(self).tick,
    {
        let p = self.port(lport);
        proof {
            assert(p@ == port_of(self.world(db@, commands@), lport@));
        }
        if !check_datapath_state(
            hal,
            pport,
            p.host_lanes_mask,
            "DataPathInitialized",
            "DataPathActivated",
        ) {
            self.give_up_waiting(db, lport, retries, at);
            return ;
        }
        self.tx_disable_channel(hal, commands, lport, pport, p.media_lanes_mask, false);
        self.arm_timer(lport, at);
        self.set_cmis_state(db, lport, CmisState::DpActivation);
    }

    fn handle_cmis_dp_activation_state(
        &mut self,
        db: &mut Db,
        hal: &Hal,
        commands: &mut CommandLog,
        lport: &str,
        pport: usize,
        retries: u32,
        at: u64,
    )
        requires
            retries <= CMIS_MAX_RETRIES,
        ensures
            final(self).world(final(db)@, final(commands)@) == old(self).setup.on_activation(
                hal,
                old(self).world(old(db)@, old(commands)@),
                lport@,
                pport,
                retries,
                at,
            ),
            final(self).setup == old(self).setup,
            final(self).tick == old(self).tick,
    {
        let p = self.port(lport);
        proof {
            assert(p@ == port_of(self.world(db@, commands@), lport@));
        }
        if !check_datapath_state(
            hal,
            pport,
            p.host_lanes_mask,
            "DataPathActivated",
            "DataPathActivated",
        ) {
            self.give_up_waiting(db, lport, retries, at);
            return ;
        }
        self.post_port_active_apsel_to_db_impl(db, lport);
        self.set_cmis_state(db, lport, CmisState::Ready);
    }

    /// Takes the bring-up of a port one step on.
    pub fn process_cmis_state_machine(
        &mut self,
        db: &mut Db,
        hal: &Hal,
        commands: &mut CommandLog,
        lport: &str,
        pport: usize,
        at: u64,
    )
        requires
            at + old(self).setup.ap_conf_wait <= u64::MAX,
        ensures
            final(self).world(final(db)@, final(commands)@) == old(self).setup.stepped(
                hal,
                old(self).world(old(db)@, old(commands)@),
                lport@,
                pport,
                at,
            ),
            final(self).setup == old(self).setup,
            final(self).tick == old(self).tick,
    {
        let state = CmisState::from_db_str(self.get_cmis_state(db, lport).as_str());
        let p = self.port(lport);
        proof {
            assert(p@ == port_of(self.world(db@, commands@), lport@));
        }
        let retries: u32 = p.retries;
        if retries > CMIS_MAX_RETRIES {
            self.set_cmis_state(db, lport, CmisState::Failed);
            return ;
        }
        match state {
            CmisState::Inserted => self.handle_cmis_inserted_state(db, hal, commands, lport, pport),
            CmisState::DpPreInitCheck => self.handle_cmis_dp_pre_init_check_state(
                db,
                hal,
                commands,
                lport,
                pport,
            ),
            CmisState::DpDeinit => self.handle_cmis_dp_deinit_state(db, hal, commands, lport, pport, at),
            CmisState::ApConfigured => self.handle_cmis_ap_conf_state(
                db,
                hal,
                commands,
                lport,
                pport,
                retries,
                at,
            ),
            CmisState::DpInit => self.handle_cmis_dp_init_state(db, hal, commands, lport, pport, at),
            CmisState::DpTxOn => self.handle_cmis_dp_txon_state(
                db,
                hal,
                commands,
                lport,
                pport,
                retries,
                at,
            ),
            CmisState::DpActivation => self.handle_cmis_dp_activation_state(
                db,
                hal,
                commands,
                lport,
                pport,
                retries,
                at,
            ),
            _ => {},
        }
    }

    /// Whether the configuration of a port has changed since it was last looked at.
    pub fn is_config_changed(&self, db: &Db, lport: &str) -> (r: bool)
        ensures
            forall|c: Seq<(usize, Command)>|
                r == self.setup.config_changed(#[trigger] self.world(db@, c), lport@),
    {
        let admin = db.hget(self.setup.cfg_port_tbl, lport, "admin_status");
        let htr = self.host_tx_ready(db, lport);
        let p = self.port(lport);
        proof {
            assert forall|c: Seq<(usize, Command)>| p@ == port_of(#[trigger] self.world(db@, c), lport@) by {}
        }
        p.initialized && (!same_option(&admin, &p.last_admin) || !same_option(&htr, &p.last_htr))
    }

    /// Whether a look at the port needs to know if its module is there; not, where
    /// the port is at rest.
    pub fn needs_presence(&self, db: &Db, lport: &str) -> (r: bool)
        ensures
            forall|c: Seq<(usize, Command)>| r == !self.setup.at_rest(#[trigger] self.world(db@, c), lport@),
    {
        let text = self.get_cmis_state(db, lport);
        let state = CmisState::from_db_str(text.as_str());
        let p = self.port(lport);
        let changed = self.is_config_changed(db, lport);
        let rest = !changed && state.is_terminal() && (state != CmisState::Ready || p.last_written == text);
        proof {
            assert forall|c: Seq<(usize, Command)>|
                rest == self.setup.at_rest(#[trigger] self.world(db@, c), lport@) by {
                let w = self.world(db@, c);
                assert(p@ == port_of(w, lport@));
                assert(changed == self.setup.config_changed(w, lport@));
                if !changed {
                    assert(port_of(self.setup.reacted(w, lport@), lport@).last_written == p@.last_written);
                }
            }
        }
        !rest
    }

    /// Looks at one port.
    pub fn process_single_lport(
        &mut self,
        db: &mut Db,
        hal: &Hal,
        commands: &mut CommandLog,
        lport: &str,
        pport: usize,
        at: u64,
    )
        requires
            at + old(self).setup.ap_conf_wait <= u64::MAX,
        ensures
            final(self).world(final(db)@, final(commands)@) == old(self).setup.processed(
                hal,
                old(self).world(old(db)@, old(commands)@),
                lport@,
                pport,
                at,
            ),
            final(self).setup == old(self).setup,
            final(self).tick == old(self).tick,
    {
        let ghost w = self.world(db@, commands@);
        let db_state_str = self.get_cmis_state(db, lport);
        let db_state = CmisState::from_db_str(db_state_str.as_str());
        let reacted = self.react_to_port_config_change(db, lport);
        let ghost r = self.world(db@, commands@);
        let mut p = self.port(lport);
        proof {
            assert(reacted == old(self).setup.config_changed(w, lport@));
            assert(r == old(self).setup.reacted(w, lport@));
            assert(p@ == port_of(r, lport@));
        }
        if !reacted && db_state.is_terminal() {
            let drove_terminal = p.last_written == db_state_str;
            if !(db_state == CmisState::Ready && !drove_terminal) {
                p.present_before = true;
                p.last_written = db_state_str;
                self.put(lport, p);
                proof {
                    assert(self.world(db@, commands@) =~= with_port(
                        r,
                        lport@,
                        Port {
                            present_before: true,
                            last_written: cmis_state_text(w.db, old(self).setup.status_sw_tbl, lport@),
                            ..port_of(r, lport@)
                        },
                    ));
                }
                return ;
            }
        }
        if !hal.is_present(pport) {
            if p.present_before {
                self.force_cmis_reinit(db, lport, 0);
            }
            self.note_presence(lport, false);
            return ;
        }
        if reacted {
            self.note_presence(lport, true);
            self.process_cmis_state_machine(db, hal, commands, lport, pport, at);
            return ;
        }
        if db_state.is_terminal() {
            self.force_cmis_reinit(db, lport, 0);
            self.note_presence(lport, true);
            self.process_cmis_state_machine(db, hal, commands, lport, pport, at);
            return ;
        }
        if db_state == CmisState::Unknown {
            self.force_cmis_reinit(db, lport, 0);
            self.note_presence(lport, true);
            return ;
        }
        p.present_before = true;
        if db_state == CmisState::Inserted && !same(p.last_written.as_str(), CMIS_STATE_INSERTED) {
            p.retries = 0;
            p.expired = None;
            p.last_written = CMIS_STATE_INSERTED.to_owned();
        }
        let ghost seen = p@;
        self.put(lport, p);
        proof {
            assert(self.world(db@, commands@) =~= with_port(r, lport@, seen));
        }
        self.process_cmis_state_machine(db, hal, commands, lport, pport, at);
    }

    fn tick_port(
        &mut self,
        db: &mut Db,
        hal: &Hal,
        commands: &mut CommandLog,
        lport: &str,
        pport: usize,
        at: u64,
    )
        requires
            at + old(self).setup.ap_conf_wait <= u64::MAX,
        ensures
            final(self).world(final(db)@, final(commands)@) == old(self).setup.ticked(
                hal,
                old(self).world(old(db)@, old(commands)@),
                lport@,
                pport,
                at,
            ),
            final(self).setup == old(self).setup,
            final(self).tick == old(self).tick,
    {
        if self.is_deconfigured(lport) {
            db.del(self.setup.status_sw_tbl, lport);
            self.port_state.remove_str(lport);
            return ;
        }
        if self.setup.port_mapping.get_asic_id_for_logical_port(lport).is_none() {
            return ;
        }
        self.process_single_lport(db, hal, commands, lport, pport, at);
    }

    /// Looks at the first logical port of every physical port.
    pub fn tick_once(&mut self, stop: bool, db: &mut Db, hal: &Hal, commands: &mut CommandLog, at: u64)
        requires
            at + old(self).setup.ap_conf_wait <= u64::MAX,
        ensures
            final(self).world(final(db)@, final(commands)@) == if stop {
                old(self).world(old(db)@, old(commands)@)
            } else {
                old(self).setup.all_ticked(
                    hal,
                    old(self).world(old(db)@, old(commands)@),
                    at,
                    old(self).setup.port_mapping.physical_to_logical.keys().len() as int,
                )
            },
            final(self).setup == old(self).setup,
            final(self).tick == old(self).tick,
    {
        if stop {
            return ;
        }
        let ghost w = self.world(db@, commands@);
        let n: usize = self.setup.port_mapping.physical_to_logical.len();
        let mut i: usize = 0;
        while i < n
            invariant
                i <= n,
                at + self.setup.ap_conf_wait <= u64::MAX,
                n == self.setup.port_mapping.physical_to_logical.keys().len(),
                self.setup == old(self).setup,
                self.tick == old(self).tick,
                self.world(db@, commands@) == self.setup.all_ticked(hal, w, at, i as int),
            decreases n - i,
        {
            let pport: usize = *self.setup.port_mapping.physical_to_logical.key_at(i);
            let lport: Option<String> = match self.setup.port_mapping.physical_to_logical.get(&pport) {
                Some(list) => if list.len() > 0 {
                    Some(list[0].clone())
                } else {
                    None
                },
                None => None,
            };
            proof {
                assert(lport.deep_view() == self.setup.port_mapping@.first_logical(pport));
            }
            if let Some(name) = lport {
                self.tick_port(db, hal, commands, name.as_str(), pport, at);
            }
            i = i + 1;
        }
    }

    fn watch_port(
        &mut self,
        db: &mut Db,
        hal: &Hal,
        commands: &mut CommandLog,
        lport: &str,
        pport: usize,
        at: u64,
    )
        requires
            at + old(self).setup.ap_conf_wait <= u64::MAX,
        ensures
            final(self).world(final(db)@, final(commands)@) == old(self).setup.watched(
                hal,
                old(self).world(old(db)@, old(commands)@),
                lport@,
                pport,
                at,
            ),
            final(self).setup == old(self).setup,
            final(self).tick == old(self).tick,
    {
        if self.is_deconfigured(lport) {
            return ;
        }
        if self.setup.port_mapping.get_asic_id_for_logical_port(lport).is_none() {
            return ;
        }
        let changed = self.react_to_port_config_change(db, lport);
        proof {
            assert(changed == old(self).setup.config_changed(
                old(self).world(old(db)@, old(commands)@),
                lport@,
            ));
        }
        if changed {
            let there = hal.is_present(pport);
            self.note_presence(lport, there);
            if there {
                self.process_cmis_state_machine(db, hal, commands, lport, pport, at);
            }
        }
    }

    /// Looks at the configuration of the first logical port of every physical port
    /// and reacts to a change at once.
    pub fn poll_port_config_reactions(&mut self, stop: bool, db: &mut Db, hal: &Hal, commands: &mut CommandLog, at: u64)
        requires
            at + old(self).setup.ap_conf_wait <= u64::MAX,
        ensures
            final(self).world(final(db)@, final(commands)@) == if stop {
                old(self).world(old(db)@, old(commands)@)
            } else {
                old(self).setup.all_watched(
                    hal,
                    old(self).world(old(db)@, old(commands)@),
                    at,
                    old(self).setup.port_mapping.physical_to_logical.keys().len() as int,
                )
            },
            final(self).setup == old(self).setup,
            final(self).tick == old(self).tick,
    {
        if stop {
            return ;
        }
        let ghost w = self.world(db@, commands@);
        let n: usize = self.setup.port_mapping.physical_to_logical.len();
        let mut i: usize = 0;
        while i < n
            invariant
                i <= n,
                at + self.setup.ap_conf_wait <= u64::MAX,
                n == self.setup.port_mapping.physical_to_logical.keys().len(),
                self.setup == old(self).setup,
                self.tick == old(self).tick,
                self.world(db@, commands@) == self.setup.all_watched(hal, w, at, i as int),
            decreases n - i,
        {
            let pport: usize = *self.setup.port_mapping.physical_to_logical.key_at(i);
            let lport: Option<String> = match self.setup.port_mapping.physical_to_logical.get(&pport) {
                Some(list) => if list.len() > 0 {
                    Some(list[0].clone())
                } else {
                    None
                },
                None => None,
            };
            proof {
                assert(lport.deep_view() == self.setup.port_mapping@.first_logical(pport));
            }
            if let Some(name) = lport {
                self.watch_port(db, hal, commands, name.as_str(), pport, at);
            }
            i = i + 1;
        }
    }

    /// The mask of the host lanes of a subport of `host_lane_count` lanes.
    pub fn get_cmis_host_lanes_mask(&self, _appl: u32, host_lane_count: u32, subport: u32) -> (r: u32)
        requires
            0 < host_lane_count <= CMIS_MAX_HOST_LANES && subport > 0 ==> (subport - 1) * host_lane_count < 32,
        ensures
            r == if host_lane_count == 0 || host_lane_count > CMIS_MAX_HOST_LANES {
                0
            } else {
                subport_mask(host_lane_count, subport)
            },
    {
        if host_lane_count == 0 || host_lane_count > 8 {
            return 0;
        }
        let base: u32 = lane_mask(host_lane_count as usize) as u32;
        let shift: u32 = if subport > 0 {
            (subport - 1) * host_lane_count
        } else {
            0
        };
        (base << shift) & 0xff
    }

    /// Takes in a port event.
    pub fn on_port_update_event(&mut self, db: &mut Db, port_change_event: &PortChangeEvent)
        ensures
            forall|c: Seq<(usize, Command)>| #[trigger]
                final(self).world(final(db)@, c) == old(self).setup.updated(
                    old(self).world(old(db)@, c),
                    port_change_event@,
                ),
            final(self).setup == old(self).setup,
            final(self).tick == old(self).tick,
    {
        let lport = port_change_event.port_name.as_str();
        if !starts_with(lport, "Ethernet") {
            return ;
        }
        match port_change_event.event_type {
            PortChangeEventType::PortSet | PortChangeEventType::PortAdd => {
                let mut p = self.port(lport);
                proof {
                    assert(p@ == port_of(self.world(db@, Seq::empty()), lport@));
                }
                if let Some(v) = port_change_event.port_dict.get_str("admin_status") {
                    p.last_admin = Some(v.clone());
                }
                if let Some(v) = port_change_event.port_dict.get_str("host_tx_ready") {
                    p.last_htr = Some(v.clone());
                }
                p.initialized = true;
                p.forced_tx_disabled = false;
                let ghost noted = p@;
                self.put(lport, p);
                let ghost mid = *self;
                self.force_cmis_reinit(db, lport, 0);
                proof {
                    assert forall|c: Seq<(usize, Command)>| #[trigger]
                        self.world(db@, c) == old(self).setup.updated(
                            old(self).world(old(db)@, c),
                            port_change_event@,
                        ) by {
                        assert(mid.world(old(db)@, c) =~= with_port(
                            old(self).world(old(db)@, c),
                            lport@,
                            noted,
                        ));
                    }
                }
            },
            PortChangeEventType::PortDel | PortChangeEventType::PortRemove => {
                if self.port_state.contains_str(lport) {
                    self.set_cmis_state(db, lport, CmisState::Removed);
                }
                let ghost mid = *self;
                if is_text(&port_change_event.db_name, "CONFIG_DB") && is_text(
                    &port_change_event.table_name,
                    "PORT",
                ) {
                    self.port_state.remove_str(lport);
                }
                proof {
                    assert forall|c: Seq<(usize, Command)>| #[trigger]
                        self.world(db@, c) == old(self).setup.updated(
                            old(self).world(old(db)@, c),
                            port_change_event@,
                        ) by {
                        let w = old(self).world(old(db)@, c);
                        let marked = if w.ports.contains_key(lport@) {
                            old(self).setup.with_state(w, lport@, CmisState::Removed)
                        } else {
                            w
                        };
                        assert(mid.world(db@, c) == marked);
                    }
                }
            },
        }
    }
}

/// The mask of the host lanes of a subport; lanes past the eighth fall away.
pub open spec fn subport_mask(host_lane_count: u32, subport: u32) -> u32 {
    let shift = if subport > 0 {
        ((subport - 1) * host_lane_count) as u32
    } else {
        0
    };
    ((lanes(host_lane_count as int) as u32) << shift) & 0xff
}

/// Whether a wait has ended at `at`.
pub fn is_timer_expired(expired: Option<u64>, at: u64) -> (r: bool)
    ensures
        r == (expired matches Some(d) && at >= d),
{
    match expired {
        Some(deadline) => at >= deadline,
        None => false,
    }
}

/// The time from `start` to `at`.
pub open spec fn elapsed(start: u64, at: u64) -> int {
    if at >= start {
        at - start
    } else {
        0
    }
}

/// What the bring-up does next.
#[derive(Debug, Clone, Copy, PartialEq, Eq, Structural)]
pub enum CmisPass {
    /// Nothing more.
    Off,
    /// Look at every port ([`CmisManagerTask::tick_once`]).
    Tick,
    /// Look at the configuration ([`CmisManagerTask::poll_port_config_reactions`]).
    React,
}

impl CmisManagerTask {
    /// What the bring-up does next at `at`, where the ports were last looked at from
    /// `tick_start` on.
    pub fn next_pass(&self, stop: bool, tick_start: Option<u64>, at: u64) -> (r: CmisPass)
        ensures
            r == if self.setup.skip_cmis_mgr || stop {
                CmisPass::Off
            } else {
                match tick_start {
                    Some(t) => if elapsed(t, at) >= self.tick {
                        CmisPass::Tick
                    } else {
                        CmisPass::React
                    },
                    None => CmisPass::Tick,
                }
            },
    {
        if self.setup.skip_cmis_mgr || stop {
            return CmisPass::Off;
        }
        match tick_start {
            Some(t) => if at.saturating_sub(t) >= self.tick {
                CmisPass::Tick
            } else {
                CmisPass::React
            },
            None => CmisPass::Tick,
        }
    }

    /// How long to nap at `at` after a look at the configuration: not past the next
    /// look at the ports.
    pub fn nap_msecs(&self, tick_start: u64, at: u64) -> (r: u64)
        ensures
            r == if elapsed(tick_start, at) >= self.tick {
                0
            } else if self.tick - elapsed(tick_start, at) < REACTION_POLL_MSECS {
                self.tick - elapsed(tick_start, at)
            } else {
                REACTION_POLL_MSECS as int
            },
    {
        let remaining: u64 = self.tick.saturating_sub(at.saturating_sub(tick_start));
        if remaining < REACTION_POLL_MSECS {
            remaining
        } else {
            REACTION_POLL_MSECS
        }
    }
}

} // verus!
