//! The periodic publishing of the modules' diagnostics.

use vstd::prelude::*;
use vstd::string::*;
use crate::db::{field_at, with_set, Db, DbState, Fields, TableId};
use crate::dom::utilities::db::{dict_row, filled, shown, Beautifier, DbCache, DbUtils, Diagnostic};
use crate::dom::utilities::dom_sensor::{monitors_posted, port_flags_posted, DomDbUtils};
use crate::dom::utilities::flags::FlagTables;
use crate::dom::utilities::status::StatusDbUtils;
use crate::dom::utilities::vdm::{
    confirmed, real_values_posted, vdm_flags_posted, VdmDbUtils, VdmFlagTables, VdmRequest, VdmTables, VdmUtils,
};
use crate::dom::vdm_run::{asked_under_freeze, vdm_part};
use crate::hal::{dict_read, in_lpmode, is_yes, present, read_dict, yes, Hal, Sfp};
use crate::ord_map::{among, in_order, lemma_among_all, lemma_among_step, IdxMap, OrdMap, StrMap, StrSet};
use crate::text::{is_text, same};
use crate::value::{Dict, DictState};
use crate::xcvrd_utilities::common::{
    cmis_state_text, del_port_sfp_dom_info_from_db, get_cmis_state_from_state_db, port_rows_deleted,
    CMIS_STATE_FAILED, CMIS_STATE_READY, CMIS_STATE_REMOVED,
};
use crate::xcvrd_utilities::port_event_helper::{
    physical_of, EventState, Mapping, PortChangeEvent, PortChangeEventType, PortMapping,
};
use crate::xcvrd_utilities::sfp_status_helper::{detect_port_in_error_status, error_blocked};
use crate::xcvrd_utilities::utils::XcvrdUtils;

verus! {

/// The value of `dom_polling` that turns the monitoring of a port off.
pub const DOM_POLLING_DISABLED: &'static str = "disabled";

/// The value of `dom_polling` that leaves the monitoring of a port on.
pub const DOM_POLLING_ENABLED: &'static str = "enabled";

/// The longest nap between two looks at the link changes.
pub const PORT_UPDATE_EVENT_SELECT_TIMEOUT_MSECS: u64 = 1000;

/// The `dom_polling` setting of a port, which is that of the first logical port of
/// its physical port: disabled where the configuration says so, else enabled.
pub open spec fn dom_polling(m: Mapping, db: DbState, cfg_port_tbl: TableId, port: Seq<char>) -> Seq<char> {
    match m.first_physical(port) {
        Some(p) => match m.first_logical(p) {
            Some(first) => match field_at(db, cfg_port_tbl, first, "dom_polling"@) {
                Some(s) => if s == DOM_POLLING_DISABLED@ {
                    DOM_POLLING_DISABLED@
                } else {
                    DOM_POLLING_ENABLED@
                },
                None => DOM_POLLING_ENABLED@,
            },
            None => DOM_POLLING_ENABLED@,
        },
        None => DOM_POLLING_ENABLED@,
    }
}

/// The first logical port of a physical one.
fn first_logical_port(port_mapping: &PortMapping, physical_port: usize) -> (r: Option<String>)
    ensures
        r.deep_view() == port_mapping@.first_logical(physical_port),
{
    match port_mapping.physical_to_logical.get(&physical_port) {
        Some(list) => if list.len() > 0 {
            Some(list[0].clone())
        } else {
            None
        },
        None => None,
    }
}

fn get_dom_polling_from_config_db(
    port_mapping: &PortMapping,
    db: &Db,
    cfg_port_tbl: TableId,
    lport: &str,
) -> (r: String)
    ensures
        r@ == dom_polling(port_mapping@, db@, cfg_port_tbl, lport@),
{
    let pport: usize = match port_mapping.physical_port(lport) {
        Some(p) => p,
        None => {
            return DOM_POLLING_ENABLED.to_owned();
        },
    };
    let first = match first_logical_port(port_mapping, pport) {
        Some(f) => f,
        None => {
            return DOM_POLLING_ENABLED.to_owned();
        },
    };
    if is_text(&db.hget(cfg_port_tbl, first.as_str(), "dom_polling"), DOM_POLLING_DISABLED) {
        DOM_POLLING_DISABLED.to_owned()
    } else {
        DOM_POLLING_ENABLED.to_owned()
    }
}

/// The name of a state in which the bring-up has come to an end.
pub open spec fn terminal_name(s: Seq<char>) -> bool {
    s == CMIS_STATE_FAILED@ || s == CMIS_STATE_READY@ || s == CMIS_STATE_REMOVED@
}

fn is_cmis_terminal_state(state: &str) -> (r: bool)
    ensures
        r == terminal_name(state@),
{
    same(state, CMIS_STATE_FAILED) || same(state, CMIS_STATE_READY) || same(state, CMIS_STATE_REMOVED)
}

/// The tables of the monitor flags, the hardware status and the status flags.
#[derive(Debug, Clone, Copy)]
pub struct FlagStatusTables {
    pub dom_flag_tbl: TableId,
    pub dom_flag_change_count_tbl: TableId,
    pub dom_flag_set_time_tbl: TableId,
    pub dom_flag_clear_time_tbl: TableId,
    pub status_tbl: TableId,
    pub status_flag_tbl: TableId,
    pub status_flag_change_count_tbl: TableId,
    pub status_flag_set_time_tbl: TableId,
    pub status_flag_clear_time_tbl: TableId,
}

impl FlagStatusTables {
    /// The tables of the monitor flags.
    pub open spec fn dom_flags(self) -> FlagTables {
        FlagTables {
            value: self.dom_flag_tbl,
            change_count: self.dom_flag_change_count_tbl,
            set_time: self.dom_flag_set_time_tbl,
            clear_time: self.dom_flag_clear_time_tbl,
        }
    }

    /// The tables of the status flags.
    pub open spec fn status_flags(self) -> FlagTables {
        FlagTables {
            value: self.status_flag_tbl,
            change_count: self.status_flag_change_count_tbl,
            set_time: self.status_flag_set_time_tbl,
            clear_time: self.status_flag_clear_time_tbl,
        }
    }

    /// Every table.
    pub open spec fn all(self) -> Seq<TableId> {
        seq![
            self.dom_flag_tbl,
            self.dom_flag_change_count_tbl,
            self.dom_flag_set_time_tbl,
            self.dom_flag_clear_time_tbl,
            self.status_tbl,
            self.status_flag_tbl,
            self.status_flag_change_count_tbl,
            self.status_flag_set_time_tbl,
            self.status_flag_clear_time_tbl,
        ]
    }
}

/// The tables of the versatile diagnostics, the performance monitoring and the
/// firmware.
#[derive(Debug, Clone, Copy)]
pub struct VdmPmFirmwareTables {
    pub vdm_real_value_tbl: TableId,
    pub vdm_flag_tables: VdmFlagTables,
    pub pm_tbl: TableId,
    pub firmware_info_tbl: TableId,
}

/// The four tables of a kind.
pub open spec fn four_tables(t: VdmTables) -> Seq<TableId> {
    seq![t.halarm, t.lalarm, t.hwarn, t.lwarn]
}

impl VdmPmFirmwareTables {
    /// Every table.
    pub open spec fn all(self) -> Seq<TableId> {
        seq![self.vdm_real_value_tbl] + four_tables(self.vdm_flag_tables.flag) + four_tables(
            self.vdm_flag_tables.change_count,
        ) + four_tables(self.vdm_flag_tables.set_time) + four_tables(self.vdm_flag_tables.clear_time) + seq![
            self.pm_tbl,
            self.firmware_info_tbl,
        ]
    }
}

fn push_four(v: &mut Vec<TableId>, t: &VdmTables)
    ensures
        final(v)@ == old(v)@ + four_tables(*t),
{
    v.push(t.halarm);
    v.push(t.lalarm);
    v.push(t.hwarn);
    v.push(t.lwarn);
    assert(v@ =~= old(v)@ + four_tables(*t));
}

/// The ports and tables that the monitoring works on.
pub struct DomSetup {
    pub port_mapping: PortMapping,
    pub skip_cmis_mgr: bool,
    pub dom_tbl: TableId,
    pub status_sw_tbl: TableId,
    pub cfg_port_tbl: TableId,
    pub flag_status_tables: Option<FlagStatusTables>,
    pub vdm_pm_fw: Option<VdmPmFirmwareTables>,
    pub appl_port_tbl: Option<TableId>,
    /// The logical ports that the configuration has no more.
    pub deconfigured_ports: Option<StrSet>,
}

/// Fields written to the rows of the first `n` names.
pub open spec fn set_for_names(db: DbState, t: TableId, names: Seq<Seq<char>>, fields: Fields, n: int) -> DbState
    decreases n,
{
    if n <= 0 || n > names.len() {
        db
    } else {
        with_set(set_for_names(db, t, names, fields, n - 1), t, names[n - 1], fields)
    }
}

/// The performance monitoring of a module that is there and has paged memory,
/// written where it holds anything.
pub open spec fn pm_posted(db: DbState, m: Mapping, hal: &Hal, port: Seq<char>, t: TableId) -> DbState {
    match physical_of(m, port) {
        Some(p) => {
            let s = hal.sfps@[p as int];
            if present(hal, p) && !yes(s.flat_memory) && filled(dict_read(s.pm)) {
                with_set(db, t, port, shown(Beautifier::Plain, dict_read(s.pm)))
            } else {
                db
            }
        },
        None => db,
    }
}

/// The firmware versions of a module that is there, written for every logical
/// port of its physical port.
pub open spec fn firmware_posted(db: DbState, m: Mapping, hal: &Hal, port: Seq<char>, t: TableId) -> DbState {
    match physical_of(m, port) {
        Some(p) => {
            let s = hal.sfps@[p as int];
            if present(hal, p) && filled(dict_read(s.firmware_versions)) && m.to_logical.contains_key(p) {
                set_for_names(
                    db,
                    t,
                    m.to_logical[p],
                    shown(Beautifier::Plain, dict_read(s.firmware_versions)),
                    m.to_logical[p].len() as int,
                )
            } else {
                db
            }
        },
        None => db,
    }
}

/// Whether a module froze, its statistics, and what was asked of it for them.
pub type FrozenReading = ((bool, Dict), Vec<VdmRequest>);

/// `o` is what a module tells between freezing and releasing: its statistics where
/// it froze, else nothing.
pub open spec fn read_under_freeze(s: Sfp, frozen: bool, o: FrozenReading) -> bool {
    &&& o.0.0 == frozen
    &&& o.0.1@ == if frozen {
        dict_read(s.vdm_real_value_statistic)
    } else {
        no_values()
    }
    &&& o.1@ == asked_under_freeze(frozen)
}

/// The dictionary without entries.
pub open spec fn no_values() -> DictState {
    Map::empty()
}

/// The statistics of a module are to be frozen and read: it has them and is not
/// in low-power mode.
pub open spec fn freeze_needed(s: Sfp) -> bool {
    yes(s.vdm_statistic_supported) && !in_lpmode(s)
}

impl DomSetup {
    /// The configuration has the port no more.
    pub open spec fn deconfigured(&self, port: Seq<char>) -> bool {
        self.deconfigured_ports matches Some(s) && s@.contains(port)
    }

    /// Every table whose rows the monitoring writes.
    pub open spec fn owned_tables(&self) -> Seq<TableId> {
        seq![self.dom_tbl] + match self.flag_status_tables {
            Some(ft) => ft.all(),
            None => Seq::empty(),
        } + match self.vdm_pm_fw {
            Some(vpf) => vpf.all(),
            None => Seq::empty(),
        }
    }

    /// The datapath of the port is still being brought up.
    pub open spec fn cmis_initializing(&self, db: DbState, port: Seq<char>) -> bool {
        &&& !self.skip_cmis_mgr
        &&& self.port_mapping@.asic_of(port) is Some
        &&& !terminal_name(cmis_state_text(db, self.status_sw_tbl, port))
    }

    /// The configuration turns the monitoring of the port off.
    pub open spec fn polling_disabled(&self, db: DbState, port: Seq<char>) -> bool {
        dom_polling(self.port_mapping@, db, self.cfg_port_tbl, port) == DOM_POLLING_DISABLED@
    }

    /// The port is not to be monitored now.
    pub open spec fn monitoring_disabled(&self, db: DbState, port: Seq<char>) -> bool {
        self.polling_disabled(db, port) || self.cmis_initializing(db, port)
    }

    /// The module of the port is read: the configuration has the port, it is to be
    /// monitored, and no error keeps its EEPROM from being read.
    pub open spec fn polled(&self, db: DbState, port: Seq<char>) -> bool {
        &&& !self.deconfigured(port)
        &&& !self.monitoring_disabled(db, port)
        &&& self.port_mapping@.asic_of(port) is Some
        &&& !error_blocked(db, self.status_sw_tbl, port)
    }

    /// As [`DomSetup::polled`], whatever the state of the bring-up.
    pub open spec fn primed(&self, db: DbState, port: Seq<char>) -> bool {
        &&& !self.deconfigured(port)
        &&& !self.polling_disabled(db, port)
        &&& self.port_mapping@.asic_of(port) is Some
        &&& !error_blocked(db, self.status_sw_tbl, port)
    }

    /// The rows of a port deleted from every owned table.
    pub open spec fn purged(&self, db: DbState, port: Seq<char>) -> DbState {
        port_rows_deleted(db, self.port_mapping@, self.owned_tables(), port)
    }

    /// The monitor values posted.
    pub open spec fn sensor_posted(&self, hal: &Hal, db: DbState, port: Seq<char>, now: u64) -> DbState {
        monitors_posted(
            db,
            Map::empty(),
            false,
            self.port_mapping@,
            hal,
            port,
            self.dom_tbl,
            Diagnostic::DomSensor,
            Beautifier::Dom,
            now,
        )
    }

    /// The latched monitor flags posted.
    pub open spec fn dom_flags_posted(&self, hal: &Hal, db: DbState, port: Seq<char>, ft: FlagStatusTables, now: u64) -> DbState {
        port_flags_posted(
            db,
            Map::empty(),
            false,
            self.port_mapping@,
            hal,
            port,
            Diagnostic::DomFlags,
            Beautifier::Dom,
            ft.dom_flags(),
            now,
        )
    }

    /// The hardware status posted.
    pub open spec fn status_posted(&self, hal: &Hal, db: DbState, port: Seq<char>, ft: FlagStatusTables, now: u64) -> DbState {
        monitors_posted(
            db,
            Map::empty(),
            false,
            self.port_mapping@,
            hal,
            port,
            ft.status_tbl,
            Diagnostic::Status,
            Beautifier::Plain,
            now,
        )
    }

    /// The latched status flags posted.
    pub open spec fn status_flags_posted(&self, hal: &Hal, db: DbState, port: Seq<char>, ft: FlagStatusTables, now: u64) -> DbState {
        port_flags_posted(
            db,
            Map::empty(),
            false,
            self.port_mapping@,
            hal,
            port,
            Diagnostic::StatusFlags,
            Beautifier::Plain,
            ft.status_flags(),
            now,
        )
    }

    /// Both kinds of latched flags posted.
    pub open spec fn both_flags_posted(&self, hal: &Hal, db: DbState, port: Seq<char>, ft: FlagStatusTables, now: u64) -> DbState {
        self.status_flags_posted(hal, self.dom_flags_posted(hal, db, port, ft, now), port, ft, now)
    }

    /// The flags and the hardware status posted, the flags where they are asked for.
    pub open spec fn flag_status_posted(
        &self,
        hal: &Hal,
        db: DbState,
        port: Seq<char>,
        ft: FlagStatusTables,
        include_flags: bool,
        now: u64,
    ) -> DbState {
        if include_flags {
            self.status_flags_posted(
                hal,
                self.status_posted(hal, self.dom_flags_posted(hal, db, port, ft, now), port, ft, now),
                port,
                ft,
                now,
            )
        } else {
            self.status_posted(hal, db, port, ft, now)
        }
    }

    /// The firmware, the performance monitoring, and the real values and flags of
    /// the versatile diagnostics posted.
    pub open spec fn vdm_block_posted(&self, hal: &Hal, db: DbState, port: Seq<char>, vpf: VdmPmFirmwareTables, now: u64) -> DbState {
        let m = self.port_mapping@;
        let db = firmware_posted(db, m, hal, port, vpf.firmware_info_tbl);
        match m.first_physical(port) {
            Some(p) => {
                let s = hal.sfps@[p as int];
                if p >= hal.sfps@.len() || !yes(s.vdm_supported) {
                    db
                } else {
                    let frozen = freeze_needed(s) && confirmed(s.vdm_freeze);
                    let db = if frozen {
                        pm_posted(db, m, hal, port, vpf.pm_tbl)
                    } else {
                        db
                    };
                    let merged = if frozen {
                        dict_read(s.vdm_real_value_basic).union_prefer_right(
                            dict_read(s.vdm_real_value_statistic),
                        )
                    } else {
                        dict_read(s.vdm_real_value_basic)
                    };
                    let db = real_values_posted(db, false, m, hal, port, vpf.vdm_real_value_tbl, merged, now);
                    vdm_flags_posted(db, false, m, hal, port, vpf.vdm_flag_tables, now)
                }
            },
            None => db,
        }
    }

    /// What is asked of a port's module to publish its firmware versions, where it is
    /// there, and its versatile diagnostics.
    pub open spec fn vdm_asked(&self, hal: &Hal, port: Seq<char>) -> Seq<VdmRequest> {
        let m = self.port_mapping@;
        let firmware = if physical_of(m, port) matches Some(p) && present(hal, p) {
            seq![VdmRequest::Firmware]
        } else {
            Seq::empty()
        };
        match m.first_physical(port) {
            Some(p) => if p < hal.sfps@.len() {
                firmware + vdm_part(hal.sfps@[p as int])
            } else {
                firmware
            },
            None => firmware,
        }
    }

    /// One port of a poll: purged where the configuration has it no more, posted
    /// where its module is read.
    pub open spec fn port_polled(
        &self,
        hal: &Hal,
        db: DbState,
        port: Seq<char>,
        include_flags: bool,
        include_vdm: bool,
        now: u64,
    ) -> DbState {
        if self.deconfigured(port) {
            self.purged(db, port)
        } else if !self.polled(db, port) {
            db
        } else {
            let db = self.sensor_posted(hal, db, port, now);
            let db = match self.flag_status_tables {
                Some(ft) => self.flag_status_posted(hal, db, port, ft, include_flags, now),
                None => db,
            };
            match self.vdm_pm_fw {
                Some(vpf) => if include_vdm {
                    self.vdm_block_posted(hal, db, port, vpf, now)
                } else {
                    db
                },
                None => db,
            }
        }
    }

    /// The first logical ports of the first `n` physical ports polled, in order.
    pub open spec fn ports_polled(
        &self,
        hal: &Hal,
        db: DbState,
        include_flags: bool,
        include_vdm: bool,
        now: u64,
        n: int,
    ) -> DbState
        decreases n,
    {
        if n <= 0 {
            db
        } else {
            let before = self.ports_polled(hal, db, include_flags, include_vdm, now, n - 1);
            match self.port_mapping@.first_logical(self.port_mapping.physical_to_logical.keys()[n - 1]) {
                Some(port) => self.port_polled(hal, before, port, include_flags, include_vdm, now),
                None => before,
            }
        }
    }

    /// One port of the first publishing of flags.
    pub open spec fn port_primed(&self, hal: &Hal, db: DbState, port: Seq<char>, ft: FlagStatusTables, now: u64) -> DbState {
        if self.deconfigured(port) {
            self.purged(db, port)
        } else if !self.primed(db, port) {
            db
        } else {
            self.both_flags_posted(hal, db, port, ft, now)
        }
    }

    /// The flags of the first `n` physical ports published, in order.
    pub open spec fn ports_primed(&self, hal: &Hal, db: DbState, ft: FlagStatusTables, now: u64, n: int) -> DbState
        decreases n,
    {
        if n <= 0 {
            db
        } else {
            let before = self.ports_primed(hal, db, ft, now, n - 1);
            match self.port_mapping@.first_logical(self.port_mapping.physical_to_logical.keys()[n - 1]) {
                Some(port) => self.port_primed(hal, before, port, ft, now),
                None => before,
            }
        }
    }

    /// The flags of a physical port read anew after its link changed: those of its
    /// first logical port, where its module is read and there.
    pub open spec fn link_change_posted(&self, hal: &Hal, db: DbState, physical: usize, now: u64) -> DbState {
        match self.port_mapping@.first_logical(physical) {
            Some(port) => if !self.polled(db, port) || !present(hal, physical) {
                db
            } else {
                match self.flag_status_tables {
                    Some(ft) => {
                        let db = self.both_flags_posted(hal, db, port, ft, now);
                        match self.vdm_pm_fw {
                            Some(vpf) => if yes(hal.sfps@[physical as int].vdm_supported) {
                                vdm_flags_posted(
                                    db,
                                    false,
                                    self.port_mapping@,
                                    hal,
                                    port,
                                    vpf.vdm_flag_tables,
                                    now,
                                )
                            } else {
                                db
                            },
                            None => db,
                        }
                    },
                    None => db,
                }
            },
            None => db,
        }
    }

    /// What the bring-up states were seen as, and the tables, after the first `n`
    /// physical ports were looked at: flags are read anew where the bring-up of a
    /// port has just come to an end, and where it has ended and the port has no
    /// flag row.
    pub open spec fn gates_watched(
        &self,
        hal: &Hal,
        db: DbState,
        seen: Map<Seq<char>, bool>,
        ft: FlagStatusTables,
        now: u64,
        n: int,
    ) -> (DbState, Map<Seq<char>, bool>)
        decreases n,
    {
        if n <= 0 {
            (db, seen)
        } else {
            let (d, s) = self.gates_watched(hal, db, seen, ft, now, n - 1);
            let physical = self.port_mapping.physical_to_logical.keys()[n - 1];
            match self.port_mapping@.first_logical(physical) {
                Some(port) => {
                    let ended = terminal_name(cmis_state_text(d, self.status_sw_tbl, port));
                    let just_ended = s.contains_key(port) && !s[port] && ended;
                    let missing = ended && !d.contains_key((ft.dom_flag_tbl, port));
                    (
                        if just_ended || missing {
                            self.link_change_posted(hal, d, physical, now)
                        } else {
                            d
                        },
                        s.insert(port, ended),
                    )
                },
                None => (d, s),
            }
        }
    }

    /// The flap counts seen and the pending link changes after the first `n`
    /// logical ports were looked at: a count that differs from the one seen before
    /// makes the flags of its physical port due.
    pub open spec fn flaps_watched(
        &self,
        db: DbState,
        appl: TableId,
        seen: Map<Seq<char>, Seq<char>>,
        pending: Map<usize, u64>,
        at: u64,
        n: int,
    ) -> (Map<Seq<char>, Seq<char>>, Map<usize, u64>)
        decreases n,
    {
        if n <= 0 {
            (seen, pending)
        } else {
            let (s, q) = self.flaps_watched(db, appl, seen, pending, at, n - 1);
            let port = self.port_mapping@.logical[n - 1];
            let count = match field_at(db, appl, port, "flap_count"@) {
                Some(c) => c,
                None => Seq::empty(),
            };
            let flapped = s.contains_key(port) && s[port] != count;
            (
                s.insert(port, count),
                match self.port_mapping@.first_physical(port) {
                    Some(p) => if flapped {
                        q.insert((p as i32) as usize, (at + LINK_CHANGE_DELAY_MSECS) as u64)
                    } else {
                        q
                    },
                    None => q,
                },
            )
        }
    }

    /// The flags of the due ones among the first `n` pending physical ports read
    /// anew, in order.
    pub open spec fn due_read(
        &self,
        hal: &Hal,
        db: DbState,
        ports: Seq<usize>,
        pending: Map<usize, u64>,
        at: u64,
        now: u64,
        n: int,
    ) -> DbState
        decreases n,
    {
        if n <= 0 {
            db
        } else {
            let before = self.due_read(hal, db, ports, pending, at, now, n - 1);
            if pending[ports[n - 1]] <= at {
                self.link_change_posted(hal, before, ports[n - 1], now)
            } else {
                before
            }
        }
    }
}

/// How long after a link change the flags are read.
pub const LINK_CHANGE_DELAY_MSECS: u64 = 1000;

/// The pending link changes after an event: that a port was set in the
/// application database makes its flags due after the delay.
pub open spec fn link_event(pending: Map<usize, u64>, e: EventState, at: u64) -> Map<usize, u64> {
    if e.event_type == PortChangeEventType::PortSet && e.db_name == Some("APPL_DB"@) {
        pending.insert(e.port_index as usize, (at + LINK_CHANGE_DELAY_MSECS) as u64)
    } else {
        pending
    }
}

/// The entries of `pending` that are not due yet.
pub open spec fn not_due(pending: Map<usize, u64>, at: u64) -> Map<usize, u64> {
    Map::new(|p: usize| pending.contains_key(p) && pending[p] > at, |p: usize| pending[p])
}

/// What a look at the link changes and the bring-up states goes by.
#[verifier::ext_equal]
pub struct Watch {
    pub db: DbState,
    /// The flap count last seen of each logical port.
    pub flaps: Map<Seq<char>, Seq<char>>,
    /// The physical ports whose flags are to be read anew, and when.
    pub pending: Map<usize, u64>,
    /// Whether the bring-up of each logical port was seen to have ended.
    pub ended: Map<Seq<char>, bool>,
}

/// The monitoring of the modules' diagnostics.
pub struct DomInfoUpdateTask {
    pub setup: DomSetup,
    /// The seconds from one poll to the next.
    pub dom_update_interval: u64,
    /// The flap count last seen of each logical port.
    pub flap_last: StrMap<String>,
    /// The physical ports whose flags are to be read anew, and when.
    pub link_change_affected_ports: IdxMap<u64>,
    /// When the first poll is due.
    pub first_periodic_deadline: Option<u64>,
    /// Whether the bring-up of each logical port was seen to have ended.
    pub cmis_terminal_last: StrMap<bool>,
}

impl DomInfoUpdateTask {
    /// The seconds from one poll to the next, where none are given.
    pub const DEFAULT_DOM_INFO_UPDATE_PERIOD_SECS: u64 = 60;

    /// The seconds after a link change at which the flags are read.
    pub const DIAG_DB_UPDATE_TIME_AFTER_LINK_CHANGE: u64 = 1;

    pub fn new(
        port_mapping: PortMapping,
        skip_cmis_mgr: bool,
        dom_update_interval: Option<u64>,
        dom_tbl: TableId,
        status_sw_tbl: TableId,
        cfg_port_tbl: TableId,
    ) -> (r: Self)
        ensures
            r.setup.port_mapping == port_mapping,
            r.setup.skip_cmis_mgr == skip_cmis_mgr,
            r.setup.dom_tbl == dom_tbl,
            r.setup.status_sw_tbl == status_sw_tbl,
            r.setup.cfg_port_tbl == cfg_port_tbl,
            r.setup.flag_status_tables is None,
            r.setup.vdm_pm_fw is None,
            r.setup.appl_port_tbl is None,
            r.setup.deconfigured_ports is None,
            r.dom_update_interval == match dom_update_interval {
                Some(s) => s,
                None => 60,
            },
            r.flap_last@ == Map::<Seq<char>, Seq<char>>::empty(),
            r.link_change_affected_ports@ == Map::<usize, u64>::empty(),
            r.first_periodic_deadline is None,
            r.cmis_terminal_last@ == Map::<Seq<char>, bool>::empty(),
    {
        DomInfoUpdateTask {
            setup: DomSetup {
                port_mapping,
                skip_cmis_mgr,
                dom_tbl,
                status_sw_tbl,
                cfg_port_tbl,
                flag_status_tables: None,
                vdm_pm_fw: None,
                appl_port_tbl: None,
                deconfigured_ports: None,
            },
            dom_update_interval: match dom_update_interval {
                Some(s) => s,
                None => Self::DEFAULT_DOM_INFO_UPDATE_PERIOD_SECS,
            },
            flap_last: OrdMap::new(),
            link_change_affected_ports: OrdMap::new(),
            first_periodic_deadline: None,
            cmis_terminal_last: OrdMap::new(),
        }
    }

    pub fn set_flag_status_tables(&mut self, tables: FlagStatusTables)
        ensures
            *final(self) == (DomInfoUpdateTask {
                setup: DomSetup { flag_status_tables: Some(tables), ..old(self).setup },
                ..*old(self)
            }),
    {
        self.setup.flag_status_tables = Some(tables);
    }

    pub fn set_vdm_pm_firmware_tables(&mut self, tables: VdmPmFirmwareTables)
        ensures
            *final(self) == (DomInfoUpdateTask {
                setup: DomSetup { vdm_pm_fw: Some(tables), ..old(self).setup },
                ..*old(self)
            }),
    {
        self.setup.vdm_pm_fw = Some(tables);
    }

    pub fn set_appl_port_table(&mut self, tbl: TableId)
        ensures
            *final(self) == (DomInfoUpdateTask {
                setup: DomSetup { appl_port_tbl: Some(tbl), ..old(self).setup },
                ..*old(self)
            }),
    {
        self.setup.appl_port_tbl = Some(tbl);
    }

    /// Says which logical ports the configuration has no more.
    pub fn set_deconfigured_ports(&mut self, set: StrSet)
        ensures
            *final(self) == (DomInfoUpdateTask {
                setup: DomSetup { deconfigured_ports: Some(set), ..old(self).setup },
                ..*old(self)
            }),
    {
        self.setup.deconfigured_ports = Some(set);
    }

    /// Makes the first poll due one interval after the daemon's start.
    pub fn set_first_periodic_from_boot(&mut self, boot_msecs: u64)
        requires
            boot_msecs + old(self).dom_update_interval * 1000 <= u64::MAX,
        ensures
            *final(self) == (DomInfoUpdateTask {
                first_periodic_deadline: Some(
                    (boot_msecs + old(self).dom_update_interval * 1000) as u64,
                ),
                ..*old(self)
            }),
    {
        self.first_periodic_deadline = Some(boot_msecs + self.dom_update_interval * 1000);
    }

    fn is_deconfigured(&self, logical_port: &str) -> (r: bool)
        ensures
            r == self.setup.deconfigured(logical_port@),
    {
        match &self.setup.deconfigured_ports {
            Some(set) => set.contains(logical_port),
            None => false,
        }
    }

    fn purge_deconfigured_port_tables(&self, db: &mut Db, logical_port: &str)
        ensures
            final(db)@ == self.setup.purged(old(db)@, logical_port@),
    {
        let mut tbls: Vec<TableId> = Vec::new();
        tbls.push(self.setup.dom_tbl);
        if let Some(ft) = &self.setup.flag_status_tables {
            tbls.push(ft.dom_flag_tbl);
            tbls.push(ft.dom_flag_change_count_tbl);
            tbls.push(ft.dom_flag_set_time_tbl);
            tbls.push(ft.dom_flag_clear_time_tbl);
            tbls.push(ft.status_tbl);
            tbls.push(ft.status_flag_tbl);
            tbls.push(ft.status_flag_change_count_tbl);
            tbls.push(ft.status_flag_set_time_tbl);
            tbls.push(ft.status_flag_clear_time_tbl);
        }
        if let Some(vpf) = &self.setup.vdm_pm_fw {
            tbls.push(vpf.vdm_real_value_tbl);
            push_four(&mut tbls, &vpf.vdm_flag_tables.flag);
            push_four(&mut tbls, &vpf.vdm_flag_tables.change_count);
            push_four(&mut tbls, &vpf.vdm_flag_tables.set_time);
            push_four(&mut tbls, &vpf.vdm_flag_tables.clear_time);
            tbls.push(vpf.pm_tbl);
            tbls.push(vpf.firmware_info_tbl);
        }
        assert(tbls@ =~= self.setup.owned_tables());
        del_port_sfp_dom_info_from_db(logical_port, &self.setup.port_mapping, db, &tbls);
    }

    /// The `dom_polling` setting of a port.
    pub fn get_dom_polling_from_config_db(&self, db: &Db, lport: &str) -> (r: String)
        ensures
            r@ == dom_polling(self.setup.port_mapping@, db@, self.setup.cfg_port_tbl, lport@),
    {
        get_dom_polling_from_config_db(&self.setup.port_mapping, db, self.setup.cfg_port_tbl, lport)
    }

    /// Whether the datapath of the port is still being brought up.
    pub fn is_port_in_cmis_initialization_process(&self, db: &Db, logical_port_name: &str) -> (r: bool)
        ensures
            r == self.setup.cmis_initializing(db@, logical_port_name@),
    {
        if self.setup.skip_cmis_mgr {
            return false;
        }
        if self.setup.port_mapping.get_asic_id_for_logical_port(logical_port_name).is_none() {
            return false;
        }
        let cmis_state = get_cmis_state_from_state_db(logical_port_name, db, self.setup.status_sw_tbl);
        !is_cmis_terminal_state(cmis_state.as_str())
    }

    /// Whether the port is not to be monitored now.
    pub fn is_port_dom_monitoring_disabled(&self, db: &Db, logical_port_name: &str) -> (r: bool)
        ensures
            r == self.setup.monitoring_disabled(db@, logical_port_name@),
    {
        let polling = self.get_dom_polling_from_config_db(db, logical_port_name);
        same(polling.as_str(), DOM_POLLING_DISABLED) || self.is_port_in_cmis_initialization_process(
            db,
            logical_port_name,
        )
    }

    /// Whether a poll reads the module of the port.
    pub fn is_port_polled(&self, db: &Db, logical_port_name: &str) -> (r: bool)
        ensures
            r == self.setup.polled(db@, logical_port_name@),
    {
        !self.is_deconfigured(logical_port_name) && !self.is_port_dom_monitoring_disabled(
            db,
            logical_port_name,
        ) && self.setup.port_mapping.get_asic_id_for_logical_port(logical_port_name).is_some()
            && !detect_port_in_error_status(logical_port_name, db, self.setup.status_sw_tbl)
    }

    /// Whether the first publishing of flags reads the module of the port.
    pub fn is_port_primed(&self, db: &Db, logical_port_name: &str) -> (r: bool)
        ensures
            r == self.setup.primed(db@, logical_port_name@),
    {
        let polling = self.get_dom_polling_from_config_db(db, logical_port_name);
        !self.is_deconfigured(logical_port_name) && !same(polling.as_str(), DOM_POLLING_DISABLED)
            && self.setup.port_mapping.get_asic_id_for_logical_port(logical_port_name).is_some()
            && !detect_port_in_error_status(logical_port_name, db, self.setup.status_sw_tbl)
    }

    /// Publishes the diagnostics of the first logical port of every physical port
    /// whose module is read, and deletes the rows of those that the configuration
    /// has no more.
    pub fn poll_once(
        &self,
        stop: bool,
        db: &mut Db,
        hal: &Hal,
        include_flags: bool,
        include_vdm: bool,
        now: u64,
    )
        ensures
            final(db)@ == if stop {
                old(db)@
            } else {
                self.setup.ports_polled(
                    hal,
                    old(db)@,
                    include_flags,
                    include_vdm,
                    now,
                    self.setup.port_mapping.physical_to_logical.keys().len() as int,
                )
            },
    {
        if stop {
            return ;
        }
        let ghost before = db@;
        let n: usize = self.setup.port_mapping.physical_to_logical.len();
        let mut i: usize = 0;
        while i < n
            invariant
                i <= n,
                n == self.setup.port_mapping.physical_to_logical.keys().len(),
                db@ == self.setup.ports_polled(hal, before, include_flags, include_vdm, now, i as int),
            decreases n - i,
        {
            let physical_port: usize = *self.setup.port_mapping.physical_to_logical.key_at(i);
            if let Some(logical_port_name) = first_logical_port(&self.setup.port_mapping, physical_port) {
                self.poll_port(
                    db,
                    hal,
                    logical_port_name.as_str(),
                    include_flags,
                    include_vdm,
                    now,
                );
            }
            i = i + 1;
        }
    }

    fn poll_port(
        &self,
        db: &mut Db,
        hal: &Hal,
        logical_port_name: &str,
        include_flags: bool,
        include_vdm: bool,
        now: u64,
    )
        ensures
            final(db)@ == self.setup.port_polled(
                hal,
                old(db)@,
                logical_port_name@,
                include_flags,
                include_vdm,
                now,
            ),
    {
        if self.is_deconfigured(logical_port_name) {
            self.purge_deconfigured_port_tables(db, logical_port_name);
            return ;
        }
        if !self.is_port_polled(db, logical_port_name) {
            return ;
        }
        let mut cache: DbCache = OrdMap::new();
        DomDbUtils::new().post_port_dom_sensor_info_to_db(
            false,
            logical_port_name,
            &self.setup.port_mapping,
            db,
            self.setup.dom_tbl,
            hal,
            &mut cache,
            now,
        );
        if let Some(ft) = &self.setup.flag_status_tables {
            if include_flags {
                self.post_dom_flags(db, hal, logical_port_name, ft, now);
            }
            let mut cache: DbCache = OrdMap::new();
            StatusDbUtils::new().post_port_transceiver_hw_status_to_db(
                false,
                logical_port_name,
                &self.setup.port_mapping,
                db,
                ft.status_tbl,
                hal,
                &mut cache,
                now,
            );
            if include_flags {
                self.post_status_flags(db, hal, logical_port_name, ft, now);
            }
        }
        if include_vdm {
            if let Some(vpf) = &self.setup.vdm_pm_fw {
                let _ = self.post_port_vdm_pm_firmware_info(db, hal, logical_port_name, vpf, now);
            }
        }
    }

    fn post_dom_flags(&self, db: &mut Db, hal: &Hal, logical_port_name: &str, ft: &FlagStatusTables, now: u64)
        ensures
            final(db)@ == self.setup.dom_flags_posted(hal, old(db)@, logical_port_name@, *ft, now),
    {
        let mut cache: DbCache = OrdMap::new();
        DomDbUtils::new().post_port_dom_flags_to_db(
            false,
            logical_port_name,
            &self.setup.port_mapping,
            db,
            hal,
            ft.dom_flag_tbl,
            ft.dom_flag_change_count_tbl,
            ft.dom_flag_set_time_tbl,
            ft.dom_flag_clear_time_tbl,
            &mut cache,
            now,
        );
    }

    fn post_status_flags(&self, db: &mut Db, hal: &Hal, logical_port_name: &str, ft: &FlagStatusTables, now: u64)
        ensures
            final(db)@ == self.setup.status_flags_posted(hal, old(db)@, logical_port_name@, *ft, now),
    {
        let mut cache: DbCache = OrdMap::new();
        StatusDbUtils::new().post_port_transceiver_hw_status_flags_to_db(
            false,
            logical_port_name,
            &self.setup.port_mapping,
            db,
            hal,
            ft.status_flag_tbl,
            ft.status_flag_change_count_tbl,
            ft.status_flag_set_time_tbl,
            ft.status_flag_clear_time_tbl,
            &mut cache,
            now,
        );
    }

    /// Publishes the latched flags of every port at once, whatever the state of
    /// its bring-up.
    pub fn prime_flag_baselines(&self, stop: bool, db: &mut Db, hal: &Hal, now: u64)
        ensures
            final(db)@ == match self.setup.flag_status_tables {
                Some(ft) => if stop {
                    old(db)@
                } else {
                    self.setup.ports_primed(
                        hal,
                        old(db)@,
                        ft,
                        now,
                        self.setup.port_mapping.physical_to_logical.keys().len() as int,
                    )
                },
                None => old(db)@,
            },
    {
        let ft = match &self.setup.flag_status_tables {
            Some(ft) => ft,
            None => {
                return ;
            },
        };
        if stop {
            return ;
        }
        let ghost before = db@;
        let n: usize = self.setup.port_mapping.physical_to_logical.len();
        let mut i: usize = 0;
        while i < n
            invariant
                i <= n,
                n == self.setup.port_mapping.physical_to_logical.keys().len(),
                db@ == self.setup.ports_primed(hal, before, *ft, now, i as int),
            decreases n - i,
        {
            let physical_port: usize = *self.setup.port_mapping.physical_to_logical.key_at(i);
            if let Some(name) = first_logical_port(&self.setup.port_mapping, physical_port) {
                self.prime_port(db, hal, name.as_str(), ft, now);
            }
            i = i + 1;
        }
    }

    fn prime_port(&self, db: &mut Db, hal: &Hal, logical_port_name: &str, ft: &FlagStatusTables, now: u64)
        ensures
            final(db)@ == self.setup.port_primed(hal, old(db)@, logical_port_name@, *ft, now),
    {
        if self.is_deconfigured(logical_port_name) {
            self.purge_deconfigured_port_tables(db, logical_port_name);
            return ;
        }
        let polling = self.get_dom_polling_from_config_db(db, logical_port_name);
        if same(polling.as_str(), DOM_POLLING_DISABLED) {
            return ;
        }
        if self.setup.port_mapping.get_asic_id_for_logical_port(logical_port_name).is_none() {
            return ;
        }
        if detect_port_in_error_status(logical_port_name, db, self.setup.status_sw_tbl) {
            return ;
        }
        self.post_dom_flags(db, hal, logical_port_name, ft, now);
        self.post_status_flags(db, hal, logical_port_name, ft, now);
    }

    /// Posts the performance monitoring of a port's module.
    pub fn post_port_pm_info_to_db(&self, stop: bool, logical_port_name: &str, db: &mut Db, table: TableId, hal: &Hal)
        ensures
            final(db)@ == if stop {
                old(db)@
            } else {
                pm_posted(old(db)@, self.setup.port_mapping@, hal, logical_port_name@, table)
            },
    {
        if stop {
            return ;
        }
        let list = match self.setup.port_mapping.logical_port_name_to_physical_port_list(
            logical_port_name,
        ) {
            Some(l) => l,
            None => {
                return ;
            },
        };
        let physical_port: usize = list[0];
        if !hal.is_present(physical_port) {
            return ;
        }
        let sfp = &hal.sfps[physical_port];
        if is_yes(&sfp.flat_memory) {
            return ;
        }
        let mut pm = read_dict(&sfp.pm);
        if pm.is_empty() {
            return ;
        }
        let ghost all = pm@;
        DbUtils::new().beautify_info_dict(&mut pm);
        let row = dict_row(&pm);
        proof {
            assert(row@ =~= shown(Beautifier::Plain, all));
        }
        db.set(table, logical_port_name, &row);
    }

    /// Posts the firmware versions of a port's module for every logical port of
    /// its physical port.
    pub fn post_port_sfp_firmware_info_to_db(
        &self,
        stop: bool,
        logical_port_name: &str,
        db: &mut Db,
        table: TableId,
        hal: &Hal,
    )
        ensures
            final(db)@ == if stop {
                old(db)@
            } else {
                firmware_posted(old(db)@, self.setup.port_mapping@, hal, logical_port_name@, table)
            },
    {
        if stop {
            return ;
        }
        let list = match self.setup.port_mapping.logical_port_name_to_physical_port_list(
            logical_port_name,
        ) {
            Some(l) => l,
            None => {
                return ;
            },
        };
        let physical_port: usize = list[0];
        if !hal.is_present(physical_port) {
            return ;
        }
        let fw = read_dict(&hal.sfps[physical_port].firmware_versions);
        if fw.is_empty() {
            return ;
        }
        let row = dict_row(&fw);
        if let Some(names) = self.setup.port_mapping.get_physical_to_logical(physical_port) {
            let ghost before = db@;
            let ghost all = names.deep_view();
            let mut i: usize = 0;
            while i < names.len()
                invariant
                    i <= names.len(),
                    all == names.deep_view(),
                    db@ == set_for_names(before, table, all, row@, i as int),
                decreases names.len() - i,
            {
                db.set(table, names[i].as_str(), &row);
                i = i + 1;
            }
        }
    }

    fn read_frozen(&self, sfp: &Sfp, frozen: bool) -> (r: FrozenReading)
        ensures
            read_under_freeze(*sfp, frozen, r),
    {
        if frozen {
            let statistic = VdmUtils::new().get_vdm_real_values_statistic(sfp);
            let asked: Vec<VdmRequest> = vec![VdmRequest::Statistic, VdmRequest::Pm];
            assert(asked@ =~= asked_under_freeze(true));
            ((true, statistic), asked)
        } else {
            ((false, OrdMap::new()), Vec::new())
        }
    }

    /// Publishes the firmware versions of a port's module, and where it has versatile
    /// diagnostics, its statistics under a freeze, its real values and its flags. Gives
    /// back what is asked of the module for that, in order.
    pub fn post_port_vdm_pm_firmware_info(
        &self,
        db: &mut Db,
        hal: &Hal,
        logical_port_name: &str,
        vpf: &VdmPmFirmwareTables,
        now: u64,
    ) -> (r: Vec<VdmRequest>)
        ensures
            r@ == self.setup.vdm_asked(hal, logical_port_name@),
            final(db)@ == self.setup.vdm_block_posted(hal, old(db)@, logical_port_name@, *vpf, now),
    {
        self.post_port_sfp_firmware_info_to_db(
            false,
            logical_port_name,
            db,
            vpf.firmware_info_tbl,
            hal,
        );
        let mut asked: Vec<VdmRequest> = Vec::new();
        if let Some(list) = self.setup.port_mapping.logical_port_name_to_physical_port_list(logical_port_name) {
            if hal.is_present(list[0]) {
                asked.push(VdmRequest::Firmware);
            }
        }
        let ghost firmware = asked@;
        let physical_port: usize = match self.setup.port_mapping.physical_port(logical_port_name) {
            Some(p) => p,
            None => {
                return asked;
            },
        };
        let sfp = match hal.sfp(physical_port) {
            Ok(s) => s,
            Err(_) => {
                return asked;
            },
        };
        let vdm = VdmUtils::new();
        if !vdm.is_transceiver_vdm_supported(sfp) {
            return asked;
        }
        let mut statistic: Dict = OrdMap::new();
        if self.is_vdm_freeze_needed(sfp) {
            let body = |frozen: bool| -> (o: FrozenReading)
                ensures read_under_freeze(*sfp, frozen, o)
                { self.read_frozen(sfp, frozen) };
            let (frozen, d) = vdm.with_vdm_freeze(sfp, &mut asked, body);
            if frozen {
                self.post_port_pm_info_to_db(false, logical_port_name, db, vpf.pm_tbl, hal);
            }
            statistic = d;
        }
        let mut merged = vdm.get_vdm_real_values_basic(sfp);
        proof {
            assert(merged@.union_prefer_right(no_values()) =~= merged@);
        }
        merged.merge(&statistic);
        asked.push(VdmRequest::Basic);
        VdmDbUtils::new().post_port_vdm_real_values_from_dict_to_db(
            false,
            logical_port_name,
            &self.setup.port_mapping,
            db,
            vpf.vdm_real_value_tbl,
            hal,
            merged,
            now,
        );
        VdmDbUtils::new().post_port_vdm_flags_to_db(
            false,
            logical_port_name,
            &self.setup.port_mapping,
            db,
            hal,
            &vpf.vdm_flag_tables,
            now,
        );
        asked.push(VdmRequest::Flags);
        assert(asked@ =~= firmware + vdm_part(*sfp));
        asked
    }

    /// Whether the statistics of a module are to be frozen and read.
    pub fn is_vdm_freeze_needed(&self, sfp: &Sfp) -> (r: bool)
        ensures
            r == freeze_needed(*sfp),
    {
        if !VdmUtils::new().is_vdm_statistic_supported(sfp) {
            return false;
        }
        let mut lp_dict: IdxMap<&Sfp> = OrdMap::new();
        lp_dict.insert(0, sfp);
        !XcvrdUtils::new(lp_dict).is_transceiver_lpmode_on(0)
    }

    /// Notes a port that was set in the application database.
    pub fn on_port_update_event(&mut self, port_change_event: &PortChangeEvent, at: u64)
        requires
            at + LINK_CHANGE_DELAY_MSECS <= u64::MAX,
        ensures
            final(self).link_change_affected_ports@ == link_event(
                old(self).link_change_affected_ports@,
                port_change_event@,
                at,
            ),
            final(self).setup == old(self).setup,
            final(self).dom_update_interval == old(self).dom_update_interval,
            final(self).flap_last == old(self).flap_last,
            final(self).first_periodic_deadline == old(self).first_periodic_deadline,
            final(self).cmis_terminal_last == old(self).cmis_terminal_last,
    {
        if port_change_event.event_type == PortChangeEventType::PortSet && is_text(
            &port_change_event.db_name,
            "APPL_DB",
        ) {
            let due: u64 = at + LINK_CHANGE_DELAY_MSECS;
            self.link_change_affected_ports.insert(port_change_event.port_index as usize, due);
        }
    }

    /// Whether a look at `at` may read the flags of a physical port; those of any
    /// other need not be read.
    pub fn may_read_flags(&self, db: &Db, physical_port: usize, at: u64) -> (r: bool)
        ensures
            r == self.setup.flags_wanted(
                db@,
                self.link_change_affected_ports@,
                self.cmis_terminal_last@,
                physical_port,
                at,
            ),
    {
        let ft = match &self.setup.flag_status_tables {
            Some(ft) => ft,
            None => {
                return false;
            },
        };
        let name = match first_logical_port(&self.setup.port_mapping, physical_port) {
            Some(name) => name,
            None => {
                return false;
            },
        };
        if !self.is_port_polled(db, name.as_str()) {
            return false;
        }
        if let Some(due) = self.link_change_affected_ports.get(&physical_port) {
            if *due <= at {
                return true;
            }
        }
        let state = get_cmis_state_from_state_db(name.as_str(), db, self.setup.status_sw_tbl);
        if !is_cmis_terminal_state(state.as_str()) {
            return false;
        }
        if let Some(seen) = self.cmis_terminal_last.get_str(name.as_str()) {
            if !*seen {
                return true;
            }
        }
        !db.has_row(ft.dom_flag_tbl, name.as_str())
    }

    /// What the task goes by at a look at the link changes.
    pub open spec fn watch(&self, db: DbState) -> Watch {
        Watch {
            db,
            flaps: self.flap_last@,
            pending: self.link_change_affected_ports@,
            ended: self.cmis_terminal_last@,
        }
    }

    /// One look at the link changes and the bring-up states: notes new link
    /// changes, reads the flags that are due, and those of ports whose bring-up
    /// has ended.
    pub fn check_port_update(&mut self, stop: bool, db: &mut Db, hal: &Hal, at: u64, now: u64)
        requires
            at + LINK_CHANGE_DELAY_MSECS <= u64::MAX,
        ensures
            final(self).setup == old(self).setup,
            final(self).dom_update_interval == old(self).dom_update_interval,
            final(self).first_periodic_deadline == old(self).first_periodic_deadline,
            final(self).watch(final(db)@) == old(self).setup.looked(
                hal,
                old(self).watch(old(db)@),
                stop,
                at,
                now,
            ),
    {
        self.poll_flap_events(db, at);
        if stop {
            return ;
        }
        let ghost pending = self.link_change_affected_ports@;
        let ghost ports = self.link_change_affected_ports.keys();
        let ghost before = db@;
        let mut left: IdxMap<u64> = OrdMap::new();
        self.link_change_affected_ports.recall_order();
        let n: usize = self.link_change_affected_ports.len();
        let mut i: usize = 0;
        while i < n
            invariant
                i <= n,
                n == ports.len(),
                self.setup == old(self).setup,
                self.dom_update_interval == old(self).dom_update_interval,
                self.first_periodic_deadline == old(self).first_periodic_deadline,
                self.cmis_terminal_last == old(self).cmis_terminal_last,
                self.link_change_affected_ports@ == pending,
                self.link_change_affected_ports.keys() == ports,
                forall|j: int| 0 <= j < n ==> pending.contains_key(#[trigger] ports[j]),
                db@ == self.setup.due_read(hal, before, ports, pending, at, now, i as int),
                forall|p: usize| #[trigger]
                    left@.contains_key(p) <==> among(ports, i as int, p) && pending[p] > at,
                forall|p: usize| #[trigger] left@.contains_key(p) ==> left@[p] == pending[p],
            decreases n - i,
        {
            let physical_port: usize = *self.link_change_affected_ports.key_at(i);
            let due: u64 = *self.link_change_affected_ports.value_at(i);
            if due <= at {
                self.update_port_db_diagnostics_on_link_change(db, hal, physical_port, now);
            } else {
                left.insert(physical_port, due);
            }
            proof {
                lemma_among_step(ports, i as int);
            }
            i = i + 1;
        }
        proof {
            lemma_among_all(ports, pending.dom());
            assert(left@ =~= not_due(pending, at));
        }
        self.link_change_affected_ports = left;
        self.prime_flags_on_cmis_gate_release(db, hal, now);
    }

    /// Reads the flags of each port whose bring-up has just ended, or has ended
    /// without a flag row.
    pub fn prime_flags_on_cmis_gate_release(&mut self, db: &mut Db, hal: &Hal, now: u64)
        ensures
            (final(db)@, final(self).cmis_terminal_last@) == old(self).setup.gates_checked(
                hal,
                old(db)@,
                old(self).cmis_terminal_last@,
                now,
            ),
            final(self).setup == old(self).setup,
            final(self).dom_update_interval == old(self).dom_update_interval,
            final(self).first_periodic_deadline == old(self).first_periodic_deadline,
            final(self).flap_last == old(self).flap_last,
            final(self).link_change_affected_ports == old(self).link_change_affected_ports,
    {
        if self.setup.skip_cmis_mgr {
            return ;
        }
        let ft: FlagStatusTables = match self.setup.flag_status_tables {
            Some(ft) => ft,
            None => {
                return ;
            },
        };
        let ghost before = db@;
        let ghost seen = self.cmis_terminal_last@;
        let n: usize = self.setup.port_mapping.physical_to_logical.len();
        let mut i: usize = 0;
        while i < n
            invariant
                i <= n,
                n == self.setup.port_mapping.physical_to_logical.keys().len(),
                self.setup == old(self).setup,
                self.dom_update_interval == old(self).dom_update_interval,
                self.first_periodic_deadline == old(self).first_periodic_deadline,
                self.flap_last == old(self).flap_last,
                self.link_change_affected_ports == old(self).link_change_affected_ports,
                (db@, self.cmis_terminal_last@) == self.setup.gates_watched(
                    hal,
                    before,
                    seen,
                    ft,
                    now,
                    i as int,
                ),
            decreases n - i,
        {
            let physical_port: usize = *self.setup.port_mapping.physical_to_logical.key_at(i);
            if let Some(name) = first_logical_port(&self.setup.port_mapping, physical_port) {
                let cmis_state = get_cmis_state_from_state_db(name.as_str(), db, self.setup.status_sw_tbl);
                let terminal = is_cmis_terminal_state(cmis_state.as_str());
                let rising_edge = match self.cmis_terminal_last.get(&name) {
                    None => false,
                    Some(prev) => !*prev && terminal,
                };
                let missing = terminal && !db.has_row(ft.dom_flag_tbl, name.as_str());
                self.cmis_terminal_last.insert(name, terminal);
                if rising_edge || missing {
                    self.update_port_db_diagnostics_on_link_change(db, hal, physical_port, now);
                }
            }
            i = i + 1;
        }
    }

    /// Notes a link change for each logical port whose flap count differs from the
    /// one seen before.
    fn poll_flap_events(&mut self, db: &Db, at: u64)
        requires
            at + LINK_CHANGE_DELAY_MSECS <= u64::MAX,
        ensures
            (final(self).flap_last@, final(self).link_change_affected_ports@) == match old(
                self,
            ).setup.appl_port_tbl {
                Some(t) => old(self).setup.flaps_watched(
                    db@,
                    t,
                    old(self).flap_last@,
                    old(self).link_change_affected_ports@,
                    at,
                    old(self).setup.port_mapping@.logical.len() as int,
                ),
                None => (old(self).flap_last@, old(self).link_change_affected_ports@),
            },
            final(self).setup == old(self).setup,
            final(self).dom_update_interval == old(self).dom_update_interval,
            final(self).first_periodic_deadline == old(self).first_periodic_deadline,
            final(self).cmis_terminal_last == old(self).cmis_terminal_last,
    {
        let appl: TableId = match self.setup.appl_port_tbl {
            Some(t) => t,
            None => {
                return ;
            },
        };
        let ghost seen = self.flap_last@;
        let ghost pending = self.link_change_affected_ports@;
        let mut i: usize = 0;
        while i < self.setup.port_mapping.logical_port_list.len()
            invariant
                i <= self.setup.port_mapping.logical_port_list.len(),
                at + LINK_CHANGE_DELAY_MSECS <= u64::MAX,
                self.setup == old(self).setup,
                self.dom_update_interval == old(self).dom_update_interval,
                self.first_periodic_deadline == old(self).first_periodic_deadline,
                self.cmis_terminal_last == old(self).cmis_terminal_last,
                (self.flap_last@, self.link_change_affected_ports@) == self.setup.flaps_watched(
                    db@,
                    appl,
                    seen,
                    pending,
                    at,
                    i as int,
                ),
            decreases self.setup.port_mapping.logical_port_list.len() - i,
        {
            let logical_port: String = self.setup.port_mapping.logical_port_list[i].clone();
            let current: String = match db.hget(appl, logical_port.as_str(), "flap_count") {
                Some(c) => c,
                None => String::new(),
            };
            let changed = match self.flap_last.get(&logical_port) {
                None => false,
                Some(prev) => *prev != current,
            };
            self.flap_last.insert(logical_port.clone(), current);
            if changed {
                if let Some(physical_port) = self.setup.port_mapping.physical_port(
                    logical_port.as_str(),
                ) {
                    let asic_id: usize = match self.setup.port_mapping.get_asic_id_for_logical_port(
                        logical_port.as_str(),
                    ) {
                        Some(a) => a,
                        None => 0,
                    };
                    let mut ev = PortChangeEvent::new(
                        logical_port.as_str(),
                        physical_port as i32,
                        asic_id,
                        PortChangeEventType::PortSet,
                    );
                    ev.db_name = Some("APPL_DB".to_owned());
                    self.on_port_update_event(&ev, at);
                }
            }
            i = i + 1;
        }
    }

    /// Reads the flags of a physical port's first logical port and publishes them.
    pub fn update_port_db_diagnostics_on_link_change(&self, db: &mut Db, hal: &Hal, physical_port: usize, now: u64)
        ensures
            final(db)@ == self.setup.link_change_posted(hal, old(db)@, physical_port, now),
    {
        let first = match first_logical_port(&self.setup.port_mapping, physical_port) {
            Some(f) => f,
            None => {
                return ;
            },
        };
        if !self.is_port_polled(db, first.as_str()) {
            return ;
        }
        if !hal.is_present(physical_port) {
            return ;
        }
        let ft = match &self.setup.flag_status_tables {
            Some(ft) => ft,
            None => {
                return ;
            },
        };
        self.post_dom_flags(db, hal, first.as_str(), ft, now);
        self.post_status_flags(db, hal, first.as_str(), ft, now);
        if let Some(vpf) = &self.setup.vdm_pm_fw {
            if VdmUtils::new().is_transceiver_vdm_supported(&hal.sfps[physical_port]) {
                VdmDbUtils::new().post_port_vdm_flags_to_db(
                    false,
                    first.as_str(),
                    &self.setup.port_mapping,
                    db,
                    hal,
                    &vpf.vdm_flag_tables,
                    now,
                );
            }
        }
    }
}

impl DomSetup {
    /// A look at `at` may read the flags of a physical port: they are due, or the
    /// bring-up of the port has just ended, or has ended without a flag row.
    pub open spec fn flags_wanted(
        &self,
        db: DbState,
        pending: Map<usize, u64>,
        seen: Map<Seq<char>, bool>,
        physical: usize,
        at: u64,
    ) -> bool {
        match self.port_mapping@.first_logical(physical) {
            Some(port) => match self.flag_status_tables {
                Some(ft) => {
                    let ended = terminal_name(cmis_state_text(db, self.status_sw_tbl, port));
                    &&& self.polled(db, port)
                    &&& {
                        ||| pending.contains_key(physical) && pending[physical] <= at
                        ||| ended && seen.contains_key(port) && !seen[port]
                        ||| ended && !db.contains_key((ft.dom_flag_tbl, port))
                    }
                },
                None => false,
            },
            None => false,
        }
    }

    /// One look at the link changes and the bring-up states: new link changes are
    /// noted; where the daemon goes on, the flags that are due are read, and those of
    /// ports whose bring-up has ended.
    pub open spec fn looked(&self, hal: &Hal, w: Watch, stop: bool, at: u64, now: u64) -> Watch {
        let (flaps, pending) = match self.appl_port_tbl {
            Some(t) => self.flaps_watched(
                w.db,
                t,
                w.flaps,
                w.pending,
                at,
                self.port_mapping@.logical.len() as int,
            ),
            None => (w.flaps, w.pending),
        };
        if stop {
            Watch { flaps, pending, ..w }
        } else {
            let ports = in_order::<usize>(pending.dom());
            let read = self.due_read(hal, w.db, ports, pending, at, now, ports.len() as int);
            let (db, ended) = self.gates_checked(hal, read, w.ended, now);
            Watch { db, flaps, pending: not_due(pending, at), ended }
        }
    }

    /// The bring-up states of every port looked at, where the bring-up is managed
    /// and the flags have tables.
    pub open spec fn gates_checked(&self, hal: &Hal, db: DbState, seen: Map<Seq<char>, bool>, now: u64) -> (
        DbState,
        Map<Seq<char>, bool>,
    ) {
        match self.flag_status_tables {
            Some(ft) => if self.skip_cmis_mgr {
                (db, seen)
            } else {
                self.gates_watched(
                    hal,
                    db,
                    seen,
                    ft,
                    now,
                    self.port_mapping.physical_to_logical.keys().len() as int,
                )
            },
            None => (db, seen),
        }
    }
}

/// The milliseconds left of `interval` after `elapsed`; none where it has passed.
pub fn schedule_remaining(interval: u64, elapsed: u64) -> (r: u64)
    ensures
        r == if elapsed >= interval {
            0
        } else {
            interval - elapsed
        },
{
    if elapsed >= interval {
        0
    } else {
        interval - elapsed
    }
}

impl DomInfoUpdateTask {
    /// When the first poll is due for a task that starts at `at`: as set from the
    /// daemon's start, else one interval later.
    pub fn first_poll_due(&self, at: u64) -> (r: u64)
        requires
            at + self.dom_update_interval * 1000 <= u64::MAX,
        ensures
            r == match self.first_periodic_deadline {
                Some(d) => d as int,
                None => at + self.dom_update_interval * 1000,
            },
    {
        match self.first_periodic_deadline {
            Some(d) => d,
            None => at + self.dom_update_interval * 1000,
        }
    }

    /// When the next poll is due after one that began at `began`: one interval later,
    /// or at the end of time.
    pub fn next_poll_due(&self, began: u64) -> (r: u64)
        ensures
            r == if began + self.dom_update_interval * 1000 > u64::MAX {
                u64::MAX as int
            } else {
                began + self.dom_update_interval * 1000
            },
    {
        if self.dom_update_interval > (u64::MAX - began) / 1000 {
            u64::MAX
        } else {
            began + self.dom_update_interval * 1000
        }
    }

    /// How long to nap at `at` before the next look at the link changes, with the
    /// next poll due at `next_periodic`; not at all where the poll is due.
    pub fn nap_msecs(&self, next_periodic: u64, at: u64) -> (r: u64)
        ensures
            r == if at >= next_periodic {
                0
            } else if next_periodic - at > PORT_UPDATE_EVENT_SELECT_TIMEOUT_MSECS {
                PORT_UPDATE_EVENT_SELECT_TIMEOUT_MSECS as int
            } else {
                next_periodic - at
            },
    {
        let remaining: u64 = schedule_remaining(next_periodic, at);
        if remaining > PORT_UPDATE_EVENT_SELECT_TIMEOUT_MSECS {
            PORT_UPDATE_EVENT_SELECT_TIMEOUT_MSECS
        } else {
            remaining
        }
    }
}

/// The publishing of the modules' temperatures.
pub struct DomThermalInfoUpdateTask {
    pub port_mapping: PortMapping,
    /// The seconds from one poll to the next.
    pub poll_interval: u64,
    pub dom_temperature_tbl: TableId,
    pub status_sw_tbl: TableId,
    pub cfg_port_tbl: TableId,
    /// The logical ports that the configuration has no more.
    pub deconfigured_ports: Option<StrSet>,
}

impl DomThermalInfoUpdateTask {
    /// The configuration has the port no more.
    pub open spec fn deconfigured(&self, port: Seq<char>) -> bool {
        self.deconfigured_ports matches Some(s) && s@.contains(port)
    }

    /// The configuration turns the monitoring of the port off.
    pub open spec fn polling_disabled(&self, db: DbState, port: Seq<char>) -> bool {
        dom_polling(self.port_mapping@, db, self.cfg_port_tbl, port) == DOM_POLLING_DISABLED@
    }

    /// One port of a poll: its row deleted where the configuration has it no more,
    /// its temperature posted where its module is there.
    pub open spec fn port_polled(&self, hal: &Hal, db: DbState, physical: usize, port: Seq<char>, now: u64) -> DbState {
        if self.deconfigured(port) {
            port_rows_deleted(db, self.port_mapping@, seq![self.dom_temperature_tbl], port)
        } else if self.polling_disabled(db, port) || self.port_mapping@.asic_of(port) is None {
            db
        } else if !error_blocked(db, self.status_sw_tbl, port) && !present(hal, physical) {
            db
        } else {
            monitors_posted(
                db,
                Map::empty(),
                false,
                self.port_mapping@,
                hal,
                port,
                self.dom_temperature_tbl,
                Diagnostic::DomTemperature,
                Beautifier::Dom,
                now,
            )
        }
    }

    /// The first logical ports of the first `n` physical ports polled, in order.
    pub open spec fn ports_polled(&self, hal: &Hal, db: DbState, now: u64, n: int) -> DbState
        decreases n,
    {
        if n <= 0 {
            db
        } else {
            let before = self.ports_polled(hal, db, now, n - 1);
            let physical = self.port_mapping.physical_to_logical.keys()[n - 1];
            match self.port_mapping@.first_logical(physical) {
                Some(port) => self.port_polled(hal, before, physical, port, now),
                None => before,
            }
        }
    }

    pub fn new(
        port_mapping: PortMapping,
        poll_interval: u64,
        dom_temperature_tbl: TableId,
        status_sw_tbl: TableId,
        cfg_port_tbl: TableId,
    ) -> (r: Self)
        ensures
            r == (DomThermalInfoUpdateTask {
                port_mapping,
                poll_interval,
                dom_temperature_tbl,
                status_sw_tbl,
                cfg_port_tbl,
                deconfigured_ports: None,
            }),
    {
        DomThermalInfoUpdateTask {
            port_mapping,
            poll_interval,
            dom_temperature_tbl,
            status_sw_tbl,
            cfg_port_tbl,
            deconfigured_ports: None,
        }
    }

    /// Says which logical ports the configuration has no more.
    pub fn set_deconfigured_ports(&mut self, set: StrSet)
        ensures
            *final(self) == (DomThermalInfoUpdateTask { deconfigured_ports: Some(set), ..*old(self) }),
    {
        self.deconfigured_ports = Some(set);
    }

    fn is_deconfigured(&self, logical_port: &str) -> (r: bool)
        ensures
            r == self.deconfigured(logical_port@),
    {
        match &self.deconfigured_ports {
            Some(set) => set.contains(logical_port),
            None => false,
        }
    }

    /// Whether the port is not to be monitored now.
    pub fn is_port_dom_monitoring_disabled(&self, db: &Db, logical_port_name: &str) -> (r: bool)
        ensures
            r == self.polling_disabled(db@, logical_port_name@),
    {
        let polling = get_dom_polling_from_config_db(
            &self.port_mapping,
            db,
            self.cfg_port_tbl,
            logical_port_name,
        );
        same(polling.as_str(), DOM_POLLING_DISABLED)
    }

    /// Publishes the temperature of the first logical port of every physical port.
    pub fn poll_once(&self, stop: bool, db: &mut Db, hal: &Hal, now: u64)
        ensures
            final(db)@ == if stop {
                old(db)@
            } else {
                self.ports_polled(
                    hal,
                    old(db)@,
                    now,
                    self.port_mapping.physical_to_logical.keys().len() as int,
                )
            },
    {
        if stop {
            return ;
        }
        let ghost before = db@;
        let n: usize = self.port_mapping.physical_to_logical.len();
        let mut i: usize = 0;
        while i < n
            invariant
                i <= n,
                n == self.port_mapping.physical_to_logical.keys().len(),
                db@ == self.ports_polled(hal, before, now, i as int),
            decreases n - i,
        {
            let physical_port: usize = *self.port_mapping.physical_to_logical.key_at(i);
            if let Some(name) = first_logical_port(&self.port_mapping, physical_port) {
                self.poll_port(db, hal, physical_port, name.as_str(), now);
            }
            i = i + 1;
        }
    }

    fn poll_port(&self, db: &mut Db, hal: &Hal, physical_port: usize, logical_port_name: &str, now: u64)
        ensures
            final(db)@ == self.port_polled(hal, old(db)@, physical_port, logical_port_name@, now),
    {
        if self.is_deconfigured(logical_port_name) {
            let mut tbls: Vec<TableId> = Vec::new();
            tbls.push(self.dom_temperature_tbl);
            assert(tbls@ =~= seq![self.dom_temperature_tbl]);
            del_port_sfp_dom_info_from_db(logical_port_name, &self.port_mapping, db, &tbls);
            return ;
        }
        if self.is_port_dom_monitoring_disabled(db, logical_port_name) {
            return ;
        }
        if self.port_mapping.get_asic_id_for_logical_port(logical_port_name).is_none() {
            return ;
        }
        if !detect_port_in_error_status(logical_port_name, db, self.status_sw_tbl) && !hal.is_present(
            physical_port,
        ) {
            return ;
        }
        let mut cache: DbCache = OrdMap::new();
        DomDbUtils::new().post_port_dom_temperature_info_to_db(
            false,
            logical_port_name,
            &self.port_mapping,
            db,
            self.dom_temperature_tbl,
            hal,
            &mut cache,
            now,
        );
    }
}

} // verus!
