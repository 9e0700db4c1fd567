//! The insertion, removal and errors of modules.

use vstd::prelude::*;
use vstd::string::*;
use crate::cmis::datapath::{ask, asked};
use crate::db::{field_at, with_hset, Db, DbState, TableId};
use crate::dom::utilities::db::{Beautifier, CacheState, DbCache, Diagnostic};
use crate::dom::utilities::dom_sensor::{monitors_cache, monitors_posted, DomDbUtils};
use crate::dom::utilities::vdm::{vdm_thresholds_posted, VdmDbUtils, VdmThresholdTables};
use crate::error::{XResult, XcvrdError};
use crate::hal::{present, ChangeEvent, Command, CommandLog, Hal, SfpCommand};
use crate::ord_map::{in_order, Duplicate, OrdMap, StrMap, StrSet};
use crate::text::{dec_int, i64_text, is_text, parse_i64, parse_signed, parse_u32, parse_unsigned, parse_usize, same};
use crate::xcvrd::{identity_posted, not_ready, post_port_sfp_info_to_db};
use crate::xcvrd_utilities::common::{
    del_port_sfp_dom_info_from_db, port_rows_deleted, update_port_transceiver_status_table_sw, with_status,
    CMIS_STATE_INSERTED, CMIS_STATE_READY,
};
use crate::xcvrd_utilities::port_event_helper::{
    event_applied, physical_of, EventState, Mapping, PortChangeEvent, PortChangeEventType, PortMapping,
};
use crate::xcvrd_utilities::sfp_status_helper::{
    bar_joined, blocking, fetch_generic_error_description, generic_descriptions, has_vendor_specific_error,
    is_error_block_eeprom_reading, join_bars, vendor_specific, SFP_STATUS_INSERTED, SFP_STATUS_REMOVED,
};
use crate::xcvrd_utilities::xcvr_table_helper::{NPU_SI_SETTINGS_DEFAULT_VALUE, NPU_SI_SETTINGS_SYNC_STATUS_KEY};

verus! {

/// The key of an event that concerns every slot.
pub const EVENT_ON_ALL_SFP: &'static str = "-1";

pub const SYSTEM_NOT_READY: &'static str = "system_not_ready";

pub const SYSTEM_BECOME_READY: &'static str = "system_become_ready";

pub const SYSTEM_FAIL: &'static str = "system_fail";

pub const NORMAL_EVENT: &'static str = "normal";

/// What a report of the platform amounts to.
#[derive(Debug, Clone, Copy, PartialEq, Eq, Structural)]
pub enum SystemEvent {
    NotReady,
    BecomeReady,
    Normal,
    Fail,
}

/// The name of an event.
pub open spec fn event_name(e: SystemEvent) -> Seq<char> {
    match e {
        SystemEvent::NotReady => SYSTEM_NOT_READY@,
        SystemEvent::BecomeReady => SYSTEM_BECOME_READY@,
        SystemEvent::Normal => NORMAL_EVENT@,
        SystemEvent::Fail => SYSTEM_FAIL@,
    }
}

/// The event of a name; a failure where no event has it.
pub open spec fn event_named(s: Seq<char>) -> SystemEvent {
    if s == SYSTEM_NOT_READY@ {
        SystemEvent::NotReady
    } else if s == SYSTEM_BECOME_READY@ {
        SystemEvent::BecomeReady
    } else if s == NORMAL_EVENT@ {
        SystemEvent::Normal
    } else {
        SystemEvent::Fail
    }
}

/// Every event is the one that its name names.
pub proof fn law_event_names_read_back(e: SystemEvent)
    ensures
        event_named(event_name(e)) == e,
{
    reveal_strlit("system_not_ready");
    reveal_strlit("system_become_ready");
    reveal_strlit("system_fail");
    reveal_strlit("normal");
    assert(SYSTEM_NOT_READY@[7] == 'n');
    assert(SYSTEM_BECOME_READY@[7] == 'b');
    assert(SYSTEM_FAIL@[7] == 'f');
    assert(NORMAL_EVENT@[0] == 'n');
    assert(SYSTEM_FAIL@[0] == 's');
    assert(SYSTEM_NOT_READY@[0] == 's');
    assert(SYSTEM_BECOME_READY@[0] == 's');
}

impl SystemEvent {
    pub fn as_str(&self) -> (r: &'static str)
        ensures
            r@ == event_name(*self),
    {
        match self {
            SystemEvent::NotReady => SYSTEM_NOT_READY,
            SystemEvent::BecomeReady => SYSTEM_BECOME_READY,
            SystemEvent::Normal => NORMAL_EVENT,
            SystemEvent::Fail => SYSTEM_FAIL,
        }
    }

    fn from_event_str(s: &str) -> (r: SystemEvent)
        ensures
            r == event_named(s@),
    {
        if same(s, SYSTEM_NOT_READY) {
            SystemEvent::NotReady
        } else if same(s, SYSTEM_BECOME_READY) {
            SystemEvent::BecomeReady
        } else if same(s, NORMAL_EVENT) {
            SystemEvent::Normal
        } else {
            SystemEvent::Fail
        }
    }
}

/// The event that a report amounts to.
pub open spec fn classified(status: bool, d: Map<Seq<char>, Seq<char>>) -> SystemEvent {
    if status {
        if d.dom() != Set::<Seq<char>>::empty() {
            SystemEvent::Normal
        } else {
            SystemEvent::BecomeReady
        }
    } else if d.contains_key(EVENT_ON_ALL_SFP@) {
        event_named(d[EVENT_ON_ALL_SFP@])
    } else {
        SystemEvent::Fail
    }
}

/// A report that names no event of its own, with the event added.
pub open spec fn report_completed(status: bool, d: Map<Seq<char>, Seq<char>>) -> Map<Seq<char>, Seq<char>> {
    if status {
        if d.dom() != Set::<Seq<char>>::empty() {
            d
        } else {
            d.insert(EVENT_ON_ALL_SFP@, SYSTEM_BECOME_READY@)
        }
    } else if d.contains_key(EVENT_ON_ALL_SFP@) {
        d
    } else {
        d.insert(EVENT_ON_ALL_SFP@, SYSTEM_FAIL@)
    }
}

/// The tables of the identities, the states and the thresholds.
#[derive(Debug, Clone, Copy)]
pub struct StateTables {
    pub int_tbl: TableId,
    pub status_sw_tbl: TableId,
    pub dom_threshold_tbl: TableId,
}

/// What the handling of a logical port reads and writes.
pub struct LogicalPortCtx<'a> {
    pub hal: &'a Hal,
    pub int_tbl: TableId,
    pub status_sw_tbl: TableId,
    pub dom_threshold_tbl: TableId,
}

impl<'a> LogicalPortCtx<'a> {
    pub open spec fn tables(&self) -> StateTables {
        StateTables {
            int_tbl: self.int_tbl,
            status_sw_tbl: self.status_sw_tbl,
            dom_threshold_tbl: self.dom_threshold_tbl,
        }
    }
}

/// The error events of the slots: the status and the vendor descriptions, by the
/// key of the slot.
pub type ErrorEvents = Map<Seq<char>, (Seq<char>, Map<Seq<char>, Seq<char>>)>;

/// What the task reads and changes: the tables, the ports whose EEPROM is to be
/// read again, the errors of the slots, how often the rows of a port were
/// restored in vain, and the commands asked of the modules.
#[verifier::ext_equal]
pub struct Slots {
    pub db: DbState,
    pub retry: Set<Seq<char>>,
    pub errors: ErrorEvents,
    pub attempts: Map<Seq<char>, u32>,
    pub commands: Seq<(usize, Command)>,
}

/// What the vendor says of an error: from the event where it has any
/// descriptions, else from the module.
pub open spec fn vendor_text(
    hal: &Hal,
    physical: Option<usize>,
    key: Seq<char>,
    descriptions: Map<Seq<char>, Seq<char>>,
) -> Option<Seq<char>> {
    if descriptions.dom() != Set::<Seq<char>>::empty() {
        if descriptions.contains_key(key) {
            Some(descriptions[key])
        } else {
            None
        }
    } else {
        match physical {
            Some(p) => if p < hal.sfps@.len() {
                match hal.sfps@[p as int].error_description {
                    Ok(d) => d.deep_view(),
                    Err(_) => None,
                }
            } else {
                None
            },
            None => None,
        }
    }
}

/// The text of an error: the descriptions of its bits, and what the vendor says.
pub open spec fn error_text(bits: u32, vendor: Option<Seq<char>>) -> Seq<char> {
    let generic = generic_descriptions(bits);
    match vendor {
        Some(v) => if vendor_specific(bits) {
            bar_joined(generic.push(v))
        } else {
            bar_joined(generic)
        },
        None => bar_joined(generic),
    }
}

/// The tables that a task handles besides the ones it is given.
pub struct SfpSetup {
    pub skip_cmis_mgr: bool,
    /// How long a module may take to become readable after it was inserted.
    pub sfp_ready_wait: u64,
    /// The tables whose rows go with a module.
    pub removal_tables: Vec<TableId>,
    pub vdm_threshold_tables: Option<VdmThresholdTables>,
    pub state_port_tbl: Option<TableId>,
}

impl SfpSetup {
    /// The thresholds of a port's module published.
    pub open spec fn thresholds_posted(
        &self,
        db: DbState,
        cache: CacheState,
        m: Mapping,
        hal: &Hal,
        dom_threshold_tbl: TableId,
        port: Seq<char>,
        now: u64,
    ) -> DbState {
        let db = monitors_posted(
            db,
            cache,
            false,
            m,
            hal,
            port,
            dom_threshold_tbl,
            Diagnostic::DomThresholds,
            Beautifier::Dom,
            now,
        );
        match self.vdm_threshold_tables {
            Some(v) => vdm_thresholds_posted(db, false, m, hal, port, v, now),
            None => db,
        }
    }

    /// The signal-integrity settings of a port marked as not notified yet.
    pub open spec fn reseeded(&self, db: DbState, port: Seq<char>) -> DbState {
        match self.state_port_tbl {
            Some(t) => with_hset(
                db,
                t,
                port,
                NPU_SI_SETTINGS_SYNC_STATUS_KEY@,
                NPU_SI_SETTINGS_DEFAULT_VALUE@,
            ),
            None => db,
        }
    }

    /// A port's identity written and its thresholds published; a port whose EEPROM
    /// cannot be read joins those to be read again.
    pub open spec fn identified(&self, w: Slots, m: Mapping, hal: &Hal, t: StateTables, port: Seq<char>, now: u64) -> Slots {
        if not_ready(m, hal, port) {
            Slots { retry: w.retry.insert(port), ..w }
        } else {
            Slots {
                db: self.thresholds_posted(
                    identity_posted(w.db, t.int_tbl, m, hal, port),
                    Map::empty(),
                    m,
                    hal,
                    t.dom_threshold_tbl,
                    port,
                    now,
                ),
                ..w
            }
        }
    }

    /// A module put in: any error of the port is over. Where its EEPROM cannot be
    /// read at once, `later` is what is read after the wait.
    pub open spec fn inserted(
        &self,
        w: Slots,
        m: Mapping,
        hal: &Hal,
        later: &Hal,
        t: StateTables,
        port: Seq<char>,
        now: u64,
    ) -> Slots {
        let w = Slots { db: with_status(w.db, t.status_sw_tbl, port, SFP_STATUS_INSERTED@, "N/A"@), ..w };
        if not_ready(m, hal, port) {
            self.identified(w, m, later, t, port, now)
        } else {
            self.identified(w, m, hal, t, port, now)
        }
    }

    /// A module taken out: its decoded interface is dropped, the port's status and
    /// bring-up state are set back, and its rows deleted.
    pub open spec fn removed(&self, w: Slots, m: Mapping, hal: &Hal, t: StateTables, physical: usize, port: Seq<char>) -> Slots {
        let db = self.reseeded(w.db, port);
        let db = with_status(db, t.status_sw_tbl, port, SFP_STATUS_REMOVED@, "N/A"@);
        let db = with_hset(db, t.status_sw_tbl, port, "cmis_state"@, CMIS_STATE_INSERTED@);
        Slots {
            db: port_rows_deleted(db, m, seq![t.int_tbl] + self.removal_tables@, port),
            retry: w.retry.remove(port),
            commands: asked(hal, w.commands, physical, Command::RemoveXcvrApi),
            ..w
        }
    }

    /// An error of a slot: the port's status and error are set, and where the
    /// EEPROM cannot be read, the rows that were read from it deleted.
    pub open spec fn failed(
        &self,
        w: Slots,
        m: Mapping,
        hal: &Hal,
        t: StateTables,
        key: Seq<char>,
        port: Seq<char>,
        value: Seq<char>,
        descriptions: Map<Seq<char>, Seq<char>>,
    ) -> Slots {
        match parse_unsigned(value, u32::MAX as nat) {
            Some(n) => {
                let bits = n as u32;
                let physical = match parse_unsigned(key, usize::MAX as nat) {
                    Some(p) => Some(p as usize),
                    None => None,
                };
                let text = error_text(bits, vendor_text(hal, physical, key, descriptions));
                let db = with_status(w.db, t.status_sw_tbl, port, value, text);
                Slots {
                    db: if blocking(bits) {
                        port_rows_deleted(db, m, self.removal_tables@, port)
                    } else {
                        db
                    },
                    ..w
                }
            },
            None => w,
        }
    }

    /// The event of a slot applied to one of its logical ports.
    pub open spec fn port_changed(
        &self,
        w: Slots,
        m: Mapping,
        hal: &Hal,
        later: &Hal,
        t: StateTables,
        key: Seq<char>,
        physical: usize,
        port: Seq<char>,
        value: Seq<char>,
        descriptions: Map<Seq<char>, Seq<char>>,
        now: u64,
    ) -> Slots {
        if m.asic_of(port) is None {
            w
        } else {
            let w = if value == SFP_STATUS_INSERTED@ {
                self.inserted(w, m, hal, later, t, port, now)
            } else if value == SFP_STATUS_REMOVED@ {
                self.removed(w, m, hal, t, physical, port)
            } else {
                self.failed(w, m, hal, t, key, port, value, descriptions)
            };
            Slots { attempts: w.attempts.remove(port), ..w }
        }
    }

    /// The event of a slot applied to the first `n` of its logical ports, in order.
    pub open spec fn ports_changed(
        &self,
        w: Slots,
        m: Mapping,
        hal: &Hal,
        later: &Hal,
        t: StateTables,
        key: Seq<char>,
        physical: usize,
        ports: Seq<Seq<char>>,
        value: Seq<char>,
        descriptions: Map<Seq<char>, Seq<char>>,
        now: u64,
        n: int,
    ) -> Slots
        decreases n,
    {
        if n <= 0 {
            w
        } else {
            self.port_changed(
                self.ports_changed(
                    w,
                    m,
                    hal,
                    later,
                    t,
                    key,
                    physical,
                    ports,
                    value,
                    descriptions,
                    now,
                    n - 1,
                ),
                m,
                hal,
                later,
                t,
                key,
                physical,
                ports[n - 1],
                value,
                descriptions,
                now,
            )
        }
    }

    /// The errors of the slots after an event: an error is kept for the ports that
    /// come later, an insertion or a removal ends it.
    pub open spec fn error_noted(
        &self,
        w: Slots,
        key: Seq<char>,
        value: Seq<char>,
        descriptions: Map<Seq<char>, Seq<char>>,
    ) -> Slots {
        Slots {
            errors: if value != SFP_STATUS_INSERTED@ && value != SFP_STATUS_REMOVED@ {
                w.errors.insert(key, (value, descriptions))
            } else {
                w.errors.remove(key)
            },
            ..w
        }
    }

    /// The event of one slot: noted, and applied to the logical ports of the slot
    /// whose number the key writes.
    pub open spec fn slot_changed(
        &self,
        w: Slots,
        m: Mapping,
        hal: &Hal,
        later: &Hal,
        t: StateTables,
        key: Seq<char>,
        value: Seq<char>,
        descriptions: Map<Seq<char>, Seq<char>>,
        now: u64,
    ) -> Slots {
        let w = self.error_noted(w, key, value, descriptions);
        match parse_signed(key) {
            Some(n) => {
                let physical = (n as i64) as usize;
                if n < 0 || !m.to_logical.contains_key(physical) {
                    w
                } else {
                    let ports = m.to_logical[physical];
                    self.ports_changed(
                        w,
                        m,
                        hal,
                        later,
                        t,
                        key,
                        physical,
                        ports,
                        value,
                        descriptions,
                        now,
                        ports.len() as int,
                    )
                }
            },
            None => w,
        }
    }

    /// The events of the first `n` slots of a report, in the order of their keys.
    pub open spec fn slots_changed(
        &self,
        w: Slots,
        m: Mapping,
        hal: &Hal,
        later: &Hal,
        t: StateTables,
        keys: Seq<Seq<char>>,
        d: Map<Seq<char>, Seq<char>>,
        descriptions: Map<Seq<char>, Seq<char>>,
        now: u64,
        n: int,
    ) -> Slots
        decreases n,
    {
        if n <= 0 {
            w
        } else {
            self.slot_changed(
                self.slots_changed(w, m, hal, later, t, keys, d, descriptions, now, n - 1),
                m,
                hal,
                later,
                t,
                keys[n - 1],
                d[keys[n - 1]],
                descriptions,
                now,
            )
        }
    }

    /// A report applied, where it is an ordinary one.
    pub open spec fn report_applied(
        &self,
        w: Slots,
        m: Mapping,
        hal: &Hal,
        later: &Hal,
        t: StateTables,
        status: bool,
        d: Map<Seq<char>, Seq<char>>,
        descriptions: Map<Seq<char>, Seq<char>>,
        now: u64,
    ) -> Slots {
        if classified(status, d) == SystemEvent::Normal {
            let keys = in_order::<String>(d.dom());
            self.slots_changed(w, m, hal, later, t, keys, d, descriptions, now, keys.len() as int)
        } else {
            w
        }
    }

    /// The identity rows of the first `n` logical ports written at the start; the
    /// ports whose EEPROM cannot be read are to be read again.
    pub open spec fn identities_posted(&self, db: DbState, m: Mapping, hal: &Hal, int_tbl: TableId, n: int) -> (
        DbState,
        Set<Seq<char>>,
    )
        decreases n,
    {
        if n <= 0 {
            (db, Set::empty())
        } else {
            let (d, retry) = self.identities_posted(db, m, hal, int_tbl, n - 1);
            let port = m.logical[n - 1];
            if m.asic_of(port) is None {
                (d, retry)
            } else {
                (
                    identity_posted(d, int_tbl, m, hal, port),
                    if not_ready(m, hal, port) {
                        retry.insert(port)
                    } else {
                        retry
                    },
                )
            }
        }
    }

    /// The thresholds of the first `n` logical ports published at the start, each
    /// module read once; ports to be read again are left out.
    pub open spec fn all_thresholds_posted(
        &self,
        db: DbState,
        m: Mapping,
        hal: &Hal,
        dom_threshold_tbl: TableId,
        retry: Set<Seq<char>>,
        now: u64,
        n: int,
    ) -> (DbState, CacheState)
        decreases n,
    {
        if n <= 0 {
            (db, Map::empty())
        } else {
            let (d, cache) = self.all_thresholds_posted(db, m, hal, dom_threshold_tbl, retry, now, n - 1);
            let port = m.logical[n - 1];
            if retry.contains(port) {
                (d, cache)
            } else {
                (
                    self.thresholds_posted(d, cache, m, hal, dom_threshold_tbl, port, now),
                    monitors_cache(cache, false, m, hal, port, Diagnostic::DomThresholds),
                )
            }
        }
    }

    /// The ports of `names` that can be read now, in order: their rows written, and
    /// which are still to be read again.
    pub open spec fn retried(
        &self,
        db: DbState,
        m: Mapping,
        hal: &Hal,
        t: StateTables,
        names: Seq<Seq<char>>,
        retry: Set<Seq<char>>,
        now: u64,
        n: int,
    ) -> (DbState, Set<Seq<char>>)
        decreases n,
    {
        if n <= 0 {
            (db, retry)
        } else {
            let (d, left) = self.retried(db, m, hal, t, names, retry, now, n - 1);
            let port = names[n - 1];
            if not_ready(m, hal, port) {
                (d, left)
            } else {
                (
                    self.thresholds_posted(
                        identity_posted(d, t.int_tbl, m, hal, port),
                        Map::empty(),
                        m,
                        hal,
                        t.dom_threshold_tbl,
                        port,
                        now,
                    ),
                    left.remove(port),
                )
            }
        }
    }

    /// Nothing keeps the rows of a port from being restored: its module was not taken
    /// out and is not to be read again, and the port has no error and is configured.
    pub open spec fn unhindered(&self, w: Slots, t: StateTables, deconfigured: Option<Set<Seq<char>>>, port: Seq<char>) -> bool {
        &&& field_at(w.db, t.status_sw_tbl, port, "status"@) != Some(SFP_STATUS_REMOVED@)
        &&& !w.retry.contains(port)
        &&& !(deconfigured matches Some(s) && s.contains(port))
        &&& match field_at(w.db, t.status_sw_tbl, port, "error"@) {
            Some(e) => e == "N/A"@ || e.len() == 0,
            None => true,
        }
    }

    /// The rows of a port are to be restored if its module is there: one is missing,
    /// nothing keeps them from being restored, and the port was not tried too often.
    pub open spec fn restoring_wanted(
        &self,
        w: Slots,
        m: Mapping,
        t: StateTables,
        deconfigured: Option<Set<Seq<char>>>,
        port: Seq<char>,
    ) -> bool {
        &&& m.asic_of(port) is Some
        &&& m.first_physical(port) is Some
        &&& !(w.db.contains_key((t.int_tbl, port)) && w.db.contains_key((t.dom_threshold_tbl, port)))
        &&& self.unhindered(w, t, deconfigured, port)
        &&& !(w.attempts.contains_key(port) && w.attempts[port] >= MAX_RECOVER_ATTEMPTS)
    }

    /// The rows of a port are to be restored: its module is there, not taken out,
    /// not to be read again, without an error, and configured.
    pub open spec fn restorable(
        &self,
        w: Slots,
        m: Mapping,
        hal: &Hal,
        t: StateTables,
        deconfigured: Option<Set<Seq<char>>>,
        port: Seq<char>,
    ) -> bool {
        &&& self.unhindered(w, t, deconfigured, port)
        &&& m.first_physical(port) matches Some(p) && present(hal, p)
    }

    /// One port of the restoring of rows: those of a module that has both rows are
    /// left alone, and a port that was tried too often is given up.
    pub open spec fn port_restored(
        &self,
        w: Slots,
        m: Mapping,
        hal: &Hal,
        later: &Hal,
        t: StateTables,
        deconfigured: Option<Set<Seq<char>>>,
        port: Seq<char>,
        now: u64,
    ) -> Slots {
        let has_info = w.db.contains_key((t.int_tbl, port));
        let has_threshold = w.db.contains_key((t.dom_threshold_tbl, port));
        if m.asic_of(port) is None {
            w
        } else if has_info && has_threshold {
            Slots { attempts: w.attempts.remove(port), ..w }
        } else if !self.restorable(w, m, hal, t, deconfigured, port) {
            w
        } else {
            let tried = if w.attempts.contains_key(port) {
                w.attempts[port]
            } else {
                0
            };
            if tried >= MAX_RECOVER_ATTEMPTS {
                w
            } else {
                let w = Slots { attempts: w.attempts.insert(port, (tried + 1) as u32), ..w };
                if !has_info {
                    self.inserted(w, m, hal, later, t, port, now)
                } else {
                    Slots { db: self.thresholds_posted(w.db, Map::empty(), m, hal, t.dom_threshold_tbl, port, now), ..w }
                }
            }
        }
    }

    /// The rows of the first `n` logical ports restored, in order.
    pub open spec fn ports_restored(
        &self,
        w: Slots,
        m: Mapping,
        hal: &Hal,
        later: &Hal,
        t: StateTables,
        deconfigured: Option<Set<Seq<char>>>,
        now: u64,
        n: int,
    ) -> Slots
        decreases n,
    {
        if n <= 0 {
            w
        } else {
            self.port_restored(
                self.ports_restored(w, m, hal, later, t, deconfigured, now, n - 1),
                m,
                hal,
                later,
                t,
                deconfigured,
                m.logical[n - 1],
                now,
            )
        }
    }

    /// Every row of a logical port deleted that the configuration has no more, and
    /// the port not to be read again.
    pub open spec fn port_deconfigured(&self, w: Slots, m: Mapping, t: StateTables, port: Seq<char>) -> Slots {
        Slots {
            db: port_rows_deleted(
                w.db,
                m,
                seq![t.int_tbl] + self.removal_tables@ + seq![t.status_sw_tbl],
                port,
            ),
            retry: w.retry.remove(port),
            ..w
        }
    }

    /// The error bits that are kept of the slot of a port that is added.
    pub open spec fn kept_bits(&self, w: Slots, key: Seq<char>) -> Option<u32> {
        if w.errors.contains_key(key) {
            match parse_unsigned(w.errors[key].0, u32::MAX as nat) {
                Some(n) => Some(n as u32),
                None => None,
            }
        } else {
            None
        }
    }

    /// The error text of a port that is added.
    pub open spec fn kept_error(&self, w: Slots, hal: &Hal, key: Seq<char>, physical: usize) -> Seq<char> {
        match self.kept_bits(w, key) {
            Some(bits) => error_text(
                bits,
                vendor_text(hal, Some(physical), key, w.errors[key].1),
            ),
            None => "N/A"@,
        }
    }

    /// A logical port that the configuration has anew: its settings are marked, its
    /// rows written where its module is there and can be read, and its status and
    /// error set from what is kept of its slot.
    pub open spec fn port_configured(&self, w: Slots, m: Mapping, hal: &Hal, t: StateTables, e: EventState, now: u64) -> Slots {
        let port = e.port_name;
        let key = dec_int(e.port_index as int);
        let physical = e.port_index as usize;
        let readable = present(hal, physical) && !(self.kept_bits(w, key) matches Some(b) && blocking(b));
        let status = if w.errors.contains_key(key) {
            w.errors[key].0
        } else if readable {
            SFP_STATUS_INSERTED@
        } else {
            SFP_STATUS_REMOVED@
        };
        let error = self.kept_error(w, hal, key, physical);
        let w = Slots {
            attempts: w.attempts.remove(port),
            db: self.reseeded(w.db, port),
            ..w
        };
        let w = if readable {
            self.identified(w, m, hal, t, port, now)
        } else {
            w
        };
        Slots { db: with_status(w.db, t.status_sw_tbl, port, status, error), ..w }
    }
}

/// How often the rows of a port are restored in vain before it is given up.
pub const MAX_RECOVER_ATTEMPTS: u32 = 3;

/// The milliseconds between two attempts to read an EEPROM again.
pub const RETRY_EEPROM_READING_INTERVAL_MSECS: u64 = 60000;

/// The milliseconds between two searches for missing rows.
pub const RECOVER_BASELINE_INTERVAL_MSECS: u64 = 5000;

/// The milliseconds that a module may take to become readable.
pub const TIME_FOR_SFP_READY_MSECS: u64 = 1000;

/// The status rows of the first `n` logical ports set at the start.
pub open spec fn statuses_seeded(db: DbState, m: Mapping, hal: &Hal, t: TableId, n: int) -> DbState
    decreases n,
{
    if n <= 0 {
        db
    } else {
        let before = statuses_seeded(db, m, hal, t, n - 1);
        let port = m.logical[n - 1];
        if m.asic_of(port) is None {
            before
        } else {
            let there = physical_of(m, port) matches Some(p) && present(hal, p);
            with_status(
                before,
                t,
                port,
                if there {
                    SFP_STATUS_INSERTED@
                } else {
                    SFP_STATUS_REMOVED@
                },
                "N/A"@,
            )
        }
    }
}

/// The bring-up states of the first `n` logical ports set to ready whose module is
/// there and was read.
pub open spec fn states_projected(db: DbState, m: Mapping, hal: &Hal, t: TableId, retry: Set<Seq<char>>, n: int) -> DbState
    decreases n,
{
    if n <= 0 {
        db
    } else {
        let before = states_projected(db, m, hal, t, retry, n - 1);
        let port = m.logical[n - 1];
        if !retry.contains(port) && (physical_of(m, port) matches Some(p) && present(hal, p)) {
            with_hset(before, t, port, "cmis_state"@, CMIS_STATE_READY@)
        } else {
            before
        }
    }
}

/// The task that follows the insertion, removal and errors of modules.
pub struct SfpStateUpdateTask {
    pub namespaces: Vec<String>,
    pub port_mapping: PortMapping,
    pub setup: SfpSetup,
    /// The logical ports whose EEPROM is to be read again.
    pub retry_eeprom_set: StrSet,
    pub last_retry_eeprom_time: Option<u64>,
    pub last_recover_baseline_time: Option<u64>,
    /// The logical ports that the configuration has no more.
    pub deconfigured_ports: Option<StrSet>,
    /// The errors of the slots, by the key of the slot.
    pub sfp_error_dict: StrMap<(String, StrMap<String>)>,
    /// How often the rows of each logical port were restored in vain.
    pub recover_attempts: StrMap<u32>,
}

/// What a set holds, where there is one.
pub open spec fn set_of(s: Option<StrSet>) -> Option<Set<Seq<char>>> {
    match s {
        Some(s) => Some(s@),
        None => None,
    }
}

/// The ports that the configuration has no more, after a port went or came back.
pub open spec fn marked(s: Option<Set<Seq<char>>>, port: Seq<char>, gone: bool) -> Option<Set<Seq<char>>> {
    match s {
        Some(s) => Some(
            if gone {
                s.insert(port)
            } else {
                s.remove(port)
            },
        ),
        None => None,
    }
}

/// The ports that the configuration has no more, after an event.
pub open spec fn marked_for(s: Option<Set<Seq<char>>>, e: EventState) -> Option<Set<Seq<char>>> {
    match e.event_type {
        PortChangeEventType::PortRemove => marked(s, e.port_name, true),
        PortChangeEventType::PortAdd => marked(s, e.port_name, false),
        _ => s,
    }
}

/// A pause is over at `at`: it never began, or has lasted long enough.
pub open spec fn pause_over(last: Option<u64>, at: u64, pause: u64) -> bool {
    match last {
        Some(l) => at - l >= pause,
        None => true,
    }
}

/// Whether a pause is over at `at`.
pub fn is_pause_over(last: Option<u64>, at: u64, pause: u64) -> (r: bool)
    ensures
        r == pause_over(last, at, pause),
{
    match last {
        Some(l) => at >= l && at - l >= pause,
        None => true,
    }
}

impl SfpStateUpdateTask {
    /// How many seconds pass before an EEPROM that could not be read is read again.
    pub const RETRY_PERIOD_SEC: u64 = 60;

    /// How often the rows of a port are restored in vain before it is given up.
    pub const MAX_RECOVER_ATTEMPTS: u32 = 3;

    /// What the task reads and changes.
    pub open spec fn slots(&self, db: DbState, commands: Seq<(usize, Command)>) -> Slots {
        Slots {
            db,
            retry: self.retry_eeprom_set@,
            errors: self.sfp_error_dict@,
            attempts: self.recover_attempts@,
            commands,
        }
    }

    pub fn new(namespaces: Vec<String>, port_mapping: PortMapping, skip_cmis_mgr: bool) -> (r: Self)
        ensures
            r.namespaces == namespaces,
            r.port_mapping == port_mapping,
            r.setup.skip_cmis_mgr == skip_cmis_mgr,
            r.setup.sfp_ready_wait == TIME_FOR_SFP_READY_MSECS,
            r.setup.removal_tables@ == Seq::<TableId>::empty(),
            r.setup.vdm_threshold_tables is None,
            r.setup.state_port_tbl is None,
            r.retry_eeprom_set@ == Set::<Seq<char>>::empty(),
            r.last_retry_eeprom_time is None,
            r.last_recover_baseline_time is None,
            r.deconfigured_ports is None,
            r.sfp_error_dict@ == ErrorEvents::empty(),
            r.recover_attempts@ == Map::<Seq<char>, u32>::empty(),
    {
        SfpStateUpdateTask {
            namespaces,
            port_mapping,
            setup: SfpSetup {
                skip_cmis_mgr,
                sfp_ready_wait: TIME_FOR_SFP_READY_MSECS,
                removal_tables: Vec::new(),
                vdm_threshold_tables: None,
                state_port_tbl: None,
            },
            retry_eeprom_set: StrSet::new(),
            last_retry_eeprom_time: None,
            last_recover_baseline_time: None,
            deconfigured_ports: None,
            sfp_error_dict: OrdMap::new(),
            recover_attempts: OrdMap::new(),
        }
    }

    pub fn set_removal_tables(&mut self, tables: Vec<TableId>)
        ensures
            *final(self) == (SfpStateUpdateTask {
                setup: SfpSetup { removal_tables: tables, ..old(self).setup },
                ..*old(self)
            }),
    {
        self.setup.removal_tables = tables;
    }

    pub fn set_vdm_threshold_tables(&mut self, tables: VdmThresholdTables)
        ensures
            *final(self) == (SfpStateUpdateTask {
                setup: SfpSetup { vdm_threshold_tables: Some(tables), ..old(self).setup },
                ..*old(self)
            }),
    {
        self.setup.vdm_threshold_tables = Some(tables);
    }

    pub fn set_state_port_table(&mut self, tbl: TableId)
        ensures
            *final(self) == (SfpStateUpdateTask {
                setup: SfpSetup { state_port_tbl: Some(tbl), ..old(self).setup },
                ..*old(self)
            }),
    {
        self.setup.state_port_tbl = Some(tbl);
    }

    pub fn set_deconfigured_ports(&mut self, set: StrSet)
        ensures
            *final(self) == (SfpStateUpdateTask { deconfigured_ports: Some(set), ..*old(self) }),
    {
        self.deconfigured_ports = Some(set);
    }

    /// Notes that the configuration has the port no more, or has it again.
    fn mark_deconfigured(&mut self, logical_port: &str, gone: bool)
        ensures
            set_of(final(self).deconfigured_ports) == marked(
                set_of(old(self).deconfigured_ports),
                logical_port@,
                gone,
            ),
            *final(self) == (SfpStateUpdateTask {
                deconfigured_ports: final(self).deconfigured_ports,
                ..*old(self)
            }),
    {
        let marked: Option<StrSet> = match &self.deconfigured_ports {
            Some(set) => {
                let mut set = set.copy();
                if gone {
                    set.insert(logical_port);
                } else {
                    set.remove(logical_port);
                }
                Some(set)
            },
            None => None,
        };
        self.deconfigured_ports = marked;
    }

    /// Tells what a report of the platform amounts to, and adds the event where the
    /// report names none.
    pub fn mapping_event_from_change_event(&self, status: bool, port_dict: &mut StrMap<String>) -> (r: SystemEvent)
        ensures
            r == classified(status, old(port_dict)@),
            final(port_dict)@ == report_completed(status, old(port_dict)@),
            classified(status, old(port_dict)@) == SystemEvent::Normal ==> *final(port_dict) == *old(
                port_dict,
            ),
    {
        if status {
            if !port_dict.is_empty() {
                SystemEvent::Normal
            } else {
                port_dict.insert(EVENT_ON_ALL_SFP.to_owned(), SYSTEM_BECOME_READY.to_owned());
                SystemEvent::BecomeReady
            }
        } else {
            let named: Option<SystemEvent> = match port_dict.get_str(EVENT_ON_ALL_SFP) {
                Some(v) => Some(SystemEvent::from_event_str(v.as_str())),
                None => None,
            };
            match named {
                Some(e) => e,
                None => {
                    port_dict.insert(EVENT_ON_ALL_SFP.to_owned(), SYSTEM_FAIL.to_owned());
                    SystemEvent::Fail
                },
            }
        }
    }

    /// Publishes the thresholds of a port's module, read anew.
    fn post_thresholds(&self, hal: &Hal, db: &mut Db, dom_threshold_tbl: TableId, logical_port: &str, cache: &mut DbCache, now: u64)
        ensures
            final(db)@ == self.setup.thresholds_posted(
                old(db)@,
                old(cache)@,
                self.port_mapping@,
                hal,
                dom_threshold_tbl,
                logical_port@,
                now,
            ),
            final(cache)@ == monitors_cache(
                old(cache)@,
                false,
                self.port_mapping@,
                hal,
                logical_port@,
                Diagnostic::DomThresholds,
            ),
    {
        DomDbUtils::new().post_port_dom_thresholds_to_db(
            false,
            logical_port,
            &self.port_mapping,
            db,
            dom_threshold_tbl,
            hal,
            cache,
            now,
        );
        if let Some(v) = &self.setup.vdm_threshold_tables {
            VdmDbUtils::new().post_port_vdm_thresholds_to_db(
                false,
                logical_port,
                &self.port_mapping,
                db,
                hal,
                v,
                now,
            );
        }
    }

    /// Writes the identity rows at the start and publishes the thresholds, each
    /// module read once.
    pub fn post_port_sfp_info_and_dom_thr_to_db_once(
        &mut self,
        hal: &Hal,
        db: &mut Db,
        int_tbl: TableId,
        dom_threshold_tbl: TableId,
        now: u64,
    ) -> (r: XResult<()>)
        ensures
            r == Ok::<(), XcvrdError>(()),
            ({
                let m = old(self).port_mapping@;
                let n = m.logical.len() as int;
                let (posted, retry) = old(self).setup.identities_posted(old(db)@, m, hal, int_tbl, n);
                &&& final(self).retry_eeprom_set@ == retry
                &&& final(db)@ == old(self).setup.all_thresholds_posted(posted, m, hal, dom_threshold_tbl, retry, now, n).0
            }),
            final(self).sfp_error_dict == old(self).sfp_error_dict,
            final(self).recover_attempts == old(self).recover_attempts,
            final(self).setup == old(self).setup,
            final(self).port_mapping == old(self).port_mapping,
            final(self).namespaces == old(self).namespaces,
            final(self).deconfigured_ports == old(self).deconfigured_ports,
            final(self).last_retry_eeprom_time == old(self).last_retry_eeprom_time,
            final(self).last_recover_baseline_time == old(self).last_recover_baseline_time,
    {
        let ghost m = self.port_mapping@;
        let ghost before = db@;
        let mut retry = StrSet::new();
        let mut i: usize = 0;
        while i < self.port_mapping.logical_port_list.len()
            invariant
                i <= self.port_mapping.logical_port_list.len(),
                m == self.port_mapping@,
                (db@, retry@) == self.setup.identities_posted(before, m, hal, int_tbl, i as int),
            decreases self.port_mapping.logical_port_list.len() - i,
        {
            let name = self.port_mapping.logical_port_list[i].as_str();
            if self.port_mapping.get_asic_id_for_logical_port(name).is_some() {
                let rc = post_port_sfp_info_to_db(name, &self.port_mapping, db, int_tbl, hal);
                if is_not_ready(&rc) {
                    retry.insert(name);
                }
            }
            i = i + 1;
        }
        self.retry_eeprom_set = retry;
        let ghost posted = db@;
        let mut cache: DbCache = OrdMap::new();
        let mut j: usize = 0;
        while j < self.port_mapping.logical_port_list.len()
            invariant
                j <= self.port_mapping.logical_port_list.len(),
                m == self.port_mapping@,
                (db@, cache@) == self.setup.all_thresholds_posted(
                    posted,
                    m,
                    hal,
                    dom_threshold_tbl,
                    self.retry_eeprom_set@,
                    now,
                    j as int,
                ),
            decreases self.port_mapping.logical_port_list.len() - j,
        {
            let name = self.port_mapping.logical_port_list[j].as_str();
            if !self.retry_eeprom_set.contains(name) {
                self.post_thresholds(hal, db, dom_threshold_tbl, name, &mut cache, now);
            }
            j = j + 1;
        }
        Ok(())
    }

    /// Sets the status rows at the start.
    pub fn init_port_sfp_status_sw_tbl(&self, hal: &Hal, db: &mut Db, status_sw_tbl: TableId) -> (r: XResult<()>)
        ensures
            r == Ok::<(), XcvrdError>(()),
            final(db)@ == statuses_seeded(
                old(db)@,
                self.port_mapping@,
                hal,
                status_sw_tbl,
                self.port_mapping@.logical.len() as int,
            ),
    {
        let ghost before = db@;
        let mut i: usize = 0;
        while i < self.port_mapping.logical_port_list.len()
            invariant
                i <= self.port_mapping.logical_port_list.len(),
                db@ == statuses_seeded(before, self.port_mapping@, hal, status_sw_tbl, i as int),
            decreases self.port_mapping.logical_port_list.len() - i,
        {
            let name = self.port_mapping.logical_port_list[i].as_str();
            if self.port_mapping.get_asic_id_for_logical_port(name).is_some() {
                let there = self.is_port_present(hal, name);
                let status = if there {
                    SFP_STATUS_INSERTED
                } else {
                    SFP_STATUS_REMOVED
                };
                update_port_transceiver_status_table_sw(name, db, status_sw_tbl, status, "N/A");
            }
            i = i + 1;
        }
        Ok(())
    }

    /// Whether the module of the physical port that a port name stands for is
    /// there.
    fn is_port_present(&self, hal: &Hal, name: &str) -> (r: bool)
        ensures
            r == (physical_of(self.port_mapping@, name@) matches Some(p) && present(hal, p)),
    {
        match self.port_mapping.logical_port_name_to_physical_port_list(name) {
            Some(list) => hal.is_present(list[0]),
            None => false,
        }
    }

    /// Sets the bring-up state of every port to ready whose module is there and was
    /// read.
    pub fn project_cmis_state_for_present_ports(&self, hal: &Hal, db: &mut Db, status_sw_tbl: TableId)
        ensures
            final(db)@ == states_projected(
                old(db)@,
                self.port_mapping@,
                hal,
                status_sw_tbl,
                self.retry_eeprom_set@,
                self.port_mapping@.logical.len() as int,
            ),
    {
        let ghost before = db@;
        let mut i: usize = 0;
        while i < self.port_mapping.logical_port_list.len()
            invariant
                i <= self.port_mapping.logical_port_list.len(),
                db@ == states_projected(
                    before,
                    self.port_mapping@,
                    hal,
                    status_sw_tbl,
                    self.retry_eeprom_set@,
                    i as int,
                ),
            decreases self.port_mapping.logical_port_list.len() - i,
        {
            let name = self.port_mapping.logical_port_list[i].as_str();
            if !self.retry_eeprom_set.contains(name) && self.is_port_present(hal, name) {
                db.hset(status_sw_tbl, name, "cmis_state", CMIS_STATE_READY);
            }
            i = i + 1;
        }
    }

    /// Writes a port's identity and publishes its thresholds, or notes that its
    /// EEPROM is to be read again.
    fn identify(&mut self, hal: &Hal, db: &mut Db, t: &StateTables, logical_port: &str, now: u64)
        ensures
            forall|c: Seq<(usize, Command)>| #[trigger]
                final(self).slots(final(db)@, c) == old(self).setup.identified(
                    old(self).slots(old(db)@, c),
                    old(self).port_mapping@,
                    hal,
                    *t,
                    logical_port@,
                    now,
                ),
            final(self).setup == old(self).setup,
            final(self).port_mapping == old(self).port_mapping,
            final(self).namespaces == old(self).namespaces,
            final(self).deconfigured_ports == old(self).deconfigured_ports,
            final(self).last_retry_eeprom_time == old(self).last_retry_eeprom_time,
            final(self).last_recover_baseline_time == old(self).last_recover_baseline_time,
    {
        let rc = post_port_sfp_info_to_db(logical_port, &self.port_mapping, db, t.int_tbl, hal);
        if is_not_ready(&rc) {
            self.retry_eeprom_set.insert(logical_port);
        } else {
            let mut cache: DbCache = OrdMap::new();
            self.post_thresholds(hal, db, t.dom_threshold_tbl, logical_port, &mut cache, now);
        }
    }

    fn handle_insert(&mut self, hal: &Hal, later: &Hal, db: &mut Db, t: &StateTables, logical_port: &str, now: u64)
        ensures
            forall|c: Seq<(usize, Command)>| #[trigger]
                final(self).slots(final(db)@, c) == old(self).setup.inserted(
                    old(self).slots(old(db)@, c),
                    old(self).port_mapping@,
                    hal,
                    later,
                    *t,
                    logical_port@,
                    now,
                ),
            final(self).setup == old(self).setup,
            final(self).port_mapping == old(self).port_mapping,
            final(self).namespaces == old(self).namespaces,
            final(self).deconfigured_ports == old(self).deconfigured_ports,
            final(self).last_retry_eeprom_time == old(self).last_retry_eeprom_time,
            final(self).last_recover_baseline_time == old(self).last_recover_baseline_time,
    {
        update_port_transceiver_status_table_sw(
            logical_port,
            db,
            t.status_sw_tbl,
            SFP_STATUS_INSERTED,
            "N/A",
        );
        let ghost mid = db@;
        if self.is_identity_ready(hal, logical_port) {
            self.identify(hal, db, t, logical_port, now);
        } else {
            self.identify(later, db, t, logical_port, now);
        }
        proof {
            assert forall|c: Seq<(usize, Command)>| #[trigger]
                self.slots(db@, c) == old(self).setup.inserted(
                    old(self).slots(old(db)@, c),
                    old(self).port_mapping@,
                    hal,
                    later,
                    *t,
                    logical_port@,
                    now,
                ) by {
                let w = old(self).slots(old(db)@, c);
                assert(old(self).slots(mid, c) =~= Slots {
                    db: with_status(w.db, t.status_sw_tbl, logical_port@, SFP_STATUS_INSERTED@, "N/A"@),
                    ..w
                });
            }
        }
    }

    /// Whether the identity of a port's module can be told now, so that the module
    /// need not be waited for.
    pub fn is_identity_ready(&self, hal: &Hal, logical_port: &str) -> (r: bool)
        ensures
            r == !not_ready(self.port_mapping@, hal, logical_port@),
    {
        let mut scratch = Db::new();
        let rc = post_port_sfp_info_to_db(logical_port, &self.port_mapping, &mut scratch, 0, hal);
        !is_not_ready(&rc)
    }

    fn reseed_npu_si_settings(&self, db: &mut Db, logical_port: &str)
        ensures
            final(db)@ == self.setup.reseeded(old(db)@, logical_port@),
    {
        if let Some(t) = self.setup.state_port_tbl {
            db.hset(t, logical_port, NPU_SI_SETTINGS_SYNC_STATUS_KEY, NPU_SI_SETTINGS_DEFAULT_VALUE);
        }
    }

    fn handle_remove(
        &mut self,
        hal: &Hal,
        db: &mut Db,
        commands: &mut CommandLog,
        t: &StateTables,
        physical_port: usize,
        logical_port: &str,
    )
        ensures
            final(self).slots(final(db)@, final(commands)@) == old(self).setup.removed(
                old(self).slots(old(db)@, old(commands)@),
                old(self).port_mapping@,
                hal,
                *t,
                physical_port,
                logical_port@,
            ),
            final(self).setup == old(self).setup,
            final(self).port_mapping == old(self).port_mapping,
            final(self).namespaces == old(self).namespaces,
            final(self).deconfigured_ports == old(self).deconfigured_ports,
            final(self).last_retry_eeprom_time == old(self).last_retry_eeprom_time,
            final(self).last_recover_baseline_time == old(self).last_recover_baseline_time,
    {
        ask(hal, commands, physical_port, SfpCommand::RemoveXcvrApi);
        self.reseed_npu_si_settings(db, logical_port);
        update_port_transceiver_status_table_sw(
            logical_port,
            db,
            t.status_sw_tbl,
            SFP_STATUS_REMOVED,
            "N/A",
        );
        db.hset(t.status_sw_tbl, logical_port, "cmis_state", CMIS_STATE_INSERTED);
        let mut tbls: Vec<TableId> = Vec::new();
        tbls.push(t.int_tbl);
        append_tables(&mut tbls, &self.setup.removal_tables);
        assert(tbls@ =~= seq![t.int_tbl] + self.setup.removal_tables@);
        del_port_sfp_dom_info_from_db(logical_port, &self.port_mapping, db, &tbls);
        self.retry_eeprom_set.remove(logical_port);
    }

    fn handle_error(
        &self,
        hal: &Hal,
        db: &mut Db,
        t: &StateTables,
        phys_key: &str,
        logical_port: &str,
        value: &str,
        error_dict: &StrMap<String>,
    )
        ensures
            forall|c: Seq<(usize, Command)>| #[trigger]
                self.slots(final(db)@, c) == self.setup.failed(
                    self.slots(old(db)@, c),
                    self.port_mapping@,
                    hal,
                    *t,
                    phys_key@,
                    logical_port@,
                    value@,
                    error_dict@,
                ),
    {
        let error_bits: u32 = match parse_u32(value) {
            Some(n) => n,
            None => {
                return ;
            },
        };
        let text = describe_error(hal, error_bits, parse_usize(phys_key), phys_key, error_dict);
        update_port_transceiver_status_table_sw(
            logical_port,
            db,
            t.status_sw_tbl,
            value,
            text.as_str(),
        );
        if is_error_block_eeprom_reading(error_bits) {
            del_port_sfp_dom_info_from_db(
                logical_port,
                &self.port_mapping,
                db,
                &self.setup.removal_tables,
            );
        }
    }

    /// Applies a report of the platform: each slot in the order of the keys, and
    /// each of its logical ports. `later` is what the modules report after the wait
    /// for a module that was put in.
    pub fn handle_change_event(
        &mut self,
        hal: &Hal,
        later: &Hal,
        db: &mut Db,
        commands: &mut CommandLog,
        int_tbl: TableId,
        status_sw_tbl: TableId,
        dom_threshold_tbl: TableId,
        status: bool,
        port_dict: &mut StrMap<String>,
        error_dict: &StrMap<String>,
        now: u64,
    )
        ensures
            final(port_dict)@ == report_completed(status, old(port_dict)@),
            final(self).slots(final(db)@, final(commands)@) == old(self).setup.report_applied(
                old(self).slots(old(db)@, old(commands)@),
                old(self).port_mapping@,
                hal,
                later,
                (StateTables { int_tbl, status_sw_tbl, dom_threshold_tbl }),
                status,
                old(port_dict)@,
                error_dict@,
                now,
            ),
            final(self).setup == old(self).setup,
            final(self).port_mapping == old(self).port_mapping,
            final(self).namespaces == old(self).namespaces,
            final(self).deconfigured_ports == old(self).deconfigured_ports,
            final(self).last_retry_eeprom_time == old(self).last_retry_eeprom_time,
            final(self).last_recover_baseline_time == old(self).last_recover_baseline_time,
    {
        let t = StateTables { int_tbl, status_sw_tbl, dom_threshold_tbl };
        let event = self.mapping_event_from_change_event(status, port_dict);
        if event != SystemEvent::Normal {
            return ;
        }
        let ghost w = self.slots(db@, commands@);
        let ghost d = port_dict@;
        port_dict.recall_order();
        let ghost keys = port_dict.keys();
        let n: usize = port_dict.len();
        let mut i: usize = 0;
        while i < n
            invariant
                i <= n,
                n == keys.len(),
                keys == port_dict.keys(),
                d == port_dict@,
                t == (StateTables { int_tbl, status_sw_tbl, dom_threshold_tbl }),
                self.setup == old(self).setup,
                self.port_mapping == old(self).port_mapping,
                self.namespaces == old(self).namespaces,
                self.deconfigured_ports == old(self).deconfigured_ports,
                self.last_retry_eeprom_time == old(self).last_retry_eeprom_time,
                self.last_recover_baseline_time == old(self).last_recover_baseline_time,
                self.slots(db@, commands@) == self.setup.slots_changed(
                    w,
                    self.port_mapping@,
                    hal,
                    later,
                    t,
                    keys,
                    d,
                    error_dict@,
                    now,
                    i as int,
                ),
            decreases n - i,
        {
            let key = port_dict.key_at(i);
            let value = port_dict.value_at(i);
            self.handle_slot(
                hal,
                later,
                db,
                commands,
                &t,
                key.as_str(),
                value.as_str(),
                error_dict,
                now,
            );
            i = i + 1;
        }
    }

    /// Applies the event of one slot.
    fn handle_slot(
        &mut self,
        hal: &Hal,
        later: &Hal,
        db: &mut Db,
        commands: &mut CommandLog,
        t: &StateTables,
        key: &str,
        value: &str,
        error_dict: &StrMap<String>,
        now: u64,
    )
        ensures
            final(self).slots(final(db)@, final(commands)@) == old(self).setup.slot_changed(
                old(self).slots(old(db)@, old(commands)@),
                old(self).port_mapping@,
                hal,
                later,
                *t,
                key@,
                value@,
                error_dict@,
                now,
            ),
            final(self).setup == old(self).setup,
            final(self).port_mapping == old(self).port_mapping,
            final(self).namespaces == old(self).namespaces,
            final(self).deconfigured_ports == old(self).deconfigured_ports,
            final(self).last_retry_eeprom_time == old(self).last_retry_eeprom_time,
            final(self).last_recover_baseline_time == old(self).last_recover_baseline_time,
    {
        if !same(value, SFP_STATUS_INSERTED) && !same(value, SFP_STATUS_REMOVED) {
            self.sfp_error_dict.insert(key.to_owned(), (value.to_owned(), error_dict.copy()));
        } else {
            self.sfp_error_dict.remove_str(key);
        }
        let ghost w = self.slots(db@, commands@);
        proof {
            assert(w =~= self.setup.error_noted(
                old(self).slots(old(db)@, old(commands)@),
                key@,
                value@,
                error_dict@,
            ));
        }
        let phys: i64 = match parse_i64(key) {
            Some(n) => n,
            None => {
                return ;
            },
        };
        if phys < 0 {
            return ;
        }
        let physical: usize = phys as usize;
        let ports: Vec<String> = match self.port_mapping.get_physical_to_logical(physical) {
            Some(list) => list,
            None => {
                return ;
            },
        };
        let ghost names = ports.deep_view();
        let mut i: usize = 0;
        while i < ports.len()
            invariant
                i <= ports.len(),
                names == ports.deep_view(),
                self.setup == old(self).setup,
                self.port_mapping == old(self).port_mapping,
                self.namespaces == old(self).namespaces,
                self.deconfigured_ports == old(self).deconfigured_ports,
                self.last_retry_eeprom_time == old(self).last_retry_eeprom_time,
                self.last_recover_baseline_time == old(self).last_recover_baseline_time,
                self.slots(db@, commands@) == self.setup.ports_changed(
                    w,
                    self.port_mapping@,
                    hal,
                    later,
                    *t,
                    key@,
                    physical,
                    names,
                    value@,
                    error_dict@,
                    now,
                    i as int,
                ),
            decreases ports.len() - i,
        {
            self.handle_port(
                hal,
                later,
                db,
                commands,
                t,
                key,
                physical,
                ports[i].as_str(),
                value,
                error_dict,
                now,
            );
            i = i + 1;
        }
    }

    /// Applies the event of a slot to one of its logical ports.
    fn handle_port(
        &mut self,
        hal: &Hal,
        later: &Hal,
        db: &mut Db,
        commands: &mut CommandLog,
        t: &StateTables,
        key: &str,
        physical: usize,
        logical_port: &str,
        value: &str,
        error_dict: &StrMap<String>,
        now: u64,
    )
        ensures
            final(self).slots(final(db)@, final(commands)@) == old(self).setup.port_changed(
                old(self).slots(old(db)@, old(commands)@),
                old(self).port_mapping@,
                hal,
                later,
                *t,
                key@,
                physical,
                logical_port@,
                value@,
                error_dict@,
                now,
            ),
            final(self).setup == old(self).setup,
            final(self).port_mapping == old(self).port_mapping,
            final(self).namespaces == old(self).namespaces,
            final(self).deconfigured_ports == old(self).deconfigured_ports,
            final(self).last_retry_eeprom_time == old(self).last_retry_eeprom_time,
            final(self).last_recover_baseline_time == old(self).last_recover_baseline_time,
    {
        if self.port_mapping.get_asic_id_for_logical_port(logical_port).is_none() {
            return ;
        }
        if same(value, SFP_STATUS_INSERTED) {
            self.handle_insert(hal, later, db, t, logical_port, now);
        } else if same(value, SFP_STATUS_REMOVED) {
            self.handle_remove(hal, db, commands, t, physical, logical_port);
        } else {
            self.handle_error(hal, db, t, key, logical_port, value, error_dict);
        }
        let ghost w = self.slots(db@, commands@);
        self.recover_attempts.remove_str(logical_port);
        proof {
            assert(self.slots(db@, commands@) =~= Slots {
                attempts: w.attempts.remove(logical_port@),
                ..w
            });
        }
    }

    /// Applies what the platform answered to a poll; a failed poll changes nothing.
    pub fn process_change_event_poll(
        &mut self,
        hal: &Hal,
        later: &Hal,
        db: &mut Db,
        commands: &mut CommandLog,
        int_tbl: TableId,
        status_sw_tbl: TableId,
        dom_threshold_tbl: TableId,
        poll: XResult<ChangeEvent>,
        now: u64,
    )
        ensures
            final(self).slots(final(db)@, final(commands)@) == match poll {
                Ok(ev) => if ev.sfp@.dom() == Set::<Seq<char>>::empty() {
                    old(self).slots(old(db)@, old(commands)@)
                } else {
                    old(self).setup.report_applied(
                        old(self).slots(old(db)@, old(commands)@),
                        old(self).port_mapping@,
                        hal,
                        later,
                        (StateTables { int_tbl, status_sw_tbl, dom_threshold_tbl }),
                        ev.status,
                        ev.sfp@,
                        ev.sfp_error@,
                        now,
                    )
                },
                Err(_) => old(self).slots(old(db)@, old(commands)@),
            },
            final(self).setup == old(self).setup,
            final(self).port_mapping == old(self).port_mapping,
            final(self).namespaces == old(self).namespaces,
            final(self).deconfigured_ports == old(self).deconfigured_ports,
            final(self).last_retry_eeprom_time == old(self).last_retry_eeprom_time,
            final(self).last_recover_baseline_time == old(self).last_recover_baseline_time,
    {
        match poll {
            Ok(ev) => {
                let mut port_dict = ev.sfp;
                if !port_dict.is_empty() {
                    self.handle_change_event(
                        hal,
                        later,
                        db,
                        commands,
                        int_tbl,
                        status_sw_tbl,
                        dom_threshold_tbl,
                        ev.status,
                        &mut port_dict,
                        &ev.sfp_error,
                        now,
                    );
                }
            },
            Err(_) => {},
        }
    }
}

impl SfpStateUpdateTask {
    /// Reads again, once the pause is over, the ports whose EEPROM could not be
    /// read: those that can be read now get their rows and leave the set.
    pub fn retry_eeprom_reading(
        &mut self,
        hal: &Hal,
        db: &mut Db,
        int_tbl: TableId,
        _status_sw_tbl: TableId,
        dom_threshold_tbl: TableId,
        at: u64,
        now: u64,
    )
        ensures
            ({
                let t = StateTables { int_tbl, status_sw_tbl: _status_sw_tbl, dom_threshold_tbl };
                let s = old(self).retry_eeprom_set@;
                let names = in_order::<String>(s);
                let due = s != Set::<Seq<char>>::empty() && pause_over(
                    old(self).last_retry_eeprom_time,
                    at,
                    RETRY_EEPROM_READING_INTERVAL_MSECS,
                );
                let (d, left) = old(self).setup.retried(
                    old(db)@,
                    old(self).port_mapping@,
                    hal,
                    t,
                    names,
                    s,
                    now,
                    names.len() as int,
                );
                &&& final(db)@ == if due {
                    d
                } else {
                    old(db)@
                }
                &&& final(self).retry_eeprom_set@ == if due {
                    left
                } else {
                    s
                }
                &&& final(self).last_retry_eeprom_time == if due {
                    Some(at)
                } else {
                    old(self).last_retry_eeprom_time
                }
            }),
            *final(self) == (SfpStateUpdateTask {
                retry_eeprom_set: final(self).retry_eeprom_set,
                last_retry_eeprom_time: final(self).last_retry_eeprom_time,
                ..*old(self)
            }),
    {
        if self.retry_eeprom_set.is_empty() {
            return ;
        }
        if !is_pause_over(self.last_retry_eeprom_time, at, RETRY_EEPROM_READING_INTERVAL_MSECS) {
            return ;
        }
        self.last_retry_eeprom_time = Some(at);
        let t = StateTables { int_tbl, status_sw_tbl: _status_sw_tbl, dom_threshold_tbl };
        let waiting = self.retry_eeprom_set.copy();
        let n: usize = waiting.len();
        let ghost names = waiting.names();
        let ghost before = db@;
        let ghost me = *self;
        let mut left = self.retry_eeprom_set.copy();
        let mut i: usize = 0;
        while i < n
            invariant
                i <= n,
                n == names.len(),
                names == waiting.names(),
                *self == me,
                t.int_tbl == int_tbl,
                (db@, left@) == self.setup.retried(
                    before,
                    self.port_mapping@,
                    hal,
                    t,
                    names,
                    waiting@,
                    now,
                    i as int,
                ),
            decreases n - i,
        {
            let port = waiting.name_at(i);
            let rc = post_port_sfp_info_to_db(port.as_str(), &self.port_mapping, db, int_tbl, hal);
            if !is_not_ready(&rc) {
                let mut cache: DbCache = OrdMap::new();
                self.post_thresholds(hal, db, t.dom_threshold_tbl, port.as_str(), &mut cache, now);
                left.remove(port.as_str());
            }
            i = i + 1;
        }
        self.retry_eeprom_set = left;
    }

    /// Restores, once the pause is over, the rows of the ports whose module is there
    /// and that lack their identity or their thresholds.
    pub fn recover_missing_port_baselines(
        &mut self,
        hal: &Hal,
        later: &Hal,
        db: &mut Db,
        int_tbl: TableId,
        status_sw_tbl: TableId,
        dom_threshold_tbl: TableId,
        at: u64,
        now: u64,
    )
        ensures
            ({
                let due = pause_over(
                    old(self).last_recover_baseline_time,
                    at,
                    RECOVER_BASELINE_INTERVAL_MSECS,
                );
                &&& final(self).last_recover_baseline_time == if due {
                    Some(at)
                } else {
                    old(self).last_recover_baseline_time
                }
                &&& forall|c: Seq<(usize, Command)>| #[trigger]
                    final(self).slots(final(db)@, c) == if due {
                        old(self).setup.ports_restored(
                            old(self).slots(old(db)@, c),
                            old(self).port_mapping@,
                            hal,
                            later,
                            (StateTables { int_tbl, status_sw_tbl, dom_threshold_tbl }),
                            set_of(old(self).deconfigured_ports),
                            now,
                            old(self).port_mapping@.logical.len() as int,
                        )
                    } else {
                        old(self).slots(old(db)@, c)
                    }
            }),
            final(self).setup == old(self).setup,
            final(self).port_mapping == old(self).port_mapping,
            final(self).namespaces == old(self).namespaces,
            final(self).deconfigured_ports == old(self).deconfigured_ports,
            final(self).last_retry_eeprom_time == old(self).last_retry_eeprom_time,
    {
        if !is_pause_over(self.last_recover_baseline_time, at, RECOVER_BASELINE_INTERVAL_MSECS) {
            return ;
        }
        self.last_recover_baseline_time = Some(at);
        let t = StateTables { int_tbl, status_sw_tbl, dom_threshold_tbl };
        let ghost me = *self;
        let ghost before = db@;
        let mut i: usize = 0;
        while i < self.port_mapping.logical_port_list.len()
            invariant
                i <= self.port_mapping.logical_port_list.len(),
                t == (StateTables { int_tbl, status_sw_tbl, dom_threshold_tbl }),
                self.setup == me.setup,
                self.port_mapping == me.port_mapping,
                self.namespaces == me.namespaces,
                self.deconfigured_ports == me.deconfigured_ports,
                self.last_retry_eeprom_time == me.last_retry_eeprom_time,
                self.last_recover_baseline_time == me.last_recover_baseline_time,
                forall|c: Seq<(usize, Command)>| #[trigger]
                    self.slots(db@, c) == me.setup.ports_restored(
                        me.slots(before, c),
                        me.port_mapping@,
                        hal,
                        later,
                        t,
                        set_of(me.deconfigured_ports),
                        now,
                        i as int,
                    ),
            decreases self.port_mapping.logical_port_list.len() - i,
        {
            let port = self.port_mapping.logical_port_list[i].clone();
            self.recover_port(hal, later, db, &t, port.as_str(), now);
            i = i + 1;
        }
    }

    /// Restores the rows of one port.
    fn recover_port(&mut self, hal: &Hal, later: &Hal, db: &mut Db, t: &StateTables, logical_port: &str, now: u64)
        ensures
            forall|c: Seq<(usize, Command)>| #[trigger]
                final(self).slots(final(db)@, c) == old(self).setup.port_restored(
                    old(self).slots(old(db)@, c),
                    old(self).port_mapping@,
                    hal,
                    later,
                    *t,
                    set_of(old(self).deconfigured_ports),
                    logical_port@,
                    now,
                ),
            final(self).setup == old(self).setup,
            final(self).port_mapping == old(self).port_mapping,
            final(self).namespaces == old(self).namespaces,
            final(self).deconfigured_ports == old(self).deconfigured_ports,
            final(self).last_retry_eeprom_time == old(self).last_retry_eeprom_time,
            final(self).last_recover_baseline_time == old(self).last_recover_baseline_time,
    {
        if self.port_mapping.get_asic_id_for_logical_port(logical_port).is_none() {
            return ;
        }
        let has_info = db.has_row(t.int_tbl, logical_port);
        let has_threshold = db.has_row(t.dom_threshold_tbl, logical_port);
        if has_info && has_threshold {
            self.recover_attempts.remove_str(logical_port);
            return ;
        }
        if !self.is_restorable(hal, db, t, logical_port) {
            return ;
        }
        let tried: u32 = match self.recover_attempts.get_str(logical_port) {
            Some(n) => *n,
            None => 0,
        };
        if tried >= MAX_RECOVER_ATTEMPTS {
            return ;
        }
        self.recover_attempts.insert(logical_port.to_owned(), tried + 1);
        let ghost mid = *self;
        if !has_info {
            self.handle_insert(hal, later, db, t, logical_port, now);
        } else {
            let mut cache: DbCache = OrdMap::new();
            self.post_thresholds(hal, db, t.dom_threshold_tbl, logical_port, &mut cache, now);
        }
        proof {
            assert forall|c: Seq<(usize, Command)>| #[trigger]
                self.slots(db@, c) == old(self).setup.port_restored(
                    old(self).slots(old(db)@, c),
                    old(self).port_mapping@,
                    hal,
                    later,
                    *t,
                    set_of(old(self).deconfigured_ports),
                    logical_port@,
                    now,
                ) by {
                let w = old(self).slots(old(db)@, c);
                assert(mid.slots(old(db)@, c) =~= Slots {
                    attempts: w.attempts.insert(logical_port@, (tried + 1) as u32),
                    ..w
                });
            }
        }
    }

    /// Whether nothing keeps the rows of a port from being restored.
    fn is_unhindered(&self, db: &Db, status_sw_tbl: TableId, logical_port: &str) -> (r: bool)
        ensures
            forall|c: Seq<(usize, Command)>, t: StateTables|
                t.status_sw_tbl == status_sw_tbl ==> #[trigger] self.setup.unhindered(
                    self.slots(db@, c),
                    t,
                    set_of(self.deconfigured_ports),
                    logical_port@,
                ) == r,
    {
        if is_text(&db.hget(status_sw_tbl, logical_port, "status"), SFP_STATUS_REMOVED) {
            return false;
        }
        if self.retry_eeprom_set.contains(logical_port) {
            return false;
        }
        if let Some(set) = &self.deconfigured_ports {
            if set.contains(logical_port) {
                return false;
            }
        }
        if let Some(e) = db.hget(status_sw_tbl, logical_port, "error") {
            proof {
                reveal_strlit("");
                if e@.len() == 0 {
                    assert(e@ =~= ""@);
                }
            }
            if !same(e.as_str(), "N/A") && !same(e.as_str(), "") {
                return false;
            }
        }
        true
    }

    /// Whether the rows of a port are to be restored.
    fn is_restorable(&self, hal: &Hal, db: &Db, t: &StateTables, logical_port: &str) -> (r: bool)
        ensures
            forall|c: Seq<(usize, Command)>| #[trigger]
                self.setup.restorable(
                    self.slots(db@, c),
                    self.port_mapping@,
                    hal,
                    *t,
                    set_of(self.deconfigured_ports),
                    logical_port@,
                ) == r,
    {
        if !self.is_unhindered(db, t.status_sw_tbl, logical_port) {
            return false;
        }
        match self.port_mapping.physical_port(logical_port) {
            Some(p) => hal.is_present(p),
            None => false,
        }
    }

    /// Whether the rows of a port are to be restored if its module is there.
    pub fn needs_restoring(
        &self,
        db: &Db,
        int_tbl: TableId,
        status_sw_tbl: TableId,
        dom_threshold_tbl: TableId,
        logical_port: &str,
    ) -> (r: bool)
        ensures
            forall|c: Seq<(usize, Command)>|
                self.setup.restoring_wanted(
                    #[trigger] self.slots(db@, c),
                    self.port_mapping@,
                    (StateTables { int_tbl, status_sw_tbl, dom_threshold_tbl }),
                    set_of(self.deconfigured_ports),
                    logical_port@,
                ) == r,
    {
        if self.port_mapping.get_asic_id_for_logical_port(logical_port).is_none() {
            return false;
        }
        if self.port_mapping.physical_port(logical_port).is_none() {
            return false;
        }
        if db.has_row(int_tbl, logical_port) && db.has_row(dom_threshold_tbl, logical_port) {
            return false;
        }
        let tried: u32 = match self.recover_attempts.get_str(logical_port) {
            Some(n) => *n,
            None => 0,
        };
        tried < MAX_RECOVER_ATTEMPTS && self.is_unhindered(db, status_sw_tbl, logical_port)
    }

    /// Follows a change of the configured ports: the rows of a port that goes are
    /// deleted while the port is still mapped, and a port that comes is mapped
    /// first.
    pub fn on_port_config_change(
        &mut self,
        ctx: &LogicalPortCtx,
        db: &mut Db,
        port_change_event: &PortChangeEvent,
        now: u64,
    )
        ensures
            final(self).port_mapping@ == event_applied(
                old(self).port_mapping@,
                port_change_event@,
            ),
            forall|c: Seq<(usize, Command)>| #[trigger]
                final(self).slots(final(db)@, c) == match port_change_event.event_type {
                    PortChangeEventType::PortRemove => old(self).setup.port_deconfigured(
                        old(self).slots(old(db)@, c),
                        old(self).port_mapping@,
                        ctx.tables(),
                        port_change_event@.port_name,
                    ),
                    PortChangeEventType::PortAdd => old(self).setup.port_configured(
                        old(self).slots(old(db)@, c),
                        final(self).port_mapping@,
                        ctx.hal,
                        ctx.tables(),
                        port_change_event@,
                        now,
                    ),
                    _ => old(self).slots(old(db)@, c),
                },
            set_of(final(self).deconfigured_ports) == marked_for(
                set_of(old(self).deconfigured_ports),
                port_change_event@,
            ),
            final(self).setup == old(self).setup,
            final(self).namespaces == old(self).namespaces,
            final(self).last_retry_eeprom_time == old(self).last_retry_eeprom_time,
            final(self).last_recover_baseline_time == old(self).last_recover_baseline_time,
    {
        match port_change_event.event_type {
            PortChangeEventType::PortRemove => {
                self.on_remove_logical_port(ctx, db, port_change_event);
                let ghost gone = *self;
                self.port_mapping.handle_port_change_event(port_change_event);
                proof {
                    assert forall|c: Seq<(usize, Command)>| #[trigger]
                        self.slots(db@, c) == old(self).setup.port_deconfigured(
                            old(self).slots(old(db)@, c),
                            old(self).port_mapping@,
                            ctx.tables(),
                            port_change_event@.port_name,
                        ) by {
                        assert(self.slots(db@, c) == gone.slots(db@, c));
                    }
                }
            },
            PortChangeEventType::PortAdd => {
                self.port_mapping.handle_port_change_event(port_change_event);
                let ghost mapped = *self;
                self.on_add_logical_port(ctx, db, port_change_event, now);
                proof {
                    assert forall|c: Seq<(usize, Command)>| #[trigger]
                        self.slots(db@, c) == old(self).setup.port_configured(
                            old(self).slots(old(db)@, c),
                            self.port_mapping@,
                            ctx.hal,
                            ctx.tables(),
                            port_change_event@,
                            now,
                        ) by {
                        assert(mapped.slots(old(db)@, c) == old(self).slots(old(db)@, c));
                    }
                }
            },
            _ => {},
        }
    }

    /// Tears down a logical port that the configuration has no more: it is marked
    /// first, so that no other task writes its rows again.
    pub fn on_remove_logical_port(&mut self, ctx: &LogicalPortCtx, db: &mut Db, port_change_event: &PortChangeEvent)
        ensures
            forall|c: Seq<(usize, Command)>| #[trigger]
                final(self).slots(final(db)@, c) == old(self).setup.port_deconfigured(
                    old(self).slots(old(db)@, c),
                    old(self).port_mapping@,
                    ctx.tables(),
                    port_change_event@.port_name,
                ),
            set_of(final(self).deconfigured_ports) == marked(
                set_of(old(self).deconfigured_ports),
                port_change_event@.port_name,
                true,
            ),
            final(self).setup == old(self).setup,
            final(self).port_mapping == old(self).port_mapping,
            final(self).namespaces == old(self).namespaces,
            final(self).last_retry_eeprom_time == old(self).last_retry_eeprom_time,
            final(self).last_recover_baseline_time == old(self).last_recover_baseline_time,
    {
        let name = port_change_event.port_name.as_str();
        self.mark_deconfigured(name, true);
        let mut tbls: Vec<TableId> = Vec::new();
        tbls.push(ctx.int_tbl);
        append_tables(&mut tbls, &self.setup.removal_tables);
        tbls.push(ctx.status_sw_tbl);
        assert(tbls@ =~= seq![ctx.int_tbl] + self.setup.removal_tables@ + seq![ctx.status_sw_tbl]);
        del_port_sfp_dom_info_from_db(name, &self.port_mapping, db, &tbls);
        self.retry_eeprom_set.remove(name);
    }

    /// Sets up a logical port that the configuration has anew.
    pub fn on_add_logical_port(
        &mut self,
        ctx: &LogicalPortCtx,
        db: &mut Db,
        port_change_event: &PortChangeEvent,
        now: u64,
    )
        ensures
            forall|c: Seq<(usize, Command)>| #[trigger]
                final(self).slots(final(db)@, c) == old(self).setup.port_configured(
                    old(self).slots(old(db)@, c),
                    old(self).port_mapping@,
                    ctx.hal,
                    ctx.tables(),
                    port_change_event@,
                    now,
                ),
            set_of(final(self).deconfigured_ports) == marked(
                set_of(old(self).deconfigured_ports),
                port_change_event@.port_name,
                false,
            ),
            final(self).setup == old(self).setup,
            final(self).port_mapping == old(self).port_mapping,
            final(self).namespaces == old(self).namespaces,
            final(self).last_retry_eeprom_time == old(self).last_retry_eeprom_time,
            final(self).last_recover_baseline_time == old(self).last_recover_baseline_time,
    {
        let name = port_change_event.port_name.as_str();
        let index: usize = port_change_event.port_index as usize;
        let key = i64_text(port_change_event.port_index as i64);
        let t = StateTables {
            int_tbl: ctx.int_tbl,
            status_sw_tbl: ctx.status_sw_tbl,
            dom_threshold_tbl: ctx.dom_threshold_tbl,
        };
        let (status, error, blocked) = self.kept_state(ctx.hal, key.as_str(), index);
        self.mark_deconfigured(name, false);
        self.recover_attempts.remove_str(name);
        self.reseed_npu_si_settings(db, name);
        let ghost mid = *self;
        let ghost seeded = db@;
        let readable = ctx.hal.is_present(index) && !blocked;
        if readable {
            self.identify(ctx.hal, db, &t, name, now);
        }
        let status: String = match status {
            Some(s) => s,
            None => if readable {
                SFP_STATUS_INSERTED.to_owned()
            } else {
                SFP_STATUS_REMOVED.to_owned()
            },
        };
        let ghost read = db@;
        update_port_transceiver_status_table_sw(
            name,
            db,
            ctx.status_sw_tbl,
            status.as_str(),
            error.as_str(),
        );
        proof {
            assert forall|c: Seq<(usize, Command)>| #[trigger]
                self.slots(db@, c) == old(self).setup.port_configured(
                    old(self).slots(old(db)@, c),
                    old(self).port_mapping@,
                    ctx.hal,
                    ctx.tables(),
                    port_change_event@,
                    now,
                ) by {
                let w = old(self).slots(old(db)@, c);
                assert(old(self).setup.kept_error(w, ctx.hal, key@, index) == error@);
                assert(mid.slots(seeded, c) =~= Slots {
                    attempts: w.attempts.remove(name@),
                    db: old(self).setup.reseeded(w.db, name@),
                    ..w
                });
                assert(self.slots(db@, c) =~= Slots {
                    db: with_status(read, ctx.status_sw_tbl, name@, status@, error@),
                    ..self.slots(read, c)
                });
            }
        }
    }

    /// What is kept of the error of a slot: the status, the text of the error, and
    /// whether it keeps the EEPROM from being read.
    fn kept_state(&self, hal: &Hal, key: &str, index: usize) -> (r: (Option<String>, String, bool))
        ensures
            forall|d: DbState, c: Seq<(usize, Command)>| #[trigger]
                self.setup.kept_error(self.slots(d, c), hal, key@, index) == r.1@,
            forall|d: DbState, c: Seq<(usize, Command)>|
                (#[trigger] self.setup.kept_bits(self.slots(d, c), key@) matches Some(b) && blocking(
                    b,
                )) == r.2,
            r.0.deep_view() == if self.sfp_error_dict@.contains_key(key@) {
                Some(self.sfp_error_dict@[key@].0)
            } else {
                None
            },
    {
        match self.sfp_error_dict.get_str(key) {
            Some(kept) => match parse_u32(kept.0.as_str()) {
                Some(bits) => {
                    let text = describe_error(hal, bits, Some(index), key, &kept.1);
                    (Some(kept.0.clone()), text, is_error_block_eeprom_reading(bits))
                },
                None => (Some(kept.0.clone()), "N/A".to_owned(), false),
            },
            None => (None, "N/A".to_owned(), false),
        }
    }
}

/// Whether the result says that the EEPROM cannot be read yet.
fn is_not_ready(r: &XResult<()>) -> (b: bool)
    ensures
        b == (*r == Err::<(), XcvrdError>(XcvrdError::EepromNotReady)),
{
    match r {
        Err(XcvrdError::EepromNotReady) => true,
        _ => false,
    }
}

fn append_tables(tables: &mut Vec<TableId>, more: &Vec<TableId>)
    ensures
        final(tables)@ == old(tables)@ + more@,
{
    let ghost before = tables@;
    let mut i: usize = 0;
    assert(tables@ =~= before + more@.take(0));
    while i < more.len()
        invariant
            i <= more.len(),
            tables@ == before + more@.take(i as int),
        decreases more.len() - i,
    {
        tables.push(more[i]);
        assert(tables@ =~= before + more@.take(i + 1));
        i = i + 1;
    }
    assert(more@.take(i as int) =~= more@);
}

/// The text of an error: the descriptions of its bits, and what the vendor says.
fn describe_error(hal: &Hal, bits: u32, physical: Option<usize>, key: &str, descriptions: &StrMap<String>) -> (r: String)
    ensures
        r@ == error_text(bits, vendor_text(hal, physical, key@, descriptions@)),
{
    let mut parts = fetch_generic_error_description(bits);
    if has_vendor_specific_error(bits) {
        let vendor: Option<String> = if !descriptions.is_empty() {
            match descriptions.get_str(key) {
                Some(s) => Some(s.clone()),
                None => None,
            }
        } else {
            match physical {
                Some(p) => match hal.sfp(p) {
                    Ok(s) => match &s.error_description {
                        Ok(d) => d.duplicate(),
                        Err(_) => None,
                    },
                    Err(_) => None,
                },
                None => None,
            }
        };
        if let Some(v) = vendor {
            let ghost before = parts.deep_view();
            parts.push(v);
            assert(parts.deep_view() =~= before.push(v@));
        }
    }
    join_bars(&parts)
}

} // verus!
