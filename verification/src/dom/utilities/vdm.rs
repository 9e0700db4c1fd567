//! The versatile diagnostics of a module: reading them, freezing their
//! statistics, and their rows.

use vstd::prelude::*;
use vstd::string::*;
use crate::clock::utc_text;
use crate::db::{Db, DbState, TableId};
use crate::dom::utilities::db::{
    copy_reading, dict_row, filled, readable_port, reading_posted, shown, Beautifier, DbUtils,
};
use crate::dom::utilities::flags::{flags_tracked, FlagTables};
use crate::error::XResult;
use crate::hal::{dict_read, is_yes, read_dict, reading, yes, Hal, Handshake, Sfp};
use crate::ord_map::{Duplicate, OrdMap};
use crate::text::{contains, holds_text, join, remove_all, without};
use crate::value::{Dict, DictState, Reply, ReplyState, Value};
use crate::xcvrd_utilities::port_event_helper::{Mapping, PortMapping};
use crate::xcvrd_utilities::xcvr_table_helper::{vdm_type_name, VdmType};

verus! {

/// How long a module may take to settle before the done bit is polled.
pub const MAX_TVDMF_TIME_MSECS: u64 = 10;

/// How long the done bit is polled.
pub const MAX_VDM_FREEZE_UNFREEZE_TIME_MSECS: u64 = 1000;

/// How long to wait between two polls of the done bit.
pub const FREEZE_UNFREEZE_DONE_POLLING_INTERVAL_MSECS: u64 = 1;

/// One table for each kind of thresholds.
#[derive(Debug, Clone, Copy)]
pub struct VdmTables {
    pub halarm: TableId,
    pub lalarm: TableId,
    pub hwarn: TableId,
    pub lwarn: TableId,
}

/// The table of a kind of thresholds.
pub open spec fn table_of(tables: VdmTables, t: VdmType) -> TableId {
    match t {
        VdmType::Halarm => tables.halarm,
        VdmType::Lalarm => tables.lalarm,
        VdmType::Hwarn => tables.hwarn,
        VdmType::Lwarn => tables.lwarn,
    }
}

impl VdmTables {
    pub fn table(&self, t: VdmType) -> (r: TableId)
        ensures
            r == table_of(*self, t),
    {
        match t {
            VdmType::Halarm => self.halarm,
            VdmType::Lalarm => self.lalarm,
            VdmType::Hwarn => self.hwarn,
            VdmType::Lwarn => self.lwarn,
        }
    }
}

/// The threshold tables.
#[derive(Debug, Clone, Copy)]
pub struct VdmThresholdTables {
    pub thresholds: VdmTables,
}

/// The flag tables and those of their metadata.
#[derive(Debug, Clone, Copy)]
pub struct VdmFlagTables {
    pub flag: VdmTables,
    pub change_count: VdmTables,
    pub set_time: VdmTables,
    pub clear_time: VdmTables,
}

/// The flag tables of one kind of thresholds.
pub open spec fn flag_tables_of(tables: VdmFlagTables, t: VdmType) -> FlagTables {
    FlagTables {
        value: table_of(tables.flag, t),
        change_count: table_of(tables.change_count, t),
        set_time: table_of(tables.set_time, t),
        clear_time: table_of(tables.clear_time, t),
    }
}

/// A poll answers that the action is done, in time and before any that comes too
/// late.
pub open spec fn polls_confirm(polls: Seq<(u64, XResult<Value>)>, i: int) -> bool
    decreases polls.len() - i,
{
    if i < 0 || i >= polls.len() || polls[i].0 >= MAX_VDM_FREEZE_UNFREEZE_TIME_MSECS {
        false
    } else {
        yes(polls[i].1) || polls_confirm(polls, i + 1)
    }
}

/// The action was accepted and confirmed.
pub open spec fn confirmed(h: Handshake) -> bool {
    yes(h.action) && polls_confirm(h.polls@, 0)
}

/// What a handshake needs next.
#[derive(Debug, Clone, Copy, PartialEq, Eq, Structural)]
pub enum HandshakeStep {
    /// Poll the done bit.
    Poll,
    /// The handshake is over; whether it was confirmed.
    Done(bool),
}

/// What a handshake needs next, `elapsed` milliseconds after polling began.
pub open spec fn next_step(h: Handshake, elapsed: u64) -> HandshakeStep {
    if !yes(h.action) {
        HandshakeStep::Done(false)
    } else if h.polls@.len() > 0 && yes(h.polls@.last().1) {
        HandshakeStep::Done(true)
    } else if elapsed >= MAX_VDM_FREEZE_UNFREEZE_TIME_MSECS {
        HandshakeStep::Done(false)
    } else {
        HandshakeStep::Poll
    }
}

/// Every poll came in time, and only the last may have confirmed.
pub open spec fn in_progress(polls: Seq<(u64, XResult<Value>)>) -> bool {
    &&& forall|i: int| 0 <= i < polls.len() ==> (#[trigger] polls[i]).0 < MAX_VDM_FREEZE_UNFREEZE_TIME_MSECS
    &&& forall|i: int| 0 <= i < polls.len() - 1 ==> !yes((#[trigger] polls[i]).1)
}

proof fn lemma_polls_confirm(polls: Seq<(u64, XResult<Value>)>, i: int)
    requires
        in_progress(polls),
        0 <= i < polls.len(),
    ensures
        polls_confirm(polls, i) == yes(polls.last().1),
    decreases polls.len() - i,
{
    if i < polls.len() - 1 {
        lemma_polls_confirm(polls, i + 1);
        assert(!yes(polls[i].1));
    } else {
        assert(polls[i].0 < MAX_VDM_FREEZE_UNFREEZE_TIME_MSECS);
        assert(!polls_confirm(polls, i + 1));
    }
}

/// A handshake that is polled as long as it asks for it, each poll while it does,
/// ends with what its answers confirm.
pub proof fn law_handshake_ends_with_its_answers(h: Handshake, elapsed: u64)
    requires
        in_progress(h.polls@),
    ensures
        next_step(h, elapsed) matches HandshakeStep::Done(b) ==> b == confirmed(h),
{
    if h.polls@.len() > 0 {
        lemma_polls_confirm(h.polls@, 0);
    }
}

/// What is asked of a module to publish its firmware versions and its versatile
/// diagnostics.
#[derive(Debug, Clone, Copy, PartialEq, Eq, Structural)]
pub enum VdmRequest {
    /// Its firmware versions.
    Firmware,
    /// To freeze its statistics.
    Freeze,
    /// The statistics.
    Statistic,
    /// The performance monitoring values.
    Pm,
    /// To release its statistics.
    Release,
    /// The values besides the statistics.
    Basic,
    /// The latched flags.
    Flags,
    /// Nothing more.
    Done,
}

/// Reads the versatile diagnostics of a module.
pub struct VdmUtils;

impl Default for VdmUtils {
    fn default() -> (r: Self)
        ensures
            r == VdmUtils,
    {
        VdmUtils
    }
}

impl VdmUtils {
    pub fn new() -> (r: Self)
        ensures
            r == VdmUtils,
    {
        VdmUtils
    }

    /// Whether a module has versatile diagnostics.
    pub fn is_transceiver_vdm_supported(&self, sfp: &Sfp) -> (r: bool)
        ensures
            r == yes(sfp.vdm_supported),
    {
        is_yes(&sfp.vdm_supported)
    }

    /// Whether a module has statistics of them.
    pub fn is_vdm_statistic_supported(&self, sfp: &Sfp) -> (r: bool)
        ensures
            r == yes(sfp.vdm_statistic_supported),
    {
        is_yes(&sfp.vdm_statistic_supported)
    }

    /// The values that need no freeze; none where they cannot be read.
    pub fn get_vdm_real_values_basic(&self, sfp: &Sfp) -> (r: Dict)
        ensures
            r@ == dict_read(sfp.vdm_real_value_basic),
    {
        read_dict(&sfp.vdm_real_value_basic)
    }

    /// The values that are read under a freeze; none where they cannot be read.
    pub fn get_vdm_real_values_statistic(&self, sfp: &Sfp) -> (r: Dict)
        ensures
            r@ == dict_read(sfp.vdm_real_value_statistic),
    {
        read_dict(&sfp.vdm_real_value_statistic)
    }

    /// The flags of every kind, each name ending in its kind.
    pub fn get_vdm_flags(&self, sfp: &Sfp) -> (r: Option<Reply>)
        ensures
            r.deep_view() == reading(sfp.vdm_flags),
    {
        copy_reading(&sfp.vdm_flags)
    }

    /// The thresholds of every kind, each name ending in its kind.
    pub fn get_vdm_thresholds(&self, sfp: &Sfp) -> (r: Option<Reply>)
        ensures
            r.deep_view() == reading(sfp.vdm_thresholds),
    {
        copy_reading(&sfp.vdm_thresholds)
    }

    /// What a handshake needs next, `elapsed` milliseconds after polling began.
    pub fn handshake_step(&self, h: &Handshake, elapsed: u64) -> (r: HandshakeStep)
        ensures
            r == next_step(*h, elapsed),
    {
        let n: usize = h.polls.len();
        if !is_yes(&h.action) {
            HandshakeStep::Done(false)
        } else if n > 0 && is_yes(&h.polls[n - 1].1) {
            HandshakeStep::Done(true)
        } else if elapsed >= MAX_VDM_FREEZE_UNFREEZE_TIME_MSECS {
            HandshakeStep::Done(false)
        } else {
            HandshakeStep::Poll
        }
    }

    fn action_and_confirm(&self, h: &Handshake) -> (r: bool)
        ensures
            r == confirmed(*h),
    {
        if !is_yes(&h.action) {
            return false;
        }
        let mut i: usize = 0;
        while i < h.polls.len() && h.polls[i].0 < MAX_VDM_FREEZE_UNFREEZE_TIME_MSECS
            invariant
                i <= h.polls.len(),
                polls_confirm(h.polls@, 0) == polls_confirm(h.polls@, i as int),
                yes(h.action),
            decreases h.polls.len() - i,
        {
            if is_yes(&h.polls[i].1) {
                return true;
            }
            i = i + 1;
        }
        false
    }

    /// Whether the module froze its statistics.
    pub fn freeze_and_confirm(&self, sfp: &Sfp) -> (r: bool)
        ensures
            r == confirmed(sfp.vdm_freeze),
    {
        self.action_and_confirm(&sfp.vdm_freeze)
    }

    /// Whether the module released its statistics.
    pub fn unfreeze_and_confirm(&self, sfp: &Sfp) -> (r: bool)
        ensures
            r == confirmed(sfp.vdm_unfreeze),
    {
        self.action_and_confirm(&sfp.vdm_unfreeze)
    }

    /// Runs `body` between freezing and releasing, and tells it whether the module
    /// froze; `body` gives back a result and what it asked of the module. The release
    /// is asked for in any case.
    pub fn with_vdm_freeze<T, F: FnOnce(bool) -> (T, Vec<VdmRequest>)>(
        &self,
        sfp: &Sfp,
        asked: &mut Vec<VdmRequest>,
        body: F,
    ) -> (r: T)
        requires
            body.requires((confirmed(sfp.vdm_freeze),)),
        ensures
            exists|under: Vec<VdmRequest>|
                {
                    &&& #[trigger] body.ensures((confirmed(sfp.vdm_freeze),), (r, under))
                    &&& final(asked)@ == old(asked)@ + seq![VdmRequest::Freeze] + under@ + seq![
                        VdmRequest::Release,
                    ]
                },
    {
        asked.push(VdmRequest::Freeze);
        let frozen = self.freeze_and_confirm(sfp);
        let (result, under) = body(frozen);
        let n: usize = under.len();
        let mut i: usize = 0;
        while i < n
            invariant
                i <= n,
                n == under.len(),
                asked@ == old(asked)@ + seq![VdmRequest::Freeze] + under@.take(i as int),
            decreases n - i,
        {
            asked.push(under[i]);
            i = i + 1;
            assert(under@.take(i as int) =~= under@.take(i - 1).push(under@[i - 1]));
        }
        let _ = self.unfreeze_and_confirm(sfp);
        asked.push(VdmRequest::Release);
        proof {
            assert(under@.take(n as int) =~= under@);
            assert(asked@ =~= old(asked)@ + seq![VdmRequest::Freeze] + under@ + seq![VdmRequest::Release]);
        }
        result
    }
}

/// The suffix of the names of one kind of thresholds.
pub open spec fn type_suffix(t: VdmType) -> Seq<char> {
    "_"@ + vdm_type_name(t)
}

/// The entries of one kind among the first `n` names, each under its name without
/// the suffix.
pub open spec fn typed_upto(keys: Seq<Seq<char>>, d: DictState, suffix: Seq<char>, n: int) -> DictState
    decreases n,
{
    if n <= 0 || n > keys.len() {
        Map::empty()
    } else {
        let before = typed_upto(keys, d, suffix, n - 1);
        let k = keys[n - 1];
        if holds_text(k, suffix) {
            before.insert(without(k, suffix), d[k])
        } else {
            before
        }
    }
}

/// The entries of one kind that were read, each under its name without the
/// suffix.
pub open spec fn typed(r: XResult<Reply>, t: VdmType) -> DictState {
    match r {
        Ok(Reply::Object(d)) => typed_upto(d.keys(), d@, type_suffix(t), d.keys().len() as int),
        _ => Map::empty(),
    }
}

/// The entries of one kind of `d`.
fn split_type(d: &Dict, t: VdmType) -> (r: Dict)
    ensures
        r@ == typed_upto(d.keys(), d@, type_suffix(t), d.keys().len() as int),
{
    let suffix = join("_", t.as_str());
    proof {
        reveal_strlit("_");
        assert(suffix@.len() > 0);
    }
    let n: usize = d.len();
    let mut out: Dict = OrdMap::new();
    let mut i: usize = 0;
    while i < n
        invariant
            i <= n,
            n == d.keys().len(),
            suffix@ == type_suffix(t),
            suffix@.len() > 0,
            out@ == typed_upto(d.keys(), d@, suffix@, i as int),
        decreases n - i,
    {
        let k = d.key_at(i);
        if contains(k.as_str(), suffix.as_str()) {
            out.insert(remove_all(k.as_str(), suffix.as_str()), d.value_at(i).duplicate());
        }
        i = i + 1;
    }
    out
}

/// The metadata of one kind of flags, where any were read.
pub open spec fn type_tracked(db: DbState, port: Seq<char>, d: DictState, ft: FlagTables, now: u64) -> DbState {
    if filled(d) {
        flags_tracked(db, port, d, utc_text(now), ft)
    } else {
        db
    }
}

/// The metadata of every kind of flags.
pub open spec fn types_tracked(db: DbState, port: Seq<char>, r: XResult<Reply>, tables: VdmFlagTables, now: u64) -> DbState {
    let db = type_tracked(
        db,
        port,
        typed(r, VdmType::Halarm),
        flag_tables_of(tables, VdmType::Halarm),
        now,
    );
    let db = type_tracked(
        db,
        port,
        typed(r, VdmType::Lalarm),
        flag_tables_of(tables, VdmType::Lalarm),
        now,
    );
    let db = type_tracked(
        db,
        port,
        typed(r, VdmType::Hwarn),
        flag_tables_of(tables, VdmType::Hwarn),
        now,
    );
    type_tracked(db, port, typed(r, VdmType::Lwarn), flag_tables_of(tables, VdmType::Lwarn), now)
}

/// One kind of values posted to its row, where any were read.
pub open spec fn type_posted(db: DbState, port: Seq<char>, d: DictState, t: TableId, now: u64) -> DbState {
    reading_posted(db, t, port, Some(ReplyState::Object(d)), Beautifier::Plain, now)
}

/// Every kind of values posted to its row.
pub open spec fn types_posted(db: DbState, port: Seq<char>, r: XResult<Reply>, tables: VdmTables, now: u64) -> DbState {
    let db = type_posted(db, port, typed(r, VdmType::Halarm), tables.halarm, now);
    let db = type_posted(db, port, typed(r, VdmType::Lalarm), tables.lalarm, now);
    let db = type_posted(db, port, typed(r, VdmType::Hwarn), tables.hwarn, now);
    type_posted(db, port, typed(r, VdmType::Lwarn), tables.lwarn, now)
}

/// Thresholds or flags of a module that was read, posted by kind; the metadata of
/// flags is brought up to date first.
pub open spec fn kinds_posted(
    db: DbState,
    stop: bool,
    m: Mapping,
    hal: &Hal,
    port: Seq<char>,
    flags: bool,
    value_tables: VdmTables,
    flag_tables: Option<VdmFlagTables>,
    now: u64,
) -> DbState {
    match readable_port(stop, m, hal, port) {
        Some(p) => if m.asic_of(port) is None {
            db
        } else {
            let r = if flags {
                hal.sfps@[p as int].vdm_flags
            } else {
                hal.sfps@[p as int].vdm_thresholds
            };
            let tracked_db = match flag_tables {
                Some(ft) => types_tracked(db, port, r, ft, now),
                None => db,
            };
            types_posted(tracked_db, port, r, value_tables, now)
        },
        None => db,
    }
}

/// Real values posted to the row of a port, where its module is there.
pub open spec fn real_values_posted(
    db: DbState,
    stop: bool,
    m: Mapping,
    hal: &Hal,
    port: Seq<char>,
    t: TableId,
    d: DictState,
    now: u64,
) -> DbState {
    if readable_port(stop, m, hal, port) is None || m.asic_of(port) is None {
        db
    } else {
        type_posted(db, port, d, t, now)
    }
}

/// The thresholds of a port's module posted by kind.
pub open spec fn vdm_thresholds_posted(
    db: DbState,
    stop: bool,
    m: Mapping,
    hal: &Hal,
    port: Seq<char>,
    tables: VdmThresholdTables,
    now: u64,
) -> DbState {
    kinds_posted(db, stop, m, hal, port, false, tables.thresholds, None, now)
}

/// The flags of a port's module posted by kind, after their metadata.
pub open spec fn vdm_flags_posted(
    db: DbState,
    stop: bool,
    m: Mapping,
    hal: &Hal,
    port: Seq<char>,
    tables: VdmFlagTables,
    now: u64,
) -> DbState {
    kinds_posted(db, stop, m, hal, port, true, tables.flag, Some(tables), now)
}

/// Posts the versatile diagnostics of a module.
pub struct VdmDbUtils;

impl Default for VdmDbUtils {
    fn default() -> (r: Self)
        ensures
            r == VdmDbUtils,
    {
        VdmDbUtils
    }
}

impl VdmDbUtils {
    pub fn new() -> (r: Self)
        ensures
            r == VdmDbUtils,
    {
        VdmDbUtils
    }

    /// Posts merged real values, with one time.
    pub fn post_port_vdm_real_values_from_dict_to_db(
        &self,
        stop: bool,
        logical_port_name: &str,
        port_mapping: &PortMapping,
        db: &mut Db,
        table: TableId,
        hal: &Hal,
        vdm_real_values: Dict,
        now: u64,
    )
        ensures
            final(db)@ == real_values_posted(
                old(db)@,
                stop,
                port_mapping@,
                hal,
                logical_port_name@,
                table,
                vdm_real_values@,
                now,
            ),
    {
        let utils = DbUtils::new();
        if utils.validate_and_get_physical_port(stop, logical_port_name, port_mapping, hal).is_none() {
            return ;
        }
        if port_mapping.get_asic_id_for_logical_port(logical_port_name).is_none() {
            return ;
        }
        self.post_dict(db, table, logical_port_name, vdm_real_values, now);
    }

    /// Posts a dictionary to the row of a port, with the time.
    fn post_dict(&self, db: &mut Db, table: TableId, logical_port_name: &str, values: Dict, now: u64)
        ensures
            final(db)@ == type_posted(old(db)@, logical_port_name@, values@, table, now),
    {
        if values.is_empty() {
            return ;
        }
        let utils = DbUtils::new();
        let ghost all = values@;
        let mut d = values;
        utils.beautify_info_dict(&mut d);
        let mut row = dict_row(&d);
        proof {
            assert(row@ =~= shown(Beautifier::Plain, all));
        }
        row.insert("last_update_time".to_owned(), utils.get_current_time(now));
        db.set(table, logical_port_name, &row);
    }

    /// Posts the thresholds, each kind to its table.
    pub fn post_port_vdm_thresholds_to_db(
        &self,
        stop: bool,
        logical_port_name: &str,
        port_mapping: &PortMapping,
        db: &mut Db,
        hal: &Hal,
        tables: &VdmThresholdTables,
        now: u64,
    )
        ensures
            final(db)@ == vdm_thresholds_posted(
                old(db)@,
                stop,
                port_mapping@,
                hal,
                logical_port_name@,
                *tables,
                now,
            ),
    {
        self.post_thresholds_or_flags(
            stop,
            logical_port_name,
            port_mapping,
            db,
            hal,
            false,
            &tables.thresholds,
            None,
            now,
        );
    }

    /// Posts the flags, each kind to its table, after their metadata.
    pub fn post_port_vdm_flags_to_db(
        &self,
        stop: bool,
        logical_port_name: &str,
        port_mapping: &PortMapping,
        db: &mut Db,
        hal: &Hal,
        tables: &VdmFlagTables,
        now: u64,
    )
        ensures
            final(db)@ == vdm_flags_posted(
                old(db)@,
                stop,
                port_mapping@,
                hal,
                logical_port_name@,
                *tables,
                now,
            ),
    {
        self.post_thresholds_or_flags(
            stop,
            logical_port_name,
            port_mapping,
            db,
            hal,
            true,
            &tables.flag,
            Some(*tables),
            now,
        );
    }

    /// Brings the metadata of one kind of flags up to date, where any were read.
    fn track_type(
        &self,
        db: &mut Db,
        logical_port_name: &str,
        d: &Dict,
        tables: &VdmFlagTables,
        t: VdmType,
        update_time: &str,
    )
        ensures
            final(db)@ == if filled(d@) {
                flags_tracked(
                    old(db)@,
                    logical_port_name@,
                    d@,
                    update_time@,
                    flag_tables_of(*tables, t),
                )
            } else {
                old(db)@
            },
    {
        if !d.is_empty() {
            DbUtils::new().update_flag_metadata_tables(
                logical_port_name,
                d,
                update_time,
                db,
                tables.flag.table(t),
                tables.change_count.table(t),
                tables.set_time.table(t),
                tables.clear_time.table(t),
            );
        }
    }

    fn post_thresholds_or_flags(
        &self,
        stop: bool,
        logical_port_name: &str,
        port_mapping: &PortMapping,
        db: &mut Db,
        hal: &Hal,
        flags: bool,
        value_tables: &VdmTables,
        flag_tables: Option<VdmFlagTables>,
        now: u64,
    )
        ensures
            final(db)@ == kinds_posted(
                old(db)@,
                stop,
                port_mapping@,
                hal,
                logical_port_name@,
                flags,
                *value_tables,
                flag_tables,
                now,
            ),
    {
        let utils = DbUtils::new();
        let physical_port: usize = match utils.validate_and_get_physical_port(
            stop,
            logical_port_name,
            port_mapping,
            hal,
        ) {
            Some(p) => p,
            None => {
                return ;
            },
        };
        if port_mapping.get_asic_id_for_logical_port(logical_port_name).is_none() {
            return ;
        }
        let sfp = &hal.sfps[physical_port];
        let read = if flags {
            &sfp.vdm_flags
        } else {
            &sfp.vdm_thresholds
        };
        let vdm_values = match read {
            Ok(Reply::Object(d)) => d,
            _ => {
                proof {
                    assert(!filled(Map::empty()));
                }
                return ;
            },
        };
        let update_time = utils.get_current_time(now);
        let halarm = split_type(vdm_values, VdmType::Halarm);
        let lalarm = split_type(vdm_values, VdmType::Lalarm);
        let hwarn = split_type(vdm_values, VdmType::Hwarn);
        let lwarn = split_type(vdm_values, VdmType::Lwarn);
        if let Some(ft) = flag_tables {
            self.track_type(db, logical_port_name, &halarm, &ft, VdmType::Halarm, update_time.as_str());
            self.track_type(db, logical_port_name, &lalarm, &ft, VdmType::Lalarm, update_time.as_str());
            self.track_type(db, logical_port_name, &hwarn, &ft, VdmType::Hwarn, update_time.as_str());
            self.track_type(db, logical_port_name, &lwarn, &ft, VdmType::Lwarn, update_time.as_str());
        }
        self.post_dict(db, value_tables.halarm, logical_port_name, halarm, now);
        self.post_dict(db, value_tables.lalarm, logical_port_name, lalarm, now);
        self.post_dict(db, value_tables.hwarn, logical_port_name, hwarn, now);
        self.post_dict(db, value_tables.lwarn, logical_port_name, lwarn, now);
    }
}

/// `j` is among the first `n` names, holds the suffix and is `k` without it.
pub open spec fn stripped_to(keys: Seq<Seq<char>>, suffix: Seq<char>, n: int, j: int, k: Seq<char>) -> bool {
    0 <= j < n && holds_text(keys[j], suffix) && without(keys[j], suffix) == k
}

/// The entries of one kind are those whose names hold its suffix, each under its
/// name without the suffix and with its value; where two names come to the same,
/// the later has it.
pub proof fn law_values_go_to_their_kind(keys: Seq<Seq<char>>, d: DictState, suffix: Seq<char>, n: int, k: Seq<char>)
    requires
        0 <= n <= keys.len(),
    ensures
        typed_upto(keys, d, suffix, n).contains_key(k) <==> exists|j: int|
            #[trigger] stripped_to(keys, suffix, n, j, k),
        forall|j: int|
            #[trigger] stripped_to(keys, suffix, n, j, k) && (forall|i: int|
                j < i < n ==> !stripped_to(keys, suffix, n, i, k)) ==> typed_upto(keys, d, suffix, n)[k]
                == d[keys[j]],
    decreases n,
{
    if n > 0 {
        law_values_go_to_their_kind(keys, d, suffix, n - 1, k);
        let last = keys[n - 1];
        let hit = holds_text(last, suffix) && without(last, suffix) == k;
        if typed_upto(keys, d, suffix, n).contains_key(k) {
            if hit {
                assert(stripped_to(keys, suffix, n, n - 1, k));
            } else {
                let j = choose|j: int| #[trigger] stripped_to(keys, suffix, n - 1, j, k);
                assert(stripped_to(keys, suffix, n, j, k));
            }
        }
        assert forall|j: int| #[trigger] stripped_to(keys, suffix, n, j, k) implies typed_upto(
            keys,
            d,
            suffix,
            n,
        ).contains_key(k) by {
            if j < n - 1 {
                assert(stripped_to(keys, suffix, n - 1, j, k));
            }
        }
        assert forall|j: int|
            #[trigger] stripped_to(keys, suffix, n, j, k) && (forall|i: int|
                j < i < n ==> !stripped_to(keys, suffix, n, i, k)) implies typed_upto(keys, d, suffix, n)[k]
            == d[keys[j]] by {
            if j < n - 1 {
                assert(!stripped_to(keys, suffix, n, n - 1, k));
                assert(stripped_to(keys, suffix, n - 1, j, k));
                assert forall|i: int| j < i < n - 1 implies !#[trigger] stripped_to(
                    keys,
                    suffix,
                    n - 1,
                    i,
                    k,
                ) by {
                    assert(!stripped_to(keys, suffix, n, i, k));
                }
            }
        }
    }
}

} // verus!
