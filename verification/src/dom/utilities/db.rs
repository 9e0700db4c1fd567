//! Posting a module's diagnostics to a state table.

use vstd::prelude::*;
use vstd::string::*;
use crate::clock::{format_utc, utc_text};
use crate::db::{with_set, Db, DbState, Fields, Row, TableId};
use crate::dom::utilities::dom_sensor::{monitor_text, show_monitor, temperature_reading, DomUtils};
use crate::dom::utilities::flags::{flags_tracked, FlagTables};
use crate::dom::utilities::status::StatusUtils;
use crate::error::XResult;
use crate::hal::{present, reading, Hal, Sfp};
use crate::ord_map::{among, lemma_among_all, lemma_among_step, Duplicate, IdxMap, OrdMap};
use crate::text::{strip_suffix, suffix_cut};
use crate::value::{bool_text, render, rendered, Dict, DictState, Reply, ReplyState, Val, Value};
use crate::xcvrd_utilities::port_event_helper::{Mapping, PortMapping};

verus! {

/// The text of a value.
pub open spec fn py_str(v: Val) -> Seq<char> {
    match v {
        Val::Text(s) => s,
        Val::Bool(b) => bool_text(b),
        Val::Number(s) => s,
        Val::Null => "None"@,
        Val::Json(s) => rendered(s),
    }
}

/// The text of a value.
pub fn value_to_py_str(v: &Value) -> (r: String)
    ensures
        r@ == py_str(v@),
{
    match v {
        Value::String(s) => s.clone(),
        Value::Bool(b) => if *b {
            "True".to_owned()
        } else {
            "False".to_owned()
        },
        Value::Number(s) => s.clone(),
        Value::Null => "None".to_owned(),
        Value::Json(s) => render(s),
    }
}

/// The text of a value without the unit that a string value ends with.
pub open spec fn unit_stripped(v: Val, unit: Seq<char>) -> Seq<char> {
    match v {
        Val::Text(s) => match suffix_cut(s, unit) {
            Some(t) => t,
            None => s,
        },
        _ => py_str(v),
    }
}

/// The text of a value without the unit that a string value ends with.
pub fn strip_unit(v: &Value, unit: &str) -> (r: String)
    ensures
        r@ == unit_stripped(v@, unit@),
{
    if let Value::String(s) = v {
        if let Some(t) = strip_suffix(s.as_str(), unit) {
            return t;
        }
    }
    value_to_py_str(v)
}

/// How the values of a dictionary are shown.
#[derive(Debug, Clone, Copy, PartialEq, Eq, Structural)]
pub enum Beautifier {
    /// Each value by its text.
    Plain,
    /// As plain, but monitor values without their unit.
    Dom,
}

/// What is read of a module and posted.
#[derive(Debug, Clone, Copy, PartialEq, Eq, Structural)]
pub enum Diagnostic {
    DomSensor,
    DomTemperature,
    DomThresholds,
    DomFlags,
    Status,
    StatusFlags,
}

/// What a module reports of a diagnostic; nothing where the read failed.
pub open spec fn diagnosed(s: Sfp, what: Diagnostic) -> Option<ReplyState> {
    match what {
        Diagnostic::DomSensor => reading(s.dom_real_value),
        Diagnostic::DomTemperature => temperature_reading(s),
        Diagnostic::DomThresholds => reading(s.threshold_info),
        Diagnostic::DomFlags => reading(s.dom_flags),
        Diagnostic::Status => reading(s.status),
        Diagnostic::StatusFlags => reading(s.status_flags),
    }
}

/// Reads a diagnostic of a module.
fn read_diagnostic(s: &Sfp, what: Diagnostic) -> (r: Option<Reply>)
    ensures
        r.deep_view() == diagnosed(*s, what),
{
    match what {
        Diagnostic::DomSensor => DomUtils::new().get_transceiver_dom_sensor_real_value(s),
        Diagnostic::DomTemperature => DomUtils::new().get_transceiver_dom_temperature(s),
        Diagnostic::DomThresholds => DomUtils::new().get_transceiver_dom_thresholds(s),
        Diagnostic::DomFlags => DomUtils::new().get_transceiver_dom_flags(s),
        Diagnostic::Status => StatusUtils::new().get_transceiver_status(s),
        Diagnostic::StatusFlags => StatusUtils::new().get_transceiver_status_flags(s),
    }
}

/// A copy of a reading; nothing where it failed.
pub fn copy_reading(r: &XResult<Reply>) -> (o: Option<Reply>)
    ensures
        o.deep_view() == reading(*r),
{
    match r {
        Ok(v) => Some(v.duplicate()),
        Err(_) => None,
    }
}

/// The text of one entry as it is shown.
pub open spec fn shown_text(kind: Beautifier, k: Seq<char>, v: Val) -> Seq<char> {
    match kind {
        Beautifier::Plain => py_str(v),
        Beautifier::Dom => monitor_text(k, v),
    }
}

/// The fields that a dictionary is shown by.
pub open spec fn shown(kind: Beautifier, d: DictState) -> Fields {
    Map::new(|k: Seq<char>| d.contains_key(k), |k: Seq<char>| shown_text(kind, k, d[k]))
}

/// A dictionary with each value replaced by the text that shows it.
pub open spec fn beautified(kind: Beautifier, d: DictState) -> DictState {
    Map::new(|k: Seq<char>| d.contains_key(k), |k: Seq<char>| Val::Text(shown_text(kind, k, d[k])))
}

/// The text of one entry as it is shown.
fn show(kind: Beautifier, k: &str, v: &Value) -> (r: String)
    ensures
        r@ == shown_text(kind, k@, v@),
{
    match kind {
        Beautifier::Plain => value_to_py_str(v),
        Beautifier::Dom => show_monitor(k, v),
    }
}

/// Replaces each value by the text that shows it.
pub fn beautify(kind: Beautifier, d: &mut Dict)
    ensures
        final(d)@ == beautified(kind, old(d)@),
{
    let mut out: Dict = OrdMap::new();
    d.recall_order();
    let n: usize = d.len();
    let mut i: usize = 0;
    let ghost keys = d.keys();
    let ghost all = d@;
    while i < n
        invariant
            i <= n,
            n == keys.len(),
            keys == d.keys(),
            all == d@,
            forall|j: int| 0 <= j < n ==> all.contains_key(#[trigger] keys[j]),
            forall|k: Seq<char>| #[trigger] out@.contains_key(k) <==> among(keys, i as int, k),
            forall|k: Seq<char>| #[trigger]
                out@.contains_key(k) ==> out@[k] == Val::Text(shown_text(kind, k, all[k])),
        decreases n - i,
    {
        let k = d.key_at(i);
        let v = d.value_at(i);
        let text = show(kind, k.as_str(), v);
        out.insert(k.clone(), Value::String(text));
        proof {
            lemma_among_step(keys, i as int);
        }
        i = i + 1;
    }
    proof {
        lemma_among_all(keys, all.dom());
        assert(out@ =~= beautified(kind, all));
    }
    *d = out;
}

/// The fields with the texts of a dictionary's values.
pub fn dict_row(d: &Dict) -> (r: Row)
    ensures
        r@ == shown(Beautifier::Plain, d@),
{
    let mut out: Row = OrdMap::new();
    d.recall_order();
    let n: usize = d.len();
    let mut i: usize = 0;
    let ghost keys = d.keys();
    while i < n
        invariant
            i <= n,
            n == keys.len(),
            keys == d.keys(),
            forall|j: int| 0 <= j < n ==> d@.contains_key(#[trigger] keys[j]),
            forall|k: Seq<char>| #[trigger] out@.contains_key(k) <==> among(keys, i as int, k),
            forall|k: Seq<char>| #[trigger] out@.contains_key(k) ==> out@[k] == py_str(d@[k]),
        decreases n - i,
    {
        let k = d.key_at(i);
        let text = value_to_py_str(d.value_at(i));
        out.insert(k.clone(), text);
        proof {
            lemma_among_step(keys, i as int);
        }
        i = i + 1;
    }
    proof {
        lemma_among_all(keys, d@.dom());
        assert(out@ =~= shown(Beautifier::Plain, d@));
    }
    out
}

/// What was read per physical port in one pass.
pub type DbCache = IdxMap<Option<Reply>>;

/// What a [`DbCache`] holds.
pub type CacheState = Map<usize, Option<ReplyState>>;

/// The physical port whose module is to be read: none while stopping, where the
/// port is not mapped, or where the module is not there.
pub open spec fn readable_port(stop: bool, m: Mapping, hal: &Hal, port: Seq<char>) -> Option<usize> {
    if stop {
        None
    } else {
        match m.first_physical(port) {
            Some(p) => if present(hal, p) {
                Some(p)
            } else {
                None
            },
            None => None,
        }
    }
}

/// What was read before in this pass, else what is read now.
pub open spec fn cached_or(cache: CacheState, p: usize, now: Option<ReplyState>) -> Option<ReplyState> {
    if cache.contains_key(p) {
        cache[p]
    } else {
        now
    }
}

/// The fields of a diagnostic row: the values as shown, and the time.
pub open spec fn stamped(kind: Beautifier, d: DictState, now: u64) -> Fields {
    shown(kind, d).insert("last_update_time"@, utc_text(now))
}

/// A dictionary that holds anything.
pub open spec fn filled(d: DictState) -> bool {
    d.dom() != Set::<Seq<char>>::empty()
}

/// A reading posted to the row of a port, where it is a dictionary that holds
/// anything.
pub open spec fn reading_posted(
    db: DbState,
    t: TableId,
    port: Seq<char>,
    read: Option<ReplyState>,
    kind: Beautifier,
    now: u64,
) -> DbState {
    match read {
        Some(ReplyState::Object(d)) => if filled(d) {
            with_set(db, t, port, stamped(kind, d, now))
        } else {
            db
        },
        _ => db,
    }
}

/// A diagnostic of a port's module posted to its row.
pub open spec fn diagnostic_posted(
    db: DbState,
    cache: CacheState,
    stop: bool,
    m: Mapping,
    hal: &Hal,
    port: Seq<char>,
    t: TableId,
    what: Diagnostic,
    kind: Beautifier,
    now: u64,
) -> DbState {
    match readable_port(stop, m, hal, port) {
        Some(p) => reading_posted(
            db,
            t,
            port,
            cached_or(cache, p, diagnosed(hal.sfps@[p as int], what)),
            kind,
            now,
        ),
        None => db,
    }
}

/// The cache after a diagnostic was posted: what was read now joins it.
pub open spec fn cache_after(
    cache: CacheState,
    stop: bool,
    m: Mapping,
    hal: &Hal,
    port: Seq<char>,
    what: Diagnostic,
) -> CacheState {
    match readable_port(stop, m, hal, port) {
        Some(p) => if cache.contains_key(p) {
            cache
        } else {
            cache.insert(p, diagnosed(hal.sfps@[p as int], what))
        },
        None => cache,
    }
}

/// The flags of a port's module posted to its row, after their metadata. Flags
/// that were read before in this pass leave the metadata alone.
pub open spec fn flags_posted(
    db: DbState,
    cache: CacheState,
    stop: bool,
    m: Mapping,
    hal: &Hal,
    port: Seq<char>,
    what: Diagnostic,
    kind: Beautifier,
    ft: FlagTables,
    now: u64,
) -> DbState {
    match readable_port(stop, m, hal, port) {
        Some(p) => if cache.contains_key(p) {
            reading_posted(db, ft.value, port, cache[p], kind, now)
        } else {
            match diagnosed(hal.sfps@[p as int], what) {
                Some(ReplyState::Object(d)) => if filled(d) {
                    with_set(
                        flags_tracked(db, port, d, utc_text(now), ft),
                        ft.value,
                        port,
                        stamped(kind, d, now),
                    )
                } else {
                    db
                },
                _ => db,
            }
        },
        None => db,
    }
}

/// The cache after flags were posted: what was read now joins it, but not a read
/// that failed.
pub open spec fn flag_cache_after(
    cache: CacheState,
    stop: bool,
    m: Mapping,
    hal: &Hal,
    port: Seq<char>,
    what: Diagnostic,
) -> CacheState {
    match readable_port(stop, m, hal, port) {
        Some(p) => if cache.contains_key(p) || diagnosed(hal.sfps@[p as int], what) is None {
            cache
        } else {
            cache.insert(p, diagnosed(hal.sfps@[p as int], what))
        },
        None => cache,
    }
}

/// Posts diagnostics and keeps the metadata of flags.
pub struct DbUtils;

impl Default for DbUtils {
    fn default() -> (r: Self)
        ensures
            r == DbUtils,
    {
        DbUtils
    }
}

impl DbUtils {
    pub const NEVER: &'static str = "never";

    pub const NOT_AVAILABLE: &'static str = "N/A";

    pub fn new() -> (r: Self)
        ensures
            r == DbUtils,
    {
        DbUtils
    }

    /// Posts a diagnostic of a port's module to its row, with the time.
    pub fn post_diagnostic_values_to_db(
        &self,
        stop: bool,
        logical_port_name: &str,
        port_mapping: &PortMapping,
        db: &mut Db,
        table: TableId,
        hal: &Hal,
        what: Diagnostic,
        db_cache: &mut DbCache,
        kind: Beautifier,
        now: u64,
    )
        ensures
            final(db)@ == diagnostic_posted(
                old(db)@,
                old(db_cache)@,
                stop,
                port_mapping@,
                hal,
                logical_port_name@,
                table,
                what,
                kind,
                now,
            ),
            final(db_cache)@ == cache_after(
                old(db_cache)@,
                stop,
                port_mapping@,
                hal,
                logical_port_name@,
                what,
            ),
    {
        let physical_port: usize = match self.validate_and_get_physical_port(
            stop,
            logical_port_name,
            port_mapping,
            hal,
        ) {
            Some(p) => p,
            None => {
                return ;
            },
        };
        let read: Option<Reply> = match db_cache.get(&physical_port) {
            Some(cached) => cached.duplicate(),
            None => {
                let read = read_diagnostic(&hal.sfps[physical_port], what);
                db_cache.insert(physical_port, read.duplicate());
                read
            },
        };
        self.post_reading(db, table, logical_port_name, read, kind, now);
    }

    /// Posts a reading to the row of a port, with the time.
    fn post_reading(
        &self,
        db: &mut Db,
        table: TableId,
        logical_port_name: &str,
        read: Option<Reply>,
        kind: Beautifier,
        now: u64,
    )
        ensures
            final(db)@ == reading_posted(
                old(db)@,
                table,
                logical_port_name@,
                read.deep_view(),
                kind,
                now,
            ),
    {
        if let Some(Reply::Object(mut d)) = read {
            let ghost all = d@;
            if !d.is_empty() {
                beautify(kind, &mut d);
                let mut row = dict_row(&d);
                proof {
                    assert(row@ =~= shown(kind, all));
                }
                row.insert("last_update_time".to_owned(), self.get_current_time(now));
                db.set(table, logical_port_name, &row);
            }
        }
    }

    /// The physical port whose module is to be read.
    pub fn validate_and_get_physical_port(
        &self,
        stop: bool,
        logical_port_name: &str,
        port_mapping: &PortMapping,
        hal: &Hal,
    ) -> (r: Option<usize>)
        ensures
            r == readable_port(stop, port_mapping@, hal, logical_port_name@),
            r matches Some(p) ==> p < hal.sfps@.len(),
    {
        if stop {
            return None;
        }
        match port_mapping.physical_port(logical_port_name) {
            Some(p) => if hal.is_present(p) {
                Some(p)
            } else {
                None
            },
            None => None,
        }
    }

    /// Replaces each value by its text.
    pub fn beautify_info_dict(&self, info_dict: &mut Dict)
        ensures
            final(info_dict)@ == beautified(Beautifier::Plain, old(info_dict)@),
    {
        beautify(Beautifier::Plain, info_dict);
    }

    /// The text of the point `now` seconds after the start of 1970.
    pub fn get_current_time(&self, now: u64) -> (r: String)
        ensures
            r@ == utc_text(now),
    {
        format_utc(now)
    }

    /// Posts the flags of a port's module to its row, with the time. Where they
    /// were read now, their metadata is brought up to date first, against the row
    /// as it was.
    pub fn post_flags_to_db(
        &self,
        stop: bool,
        logical_port_name: &str,
        port_mapping: &PortMapping,
        db: &mut Db,
        hal: &Hal,
        flag_value_table: TableId,
        flag_change_count_table: TableId,
        flag_last_set_time_table: TableId,
        flag_last_clear_time_table: TableId,
        what: Diagnostic,
        kind: Beautifier,
        db_cache: &mut DbCache,
        now: u64,
    )
        ensures
            final(db)@ == flags_posted(
                old(db)@,
                old(db_cache)@,
                stop,
                port_mapping@,
                hal,
                logical_port_name@,
                what,
                kind,
                (FlagTables {
                    value: flag_value_table,
                    change_count: flag_change_count_table,
                    set_time: flag_last_set_time_table,
                    clear_time: flag_last_clear_time_table,
                }),
                now,
            ),
            final(db_cache)@ == flag_cache_after(
                old(db_cache)@,
                stop,
                port_mapping@,
                hal,
                logical_port_name@,
                what,
            ),
    {
        let physical_port: usize = match self.validate_and_get_physical_port(
            stop,
            logical_port_name,
            port_mapping,
            hal,
        ) {
            Some(p) => p,
            None => {
                return ;
            },
        };
        let read: Option<Reply> = match db_cache.get(&physical_port) {
            Some(cached) => cached.duplicate(),
            None => {
                let read = read_diagnostic(&hal.sfps[physical_port], what);
                match &read {
                    None => {
                        return ;
                    },
                    Some(Reply::Object(d)) => {
                        if !d.is_empty() {
                            let update_time = self.get_current_time(now);
                            self.update_flag_metadata_tables(
                                logical_port_name,
                                d,
                                update_time.as_str(),
                                db,
                                flag_value_table,
                                flag_change_count_table,
                                flag_last_set_time_table,
                                flag_last_clear_time_table,
                            );
                        }
                    },
                    Some(Reply::Scalar(_)) => {},
                }
                db_cache.insert(physical_port, read.duplicate());
                read
            },
        };
        self.post_reading(db, flag_value_table, logical_port_name, read, kind, now);
    }
}

} // verus!
