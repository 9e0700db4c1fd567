//! What is read of a module, and where it is published.

use vstd::prelude::*;
use vstd::string::*;
use crate::clock::utc_text;
use crate::db::{field_at, DbState, TableId};
use crate::dom::history_laws::{history_kept, law_flag_history_is_kept};
use crate::dom::isolation::same_row;
use crate::dom::monitor_laws::plugged;
use crate::dom::utilities::db::{cache_after, flag_cache_after, shown_text, Beautifier, CacheState, Diagnostic};
use crate::dom::utilities::dom_sensor::{
    monitor_text, monitors_cache, monitors_posted, port_flags_cache, port_flags_posted,
};
use crate::dom::utilities::flags::FlagTables;
use crate::error::XcvrdError;
use crate::hal::{dict_read, reading, yes, Hal, Sfp};
use crate::value::{Dict, DictState, Reply, ReplyState, Val, Value};
use crate::xcvrd_utilities::port_event_helper::Mapping;

verus! {

/// The module tells `d` when it is asked for a diagnostic.
pub open spec fn told(s: Sfp, what: Diagnostic, d: Dict) -> bool {
    let answer = Ok::<Reply, XcvrdError>(Reply::Object(d));
    match what {
        Diagnostic::DomSensor => s.dom_real_value == answer,
        Diagnostic::DomTemperature => false,
        Diagnostic::DomThresholds => s.threshold_info == answer,
        Diagnostic::DomFlags => s.dom_flags == answer,
        Diagnostic::Status => s.status == answer,
        Diagnostic::StatusFlags => s.status_flags == answer,
    }
}

/// What is read of a module is what it tells; an answer that is no dictionary counts as
/// an empty one where one is wanted, and only a true boolean as a yes.
pub proof fn law_readings_are_the_answers(d: Dict, v: Value, e: XcvrdError)
    ensures
        reading(Ok(Reply::Object(d))) == Some(ReplyState::Object(d@)),
        reading(Ok(Reply::Scalar(v))) == Some(ReplyState::Scalar(v@)),
        reading(Err(e)) is None,
        dict_read(Ok(Reply::Object(d))) == d@,
        dict_read(Ok(Reply::Scalar(v))) == DictState::empty(),
        dict_read(Err(e)) == DictState::empty(),
        yes(Ok(v)) == (v@ == Val::Bool(true)),
        !yes(Err(e)),
{
}

/// Every entry of a diagnostic that was not read yet in the pass is published in the row
/// of the port, as it is shown, with the time; it is kept for the other ports of the slot.
pub proof fn law_diagnostics_are_published(
    db: DbState,
    cache: CacheState,
    m: Mapping,
    hal: &Hal,
    port: Seq<char>,
    p: usize,
    t: TableId,
    what: Diagnostic,
    kind: Beautifier,
    now: u64,
    d: Dict,
    k: Seq<char>,
)
    requires
        plugged(m, hal, port, p),
        !cache.contains_key(p),
        told(hal.sfps@[p as int], what, d),
        d@.contains_key(k),
    ensures
        ({
            let after = monitors_posted(db, cache, false, m, hal, port, t, what, kind, now);
            let kept = cache_after(cache, false, m, hal, port, what);
            &&& k != "last_update_time"@ ==> field_at(after, t, port, k) == Some(shown_text(kind, k, d@[k]))
            &&& field_at(after, t, port, "last_update_time"@) == Some(utc_text(now))
            &&& kept.contains_key(p) && kept[p] == Some(ReplyState::Object(d@))
        }),
{
    assert(d@.dom().contains(k));
}

/// The temperature of a module is published without its unit, with the time.
pub proof fn law_temperature_is_published(
    db: DbState,
    cache: CacheState,
    m: Mapping,
    hal: &Hal,
    port: Seq<char>,
    p: usize,
    t: TableId,
    now: u64,
    v: Value,
)
    requires
        plugged(m, hal, port, p),
        !cache.contains_key(p),
        hal.sfps@[p as int].temperature == Ok::<Value, XcvrdError>(v),
    ensures
        ({
            let after = monitors_posted(
                db,
                cache,
                false,
                m,
                hal,
                port,
                t,
                Diagnostic::DomTemperature,
                Beautifier::Dom,
                now,
            );
            &&& field_at(after, t, port, "temperature"@) == Some(monitor_text("temperature"@, v@))
            &&& field_at(after, t, port, "last_update_time"@) == Some(utc_text(now))
        }),
{
    let d = Map::<Seq<char>, Val>::empty().insert("temperature"@, v@);
    assert(d.dom().contains("temperature"@));
    reveal_strlit("temperature");
    reveal_strlit("last_update_time");
    assert("temperature"@.len() == 11 && "last_update_time"@.len() == 16);
}

/// Every flag that was not read yet in the pass is published in the row of the port, as
/// it is shown, with the time; its history is kept, and the reading is kept for the other
/// ports of the slot.
pub proof fn law_flags_are_published(
    db: DbState,
    cache: CacheState,
    m: Mapping,
    hal: &Hal,
    port: Seq<char>,
    p: usize,
    what: Diagnostic,
    kind: Beautifier,
    ft: FlagTables,
    now: u64,
    d: Dict,
    k: Seq<char>,
    count: int,
)
    requires
        plugged(m, hal, port, p),
        !cache.contains_key(p),
        told(hal.sfps@[p as int], what, d),
        d@.contains_key(k),
        ft.distinct(),
    ensures
        ({
            let after = port_flags_posted(db, cache, false, m, hal, port, what, kind, ft, now);
            let kept = flag_cache_after(cache, false, m, hal, port, what);
            &&& k != "last_update_time"@ ==> field_at(after, ft.value, port, k) == Some(shown_text(kind, k, d@[k]))
            &&& field_at(after, ft.value, port, "last_update_time"@) == Some(utc_text(now))
            &&& history_kept(db, after, ft, port, k, d@[k], count, utc_text(now))
            &&& kept.contains_key(p) && kept[p] == Some(ReplyState::Object(d@))
        }),
{
    assert(d@.dom().contains(k));
    law_flag_history_is_kept(db, port, d@, utc_text(now), ft, k, count);
}

/// What another port of the slot has told already is published again for this one: the
/// values, but not the history of flags.
pub proof fn law_kept_readings_are_published(
    db: DbState,
    cache: CacheState,
    m: Mapping,
    hal: &Hal,
    port: Seq<char>,
    p: usize,
    t: TableId,
    what: Diagnostic,
    kind: Beautifier,
    ft: FlagTables,
    now: u64,
    d: DictState,
    k: Seq<char>,
    other: TableId,
)
    requires
        plugged(m, hal, port, p),
        cache.contains_key(p),
        cache[p] == Some(ReplyState::Object(d)),
        d.contains_key(k),
        k != "last_update_time"@,
        other != ft.value,
    ensures
        field_at(monitors_posted(db, cache, false, m, hal, port, t, what, kind, now), t, port, k) == Some(
            shown_text(kind, k, d[k]),
        ),
        field_at(port_flags_posted(db, cache, false, m, hal, port, what, kind, ft, now), ft.value, port, k) == Some(
            shown_text(kind, k, d[k]),
        ),
        same_row(db, port_flags_posted(db, cache, false, m, hal, port, what, kind, ft, now), other, port),
        cache_after(cache, false, m, hal, port, what) == cache,
        flag_cache_after(cache, false, m, hal, port, what) == cache,
{
    assert(d.dom().contains(k));
}

/// A reading that fails changes no row. That it failed is kept for the other ports of the
/// slot, but not of flags, which are asked for again.
pub proof fn law_failed_readings_change_nothing(
    db: DbState,
    cache: CacheState,
    m: Mapping,
    hal: &Hal,
    port: Seq<char>,
    p: usize,
    t: TableId,
    what: Diagnostic,
    kind: Beautifier,
    ft: FlagTables,
    now: u64,
    e: XcvrdError,
)
    requires
        plugged(m, hal, port, p),
        !cache.contains_key(p),
        ({
            let s = hal.sfps@[p as int];
            let failed = Err::<Reply, XcvrdError>(e);
            match what {
                Diagnostic::DomSensor => s.dom_real_value == failed,
                Diagnostic::DomTemperature => s.temperature == Err::<Value, XcvrdError>(e),
                Diagnostic::DomThresholds => s.threshold_info == failed,
                Diagnostic::DomFlags => s.dom_flags == failed,
                Diagnostic::Status => s.status == failed,
                Diagnostic::StatusFlags => s.status_flags == failed,
            }
        }),
    ensures
        monitors_posted(db, cache, false, m, hal, port, t, what, kind, now) == db,
        port_flags_posted(db, cache, false, m, hal, port, what, kind, ft, now) == db,
        cache_after(cache, false, m, hal, port, what).contains_key(p),
        cache_after(cache, false, m, hal, port, what)[p] is None,
        flag_cache_after(cache, false, m, hal, port, what) == cache,
{
}

/// Nothing but what the module tells is published: every other field of the row but the
/// time, and every other row, stays.
pub proof fn law_nothing_else_is_published(
    db: DbState,
    cache: CacheState,
    m: Mapping,
    hal: &Hal,
    port: Seq<char>,
    p: usize,
    t: TableId,
    what: Diagnostic,
    kind: Beautifier,
    ft: FlagTables,
    now: u64,
    d: Dict,
    k: Seq<char>,
    other: TableId,
    key: Seq<char>,
)
    requires
        plugged(m, hal, port, p),
        !cache.contains_key(p),
        told(hal.sfps@[p as int], what, d),
        !d@.contains_key(k),
        k != "last_update_time"@,
        ft.distinct(),
    ensures
        ({
            let after = monitors_posted(db, cache, false, m, hal, port, t, what, kind, now);
            let flagged = port_flags_posted(db, cache, false, m, hal, port, what, kind, ft, now);
            &&& field_at(after, t, port, k) == field_at(db, t, port, k)
            &&& other != t || key != port ==> same_row(db, after, other, key)
            &&& field_at(flagged, ft.value, port, k) == field_at(db, ft.value, port, k)
            &&& field_at(flagged, ft.change_count, port, k) == field_at(db, ft.change_count, port, k)
            &&& field_at(flagged, ft.set_time, port, k) == field_at(db, ft.set_time, port, k)
            &&& field_at(flagged, ft.clear_time, port, k) == field_at(db, ft.clear_time, port, k)
            &&& key != port || (other != ft.value && other != ft.change_count && other != ft.set_time && other
                != ft.clear_time) ==> same_row(db, flagged, other, key)
        }),
{
}

/// What a module tells is kept for the other ports of its slot, and nothing else is; what
/// is kept is not replaced.
pub proof fn law_readings_are_kept(
    cache: CacheState,
    m: Mapping,
    hal: &Hal,
    port: Seq<char>,
    p: usize,
    what: Diagnostic,
    d: Dict,
    q: usize,
)
    requires
        plugged(m, hal, port, p),
        told(hal.sfps@[p as int], what, d),
        q != p,
    ensures
        ({
            let monitors = monitors_cache(cache, false, m, hal, port, what);
            let flags = port_flags_cache(cache, false, m, hal, port, what);
            &&& monitors.contains_key(p) && flags.contains_key(p)
            &&& !cache.contains_key(p) ==> monitors[p] == Some(ReplyState::Object(d@)) && flags[p] == Some(
                ReplyState::Object(d@),
            )
            &&& cache.contains_key(p) ==> monitors == cache && flags == cache
            &&& monitors.contains_key(q) == cache.contains_key(q) && flags.contains_key(q) == cache.contains_key(q)
            &&& cache.contains_key(q) ==> monitors[q] == cache[q] && flags[q] == cache[q]
            &&& monitors_cache(cache, true, m, hal, port, what) == cache
            &&& port_flags_cache(cache, true, m, hal, port, what) == cache
        }),
{
}

} // verus!
