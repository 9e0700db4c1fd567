//! What is published of every port at the start, and what is made up for later.

use vstd::prelude::*;
use vstd::string::*;
use crate::db::{field_at, DbState, TableId};
use crate::dom::isolation::same_row;
use crate::dom::monitor_laws::plugged;
use crate::dom::utilities::db::{diagnosed, py_str, Beautifier, CacheState, Diagnostic};
use crate::dom::utilities::dom_sensor::{monitor_text, monitors_posted};
use crate::dom::utilities::vdm::VdmThresholdTables;
use crate::dom::vdm_laws::{law_thresholds_go_to_the_table_of_their_kind, marks, names_entry, tables_by_kind};
use crate::error::XcvrdError;
use crate::hal::{reading, Hal};
use crate::text::{dec, dec_int, lemma_parse_dec};
use crate::value::{Dict, DictState, Reply, ReplyState};
use crate::xcvrd::sfp_state_update::{
    error_text, states_projected, statuses_seeded, vendor_text, SfpSetup, Slots, StateTables,
};
use crate::xcvrd::slot_laws::{
    identifies, lemma_inserted, lemma_names_differ, lemma_same_chain, lemma_thresholds_published, port_same,
    shows_inserted, tables_apart, unreadable,
};
use crate::xcvrd::{identity_fields, identity_posted};
use crate::xcvrd_utilities::common::with_status;
use crate::xcvrd_utilities::port_event_helper::{physical_of, EventState, Mapping};

verus! {

/// Whether a module is in the slot of a port.
pub open spec fn there(m: Mapping, hal: &Hal, port: Seq<char>) -> bool {
    &&& physical_of(m, port) is Some
    &&& physical_of(m, port)->0 < hal.sfps@.len()
    &&& hal.sfps@[physical_of(m, port)->0 as int].presence == Ok::<bool, XcvrdError>(true)
}

/// At the start the identity of every mapped port is published whose module can be read,
/// and the ports whose module is there and cannot be read are to be read again.
pub proof fn law_start_publishes_the_identities(
    setup: &SfpSetup,
    db: DbState,
    m: Mapping,
    hal: &Hal,
    t: TableId,
    i: int,
    n: int,
    p: usize,
    d: DictState,
    name: Seq<char>,
)
    requires
        m.logical.no_duplicates(),
        0 <= i < n <= m.logical.len(),
        m.to_asic.contains_key(m.logical[i]),
        physical_of(m, m.logical[i]) == Some(p),
    ensures
        ({
            let port = m.logical[i];
            let (after, again) = setup.identities_posted(db, m, hal, t, n);
            let f = identity_fields(d, hal.sfps@[p as int].replaceable == Ok::<bool, XcvrdError>(true));
            &&& identifies(hal, p, d) && f.contains_key(name) ==> field_at(after, t, port, name) == Some(f[name])
            &&& identifies(hal, p, d) ==> !again.contains(port)
            &&& unreadable(hal, p) ==> again.contains(port)
        }),
    decreases n,
{
    if i < n - 1 {
        law_start_publishes_the_identities(setup, db, m, hal, t, i, n - 1, p, d, name);
        assert(m.logical[n - 1] != m.logical[i]);
    } else {
        lemma_not_yet_again(setup, db, m, hal, t, i, n - 1);
    }
}

proof fn lemma_not_yet_again(setup: &SfpSetup, db: DbState, m: Mapping, hal: &Hal, t: TableId, i: int, n: int)
    requires
        m.logical.no_duplicates(),
        0 <= n <= i < m.logical.len(),
    ensures
        !setup.identities_posted(db, m, hal, t, n).1.contains(m.logical[i]),
    decreases n,
{
    if n > 0 {
        lemma_not_yet_again(setup, db, m, hal, t, i, n - 1);
        assert(m.logical[n - 1] != m.logical[i]);
    }
}

/// Whatever was read before in the pass is what the modules report.
spec fn honest(cache: CacheState, hal: &Hal) -> bool {
    forall|q: usize| #[trigger]
        cache.contains_key(q) ==> cache[q] == diagnosed(hal.sfps@[q as int], Diagnostic::DomThresholds)
}

proof fn lemma_honest(setup: &SfpSetup, db: DbState, m: Mapping, hal: &Hal, t: TableId, again: Set<Seq<char>>, now: u64, n: int)
    ensures
        honest(setup.all_thresholds_posted(db, m, hal, t, again, now, n).1, hal),
    decreases n,
{
    if n > 0 {
        lemma_honest(setup, db, m, hal, t, again, now, n - 1);
    }
}

proof fn lemma_cached_thresholds(
    setup: &SfpSetup,
    db: DbState,
    cache: CacheState,
    m: Mapping,
    hal: &Hal,
    t: TableId,
    p: usize,
    port: Seq<char>,
    now: u64,
    th: Dict,
    name: Seq<char>,
)
    requires
        honest(cache, hal),
        plugged(m, hal, port, p),
        hal.sfps@[p as int].threshold_info == Ok::<Reply, XcvrdError>(Reply::Object(th)),
        th@.contains_key(name),
        name != "last_update_time"@,
        setup.vdm_threshold_tables matches Some(v) ==> !tables_by_kind(v.thresholds).contains(t),
    ensures
        field_at(setup.thresholds_posted(db, cache, m, hal, t, port, now), t, port, name) == Some(
            monitor_text(name, th@[name]),
        ),
{
    assert(th@.dom().contains(name));
    match setup.vdm_threshold_tables {
        Some(v) => {
            let f = tables_by_kind(v.thresholds);
            assert(f[0] == v.thresholds.halarm && f[1] == v.thresholds.lalarm && f[2] == v.thresholds.hwarn && f[3]
                == v.thresholds.lwarn);
            assert(f.contains(f[0]) && f.contains(f[1]) && f.contains(f[2]) && f.contains(f[3]));
        },
        None => {},
    }
}

/// At the start the thresholds of every mapped port are published whose module is there
/// and not to be read again, each as it is shown.
pub proof fn law_start_publishes_the_thresholds(
    setup: &SfpSetup,
    db: DbState,
    m: Mapping,
    hal: &Hal,
    t: TableId,
    again: Set<Seq<char>>,
    now: u64,
    i: int,
    n: int,
    p: usize,
    th: Dict,
    name: Seq<char>,
)
    requires
        m.logical.no_duplicates(),
        0 <= i < n <= m.logical.len(),
        plugged(m, hal, m.logical[i], p),
        !again.contains(m.logical[i]),
        hal.sfps@[p as int].threshold_info == Ok::<Reply, XcvrdError>(Reply::Object(th)),
        th@.contains_key(name),
        name != "last_update_time"@,
        setup.vdm_threshold_tables matches Some(v) ==> !tables_by_kind(v.thresholds).contains(t),
    ensures
        field_at(setup.all_thresholds_posted(db, m, hal, t, again, now, n).0, t, m.logical[i], name) == Some(
            monitor_text(name, th@[name]),
        ),
    decreases n,
{
    let port = m.logical[i];
    let (before, cache) = setup.all_thresholds_posted(db, m, hal, t, again, now, n - 1);
    if i < n - 1 {
        law_start_publishes_the_thresholds(setup, db, m, hal, t, again, now, i, n - 1, p, th, name);
        assert(m.logical[n - 1] != port);
    } else {
        lemma_honest(setup, db, m, hal, t, again, now, n - 1);
        lemma_cached_thresholds(setup, before, cache, m, hal, t, p, port, now, th, name);
    }
}

/// At the start the versatile thresholds of every kind are published in the table of
/// that very kind, for every mapped port whose module is there and not to be read again.
pub proof fn law_start_publishes_the_versatile_thresholds(
    setup: &SfpSetup,
    db: DbState,
    m: Mapping,
    hal: &Hal,
    t: TableId,
    again: Set<Seq<char>>,
    now: u64,
    i: int,
    n: int,
    p: usize,
    v: VdmThresholdTables,
    d: Dict,
    kind: int,
    a: Seq<char>,
    b: Seq<char>,
)
    requires
        m.logical.no_duplicates(),
        0 <= i < n <= m.logical.len(),
        plugged(m, hal, m.logical[i], p),
        !again.contains(m.logical[i]),
        setup.vdm_threshold_tables == Some(v),
        hal.sfps@[p as int].vdm_thresholds == Ok::<Reply, XcvrdError>(Reply::Object(d)),
        tables_by_kind(v.thresholds).no_duplicates(),
        0 <= kind < 4,
        names_entry(d.keys(), marks()[kind], a, b),
        a + b != "last_update_time"@,
    ensures
        field_at(
            setup.all_thresholds_posted(db, m, hal, t, again, now, n).0,
            tables_by_kind(v.thresholds)[kind],
            m.logical[i],
            a + b,
        ) == Some(py_str(d@[a + marks()[kind] + b])),
    decreases n,
{
    let port = m.logical[i];
    let (before, cache) = setup.all_thresholds_posted(db, m, hal, t, again, now, n - 1);
    if i < n - 1 {
        law_start_publishes_the_versatile_thresholds(
            setup, db, m, hal, t, again, now, i, n - 1, p, v, d, kind, a, b,
        );
        assert(m.logical[n - 1] != port);
    } else {
        let posted = monitors_posted(
            before,
            cache,
            false,
            m,
            hal,
            port,
            t,
            Diagnostic::DomThresholds,
            Beautifier::Dom,
            now,
        );
        law_thresholds_go_to_the_table_of_their_kind(posted, m, hal, port, p, v, now, d, kind, a, b);
    }
}

/// At the start the status of every mapped port says whether a module is in its slot,
/// and that there is no error.
pub proof fn law_start_publishes_the_statuses(db: DbState, m: Mapping, hal: &Hal, t: TableId, i: int, n: int)
    requires
        m.logical.no_duplicates(),
        0 <= i < n <= m.logical.len(),
        m.to_asic.contains_key(m.logical[i]),
    ensures
        ({
            let after = statuses_seeded(db, m, hal, t, n);
            let port = m.logical[i];
            &&& field_at(after, t, port, "status"@) == Some(
                if there(m, hal, port) {
                    "1"@
                } else {
                    "0"@
                },
            )
            &&& field_at(after, t, port, "error"@) == Some("N/A"@)
        }),
    decreases n,
{
    lemma_names_differ();
    if i < n - 1 {
        law_start_publishes_the_statuses(db, m, hal, t, i, n - 1);
        assert(m.logical[n - 1] != m.logical[i]);
    }
}

proof fn lemma_not_projected_yet(db: DbState, m: Mapping, hal: &Hal, t: TableId, again: Set<Seq<char>>, i: int, n: int)
    requires
        m.logical.no_duplicates(),
        0 <= n <= i < m.logical.len(),
    ensures
        same_row(db, states_projected(db, m, hal, t, again, n), t, m.logical[i]),
    decreases n,
{
    if n > 0 {
        lemma_not_projected_yet(db, m, hal, t, again, i, n - 1);
        assert(m.logical[n - 1] != m.logical[i]);
    }
}

/// Where no bring-up is driven, every mapped port whose module is there and was read is
/// ready, and the state of every other stays.
pub proof fn law_read_modules_are_ready(
    db: DbState,
    m: Mapping,
    hal: &Hal,
    t: TableId,
    again: Set<Seq<char>>,
    i: int,
    n: int,
)
    requires
        m.logical.no_duplicates(),
        0 <= i < n <= m.logical.len(),
    ensures
        ({
            let after = states_projected(db, m, hal, t, again, n);
            let port = m.logical[i];
            &&& there(m, hal, port) && !again.contains(port) ==> field_at(after, t, port, "cmis_state"@) == Some(
                "READY"@,
            )
            &&& !there(m, hal, port) || again.contains(port) ==> same_row(db, after, t, port)
        }),
    decreases n,
{
    if i < n - 1 {
        law_read_modules_are_ready(db, m, hal, t, again, i, n - 1);
        assert(m.logical[n - 1] != m.logical[i]);
    } else {
        lemma_not_projected_yet(db, m, hal, t, again, i, n - 1);
    }
}

proof fn lemma_thresholds_of_another(
    setup: &SfpSetup,
    db: DbState,
    m: Mapping,
    hal: &Hal,
    t: StateTables,
    other: Seq<char>,
    now: u64,
    port: Seq<char>,
)
    requires
        other != port,
    ensures
        forall|tbl: TableId| #[trigger]
            same_row(
                db,
                setup.thresholds_posted(
                    identity_posted(db, t.int_tbl, m, hal, other),
                    Map::empty(),
                    m,
                    hal,
                    t.dom_threshold_tbl,
                    other,
                    now,
                ),
                tbl,
                port,
            ),
{
}

/// Reading again: the identity and the thresholds of every port among `names` are
/// published whose module can be read by now, and the port is no longer to be read again;
/// a port whose module still cannot be read is left as it is.
pub proof fn law_modules_are_read_again(
    setup: &SfpSetup,
    db: DbState,
    m: Mapping,
    hal: &Hal,
    t: StateTables,
    names: Seq<Seq<char>>,
    again: Set<Seq<char>>,
    now: u64,
    i: int,
    n: int,
    p: usize,
    d: DictState,
    th: DictState,
    name: Seq<char>,
)
    requires
        tables_apart(setup, t),
        names.no_duplicates(),
        0 <= i < n <= names.len(),
        m.first_physical(names[i]) == Some(p),
        physical_of(m, names[i]) == Some(p),
        m.to_asic.contains_key(names[i]),
    ensures
        ({
            let port = names[i];
            let (after, left) = setup.retried(db, m, hal, t, names, again, now, n);
            let f = identity_fields(d, hal.sfps@[p as int].replaceable == Ok::<bool, XcvrdError>(true));
            &&& identifies(hal, p, d) && f.contains_key(name) ==> field_at(after, t.int_tbl, port, name) == Some(
                f[name],
            )
            &&& identifies(hal, p, d) && reading(hal.sfps@[p as int].threshold_info) == Some(ReplyState::Object(th))
                && th.contains_key(name) && name != "last_update_time"@ ==> field_at(
                after,
                t.dom_threshold_tbl,
                port,
                name,
            ) == Some(monitor_text(name, th[name]))
            &&& identifies(hal, p, d) ==> !left.contains(port)
            &&& unreadable(hal, p) ==> left.contains(port) == again.contains(port)
            &&& unreadable(hal, p) ==> forall|tbl: TableId| #[trigger] same_row(db, after, tbl, port)
        }),
    decreases n,
{
    let port = names[i];
    let (before, left) = setup.retried(db, m, hal, t, names, again, now, n - 1);
    let (after, _left) = setup.retried(db, m, hal, t, names, again, now, n);
    if i < n - 1 {
        law_modules_are_read_again(setup, db, m, hal, t, names, again, now, i, n - 1, p, d, th, name);
        assert(names[n - 1] != port);
        lemma_thresholds_of_another(setup, before, m, hal, t, names[n - 1], now, port);
        assert(forall|tbl: TableId| #[trigger] same_row(before, after, tbl, port));
        assert(same_row(before, after, t.int_tbl, port));
        assert(same_row(before, after, t.dom_threshold_tbl, port));
        if unreadable(hal, p) {
            assert forall|tbl: TableId| #[trigger] same_row(db, after, tbl, port) by {
                assert(same_row(db, before, tbl, port));
                assert(same_row(before, after, tbl, port));
            }
        }
    } else {
        lemma_not_read_yet(setup, db, m, hal, t, names, again, now, i, n - 1);
        let posted = identity_posted(before, t.int_tbl, m, hal, port);
        lemma_thresholds_published(setup, posted, m, hal, t, p, port, now, th, name);
    }
}

proof fn lemma_not_read_yet(
    setup: &SfpSetup,
    db: DbState,
    m: Mapping,
    hal: &Hal,
    t: StateTables,
    names: Seq<Seq<char>>,
    again: Set<Seq<char>>,
    now: u64,
    i: int,
    n: int,
)
    requires
        names.no_duplicates(),
        0 <= n <= i < names.len(),
    ensures
        ({
            let (after, left) = setup.retried(db, m, hal, t, names, again, now, n);
            &&& forall|tbl: TableId| #[trigger] same_row(db, after, tbl, names[i])
            &&& left.contains(names[i]) == again.contains(names[i])
        }),
    decreases n,
{
    if n > 0 {
        lemma_not_read_yet(setup, db, m, hal, t, names, again, now, i, n - 1);
        let port = names[i];
        assert(names[n - 1] != port);
        let (before, left) = setup.retried(db, m, hal, t, names, again, now, n - 1);
        let (after, _left) = setup.retried(db, m, hal, t, names, again, now, n);
        lemma_thresholds_of_another(setup, before, m, hal, t, names[n - 1], now, port);
        assert forall|tbl: TableId| #[trigger] same_row(db, after, tbl, port) by {
            assert(same_row(db, before, tbl, port));
            assert(same_row(before, after, tbl, port));
        }
    }
}

/// Nothing keeps the rows of a port from being restored: its module was not taken out
/// and is not to be read again, the configuration has the port, and it has no error.
pub open spec fn may_be_restored(
    w: Slots,
    m: Mapping,
    hal: &Hal,
    t: StateTables,
    deconfigured: Option<Set<Seq<char>>>,
    port: Seq<char>,
    p: usize,
) -> bool {
    let error = field_at(w.db, t.status_sw_tbl, port, "error"@);
    &&& m.to_asic.contains_key(port)
    &&& m.first_physical(port) == Some(p)
    &&& physical_of(m, port) == Some(p)
    &&& p < hal.sfps@.len()
    &&& hal.sfps@[p as int].presence == Ok::<bool, XcvrdError>(true)
    &&& field_at(w.db, t.status_sw_tbl, port, "status"@) != Some("0"@)
    &&& error is None || error == Some("N/A"@) || error == Some(Seq::<char>::empty())
    &&& !w.retry.contains(port)
    &&& !(deconfigured matches Some(s) && s.contains(port))
    &&& !w.attempts.contains_key(port) || w.attempts[port] < 3
}

/// How often the rows of the port were restored is the same in both.
spec fn same_tries(a: Slots, b: Slots, port: Seq<char>) -> bool {
    &&& a.attempts.contains_key(port) == b.attempts.contains_key(port)
    &&& a.attempts.contains_key(port) ==> a.attempts[port] == b.attempts[port]
}

proof fn lemma_restoring_another(
    setup: &SfpSetup,
    w: Slots,
    m: Mapping,
    hal: &Hal,
    later: &Hal,
    t: StateTables,
    deconfigured: Option<Set<Seq<char>>>,
    other: Seq<char>,
    now: u64,
    port: Seq<char>,
)
    requires
        other != port,
    ensures
        port_same(w, setup.port_restored(w, m, hal, later, t, deconfigured, other, now), port),
        same_tries(w, setup.port_restored(w, m, hal, later, t, deconfigured, other, now), port),
{
    let after = setup.port_restored(w, m, hal, later, t, deconfigured, other, now);
    assert forall|tbl: TableId| #[trigger] same_row(w.db, after.db, tbl, port) by {
        let s = with_status(w.db, t.status_sw_tbl, other, "1"@, "N/A"@);
        let a = identity_posted(s, t.int_tbl, m, hal, other);
        let b = identity_posted(s, t.int_tbl, m, later, other);
        lemma_thresholds_spare(setup, a, m, hal, t, other, now, tbl, port);
        lemma_thresholds_spare(setup, b, m, later, t, other, now, tbl, port);
        lemma_thresholds_spare(setup, w.db, m, hal, t, other, now, tbl, port);
    }
}

proof fn lemma_thresholds_spare(
    setup: &SfpSetup,
    db: DbState,
    m: Mapping,
    hal: &Hal,
    t: StateTables,
    other: Seq<char>,
    now: u64,
    tbl: TableId,
    port: Seq<char>,
)
    requires
        other != port,
    ensures
        same_row(
            db,
            setup.thresholds_posted(db, Map::empty(), m, hal, t.dom_threshold_tbl, other, now),
            tbl,
            port,
        ),
{
}

proof fn lemma_not_restored_yet(
    setup: &SfpSetup,
    w: Slots,
    m: Mapping,
    hal: &Hal,
    later: &Hal,
    t: StateTables,
    deconfigured: Option<Set<Seq<char>>>,
    now: u64,
    i: int,
    n: int,
)
    requires
        m.logical.no_duplicates(),
        0 <= n <= i < m.logical.len(),
    ensures
        port_same(w, setup.ports_restored(w, m, hal, later, t, deconfigured, now, n), m.logical[i]),
        same_tries(w, setup.ports_restored(w, m, hal, later, t, deconfigured, now, n), m.logical[i]),
    decreases n,
{
    if n > 0 {
        lemma_not_restored_yet(setup, w, m, hal, later, t, deconfigured, now, i, n - 1);
        let port = m.logical[i];
        assert(m.logical[n - 1] != port);
        let before = setup.ports_restored(w, m, hal, later, t, deconfigured, now, n - 1);
        let after = setup.ports_restored(w, m, hal, later, t, deconfigured, now, n);
        lemma_restoring_another(setup, before, m, hal, later, t, deconfigured, m.logical[n - 1], now, port);
        lemma_same_chain(w, before, after, port);
    }
}

/// The restoring of rows makes up for every mapped port whose rows are missing and whom
/// nothing keeps from it: where the identity is missing, the port looks as after an
/// insertion; where the thresholds alone are, they are published.
pub proof fn law_missing_rows_are_restored(
    setup: &SfpSetup,
    w: Slots,
    m: Mapping,
    hal: &Hal,
    later: &Hal,
    t: StateTables,
    deconfigured: Option<Set<Seq<char>>>,
    now: u64,
    i: int,
    n: int,
    p: usize,
    d: DictState,
    th: DictState,
    name: Seq<char>,
)
    requires
        tables_apart(setup, t),
        m.logical.no_duplicates(),
        0 <= i < n <= m.logical.len(),
        may_be_restored(w, m, hal, t, deconfigured, m.logical[i], p),
    ensures
        ({
            let port = m.logical[i];
            let after = setup.ports_restored(w, m, hal, later, t, deconfigured, now, n);
            &&& !w.db.contains_key((t.int_tbl, port)) ==> shows_inserted(
                after,
                hal,
                later,
                t,
                p,
                port,
                d,
                th,
                name,
            )
            &&& w.db.contains_key((t.int_tbl, port)) && !w.db.contains_key((t.dom_threshold_tbl, port)) && reading(
                hal.sfps@[p as int].threshold_info,
            ) == Some(ReplyState::Object(th)) && th.contains_key(name) && name != "last_update_time"@ ==> field_at(
                after.db,
                t.dom_threshold_tbl,
                port,
                name,
            ) == Some(monitor_text(name, th[name]))
        }),
    decreases n,
{
    let port = m.logical[i];
    let before = setup.ports_restored(w, m, hal, later, t, deconfigured, now, n - 1);
    let after = setup.ports_restored(w, m, hal, later, t, deconfigured, now, n);
    if i < n - 1 {
        law_missing_rows_are_restored(
            setup, w, m, hal, later, t, deconfigured, now, i, n - 1, p, d, th, name,
        );
        assert(m.logical[n - 1] != port);
        lemma_restoring_another(setup, before, m, hal, later, t, deconfigured, m.logical[n - 1], now, port);
        assert(same_row(before.db, after.db, t.int_tbl, port));
        assert(same_row(before.db, after.db, t.status_sw_tbl, port));
        assert(same_row(before.db, after.db, t.dom_threshold_tbl, port));
    } else {
        lemma_not_restored_yet(setup, w, m, hal, later, t, deconfigured, now, i, n - 1);
        assert(same_row(w.db, before.db, t.int_tbl, port));
        assert(same_row(w.db, before.db, t.status_sw_tbl, port));
        assert(same_row(w.db, before.db, t.dom_threshold_tbl, port));
        let tried = if before.attempts.contains_key(port) {
            before.attempts[port]
        } else {
            0
        };
        let noted = Slots { attempts: before.attempts.insert(port, (tried + 1) as u32), ..before };
        lemma_inserted(setup, noted, m, hal, later, t, p, port, now, d, th, name);
        lemma_thresholds_published(setup, before.db, m, hal, t, p, port, now, th, name);
    }
}

/// A port that the configuration has anew. Where no error of its slot is kept, its status
/// says whether its module is there, without an error; where one is, its status is the
/// text of the bits and its error their description. The identity of a module that is
/// there and not kept from being read is published, or is to be read again.
pub proof fn law_added_port_shows_its_slot(
    setup: &SfpSetup,
    w: Slots,
    m: Mapping,
    hal: &Hal,
    t: StateTables,
    e: EventState,
    now: u64,
    p: usize,
    bits: u32,
    d: DictState,
    name: Seq<char>,
)
    requires
        tables_apart(setup, t),
        setup.state_port_tbl != Some(t.int_tbl),
        e.port_index == p,
        m.first_physical(e.port_name) == Some(p),
        physical_of(m, e.port_name) == Some(p),
        m.to_asic.contains_key(e.port_name),
    ensures
        ({
            let port = e.port_name;
            let key = dec(p as nat);
            let after = setup.port_configured(w, m, hal, t, e, now);
            let inside = p < hal.sfps@.len() && hal.sfps@[p as int].presence == Ok::<bool, XcvrdError>(true);
            let failed = w.errors.contains_key(key) && w.errors[key].0 == dec(bits as nat);
            let f = identity_fields(d, hal.sfps@[p as int].replaceable == Ok::<bool, XcvrdError>(true));
            &&& !w.errors.contains_key(key) ==> {
                &&& field_at(after.db, t.status_sw_tbl, port, "status"@) == Some(
                    if inside {
                        "1"@
                    } else {
                        "0"@
                    },
                )
                &&& field_at(after.db, t.status_sw_tbl, port, "error"@) == Some("N/A"@)
            }
            &&& failed ==> {
                &&& field_at(after.db, t.status_sw_tbl, port, "status"@) == Some(dec(bits as nat))
                &&& field_at(after.db, t.status_sw_tbl, port, "error"@) == Some(
                    error_text(bits, vendor_text(hal, Some(p), key, w.errors[key].1)),
                )
            }
            &&& !w.errors.contains_key(key) || (failed && bits & 2 == 0) ==> {
                &&& identifies(hal, p, d) && f.contains_key(name) ==> field_at(after.db, t.int_tbl, port, name)
                    == Some(f[name])
                &&& unreadable(hal, p) ==> after.retry.contains(port)
            }
            &&& (failed && bits & 2 != 0) || !inside ==> same_row(w.db, after.db, t.int_tbl, port)
            &&& !after.attempts.contains_key(port)
            &&& setup.state_port_tbl matches Some(x) ==> x == t.dom_threshold_tbl || (
            setup.vdm_threshold_tables matches Some(v) && tables_by_kind(v.thresholds).contains(x)) || field_at(
                after.db,
                x,
                port,
                "NPU_SI_SETTINGS_SYNC_STATUS"@,
            ) == Some("NPU_SI_SETTINGS_DEFAULT"@)
        }),
{
    lemma_names_differ();
    let port = e.port_name;
    assert(dec_int(e.port_index as int) == dec(p as nat));
    lemma_parse_dec(bits as nat, u32::MAX as nat);
    let seeded = setup.reseeded(w.db, port);
    let posted = identity_posted(seeded, t.int_tbl, m, hal, port);
    lemma_thresholds_published(setup, posted, m, hal, t, p, port, now, d, name);
    if setup.state_port_tbl is Some {
        let x = setup.state_port_tbl->0;
        if x != t.dom_threshold_tbl && !(setup.vdm_threshold_tables matches Some(v) && tables_by_kind(
            v.thresholds,
        ).contains(x)) {
            lemma_thresholds_stay(setup, posted, m, hal, t, port, now, x);
        }
    }
}

proof fn lemma_thresholds_stay(
    setup: &SfpSetup,
    db: DbState,
    m: Mapping,
    hal: &Hal,
    t: StateTables,
    port: Seq<char>,
    now: u64,
    x: TableId,
)
    requires
        x != t.dom_threshold_tbl,
        setup.vdm_threshold_tables matches Some(v) ==> !tables_by_kind(v.thresholds).contains(x),
    ensures
        same_row(db, setup.thresholds_posted(db, Map::empty(), m, hal, t.dom_threshold_tbl, port, now), x, port),
{
    match setup.vdm_threshold_tables {
        Some(v) => {
            let f = tables_by_kind(v.thresholds);
            assert(f[0] == v.thresholds.halarm && f[1] == v.thresholds.lalarm && f[2] == v.thresholds.hwarn && f[3]
                == v.thresholds.lwarn);
            assert(f.contains(f[0]) && f.contains(f[1]) && f.contains(f[2]) && f.contains(f[3]));
        },
        None => {},
    }
}

/// A port whose rows are complete has them restored no more, and however often they were
/// restored in vain before counts no more.
pub proof fn law_complete_rows_are_left_alone(
    setup: &SfpSetup,
    w: Slots,
    m: Mapping,
    hal: &Hal,
    later: &Hal,
    t: StateTables,
    deconfigured: Option<Set<Seq<char>>>,
    now: u64,
    i: int,
    n: int,
)
    requires
        m.logical.no_duplicates(),
        0 <= i < n <= m.logical.len(),
        m.to_asic.contains_key(m.logical[i]),
        w.db.contains_key((t.int_tbl, m.logical[i])),
        w.db.contains_key((t.dom_threshold_tbl, m.logical[i])),
    ensures
        ({
            let after = setup.ports_restored(w, m, hal, later, t, deconfigured, now, n);
            let port = m.logical[i];
            &&& !after.attempts.contains_key(port)
            &&& after.retry.contains(port) == w.retry.contains(port)
            &&& forall|tbl: TableId| #[trigger] same_row(w.db, after.db, tbl, port)
        }),
    decreases n,
{
    let port = m.logical[i];
    let before = setup.ports_restored(w, m, hal, later, t, deconfigured, now, n - 1);
    let after = setup.ports_restored(w, m, hal, later, t, deconfigured, now, n);
    if i < n - 1 {
        law_complete_rows_are_left_alone(setup, w, m, hal, later, t, deconfigured, now, i, n - 1);
        assert(m.logical[n - 1] != port);
        lemma_restoring_another(setup, before, m, hal, later, t, deconfigured, m.logical[n - 1], now, port);
        assert forall|tbl: TableId| #[trigger] same_row(w.db, after.db, tbl, port) by {
            assert(same_row(w.db, before.db, tbl, port));
            assert(same_row(before.db, after.db, tbl, port));
        }
    } else {
        lemma_not_restored_yet(setup, w, m, hal, later, t, deconfigured, now, i, n - 1);
        assert(same_row(w.db, before.db, t.int_tbl, port));
        assert(same_row(w.db, before.db, t.dom_threshold_tbl, port));
    }
}

/// The rows of a port are to be restored if its module is there: where one of the two is
/// missing, its module was not taken out and is not to be read again, the port has no
/// error, the configuration has it, and its rows were restored in vain less than three
/// times.
pub proof fn law_restoring_is_wanted(
    setup: &SfpSetup,
    w: Slots,
    m: Mapping,
    t: StateTables,
    deconfigured: Option<Set<Seq<char>>>,
    port: Seq<char>,
)
    ensures
        setup.restoring_wanted(w, m, t, deconfigured, port) == ({
            let error = field_at(w.db, t.status_sw_tbl, port, "error"@);
            &&& m.to_asic.contains_key(port)
            &&& m.to_physical.contains_key(port)
            &&& !w.db.contains_key((t.int_tbl, port)) || !w.db.contains_key((t.dom_threshold_tbl, port))
            &&& field_at(w.db, t.status_sw_tbl, port, "status"@) != Some("0"@)
            &&& !w.retry.contains(port)
            &&& !(deconfigured matches Some(s) && s.contains(port))
            &&& error is None || error == Some("N/A"@) || error->0.len() == 0
            &&& !w.attempts.contains_key(port) || w.attempts[port] < 3
        }),
{
}

} // verus!
