//! What follows when the link of a port goes down and up.

use vstd::prelude::*;
use vstd::string::*;
use crate::db::{DbState, TableId};
use crate::dom::dom_mgr::{not_due, DomSetup, Watch, LINK_CHANGE_DELAY_MSECS};
use crate::dom::laws::{flap_count, law_nothing_due_reads_nothing};
use crate::hal::Hal;
use crate::ord_map::{among, ascending, in_order, lemma_in_order};
use crate::xcvrd_utilities::port_event_helper::Mapping;

verus! {

/// The flap count of a port was seen before and has changed since.
pub open spec fn flapped(db: DbState, appl: TableId, seen: Map<Seq<char>, Seq<char>>, port: Seq<char>) -> bool {
    seen.contains_key(port) && seen[port] != flap_count(db, appl, port)
}

/// One of the first `n` logical ports is of the slot `p` and has flapped.
pub open spec fn slot_flapped(
    m: Mapping,
    db: DbState,
    appl: TableId,
    seen: Map<Seq<char>, Seq<char>>,
    p: usize,
    n: int,
) -> bool {
    exists|i: int|
        0 <= i < n && m.first_physical(#[trigger] m.logical[i]) == Some(p) && flapped(db, appl, seen, m.logical[i])
}

/// The slots whose links have flapped are due at `due`, besides those of `pending`.
pub open spec fn marked(
    m: Mapping,
    db: DbState,
    appl: TableId,
    seen: Map<Seq<char>, Seq<char>>,
    pending: Map<usize, u64>,
    due: u64,
    n: int,
) -> Map<usize, u64> {
    Map::new(
        |p: usize| pending.contains_key(p) || slot_flapped(m, db, appl, seen, p, n),
        |p: usize|
            if slot_flapped(m, db, appl, seen, p, n) {
                due
            } else {
                pending[p]
            },
    )
}

/// The slots have numbers that a port event can name.
pub open spec fn slots_are_small(m: Mapping) -> bool {
    forall|i: int|
        0 <= i < m.logical.len() ==> (m.first_physical(#[trigger] m.logical[i]) matches Some(p) ==> p
            <= i32::MAX)
}

/// The flags of the first `n` of the slots `ports` read anew, in order.
pub open spec fn slots_read(setup: &DomSetup, hal: &Hal, db: DbState, ports: Seq<usize>, now: u64, n: int) -> DbState
    decreases n,
{
    if n <= 0 {
        db
    } else {
        setup.link_change_posted(hal, slots_read(setup, hal, db, ports, now, n - 1), ports[n - 1], now)
    }
}

proof fn lemma_flaps_watched(
    setup: &DomSetup,
    db: DbState,
    appl: TableId,
    seen: Map<Seq<char>, Seq<char>>,
    pending: Map<usize, u64>,
    at: u64,
    n: int,
)
    requires
        0 <= n <= setup.port_mapping@.logical.len(),
        setup.port_mapping@.logical.no_duplicates(),
        slots_are_small(setup.port_mapping@),
        at + LINK_CHANGE_DELAY_MSECS <= u64::MAX,
    ensures
        ({
            let m = setup.port_mapping@;
            let (s, q) = setup.flaps_watched(db, appl, seen, pending, at, n);
            &&& forall|k: Seq<char>| #[trigger]
                s.contains_key(k) <==> seen.contains_key(k) || among(m.logical, n, k)
            &&& forall|k: Seq<char>|
                among(m.logical, n, k) ==> #[trigger] s[k] == flap_count(db, appl, k)
            &&& forall|k: Seq<char>|
                !among(m.logical, n, k) && seen.contains_key(k) ==> #[trigger] s[k] == seen[k]
            &&& q == marked(m, db, appl, seen, pending, (at + LINK_CHANGE_DELAY_MSECS) as u64, n)
            &&& pending.dom().finite() ==> q.dom().finite()
        }),
    decreases n,
{
    let m = setup.port_mapping@;
    let due = (at + LINK_CHANGE_DELAY_MSECS) as u64;
    let (s, q) = setup.flaps_watched(db, appl, seen, pending, at, n);
    if n == 0 {
        assert(q =~= marked(m, db, appl, seen, pending, due, n));
    } else {
        lemma_flaps_watched(setup, db, appl, seen, pending, at, n - 1);
        let (s0, q0) = setup.flaps_watched(db, appl, seen, pending, at, n - 1);
        let port = m.logical[n - 1];
        assert(!among(m.logical, n - 1, port));
        assert forall|k: Seq<char>| among(m.logical, n, k) <==> among(m.logical, n - 1, k) || k == port by {
            if among(m.logical, n, k) && k != port {
                let i = choose|i: int| 0 <= i < n && #[trigger] m.logical[i] == k;
                assert(m.logical[i] == k);
            }
        }
        assert(s == s0.insert(port, flap_count(db, appl, port)));
        assert forall|p: usize|
            slot_flapped(m, db, appl, seen, p, n) <==> slot_flapped(m, db, appl, seen, p, n - 1) || (
            m.first_physical(port) == Some(p) && flapped(db, appl, seen, port)) by {
            if slot_flapped(m, db, appl, seen, p, n) {
                let i = choose|i: int|
                    0 <= i < n && m.first_physical(#[trigger] m.logical[i]) == Some(p) && flapped(
                        db,
                        appl,
                        seen,
                        m.logical[i],
                    );
                assert(i < n - 1 || m.logical[i] == port);
            }
        }
        assert(q =~= marked(m, db, appl, seen, pending, due, n));
    }
}

proof fn lemma_all_due(
    setup: &DomSetup,
    hal: &Hal,
    db: DbState,
    ports: Seq<usize>,
    pending: Map<usize, u64>,
    at: u64,
    now: u64,
    n: int,
)
    requires
        n <= ports.len(),
        forall|i: int| 0 <= i < ports.len() ==> pending[#[trigger] ports[i]] <= at,
    ensures
        setup.due_read(hal, db, ports, pending, at, now, n) == slots_read(setup, hal, db, ports, now, n),
    decreases n,
{
    if n > 0 {
        lemma_all_due(setup, hal, db, ports, pending, at, now, n - 1);
        assert(pending[ports[n - 1]] <= at);
    }
}

proof fn lemma_steady_look(
    setup: &DomSetup,
    appl: TableId,
    w: Watch,
    due: u64,
    hal: &Hal,
    at: u64,
    now: u64,
)
    requires
        setup.skip_cmis_mgr,
        setup.appl_port_tbl == Some(appl),
        setup.port_mapping@.logical.no_duplicates(),
        slots_are_small(setup.port_mapping@),
        at + LINK_CHANGE_DELAY_MSECS <= u64::MAX,
        w.pending.dom().finite(),
        forall|p: usize| #[trigger] w.pending.contains_key(p) ==> w.pending[p] == due,
        forall|i: int|
            0 <= i < setup.port_mapping@.logical.len() ==> !flapped(
                w.db,
                appl,
                w.flaps,
                #[trigger] setup.port_mapping@.logical[i],
            ),
    ensures
        ({
            let r = setup.looked(hal, w, false, at, now);
            let ports = in_order::<usize>(w.pending.dom());
            &&& at < due ==> r.db == w.db && r.pending == w.pending
            &&& at >= due ==> {
                &&& r.db == slots_read(setup, hal, w.db, ports, now, ports.len() as int)
                &&& r.pending == Map::<usize, u64>::empty()
            }
        }),
{
    let m = setup.port_mapping@;
    let n = m.logical.len() as int;
    let ports = in_order::<usize>(w.pending.dom());
    lemma_flaps_watched(setup, w.db, appl, w.flaps, w.pending, at, n);
    let q = setup.flaps_watched(w.db, appl, w.flaps, w.pending, at, n).1;
    assert(q =~= w.pending);
    lemma_in_order::<usize>(w.pending.dom());
    assert forall|i: int| 0 <= i < ports.len() implies w.pending.contains_key(#[trigger] ports[i]) by {
        assert(w.pending.dom().contains(ports[i]));
    }
    if at < due {
        law_nothing_due_reads_nothing(setup, hal, w.db, ports, w.pending, at, now, ports.len() as int);
        assert(not_due(w.pending, at) =~= w.pending);
    } else {
        lemma_all_due(setup, hal, w.db, ports, w.pending, at, now, ports.len() as int);
        assert(not_due(w.pending, at) =~= Map::<usize, u64>::empty());
    }
}

/// Of a watch on the link changes alone that has nothing pending: a flap count that
/// is seen for the first time or has not changed makes nothing due. One that has
/// changed makes the flags of its slot due after the delay; the look that sees it
/// reads nothing. A later look at the same counts reads nothing before the delay is
/// over, and the first one after it reads each such slot once and drops it.
pub proof fn law_flap_is_read_once_after_the_delay(
    setup: &DomSetup,
    appl: TableId,
    w: Watch,
    hal: &Hal,
    at: u64,
    now: u64,
    db: DbState,
    hal_later: &Hal,
    later_at: u64,
    later_now: u64,
    p: usize,
)
    requires
        setup.skip_cmis_mgr,
        setup.appl_port_tbl == Some(appl),
        setup.port_mapping@.logical.no_duplicates(),
        slots_are_small(setup.port_mapping@),
        w.pending == Map::<usize, u64>::empty(),
        at + LINK_CHANGE_DELAY_MSECS <= u64::MAX,
        later_at + LINK_CHANGE_DELAY_MSECS <= u64::MAX,
        forall|i: int|
            0 <= i < setup.port_mapping@.logical.len() ==> flap_count(
                db,
                appl,
                #[trigger] setup.port_mapping@.logical[i],
            ) == flap_count(w.db, appl, setup.port_mapping@.logical[i]),
    ensures
        ({
            let m = setup.port_mapping@;
            let n = m.logical.len() as int;
            let due = (at + LINK_CHANGE_DELAY_MSECS) as u64;
            let seen = setup.looked(hal, w, false, at, now);
            let later = setup.looked(hal_later, Watch { db, ..seen }, false, later_at, later_now);
            let slots = seen.pending.dom();
            let ports = in_order::<usize>(slots);
            &&& seen.db == w.db
            &&& seen.pending.contains_key(p) == slot_flapped(m, w.db, appl, w.flaps, p, n)
            &&& seen.pending.contains_key(p) ==> seen.pending[p] == due
            &&& ascending::<usize>(ports) && (ports.contains(p) <==> slots.contains(p))
            &&& later_at < due ==> later.db == db && later.pending == seen.pending
            &&& later_at >= due ==> {
                &&& later.db == slots_read(setup, hal_later, db, ports, later_now, ports.len() as int)
                &&& later.pending == Map::<usize, u64>::empty()
            }
            &&& later_at >= due && slots == set![p] ==> later.db == setup.link_change_posted(
                hal_later,
                db,
                p,
                later_now,
            )
            &&& slots == Set::<usize>::empty() ==> later.db == db
        }),
{
    let m = setup.port_mapping@;
    let n = m.logical.len() as int;
    let due = (at + LINK_CHANGE_DELAY_MSECS) as u64;
    let seen = setup.looked(hal, w, false, at, now);
    assert(w.pending.dom() =~= Set::<usize>::empty());
    lemma_flaps_watched(setup, w.db, appl, w.flaps, w.pending, at, n);
    let (s, q) = setup.flaps_watched(w.db, appl, w.flaps, w.pending, at, n);
    assert(not_due(q, at) =~= q);
    lemma_in_order::<usize>(q.dom());
    let ports = in_order::<usize>(q.dom());
    assert forall|i: int| 0 <= i < ports.len() implies q[#[trigger] ports[i]] > at by {
        assert(q.dom().contains(ports[i]));
    }
    law_nothing_due_reads_nothing(setup, hal, w.db, ports, q, at, now, ports.len() as int);
    assert forall|i: int| 0 <= i < n implies !flapped(db, appl, s, #[trigger] m.logical[i]) by {
        assert(among(m.logical, n, m.logical[i]));
        assert(s[m.logical[i]] == flap_count(w.db, appl, m.logical[i]));
    }
    lemma_steady_look(setup, appl, Watch { db, ..seen }, due, hal_later, later_at, later_now);
    if q.dom() == set![p] {
        let one = seq![p];
        assert(one[0] == p);
        assert(ascending::<usize>(one));
        assert forall|k: usize| #[trigger] q.dom().contains(k) <==> one.contains(k) by {}
        assert(ports == one);
        reveal_with_fuel(slots_read, 2);
    }
    if q.dom() == Set::<usize>::empty() {
        if ports.len() > 0 {
            assert(ports.contains(ports[0]));
        }
    }
}

} // verus!
