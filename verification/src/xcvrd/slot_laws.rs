//! What a report of the slots comes to for every logical port.

use vstd::prelude::*;
use vstd::string::*;
use crate::db::{field_at, DbState, TableId};
use crate::dom::isolation::same_row;
use crate::dom::utilities::dom_sensor::monitor_text;
use crate::error::XcvrdError;
use crate::hal::{reading, Hal};
use crate::ord_map::{in_order, lemma_in_order, MapKey};
use crate::text::{dec, is_digit, lemma_dec_reads_back, lemma_parse_dec, parse_signed};
use crate::value::{DictState, ReplyState};
use crate::xcvrd::sfp_state_update::{
    classified, error_text, law_event_names_read_back, report_completed, vendor_text, SfpSetup, Slots, StateTables,
    SystemEvent,
};
use crate::xcvrd::{identity_fields, identity_posted};
use crate::xcvrd_utilities::common::with_status;
use crate::xcvrd_utilities::port_event_helper::{consistent, physical_of, ports_of, Mapping};

verus! {

/// The module in the slot reports the identity `d`.
pub open spec fn identifies(hal: &Hal, p: usize, d: DictState) -> bool {
    &&& p < hal.sfps@.len()
    &&& hal.sfps@[p as int].presence == Ok::<bool, XcvrdError>(true)
    &&& reading(hal.sfps@[p as int].transceiver_info) == Some(ReplyState::Object(d))
}

/// A module is in the slot, and its identity cannot be read.
pub open spec fn unreadable(hal: &Hal, p: usize) -> bool {
    &&& p < hal.sfps@.len()
    &&& hal.sfps@[p as int].presence == Ok::<bool, XcvrdError>(true)
    &&& !(reading(hal.sfps@[p as int].transceiver_info) matches Some(ReplyState::Object(_)))
}

/// The tables of the identities, the states and the thresholds are different ones.
pub open spec fn tables_apart(setup: &SfpSetup, t: StateTables) -> bool {
    &&& t.int_tbl != t.status_sw_tbl
    &&& t.int_tbl != t.dom_threshold_tbl
    &&& t.status_sw_tbl != t.dom_threshold_tbl
    &&& !setup.removal_tables@.contains(t.status_sw_tbl)
    &&& !setup.removal_tables@.contains(t.int_tbl)
    &&& setup.state_port_tbl != Some(t.status_sw_tbl)
    &&& setup.vdm_threshold_tables matches Some(v) ==> {
        &&& !seq![v.thresholds.halarm, v.thresholds.lalarm, v.thresholds.hwarn, v.thresholds.lwarn].contains(t.int_tbl)
        &&& !seq![v.thresholds.halarm, v.thresholds.lalarm, v.thresholds.hwarn, v.thresholds.lwarn].contains(
            t.status_sw_tbl,
        )
        &&& !seq![v.thresholds.halarm, v.thresholds.lalarm, v.thresholds.hwarn, v.thresholds.lwarn].contains(
            t.dom_threshold_tbl,
        )
    }
}

/// What is seen of a port after a module was put into its slot: the status says so
/// without an error, and the identity `d` that the module reports, at once or after the
/// wait, is published with its thresholds `th`; a module that cannot be read by then is
/// to be read again.
pub open spec fn shows_inserted(
    after: Slots,
    hal: &Hal,
    later: &Hal,
    t: StateTables,
    p: usize,
    port: Seq<char>,
    d: DictState,
    th: DictState,
    name: Seq<char>,
) -> bool {
    let read = if unreadable(hal, p) {
        later
    } else {
        hal
    };
    let f = identity_fields(d, read.sfps@[p as int].replaceable == Ok::<bool, XcvrdError>(true));
    &&& field_at(after.db, t.status_sw_tbl, port, "status"@) == Some("1"@)
    &&& field_at(after.db, t.status_sw_tbl, port, "error"@) == Some("N/A"@)
    &&& identifies(read, p, d) && f.contains_key(name) ==> field_at(after.db, t.int_tbl, port, name) == Some(f[name])
    &&& identifies(read, p, d) && reading(read.sfps@[p as int].threshold_info) == Some(ReplyState::Object(th))
        && th.contains_key(name) && name != "last_update_time"@ ==> field_at(
        after.db,
        t.dom_threshold_tbl,
        port,
        name,
    ) == Some(monitor_text(name, th[name]))
    &&& unreadable(hal, p) && unreadable(later, p) ==> after.retry.contains(port)
}

/// The signal-integrity settings of the port are marked as not notified yet, where they
/// are kept in a table of their own.
pub open spec fn settings_marked(setup: &SfpSetup, db: DbState, t: StateTables, port: Seq<char>) -> bool {
    setup.state_port_tbl matches Some(x) ==> x == t.int_tbl || setup.removal_tables@.contains(x) || field_at(
        db,
        x,
        port,
        "NPU_SI_SETTINGS_SYNC_STATUS"@,
    ) == Some("NPU_SI_SETTINGS_DEFAULT"@)
}

/// What is seen of a port after the module was taken out of its slot: the status says
/// so without an error, the bring-up is back at its start, neither the identity nor any
/// other row of the module is left, and its settings are marked.
pub open spec fn shows_removed(setup: &SfpSetup, after: Slots, t: StateTables, port: Seq<char>, gone: TableId) -> bool {
    &&& field_at(after.db, t.status_sw_tbl, port, "status"@) == Some("0"@)
    &&& field_at(after.db, t.status_sw_tbl, port, "error"@) == Some("N/A"@)
    &&& field_at(after.db, t.status_sw_tbl, port, "cmis_state"@) == Some("INSERTED"@)
    &&& !after.db.contains_key((t.int_tbl, port))
    &&& setup.removal_tables@.contains(gone) ==> !after.db.contains_key((gone, port))
    &&& !after.retry.contains(port)
    &&& settings_marked(setup, after.db, t, port)
}

/// What is seen of a port after an error of its slot: the status is the text of the
/// bits and the error their description, the identity stays, and the other rows of the
/// module are gone where it cannot be read.
pub open spec fn shows_error(
    setup: &SfpSetup,
    before: Slots,
    after: Slots,
    hal: &Hal,
    t: StateTables,
    p: usize,
    port: Seq<char>,
    bits: u32,
    descriptions: Map<Seq<char>, Seq<char>>,
    gone: TableId,
) -> bool {
    &&& field_at(after.db, t.status_sw_tbl, port, "status"@) == Some(dec(bits as nat))
    &&& field_at(after.db, t.status_sw_tbl, port, "error"@) == Some(
        error_text(bits, vendor_text(hal, Some(p), dec(p as nat), descriptions)),
    )
    &&& same_row(before.db, after.db, t.int_tbl, port)
    &&& setup.removal_tables@.contains(gone) && bits & 2 != 0 ==> !after.db.contains_key((gone, port))
    &&& bits & 2 == 0 && gone != t.status_sw_tbl ==> same_row(before.db, after.db, gone, port)
}

/// The key of a report writes the number of the slot.
pub open spec fn names_slot(key: Seq<char>, p: usize) -> bool {
    parse_signed(key) matches Some(n) && n >= 0 && (n as i64) as usize == p
}

/// Every row of the port, whether it is to be read again, and how often its rows were
/// restored are the same in both.
pub open spec fn port_same(a: Slots, b: Slots, port: Seq<char>) -> bool {
    &&& forall|t: TableId| #[trigger] same_row(a.db, b.db, t, port)
    &&& a.retry.contains(port) == b.retry.contains(port)
    &&& a.attempts.contains_key(port) == b.attempts.contains_key(port)
    &&& a.attempts.contains_key(port) ==> a.attempts[port] == b.attempts[port]
}

/// What is the same in the first two and in the last two is the same throughout.
pub proof fn lemma_same_chain(a: Slots, b: Slots, c: Slots, port: Seq<char>)
    requires
        port_same(a, b, port),
        port_same(b, c, port),
    ensures
        port_same(a, c, port),
{
    assert forall|t: TableId| #[trigger] same_row(a.db, c.db, t, port) by {
        assert(same_row(a.db, b.db, t, port));
        assert(same_row(b.db, c.db, t, port));
    }
}

proof fn lemma_thresholds_of_another(
    setup: &SfpSetup,
    db: DbState,
    m: Mapping,
    hal: &Hal,
    t: StateTables,
    other: Seq<char>,
    now: u64,
    tbl: TableId,
    port: Seq<char>,
)
    requires
        other != port,
    ensures
        same_row(
            db,
            setup.thresholds_posted(db, Map::empty(), m, hal, t.dom_threshold_tbl, other, now),
            tbl,
            port,
        ),
{
}

proof fn lemma_another_port(
    setup: &SfpSetup,
    w: Slots,
    m: Mapping,
    hal: &Hal,
    later: &Hal,
    t: StateTables,
    key: Seq<char>,
    physical: usize,
    other: Seq<char>,
    value: Seq<char>,
    descriptions: Map<Seq<char>, Seq<char>>,
    now: u64,
    port: Seq<char>,
)
    requires
        other != port,
    ensures
        port_same(
            w,
            setup.port_changed(w, m, hal, later, t, key, physical, other, value, descriptions, now),
            port,
        ),
{
    let after = setup.port_changed(w, m, hal, later, t, key, physical, other, value, descriptions, now);
    assert forall|tbl: TableId| #[trigger] same_row(w.db, after.db, tbl, port) by {
        let s = with_status(w.db, t.status_sw_tbl, other, "1"@, "N/A"@);
        let a = identity_posted(s, t.int_tbl, m, hal, other);
        let b = identity_posted(s, t.int_tbl, m, later, other);
        lemma_thresholds_of_another(setup, a, m, hal, t, other, now, tbl, port);
        lemma_thresholds_of_another(setup, b, m, later, t, other, now, tbl, port);
    }
}

proof fn lemma_other_ports(
    setup: &SfpSetup,
    w: Slots,
    m: Mapping,
    hal: &Hal,
    later: &Hal,
    t: StateTables,
    key: Seq<char>,
    physical: usize,
    ports: Seq<Seq<char>>,
    value: Seq<char>,
    descriptions: Map<Seq<char>, Seq<char>>,
    now: u64,
    n: int,
    port: Seq<char>,
)
    requires
        n <= ports.len(),
        forall|i: int| 0 <= i < n ==> #[trigger] ports[i] != port,
    ensures
        port_same(
            w,
            setup.ports_changed(w, m, hal, later, t, key, physical, ports, value, descriptions, now, n),
            port,
        ),
    decreases n,
{
    if n > 0 {
        lemma_other_ports(setup, w, m, hal, later, t, key, physical, ports, value, descriptions, now, n - 1, port);
        let before = setup.ports_changed(w, m, hal, later, t, key, physical, ports, value, descriptions, now, n - 1);
        let after = setup.ports_changed(w, m, hal, later, t, key, physical, ports, value, descriptions, now, n);
        lemma_another_port(setup, before, m, hal, later, t, key, physical, ports[n - 1], value, descriptions, now, port);
        lemma_same_chain(w, before, after, port);
    }
}

proof fn lemma_other_slot(
    setup: &SfpSetup,
    w: Slots,
    m: Mapping,
    hal: &Hal,
    later: &Hal,
    t: StateTables,
    key: Seq<char>,
    value: Seq<char>,
    descriptions: Map<Seq<char>, Seq<char>>,
    now: u64,
    p: usize,
    port: Seq<char>,
)
    requires
        consistent(m),
        m.first_physical(port) == Some(p),
        !names_slot(key, p),
    ensures
        port_same(w, setup.slot_changed(w, m, hal, later, t, key, value, descriptions, now), port),
{
    let noted = setup.error_noted(w, key, value, descriptions);
    assert(port_same(w, noted, port));
    match parse_signed(key) {
        Some(n) => {
            let q = (n as i64) as usize;
            if n >= 0 && m.to_logical.contains_key(q) {
                let ports = m.to_logical[q];
                assert forall|i: int| 0 <= i < ports.len() implies #[trigger] ports[i] != port by {
                    assert(ports_of(m, q).contains(ports[i]));
                }
                lemma_other_ports(
                    setup,
                    noted,
                    m,
                    hal,
                    later,
                    t,
                    key,
                    q,
                    ports,
                    value,
                    descriptions,
                    now,
                    ports.len() as int,
                    port,
                );
                lemma_same_chain(w, noted, setup.slot_changed(w, m, hal, later, t, key, value, descriptions, now), port);
            }
        },
        None => {},
    }
}

proof fn lemma_removal_tables(setup: &SfpSetup, t: StateTables, gone: TableId)
    ensures
        ({
            let all = seq![t.int_tbl] + setup.removal_tables@;
            &&& all.contains(t.int_tbl)
            &&& setup.removal_tables@.contains(gone) ==> all.contains(gone)
            &&& all.contains(gone) ==> gone == t.int_tbl || setup.removal_tables@.contains(gone)
        }),
{
    let all = seq![t.int_tbl] + setup.removal_tables@;
    assert(all[0] == t.int_tbl);
    if setup.removal_tables@.contains(gone) {
        let i = setup.removal_tables@.index_of(gone);
        assert(all[1 + i] == gone);
    }
    if all.contains(gone) {
        let i = all.index_of(gone);
        if i > 0 {
            assert(setup.removal_tables@[i - 1] == gone);
        }
    }
}

/// The names of the fields of a status row, and the statuses, differ.
pub proof fn lemma_names_differ()
    ensures
        "status"@ != "error"@,
        "status"@ != "cmis_state"@,
        "error"@ != "cmis_state"@,
        "0"@ != "1"@,
{
    reveal_strlit("cmis_state");
    reveal_strlit("status");
    reveal_strlit("error");
    reveal_strlit("0");
    reveal_strlit("1");
    assert("cmis_state"@.len() == 10 && "status"@.len() == 6 && "error"@.len() == 5);
    assert("0"@[0] == '0' && "1"@[0] == '1');
}

/// The thresholds of a port are published as they are shown, and its identity and its
/// status stay.
pub proof fn lemma_thresholds_published(
    setup: &SfpSetup,
    db: DbState,
    m: Mapping,
    hal: &Hal,
    t: StateTables,
    p: usize,
    port: Seq<char>,
    now: u64,
    th: DictState,
    name: Seq<char>,
)
    requires
        tables_apart(setup, t),
        m.first_physical(port) == Some(p),
        m.asic_of(port) is Some,
    ensures
        ({
            let after = setup.thresholds_posted(db, Map::empty(), m, hal, t.dom_threshold_tbl, port, now);
            &&& same_row(db, after, t.int_tbl, port)
            &&& same_row(db, after, t.status_sw_tbl, port)
            &&& p < hal.sfps@.len() && hal.sfps@[p as int].presence == Ok::<bool, XcvrdError>(true) && reading(
                hal.sfps@[p as int].threshold_info,
            ) == Some(ReplyState::Object(th)) && th.contains_key(name) && name != "last_update_time"@ ==> field_at(
                after,
                t.dom_threshold_tbl,
                port,
                name,
            ) == Some(monitor_text(name, th[name]))
        }),
{
    if th.contains_key(name) {
        assert(th.dom().contains(name));
    }
    match setup.vdm_threshold_tables {
        Some(v) => {
            let f = seq![v.thresholds.halarm, v.thresholds.lalarm, v.thresholds.hwarn, v.thresholds.lwarn];
            assert(f[0] == v.thresholds.halarm && f[1] == v.thresholds.lalarm && f[2] == v.thresholds.hwarn && f[3]
                == v.thresholds.lwarn);
            assert(f.contains(f[0]) && f.contains(f[1]) && f.contains(f[2]) && f.contains(f[3]));
        },
        None => {},
    }
}

/// What is seen of a port after a module was put into its slot.
pub proof fn lemma_inserted(
    setup: &SfpSetup,
    w: Slots,
    m: Mapping,
    hal: &Hal,
    later: &Hal,
    t: StateTables,
    p: usize,
    port: Seq<char>,
    now: u64,
    d: DictState,
    th: DictState,
    name: Seq<char>,
)
    requires
        tables_apart(setup, t),
        m.first_physical(port) == Some(p),
        physical_of(m, port) == Some(p),
        m.asic_of(port) is Some,
    ensures
        shows_inserted(setup.inserted(w, m, hal, later, t, port, now), hal, later, t, p, port, d, th, name),
{
    lemma_names_differ();
    let s = with_status(w.db, t.status_sw_tbl, port, "1"@, "N/A"@);
    let a = identity_posted(s, t.int_tbl, m, hal, port);
    let b = identity_posted(s, t.int_tbl, m, later, port);
    lemma_thresholds_published(setup, a, m, hal, t, p, port, now, th, name);
    lemma_thresholds_published(setup, b, m, later, t, p, port, now, th, name);
}

proof fn lemma_removed(setup: &SfpSetup, w: Slots, m: Mapping, hal: &Hal, t: StateTables, p: usize, port: Seq<char>, gone: TableId)
    requires
        tables_apart(setup, t),
        physical_of(m, port) == Some(p),
    ensures
        shows_removed(setup, setup.removed(w, m, hal, t, p, port), t, port, gone),
{
    lemma_names_differ();
    lemma_removal_tables(setup, t, gone);
    lemma_removal_tables(setup, t, t.status_sw_tbl);
    if setup.state_port_tbl is Some {
        lemma_removal_tables(setup, t, setup.state_port_tbl->0);
    }
}

proof fn lemma_failed(
    setup: &SfpSetup,
    w: Slots,
    m: Mapping,
    hal: &Hal,
    t: StateTables,
    p: usize,
    port: Seq<char>,
    bits: u32,
    descriptions: Map<Seq<char>, Seq<char>>,
    gone: TableId,
)
    requires
        tables_apart(setup, t),
        physical_of(m, port) == Some(p),
    ensures
        shows_error(
            setup,
            w,
            setup.failed(w, m, hal, t, dec(p as nat), port, dec(bits as nat), descriptions),
            hal,
            t,
            p,
            port,
            bits,
            descriptions,
            gone,
        ),
{
    lemma_names_differ();
    lemma_parse_dec(bits as nat, u32::MAX as nat);
    lemma_parse_dec(p as nat, usize::MAX as nat);
}

/// What is seen of a port after the event `value` of its slot, whichever event it is.
/// However often its rows were restored before, that counts no more.
pub open spec fn shows_event(
    setup: &SfpSetup,
    before: Slots,
    after: Slots,
    hal: &Hal,
    later: &Hal,
    t: StateTables,
    p: usize,
    port: Seq<char>,
    value: Seq<char>,
    descriptions: Map<Seq<char>, Seq<char>>,
    bits: u32,
    d: DictState,
    th: DictState,
    name: Seq<char>,
    gone: TableId,
) -> bool {
    &&& !after.attempts.contains_key(port)
    &&& value == "1"@ ==> shows_inserted(after, hal, later, t, p, port, d, th, name)
    &&& value == "0"@ ==> shows_removed(setup, after, t, port, gone)
    &&& value == dec(bits as nat) && bits >= 2 ==> shows_error(
        setup,
        before,
        after,
        hal,
        t,
        p,
        port,
        bits,
        descriptions,
        gone,
    )
}

proof fn lemma_bits_are_an_error(bits: u32)
    requires
        bits >= 2,
    ensures
        dec(bits as nat) != "0"@,
        dec(bits as nat) != "1"@,
{
    reveal_strlit("0");
    reveal_strlit("1");
    lemma_dec_reads_back(bits as nat);
    lemma_dec_reads_back(0);
    lemma_dec_reads_back(1);
    assert(dec(0) =~= "0"@);
    assert(dec(1) =~= "1"@);
}

proof fn lemma_event_stays(
    setup: &SfpSetup,
    b0: Slots,
    b1: Slots,
    a0: Slots,
    a1: Slots,
    hal: &Hal,
    later: &Hal,
    t: StateTables,
    p: usize,
    port: Seq<char>,
    value: Seq<char>,
    descriptions: Map<Seq<char>, Seq<char>>,
    bits: u32,
    d: DictState,
    th: DictState,
    name: Seq<char>,
    gone: TableId,
)
    requires
        port_same(b0, b1, port),
        port_same(a0, a1, port),
        shows_event(setup, b1, a0, hal, later, t, p, port, value, descriptions, bits, d, th, name, gone),
    ensures
        shows_event(setup, b0, a1, hal, later, t, p, port, value, descriptions, bits, d, th, name, gone),
{
    assert(same_row(b0.db, b1.db, t.int_tbl, port));
    assert(same_row(b0.db, b1.db, gone, port));
    assert(same_row(a0.db, a1.db, t.int_tbl, port));
    assert(same_row(a0.db, a1.db, t.status_sw_tbl, port));
    assert(same_row(a0.db, a1.db, t.dom_threshold_tbl, port));
    assert(same_row(a0.db, a1.db, gone, port));
    if setup.state_port_tbl is Some {
        assert(same_row(a0.db, a1.db, setup.state_port_tbl->0, port));
    }
}

proof fn lemma_event(
    setup: &SfpSetup,
    w: Slots,
    m: Mapping,
    hal: &Hal,
    later: &Hal,
    t: StateTables,
    p: usize,
    port: Seq<char>,
    value: Seq<char>,
    descriptions: Map<Seq<char>, Seq<char>>,
    now: u64,
    bits: u32,
    d: DictState,
    th: DictState,
    name: Seq<char>,
    gone: TableId,
)
    requires
        tables_apart(setup, t),
        m.first_physical(port) == Some(p),
        physical_of(m, port) == Some(p),
        m.asic_of(port) is Some,
    ensures
        shows_event(
            setup,
            w,
            setup.port_changed(w, m, hal, later, t, dec(p as nat), p, port, value, descriptions, now),
            hal,
            later,
            t,
            p,
            port,
            value,
            descriptions,
            bits,
            d,
            th,
            name,
            gone,
        ),
{
    lemma_names_differ();
    if bits >= 2 {
        lemma_bits_are_an_error(bits);
    }
    lemma_inserted(setup, w, m, hal, later, t, p, port, now, d, th, name);
    lemma_removed(setup, w, m, hal, t, p, port, gone);
    lemma_failed(setup, w, m, hal, t, p, port, bits, descriptions, gone);
}

proof fn lemma_event_of_ports(
    setup: &SfpSetup,
    w: Slots,
    m: Mapping,
    hal: &Hal,
    later: &Hal,
    t: StateTables,
    p: usize,
    ports: Seq<Seq<char>>,
    at: int,
    value: Seq<char>,
    descriptions: Map<Seq<char>, Seq<char>>,
    now: u64,
    bits: u32,
    d: DictState,
    th: DictState,
    name: Seq<char>,
    gone: TableId,
    n: int,
)
    requires
        tables_apart(setup, t),
        ports.no_duplicates(),
        0 <= at < n <= ports.len(),
        m.first_physical(ports[at]) == Some(p),
        physical_of(m, ports[at]) == Some(p),
        m.asic_of(ports[at]) is Some,
    ensures
        shows_event(
            setup,
            w,
            setup.ports_changed(w, m, hal, later, t, dec(p as nat), p, ports, value, descriptions, now, n),
            hal,
            later,
            t,
            p,
            ports[at],
            value,
            descriptions,
            bits,
            d,
            th,
            name,
            gone,
        ),
    decreases n,
{
    let port = ports[at];
    let key = dec(p as nat);
    let before = setup.ports_changed(w, m, hal, later, t, key, p, ports, value, descriptions, now, n - 1);
    let after = setup.ports_changed(w, m, hal, later, t, key, p, ports, value, descriptions, now, n);
    if at == n - 1 {
        lemma_other_ports(setup, w, m, hal, later, t, key, p, ports, value, descriptions, now, n - 1, port);
        lemma_event(setup, before, m, hal, later, t, p, port, value, descriptions, now, bits, d, th, name, gone);
        lemma_event_stays(
            setup, w, before, after, after, hal, later, t, p, port, value, descriptions, bits, d, th, name, gone,
        );
    } else {
        lemma_event_of_ports(
            setup, w, m, hal, later, t, p, ports, at, value, descriptions, now, bits, d, th, name, gone, n - 1,
        );
        lemma_another_port(setup, before, m, hal, later, t, key, p, ports[n - 1], value, descriptions, now, port);
        lemma_event_stays(
            setup, w, w, before, after, hal, later, t, p, port, value, descriptions, bits, d, th, name, gone,
        );
    }
}

proof fn lemma_event_of_slots(
    setup: &SfpSetup,
    w: Slots,
    m: Mapping,
    hal: &Hal,
    later: &Hal,
    t: StateTables,
    keys: Seq<Seq<char>>,
    report: Map<Seq<char>, Seq<char>>,
    slot_at: int,
    p: usize,
    at: int,
    descriptions: Map<Seq<char>, Seq<char>>,
    now: u64,
    bits: u32,
    d: DictState,
    th: DictState,
    name: Seq<char>,
    gone: TableId,
    n: int,
)
    requires
        tables_apart(setup, t),
        consistent(m),
        0 <= slot_at < n <= keys.len(),
        keys[slot_at] == dec(p as nat),
        forall|i: int| 0 <= i < keys.len() && i != slot_at ==> !names_slot(#[trigger] keys[i], p),
        p <= 0x7fff_ffff_ffff_ffff,
        m.to_logical.contains_key(p),
        0 <= at < m.to_logical[p].len(),
        physical_of(m, m.to_logical[p][at]) == Some(p),
        m.asic_of(m.to_logical[p][at]) is Some,
    ensures
        shows_event(
            setup,
            w,
            setup.slots_changed(w, m, hal, later, t, keys, report, descriptions, now, n),
            hal,
            later,
            t,
            p,
            m.to_logical[p][at],
            report[dec(p as nat)],
            descriptions,
            bits,
            d,
            th,
            name,
            gone,
        ),
    decreases n,
{
    let ports = m.to_logical[p];
    let port = ports[at];
    let key = dec(p as nat);
    let value = report[key];
    assert(ports_of(m, p).contains(port));
    let before = setup.slots_changed(w, m, hal, later, t, keys, report, descriptions, now, n - 1);
    let after = setup.slots_changed(w, m, hal, later, t, keys, report, descriptions, now, n);
    if slot_at == n - 1 {
        lemma_slots_before(setup, w, m, hal, later, t, keys, report, p, descriptions, now, n - 1, port);
        let noted = setup.error_noted(before, key, value, descriptions);
        assert(port_same(before, noted, port));
        lemma_same_chain(w, before, noted, port);
        lemma_parse_dec(p as nat, 0x7fff_ffff_ffff_ffff);
        lemma_dec_reads_back(p as nat);
        assert(key.len() > 0 && key[0] != '-') by {
            assert(is_digit(key[0]));
        }
        assert(parse_signed(key) == Some(p as int));
        assert(((p as int) as i64) as usize == p);
        lemma_event_of_ports(
            setup,
            noted,
            m,
            hal,
            later,
            t,
            p,
            ports,
            at,
            value,
            descriptions,
            now,
            bits,
            d,
            th,
            name,
            gone,
            ports.len() as int,
        );
        lemma_event_stays(
            setup, w, noted, after, after, hal, later, t, p, port, value, descriptions, bits, d, th, name, gone,
        );
    } else {
        lemma_event_of_slots(
            setup, w, m, hal, later, t, keys, report, slot_at, p, at, descriptions, now, bits, d, th, name, gone, n - 1,
        );
        lemma_other_slot(
            setup, before, m, hal, later, t, keys[n - 1], report[keys[n - 1]], descriptions, now, p, port,
        );
        lemma_event_stays(
            setup, w, w, before, after, hal, later, t, p, port, value, descriptions, bits, d, th, name, gone,
        );
    }
}

proof fn lemma_slots_before(
    setup: &SfpSetup,
    w: Slots,
    m: Mapping,
    hal: &Hal,
    later: &Hal,
    t: StateTables,
    keys: Seq<Seq<char>>,
    report: Map<Seq<char>, Seq<char>>,
    p: usize,
    descriptions: Map<Seq<char>, Seq<char>>,
    now: u64,
    n: int,
    port: Seq<char>,
)
    requires
        consistent(m),
        m.first_physical(port) == Some(p),
        n <= keys.len(),
        forall|i: int| 0 <= i < n ==> !names_slot(#[trigger] keys[i], p),
    ensures
        port_same(w, setup.slots_changed(w, m, hal, later, t, keys, report, descriptions, now, n), port),
    decreases n,
{
    if n > 0 {
        lemma_slots_before(setup, w, m, hal, later, t, keys, report, p, descriptions, now, n - 1, port);
        let before = setup.slots_changed(w, m, hal, later, t, keys, report, descriptions, now, n - 1);
        let after = setup.slots_changed(w, m, hal, later, t, keys, report, descriptions, now, n);
        lemma_other_slot(
            setup, before, m, hal, later, t, keys[n - 1], report[keys[n - 1]], descriptions, now, p, port,
        );
        lemma_same_chain(w, before, after, port);
    }
}

/// An ordinary report reaches every logical port of every slot that it names: of each
/// of them is seen that a module was put in, that the module was taken out, or the
/// error, as the report says of the slot.
pub proof fn law_report_reaches_every_port_of_a_slot(
    setup: &SfpSetup,
    w: Slots,
    m: Mapping,
    hal: &Hal,
    later: &Hal,
    t: StateTables,
    report: Map<Seq<char>, Seq<char>>,
    p: usize,
    at: int,
    descriptions: Map<Seq<char>, Seq<char>>,
    now: u64,
    bits: u32,
    d: DictState,
    th: DictState,
    name: Seq<char>,
    gone: TableId,
)
    requires
        tables_apart(setup, t),
        consistent(m),
        report.dom().finite(),
        report.contains_key(dec(p as nat)),
        forall|k: Seq<char>| #[trigger] report.contains_key(k) && names_slot(k, p) ==> k == dec(p as nat),
        p <= 0x7fff_ffff_ffff_ffff,
        m.to_logical.contains_key(p),
        0 <= at < m.to_logical[p].len(),
        physical_of(m, m.to_logical[p][at]) == Some(p),
        m.to_asic.contains_key(m.to_logical[p][at]),
    ensures
        shows_event(
            setup,
            w,
            setup.report_applied(w, m, hal, later, t, true, report, descriptions, now),
            hal,
            later,
            t,
            p,
            m.to_logical[p][at],
            report[dec(p as nat)],
            descriptions,
            bits,
            d,
            th,
            name,
            gone,
        ),
{
    let keys = in_order::<String>(report.dom());
    let key = dec(p as nat);
    lemma_in_order::<String>(report.dom());
    assert(report.dom().contains(key));
    assert(keys.contains(key));
    let slot_at = keys.index_of(key);
    assert forall|i: int| 0 <= i < keys.len() && i != slot_at implies !names_slot(#[trigger] keys[i], p) by {
        assert(keys.contains(keys[i]));
        assert(report.dom().contains(keys[i]));
        assert(report.contains_key(keys[i]));
        if keys[i] == key {
            if i < slot_at {
                String::before_asym(keys[i], keys[slot_at]);
            } else {
                String::before_asym(keys[slot_at], keys[i]);
            }
        }
    }
    lemma_event_of_slots(
        setup,
        w,
        m,
        hal,
        later,
        t,
        keys,
        report,
        slot_at,
        p,
        at,
        descriptions,
        now,
        bits,
        d,
        th,
        name,
        gone,
        keys.len() as int,
    );
}

/// What is kept of an error of the slot of `key` is the same in both.
spec fn same_error(a: Slots, b: Slots, key: Seq<char>) -> bool {
    &&& a.errors.contains_key(key) == b.errors.contains_key(key)
    &&& a.errors.contains_key(key) ==> a.errors[key] == b.errors[key]
}

proof fn lemma_ports_keep_errors(
    setup: &SfpSetup,
    w: Slots,
    m: Mapping,
    hal: &Hal,
    later: &Hal,
    t: StateTables,
    key: Seq<char>,
    physical: usize,
    ports: Seq<Seq<char>>,
    value: Seq<char>,
    descriptions: Map<Seq<char>, Seq<char>>,
    now: u64,
    n: int,
)
    ensures
        setup.ports_changed(w, m, hal, later, t, key, physical, ports, value, descriptions, now, n).errors == w.errors,
    decreases n,
{
    if n > 0 {
        lemma_ports_keep_errors(setup, w, m, hal, later, t, key, physical, ports, value, descriptions, now, n - 1);
    }
}

proof fn lemma_slot_notes_its_error(
    setup: &SfpSetup,
    w: Slots,
    m: Mapping,
    hal: &Hal,
    later: &Hal,
    t: StateTables,
    key: Seq<char>,
    value: Seq<char>,
    descriptions: Map<Seq<char>, Seq<char>>,
    now: u64,
)
    ensures
        setup.slot_changed(w, m, hal, later, t, key, value, descriptions, now).errors == setup.error_noted(
            w,
            key,
            value,
            descriptions,
        ).errors,
{
    let noted = setup.error_noted(w, key, value, descriptions);
    match parse_signed(key) {
        Some(n) => {
            let q = (n as i64) as usize;
            lemma_ports_keep_errors(
                setup,
                noted,
                m,
                hal,
                later,
                t,
                key,
                q,
                m.to_logical[q],
                value,
                descriptions,
                now,
                m.to_logical[q].len() as int,
            );
        },
        None => {},
    }
}

proof fn lemma_errors_noted(
    setup: &SfpSetup,
    w: Slots,
    m: Mapping,
    hal: &Hal,
    later: &Hal,
    t: StateTables,
    keys: Seq<Seq<char>>,
    report: Map<Seq<char>, Seq<char>>,
    descriptions: Map<Seq<char>, Seq<char>>,
    now: u64,
    n: int,
    key: Seq<char>,
)
    requires
        0 <= n <= keys.len(),
    ensures
        ({
            let after = setup.slots_changed(w, m, hal, later, t, keys, report, descriptions, now, n);
            let named = exists|i: int| 0 <= i < n && #[trigger] keys[i] == key;
            let ends = report[key] == "1"@ || report[key] == "0"@;
            &&& named && ends ==> !after.errors.contains_key(key)
            &&& named && !ends ==> after.errors.contains_key(key) && after.errors[key] == (report[key], descriptions)
            &&& !named ==> same_error(w, after, key)
        }),
    decreases n,
{
    if n > 0 {
        lemma_errors_noted(setup, w, m, hal, later, t, keys, report, descriptions, now, n - 1, key);
        let before = setup.slots_changed(w, m, hal, later, t, keys, report, descriptions, now, n - 1);
        lemma_slot_notes_its_error(
            setup,
            before,
            m,
            hal,
            later,
            t,
            keys[n - 1],
            report[keys[n - 1]],
            descriptions,
            now,
        );
        if exists|i: int| 0 <= i < n && #[trigger] keys[i] == key {
            if keys[n - 1] != key {
                let i = choose|i: int| 0 <= i < n && #[trigger] keys[i] == key;
                assert(0 <= i < n - 1 && keys[i] == key);
            }
        } else {
            assert(keys[n - 1] != key);
            assert(!exists|i: int| 0 <= i < n - 1 && #[trigger] keys[i] == key);
        }
    }
}

/// An ordinary report keeps the error of every slot that it names, whichever it is, and
/// ends it where a module was put in or taken out; the errors of the others stay.
pub proof fn law_report_notes_every_error(
    setup: &SfpSetup,
    w: Slots,
    m: Mapping,
    hal: &Hal,
    later: &Hal,
    t: StateTables,
    report: Map<Seq<char>, Seq<char>>,
    descriptions: Map<Seq<char>, Seq<char>>,
    now: u64,
    key: Seq<char>,
)
    requires
        report.dom().finite(),
        report.dom() != Set::<Seq<char>>::empty(),
    ensures
        ({
            let after = setup.report_applied(w, m, hal, later, t, true, report, descriptions, now);
            let ends = report[key] == "1"@ || report[key] == "0"@;
            &&& report.contains_key(key) && ends ==> !after.errors.contains_key(key)
            &&& report.contains_key(key) && !ends ==> after.errors.contains_key(key) && after.errors[key] == (
                report[key],
                descriptions,
            )
            &&& !report.contains_key(key) ==> after.errors.contains_key(key) == w.errors.contains_key(key)
            &&& !report.contains_key(key) && w.errors.contains_key(key) ==> after.errors[key] == w.errors[key]
        }),
{
    let keys = in_order::<String>(report.dom());
    lemma_in_order::<String>(report.dom());
    let n = keys.len() as int;
    lemma_errors_noted(setup, w, m, hal, later, t, keys, report, descriptions, now, n, key);
    if report.contains_key(key) {
        assert(report.dom().contains(key));
        assert(keys.contains(key));
        assert(keys[keys.index_of(key)] == key);
    } else {
        assert(!report.dom().contains(key));
        assert forall|i: int| 0 <= i < n implies #[trigger] keys[i] != key by {
            assert(keys.contains(keys[i]));
        }
    }
}

/// A report leaves every port alone whose slot it does not name.
pub proof fn law_report_spares_other_slots(
    setup: &SfpSetup,
    w: Slots,
    m: Mapping,
    hal: &Hal,
    later: &Hal,
    t: StateTables,
    status: bool,
    report: Map<Seq<char>, Seq<char>>,
    descriptions: Map<Seq<char>, Seq<char>>,
    now: u64,
    p: usize,
    port: Seq<char>,
)
    requires
        consistent(m),
        m.first_physical(port) == Some(p),
        report.dom().finite(),
        forall|k: Seq<char>| #[trigger] report.contains_key(k) ==> !names_slot(k, p),
    ensures
        port_same(w, setup.report_applied(w, m, hal, later, t, status, report, descriptions, now), port),
{
    let keys = in_order::<String>(report.dom());
    lemma_in_order::<String>(report.dom());
    assert forall|i: int| 0 <= i < keys.len() implies !names_slot(#[trigger] keys[i], p) by {
        assert(keys.contains(keys[i]));
        assert(report.dom().contains(keys[i]));
        assert(report.contains_key(keys[i]));
    }
    lemma_slots_before(setup, w, m, hal, later, t, keys, report, p, descriptions, now, keys.len() as int, port);
}

/// What a report amounts to: an ordinary one where it worked and names any slots, that
/// the system is ready where it worked and names none, and else what it says of all
/// slots, or a failure. Only an ordinary one changes anything.
pub proof fn law_reports_are_told_apart(
    setup: &SfpSetup,
    w: Slots,
    m: Mapping,
    hal: &Hal,
    later: &Hal,
    t: StateTables,
    report: Map<Seq<char>, Seq<char>>,
    descriptions: Map<Seq<char>, Seq<char>>,
    now: u64,
    key: Seq<char>,
)
    ensures
        report.contains_key(key) ==> classified(true, report) == SystemEvent::Normal,
        report.dom() == Set::<Seq<char>>::empty() ==> classified(true, report) == SystemEvent::BecomeReady,
        !report.contains_key("-1"@) ==> classified(false, report) == SystemEvent::Fail,
        report.contains_key("-1"@) ==> {
            &&& report["-1"@] == "system_not_ready"@ ==> classified(false, report) == SystemEvent::NotReady
            &&& report["-1"@] == "system_become_ready"@ ==> classified(false, report) == SystemEvent::BecomeReady
            &&& report["-1"@] == "normal"@ ==> classified(false, report) == SystemEvent::Normal
            &&& report["-1"@] != "system_not_ready"@ && report["-1"@] != "system_become_ready"@ && report["-1"@]
                != "normal"@ ==> classified(false, report) == SystemEvent::Fail
        },
        report.dom() == Set::<Seq<char>>::empty() ==> setup.report_applied(
            w,
            m,
            hal,
            later,
            t,
            true,
            report,
            descriptions,
            now,
        ) == w,
        !(report.contains_key("-1"@) && report["-1"@] == "normal"@) ==> setup.report_applied(
            w,
            m,
            hal,
            later,
            t,
            false,
            report,
            descriptions,
            now,
        ) == w,
        report.contains_key(key) ==> report_completed(true, report) == report,
        report.dom() == Set::<Seq<char>>::empty() ==> report_completed(true, report)["-1"@] == "system_become_ready"@,
        report.contains_key("-1"@) ==> report_completed(false, report) == report,
        !report.contains_key("-1"@) ==> report_completed(false, report)["-1"@] == "system_fail"@,
{
    if report.contains_key(key) {
        assert(report.dom().contains(key));
    }
    law_event_names_read_back(SystemEvent::NotReady);
    law_event_names_read_back(SystemEvent::BecomeReady);
    law_event_names_read_back(SystemEvent::Normal);
    law_event_names_read_back(SystemEvent::Fail);
}

} // verus!
