//! What holds of the handling of modules as a whole.

use vstd::prelude::*;
use vstd::string::*;
use crate::db::{field_at, DbState, Fields, TableId};
use crate::error::XcvrdError;
use crate::hal::{present, Command, Hal};
use crate::ord_map::{among, lemma_among_step};
use crate::text::{dec_int, holds_text, parse_unsigned, stands_at};
use crate::dom::dom_mgr::four_tables;
use crate::dom::laws::same_table;
use crate::xcvrd::{identity, identity_posted, not_ready, stale_removed};
use crate::xcvrd::sfp_state_update::{
    classified, error_text, marked_for, vendor_text, SfpSetup, Slots, StateTables, SystemEvent, MAX_RECOVER_ATTEMPTS,
};
use crate::xcvrd_utilities::common::{
    cmis_state_text, law_status_keeps_bring_up_state, with_status, CMIS_STATE_INSERTED,
};
use crate::xcvrd_utilities::port_event_helper::{event_applied, physical_of, EventState, Mapping, PortChangeEventType};
use crate::xcvrd_utilities::sfp_status_helper::{
    bar_joined, blocking, error_blocked, generic_descriptions, SFP_ERROR_DESCRIPTION_BLOCKING,
    vendor_specific, SFP_STATUS_INSERTED, SFP_STATUS_REMOVED,
};
use crate::xcvrd_utilities::xcvr_table_helper::{NPU_SI_SETTINGS_DEFAULT_VALUE, NPU_SI_SETTINGS_SYNC_STATUS_KEY};

verus! {

proof fn lemma_first_part_leads(parts: Seq<Seq<char>>)
    requires
        parts.len() > 0,
    ensures
        parts[0].len() <= bar_joined(parts).len(),
        bar_joined(parts).subrange(0, parts[0].len() as int) == parts[0],
    decreases parts.len(),
{
    if parts.len() > 1 {
        let d = parts.drop_last();
        lemma_first_part_leads(d);
        assert(d[0] == parts[0]);
        assert(bar_joined(parts).subrange(0, parts[0].len() as int) =~= bar_joined(d).subrange(
            0,
            parts[0].len() as int,
        ));
    } else {
        assert(bar_joined(parts).subrange(0, parts[0].len() as int) =~= parts[0]);
    }
}

/// The text of an error that keeps the EEPROM from being read says so, whatever
/// else it says.
pub proof fn law_blocking_error_says_so(bits: u32, vendor: Option<Seq<char>>)
    requires
        blocking(bits),
    ensures
        holds_text(error_text(bits, vendor), SFP_ERROR_DESCRIPTION_BLOCKING@),
{
    let g = generic_descriptions(bits);
    assert(g.len() > 0);
    assert(g[0] == SFP_ERROR_DESCRIPTION_BLOCKING@);
    let parts = match vendor {
        Some(v) => if vendor_specific(bits) {
            g.push(v)
        } else {
            g
        },
        None => g,
    };
    lemma_first_part_leads(parts);
    assert(stands_at(error_text(bits, vendor), SFP_ERROR_DESCRIPTION_BLOCKING@, 0));
}

proof fn lemma_no_part_holds(parts: Seq<Seq<char>>, p: Seq<char>)
    requires
        p.len() > 0,
        !p.contains('|'),
        forall|i: int| 0 <= i < parts.len() ==> !holds_text(#[trigger] parts[i], p),
    ensures
        !holds_text(bar_joined(parts), p),
    decreases parts.len(),
{
    let all = bar_joined(parts);
    if parts.len() > 1 {
        let d = parts.drop_last();
        let head = bar_joined(d);
        let last = parts.last();
        reveal_strlit("|");
        assert("|"@.len() == 1 && "|"@[0] == '|');
        assert forall|i: int| 0 <= i < d.len() implies !holds_text(#[trigger] d[i], p) by {
            assert(d[i] == parts[i]);
        }
        lemma_no_part_holds(d, p);
        assert(!holds_text(parts[parts.len() - 1], p));
        assert forall|i: int| !#[trigger] stands_at(all, p, i) by {
            if stands_at(all, p, i) {
                let n = head.len() as int;
                if i + p.len() <= n {
                    assert(head.subrange(i, i + p.len()) =~= p);
                    assert(stands_at(head, p, i));
                } else if i > n {
                    assert(last.subrange(i - n - 1, i - n - 1 + p.len()) =~= p) by {
                        assert forall|k: int| 0 <= k < p.len() implies last[i - n - 1 + k] == #[trigger] p[k] by {
                            assert(all.subrange(i, i + p.len())[k] == all[i + k]);
                        }
                    }
                    assert(stands_at(last, p, i - n - 1));
                } else {
                    assert(all.subrange(i, i + p.len())[n - i] == all[n]);
                    assert(p[n - i] == '|');
                }
            }
        }
    } else if parts.len() == 1 {
        assert(!holds_text(parts[0], p));
    }
}

proof fn lemma_differs(s: Seq<char>, p: Seq<char>)
    requires
        p.len() > 1,
        forall|i: int| 0 <= i <= s.len() - p.len() ==> #[trigger] s[i] != p[0] || s[i + 1] != p[1],
    ensures
        !holds_text(s, p),
{
    assert forall|i: int| !#[trigger] stands_at(s, p, i) by {
        if stands_at(s, p, i) {
            assert(s.subrange(i, i + p.len())[0] == s[i]);
            assert(s.subrange(i, i + p.len())[1] == s[i + 1]);
        }
    }
}

proof fn lemma_descriptions_differ()
    ensures
        !SFP_ERROR_DESCRIPTION_BLOCKING@.contains('|'),
        SFP_ERROR_DESCRIPTION_BLOCKING@.len() > 1,
        !holds_text("Power budget exceeded"@, SFP_ERROR_DESCRIPTION_BLOCKING@),
        !holds_text("Bus stuck (I2C data or clock shorted)"@, SFP_ERROR_DESCRIPTION_BLOCKING@),
        !holds_text("Bad or unsupported EEPROM"@, SFP_ERROR_DESCRIPTION_BLOCKING@),
        !holds_text("Unsupported cable"@, SFP_ERROR_DESCRIPTION_BLOCKING@),
        !holds_text("High temperature"@, SFP_ERROR_DESCRIPTION_BLOCKING@),
        !holds_text("Bad cable (module/cable is shorted)"@, SFP_ERROR_DESCRIPTION_BLOCKING@),
{
    let p = SFP_ERROR_DESCRIPTION_BLOCKING@;
    reveal_strlit("Blocking EEPROM from being read");
    reveal_strlit("Power budget exceeded");
    reveal_strlit("Bus stuck (I2C data or clock shorted)");
    reveal_strlit("Bad or unsupported EEPROM");
    reveal_strlit("Unsupported cable");
    reveal_strlit("High temperature");
    reveal_strlit("Bad cable (module/cable is shorted)");
    assert(p.len() == 31);
    lemma_differs("Power budget exceeded"@, p);
    lemma_differs("Bus stuck (I2C data or clock shorted)"@, p);
    lemma_differs("Bad or unsupported EEPROM"@, p);
    lemma_differs("Unsupported cable"@, p);
    lemma_differs("High temperature"@, p);
    lemma_differs("Bad cable (module/cable is shorted)"@, p);
}

/// The text of an error that leaves the EEPROM readable does not say that it
/// blocks, unless the vendor's own words do.
pub proof fn law_other_errors_do_not_say_so(bits: u32, vendor: Option<Seq<char>>)
    requires
        !blocking(bits),
        vendor_specific(bits) ==> (vendor matches Some(v) ==> !holds_text(v, SFP_ERROR_DESCRIPTION_BLOCKING@)),
    ensures
        !holds_text(error_text(bits, vendor), SFP_ERROR_DESCRIPTION_BLOCKING@),
{
    let p = SFP_ERROR_DESCRIPTION_BLOCKING@;
    lemma_descriptions_differ();
    let g = generic_descriptions(bits);
    assert(forall|i: int| 0 <= i < g.len() ==> !holds_text(#[trigger] g[i], p));
    match vendor {
        Some(v) => if vendor_specific(bits) {
            lemma_no_part_holds(g.push(v), p);
        } else {
            lemma_no_part_holds(g, p);
        },
        None => {
            lemma_no_part_holds(g, p);
        },
    }
}

/// The slot that the key of a change event names.
pub open spec fn slot_of(key: Seq<char>) -> Option<usize> {
    match parse_unsigned(key, usize::MAX as nat) {
        Some(p) => Some(p as usize),
        None => None,
    }
}

/// A blocking error of a slot: the port's status is the bits and its error blocks
/// the monitoring, the rows read from the EEPROM are gone, and the identity row
/// stays.
pub proof fn law_blocking_error_keeps_the_identity(
    setup: &SfpSetup,
    w: Slots,
    m: Mapping,
    hal: &Hal,
    t: StateTables,
    key: Seq<char>,
    port: Seq<char>,
    value: Seq<char>,
    descriptions: Map<Seq<char>, Seq<char>>,
    gone: TableId,
)
    requires
        parse_unsigned(value, u32::MAX as nat) matches Some(n) && blocking(n as u32),
        physical_of(m, port) is Some,
        t.int_tbl != t.status_sw_tbl,
        !setup.removal_tables@.contains(t.int_tbl),
        !setup.removal_tables@.contains(t.status_sw_tbl),
        setup.removal_tables@.contains(gone),
    ensures
        ({
            let r = setup.failed(w, m, hal, t, key, port, value, descriptions);
            &&& field_at(r.db, t.status_sw_tbl, port, "status"@) == Some(value)
            &&& error_blocked(r.db, t.status_sw_tbl, port)
            &&& !r.db.contains_key((gone, port))
            &&& r.db.contains_key((t.int_tbl, port)) == w.db.contains_key((t.int_tbl, port))
            &&& w.db.contains_key((t.int_tbl, port)) ==> r.db[(t.int_tbl, port)] == w.db[(t.int_tbl, port)]
        }),
{
    let bits = parse_unsigned(value, u32::MAX as nat)->0 as u32;
    let vendor = vendor_text(hal, slot_of(key), key, descriptions);
    law_blocking_error_says_so(bits, vendor);
    law_status_keeps_bring_up_state(
        w.db,
        t.status_sw_tbl,
        port,
        value,
        error_text(bits, vendor),
        t.status_sw_tbl,
        port,
    );
}

/// An error of a slot that leaves the EEPROM readable does not block the monitoring
/// of the port, unless the vendor's own words say that it does, and keeps the rows
/// that were read from the EEPROM.
pub proof fn law_other_error_leaves_the_port_monitored(
    setup: &SfpSetup,
    w: Slots,
    m: Mapping,
    hal: &Hal,
    t: StateTables,
    key: Seq<char>,
    port: Seq<char>,
    value: Seq<char>,
    descriptions: Map<Seq<char>, Seq<char>>,
    tbl: TableId,
)
    requires
        parse_unsigned(value, u32::MAX as nat) matches Some(n) && !blocking(n as u32) && (vendor_specific(
            n as u32,
        ) ==> (vendor_text(hal, slot_of(key), key, descriptions) matches Some(v) ==> !holds_text(
            v,
            SFP_ERROR_DESCRIPTION_BLOCKING@,
        ))),
        tbl != t.status_sw_tbl,
    ensures
        ({
            let r = setup.failed(w, m, hal, t, key, port, value, descriptions);
            &&& field_at(r.db, t.status_sw_tbl, port, "status"@) == Some(value)
            &&& !error_blocked(r.db, t.status_sw_tbl, port)
            &&& same_table(w.db, r.db, tbl)
        }),
{
    let bits = parse_unsigned(value, u32::MAX as nat)->0 as u32;
    let vendor = vendor_text(hal, slot_of(key), key, descriptions);
    law_other_errors_do_not_say_so(bits, vendor);
    law_status_keeps_bring_up_state(
        w.db,
        t.status_sw_tbl,
        port,
        value,
        error_text(bits, vendor),
        t.status_sw_tbl,
        port,
    );
}

/// A module taken out: the port's status says so without an error, its bring-up is
/// set back to the start, its rows are gone, its EEPROM is not to be read again, and
/// its decoded interface is dropped.
pub proof fn law_unplugged_module_leaves_no_rows(
    setup: &SfpSetup,
    w: Slots,
    m: Mapping,
    hal: &Hal,
    t: StateTables,
    physical: usize,
    port: Seq<char>,
    gone: TableId,
)
    requires
        physical_of(m, port) is Some,
        t.int_tbl != t.status_sw_tbl,
        !setup.removal_tables@.contains(t.status_sw_tbl),
        gone == t.int_tbl || setup.removal_tables@.contains(gone),
        physical < hal.sfps@.len(),
    ensures
        ({
            let r = setup.removed(w, m, hal, t, physical, port);
            &&& field_at(r.db, t.status_sw_tbl, port, "status"@) == Some(SFP_STATUS_REMOVED@)
            &&& field_at(r.db, t.status_sw_tbl, port, "error"@) == Some("N/A"@)
            &&& cmis_state_text(r.db, t.status_sw_tbl, port) == CMIS_STATE_INSERTED@
            &&& !r.db.contains_key((gone, port))
            &&& !r.retry.contains(port)
            &&& r.commands == w.commands.push((physical, Command::RemoveXcvrApi))
        }),
{
    let tables = seq![t.int_tbl] + setup.removal_tables@;
    assert(tables[0] == t.int_tbl);
    if setup.removal_tables@.contains(gone) {
        let i = setup.removal_tables@.index_of(gone);
        assert(tables[1 + i] == gone);
    }
    if tables.contains(t.status_sw_tbl) {
        let i = tables.index_of(t.status_sw_tbl);
        assert(setup.removal_tables@[i - 1] == t.status_sw_tbl);
    }
    reveal_strlit("cmis_state");
    reveal_strlit("status");
    reveal_strlit("error");
    assert("cmis_state"@.len() == 10);
    assert("status"@.len() == 6);
    assert("error"@.len() == 5);
}

/// The table is none of those that an insertion writes besides the status table.
pub open spec fn apart(setup: &SfpSetup, t: StateTables, tbl: TableId) -> bool {
    &&& tbl != t.int_tbl
    &&& tbl != t.dom_threshold_tbl
    &&& setup.vdm_threshold_tables matches Some(v) ==> !four_tables(v.thresholds).contains(tbl)
}

proof fn lemma_thresholds_stay_apart(
    setup: &SfpSetup,
    db: DbState,
    m: Mapping,
    hal: &Hal,
    t: StateTables,
    port: Seq<char>,
    now: u64,
    tbl: TableId,
)
    requires
        apart(setup, t, tbl),
    ensures
        same_table(
            db,
            setup.thresholds_posted(
                identity_posted(db, t.int_tbl, m, hal, port),
                Map::empty(),
                m,
                hal,
                t.dom_threshold_tbl,
                port,
                now,
            ),
            tbl,
        ),
{
    match setup.vdm_threshold_tables {
        Some(v) => {
            let f = four_tables(v.thresholds);
            assert(f[0] != tbl && f[1] != tbl && f[2] != tbl && f[3] != tbl);
        },
        None => {},
    }
}

/// A module put in ends any error of its port and leaves its bring-up state alone.
pub proof fn law_inserted_module_has_no_error(
    setup: &SfpSetup,
    w: Slots,
    m: Mapping,
    hal: &Hal,
    later: &Hal,
    t: StateTables,
    port: Seq<char>,
    now: u64,
)
    requires
        apart(setup, t, t.status_sw_tbl),
    ensures
        ({
            let r = setup.inserted(w, m, hal, later, t, port, now);
            &&& field_at(r.db, t.status_sw_tbl, port, "status"@) == Some(SFP_STATUS_INSERTED@)
            &&& field_at(r.db, t.status_sw_tbl, port, "error"@) == Some("N/A"@)
            &&& cmis_state_text(r.db, t.status_sw_tbl, port) == cmis_state_text(
                w.db,
                t.status_sw_tbl,
                port,
            )
        }),
{
    law_status_keeps_bring_up_state(
        w.db,
        t.status_sw_tbl,
        port,
        SFP_STATUS_INSERTED@,
        "N/A"@,
        t.status_sw_tbl,
        port,
    );
    let d = with_status(w.db, t.status_sw_tbl, port, SFP_STATUS_INSERTED@, "N/A"@);
    lemma_thresholds_stay_apart(setup, d, m, hal, t, port, now, t.status_sw_tbl);
    lemma_thresholds_stay_apart(setup, d, m, later, t, port, now, t.status_sw_tbl);
    let r = setup.inserted(w, m, hal, later, t, port, now);
    assert(r.db.contains_key((t.status_sw_tbl, port)) == d.contains_key((t.status_sw_tbl, port)));
}

/// An EEPROM that can be read neither at once nor after the wait is to be read
/// again, and one that can be read is not put among those.
pub proof fn law_unreadable_module_is_read_again(
    setup: &SfpSetup,
    w: Slots,
    m: Mapping,
    hal: &Hal,
    later: &Hal,
    t: StateTables,
    port: Seq<char>,
    now: u64,
)
    ensures
        setup.inserted(w, m, hal, later, t, port, now).retry == if not_ready(m, hal, port) && not_ready(
            m,
            later,
            port,
        ) {
            w.retry.insert(port)
        } else {
            w.retry
        },
{
}

/// The restoring of rows leaves the tables alone for a port whose rows are
/// complete, whose module was taken out, whose EEPROM is to be read again, which
/// has an error, which the configuration has no more, whose module is not there,
/// or which was tried too often.
pub proof fn law_restoring_is_restrained(
    setup: &SfpSetup,
    w: Slots,
    m: Mapping,
    hal: &Hal,
    later: &Hal,
    t: StateTables,
    deconfigured: Option<Set<Seq<char>>>,
    port: Seq<char>,
    now: u64,
)
    requires
        ({
            ||| w.db.contains_key((t.int_tbl, port)) && w.db.contains_key((t.dom_threshold_tbl, port))
            ||| field_at(w.db, t.status_sw_tbl, port, "status"@) == Some(SFP_STATUS_REMOVED@)
            ||| w.retry.contains(port)
            ||| field_at(w.db, t.status_sw_tbl, port, "error"@) matches Some(e) && e != "N/A"@ && e.len() > 0
            ||| deconfigured matches Some(s) && s.contains(port)
            ||| m.first_physical(port) is None
            ||| m.first_physical(port) matches Some(p) && !present(hal, p)
            ||| w.attempts.contains_key(port) && w.attempts[port] >= MAX_RECOVER_ATTEMPTS
        }),
    ensures
        setup.port_restored(w, m, hal, later, t, deconfigured, port, now).db == w.db,
        setup.port_restored(w, m, hal, later, t, deconfigured, port, now).retry == w.retry,
{
}

/// The restoring of the rows of a port reads no module where they are not to be
/// restored: what the modules report makes no difference.
pub proof fn law_restoring_reads_only_where_wanted(
    setup: &SfpSetup,
    w: Slots,
    m: Mapping,
    hal: &Hal,
    later: &Hal,
    other: &Hal,
    other_later: &Hal,
    t: StateTables,
    deconfigured: Option<Set<Seq<char>>>,
    port: Seq<char>,
    now: u64,
)
    requires
        !setup.restoring_wanted(w, m, t, deconfigured, port),
    ensures
        setup.port_restored(w, m, hal, later, t, deconfigured, port, now) == setup.port_restored(
            w,
            m,
            other,
            other_later,
            t,
            deconfigured,
            port,
            now,
        ),
{
}

/// A module that was taken out stays without rows: the restoring of rows does not
/// bring them back, even while the platform still reports the module.
pub proof fn law_unplugged_module_is_not_restored(
    setup: &SfpSetup,
    w: Slots,
    m: Mapping,
    hal: &Hal,
    later: &Hal,
    t: StateTables,
    physical: usize,
    deconfigured: Option<Set<Seq<char>>>,
    port: Seq<char>,
    now: u64,
)
    requires
        physical_of(m, port) is Some,
        t.int_tbl != t.status_sw_tbl,
        !setup.removal_tables@.contains(t.status_sw_tbl),
        physical < hal.sfps@.len(),
    ensures
        ({
            let r = setup.removed(w, m, hal, t, physical, port);
            setup.port_restored(r, m, hal, later, t, deconfigured, port, now).db == r.db
        }),
{
    law_unplugged_module_leaves_no_rows(setup, w, m, hal, t, physical, port, t.int_tbl);
}

/// However often rows are restored, no port is tried more often than the limit.
pub proof fn law_restoring_is_bounded(
    setup: &SfpSetup,
    w: Slots,
    m: Mapping,
    hal: &Hal,
    later: &Hal,
    t: StateTables,
    deconfigured: Option<Set<Seq<char>>>,
    now: u64,
    n: int,
)
    requires
        forall|k: Seq<char>| #[trigger] w.attempts.contains_key(k) ==> w.attempts[k] <= MAX_RECOVER_ATTEMPTS,
    ensures
        ({
            let r = setup.ports_restored(w, m, hal, later, t, deconfigured, now, n);
            forall|k: Seq<char>| #[trigger]
                r.attempts.contains_key(k) ==> r.attempts[k] <= MAX_RECOVER_ATTEMPTS
        }),
    decreases n,
{
    if n > 0 {
        law_restoring_is_bounded(setup, w, m, hal, later, t, deconfigured, now, n - 1);
        let before = setup.ports_restored(w, m, hal, later, t, deconfigured, now, n - 1);
        let r = setup.ports_restored(w, m, hal, later, t, deconfigured, now, n);
        let port = m.logical[n - 1];
        assert(before.attempts.contains_key(port) ==> before.attempts[port] <= MAX_RECOVER_ATTEMPTS);
        assert forall|k: Seq<char>| #[trigger] r.attempts.contains_key(k) implies r.attempts[k]
            <= MAX_RECOVER_ATTEMPTS by {
            if k != port {
                assert(before.attempts.contains_key(k));
                assert(r.attempts[k] == before.attempts[k]);
            }
        }
    }
}

/// A logical port that the configuration has no more has no row left in the tables
/// of its module, and none in the status table.
pub proof fn law_deconfigured_port_has_no_rows(
    setup: &SfpSetup,
    w: Slots,
    m: Mapping,
    t: StateTables,
    port: Seq<char>,
    gone: TableId,
)
    requires
        physical_of(m, port) is Some,
        gone == t.int_tbl || gone == t.status_sw_tbl || setup.removal_tables@.contains(gone),
    ensures
        !setup.port_deconfigured(w, m, t, port).db.contains_key((gone, port)),
        !setup.port_deconfigured(w, m, t, port).retry.contains(port),
{
    let tables = seq![t.int_tbl] + setup.removal_tables@ + seq![t.status_sw_tbl];
    assert(tables[0] == t.int_tbl);
    assert(tables[tables.len() - 1] == t.status_sw_tbl);
    if setup.removal_tables@.contains(gone) {
        let i = setup.removal_tables@.index_of(gone);
        assert(tables[1 + i] == gone);
    }
}

/// A report that is no ordinary one changes nothing.
pub proof fn law_system_report_changes_nothing(
    setup: &SfpSetup,
    w: Slots,
    m: Mapping,
    hal: &Hal,
    later: &Hal,
    t: StateTables,
    status: bool,
    d: Map<Seq<char>, Seq<char>>,
    descriptions: Map<Seq<char>, Seq<char>>,
    now: u64,
)
    requires
        classified(status, d) != SystemEvent::Normal,
    ensures
        setup.report_applied(w, m, hal, later, t, status, d, descriptions, now) == w,
{
}

/// The table is none of those of thresholds.
pub open spec fn holds_no_thresholds(setup: &SfpSetup, t: StateTables, tbl: TableId) -> bool {
    &&& tbl != t.dom_threshold_tbl
    &&& setup.vdm_threshold_tables matches Some(v) ==> !four_tables(v.thresholds).contains(tbl)
}

proof fn lemma_thresholds_stay_in_their_tables(
    setup: &SfpSetup,
    db: DbState,
    m: Mapping,
    hal: &Hal,
    t: StateTables,
    port: Seq<char>,
    now: u64,
    tbl: TableId,
)
    requires
        holds_no_thresholds(setup, t, tbl),
    ensures
        same_table(
            db,
            setup.thresholds_posted(db, Map::empty(), m, hal, t.dom_threshold_tbl, port, now),
            tbl,
        ),
{
    match setup.vdm_threshold_tables {
        Some(v) => {
            let f = four_tables(v.thresholds);
            assert(f[0] != tbl && f[1] != tbl && f[2] != tbl && f[3] != tbl);
        },
        None => {},
    }
}

/// A port that leaves the configuration and comes back: in between it is not mapped,
/// is among the ports that the configuration has no more, and has neither an identity
/// nor a status row. Once it is back it is mapped as before and no longer among those
/// ports; where its module is there, can be read and has no error, its identity is
/// published anew, its status says that the module is there and without an error, and
/// its settings are marked as not notified yet.
pub proof fn law_removed_port_comes_back(
    setup: &SfpSetup,
    w: Slots,
    m: Mapping,
    hal: &Hal,
    t: StateTables,
    state_port: TableId,
    without: Set<Seq<char>>,
    remove: EventState,
    add: EventState,
    fields: Fields,
    now: u64,
)
    requires
        remove.event_type == PortChangeEventType::PortRemove,
        add.event_type == PortChangeEventType::PortAdd,
        remove.port_name == add.port_name,
        remove.port_index == add.port_index,
        m.first_physical(add.port_name) == Some(add.port_index as usize),
        physical_of(m, add.port_name) == Some(add.port_index as usize),
        identity(m, hal, add.port_name) == Ok::<Option<Fields>, XcvrdError>(Some(fields)),
        !w.errors.contains_key(dec_int(add.port_index as int)),
        setup.state_port_tbl == Some(state_port),
        t.int_tbl != t.status_sw_tbl,
        t.int_tbl != state_port,
        t.status_sw_tbl != state_port,
        holds_no_thresholds(setup, t, t.int_tbl),
        holds_no_thresholds(setup, t, t.status_sw_tbl),
        holds_no_thresholds(setup, t, state_port),
    ensures
        ({
            let port = add.port_name;
            let m_gone = event_applied(m, remove);
            let gone = setup.port_deconfigured(w, m, t, port);
            let m_back = event_applied(m_gone, add);
            let back = setup.port_configured(gone, m_back, hal, t, add, now);
            &&& m_gone.first_physical(port) is None
            &&& marked_for(Some(without), remove) == Some(without.insert(port))
            &&& !gone.db.contains_key((t.int_tbl, port))
            &&& !gone.db.contains_key((t.status_sw_tbl, port))
            &&& m_back.first_physical(port) == m.first_physical(port)
            &&& marked_for(marked_for(Some(without), remove), add) == Some(without.remove(port))
            &&& back.db.contains_key((t.int_tbl, port)) && back.db[(t.int_tbl, port)] == fields
            &&& field_at(back.db, t.status_sw_tbl, port, "status"@) == Some(SFP_STATUS_INSERTED@)
            &&& field_at(back.db, t.status_sw_tbl, port, "error"@) == Some("N/A"@)
            &&& field_at(back.db, state_port, port, NPU_SI_SETTINGS_SYNC_STATUS_KEY@) == Some(
                NPU_SI_SETTINGS_DEFAULT_VALUE@,
            )
        }),
{
    let port = add.port_name;
    let m_back = event_applied(event_applied(m, remove), add);
    let gone = setup.port_deconfigured(w, m, t, port);
    law_deconfigured_port_has_no_rows(setup, w, m, t, port, t.int_tbl);
    law_deconfigured_port_has_no_rows(setup, w, m, t, port, t.status_sw_tbl);
    assert(without.insert(port).remove(port) =~= without.remove(port));
    assert(identity(m_back, hal, port) == identity(m, hal, port));
    let seeded = setup.reseeded(gone.db, port);
    let posted = identity_posted(seeded, t.int_tbl, m_back, hal, port);
    lemma_thresholds_stay_in_their_tables(setup, posted, m_back, hal, t, port, now, t.int_tbl);
    lemma_thresholds_stay_in_their_tables(setup, posted, m_back, hal, t, port, now, t.status_sw_tbl);
    lemma_thresholds_stay_in_their_tables(setup, posted, m_back, hal, t, port, now, state_port);
    assert(!seeded.contains_key((t.int_tbl, port)));
    assert(posted[(t.int_tbl, port)] =~= fields);
    let published = setup.thresholds_posted(posted, Map::empty(), m_back, hal, t.dom_threshold_tbl, port, now);
    assert(published.contains_key((t.int_tbl, port)) == posted.contains_key((t.int_tbl, port)));
    assert(published.contains_key((state_port, port)) == posted.contains_key((state_port, port)));
    reveal_strlit("status");
    reveal_strlit("error");
    assert("status"@.len() == 6);
    assert("error"@.len() == 5);
}

/// An error of a slot is kept until a module is put in or taken out there.
pub proof fn law_error_is_kept_until_the_module_changes(
    setup: &SfpSetup,
    w: Slots,
    key: Seq<char>,
    value: Seq<char>,
    descriptions: Map<Seq<char>, Seq<char>>,
    other: Seq<char>,
)
    ensures
        ({
            let r = setup.error_noted(w, key, value, descriptions);
            &&& r.errors.contains_key(key) <==> value != SFP_STATUS_INSERTED@ && value != SFP_STATUS_REMOVED@
            &&& r.errors.contains_key(key) ==> r.errors[key] == (value, descriptions)
            &&& other != key ==> r.errors.contains_key(other) == w.errors.contains_key(other)
        }),
{
}

/// `k` is among the first `n` logical ports, and its module is not there.
pub open spec fn stale(m: Mapping, hal: &Hal, n: int, k: Seq<char>) -> bool {
    &&& among(m.logical, n, k)
    &&& m.first_physical(k) matches Some(p) && !present(hal, p)
}

/// The identity rows of the mapped ports whose module is not there are gone after
/// the start, and no others.
pub proof fn law_stale_identities_are_gone(
    db: DbState,
    m: Mapping,
    t: TableId,
    hal: &Hal,
    n: int,
    t2: TableId,
    key: Seq<char>,
)
    requires
        0 <= n <= m.logical.len(),
    ensures
        stale_removed(db, m, t, hal, n).contains_key((t2, key)) <==> db.contains_key((t2, key)) && !(t2 == t
            && stale(m, hal, n, key)),
        stale_removed(db, m, t, hal, n).contains_key((t2, key)) ==> stale_removed(db, m, t, hal, n)[(t2, key)]
            == db[(t2, key)],
    decreases n,
{
    if n > 0 {
        law_stale_identities_are_gone(db, m, t, hal, n - 1, t2, key);
        law_stale_identities_are_gone(db, m, t, hal, n - 1, t, m.logical[n - 1]);
        lemma_among_step(m.logical, n - 1);
        assert(among(m.logical, n, key) <==> key == m.logical[n - 1] || among(m.logical, n - 1, key));
        assert(seq![t].contains(t2) <==> t2 == t) by {
            assert(seq![t][0] == t);
        }
    }
}

} // verus!
