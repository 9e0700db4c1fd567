//! What a module does to the rows of the others: nothing.

use vstd::prelude::*;
use vstd::string::*;
use crate::clock::utc_text;
use crate::db::{fields_at, with_set, DbState, Fields, TableId};
use crate::dom::dom_mgr::{
    firmware_posted, freeze_needed, pm_posted, set_for_names, DomSetup, FlagStatusTables, VdmPmFirmwareTables,
};
use crate::dom::utilities::db::{diagnosed, shown, stamped, Beautifier, Diagnostic};
use crate::dom::utilities::dom_sensor::{monitors_posted, port_flags_posted};
use crate::dom::utilities::flags::{flags_tracked, FlagTables};
use crate::dom::utilities::vdm::{
    confirmed, flag_tables_of, real_values_posted, type_posted, type_tracked, typed, types_posted, types_tracked,
    vdm_flags_posted, VdmFlagTables,
};
use crate::error::XResult;
use crate::hal::{dict_read, Hal};
use crate::text::parse_unsigned;
use crate::value::{DictState, Reply, ReplyState};
use crate::xcvrd_utilities::common::port_rows_deleted;
use crate::xcvrd_utilities::port_event_helper::{consistent, physical_of, ports_of, Mapping};
use crate::xcvrd_utilities::xcvr_table_helper::VdmType;

verus! {

/// The row is the same in both.
pub open spec fn same_row(a: DbState, b: DbState, t: TableId, k: Seq<char>) -> bool {
    a.contains_key((t, k)) == b.contains_key((t, k)) && fields_at(a, t, k) == fields_at(b, t, k)
}

/// The rows of every port but those of the physical port `p` are the same.
pub open spec fn same_but(a: DbState, b: DbState, m: Mapping, p: usize) -> bool {
    forall|t: TableId, k: Seq<char>| !ports_of(m, p).contains(k) ==> #[trigger] same_row(a, b, t, k)
}

/// No logical port is named by a plain number, which would stand for the physical
/// port of that number.
pub open spec fn plainly_named(m: Mapping) -> bool {
    forall|name: Seq<char>| #[trigger]
        m.to_physical.contains_key(name) ==> parse_unsigned(name, usize::MAX as nat) is None
}

proof fn lemma_chain(a: DbState, b: DbState, c: DbState, m: Mapping, p: usize)
    requires
        same_but(a, b, m, p),
        same_but(b, c, m, p),
    ensures
        same_but(a, c, m, p),
{
    assert forall|t: TableId, k: Seq<char>| !ports_of(m, p).contains(k) implies #[trigger] same_row(a, c, t, k) by {
        assert(same_row(a, b, t, k));
        assert(same_row(b, c, t, k));
    }
}

/// A row of one of the physical port's own ports written.
proof fn lemma_own_set(db: DbState, m: Mapping, p: usize, t: TableId, key: Seq<char>, f: Fields)
    requires
        ports_of(m, p).contains(key),
    ensures
        same_but(db, with_set(db, t, key, f), m, p),
{
}

/// The same fields written to a row of another port.
proof fn lemma_both_set(a: DbState, b: DbState, m: Mapping, p: usize, t: TableId, key: Seq<char>, f: Fields)
    requires
        same_but(a, b, m, p),
        !ports_of(m, p).contains(key),
    ensures
        same_but(with_set(a, t, key, f), with_set(b, t, key, f), m, p),
{
    assert forall|t2: TableId, k: Seq<char>| !ports_of(m, p).contains(k) implies #[trigger] same_row(
        with_set(a, t, key, f),
        with_set(b, t, key, f),
        t2,
        k,
    ) by {
        assert(same_row(a, b, t2, k));
        assert(same_row(a, b, t, key));
    }
}

proof fn lemma_own_tracked(db: DbState, m: Mapping, p: usize, key: Seq<char>, d: DictState, time: Seq<char>, ft: FlagTables)
    requires
        ports_of(m, p).contains(key),
    ensures
        same_but(db, flags_tracked(db, key, d, time, ft), m, p),
{
}

proof fn lemma_both_tracked(
    a: DbState,
    b: DbState,
    m: Mapping,
    p: usize,
    key: Seq<char>,
    d: DictState,
    time: Seq<char>,
    ft: FlagTables,
)
    requires
        same_but(a, b, m, p),
        !ports_of(m, p).contains(key),
    ensures
        same_but(flags_tracked(a, key, d, time, ft), flags_tracked(b, key, d, time, ft), m, p),
{
    assert(same_row(a, b, ft.value, key));
    assert(same_row(a, b, ft.change_count, key));
    assert forall|t2: TableId, k: Seq<char>| !ports_of(m, p).contains(k) implies #[trigger] same_row(
        flags_tracked(a, key, d, time, ft),
        flags_tracked(b, key, d, time, ft),
        t2,
        k,
    ) by {
        assert(same_row(a, b, t2, k));
        assert(same_row(a, b, ft.set_time, key));
        assert(same_row(a, b, ft.clear_time, key));
    }
}

/// Every slot but `p` reports the same.
spec fn twin(hal: &Hal, other: &Hal, p: usize) -> bool {
    &&& hal.sfps@.len() == other.sfps@.len()
    &&& forall|q: usize| q != p ==> #[trigger] hal.sfps@[q as int] == other.sfps@[q as int]
}

proof fn lemma_monitors(
    a: DbState,
    b: DbState,
    m: Mapping,
    p: usize,
    hal: &Hal,
    other: &Hal,
    port: Seq<char>,
    t: TableId,
    what: Diagnostic,
    kind: Beautifier,
    now: u64,
)
    requires
        same_but(a, b, m, p),
        twin(hal, other, p),
        !ports_of(m, p).contains(port),
        m.first_physical(port) matches Some(q) && q != p,
    ensures
        same_but(
            monitors_posted(a, Map::empty(), false, m, hal, port, t, what, kind, now),
            monitors_posted(b, Map::empty(), false, m, other, port, t, what, kind, now),
            m,
            p,
        ),
{
    let q = m.first_physical(port)->0;
    assert(hal.sfps@[q as int] == other.sfps@[q as int]);
    match diagnosed(hal.sfps@[q as int], what) {
        Some(ReplyState::Object(d)) => {
            lemma_both_set(a, b, m, p, t, port, stamped(kind, d, now));
        },
        _ => {},
    }
}

proof fn lemma_flags(
    a: DbState,
    b: DbState,
    m: Mapping,
    p: usize,
    hal: &Hal,
    other: &Hal,
    port: Seq<char>,
    what: Diagnostic,
    kind: Beautifier,
    ft: FlagTables,
    now: u64,
)
    requires
        same_but(a, b, m, p),
        twin(hal, other, p),
        !ports_of(m, p).contains(port),
        m.first_physical(port) matches Some(q) && q != p,
    ensures
        same_but(
            port_flags_posted(a, Map::empty(), false, m, hal, port, what, kind, ft, now),
            port_flags_posted(b, Map::empty(), false, m, other, port, what, kind, ft, now),
            m,
            p,
        ),
{
    let q = m.first_physical(port)->0;
    assert(hal.sfps@[q as int] == other.sfps@[q as int]);
    match diagnosed(hal.sfps@[q as int], what) {
        Some(ReplyState::Object(d)) => {
            let time = utc_text(now);
            lemma_both_tracked(a, b, m, p, port, d, time, ft);
            lemma_both_set(
                flags_tracked(a, port, d, time, ft),
                flags_tracked(b, port, d, time, ft),
                m,
                p,
                ft.value,
                port,
                stamped(kind, d, now),
            );
        },
        _ => {},
    }
}

proof fn lemma_own_posts(
    db: DbState,
    m: Mapping,
    p: usize,
    hal: &Hal,
    port: Seq<char>,
    t: TableId,
    what: Diagnostic,
    kind: Beautifier,
    ft: FlagTables,
    now: u64,
)
    requires
        ports_of(m, p).contains(port),
    ensures
        same_but(db, monitors_posted(db, Map::empty(), false, m, hal, port, t, what, kind, now), m, p),
        same_but(db, port_flags_posted(db, Map::empty(), false, m, hal, port, what, kind, ft, now), m, p),
{
    match m.first_physical(port) {
        Some(q) => match diagnosed(hal.sfps@[q as int], what) {
            Some(ReplyState::Object(d)) => {
                let time = utc_text(now);
                let f = stamped(kind, d, now);
                lemma_own_set(db, m, p, t, port, f);
                lemma_own_tracked(db, m, p, port, d, time, ft);
                let noted = flags_tracked(db, port, d, time, ft);
                lemma_own_set(noted, m, p, ft.value, port, f);
                lemma_chain(db, noted, with_set(noted, ft.value, port, f), m, p);
            },
            _ => {},
        },
        None => {},
    }
}

proof fn lemma_both_type_tracked(
    a: DbState,
    b: DbState,
    m: Mapping,
    p: usize,
    port: Seq<char>,
    d: DictState,
    ft: FlagTables,
    now: u64,
)
    requires
        same_but(a, b, m, p),
        !ports_of(m, p).contains(port),
    ensures
        same_but(type_tracked(a, port, d, ft, now), type_tracked(b, port, d, ft, now), m, p),
{
    lemma_both_tracked(a, b, m, p, port, d, utc_text(now), ft);
}

proof fn lemma_both_type_posted(
    a: DbState,
    b: DbState,
    m: Mapping,
    p: usize,
    port: Seq<char>,
    d: DictState,
    t: TableId,
    now: u64,
)
    requires
        same_but(a, b, m, p),
        !ports_of(m, p).contains(port),
    ensures
        same_but(type_posted(a, port, d, t, now), type_posted(b, port, d, t, now), m, p),
{
    lemma_both_set(a, b, m, p, t, port, stamped(Beautifier::Plain, d, now));
}

proof fn lemma_both_kinds(
    a: DbState,
    b: DbState,
    m: Mapping,
    p: usize,
    port: Seq<char>,
    r: XResult<Reply>,
    tables: VdmFlagTables,
    now: u64,
)
    requires
        same_but(a, b, m, p),
        !ports_of(m, p).contains(port),
    ensures
        same_but(
            types_posted(types_tracked(a, port, r, tables, now), port, r, tables.flag, now),
            types_posted(types_tracked(b, port, r, tables, now), port, r, tables.flag, now),
            m,
            p,
        ),
{
    let h = typed(r, VdmType::Halarm);
    let l = typed(r, VdmType::Lalarm);
    let hw = typed(r, VdmType::Hwarn);
    let lw = typed(r, VdmType::Lwarn);
    let a1 = type_tracked(a, port, h, flag_tables_of(tables, VdmType::Halarm), now);
    let b1 = type_tracked(b, port, h, flag_tables_of(tables, VdmType::Halarm), now);
    lemma_both_type_tracked(a, b, m, p, port, h, flag_tables_of(tables, VdmType::Halarm), now);
    let a2 = type_tracked(a1, port, l, flag_tables_of(tables, VdmType::Lalarm), now);
    let b2 = type_tracked(b1, port, l, flag_tables_of(tables, VdmType::Lalarm), now);
    lemma_both_type_tracked(a1, b1, m, p, port, l, flag_tables_of(tables, VdmType::Lalarm), now);
    let a3 = type_tracked(a2, port, hw, flag_tables_of(tables, VdmType::Hwarn), now);
    let b3 = type_tracked(b2, port, hw, flag_tables_of(tables, VdmType::Hwarn), now);
    lemma_both_type_tracked(a2, b2, m, p, port, hw, flag_tables_of(tables, VdmType::Hwarn), now);
    let a4 = types_tracked(a, port, r, tables, now);
    let b4 = types_tracked(b, port, r, tables, now);
    lemma_both_type_tracked(a3, b3, m, p, port, lw, flag_tables_of(tables, VdmType::Lwarn), now);
    lemma_both_type_posted(a4, b4, m, p, port, h, tables.flag.halarm, now);
    let a5 = type_posted(a4, port, h, tables.flag.halarm, now);
    let b5 = type_posted(b4, port, h, tables.flag.halarm, now);
    lemma_both_type_posted(a5, b5, m, p, port, l, tables.flag.lalarm, now);
    let a6 = type_posted(a5, port, l, tables.flag.lalarm, now);
    let b6 = type_posted(b5, port, l, tables.flag.lalarm, now);
    lemma_both_type_posted(a6, b6, m, p, port, hw, tables.flag.hwarn, now);
    let a7 = type_posted(a6, port, hw, tables.flag.hwarn, now);
    let b7 = type_posted(b6, port, hw, tables.flag.hwarn, now);
    lemma_both_type_posted(a7, b7, m, p, port, lw, tables.flag.lwarn, now);
}

proof fn lemma_own_type(
    db: DbState,
    m: Mapping,
    p: usize,
    port: Seq<char>,
    d: DictState,
    ft: FlagTables,
    t: TableId,
    now: u64,
)
    requires
        ports_of(m, p).contains(port),
    ensures
        same_but(db, type_tracked(db, port, d, ft, now), m, p),
        same_but(db, type_posted(db, port, d, t, now), m, p),
{
    lemma_own_tracked(db, m, p, port, d, utc_text(now), ft);
    lemma_own_set(db, m, p, t, port, stamped(Beautifier::Plain, d, now));
}

proof fn lemma_own_kinds(
    db: DbState,
    m: Mapping,
    p: usize,
    port: Seq<char>,
    r: XResult<Reply>,
    tables: VdmFlagTables,
    now: u64,
)
    requires
        ports_of(m, p).contains(port),
    ensures
        same_but(db, types_posted(types_tracked(db, port, r, tables, now), port, r, tables.flag, now), m, p),
{
    let h = typed(r, VdmType::Halarm);
    let l = typed(r, VdmType::Lalarm);
    let hw = typed(r, VdmType::Hwarn);
    let lw = typed(r, VdmType::Lwarn);
    let fh = flag_tables_of(tables, VdmType::Halarm);
    let fl = flag_tables_of(tables, VdmType::Lalarm);
    let fhw = flag_tables_of(tables, VdmType::Hwarn);
    let flw = flag_tables_of(tables, VdmType::Lwarn);
    let d1 = type_tracked(db, port, h, fh, now);
    lemma_own_type(db, m, p, port, h, fh, 0, now);
    let d2 = type_tracked(d1, port, l, fl, now);
    lemma_own_type(d1, m, p, port, l, fl, 0, now);
    lemma_chain(db, d1, d2, m, p);
    let d3 = type_tracked(d2, port, hw, fhw, now);
    lemma_own_type(d2, m, p, port, hw, fhw, 0, now);
    lemma_chain(db, d2, d3, m, p);
    let d4 = types_tracked(db, port, r, tables, now);
    lemma_own_type(d3, m, p, port, lw, flw, 0, now);
    lemma_chain(db, d3, d4, m, p);
    let d5 = type_posted(d4, port, h, tables.flag.halarm, now);
    lemma_own_type(d4, m, p, port, h, fh, tables.flag.halarm, now);
    lemma_chain(db, d4, d5, m, p);
    let d6 = type_posted(d5, port, l, tables.flag.lalarm, now);
    lemma_own_type(d5, m, p, port, l, fl, tables.flag.lalarm, now);
    lemma_chain(db, d5, d6, m, p);
    let d7 = type_posted(d6, port, hw, tables.flag.hwarn, now);
    lemma_own_type(d6, m, p, port, hw, fhw, tables.flag.hwarn, now);
    lemma_chain(db, d6, d7, m, p);
    lemma_own_type(d7, m, p, port, lw, flw, tables.flag.lwarn, now);
    lemma_chain(db, d7, type_posted(d7, port, lw, tables.flag.lwarn, now), m, p);
}

proof fn lemma_own_names(db: DbState, m: Mapping, p: usize, t: TableId, names: Seq<Seq<char>>, f: Fields, n: int)
    requires
        forall|i: int| 0 <= i < names.len() ==> ports_of(m, p).contains(#[trigger] names[i]),
    ensures
        same_but(db, set_for_names(db, t, names, f, n), m, p),
    decreases n,
{
    if 0 < n <= names.len() {
        lemma_own_names(db, m, p, t, names, f, n - 1);
        let before = set_for_names(db, t, names, f, n - 1);
        lemma_own_set(before, m, p, t, names[n - 1], f);
        lemma_chain(db, before, with_set(before, t, names[n - 1], f), m, p);
    }
}

proof fn lemma_both_names(a: DbState, b: DbState, m: Mapping, p: usize, t: TableId, names: Seq<Seq<char>>, f: Fields, n: int)
    requires
        same_but(a, b, m, p),
        forall|i: int| 0 <= i < names.len() ==> !ports_of(m, p).contains(#[trigger] names[i]),
    ensures
        same_but(set_for_names(a, t, names, f, n), set_for_names(b, t, names, f, n), m, p),
    decreases n,
{
    if 0 < n <= names.len() {
        lemma_both_names(a, b, m, p, t, names, f, n - 1);
        lemma_both_set(
            set_for_names(a, t, names, f, n - 1),
            set_for_names(b, t, names, f, n - 1),
            m,
            p,
            t,
            names[n - 1],
            f,
        );
    }
}

/// The names of a physical port are mapped to it, and so not to another.
proof fn lemma_names(m: Mapping, q: usize, name: Seq<char>)
    requires
        consistent(m),
        plainly_named(m),
        ports_of(m, q).contains(name),
    ensures
        m.first_physical(name) == Some(q),
        physical_of(m, name) == Some(q),
        forall|p: usize| p != q ==> !(#[trigger] ports_of(m, p)).contains(name),
{
    assert(m.to_physical.contains_key(name));
    assert forall|p: usize| p != q implies !(#[trigger] ports_of(m, p)).contains(name) by {}
}

proof fn lemma_own_vdm_block(
    setup: &DomSetup,
    hal: &Hal,
    db: DbState,
    p: usize,
    port: Seq<char>,
    vpf: VdmPmFirmwareTables,
    now: u64,
)
    requires
        consistent(setup.port_mapping@),
        plainly_named(setup.port_mapping@),
        ports_of(setup.port_mapping@, p).contains(port),
    ensures
        same_but(db, setup.vdm_block_posted(hal, db, port, vpf, now), setup.port_mapping@, p),
{
    let m = setup.port_mapping@;
    lemma_names(m, p, port);
    let s = hal.sfps@[p as int];
    let names = m.to_logical[p];
    lemma_own_names(
        db,
        m,
        p,
        vpf.firmware_info_tbl,
        names,
        shown(Beautifier::Plain, dict_read(s.firmware_versions)),
        names.len() as int,
    );
    let d1 = firmware_posted(db, m, hal, port, vpf.firmware_info_tbl);
    let frozen = freeze_needed(s) && confirmed(s.vdm_freeze);
    let d2 = if frozen {
        pm_posted(d1, m, hal, port, vpf.pm_tbl)
    } else {
        d1
    };
    lemma_own_set(d1, m, p, vpf.pm_tbl, port, shown(Beautifier::Plain, dict_read(s.pm)));
    lemma_chain(db, d1, d2, m, p);
    let merged = if frozen {
        dict_read(s.vdm_real_value_basic).union_prefer_right(dict_read(s.vdm_real_value_statistic))
    } else {
        dict_read(s.vdm_real_value_basic)
    };
    let d3 = real_values_posted(d2, false, m, hal, port, vpf.vdm_real_value_tbl, merged, now);
    lemma_own_set(
        d2,
        m,
        p,
        vpf.vdm_real_value_tbl,
        port,
        stamped(Beautifier::Plain, merged, now),
    );
    lemma_chain(db, d2, d3, m, p);
    let d4 = vdm_flags_posted(d3, false, m, hal, port, vpf.vdm_flag_tables, now);
    lemma_own_kinds(d3, m, p, port, s.vdm_flags, vpf.vdm_flag_tables, now);
    lemma_chain(db, d3, d4, m, p);
}

proof fn lemma_both_vdm_block(
    setup: &DomSetup,
    hal: &Hal,
    other: &Hal,
    a: DbState,
    b: DbState,
    p: usize,
    q: usize,
    port: Seq<char>,
    vpf: VdmPmFirmwareTables,
    now: u64,
)
    requires
        consistent(setup.port_mapping@),
        plainly_named(setup.port_mapping@),
        ports_of(setup.port_mapping@, q).contains(port),
        p != q,
        twin(hal, other, p),
        same_but(a, b, setup.port_mapping@, p),
    ensures
        same_but(
            setup.vdm_block_posted(hal, a, port, vpf, now),
            setup.vdm_block_posted(other, b, port, vpf, now),
            setup.port_mapping@,
            p,
        ),
{
    let m = setup.port_mapping@;
    lemma_names(m, q, port);
    assert(!ports_of(m, p).contains(port));
    let s = hal.sfps@[q as int];
    assert(s == other.sfps@[q as int]);
    let names = m.to_logical[q];
    assert forall|i: int| 0 <= i < names.len() implies !ports_of(m, p).contains(#[trigger] names[i]) by {
        assert(ports_of(m, q).contains(names[i]));
        lemma_names(m, q, names[i]);
    }
    lemma_both_names(
        a,
        b,
        m,
        p,
        vpf.firmware_info_tbl,
        names,
        shown(Beautifier::Plain, dict_read(s.firmware_versions)),
        names.len() as int,
    );
    let a1 = firmware_posted(a, m, hal, port, vpf.firmware_info_tbl);
    let b1 = firmware_posted(b, m, other, port, vpf.firmware_info_tbl);
    let frozen = freeze_needed(s) && confirmed(s.vdm_freeze);
    let a2 = if frozen {
        pm_posted(a1, m, hal, port, vpf.pm_tbl)
    } else {
        a1
    };
    let b2 = if frozen {
        pm_posted(b1, m, other, port, vpf.pm_tbl)
    } else {
        b1
    };
    lemma_both_set(a1, b1, m, p, vpf.pm_tbl, port, shown(Beautifier::Plain, dict_read(s.pm)));
    let merged = if frozen {
        dict_read(s.vdm_real_value_basic).union_prefer_right(dict_read(s.vdm_real_value_statistic))
    } else {
        dict_read(s.vdm_real_value_basic)
    };
    lemma_both_type_posted(a2, b2, m, p, port, merged, vpf.vdm_real_value_tbl, now);
    let a3 = real_values_posted(a2, false, m, hal, port, vpf.vdm_real_value_tbl, merged, now);
    let b3 = real_values_posted(b2, false, m, other, port, vpf.vdm_real_value_tbl, merged, now);
    lemma_both_kinds(a3, b3, m, p, port, s.vdm_flags, vpf.vdm_flag_tables, now);
}

proof fn lemma_own_flag_status(
    setup: &DomSetup,
    hal: &Hal,
    db: DbState,
    p: usize,
    port: Seq<char>,
    ft: FlagStatusTables,
    include_flags: bool,
    now: u64,
)
    requires
        ports_of(setup.port_mapping@, p).contains(port),
    ensures
        same_but(db, setup.flag_status_posted(hal, db, port, ft, include_flags, now), setup.port_mapping@, p),
{
    let m = setup.port_mapping@;
    let fd = ft.dom_flags();
    let fs = ft.status_flags();
    let d1 = if include_flags {
        setup.dom_flags_posted(hal, db, port, ft, now)
    } else {
        db
    };
    lemma_own_posts(db, m, p, hal, port, 0, Diagnostic::DomFlags, Beautifier::Dom, fd, now);
    let d2 = setup.status_posted(hal, d1, port, ft, now);
    lemma_own_posts(d1, m, p, hal, port, ft.status_tbl, Diagnostic::Status, Beautifier::Plain, fs, now);
    lemma_chain(db, d1, d2, m, p);
    lemma_own_posts(d2, m, p, hal, port, 0, Diagnostic::StatusFlags, Beautifier::Plain, fs, now);
    lemma_chain(db, d2, setup.status_flags_posted(hal, d2, port, ft, now), m, p);
}

proof fn lemma_both_flag_status(
    setup: &DomSetup,
    hal: &Hal,
    other: &Hal,
    a: DbState,
    b: DbState,
    p: usize,
    port: Seq<char>,
    ft: FlagStatusTables,
    include_flags: bool,
    now: u64,
)
    requires
        !ports_of(setup.port_mapping@, p).contains(port),
        setup.port_mapping@.first_physical(port) matches Some(q) && q != p,
        twin(hal, other, p),
        same_but(a, b, setup.port_mapping@, p),
    ensures
        same_but(
            setup.flag_status_posted(hal, a, port, ft, include_flags, now),
            setup.flag_status_posted(other, b, port, ft, include_flags, now),
            setup.port_mapping@,
            p,
        ),
{
    let m = setup.port_mapping@;
    lemma_flags(a, b, m, p, hal, other, port, Diagnostic::DomFlags, Beautifier::Dom, ft.dom_flags(), now);
    let a1 = if include_flags {
        setup.dom_flags_posted(hal, a, port, ft, now)
    } else {
        a
    };
    let b1 = if include_flags {
        setup.dom_flags_posted(other, b, port, ft, now)
    } else {
        b
    };
    lemma_monitors(a1, b1, m, p, hal, other, port, ft.status_tbl, Diagnostic::Status, Beautifier::Plain, now);
    let a2 = setup.status_posted(hal, a1, port, ft, now);
    let b2 = setup.status_posted(other, b1, port, ft, now);
    lemma_flags(
        a2,
        b2,
        m,
        p,
        hal,
        other,
        port,
        Diagnostic::StatusFlags,
        Beautifier::Plain,
        ft.status_flags(),
        now,
    );
}

/// Publishing the diagnostics of a port changes no row but those of the ports of
/// its own physical port.
pub proof fn law_poll_of_a_port_spares_the_others(
    setup: &DomSetup,
    hal: &Hal,
    db: DbState,
    p: usize,
    port: Seq<char>,
    include_flags: bool,
    include_vdm: bool,
    now: u64,
)
    requires
        consistent(setup.port_mapping@),
        plainly_named(setup.port_mapping@),
        ports_of(setup.port_mapping@, p).contains(port),
    ensures
        same_but(
            db,
            setup.port_polled(hal, db, port, include_flags, include_vdm, now),
            setup.port_mapping@,
            p,
        ),
{
    let m = setup.port_mapping@;
    lemma_names(m, p, port);
    if setup.deconfigured(port) {
        assert(same_but(db, port_rows_deleted(db, m, setup.owned_tables(), port), m, p));
    } else if setup.polled(db, port) {
        let any = FlagTables { value: 0, change_count: 0, set_time: 0, clear_time: 0 };
        lemma_own_posts(db, m, p, hal, port, setup.dom_tbl, Diagnostic::DomSensor, Beautifier::Dom, any, now);
        let d1 = setup.sensor_posted(hal, db, port, now);
        let d2 = match setup.flag_status_tables {
            Some(ft) => setup.flag_status_posted(hal, d1, port, ft, include_flags, now),
            None => d1,
        };
        match setup.flag_status_tables {
            Some(ft) => {
                lemma_own_flag_status(setup, hal, d1, p, port, ft, include_flags, now);
                lemma_chain(db, d1, d2, m, p);
            },
            None => {},
        }
        match setup.vdm_pm_fw {
            Some(vpf) => {
                lemma_own_vdm_block(setup, hal, d2, p, port, vpf, now);
                lemma_chain(db, d2, setup.vdm_block_posted(hal, d2, port, vpf, now), m, p);
            },
            None => {},
        }
    }
}

proof fn lemma_both_polled(
    setup: &DomSetup,
    hal: &Hal,
    other: &Hal,
    a: DbState,
    b: DbState,
    p: usize,
    q: usize,
    port: Seq<char>,
    include_flags: bool,
    include_vdm: bool,
    now: u64,
)
    requires
        consistent(setup.port_mapping@),
        plainly_named(setup.port_mapping@),
        setup.port_mapping@.first_logical(q) == Some(port),
        p != q,
        twin(hal, other, p),
        same_but(a, b, setup.port_mapping@, p),
    ensures
        same_but(
            setup.port_polled(hal, a, port, include_flags, include_vdm, now),
            setup.port_polled(other, b, port, include_flags, include_vdm, now),
            setup.port_mapping@,
            p,
        ),
{
    let m = setup.port_mapping@;
    assert(ports_of(m, q)[0] == port);
    assert(ports_of(m, q).contains(port));
    lemma_names(m, q, port);
    assert(!ports_of(m, p).contains(port));
    assert(same_row(a, b, setup.cfg_port_tbl, port));
    assert(same_row(a, b, setup.status_sw_tbl, port));
    assert(setup.polled(a, port) == setup.polled(b, port));
    if setup.deconfigured(port) {
        let x = port_rows_deleted(a, m, setup.owned_tables(), port);
        let y = port_rows_deleted(b, m, setup.owned_tables(), port);
        assert forall|t: TableId, k: Seq<char>| !ports_of(m, p).contains(k) implies #[trigger] same_row(x, y, t, k) by {
            assert(same_row(a, b, t, k));
        }
    } else if setup.polled(a, port) {
        lemma_monitors(a, b, m, p, hal, other, port, setup.dom_tbl, Diagnostic::DomSensor, Beautifier::Dom, now);
        let a1 = setup.sensor_posted(hal, a, port, now);
        let b1 = setup.sensor_posted(other, b, port, now);
        let a2 = match setup.flag_status_tables {
            Some(ft) => setup.flag_status_posted(hal, a1, port, ft, include_flags, now),
            None => a1,
        };
        let b2 = match setup.flag_status_tables {
            Some(ft) => setup.flag_status_posted(other, b1, port, ft, include_flags, now),
            None => b1,
        };
        match setup.flag_status_tables {
            Some(ft) => {
                lemma_both_flag_status(setup, hal, other, a1, b1, p, port, ft, include_flags, now);
            },
            None => {},
        }
        match setup.vdm_pm_fw {
            Some(vpf) => {
                lemma_both_vdm_block(setup, hal, other, a2, b2, p, q, port, vpf, now);
            },
            None => {},
        }
    }
}

/// A module that cannot be read, or reports nonsense, does not disturb the poll:
/// whatever the module of the physical port `p` reports, the rows of every other
/// port come out the same.
pub proof fn law_bad_module_spares_the_others(
    setup: &DomSetup,
    hal: &Hal,
    other: &Hal,
    db: DbState,
    p: usize,
    include_flags: bool,
    include_vdm: bool,
    now: u64,
    n: int,
)
    requires
        consistent(setup.port_mapping@),
        plainly_named(setup.port_mapping@),
        hal.sfps@.len() == other.sfps@.len(),
        forall|q: usize| q != p ==> #[trigger] hal.sfps@[q as int] == other.sfps@[q as int],
    ensures
        same_but(
            setup.ports_polled(hal, db, include_flags, include_vdm, now, n),
            setup.ports_polled(other, db, include_flags, include_vdm, now, n),
            setup.port_mapping@,
            p,
        ),
    decreases n,
{
    let m = setup.port_mapping@;
    if n > 0 {
        law_bad_module_spares_the_others(setup, hal, other, db, p, include_flags, include_vdm, now, n - 1);
        let a = setup.ports_polled(hal, db, include_flags, include_vdm, now, n - 1);
        let b = setup.ports_polled(other, db, include_flags, include_vdm, now, n - 1);
        let q = setup.port_mapping.physical_to_logical.keys()[n - 1];
        match m.first_logical(q) {
            Some(port) => if q == p {
                assert(ports_of(m, p)[0] == port);
                law_poll_of_a_port_spares_the_others(setup, hal, a, p, port, include_flags, include_vdm, now);
                law_poll_of_a_port_spares_the_others(setup, other, b, p, port, include_flags, include_vdm, now);
                let x = setup.port_polled(hal, a, port, include_flags, include_vdm, now);
                let y = setup.port_polled(other, b, port, include_flags, include_vdm, now);
                assert forall|t: TableId, k: Seq<char>| !ports_of(m, p).contains(k) implies #[trigger] same_row(
                    x,
                    y,
                    t,
                    k,
                ) by {
                    assert(same_row(a, x, t, k));
                    assert(same_row(a, b, t, k));
                    assert(same_row(b, y, t, k));
                }
            } else {
                lemma_both_polled(setup, hal, other, a, b, p, q, port, include_flags, include_vdm, now);
            },
            None => {},
        }
    }
}

} // verus!
