//! Which ports are known, and where they are.

use vstd::prelude::*;
use vstd::string::*;
use crate::db::{field_at, DbState, TableId};
use crate::text::{dec, digits_value, is_digit, lemma_dec_reads_back, lemma_parse_dec};
use crate::xcvrd_utilities::common::{physical_port_name, physical_port_names};
use crate::xcvrd_utilities::natural::{law_sorted_names, sorted};
use crate::xcvrd_utilities::port_event_helper::{
    configured, event_applied, front_panel, law_slot_mapping, lemma_slot_names_differ, physical_of, ports_of, rows_mapped,
    slot_change, slot_changes, slot_name, slots_mapped, with_name, without_name, EventState, Mapping,
    PortChangeEventType,
};

verus! {

/// `s` begins with `head`.
pub open spec fn begins_with(s: Seq<char>, head: Seq<char>) -> bool {
    s.len() >= head.len() && s.take(head.len() as int) == head
}

/// The role is one of those of ports that do not face the front panel.
pub open spec fn inner_role(role: Option<Seq<char>>) -> bool {
    role == Some("Int"@) || role == Some("Inb"@) || role == Some("Rec"@) || role == Some("Dpc"@)
}

/// A front-panel port is one whose name begins with `Ethernet` and goes on without
/// `-BP`, `-IB` or `-Rec` and without a dot, and whose role is none of the inner ones.
pub proof fn law_front_panel_ports(name: Seq<char>, rest: Seq<char>, role: Option<Seq<char>>)
    ensures
        !begins_with(name, "Ethernet"@) ==> !front_panel(name, role),
        front_panel("Ethernet"@ + rest, role) == (!begins_with(rest, "-BP"@) && !begins_with(rest, "-IB"@)
            && !begins_with(rest, "-Rec"@) && !rest.contains('.') && !inner_role(role)),
{
    reveal_strlit("Ethernet");
    reveal_strlit("Ethernet-BP");
    reveal_strlit("Ethernet-IB");
    reveal_strlit("Ethernet-Rec");
    reveal_strlit("-BP");
    reveal_strlit("-IB");
    reveal_strlit("-Rec");
    let e = "Ethernet"@;
    let port = e + rest;
    assert(port.take(8) =~= e);
    assert("Ethernet-BP"@ =~= e + "-BP"@);
    assert("Ethernet-IB"@ =~= e + "-IB"@);
    assert("Ethernet-Rec"@ =~= e + "-Rec"@);
    lemma_head(e, rest, "-BP"@);
    lemma_head(e, rest, "-IB"@);
    lemma_head(e, rest, "-Rec"@);
    assert(e.is_prefix_of(port)) by {
        assert(port.subrange(0, 8) =~= e);
    }
    assert(port.contains('.') == rest.contains('.')) by {
        if port.contains('.') {
            let i = port.index_of('.');
            assert(i >= 8);
            assert(rest[i - 8] == '.');
        }
        if rest.contains('.') {
            let i = rest.index_of('.');
            assert(port[8 + i] == '.');
        }
    }
    assert(e.is_prefix_of(name) ==> begins_with(name, e)) by {
        if e.is_prefix_of(name) {
            assert(name.take(8) =~= e);
        }
    }
}

proof fn lemma_head(e: Seq<char>, rest: Seq<char>, head: Seq<char>)
    ensures
        (e + head).is_prefix_of(e + rest) == begins_with(rest, head),
{
    let a = e + head;
    let b = e + rest;
    if a.is_prefix_of(b) {
        assert(rest.take(head.len() as int) =~= head) by {
            assert forall|i: int| 0 <= i < head.len() implies rest[i] == head[i] by {
                assert(b[e.len() + i] == a[e.len() + i]);
            }
        }
    }
    if begins_with(rest, head) {
        assert forall|i: int| 0 <= i < a.len() implies a[i] == b[i] by {
            if i >= e.len() {
                assert(rest.take(head.len() as int)[i - e.len()] == rest[i - e.len()]);
            }
        }
        assert(b.subrange(0, a.len() as int) =~= a);
    }
}

proof fn lemma_sorted_has(names: Seq<Seq<char>>, n: Seq<char>)
    ensures
        sorted(names).contains(n) == names.contains(n),
{
    law_sorted_names(names);
    sorted(names).to_multiset_ensures();
    names.to_multiset_ensures();
    assert(sorted(names).to_multiset().count(n) == names.to_multiset().count(n));
}

/// A port that is added is mapped to its slot and its ASIC and is among the logical
/// ports and among those of its slot; what is known of every other port and of every
/// other slot stays.
pub proof fn law_added_port_is_mapped(m: Mapping, e: EventState, name: Seq<char>, q: usize)
    requires
        e.event_type == PortChangeEventType::PortAdd,
        e.port_index >= 0,
    ensures
        ({
            let r = event_applied(m, e);
            let p = e.port_index as usize;
            &&& r.to_physical.contains_key(e.port_name) && r.to_physical[e.port_name] == p
            &&& r.to_asic.contains_key(e.port_name) && r.to_asic[e.port_name] == e.asic_id
            &&& r.logical.contains(e.port_name)
            &&& r.to_logical.contains_key(p) && r.to_logical[p].contains(e.port_name)
            &&& name != e.port_name ==> {
                &&& r.logical.contains(name) == m.logical.contains(name)
                &&& r.to_physical.contains_key(name) == m.to_physical.contains_key(name)
                &&& m.to_physical.contains_key(name) ==> r.to_physical[name] == m.to_physical[name]
                &&& r.to_asic.contains_key(name) == m.to_asic.contains_key(name)
                &&& m.to_asic.contains_key(name) ==> r.to_asic[name] == m.to_asic[name]
                &&& r.to_logical[p].contains(name) == (m.to_logical.contains_key(p) && m.to_logical[p].contains(name))
            }
            &&& q != p ==> r.to_logical.contains_key(q) == m.to_logical.contains_key(q)
            &&& q != p && m.to_logical.contains_key(q) ==> r.to_logical[q] == m.to_logical[q]
        }),
{
    let p = e.port_index as usize;
    let ports = ports_of(m, p);
    lemma_with(m.logical, e.port_name, name);
    lemma_with(ports, e.port_name, name);
    lemma_sorted_has(with_name(ports, e.port_name), e.port_name);
    lemma_sorted_has(with_name(ports, e.port_name), name);
}

proof fn lemma_with(names: Seq<Seq<char>>, x: Seq<char>, name: Seq<char>)
    ensures
        with_name(names, x).contains(x),
        name != x ==> with_name(names, x).contains(name) == names.contains(name),
{
    let r = names.push(x);
    assert(r[names.len() as int] == x);
    if names.contains(name) {
        assert(r[names.index_of(name)] == name);
    }
    if r.contains(name) && name != x {
        let i = r.index_of(name);
        assert(names[i] == name);
    }
}

proof fn lemma_without(names: Seq<Seq<char>>, x: Seq<char>, name: Seq<char>)
    ensures
        !without_name(names, x).contains(x),
        name != x ==> without_name(names, x).contains(name) == names.contains(name),
    decreases names.len(),
{
    if names.len() > 0 {
        let d = names.drop_last();
        lemma_without(d, x, name);
        assert(names =~= d.push(names.last()));
        let w = without_name(d, x);
        if names.last() != x {
            let r = w.push(names.last());
            assert(r[w.len() as int] == names.last());
            assert forall|y: Seq<char>| r.contains(y) <==> w.contains(y) || y == names.last() by {
                if r.contains(y) && y != names.last() {
                    let i = r.index_of(y);
                    assert(w[i] == y);
                }
                if w.contains(y) {
                    assert(r[w.index_of(y)] == y);
                }
            }
        }
        assert(names[names.len() - 1] == names.last());
        if names.contains(name) && name != names.last() {
            let i = names.index_of(name);
            assert(d[i] == name);
        }
        if d.contains(name) {
            assert(names[d.index_of(name)] == name);
        }
    }
}

/// A port that is removed is known no more, and its slot neither where it was the last
/// port of the slot; what is known of every other port and of every other slot stays.
pub proof fn law_removed_port_is_unmapped(m: Mapping, e: EventState, name: Seq<char>, q: usize)
    requires
        e.event_type == PortChangeEventType::PortRemove,
        e.port_index >= 0,
    ensures
        ({
            let r = event_applied(m, e);
            let p = e.port_index as usize;
            &&& !r.to_physical.contains_key(e.port_name)
            &&& !r.to_asic.contains_key(e.port_name)
            &&& !r.logical.contains(e.port_name)
            &&& r.to_logical.contains_key(p) ==> !r.to_logical[p].contains(e.port_name)
            &&& name != e.port_name ==> {
                &&& r.logical.contains(name) == m.logical.contains(name)
                &&& r.to_physical.contains_key(name) == m.to_physical.contains_key(name)
                &&& m.to_physical.contains_key(name) ==> r.to_physical[name] == m.to_physical[name]
                &&& r.to_asic.contains_key(name) == m.to_asic.contains_key(name)
                &&& m.to_asic.contains_key(name) ==> r.to_asic[name] == m.to_asic[name]
                &&& (r.to_logical.contains_key(p) && r.to_logical[p].contains(name)) == (m.to_logical.contains_key(p)
                    && m.to_logical[p].contains(name))
            }
            &&& m.to_logical.contains_key(p) && (forall|x: Seq<char>| #[trigger]
                m.to_logical[p].contains(x) ==> x == e.port_name) ==> !r.to_logical.contains_key(p)
            &&& q != p ==> r.to_logical.contains_key(q) == m.to_logical.contains_key(q)
            &&& q != p && m.to_logical.contains_key(q) ==> r.to_logical[q] == m.to_logical[q]
        }),
{
    let p = e.port_index as usize;
    let ports = ports_of(m, p);
    lemma_without(m.logical, e.port_name, name);
    lemma_without(ports, e.port_name, name);
    let rest = without_name(ports, e.port_name);
    if m.to_logical.contains_key(p) && rest.len() == 0 {
        assert(!rest.contains(name));
    }
    if m.to_logical.contains_key(p) && (forall|x: Seq<char>| #[trigger]
        m.to_logical[p].contains(x) ==> x == e.port_name) {
        if rest.len() > 0 {
            assert(rest.contains(rest[0]));
            lemma_without(ports, e.port_name, rest[0]);
            assert(m.to_logical[p].contains(rest[0]));
        }
    }
}

/// Every configured row of a front-panel port is mapped to its index and the ASIC, where
/// no later row has its name.
pub proof fn law_every_row_is_mapped(asic_id: usize, rows: Seq<(Seq<char>, i32, Option<Seq<char>>)>, i: int)
    requires
        0 <= i < rows.len(),
        rows[i].1 >= 0,
        front_panel(rows[i].0, rows[i].2),
        forall|j: int| i < j < rows.len() ==> (#[trigger] rows[j]).0 != rows[i].0,
    ensures
        ({
            let m = rows_mapped(asic_id, rows);
            &&& m.to_physical.contains_key(rows[i].0) && m.to_physical[rows[i].0] == rows[i].1
            &&& m.to_asic.contains_key(rows[i].0) && m.to_asic[rows[i].0] == asic_id
            &&& m.logical.contains(rows[i].0)
        }),
    decreases rows.len(),
{
    let d = rows.drop_last();
    let m = rows_mapped(asic_id, d);
    let (name, index, role) = rows.last();
    if i < rows.len() - 1 {
        assert(d[i] == rows[i]);
        assert forall|j: int| i < j < d.len() implies (#[trigger] d[j]).0 != d[i].0 by {
            assert(d[j] == rows[j]);
        }
        law_every_row_is_mapped(asic_id, d, i);
        assert(rows[rows.len() - 1].0 != rows[i].0);
        lemma_with(m.logical, name, rows[i].0);
    } else {
        lemma_with(m.logical, name, name);
    }
}

/// The port of a slot is `Ethernet` and four times the number of the slot.
pub proof fn law_slot_has_its_port(p: nat)
    ensures
        begins_with(slot_name(p), "Ethernet"@),
        digits_value(slot_name(p).skip(8)) == Some(4 * p),
{
    reveal_strlit("Ethernet");
    lemma_dec_reads_back(p * 4);
    assert("Ethernet"@.len() == 8);
    assert(slot_name(p).take(8) =~= "Ethernet"@);
    assert(slot_name(p).skip(8) =~= dec(p * 4));
}

/// The configuration has a port for the slot: a row, and no inner role.
pub open spec fn slot_configured(config: DbState, t: TableId, q: nat) -> bool {
    config.contains_key((t, slot_name(q))) && !inner_role(field_at(config, t, slot_name(q), "role"@))
}

/// The port of a slot faces the front panel unless its role is an inner one.
pub proof fn lemma_slot_configured(config: DbState, t: TableId, q: nat)
    ensures
        configured(config, t, slot_name(q)) == slot_configured(config, t, q),
{
    let rest = dec(q * 4);
    lemma_dec_reads_back(q * 4);
    law_front_panel_ports(slot_name(q), rest, field_at(config, t, slot_name(q), "role"@));
    reveal_strlit("-BP");
    reveal_strlit("-IB");
    reveal_strlit("-Rec");
    assert(forall|i: int| 0 <= i < rest.len() ==> is_digit(#[trigger] rest[i]));
    assert(rest.len() > 0 && is_digit(rest[0]));
    assert(!begins_with(rest, "-BP"@)) by {
        if begins_with(rest, "-BP"@) {
            assert(rest.take(3)[0] == rest[0]);
        }
    }
    assert(!begins_with(rest, "-IB"@)) by {
        if begins_with(rest, "-IB"@) {
            assert(rest.take(3)[0] == rest[0]);
        }
    }
    assert(!begins_with(rest, "-Rec"@)) by {
        if begins_with(rest, "-Rec"@) {
            assert(rest.take(4)[0] == rest[0]);
        }
    }
    assert(!rest.contains('.')) by {
        if rest.contains('.') {
            assert(is_digit(rest[rest.index_of('.')]));
        }
    }
}

/// At the start the port of every slot that the configuration has a port for is mapped to
/// the slot, and the port of no other slot is mapped.
pub proof fn law_configured_slots_are_mapped(config: DbState, t: TableId, n: nat, q: nat)
    requires
        n <= i32::MAX,
        n <= usize::MAX,
        q < n,
    ensures
        ({
            let m = slots_mapped(config, t, n);
            &&& m.to_physical.contains_key(slot_name(q)) == slot_configured(config, t, q)
            &&& slot_configured(config, t, q) ==> m.to_physical[slot_name(q)] == q
        }),
{
    lemma_slot_configured(config, t, q);
    law_slot_mapping(config, t, n, slot_name(q));
    if !slot_configured(config, t, q) {
        assert forall|x: nat| x < n && configured(config, t, slot_name(x)) implies slot_name(q) != #[trigger] slot_name(
            x,
        ) by {
            if x != q {
                lemma_slot_names_differ(x, q);
            }
        }
    } else {
        assert(slots_mapped(config, t, n).first_physical(slot_name(q)) == Some(q as usize));
    }
}

/// A look at the configuration reports of every slot that its port is to be added, where
/// the configuration has a port for the slot and none is mapped; that its port is to be
/// removed, where one is mapped and the configuration has no row for it; and else nothing.
pub proof fn law_changes_of_every_slot_are_reported(config: DbState, t: TableId, m: Mapping, n: nat, q: nat)
    requires
        n <= usize::MAX,
        q < n,
    ensures
        ({
            let es = slot_changes(config, t, m, n);
            let known = m.to_physical.contains_key(slot_name(q));
            &&& !known && slot_configured(config, t, q) ==> exists|i: int|
                0 <= i < es.len() && (#[trigger] es[i]).port_name == slot_name(q) && es[i].event_type
                    == PortChangeEventType::PortAdd && es[i].port_index == (q as usize) as i32 && es[i].asic_id == 0
            &&& known && !config.contains_key((t, slot_name(q))) ==> exists|i: int|
                0 <= i < es.len() && (#[trigger] es[i]).port_name == slot_name(q) && es[i].event_type
                    == PortChangeEventType::PortRemove && es[i].port_index == m.to_physical[slot_name(q)] as i32
            &&& (known && config.contains_key((t, slot_name(q)))) || (!known && !slot_configured(config, t, q))
                ==> forall|i: int| 0 <= i < es.len() ==> (#[trigger] es[i]).port_name != slot_name(q)
        }),
{
    lemma_slot_configured(config, t, q);
    lemma_changes(config, t, m, n, q);
}

proof fn lemma_changes(config: DbState, t: TableId, m: Mapping, n: nat, q: nat)
    requires
        n <= usize::MAX,
        q <= usize::MAX,
    ensures
        ({
            let es = slot_changes(config, t, m, n);
            match slot_change(config, t, m, q as usize) {
                Some(e) => q < n ==> exists|i: int| 0 <= i < es.len() && #[trigger] es[i] == e,
                None => forall|i: int| 0 <= i < es.len() ==> (#[trigger] es[i]).port_name != slot_name(q),
            }
        }),
    decreases n,
{
    if n > 0 {
        lemma_changes(config, t, m, (n - 1) as nat, q);
        let before = slot_changes(config, t, m, (n - 1) as nat);
        let es = slot_changes(config, t, m, n);
        if n - 1 != q {
            lemma_slot_names_differ((n - 1) as nat, q);
        }
        match slot_change(config, t, m, q as usize) {
            Some(e) => {
                if q < n - 1 {
                    let i = choose|i: int| 0 <= i < before.len() && #[trigger] before[i] == e;
                    assert(es[i] == e);
                } else if q == n - 1 {
                    assert(es[before.len() as int] == e);
                }
            },
            None => {
                assert forall|i: int| 0 <= i < es.len() implies (#[trigger] es[i]).port_name != slot_name(q) by {
                    if i < before.len() {
                        assert(es[i] == before[i]);
                    }
                }
            },
        }
    }
}

/// A port that is alone has its own name. One of several that go together has, behind
/// the name, a colon, its number and that it is ganged; no two of them have one name.
pub proof fn law_ganged_ports_are_numbered(port: Seq<char>, n: nat, other: nat)
    ensures
        ({
            let name = physical_port_name(port, n, true);
            let l = port.len() as int;
            let tail = " (ganged)"@.len() as int;
            &&& physical_port_name(port, n, false) == port
            &&& begins_with(name, port)
            &&& name.len() > l + 1 + tail
            &&& name[l] == ':'
            &&& digits_value(name.subrange(l + 1, name.len() - tail)) == Some(n)
            &&& name.skip(name.len() - tail) == " (ganged)"@
            &&& physical_port_name(port, other, true) == name ==> other == n
        }),
{
    let name = physical_port_name(port, n, true);
    let l = port.len() as int;
    let tail = " (ganged)"@.len() as int;
    reveal_strlit(":");
    lemma_dec_reads_back(n);
    lemma_dec_reads_back(other);
    assert(name.subrange(l + 1, name.len() - tail) =~= dec(n));
    assert(name.take(l) =~= port);
    assert(name.skip(name.len() - tail) =~= " (ganged)"@);
    let b = physical_port_name(port, other, true);
    assert(b.subrange(l + 1, b.len() - tail) =~= dec(other));
}

/// The one row of a port that is mapped stands under the port's own name, by its slot; a
/// port that is not mapped has none.
pub proof fn law_rows_stand_under_the_port(m: Mapping, port: Seq<char>, p: usize, q: usize)
    requires
        p != q,
    ensures
        ({
            let names = physical_port_names(m, port);
            &&& physical_of(m, port) == Some(p) ==> names.contains_key(p) && names[p] == port && !names.contains_key(q)
            &&& physical_of(m, port) is None ==> !names.contains_key(p)
        }),
{
}

/// The text of a number stands for the slot of that number, whatever is mapped. A name
/// that begins otherwise than a number stands for the slot that it is mapped to, and for
/// none where it is not mapped.
pub proof fn law_names_stand_for_their_slots(m: Mapping, n: usize, name: Seq<char>, p: usize)
    requires
        name.len() > 0,
        !is_digit(name[0]),
        name[0] != '+',
    ensures
        physical_of(m, dec(n as nat)) == Some(n),
        m.to_physical.contains_key(name) && m.to_physical[name] == p ==> physical_of(m, name) == Some(p),
        !m.to_physical.contains_key(name) ==> physical_of(m, name) is None,
{
    lemma_parse_dec(n as nat, usize::MAX as nat);
    assert(digits_value(name) is None);
}

} // verus!
