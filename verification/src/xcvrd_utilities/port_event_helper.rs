//! The mapping between logical and physical ports, and the events that change it.

use vstd::prelude::*;
use vstd::string::*;
use crate::db::{field_at, Db, DbState, TableId};
use crate::ord_map::{IdxMap, OrdMap, StrMap};
use crate::text::{
    dec, has_char, join, lemma_dec_reads_back, parse_unsigned, parse_usize, same, starts_with, usize_text,
};
use crate::xcvrd_utilities::natural::{
    after, in_natural_order, law_sorted_names, law_sorting_keeps_order, lemma_inserted_place, sort_names, sorted,
};

verus! {

/// What happened to a port.
#[derive(Debug, Clone, Copy, PartialEq, Eq, Structural)]
pub enum PortChangeEventType {
    PortAdd,
    PortRemove,
    PortSet,
    PortDel,
}

/// One change of a port.
pub struct PortChangeEvent {
    pub port_name: String,
    pub port_index: i32,
    pub asic_id: usize,
    pub event_type: PortChangeEventType,
    pub port_dict: StrMap<String>,
    pub db_name: Option<String>,
    pub table_name: Option<String>,
}

/// What a [`PortChangeEvent`] says.
#[verifier::ext_equal]
pub struct EventState {
    pub port_name: Seq<char>,
    pub port_index: i32,
    pub asic_id: usize,
    pub event_type: PortChangeEventType,
    pub port_dict: Map<Seq<char>, Seq<char>>,
    pub db_name: Option<Seq<char>>,
    pub table_name: Option<Seq<char>>,
}

impl View for PortChangeEvent {
    type V = EventState;

    open spec fn view(&self) -> EventState {
        EventState {
            port_name: self.port_name@,
            port_index: self.port_index,
            asic_id: self.asic_id,
            event_type: self.event_type,
            port_dict: self.port_dict@,
            db_name: self.db_name.deep_view(),
            table_name: self.table_name.deep_view(),
        }
    }
}

impl DeepView for PortChangeEvent {
    type V = EventState;

    open spec fn deep_view(&self) -> EventState {
        self@
    }
}

/// An event that carries no fields and names no table.
pub open spec fn plain_event(
    port_name: Seq<char>,
    port_index: i32,
    asic_id: usize,
    event_type: PortChangeEventType,
) -> EventState {
    EventState {
        port_name,
        port_index,
        asic_id,
        event_type,
        port_dict: Map::empty(),
        db_name: None,
        table_name: None,
    }
}

impl PortChangeEvent {
    pub fn new(port_name: &str, port_index: i32, asic_id: usize, event_type: PortChangeEventType) -> (r: Self)
        ensures
            r@ == plain_event(port_name@, port_index, asic_id, event_type),
    {
        PortChangeEvent {
            port_name: port_name.to_owned(),
            port_index,
            asic_id,
            event_type,
            port_dict: OrdMap::new(),
            db_name: None,
            table_name: None,
        }
    }
}

/// The roles of ports that do not face the front panel.
pub open spec fn internal_role(role: Option<Seq<char>>) -> bool {
    ||| role == Some("Int"@)
    ||| role == Some("Inb"@)
    ||| role == Some("Rec"@)
    ||| role == Some("Dpc"@)
}

fn is_role_internal(role: Option<&str>) -> (r: bool)
    ensures
        r == internal_role(role.deep_view()),
{
    match role {
        Some(s) => same(s, "Int") || same(s, "Inb") || same(s, "Rec") || same(s, "Dpc"),
        None => false,
    }
}

/// A front-panel port: an `Ethernet` name that is no backplane, inband or
/// recirculation port and no subinterface, without an internal role.
pub open spec fn front_panel(port: Seq<char>, role: Option<Seq<char>>) -> bool {
    &&& "Ethernet"@.is_prefix_of(port)
    &&& !"Ethernet-BP"@.is_prefix_of(port)
    &&& !"Ethernet-IB"@.is_prefix_of(port)
    &&& !"Ethernet-Rec"@.is_prefix_of(port)
    &&& !port.contains('.')
    &&& !internal_role(role)
}

/// Whether a port faces the front panel.
pub fn is_front_panel_port(port: &str, role: Option<&str>) -> (r: bool)
    ensures
        r == front_panel(port@, role.deep_view()),
{
    if !starts_with(port, "Ethernet") {
        return false;
    }
    if starts_with(port, "Ethernet-BP") || starts_with(port, "Ethernet-IB") || starts_with(
        port,
        "Ethernet-Rec",
    ) {
        return false;
    }
    if has_char(port, '.') {
        return false;
    }
    !is_role_internal(role)
}

/// The logical ports in the order they came, and the maps between them and the
/// physical ports.
pub struct PortMapping {
    pub logical_port_list: Vec<String>,
    pub logical_to_physical: StrMap<usize>,
    pub physical_to_logical: IdxMap<Vec<String>>,
    pub logical_to_asic: StrMap<usize>,
}

/// What a [`PortMapping`] holds.
#[verifier::ext_equal]
pub struct Mapping {
    pub logical: Seq<Seq<char>>,
    pub to_physical: Map<Seq<char>, usize>,
    pub to_logical: Map<usize, Seq<Seq<char>>>,
    pub to_asic: Map<Seq<char>, usize>,
}

impl View for PortMapping {
    type V = Mapping;

    open spec fn view(&self) -> Mapping {
        Mapping {
            logical: self.logical_port_list.deep_view(),
            to_physical: self.logical_to_physical@,
            to_logical: self.physical_to_logical@,
            to_asic: self.logical_to_asic@,
        }
    }
}

/// A mapping of no ports.
pub open spec fn no_ports() -> Mapping {
    Mapping {
        logical: Seq::empty(),
        to_physical: Map::empty(),
        to_logical: Map::empty(),
        to_asic: Map::empty(),
    }
}

/// `names` with `name` behind them, unless it is among them.
pub open spec fn with_name(names: Seq<Seq<char>>, name: Seq<char>) -> Seq<Seq<char>> {
    if names.contains(name) {
        names
    } else {
        names.push(name)
    }
}

/// `names` without `name`.
pub open spec fn without_name(names: Seq<Seq<char>>, name: Seq<char>) -> Seq<Seq<char>>
    decreases names.len(),
{
    if names.len() == 0 {
        names
    } else if names.last() == name {
        without_name(names.drop_last(), name)
    } else {
        without_name(names.drop_last(), name).push(names.last())
    }
}

/// The logical ports of a physical port.
pub open spec fn ports_of(m: Mapping, physical: usize) -> Seq<Seq<char>> {
    if m.to_logical.contains_key(physical) {
        m.to_logical[physical]
    } else {
        Seq::empty()
    }
}

/// A port added: it joins the lists it is not in yet, and those of its physical
/// port are put into natural order.
pub open spec fn port_added(m: Mapping, e: EventState) -> Mapping {
    let physical = e.port_index as usize;
    Mapping {
        logical: with_name(m.logical, e.port_name),
        to_physical: m.to_physical.insert(e.port_name, physical),
        to_logical: m.to_logical.insert(
            physical,
            sorted(with_name(ports_of(m, physical), e.port_name)),
        ),
        to_asic: m.to_asic.insert(e.port_name, e.asic_id),
    }
}

/// A port removed from every list and map; a physical port without logical ones
/// goes too.
pub open spec fn port_removed(m: Mapping, e: EventState) -> Mapping {
    let physical = e.port_index as usize;
    let rest = without_name(ports_of(m, physical), e.port_name);
    Mapping {
        logical: without_name(m.logical, e.port_name),
        to_physical: m.to_physical.remove(e.port_name),
        to_logical: if !m.to_logical.contains_key(physical) {
            m.to_logical
        } else if rest.len() == 0 {
            m.to_logical.remove(physical)
        } else {
            m.to_logical.insert(physical, rest)
        },
        to_asic: m.to_asic.remove(e.port_name),
    }
}

/// The mapping after an event; only additions and removals change it.
pub open spec fn event_applied(m: Mapping, e: EventState) -> Mapping {
    match e.event_type {
        PortChangeEventType::PortAdd => port_added(m, e),
        PortChangeEventType::PortRemove => port_removed(m, e),
        _ => m,
    }
}

/// The physical port that a port name stands for: the number it writes, or the
/// one it is mapped to.
pub open spec fn physical_of(m: Mapping, name: Seq<char>) -> Option<usize> {
    match parse_unsigned(name, usize::MAX as nat) {
        Some(n) => Some(n as usize),
        None => if m.to_physical.contains_key(name) {
            Some(m.to_physical[name])
        } else {
            None
        },
    }
}

/// Whether `name` is in the list.
pub fn list_contains(names: &Vec<String>, name: &str) -> (r: bool)
    ensures
        r == names.deep_view().contains(name@),
{
    let mut i: usize = 0;
    while i < names.len()
        invariant
            i <= names.len(),
            forall|j: int| 0 <= j < i ==> names.deep_view()[j] != name@,
        decreases names.len() - i,
    {
        if same(names[i].as_str(), name) {
            assert(names.deep_view()[i as int] == name@);
            return true;
        }
        i = i + 1;
    }
    false
}

/// The list without `name`.
fn list_without(names: &Vec<String>, name: &str) -> (r: Vec<String>)
    ensures
        r.deep_view() == without_name(names.deep_view(), name@),
{
    let mut out: Vec<String> = Vec::new();
    let mut i: usize = 0;
    let ghost all = names.deep_view();
    proof {
        assert(all.take(0) =~= Seq::<Seq<char>>::empty());
        assert(out.deep_view() =~= Seq::<Seq<char>>::empty());
    }
    while i < names.len()
        invariant
            all == names.deep_view(),
            i <= names.len(),
            out.deep_view() == without_name(all.take(i as int), name@),
        decreases names.len() - i,
    {
        proof {
            assert(all.take(i + 1).drop_last() =~= all.take(i as int));
            assert(all.take(i + 1).last() == names@[i as int]@);
        }
        if !same(names[i].as_str(), name) {
            let ghost before = out.deep_view();
            out.push(names[i].clone());
            assert(out.deep_view() =~= before.push(names@[i as int]@));
        }
        i = i + 1;
    }
    proof {
        assert(all.take(i as int) =~= all);
    }
    out
}

impl PortMapping {
    pub fn new() -> (r: Self)
        ensures
            r@ == no_ports(),
    {
        let r = PortMapping {
            logical_port_list: Vec::new(),
            logical_to_physical: OrdMap::new(),
            physical_to_logical: OrdMap::new(),
            logical_to_asic: OrdMap::new(),
        };
        assert(r@ =~= no_ports());
        r
    }

    /// A mapping of the same ports.
    pub fn copy(&self) -> (r: Self)
        ensures
            r@ == self@,
            r.physical_to_logical.keys() == self.physical_to_logical.keys(),
    {
        PortMapping {
            logical_port_list: crate::ord_map::Duplicate::duplicate(&self.logical_port_list),
            logical_to_physical: self.logical_to_physical.copy(),
            physical_to_logical: self.physical_to_logical.copy(),
            logical_to_asic: self.logical_to_asic.copy(),
        }
    }

    /// Applies an addition or a removal.
    pub fn handle_port_change_event(&mut self, event: &PortChangeEvent)
        ensures
            final(self)@ == event_applied(old(self)@, event@),
    {
        match event.event_type {
            PortChangeEventType::PortAdd => self.handle_port_add(event),
            PortChangeEventType::PortRemove => self.handle_port_remove(event),
            _ => {},
        }
    }

    fn handle_port_add(&mut self, event: &PortChangeEvent)
        ensures
            final(self)@ == port_added(old(self)@, event@),
    {
        let phys: usize = event.port_index as usize;
        if !list_contains(&self.logical_port_list, event.port_name.as_str()) {
            let ghost before = self.logical_port_list.deep_view();
            self.logical_port_list.push(event.port_name.clone());
            assert(self.logical_port_list.deep_view() =~= before.push(event.port_name@));
        }
        self.logical_to_physical.insert(event.port_name.clone(), phys);
        let mut entry: Vec<String> = match self.physical_to_logical.take(&phys) {
            Some(list) => list,
            None => Vec::new(),
        };
        assert(entry.deep_view() =~= ports_of(old(self)@, phys));
        if !list_contains(&entry, event.port_name.as_str()) {
            let ghost before = entry.deep_view();
            entry.push(event.port_name.clone());
            assert(entry.deep_view() =~= before.push(event.port_name@));
        }
        let list = sort_names(&entry);
        self.physical_to_logical.insert(phys, list);
        self.logical_to_asic.insert(event.port_name.clone(), event.asic_id);
        assert(self@ =~= port_added(old(self)@, event@));
    }

    fn handle_port_remove(&mut self, event: &PortChangeEvent)
        ensures
            final(self)@ == port_removed(old(self)@, event@),
    {
        let name = event.port_name.as_str();
        self.logical_port_list = list_without(&self.logical_port_list, name);
        self.logical_to_physical.remove_str(name);
        let phys: usize = event.port_index as usize;
        if let Some(list) = self.physical_to_logical.take(&phys) {
            let rest = list_without(&list, name);
            if rest.len() != 0 {
                self.physical_to_logical.insert(phys, rest);
            }
        }
        self.logical_to_asic.remove_str(name);
        assert(self@ =~= port_removed(old(self)@, event@));
    }

    /// The chip of a logical port.
    pub fn get_asic_id_for_logical_port(&self, port_name: &str) -> (r: Option<usize>)
        ensures
            r == self@.asic_of(port_name@),
    {
        match self.logical_to_asic.get_str(port_name) {
            Some(a) => Some(*a),
            None => None,
        }
    }

    /// The physical port as a list of one.
    pub fn get_logical_to_physical(&self, port_name: &str) -> (r: Option<Vec<usize>>)
        ensures
            match r {
                Some(l) => self@.to_physical.contains_key(port_name@) && l@ == seq![
                    self@.to_physical[port_name@],
                ],
                None => !self@.to_physical.contains_key(port_name@),
            },
    {
        match self.logical_to_physical.get_str(port_name) {
            Some(p) => {
                let mut l: Vec<usize> = Vec::new();
                l.push(*p);
                assert(l@ =~= seq![self@.to_physical[port_name@]]);
                Some(l)
            },
            None => None,
        }
    }

    /// The physical port of a logical one.
    pub fn physical_port(&self, port_name: &str) -> (r: Option<usize>)
        ensures
            r == self@.first_physical(port_name@),
    {
        match self.logical_to_physical.get_str(port_name) {
            Some(p) => Some(*p),
            None => None,
        }
    }

    /// The logical ports of a physical port, in natural order.
    pub fn get_physical_to_logical(&self, physical_port: usize) -> (r: Option<Vec<String>>)
        ensures
            match r {
                Some(l) => self@.to_logical.contains_key(physical_port) && l.deep_view()
                    == self@.to_logical[physical_port],
                None => !self@.to_logical.contains_key(physical_port),
            },
    {
        match self.physical_to_logical.get(&physical_port) {
            Some(l) => Some(crate::ord_map::Duplicate::duplicate(l)),
            None => None,
        }
    }

    /// Whether the mapping has the port.
    pub fn is_logical_port(&self, port_name: &str) -> (r: bool)
        ensures
            r == self@.to_physical.contains_key(port_name@),
    {
        self.logical_to_physical.contains_str(port_name)
    }

    /// A number stands for the physical port itself; another name for the one it
    /// is mapped to.
    pub fn logical_port_name_to_physical_port_list(&self, port_name: &str) -> (r: Option<Vec<usize>>)
        ensures
            match r {
                Some(l) => physical_of(self@, port_name@) is Some && l@ == seq![
                    physical_of(self@, port_name@)->0,
                ],
                None => physical_of(self@, port_name@) is None,
            },
    {
        match parse_usize(port_name) {
            Some(n) => {
                let mut l: Vec<usize> = Vec::new();
                l.push(n);
                assert(l@ =~= seq![n]);
                Some(l)
            },
            None => self.get_logical_to_physical(port_name),
        }
    }
}

impl Mapping {
    /// The ASIC of a logical port.
    pub open spec fn asic_of(self, name: Seq<char>) -> Option<usize> {
        if self.to_asic.contains_key(name) {
            Some(self.to_asic[name])
        } else {
            None
        }
    }

    /// The physical port of a logical one.
    pub open spec fn first_physical(self, name: Seq<char>) -> Option<usize> {
        if self.to_physical.contains_key(name) {
            Some(self.to_physical[name])
        } else {
            None
        }
    }

    /// The first logical port of a physical one.
    pub open spec fn first_logical(self, physical: usize) -> Option<Seq<char>> {
        if self.to_logical.contains_key(physical) && self.to_logical[physical].len() > 0 {
            Some(self.to_logical[physical][0])
        } else {
            None
        }
    }
}

/// The mapping of the first `n` rows: each front-panel port is added.
pub open spec fn rows_mapped(asic_id: usize, rows: Seq<(Seq<char>, i32, Option<Seq<char>>)>) -> Mapping
    decreases rows.len(),
{
    if rows.len() == 0 {
        no_ports()
    } else {
        let m = rows_mapped(asic_id, rows.drop_last());
        let (name, index, role) = rows.last();
        if front_panel(name, role) {
            port_added(m, plain_event(name, index, asic_id, PortChangeEventType::PortAdd))
        } else {
            m
        }
    }
}

/// The text that an optional string lends.
fn borrowed(s: &Option<String>) -> (r: Option<&str>)
    ensures
        r.deep_view() == s.deep_view(),
{
    match s {
        Some(t) => Some(t.as_str()),
        None => None,
    }
}

/// The mapping of the configured ports, of which each row gives the name, the
/// index and the role.
pub fn build_port_mapping_from_rows(asic_id: usize, rows: &Vec<(String, i32, Option<String>)>) -> (r: PortMapping)
    ensures
        r@ == rows_mapped(asic_id, rows.deep_view()),
{
    let mut mapping = PortMapping::new();
    let mut i: usize = 0;
    let ghost all = rows.deep_view();
    proof {
        assert(all.take(0) =~= Seq::<(Seq<char>, i32, Option<Seq<char>>)>::empty());
    }
    while i < rows.len()
        invariant
            all == rows.deep_view(),
            i <= rows.len(),
            mapping@ == rows_mapped(asic_id, all.take(i as int)),
        decreases rows.len() - i,
    {
        let row = &rows[i];
        proof {
            assert(all.take(i + 1).drop_last() =~= all.take(i as int));
            assert(all.take(i + 1).last() == rows@[i as int].deep_view());
        }
        if is_front_panel_port(row.0.as_str(), borrowed(&row.2)) {
            let ev = PortChangeEvent::new(row.0.as_str(), row.1, asic_id, PortChangeEventType::PortAdd);
            mapping.handle_port_change_event(&ev);
        }
        i = i + 1;
    }
    proof {
        assert(all.take(i as int) =~= all);
    }
    mapping
}

/// The name of the front-panel port of slot `physical`.
pub open spec fn slot_name(physical: nat) -> Seq<char> {
    "Ethernet"@ + dec(physical * 4)
}

/// The name of the front-panel port of a slot.
pub fn slot_port_name(physical: usize) -> (r: String)
    requires
        physical * 4 <= usize::MAX,
    ensures
        r@ == slot_name(physical as nat),
{
    join("Ethernet", usize_text(physical * 4).as_str())
}

/// The configuration has the port, and it is a front-panel port.
pub open spec fn configured(config: DbState, port_tbl: TableId, name: Seq<char>) -> bool {
    config.contains_key((port_tbl, name)) && front_panel(name, field_at(config, port_tbl, name, "role"@))
}

/// The mapping of the ports that the configuration has for the first `n` slots.
pub open spec fn slots_mapped(config: DbState, port_tbl: TableId, n: nat) -> Mapping
    decreases n,
{
    if n == 0 {
        no_ports()
    } else {
        let p = (n - 1) as nat;
        let m = slots_mapped(config, port_tbl, p);
        if configured(config, port_tbl, slot_name(p)) {
            port_added(
                m,
                plain_event(slot_name(p), (p as usize) as i32, 0, PortChangeEventType::PortAdd),
            )
        } else {
            m
        }
    }
}

/// The mapping of the configured front-panel ports, slot by slot.
pub fn get_port_mapping(config: &Db, port_tbl: TableId, num_sfps: usize) -> (r: PortMapping)
    requires
        num_sfps * 4 <= usize::MAX,
    ensures
        r@ == slots_mapped(config@, port_tbl, num_sfps as nat),
{
    let mut mapping = PortMapping::new();
    let mut phys: usize = 0;
    while phys < num_sfps
        invariant
            phys <= num_sfps,
            num_sfps * 4 <= usize::MAX,
            mapping@ == slots_mapped(config@, port_tbl, phys as nat),
        decreases num_sfps - phys,
    {
        let name = slot_port_name(phys);
        if config.has_row(port_tbl, name.as_str()) {
            let role = config.hget(port_tbl, name.as_str(), "role");
            if is_front_panel_port(name.as_str(), borrowed(&role)) {
                let ev = PortChangeEvent::new(name.as_str(), phys as i32, 0, PortChangeEventType::PortAdd);
                mapping.handle_port_change_event(&ev);
            }
        }
        phys = phys + 1;
    }
    mapping
}

/// The change that the configuration asks of slot `physical`: a port that it has
/// and the mapping has not is added, one that it has no more is removed.
pub open spec fn slot_change(config: DbState, port_tbl: TableId, m: Mapping, physical: usize) -> Option<EventState> {
    let name = slot_name(physical as nat);
    let known = m.to_physical.contains_key(name);
    if !known && configured(config, port_tbl, name) {
        Some(plain_event(name, physical as i32, 0, PortChangeEventType::PortAdd))
    } else if known && !config.contains_key((port_tbl, name)) {
        Some(plain_event(name, m.to_physical[name] as i32, 0, PortChangeEventType::PortRemove))
    } else {
        None
    }
}

/// The changes that the configuration asks of the first `n` slots, in order.
pub open spec fn slot_changes(config: DbState, port_tbl: TableId, m: Mapping, n: nat) -> Seq<EventState>
    decreases n,
{
    if n == 0 {
        Seq::empty()
    } else {
        let before = slot_changes(config, port_tbl, m, (n - 1) as nat);
        match slot_change(config, port_tbl, m, (n - 1) as usize) {
            Some(e) => before.push(e),
            None => before,
        }
    }
}

/// Compares the configured ports with the mapping and reports what was added and
/// removed.
pub fn poll_config_port_changes(
    config: &Db,
    port_tbl: TableId,
    num_sfps: usize,
    port_mapping: &PortMapping,
) -> (r: Vec<PortChangeEvent>)
    requires
        num_sfps * 4 <= usize::MAX,
    ensures
        r.deep_view() == slot_changes(config@, port_tbl, port_mapping@, num_sfps as nat),
{
    let mut events: Vec<PortChangeEvent> = Vec::new();
    let mut phys: usize = 0;
    assert(events.deep_view() =~= Seq::<EventState>::empty());
    while phys < num_sfps
        invariant
            phys <= num_sfps,
            num_sfps * 4 <= usize::MAX,
            events.deep_view() == slot_changes(config@, port_tbl, port_mapping@, phys as nat),
        decreases num_sfps - phys,
    {
        let name = slot_port_name(phys);
        let has_row = config.has_row(port_tbl, name.as_str());
        let known = port_mapping.physical_port(name.as_str());
        let ghost before = events.deep_view();
        match known {
            None => {
                if has_row {
                    let role = config.hget(port_tbl, name.as_str(), "role");
                    if is_front_panel_port(name.as_str(), borrowed(&role)) {
                        let ev = PortChangeEvent::new(
                            name.as_str(),
                            phys as i32,
                            0,
                            PortChangeEventType::PortAdd,
                        );
                        events.push(ev);
                        assert(events.deep_view() =~= before.push(ev@));
                    }
                }
            },
            Some(p) => {
                if !has_row {
                    let ev = PortChangeEvent::new(
                        name.as_str(),
                        p as i32,
                        0,
                        PortChangeEventType::PortRemove,
                    );
                    events.push(ev);
                    assert(events.deep_view() =~= before.push(ev@));
                }
            },
        }
        phys = phys + 1;
    }
    events
}

/// The lists and maps of a mapping agree: the listed names are the mapped ones,
/// each once, and the ports of a physical port are those that are mapped to it,
/// each once and in natural order.
pub open spec fn consistent(m: Mapping) -> bool {
    &&& m.logical.no_duplicates()
    &&& forall|name: Seq<char>| #[trigger]
        m.logical.contains(name) <==> m.to_physical.contains_key(name)
    &&& m.to_asic.dom() == m.to_physical.dom()
    &&& forall|name: Seq<char>, p: usize|
        #![trigger ports_of(m, p).contains(name)]
        ports_of(m, p).contains(name) <==> m.first_physical(name) == Some(p)
    &&& forall|p: usize| #[trigger]
        m.to_logical.contains_key(p) ==> {
            &&& m.to_logical[p].len() > 0
            &&& m.to_logical[p].no_duplicates()
            &&& in_natural_order(m.to_logical[p])
        }
}

proof fn lemma_without_name(names: Seq<Seq<char>>, name: Seq<char>)
    ensures
        forall|n: Seq<char>| #[trigger]
            without_name(names, name).contains(n) <==> names.contains(n) && n != name,
        names.no_duplicates() ==> without_name(names, name).no_duplicates(),
        in_natural_order(names) ==> in_natural_order(without_name(names, name)),
        !names.contains(name) ==> without_name(names, name) == names,
    decreases names.len(),
{
    if names.len() > 0 {
        let d = names.drop_last();
        let l = names.last();
        let w = without_name(d, name);
        lemma_without_name(d, name);
        assert(names =~= d.push(l));
        let r = without_name(names, name);
        assert forall|n: Seq<char>| #[trigger] r.contains(n) <==> names.contains(n) && n != name by {
            if d.contains(n) {
                let i = d.index_of(n);
                assert(names[i] == n);
            }
            if n == l {
                assert(names[names.len() - 1] == n);
            }
            if names.contains(n) && n != l {
                let i = names.index_of(n);
                assert(d[i] == n);
            }
            if l != name {
                if w.contains(n) {
                    let i = w.index_of(n);
                    assert(r[i] == n);
                }
                if n == l {
                    assert(r[r.len() - 1] == n);
                }
                if r.contains(n) && n != l {
                    let i = r.index_of(n);
                    assert(w[i] == n);
                }
            }
        }
        if names.no_duplicates() {
            assert forall|i: int, j: int| 0 <= i < d.len() && 0 <= j < d.len() && i != j implies d[i] != d[j] by {
                assert(names[i] != names[j]);
            }
            if l != name {
                assert forall|i: int, j: int| 0 <= i < r.len() && 0 <= j < r.len() && i != j implies r[i]
                    != r[j] by {
                    if i == r.len() - 1 || j == r.len() - 1 {
                        let o = if i == r.len() - 1 { j } else { i };
                        assert(w.contains(w[o]));
                        assert(d.contains(w[o]));
                        let q = d.index_of(w[o]);
                        assert(names[q] != names[names.len() - 1]);
                    }
                }
            }
        }
        if in_natural_order(names) {
            assert forall|i: int, j: int| 0 <= i < j < d.len() implies !after(#[trigger] d[i], #[trigger] d[j]) by {
                assert(names[i] == d[i] && names[j] == d[j]);
            }
            if l != name {
                assert forall|i: int, j: int| 0 <= i < j < r.len() implies !after(
                    #[trigger] r[i],
                    #[trigger] r[j],
                ) by {
                    if j == r.len() - 1 {
                        assert(w.contains(w[i]));
                        assert(d.contains(w[i]));
                        let q = d.index_of(w[i]);
                        assert(!after(names[q], names[names.len() - 1]));
                    } else {
                        assert(r[i] == w[i] && r[j] == w[j]);
                    }
                }
            }
        }
        if !names.contains(name) {
            if d.contains(name) {
                let i = d.index_of(name);
                assert(names[i] == name);
            }
            assert(names[names.len() - 1] == l);
            assert(r =~= names);
        }
    }
}

proof fn lemma_with_name(names: Seq<Seq<char>>, name: Seq<char>)
    ensures
        forall|n: Seq<char>| #[trigger]
            with_name(names, name).contains(n) <==> names.contains(n) || n == name,
        names.no_duplicates() ==> with_name(names, name).no_duplicates(),
{
    let r = with_name(names, name);
    if !names.contains(name) {
        assert forall|n: Seq<char>| #[trigger] r.contains(n) <==> names.contains(n) || n == name by {
            if names.contains(n) {
                let i = names.index_of(n);
                assert(r[i] == n);
            }
            assert(r[r.len() - 1] == name);
            if r.contains(n) && n != name {
                let i = r.index_of(n);
                assert(names[i] == n);
            }
        }
    }
}

proof fn lemma_sorted_contains(names: Seq<Seq<char>>)
    ensures
        forall|n: Seq<char>| #[trigger] sorted(names).contains(n) <==> names.contains(n),
        names.no_duplicates() ==> sorted(names).no_duplicates(),
        sorted(names).len() == names.len(),
        in_natural_order(sorted(names)),
{
    law_sorted_names(names);
    sorted(names).to_multiset_ensures();
    names.to_multiset_ensures();
    assert forall|n: Seq<char>| #[trigger] sorted(names).contains(n) <==> names.contains(n) by {
        assert(sorted(names).to_multiset().count(n) == names.to_multiset().count(n));
    }
    if names.no_duplicates() {
        names.lemma_multiset_has_no_duplicates();
        sorted(names).lemma_multiset_has_no_duplicates_conv();
    }
}

/// An event keeps the lists and maps of a mapping in agreement, where it speaks of
/// a port by the physical port that the port is mapped to, if it is mapped at all.
pub proof fn law_events_keep_mapping_consistent(m: Mapping, e: EventState)
    requires
        consistent(m),
        m.to_physical.contains_key(e.port_name) ==> m.to_physical[e.port_name] == e.port_index as usize,
    ensures
        consistent(event_applied(m, e)),
{
    let physical = e.port_index as usize;
    let old_ports = ports_of(m, physical);
    match e.event_type {
        PortChangeEventType::PortAdd => {
            let r = port_added(m, e);
            lemma_with_name(m.logical, e.port_name);
            lemma_with_name(old_ports, e.port_name);
            lemma_sorted_contains(with_name(old_ports, e.port_name));
            assert(r.to_asic.dom() =~= r.to_physical.dom());
            assert forall|name: Seq<char>, p: usize|
                #![trigger ports_of(r, p).contains(name)]
                ports_of(r, p).contains(name) <==> r.first_physical(name) == Some(p) by {
                assert(ports_of(m, p).contains(name) <==> m.first_physical(name) == Some(p));
                if p == physical {
                    assert(ports_of(r, p).contains(name) <==> with_name(old_ports, e.port_name).contains(
                        name,
                    ));
                }
            }
            assert forall|p: usize| #[trigger] r.to_logical.contains_key(p) implies {
                &&& r.to_logical[p].len() > 0
                &&& r.to_logical[p].no_duplicates()
                &&& in_natural_order(r.to_logical[p])
            } by {
                if p != physical {
                    assert(m.to_logical.contains_key(p));
                } else {
                    assert(with_name(old_ports, e.port_name).contains(e.port_name));
                    if m.to_logical.contains_key(p) {
                        assert(old_ports.no_duplicates());
                    }
                }
            }
        },
        PortChangeEventType::PortRemove => {
            let r = port_removed(m, e);
            lemma_without_name(m.logical, e.port_name);
            lemma_without_name(old_ports, e.port_name);
            assert(r.to_asic.dom() =~= r.to_physical.dom());
            let rest = without_name(old_ports, e.port_name);
            assert forall|name: Seq<char>, p: usize|
                #![trigger ports_of(r, p).contains(name)]
                ports_of(r, p).contains(name) <==> r.first_physical(name) == Some(p) by {
                assert(ports_of(m, p).contains(name) <==> m.first_physical(name) == Some(p));
                if p == physical {
                    assert(rest.contains(name) <==> old_ports.contains(name) && name != e.port_name);
                    if rest.len() == 0 {
                        assert(!rest.contains(name));
                    }
                    assert(ports_of(r, p).contains(name) == rest.contains(name));
                }
            }
            assert forall|p: usize| #[trigger] r.to_logical.contains_key(p) implies {
                &&& r.to_logical[p].len() > 0
                &&& r.to_logical[p].no_duplicates()
                &&& in_natural_order(r.to_logical[p])
            } by {
                assert(m.to_logical.contains_key(p));
            }
        },
        _ => {},
    }
}

proof fn lemma_insert_then_without(names: Seq<Seq<char>>, p: int, name: Seq<char>)
    requires
        0 <= p <= names.len(),
        !names.contains(name),
    ensures
        without_name(names.insert(p, name), name) == names,
    decreases names.len(),
{
    let r = names.insert(p, name);
    if p == names.len() {
        assert(r.drop_last() =~= names);
        lemma_without_name(names, name);
    } else {
        let d = names.drop_last();
        assert(r.drop_last() =~= d.insert(p, name));
        assert(r.last() == names.last());
        assert(names.contains(names.last()));
        assert forall|i: int| 0 <= i < d.len() implies d[i] != name by {
            assert(names[i] == d[i]);
        }
        lemma_insert_then_without(d, p, name);
        assert(names =~= d.push(names.last()));
    }
}

/// A port that was not mapped, added and then removed, leaves the mapping as it
/// was.
pub proof fn law_removal_undoes_addition(m: Mapping, add: EventState, remove: EventState)
    requires
        consistent(m),
        !m.to_physical.contains_key(add.port_name),
        add.event_type == PortChangeEventType::PortAdd,
        remove.event_type == PortChangeEventType::PortRemove,
        remove.port_name == add.port_name,
        remove.port_index == add.port_index,
    ensures
        event_applied(event_applied(m, add), remove) == m,
{
    let name = add.port_name;
    let physical = add.port_index as usize;
    let ports = ports_of(m, physical);
    assert(!m.logical.contains(name));
    assert(m.first_physical(name) is None);
    assert(!ports.contains(name));
    lemma_insert_then_without(m.logical, m.logical.len() as int, name);
    assert(m.logical.insert(m.logical.len() as int, name) =~= m.logical.push(name));
    if m.to_logical.contains_key(physical) {
        law_sorting_keeps_order(ports);
    } else {
        assert(sorted(ports) =~= ports);
    }
    assert(ports.push(name).drop_last() =~= ports);
    let p = lemma_inserted_place(ports, name);
    lemma_insert_then_without(ports, p, name);
    let r = event_applied(event_applied(m, add), remove);
    assert(!m.to_asic.dom().contains(name));
    assert(r.to_physical =~= m.to_physical);
    assert(r.to_asic =~= m.to_asic);
    assert(r.to_logical =~= m.to_logical);
    assert(r =~= m);
}

/// No two slots have the same name.
pub proof fn lemma_slot_names_differ(a: nat, b: nat)
    requires
        a != b,
    ensures
        slot_name(a) != slot_name(b),
{
    lemma_dec_reads_back(a * 4);
    lemma_dec_reads_back(b * 4);
    let e = "Ethernet"@;
    if slot_name(a) == slot_name(b) {
        assert(slot_name(a).subrange(e.len() as int, slot_name(a).len() as int) =~= dec(a * 4));
        assert(slot_name(b).subrange(e.len() as int, slot_name(b).len() as int) =~= dec(b * 4));
    }
}

/// The mapping of the configured slots agrees with itself, and maps the name of
/// each configured slot, and no other name, to the slot.
pub proof fn law_slot_mapping(config: DbState, port_tbl: TableId, n: nat, name: Seq<char>)
    requires
        n <= i32::MAX,
        n <= usize::MAX,
    ensures
        consistent(slots_mapped(config, port_tbl, n)),
        forall|q: nat|
            q < n && configured(config, port_tbl, slot_name(q)) ==> slots_mapped(
                config,
                port_tbl,
                n,
            ).first_physical(#[trigger] slot_name(q)) == Some(q as usize),
        (forall|q: nat| q < n && configured(config, port_tbl, slot_name(q)) ==> name != #[trigger] slot_name(q))
            ==> slots_mapped(config, port_tbl, n).first_physical(name) is None,
    decreases n,
{
    if n > 0 {
        let p = (n - 1) as nat;
        let m = slots_mapped(config, port_tbl, p);
        law_slot_mapping(config, port_tbl, p, name);
        if configured(config, port_tbl, slot_name(p)) {
            let e = plain_event(slot_name(p), (p as usize) as i32, 0, PortChangeEventType::PortAdd);
            assert forall|q: nat| q < p && configured(config, port_tbl, slot_name(q)) implies slot_name(p)
                != #[trigger] slot_name(q) by {
                lemma_slot_names_differ(p, q);
            }
            law_slot_mapping(config, port_tbl, p, slot_name(p));
            law_events_keep_mapping_consistent(m, e);
            assert(event_applied(m, e) == port_added(m, e));
        }
    }
}

/// The mapping after events, in order.
pub open spec fn events_applied(m: Mapping, es: Seq<EventState>) -> Mapping
    decreases es.len(),
{
    if es.len() == 0 {
        m
    } else {
        event_applied(events_applied(m, es.drop_last()), es.last())
    }
}

/// What the changes of the first `k` slots do to the name of a slot.
proof fn lemma_changes_applied(config: DbState, port_tbl: TableId, m: Mapping, k: nat, q: nat)
    requires
        k <= usize::MAX,
        q <= usize::MAX,
    ensures
        events_applied(m, slot_changes(config, port_tbl, m, k)).to_physical.contains_key(slot_name(q)) == if q
            < k {
            match slot_change(config, port_tbl, m, q as usize) {
                Some(e) => e.event_type == PortChangeEventType::PortAdd,
                None => m.to_physical.contains_key(slot_name(q)),
            }
        } else {
            m.to_physical.contains_key(slot_name(q))
        },
    decreases k,
{
    if k > 0 {
        let p = (k - 1) as nat;
        lemma_changes_applied(config, port_tbl, m, p, q);
        let before = slot_changes(config, port_tbl, m, p);
        match slot_change(config, port_tbl, m, p as usize) {
            Some(e) => {
                assert(before.push(e).drop_last() =~= before);
                if p != q {
                    lemma_slot_names_differ(p, q);
                }
            },
            None => {},
        }
    }
}

proof fn lemma_applied_changes_settle(config: DbState, port_tbl: TableId, m: Mapping, n: nat, k: nat)
    requires
        n <= usize::MAX,
        k <= n,
    ensures
        slot_changes(config, port_tbl, events_applied(m, slot_changes(config, port_tbl, m, n)), k).len() == 0,
    decreases k,
{
    if k > 0 {
        lemma_applied_changes_settle(config, port_tbl, m, n, (k - 1) as nat);
        lemma_changes_applied(config, port_tbl, m, n, (k - 1) as nat);
    }
}

/// Once the changes that the configuration asks for are applied, it asks for none:
/// a second look at the same configuration reports nothing.
pub proof fn law_applied_changes_settle(config: DbState, port_tbl: TableId, m: Mapping, n: nat)
    requires
        n <= usize::MAX,
    ensures
        slot_changes(config, port_tbl, events_applied(m, slot_changes(config, port_tbl, m, n)), n).len() == 0,
{
    lemma_applied_changes_settle(config, port_tbl, m, n, n);
}

} // verus!
