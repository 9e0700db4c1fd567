//! How the values that a module reports are shown.

use vstd::prelude::*;
use vstd::string::*;
use crate::dom::utilities::db::{beautified, py_str, shown_text, unit_stripped, Beautifier};
use crate::dom::utilities::dom_sensor::{lane_key, monitor_text, monitor_unit};
use crate::error::XcvrdError;
use crate::hal::Hal;
use crate::text_laws::law_ending_is_cut;
use crate::value::{json_text, DictState, Val};
use crate::xcvrd_utilities::port_event_helper::Mapping;

verus! {

/// The port is mapped to the slot `p`, and a module is in the slot.
pub open spec fn plugged(m: Mapping, hal: &Hal, port: Seq<char>, p: usize) -> bool {
    &&& m.to_physical.contains_key(port)
    &&& m.to_physical[port] == p
    &&& m.to_asic.contains_key(port)
    &&& p < hal.sfps@.len()
    &&& hal.sfps@[p as int].presence == Ok::<bool, XcvrdError>(true)
}

/// The name of a monitor of one direction, `t` or `r`, of a lane from one to eight.
pub open spec fn lane_monitor(side: char, lane: int, what: Seq<char>) -> Seq<char> {
    seq![side, 'x', "0123456789"@[lane]] + what
}

/// `s` ends with `unit`.
pub open spec fn ends_with(s: Seq<char>, unit: Seq<char>) -> bool {
    exists|v: Seq<char>| s == #[trigger] (v + unit)
}

proof fn lemma_digit(lane: int)
    requires
        1 <= lane <= 8,
    ensures
        "0123456789"@[lane] as int == 48 + lane,
{
    reveal_strlit("0123456789");
}

proof fn lemma_stripped(v: Seq<char>, s: Seq<char>, unit: Seq<char>)
    ensures
        unit_stripped(Val::Text(v + unit), unit) == v,
        !ends_with(s, unit) ==> unit_stripped(Val::Text(s), unit) == s,
{
    law_ending_is_cut(v, unit, s);
}

proof fn lemma_lane_unit(side: char, lane: int)
    requires
        side == 't' || side == 'r',
        1 <= lane <= 8,
    ensures
        monitor_unit(lane_monitor(side, lane, "power"@)) == Some("dBm"@),
        monitor_unit(lane_monitor(side, lane, "bias"@)) == Some("mA"@),
{
    lemma_digit(lane);
    reveal_strlit("power");
    reveal_strlit("bias");
    reveal_strlit("temperature");
    reveal_strlit("voltage");
    assert("power"@.len() == 5 && "bias"@.len() == 4);
    let power = lane_monitor(side, lane, "power"@);
    let bias = lane_monitor(side, lane, "bias"@);
    assert(power.skip(3) =~= "power"@);
    assert(bias.skip(3) =~= "bias"@);
    assert(power[1] == 'x' && bias[1] == 'x');
    assert("temperature"@[1] == 'e' && "voltage"@[1] == 'o');
    assert(lane_key(power, "power"@));
    assert(lane_key(bias, "bias"@));
    assert(!lane_key(bias, "power"@));
}

/// The power of every lane is shown without `dBm` and its bias without `mA`, in both
/// directions; a value without the unit is shown as it is.
pub proof fn law_lane_monitors_lose_their_units(side: char, lane: int, v: Seq<char>, s: Seq<char>)
    requires
        side == 't' || side == 'r',
        1 <= lane <= 8,
    ensures
        monitor_text(lane_monitor(side, lane, "power"@), Val::Text(v + "dBm"@)) == v,
        monitor_text(lane_monitor(side, lane, "bias"@), Val::Text(v + "mA"@)) == v,
        !ends_with(s, "dBm"@) ==> monitor_text(lane_monitor(side, lane, "power"@), Val::Text(s)) == s,
        !ends_with(s, "mA"@) ==> monitor_text(lane_monitor(side, lane, "bias"@), Val::Text(s)) == s,
{
    lemma_lane_unit(side, lane);
    lemma_stripped(v, s, "dBm"@);
    lemma_stripped(v, s, "mA"@);
}

/// The temperature is shown without `C` and the voltage without `Volts`; a value
/// without the unit is shown as it is.
pub proof fn law_temperature_and_voltage_lose_their_units(v: Seq<char>, s: Seq<char>)
    ensures
        monitor_text("temperature"@, Val::Text(v + "C"@)) == v,
        monitor_text("voltage"@, Val::Text(v + "Volts"@)) == v,
        !ends_with(s, "C"@) ==> monitor_text("temperature"@, Val::Text(s)) == s,
        !ends_with(s, "Volts"@) ==> monitor_text("voltage"@, Val::Text(s)) == s,
{
    reveal_strlit("temperature");
    reveal_strlit("voltage");
    assert("temperature"@[0] == 't' && "voltage"@[0] == 'v');
    lemma_stripped(v, s, "C"@);
    lemma_stripped(v, s, "Volts"@);
}

/// Any other entry is shown by the text of its value, whatever it ends with.
pub proof fn law_other_monitors_keep_their_text(k: Seq<char>, v: Val)
    requires
        k != "temperature"@,
        k != "voltage"@,
        forall|side: char, lane: int|
            (side == 't' || side == 'r') && 1 <= lane <= 8 ==> k != #[trigger] lane_monitor(side, lane, "power"@)
                && k != lane_monitor(side, lane, "bias"@),
    ensures
        monitor_text(k, v) == py_str(v),
{
    if lane_key(k, "power"@) || lane_key(k, "bias"@) {
        let lane = k[2] as int - 48;
        lemma_digit(lane);
        if lane_key(k, "power"@) {
            assert(k =~= lane_monitor(k[0], lane, "power"@));
        } else {
            assert(k =~= lane_monitor(k[0], lane, "bias"@));
        }
        assert(lane_monitor(k[0], lane, "power"@) != k);
    }
}

/// Every value is shown by its text: a string as it is, a number as it is written, a
/// boolean as `True` or `False`, no value as `None`, and an array or an object as JSON
/// writes it. Only a string can lose a unit.
pub proof fn law_values_are_shown_by_their_text(kind: Beautifier, k: Seq<char>, s: Seq<char>)
    ensures
        py_str(Val::Text(s)) == s,
        shown_text(Beautifier::Plain, k, Val::Text(s)) == s,
        shown_text(kind, k, Val::Number(s)) == s,
        shown_text(kind, k, Val::Bool(true)) == "True"@,
        shown_text(kind, k, Val::Bool(false)) == "False"@,
        shown_text(kind, k, Val::Null) == "None"@,
        json_text(s) matches Some(t) ==> shown_text(kind, k, Val::Json(s)) == t,
        json_text(s) is None ==> shown_text(kind, k, Val::Json(s)) == s,
{
}

/// A dictionary that is put into texts keeps its names and gets no others, and holds for
/// each the text that the value is shown by. What was put into texts as it is stays so.
pub proof fn law_entries_become_their_texts(kind: Beautifier, d: DictState, k: Seq<char>)
    ensures
        beautified(kind, d).contains_key(k) == d.contains_key(k),
        d.contains_key(k) ==> beautified(Beautifier::Plain, d)[k] == Val::Text(py_str(d[k])),
        d.contains_key(k) ==> beautified(Beautifier::Dom, d)[k] == Val::Text(monitor_text(k, d[k])),
        beautified(Beautifier::Plain, beautified(kind, d)) == beautified(kind, d),
{
    let b = beautified(kind, d);
    assert(beautified(Beautifier::Plain, b) =~= b) by {
        assert forall|x: Seq<char>| #[trigger] b.contains_key(x) implies beautified(Beautifier::Plain, b)[x] == b[x] by {
            law_values_are_shown_by_their_text(kind, x, shown_text(kind, x, d[x]));
        }
    }
}

} // verus!
