//! The error bits of a module slot and what they say.

use vstd::prelude::*;
use vstd::string::*;
use crate::db::{field_at, Db, DbState, TableId};
use crate::text::{contains, holds_text};

verus! {

/// The status of a slot whose module was taken out.
pub const SFP_STATUS_REMOVED: &'static str = "0";

/// The status of a slot whose module was put in.
pub const SFP_STATUS_INSERTED: &'static str = "1";

pub const SFP_ERRORS_BLOCKING_MASK: u32 = 0x02;

pub const SFP_ERRORS_GENERIC_MASK: u32 = 0x0000_FFFE;

pub const SFP_ERRORS_VENDOR_SPECIFIC_MASK: u32 = 0xFFFF_0000;

/// The description of the error that keeps the EEPROM from being read.
pub const SFP_ERROR_DESCRIPTION_BLOCKING: &'static str = "Blocking EEPROM from being read";

/// The generic error bits, lowest first, each with its description.
pub const SFP_ERROR_BIT_TO_DESCRIPTION: [(u32, &'static str); 7] = [
    (0x0002, "Blocking EEPROM from being read"),
    (0x0004, "Power budget exceeded"),
    (0x0008, "Bus stuck (I2C data or clock shorted)"),
    (0x0010, "Bad or unsupported EEPROM"),
    (0x0020, "Unsupported cable"),
    (0x0040, "High temperature"),
    (0x0080, "Bad cable (module/cable is shorted)"),
];

/// The EEPROM cannot be read.
pub open spec fn blocking(error_bits: u32) -> bool {
    error_bits & SFP_ERRORS_BLOCKING_MASK != 0
}

/// The vendor says more about the error.
pub open spec fn vendor_specific(error_bits: u32) -> bool {
    error_bits & SFP_ERRORS_VENDOR_SPECIFIC_MASK != 0
}

/// Whether an error keeps the EEPROM from being read.
pub fn is_error_block_eeprom_reading(error_bits: u32) -> (r: bool)
    ensures
        r == blocking(error_bits),
{
    (error_bits & SFP_ERRORS_BLOCKING_MASK) != 0
}

/// Whether an error is one that the vendor describes.
pub fn has_vendor_specific_error(error_bits: u32) -> (r: bool)
    ensures
        r == vendor_specific(error_bits),
{
    (error_bits & SFP_ERRORS_VENDOR_SPECIFIC_MASK) != 0
}

/// `s` with `text` behind it where the bit is set.
pub open spec fn with_bit(s: Seq<Seq<char>>, error_bits: u32, bit: u32, text: Seq<char>) -> Seq<Seq<char>> {
    if error_bits & bit != 0 {
        s.push(text)
    } else {
        s
    }
}

/// The descriptions of the generic error bits that are set, lowest bit first.
pub open spec fn generic_descriptions(error_bits: u32) -> Seq<Seq<char>> {
    let s = Seq::<Seq<char>>::empty();
    let s = with_bit(s, error_bits, 0x0002, "Blocking EEPROM from being read"@);
    let s = with_bit(s, error_bits, 0x0004, "Power budget exceeded"@);
    let s = with_bit(s, error_bits, 0x0008, "Bus stuck (I2C data or clock shorted)"@);
    let s = with_bit(s, error_bits, 0x0010, "Bad or unsupported EEPROM"@);
    let s = with_bit(s, error_bits, 0x0020, "Unsupported cable"@);
    let s = with_bit(s, error_bits, 0x0040, "High temperature"@);
    with_bit(s, error_bits, 0x0080, "Bad cable (module/cable is shorted)"@)
}

/// The descriptions of those of the first `n` generic bits that are set.
pub open spec fn described_upto(error_bits: u32, n: int) -> Seq<Seq<char>>
    decreases n,
{
    if n <= 0 {
        Seq::empty()
    } else {
        let (bit, text) = SFP_ERROR_BIT_TO_DESCRIPTION@[n - 1];
        with_bit(described_upto(error_bits, n - 1), error_bits, bit, text@)
    }
}

proof fn lemma_generic_descriptions(error_bits: u32)
    ensures
        described_upto(error_bits & SFP_ERRORS_GENERIC_MASK, 7) == generic_descriptions(error_bits),
{
    let generic = error_bits & SFP_ERRORS_GENERIC_MASK;
    assert(generic & 0x0002 == error_bits & 0x0002 && generic & 0x0004 == error_bits & 0x0004
        && generic & 0x0008 == error_bits & 0x0008 && generic & 0x0010 == error_bits & 0x0010
        && generic & 0x0020 == error_bits & 0x0020 && generic & 0x0040 == error_bits & 0x0040
        && generic & 0x0080 == error_bits & 0x0080) by (bit_vector)
        requires
            generic == error_bits & 0x0000_FFFE,
    ;
    reveal_with_fuel(described_upto, 8);
}

fn push_if(out: &mut Vec<String>, set: bool, text: &str)
    ensures
        final(out).deep_view() == if set {
            old(out).deep_view().push(text@)
        } else {
            old(out).deep_view()
        },
{
    if set {
        out.push(text.to_owned());
        assert(out.deep_view() =~= old(out).deep_view().push(text@));
    }
}

/// The descriptions of the generic error bits that are set, lowest bit first.
pub fn fetch_generic_error_description(error_bits: u32) -> (r: Vec<String>)
    ensures
        r.deep_view() == generic_descriptions(error_bits),
{
    let generic: u32 = error_bits & SFP_ERRORS_GENERIC_MASK;
    let mut out: Vec<String> = Vec::new();
    assert(out.deep_view() =~= Seq::<Seq<char>>::empty());
    let mut i: usize = 0;
    while i < SFP_ERROR_BIT_TO_DESCRIPTION.len()
        invariant
            i <= SFP_ERROR_BIT_TO_DESCRIPTION@.len(),
            out.deep_view() == described_upto(generic, i as int),
        decreases SFP_ERROR_BIT_TO_DESCRIPTION@.len() - i,
    {
        let (bit, text) = SFP_ERROR_BIT_TO_DESCRIPTION[i];
        push_if(&mut out, generic & bit != 0, text);
        i = i + 1;
    }
    proof {
        lemma_generic_descriptions(error_bits);
    }
    out
}

/// The parts with a bar between each two.
pub open spec fn bar_joined(parts: Seq<Seq<char>>) -> Seq<char>
    decreases parts.len(),
{
    if parts.len() == 0 {
        Seq::empty()
    } else if parts.len() == 1 {
        parts[0]
    } else {
        bar_joined(parts.drop_last()) + "|"@ + parts.last()
    }
}

/// The parts with a bar between each two.
pub fn join_bars(parts: &Vec<String>) -> (r: String)
    ensures
        r@ == bar_joined(parts.deep_view()),
{
    let ghost all = parts.deep_view();
    if parts.len() == 0 {
        return String::new();
    }
    let mut out: String = parts[0].clone();
    let mut i: usize = 1;
    while i < parts.len()
        invariant
            all == parts.deep_view(),
            1 <= i <= parts.len(),
            out@ == bar_joined(all.take(i as int)),
        decreases parts.len() - i,
    {
        proof {
            assert(all.take(i + 1).drop_last() =~= all.take(i as int));
            assert(all.take(i + 1).last() == parts@[i as int]@);
        }
        out.append("|");
        out.append(parts[i].as_str());
        i = i + 1;
    }
    assert(all.take(i as int) =~= all);
    out
}

/// The error of the port says that its EEPROM cannot be read.
pub open spec fn error_blocked(db: DbState, status_sw_tbl: TableId, port: Seq<char>) -> bool {
    field_at(db, status_sw_tbl, port, "error"@) matches Some(e) && holds_text(
        e,
        SFP_ERROR_DESCRIPTION_BLOCKING@,
    )
}

/// Whether an error of the port keeps its EEPROM from being read.
pub fn detect_port_in_error_status(logical_port_name: &str, db: &Db, status_sw_tbl: TableId) -> (r: bool)
    ensures
        r == error_blocked(db@, status_sw_tbl, logical_port_name@),
{
    match db.hget(status_sw_tbl, logical_port_name, "error") {
        Some(e) => contains(e.as_str(), SFP_ERROR_DESCRIPTION_BLOCKING),
        None => false,
    }
}

} // verus!
