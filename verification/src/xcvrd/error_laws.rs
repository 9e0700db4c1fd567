//! What an error of a slot says.

use vstd::prelude::*;
use vstd::string::*;
use crate::hal::Hal;
use crate::xcvrd::sfp_state_update::{error_text, vendor_text};
use crate::xcvrd_utilities::sfp_status_helper::{bar_joined, blocking, generic_descriptions, vendor_specific};

verus! {

/// What the error bits mean, from the second lowest on.
pub open spec fn meanings() -> Seq<Seq<char>> {
    seq![
        "Blocking EEPROM from being read"@,
        "Power budget exceeded"@,
        "Bus stuck (I2C data or clock shorted)"@,
        "Bad or unsupported EEPROM"@,
        "Unsupported cable"@,
        "High temperature"@,
        "Bad cable (module/cable is shorted)"@,
    ]
}

/// The bits of which the meanings are known, in the order of their meanings.
pub open spec fn known_bits() -> Seq<u32> {
    seq![2u32, 4u32, 8u32, 16u32, 32u32, 64u32, 128u32]
}

/// What those of the first `n` known bits mean that are set.
pub open spec fn said(bits: u32, n: int) -> Seq<Seq<char>>
    decreases n,
{
    if n <= 0 {
        Seq::empty()
    } else if bits & known_bits()[n - 1] != 0 {
        said(bits, n - 1).push(meanings()[n - 1])
    } else {
        said(bits, n - 1)
    }
}

/// Texts are joined with a bar between each two.
pub proof fn law_bars_stand_between(parts: Seq<Seq<char>>, last: Seq<char>)
    ensures
        bar_joined(Seq::<Seq<char>>::empty()).len() == 0,
        bar_joined(seq![last]) == last,
        parts.len() > 0 ==> bar_joined(parts.push(last)) == bar_joined(parts) + "|"@ + last,
{
    if parts.len() > 0 {
        assert(parts.push(last).drop_last() =~= parts);
    }
}

/// The text of an error says what each of its set bits means, the lowest first, and
/// behind that what the vendor says, where one of the upper sixteen bits is set.
pub proof fn law_error_says_what_its_bits_mean(bits: u32, vendor: Seq<char>)
    ensures
        error_text(bits, None) == bar_joined(said(bits, 7)),
        bits >= 0x1_0000 ==> error_text(bits, Some(vendor)) == bar_joined(said(bits, 7).push(vendor)),
        bits < 0x1_0000 ==> error_text(bits, Some(vendor)) == bar_joined(said(bits, 7)),
        blocking(bits) == (bits & 2 != 0),
{
    assert((bits & 0xFFFF_0000u32 != 0) == (bits >= 0x1_0000)) by (bit_vector);
    assert(vendor_specific(bits) == (bits >= 0x1_0000));
    reveal_with_fuel(said, 8);
    assert(generic_descriptions(bits) =~= said(bits, 7));
}

/// What the vendor says of an error of a slot: what the report says of the very slot,
/// where it describes any, and else what the module in the slot says.
pub proof fn law_vendor_speaks_of_the_slot(
    hal: &Hal,
    p: usize,
    key: Seq<char>,
    descriptions: Map<Seq<char>, Seq<char>>,
    other: Seq<char>,
)
    ensures
        descriptions.contains_key(key) ==> vendor_text(hal, Some(p), key, descriptions) == Some(descriptions[key]),
        descriptions.contains_key(other) && !descriptions.contains_key(key) ==> vendor_text(
            hal,
            Some(p),
            key,
            descriptions,
        ) is None,
        p < hal.sfps@.len() && descriptions.dom() == Set::<Seq<char>>::empty() ==> vendor_text(
            hal,
            Some(p),
            key,
            descriptions,
        ) == match hal.sfps@[p as int].error_description {
            Ok(Some(s)) => Some(s@),
            _ => None,
        },
{
    if descriptions.contains_key(key) {
        assert(descriptions.dom().contains(key));
    }
    if descriptions.contains_key(other) {
        assert(descriptions.dom().contains(other));
    }
}

} // verus!
