//! What the lanes that the configuration gives a port come to.

use vstd::prelude::*;
use vstd::string::*;
use crate::cmis::cmis_manager_task::{
    active_fields, apsel_field, apsel_fields, apsel_text, port_of, CmisSetup, World,
};
use crate::cmis::datapath::{
    datapath_in, dpconfig_read, lane_in, lane_state_name, lanes, law_lanes_are_the_first, register, staged,
    staged_apsel, staged_byte, status_text, APPLY_DPINIT_OFFSET, DPDEINIT_OFFSET, OUTPUT_DISABLE_TX_OFFSET,
    SCS0_DPCONFIG_START,
};
use crate::cmis::laws::{law_bring_up_reaches_ready, register_write, steps_taken};
use crate::db::{field_at, DbState, TableId};
use crate::hal::{Command, Hal};
use crate::text::{dec, lemma_dec_reads_back, digits_value};
use crate::text_laws::{
    comma_joined, inked, law_commas_part_a_list, law_decimal_text_grows_by_digits, law_parts_with_ink_are_counted,
};
use crate::xcvrd_utilities::common::CmisState;

verus! {

/// How many entries of a lane list are not blank.
pub open spec fn listed(entries: Seq<Seq<char>>) -> int {
    entries.filter(|e: Seq<char>| inked(e)).len() as int
}

/// The configuration lists these lanes for a port.
pub open spec fn lists_lanes(db: DbState, cfg: TableId, port: Seq<char>, entries: Seq<Seq<char>>) -> bool {
    &&& entries.len() > 0
    &&& forall|i: int| 0 <= i < entries.len() ==> !(#[trigger] entries[i]).contains(',')
    &&& field_at(db, cfg, port, "lanes"@) == Some(comma_joined(entries))
}

/// A port has as many host lanes as its lane list has entries that are not blank,
/// up to eight; four, where there are none, more than eight, or no list.
pub proof fn law_configured_lanes_are_taken(setup: &CmisSetup, db: DbState, port: Seq<char>, entries: Seq<Seq<char>>)
    ensures
        lists_lanes(db, setup.cfg_port_tbl, port, entries) ==> {
            &&& 1 <= listed(entries) <= 8 ==> setup.host_lane_count(db, port) == listed(entries)
            &&& listed(entries) == 0 || listed(entries) > 8 ==> setup.host_lane_count(db, port) == 4
        },
        field_at(db, setup.cfg_port_tbl, port, "lanes"@) is None ==> setup.host_lane_count(db, port) == 4,
{
    if lists_lanes(db, setup.cfg_port_tbl, port, entries) {
        law_commas_part_a_list(entries);
        law_parts_with_ink_are_counted(entries);
    }
}

/// The bit of a lane is set in a byte.
pub open spec fn bit(byte: u8, lane: u8) -> bool {
    byte & (1u8 << lane) != 0
}

/// The bits of `byte` are those of the first `n` lanes.
pub open spec fn first_bits(byte: u8, n: int) -> bool {
    forall|lane: u8| lane < 8 ==> (#[trigger] bit(byte, lane) <==> lane < n)
}

/// The bits of `byte` are those of the lanes behind the first `n`.
pub open spec fn other_bits(byte: u8, n: int) -> bool {
    forall|lane: u8| lane < 8 ==> (#[trigger] bit(byte, lane) <==> lane >= n)
}

proof fn lemma_bits(n: int)
    requires
        0 <= n <= 8,
    ensures
        first_bits(lanes(n), n),
        other_bits(!lanes(n), n),
{
    let m = lanes(n);
    assert forall|lane: u8| lane < 8 implies (#[trigger] bit(m, lane) <==> lane < n) by {
        law_lanes_are_the_first(n, lane as int);
    }
    assert forall|lane: u8| lane < 8 implies (#[trigger] bit(!m, lane) <==> lane >= n) by {
        assert(bit(m, lane) <==> lane < n);
        assert(((!m) & (1u8 << lane)) != 0 <==> (m & (1u8 << lane)) == 0) by (bit_vector)
            requires
                lane < 8,
        ;
    }
}

/// The name under which a module reports the datapath state of the `i`th lane, from
/// one.
pub open spec fn numbered_state(i: int) -> Seq<char> {
    "DP"@ + seq!["0123456789"@[i]] + "State"@
}

/// The name of the field of the application of the `i`th lane, from one.
pub open spec fn numbered_apsel(i: int) -> Seq<char> {
    "active_apsel_hostlane"@ + seq!["0123456789"@[i]]
}

/// Each of the first `n` lanes whose datapath state the module reports is in state `a`
/// or `b`.
pub open spec fn lanes_are(hal: &Hal, physical: usize, n: int, a: Seq<char>, b: Seq<char>) -> bool {
    forall|i: int|
        1 <= i <= n ==> match status_text(hal, physical, #[trigger] numbered_state(i)) {
            Some(s) => s == a || s == b,
            None => true,
        }
}

/// The lanes of the first bits are the first lanes.
pub proof fn lemma_lanes_are(hal: &Hal, physical: usize, n: int, a: Seq<char>, b: Seq<char>)
    requires
        0 <= n <= 8,
    ensures
        datapath_in(hal, physical, lanes(n), a, b) == lanes_are(hal, physical, n, a, b),
{
    assert forall|i: int| 1 <= i <= 8 implies lane_state_name(i - 1) == #[trigger] numbered_state(i) by {
        law_decimal_text_grows_by_digits(0, i as nat);
    }
    assert forall|lane: int| 0 <= lane < 8 implies (#[trigger] lane_in(lanes(n), lane) <==> lane < n) by {
        law_lanes_are_the_first(n, lane);
    }
    if datapath_in(hal, physical, lanes(n), a, b) {
        assert forall|i: int| 1 <= i <= n implies match status_text(hal, physical, #[trigger] numbered_state(i)) {
            Some(s) => s == a || s == b,
            None => true,
        } by {
            assert(lane_in(lanes(n), i - 1));
            assert(lane_state_name(i - 1) == numbered_state(i));
        }
    }
    if lanes_are(hal, physical, n, a, b) {
        assert forall|lane: int| 0 <= lane < 8 && #[trigger] lane_in(lanes(n), lane) implies match status_text(
            hal,
            physical,
            lane_state_name(lane),
        ) {
            Some(s) => s == a || s == b,
            None => true,
        } by {
            assert(lane_state_name(lane) == numbered_state(lane + 1));
        }
    }
}

proof fn lemma_apsel_name(lane: int)
    requires
        0 <= lane < 8,
    ensures
        apsel_field(lane) == numbered_apsel(lane + 1),
        apsel_field(lane) != "host_lane_count"@,
        apsel_field(lane) != "media_lane_count"@,
{
    law_decimal_text_grows_by_digits(0, (lane + 1) as nat);
    reveal_strlit("active_apsel_hostlane");
    reveal_strlit("host_lane_count");
    reveal_strlit("media_lane_count");
    assert(apsel_field(lane)[0] == 'a');
}

proof fn lemma_apsel_fields(a: Seq<Option<u8>>, lane: int, n: int)
    requires
        0 <= lane < n <= 8,
    ensures
        apsel_fields(a, n).contains_key(apsel_field(lane)),
        apsel_fields(a, n)[apsel_field(lane)] == apsel_text(a[lane]),
    decreases n,
{
    if lane < n - 1 {
        lemma_apsel_fields(a, lane, n - 1);
        lemma_dec_reads_back((lane + 1) as nat);
        lemma_dec_reads_back(n as nat);
        let head = "active_apsel_hostlane"@;
        assert(apsel_field(lane) != apsel_field(n - 1)) by {
            let x = apsel_field(lane).skip(head.len() as int);
            let y = apsel_field(n - 1).skip(head.len() as int);
            assert(x =~= dec((lane + 1) as nat));
            assert(y =~= dec(n as nat));
            assert(digits_value(x) != digits_value(y));
        }
    }
}

/// What is published of the lanes: their number, twice, and for each lane its
/// application, or that it has none.
pub proof fn law_every_lane_is_published(a: Seq<Option<u8>>, count: nat, i: int)
    requires
        a.len() == 8,
        count <= 8,
        1 <= i <= 8,
    ensures
        ({
            let f = active_fields(a, count);
            &&& f.contains_key("host_lane_count"@) && f["host_lane_count"@] == seq!["0123456789"@[count as int]]
            &&& f.contains_key("media_lane_count"@) && f["media_lane_count"@] == seq!["0123456789"@[count as int]]
            &&& f.contains_key(numbered_apsel(i))
            &&& a[i - 1] is None ==> f[numbered_apsel(i)] == "N/A"@
            &&& a[i - 1] matches Some(n) ==> digits_value(f[numbered_apsel(i)]) == Some(n as nat)
        }),
{
    lemma_apsel_fields(a, i - 1, 8);
    lemma_apsel_name(i - 1);
    law_decimal_text_grows_by_digits(0, count);
    reveal_strlit("host_lane_count");
    reveal_strlit("media_lane_count");
    assert("host_lane_count"@.len() == 15);
    assert("media_lane_count"@.len() == 16);
    match a[i - 1] {
        Some(n) => {
            lemma_dec_reads_back(n as nat);
        },
        None => {},
    }
}

/// The byte staged for the `i`th lane, from one: what the module reports where that
/// names an application; else for a lane of the port its first application on the
/// datapath of the lane, and for another lane nothing new. The application that is
/// kept of a lane is the high half of its byte, and none of a lane that is not the
/// port's.
pub proof fn law_lanes_are_staged(read: Option<Seq<u8>>, n: int, i: int)
    requires
        0 <= n <= 8,
        1 <= i <= 8,
        read matches Some(b) ==> b.len() == 8,
    ensures
        ({
            let bytes = staged(read, 1, lanes(n));
            let apsel = staged_apsel(bytes, lanes(n));
            &&& bytes.len() == 8 && apsel.len() == 8
            &&& read is Some && (i > n || read->0[i - 1] >= 16) ==> bytes[i - 1] == read->0[i - 1]
            &&& i <= n && (read is None || read->0[i - 1] < 16) ==> bytes[i - 1] == if i < 8 {
                16 + 2 * i
            } else {
                16
            }
            &&& i > n && read is None ==> bytes[i - 1] == 0
            &&& i <= n ==> apsel[i - 1] == Some((bytes[i - 1] / 16) as u8)
            &&& i > n ==> apsel[i - 1] is None
        }),
{
    let lane = i - 1;
    law_lanes_are_the_first(n, lane);
    let bytes = staged(read, 1, lanes(n));
    assert(bytes[lane] == staged_byte(read, 1, lanes(n), lane));
    let x = bytes[lane];
    assert((x >> 4) & 0x0f == x / 16) by (bit_vector);
    let l = i as u8;
    assert(1u8 <= l < 8u8 ==> ((1u8 << 4) | (l << 1)) == 16 + 2 * l) by (bit_vector);
    assert((1u8 << 4) | (8u8 << 1) == 16) by (bit_vector);
    match read {
        Some(b) => {
            let y = b[lane];
            assert(y >> 4 == 0 <==> y < 16) by (bit_vector);
        },
        None => {},
    }
}

proof fn lemma_ready(setup: &CmisSetup, h: Seq<Hal>, w: World, port: Seq<char>, physical: usize, at: Seq<u64>, n: int)
    requires
        h.len() == 7,
        at.len() == 7,
        forall|k: int| 0 <= k < 7 ==> physical < (#[trigger] h[k]).sfps@.len(),
        setup.state_of(w, port) == CmisState::Inserted,
        field_at(w.db, setup.cfg_port_tbl, port, "admin_status"@) == Some("up"@),
        setup.state_port_tbl matches Some(s) ==> field_at(w.db, s, port, "host_tx_ready"@) != Some("false"@),
        setup.host_lane_count(w.db, port) == n,
        port_of(w, port).retries <= 3,
        !port_of(w, port).forced_tx_disabled,
        status_text(&h[3], physical, "module_state"@) == Some("ModuleReady"@),
        datapath_in(&h[3], physical, lanes(n), "DataPathDeactivated"@, "DataPathDeactivated"@),
        datapath_in(&h[5], physical, lanes(n), "DataPathInitialized"@, "DataPathActivated"@),
        datapath_in(&h[6], physical, lanes(n), "DataPathActivated"@, "DataPathActivated"@),
    ensures
        ({
            let mask = lanes(n);
            let bytes = staged(dpconfig_read(&h[3], physical), 1, mask);
            let w7 = steps_taken(setup, h, w, port, physical, at, 7);
            &&& setup.state_of(w7, port) == CmisState::Ready
            &&& forall|t: TableId, f: Seq<char>|
                {
                    let fields = active_fields(staged_apsel(bytes, mask), n as nat);
                    setup.int_tbl == Some(t) && t != setup.status_sw_tbl && w.db.contains_key((t, port))
                        && fields.contains_key(f) ==> #[trigger] field_at(w7.db, t, port, f) == Some(fields[f])
                }
            &&& w7.commands == w.commands + seq![
                (physical, register_write(DPDEINIT_OFFSET, 0xff)),
                (physical, register_write(OUTPUT_DISABLE_TX_OFFSET, 0xff)),
                (physical, Command::SetLpmode(false)),
                (
                    physical,
                    Command::WriteEeprom { offset: register(SCS0_DPCONFIG_START), data: bytes },
                ),
                (physical, register_write(APPLY_DPINIT_OFFSET, mask)),
                (physical, register_write(DPDEINIT_OFFSET, !mask)),
                (physical, register_write(OUTPUT_DISABLE_TX_OFFSET, !mask)),
            ]
        }),
{
    law_bring_up_reaches_ready(setup, h, w, port, physical, at);
}

/// The bring-up of a port that is up, whose host is ready and whose module follows,
/// lights the lanes that the configuration lists and no others: the applications are
/// applied to the first lanes, as many as are listed, and the deinit and the
/// transmitter-disable bits are left set on the other lanes alone. The number of lanes
/// and the application of each are published.
pub proof fn law_bring_up_lights_the_configured_lanes(
    setup: &CmisSetup,
    h: Seq<Hal>,
    w: World,
    port: Seq<char>,
    physical: usize,
    at: Seq<u64>,
    entries: Seq<Seq<char>>,
    t: TableId,
    i: int,
)
    requires
        h.len() == 7,
        at.len() == 7,
        forall|k: int| 0 <= k < 7 ==> physical < (#[trigger] h[k]).sfps@.len(),
        setup.state_of(w, port) == CmisState::Inserted,
        field_at(w.db, setup.cfg_port_tbl, port, "admin_status"@) == Some("up"@),
        setup.state_port_tbl matches Some(s) ==> field_at(w.db, s, port, "host_tx_ready"@) != Some("false"@),
        lists_lanes(w.db, setup.cfg_port_tbl, port, entries),
        1 <= listed(entries) <= 8,
        port_of(w, port).retries <= 3,
        !port_of(w, port).forced_tx_disabled,
        status_text(&h[3], physical, "module_state"@) == Some("ModuleReady"@),
        lanes_are(&h[3], physical, listed(entries), "DataPathDeactivated"@, "DataPathDeactivated"@),
        lanes_are(&h[5], physical, listed(entries), "DataPathInitialized"@, "DataPathActivated"@),
        lanes_are(&h[6], physical, listed(entries), "DataPathActivated"@, "DataPathActivated"@),
        setup.int_tbl == Some(t),
        t != setup.status_sw_tbl,
        w.db.contains_key((t, port)),
        1 <= i <= 8,
    ensures
        ({
            let n = listed(entries);
            let w7 = steps_taken(setup, h, w, port, physical, at, 7);
            &&& field_at(w7.db, setup.status_sw_tbl, port, "cmis_state"@) == Some("READY"@)
            &&& field_at(w7.db, t, port, "host_lane_count"@) == Some(seq!["0123456789"@[n]])
            &&& field_at(w7.db, t, port, "media_lane_count"@) == Some(seq!["0123456789"@[n]])
            &&& (field_at(w7.db, t, port, numbered_apsel(i)) == Some("N/A"@)) == (i > n)
            &&& i <= n && dpconfig_read(&h[3], physical) is None ==> field_at(w7.db, t, port, numbered_apsel(i))
                == Some("1"@)
            &&& exists|apply: u8, dark: u8, bytes: Seq<u8>|
                #![trigger first_bits(apply, n), other_bits(dark, n), bytes.len()]
                {
                    &&& first_bits(apply, n)
                    &&& other_bits(dark, n)
                    &&& bytes.len() == 8
                    &&& w7.commands == w.commands + seq![
                        (physical, Command::WriteEeprom { offset: 2176, data: seq![0xffu8] }),
                        (physical, Command::WriteEeprom { offset: 2178, data: seq![0xffu8] }),
                        (physical, Command::SetLpmode(false)),
                        (physical, Command::WriteEeprom { offset: 2193, data: bytes }),
                        (physical, Command::WriteEeprom { offset: 2191, data: seq![apply] }),
                        (physical, Command::WriteEeprom { offset: 2176, data: seq![dark] }),
                        (physical, Command::WriteEeprom { offset: 2178, data: seq![dark] }),
                    ]
                }
        }),
{
    let n = listed(entries);
    law_configured_lanes_are_taken(setup, w.db, port, entries);
    lemma_bits(n);
    lemma_lanes_are(&h[3], physical, n, "DataPathDeactivated"@, "DataPathDeactivated"@);
    lemma_lanes_are(&h[5], physical, n, "DataPathInitialized"@, "DataPathActivated"@);
    lemma_lanes_are(&h[6], physical, n, "DataPathActivated"@, "DataPathActivated"@);
    lemma_ready(setup, h, w, port, physical, at, n);
    let read = dpconfig_read(&h[3], physical);
    let bytes = staged(read, 1, lanes(n));
    let apsel = staged_apsel(bytes, lanes(n));
    law_lanes_are_staged(read, n, i);
    law_every_lane_is_published(apsel, n as nat, i);
    let w7 = steps_taken(setup, h, w, port, physical, at, 7);
    assert(field_at(w7.db, t, port, "host_lane_count"@) == Some(seq!["0123456789"@[n]]));
    assert(field_at(w7.db, t, port, "media_lane_count"@) == Some(seq!["0123456789"@[n]]));
    assert(field_at(w7.db, t, port, numbered_apsel(i)) == Some(
        active_fields(apsel, n as nat)[numbered_apsel(i)],
    ));
    reveal_strlit("N/A");
    if i <= n {
        let a = apsel[i - 1]->0;
        lemma_dec_reads_back(a as nat);
        assert(!crate::text::is_digit("N/A"@[0]));
        assert(active_fields(apsel, n as nat)[numbered_apsel(i)] == dec(a as nat)) by {
            lemma_apsel_fields(apsel, i - 1, 8);
            lemma_apsel_name(i - 1);
        }
        if read is None {
            assert(a == 1);
            reveal_strlit("1");
            assert(dec(1) =~= "1"@);
        }
    }
    reveal_strlit("UNKNOWN");
    reveal_strlit("READY");
    assert("UNKNOWN"@.len() == 7 && "READY"@.len() == 5);
    assert(field_at(w7.db, setup.status_sw_tbl, port, "cmis_state"@) == Some("READY"@));
    assert(first_bits(lanes(n), n) && other_bits(!lanes(n), n) && bytes.len() == 8);
    assert(register(DPDEINIT_OFFSET) == 2176);
    assert(register(OUTPUT_DISABLE_TX_OFFSET) == 2178);
    assert(register(APPLY_DPINIT_OFFSET) == 2191);
    assert(register(SCS0_DPCONFIG_START) == 2193);
    assert(w7.commands == w.commands + seq![
        (physical, Command::WriteEeprom { offset: 2176, data: seq![0xffu8] }),
        (physical, Command::WriteEeprom { offset: 2178, data: seq![0xffu8] }),
        (physical, Command::SetLpmode(false)),
        (physical, Command::WriteEeprom { offset: 2193, data: bytes }),
        (physical, Command::WriteEeprom { offset: 2191, data: seq![lanes(n)] }),
        (physical, Command::WriteEeprom { offset: 2176, data: seq![!lanes(n)] }),
        (physical, Command::WriteEeprom { offset: 2178, data: seq![!lanes(n)] }),
    ]);
}

} // verus!
