//! The lanes, registers and per-port bookkeeping of a datapath.

use vstd::prelude::*;
use vstd::string::*;
use crate::hal::{reading, Command, CommandLog, Hal, SfpCommand};
use crate::ord_map::Duplicate;
use crate::text::{dec, join, same, usize_text};
use crate::value::{as_text, DictState, Reply, ReplyState, Value};

verus! {

/// How often a bring-up is tried again before it has failed.
pub const CMIS_MAX_RETRIES: u32 = 3;

/// How many host lanes a module has.
pub const CMIS_MAX_HOST_LANES: usize = 8;

/// The page of the staged control set.
pub const SCS0_PAGE: usize = 0x10;

pub const DPDEINIT_OFFSET: usize = 128;

pub const OUTPUT_DISABLE_TX_OFFSET: usize = 130;

pub const APPLY_DPINIT_OFFSET: usize = 143;

pub const SCS0_DPCONFIG_START: usize = 145;

pub const SCS0_DPCONFIG_LEN: usize = 8;

/// The linear address of a byte in the upper half of a page.
pub open spec fn linear(page: int, offset: int) -> int {
    page * 128 + offset
}

pub fn cmis_linear(page: usize, offset: usize) -> (r: usize)
    requires
        page * 128 + offset <= usize::MAX,
    ensures
        r == linear(page as int, offset as int),
{
    page * 128 + offset
}

/// The linear address of a register of the staged control set.
pub open spec fn register(offset: usize) -> usize {
    linear(SCS0_PAGE as int, offset as int) as usize
}

/// The mask of the first `count` lanes.
pub open spec fn lanes(count: int) -> u8 {
    if count <= 0 {
        0x00
    } else if count == 1 {
        0x01
    } else if count == 2 {
        0x03
    } else if count == 3 {
        0x07
    } else if count == 4 {
        0x0f
    } else if count == 5 {
        0x1f
    } else if count == 6 {
        0x3f
    } else if count == 7 {
        0x7f
    } else {
        0xff
    }
}

pub fn lane_mask(count: usize) -> (r: u8)
    ensures
        r == lanes(count as int),
{
    match count {
        0 => 0x00,
        1 => 0x01,
        2 => 0x03,
        3 => 0x07,
        4 => 0x0f,
        5 => 0x1f,
        6 => 0x3f,
        7 => 0x7f,
        _ => 0xff,
    }
}

/// The lane is in the mask.
pub open spec fn lane_in(mask: u8, lane: int) -> bool {
    mask & (1u8 << (lane as u8)) != 0
}

fn has_lane(mask: u8, lane: u8) -> (r: bool)
    requires
        lane < 8,
    ensures
        r == lane_in(mask, lane as int),
{
    mask & (1u8 << lane) != 0
}

/// The mask of the first lanes holds just those.
pub proof fn law_lanes_are_the_first(count: int, lane: int)
    requires
        0 <= lane < 8,
    ensures
        lane_in(lanes(count), lane) <==> lane < count,
{
    let l = lane as u8;
    assert(forall|k: u8| k < 8 ==> #[trigger] (0x00u8 & (1u8 << k)) == 0) by (bit_vector);
    assert(forall|k: u8| k < 8 ==> (#[trigger] (0x01u8 & (1u8 << k)) != 0 <==> k < 1)) by (bit_vector);
    assert(forall|k: u8| k < 8 ==> (#[trigger] (0x03u8 & (1u8 << k)) != 0 <==> k < 2)) by (bit_vector);
    assert(forall|k: u8| k < 8 ==> (#[trigger] (0x07u8 & (1u8 << k)) != 0 <==> k < 3)) by (bit_vector);
    assert(forall|k: u8| k < 8 ==> (#[trigger] (0x0fu8 & (1u8 << k)) != 0 <==> k < 4)) by (bit_vector);
    assert(forall|k: u8| k < 8 ==> (#[trigger] (0x1fu8 & (1u8 << k)) != 0 <==> k < 5)) by (bit_vector);
    assert(forall|k: u8| k < 8 ==> (#[trigger] (0x3fu8 & (1u8 << k)) != 0 <==> k < 6)) by (bit_vector);
    assert(forall|k: u8| k < 8 ==> (#[trigger] (0x7fu8 & (1u8 << k)) != 0 <==> k < 7)) by (bit_vector);
    assert(forall|k: u8| k < 8 ==> #[trigger] (0xffu8 & (1u8 << k)) != 0) by (bit_vector);
    assert(l < 8);
}

/// What is kept of a logical port from one step of its bring-up to the next.
pub struct PortState {
    /// The module was there at the previous step.
    pub present_before: bool,
    /// How often the bring-up was tried again.
    pub retries: u32,
    /// When the present wait ends.
    pub expired: Option<u64>,
    /// The state that was last written.
    pub last_written: String,
    /// The configuration was seen once.
    pub initialized: bool,
    pub last_admin: Option<String>,
    pub last_htr: Option<String>,
    pub host_lane_count: usize,
    pub host_lanes_mask: u8,
    pub media_lanes_mask: u8,
    pub max_host_lanes_mask: u8,
    pub max_media_lanes_mask: u8,
    pub appl: u8,
    /// The application that each host lane was given.
    pub active_apsel: [Option<u8>; 8],
    /// What was last written to the deinit register.
    pub deinit_reg: u8,
    /// What was last written to the transmitter-disable register.
    pub tx_disable_reg: u8,
    /// The transmitters were turned off because the port is not wanted.
    pub forced_tx_disabled: bool,
}

/// What a [`PortState`] holds.
#[verifier::ext_equal]
pub struct Port {
    pub present_before: bool,
    pub retries: u32,
    pub expired: Option<u64>,
    pub last_written: Seq<char>,
    pub initialized: bool,
    pub last_admin: Option<Seq<char>>,
    pub last_htr: Option<Seq<char>>,
    pub host_lane_count: usize,
    pub host_lanes_mask: u8,
    pub media_lanes_mask: u8,
    pub max_host_lanes_mask: u8,
    pub max_media_lanes_mask: u8,
    pub appl: u8,
    pub active_apsel: Seq<Option<u8>>,
    pub deinit_reg: u8,
    pub tx_disable_reg: u8,
    pub forced_tx_disabled: bool,
}

impl DeepView for PortState {
    type V = Port;

    open spec fn deep_view(&self) -> Port {
        Port {
            present_before: self.present_before,
            retries: self.retries,
            expired: self.expired,
            last_written: self.last_written@,
            initialized: self.initialized,
            last_admin: self.last_admin.deep_view(),
            last_htr: self.last_htr.deep_view(),
            host_lane_count: self.host_lane_count,
            host_lanes_mask: self.host_lanes_mask,
            media_lanes_mask: self.media_lanes_mask,
            max_host_lanes_mask: self.max_host_lanes_mask,
            max_media_lanes_mask: self.max_media_lanes_mask,
            appl: self.appl,
            active_apsel: self.active_apsel@,
            deinit_reg: self.deinit_reg,
            tx_disable_reg: self.tx_disable_reg,
            forced_tx_disabled: self.forced_tx_disabled,
        }
    }
}

impl View for PortState {
    type V = Port;

    open spec fn view(&self) -> Port {
        self.deep_view()
    }
}

/// No application on any lane.
pub open spec fn no_apsel() -> Seq<Option<u8>> {
    Seq::new(8, |i: int| None)
}

/// A port of which nothing is known.
pub open spec fn fresh_port() -> Port {
    Port {
        present_before: false,
        retries: 0,
        expired: None,
        last_written: Seq::empty(),
        initialized: false,
        last_admin: None,
        last_htr: None,
        host_lane_count: 0,
        host_lanes_mask: 0,
        media_lanes_mask: 0,
        max_host_lanes_mask: 0,
        max_media_lanes_mask: 0,
        appl: 0,
        active_apsel: no_apsel(),
        deinit_reg: 0,
        tx_disable_reg: 0,
        forced_tx_disabled: false,
    }
}

/// No application on any lane.
pub fn empty_apsel() -> (r: [Option<u8>; 8])
    ensures
        r@ == no_apsel(),
{
    let r: [Option<u8>; 8] = [None, None, None, None, None, None, None, None];
    assert(r@ =~= no_apsel());
    r
}

impl Default for PortState {
    fn default() -> (r: Self)
        ensures
            r@ == fresh_port(),
    {
        let r = PortState {
            present_before: false,
            retries: 0,
            expired: None,
            last_written: String::new(),
            initialized: false,
            last_admin: None,
            last_htr: None,
            host_lane_count: 0,
            host_lanes_mask: 0,
            media_lanes_mask: 0,
            max_host_lanes_mask: 0,
            max_media_lanes_mask: 0,
            appl: 0,
            active_apsel: empty_apsel(),
            deinit_reg: 0,
            tx_disable_reg: 0,
            forced_tx_disabled: false,
        };
        assert(r@ =~= fresh_port());
        r
    }
}

impl Duplicate for PortState {
    fn duplicate(&self) -> (r: Self) {
        let a = &self.active_apsel;
        let r = PortState {
            present_before: self.present_before,
            retries: self.retries,
            expired: self.expired,
            last_written: self.last_written.clone(),
            initialized: self.initialized,
            last_admin: self.last_admin.duplicate(),
            last_htr: self.last_htr.duplicate(),
            host_lane_count: self.host_lane_count,
            host_lanes_mask: self.host_lanes_mask,
            media_lanes_mask: self.media_lanes_mask,
            max_host_lanes_mask: self.max_host_lanes_mask,
            max_media_lanes_mask: self.max_media_lanes_mask,
            appl: self.appl,
            active_apsel: [a[0], a[1], a[2], a[3], a[4], a[5], a[6], a[7]],
            deinit_reg: self.deinit_reg,
            tx_disable_reg: self.tx_disable_reg,
            forced_tx_disabled: self.forced_tx_disabled,
        };
        assert(r.active_apsel@ =~= self.active_apsel@);
        r
    }
}

/// `command` asked of the module of a slot, where there is one.
pub open spec fn asked(hal: &Hal, commands: Seq<(usize, Command)>, physical: usize, command: Command) -> Seq<
    (usize, Command),
> {
    if physical < hal.sfps@.len() {
        commands.push((physical, command))
    } else {
        commands
    }
}

/// One byte written to a register of the staged control set.
pub open spec fn reg_written(
    hal: &Hal,
    commands: Seq<(usize, Command)>,
    physical: usize,
    offset: usize,
    byte: u8,
) -> Seq<(usize, Command)> {
    asked(hal, commands, physical, Command::WriteEeprom { offset: register(offset), data: seq![byte] })
}

/// Asks `command` of the module of a slot, where there is one.
pub fn ask(hal: &Hal, commands: &mut CommandLog, physical: usize, command: SfpCommand)
    ensures
        final(commands)@ == asked(hal, old(commands)@, physical, command.deep_view()),
{
    if physical < hal.sfps.len() {
        commands.push(physical, command);
    }
}

/// Writes one byte to a register of the staged control set.
pub fn write_reg(hal: &Hal, commands: &mut CommandLog, physical: usize, offset: usize, byte: u8)
    requires
        offset < 256,
    ensures
        final(commands)@ == reg_written(hal, old(commands)@, physical, offset, byte),
{
    let addr: usize = cmis_linear(SCS0_PAGE, offset);
    let mut data: Vec<u8> = Vec::new();
    data.push(byte);
    assert(data@ =~= seq![byte]);
    ask(hal, commands, physical, SfpCommand::WriteEeprom { offset: addr, data });
}

/// The application-select byte of a lane: the application in the high nibble, the
/// datapath in the bits below.
pub open spec fn apsel_byte(appl: u8, lane: int) -> u8 {
    (appl << 4) | (((lane + 1) as u8) << 1)
}

fn compute_apsel(appl: u8, lane: u8) -> (r: u8)
    requires
        lane < 8,
    ensures
        r == apsel_byte(appl, lane as int),
{
    (appl << 4) | ((lane + 1) << 1)
}

/// The application-select bytes that a module reports, where it reports all.
pub open spec fn dpconfig_read(hal: &Hal, physical: usize) -> Option<Seq<u8>> {
    if physical < hal.sfps@.len() {
        match hal.sfps@[physical as int].dpconfig {
            Ok(Some(b)) => if b@.len() == SCS0_DPCONFIG_LEN {
                Some(b@)
            } else {
                None
            },
            _ => None,
        }
    } else {
        None
    }
}

/// The byte of a lane as it is staged: what the module reports, but the computed
/// one where that gives an active lane no application.
pub open spec fn staged_byte(read: Option<Seq<u8>>, appl: u8, mask: u8, lane: int) -> u8 {
    match read {
        Some(b) => if lane_in(mask, lane) && b[lane] >> 4 == 0 {
            apsel_byte(appl, lane)
        } else {
            b[lane]
        },
        None => if lane_in(mask, lane) {
            apsel_byte(appl, lane)
        } else {
            0
        },
    }
}

/// The bytes of every lane as they are staged.
pub open spec fn staged(read: Option<Seq<u8>>, appl: u8, mask: u8) -> Seq<u8> {
    Seq::new(8, |lane: int| staged_byte(read, appl, mask, lane))
}

/// The application that a staged byte gives a lane.
pub open spec fn staged_apsel(bytes: Seq<u8>, mask: u8) -> Seq<Option<u8>> {
    Seq::new(
        8,
        |lane: int|
            if lane_in(mask, lane) {
                Some((bytes[lane] >> 4) & 0x0f)
            } else {
                None
            },
    )
}

/// The bytes of every lane as they are staged.
pub fn stage(hal: &Hal, physical: usize, appl: u8, mask: u8) -> (r: Vec<u8>)
    ensures
        r@ == staged(dpconfig_read(hal, physical), appl, mask),
{
    let read: Option<&Vec<u8>> = if physical < hal.sfps.len() {
        match &hal.sfps[physical].dpconfig {
            Ok(Some(b)) => if b.len() == SCS0_DPCONFIG_LEN {
                Some(b)
            } else {
                None
            },
            _ => None,
        }
    } else {
        None
    };
    let ghost bytes = dpconfig_read(hal, physical);
    let mut out: Vec<u8> = Vec::new();
    let mut lane: u8 = 0;
    while lane < 8
        invariant
            lane <= 8,
            out.len() == lane,
            bytes == dpconfig_read(hal, physical),
            match read {
                Some(b) => bytes == Some(b@) && b@.len() == 8,
                None => bytes is None,
            },
            forall|l: int| 0 <= l < lane ==> #[trigger] out@[l] == staged_byte(bytes, appl, mask, l),
        decreases 8 - lane,
    {
        let active = has_lane(mask, lane);
        let byte: u8 = match read {
            Some(b) => {
                let v: u8 = b[lane as usize];
                if active && v >> 4 == 0 {
                    compute_apsel(appl, lane)
                } else {
                    v
                }
            },
            None => if active {
                compute_apsel(appl, lane)
            } else {
                0
            },
        };
        out.push(byte);
        lane = lane + 1;
    }
    assert(out@ =~= staged(bytes, appl, mask));
    out
}

fn lane_apsel(bytes: &Vec<u8>, mask: u8, lane: u8) -> (r: Option<u8>)
    requires
        lane < 8,
        bytes.len() == 8,
    ensures
        r == if lane_in(mask, lane as int) {
            Some((bytes@[lane as int] >> 4) & 0x0f)
        } else {
            None
        },
{
    if has_lane(mask, lane) {
        Some((bytes[lane as usize] >> 4) & 0x0f)
    } else {
        None
    }
}

/// The application that the staged bytes give each lane.
pub fn apsel_of(bytes: &Vec<u8>, mask: u8) -> (r: [Option<u8>; 8])
    requires
        bytes.len() == 8,
    ensures
        r@ == staged_apsel(bytes@, mask),
{
    let r: [Option<u8>; 8] = [
        lane_apsel(bytes, mask, 0),
        lane_apsel(bytes, mask, 1),
        lane_apsel(bytes, mask, 2),
        lane_apsel(bytes, mask, 3),
        lane_apsel(bytes, mask, 4),
        lane_apsel(bytes, mask, 5),
        lane_apsel(bytes, mask, 6),
        lane_apsel(bytes, mask, 7),
    ];
    assert(r@ =~= staged_apsel(bytes@, mask));
    r
}

/// The status dictionary of a module, where it could be read as one.
pub open spec fn status_of(hal: &Hal, physical: usize) -> Option<DictState> {
    if physical < hal.sfps@.len() {
        match reading(hal.sfps@[physical as int].status) {
            Some(ReplyState::Object(d)) => Some(d),
            _ => None,
        }
    } else {
        None
    }
}

/// A text of the status dictionary.
pub open spec fn status_text(hal: &Hal, physical: usize, name: Seq<char>) -> Option<Seq<char>> {
    match status_of(hal, physical) {
        Some(d) => if d.contains_key(name) {
            as_text(d[name])
        } else {
            None
        },
        None => None,
    }
}

/// A text of the status dictionary.
pub fn read_status_text(hal: &Hal, physical: usize, name: &str) -> (r: Option<String>)
    ensures
        r.deep_view() == status_text(hal, physical, name@),
{
    if physical < hal.sfps.len() {
        match &hal.sfps[physical].status {
            Ok(Reply::Object(d)) => match d.get_str(name) {
                Some(Value::String(s)) => Some(s.clone()),
                _ => None,
            },
            _ => None,
        }
    } else {
        None
    }
}

/// The name under which a module reports the datapath state of a lane.
pub open spec fn lane_state_name(lane: int) -> Seq<char> {
    "DP"@ + dec((lane + 1) as nat) + "State"@
}

/// Every lane of the mask whose datapath state the module reports is in state `a`
/// or `b`.
pub open spec fn datapath_in(hal: &Hal, physical: usize, mask: u8, a: Seq<char>, b: Seq<char>) -> bool {
    forall|lane: int|
        0 <= lane < 8 && #[trigger] lane_in(mask, lane) ==> match status_text(
            hal,
            physical,
            lane_state_name(lane),
        ) {
            Some(s) => s == a || s == b,
            None => true,
        }
}

/// Whether every lane of the mask whose datapath state the module reports is in
/// state `a` or `b`.
pub fn check_datapath_state(hal: &Hal, physical: usize, mask: u8, a: &str, b: &str) -> (r: bool)
    ensures
        r == datapath_in(hal, physical, mask, a@, b@),
{
    let mut lane: u8 = 0;
    while lane < 8
        invariant
            lane <= 8,
            forall|l: int|
                0 <= l < lane && #[trigger] lane_in(mask, l) ==> match status_text(
                    hal,
                    physical,
                    lane_state_name(l),
                ) {
                    Some(s) => s == a@ || s == b@,
                    None => true,
                },
        decreases 8 - lane,
    {
        if has_lane(mask, lane) {
            let mut name = join("DP", usize_text(lane as usize + 1).as_str());
            name.append("State");
            if let Some(s) = read_status_text(hal, physical, name.as_str()) {
                if !same(s.as_str(), a) && !same(s.as_str(), b) {
                    assert(lane_in(mask, lane as int));
                    return false;
                }
            }
        }
        lane = lane + 1;
    }
    true
}

/// The module reports that it is ready.
pub open spec fn module_is_ready(hal: &Hal, physical: usize) -> bool {
    status_text(hal, physical, "module_state"@) == Some("ModuleReady"@)
}

} // verus!
