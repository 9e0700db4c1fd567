//! What the platform reports of its modules, and what is asked of them.

use vstd::prelude::*;
use crate::error::{XResult, XcvrdError};
use crate::ord_map::{OrdMap, StrMap};
use crate::value::{as_bool, Dict, DictState, Reply, ReplyState, Value};

verus! {

/// One exchange that asks a module for an action and then polls until it is done.
pub struct Handshake {
    /// The answer to the request.
    pub action: XResult<Value>,
    /// The polls of the done bit: the milliseconds since polling began, and the
    /// answer.
    pub polls: Vec<(u64, XResult<Value>)>,
}

/// What one module slot reports.
pub struct Sfp {
    pub presence: XResult<bool>,
    pub replaceable: XResult<bool>,
    pub lpmode: XResult<bool>,
    pub error_description: XResult<Option<String>>,
    pub transceiver_info: XResult<Reply>,
    pub status: XResult<Reply>,
    pub status_flags: XResult<Reply>,
    pub dom_real_value: XResult<Reply>,
    pub dom_flags: XResult<Reply>,
    pub threshold_info: XResult<Reply>,
    pub temperature: XResult<Value>,
    pub flat_memory: XResult<Value>,
    pub pm: XResult<Reply>,
    pub firmware_versions: XResult<Reply>,
    pub vdm_supported: XResult<Value>,
    pub vdm_statistic_supported: XResult<Value>,
    pub vdm_real_value_basic: XResult<Reply>,
    pub vdm_real_value_statistic: XResult<Reply>,
    pub vdm_flags: XResult<Reply>,
    pub vdm_thresholds: XResult<Reply>,
    pub vdm_freeze: Handshake,
    pub vdm_unfreeze: Handshake,
    /// The application-select bytes of the staged control set.
    pub dpconfig: XResult<Option<Vec<u8>>>,
}

/// The answer of a slot that was not asked.
pub open spec fn unasked<T>(r: XResult<T>) -> bool {
    r == Err::<T, XcvrdError>(XcvrdError::NotImplemented)
}

impl Sfp {
    /// A slot without a module, of which nothing was asked.
    pub fn empty_slot() -> (r: Self)
        ensures
            r.presence == Ok::<bool, XcvrdError>(false),
            unasked(r.replaceable),
            unasked(r.lpmode),
            unasked(r.error_description),
            unasked(r.transceiver_info),
            unasked(r.status),
            unasked(r.status_flags),
            unasked(r.dom_real_value),
            unasked(r.dom_flags),
            unasked(r.threshold_info),
            unasked(r.temperature),
            unasked(r.flat_memory),
            unasked(r.pm),
            unasked(r.firmware_versions),
            unasked(r.vdm_supported),
            unasked(r.vdm_statistic_supported),
            unasked(r.vdm_real_value_basic),
            unasked(r.vdm_real_value_statistic),
            unasked(r.vdm_flags),
            unasked(r.vdm_thresholds),
            unasked(r.vdm_freeze.action),
            r.vdm_freeze.polls@.len() == 0,
            unasked(r.vdm_unfreeze.action),
            r.vdm_unfreeze.polls@.len() == 0,
            unasked(r.dpconfig),
    {
        Sfp {
            presence: Ok(false),
            replaceable: Err(XcvrdError::NotImplemented),
            lpmode: Err(XcvrdError::NotImplemented),
            error_description: Err(XcvrdError::NotImplemented),
            transceiver_info: Err(XcvrdError::NotImplemented),
            status: Err(XcvrdError::NotImplemented),
            status_flags: Err(XcvrdError::NotImplemented),
            dom_real_value: Err(XcvrdError::NotImplemented),
            dom_flags: Err(XcvrdError::NotImplemented),
            threshold_info: Err(XcvrdError::NotImplemented),
            temperature: Err(XcvrdError::NotImplemented),
            flat_memory: Err(XcvrdError::NotImplemented),
            pm: Err(XcvrdError::NotImplemented),
            firmware_versions: Err(XcvrdError::NotImplemented),
            vdm_supported: Err(XcvrdError::NotImplemented),
            vdm_statistic_supported: Err(XcvrdError::NotImplemented),
            vdm_real_value_basic: Err(XcvrdError::NotImplemented),
            vdm_real_value_statistic: Err(XcvrdError::NotImplemented),
            vdm_flags: Err(XcvrdError::NotImplemented),
            vdm_thresholds: Err(XcvrdError::NotImplemented),
            vdm_freeze: Handshake { action: Err(XcvrdError::NotImplemented), polls: Vec::new() },
            vdm_unfreeze: Handshake { action: Err(XcvrdError::NotImplemented), polls: Vec::new() },
            dpconfig: Err(XcvrdError::NotImplemented),
        }
    }
}

impl DeepView for Sfp {
    type V = Sfp;

    open spec fn deep_view(&self) -> Sfp {
        *self
    }
}

/// The module slots, by physical port.
pub struct Hal {
    pub sfps: Vec<Sfp>,
}

/// What is asked of a module.
pub enum SfpCommand {
    /// Write `data` at the linear EEPROM address `offset`.
    WriteEeprom { offset: usize, data: Vec<u8> },
    /// Enter or leave low-power mode.
    SetLpmode(bool),
    /// Drop the decoded module interface, so that the next read decodes anew.
    RemoveXcvrApi,
}

/// What an [`SfpCommand`] says.
#[verifier::ext_equal]
pub enum Command {
    WriteEeprom { offset: usize, data: Seq<u8> },
    SetLpmode(bool),
    RemoveXcvrApi,
}

impl DeepView for SfpCommand {
    type V = Command;

    open spec fn deep_view(&self) -> Command {
        match self {
            SfpCommand::WriteEeprom { offset, data } => Command::WriteEeprom { offset: *offset, data: data@ },
            SfpCommand::SetLpmode(on) => Command::SetLpmode(*on),
            SfpCommand::RemoveXcvrApi => Command::RemoveXcvrApi,
        }
    }
}

/// The commands to carry out, in order, each with its physical port.
pub struct CommandLog {
    pub list: Vec<(usize, SfpCommand)>,
}

impl View for CommandLog {
    type V = Seq<(usize, Command)>;

    open spec fn view(&self) -> Seq<(usize, Command)> {
        self.list.deep_view()
    }
}

impl CommandLog {
    pub fn new() -> (r: Self)
        ensures
            r@ == Seq::<(usize, Command)>::empty(),
    {
        let r = CommandLog { list: Vec::new() };
        assert(r@ =~= Seq::<(usize, Command)>::empty());
        r
    }

    /// Adds `command` for the module of `physical_port`.
    pub fn push(&mut self, physical_port: usize, command: SfpCommand)
        ensures
            final(self)@ == old(self)@.push((physical_port, command.deep_view())),
    {
        self.list.push((physical_port, command));
        assert(self@ =~= old(self)@.push((physical_port, command.deep_view())));
    }
}

/// The slot `p` exists and its module is there.
pub open spec fn present(hal: &Hal, p: usize) -> bool {
    p < hal.sfps@.len() && hal.sfps@[p as int].presence == Ok::<bool, XcvrdError>(true)
}

impl Hal {
    /// The slot of a physical port.
    pub fn sfp(&self, physical_port: usize) -> (r: XResult<&Sfp>)
        ensures
            match r {
                Ok(s) => physical_port < self.sfps@.len() && *s == self.sfps@[physical_port as int],
                Err(e) => physical_port >= self.sfps@.len() && e == XcvrdError::Bridge,
            },
    {
        if physical_port < self.sfps.len() {
            Ok(&self.sfps[physical_port])
        } else {
            Err(XcvrdError::Bridge)
        }
    }

    /// Whether the slot exists and its module is there; not, where the read fails.
    pub fn is_present(&self, physical_port: usize) -> (r: bool)
        ensures
            r == present(self, physical_port),
    {
        match self.sfp(physical_port) {
            Ok(s) => match s.presence {
                Ok(p) => p,
                Err(_) => false,
            },
            Err(_) => false,
        }
    }
}

/// A boolean answer: `false` where it failed or is no boolean.
pub open spec fn yes(r: XResult<Value>) -> bool {
    r matches Ok(v) && as_bool(v@) == Some(true)
}

/// A boolean answer: `false` where it failed or is no boolean.
pub fn is_yes(r: &XResult<Value>) -> (b: bool)
    ensures
        b == yes(*r),
{
    match r {
        Ok(v) => match v {
            Value::Bool(b) => *b,
            _ => false,
        },
        Err(_) => false,
    }
}

/// What a reading holds; nothing where it failed.
pub open spec fn reading(r: XResult<Reply>) -> Option<ReplyState> {
    match r {
        Ok(v) => Some(v@),
        Err(_) => None,
    }
}

/// The dictionary that was read; an empty one where there is none.
pub open spec fn dict_read(r: XResult<Reply>) -> DictState {
    match reading(r) {
        Some(ReplyState::Object(d)) => d,
        _ => Map::empty(),
    }
}

/// A copy of the dictionary that was read; an empty one where there is none.
pub fn read_dict(r: &XResult<Reply>) -> (d: Dict)
    ensures
        d@ == dict_read(*r),
{
    match r {
        Ok(Reply::Object(d)) => d.copy(),
        _ => OrdMap::new(),
    }
}

/// Whether the slot of a physical port is in low-power mode.
pub open spec fn in_lpmode(s: Sfp) -> bool {
    s.lpmode == Ok::<bool, XcvrdError>(true)
}

/// A report of the platform's change events: whether it worked, the changed
/// slots with their status, and the vendor descriptions of their errors.
pub struct ChangeEvent {
    pub status: bool,
    pub sfp: StrMap<String>,
    pub sfp_error: StrMap<String>,
}

} // verus!
