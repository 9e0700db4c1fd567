//! Questions about the module of a physical port.

use vstd::prelude::*;
use crate::error::XcvrdError;
use crate::error::XResult;
use crate::hal::{in_lpmode, Sfp};
use crate::ord_map::IdxMap;
use crate::value::{as_bool, Value};

verus! {

/// An answer to whether a module has flat memory: it has, unless it says that it
/// has not.
pub open spec fn flat(r: XResult<Value>) -> bool {
    !(r matches Ok(v) && as_bool(v@) == Some(false))
}

/// The modules, by physical port.
pub struct XcvrdUtils<'a> {
    pub sfp_obj_dict: IdxMap<&'a Sfp>,
}

impl<'a> XcvrdUtils<'a> {
    pub fn new(sfp_obj_dict: IdxMap<&'a Sfp>) -> (r: Self)
        ensures
            r.sfp_obj_dict == sfp_obj_dict,
    {
        XcvrdUtils { sfp_obj_dict }
    }

    /// Whether the module is there; not, where the port is unknown or the read
    /// fails.
    pub fn get_transceiver_presence(&self, physical_port: usize) -> (r: bool)
        ensures
            r == (self.sfp_obj_dict@.contains_key(physical_port)
                && self.sfp_obj_dict@[physical_port].presence == Ok::<bool, XcvrdError>(true)),
    {
        match self.sfp_obj_dict.get(&physical_port) {
            Some(sfp) => match sfp.presence {
                Ok(p) => p,
                Err(_) => false,
            },
            None => false,
        }
    }

    /// Whether the module has flat memory; it has, where the port is unknown or the
    /// module gives no boolean answer.
    pub fn is_transceiver_flat_memory(&self, physical_port: usize) -> (r: bool)
        ensures
            r == (self.sfp_obj_dict@.contains_key(physical_port) ==> flat(
                self.sfp_obj_dict@[physical_port].flat_memory,
            )),
    {
        match self.sfp_obj_dict.get(&physical_port) {
            Some(sfp) => match &sfp.flat_memory {
                Ok(Value::Bool(b)) => *b,
                _ => true,
            },
            None => true,
        }
    }

    /// Whether the module is in low-power mode; not, where the port is unknown or
    /// the read fails.
    pub fn is_transceiver_lpmode_on(&self, physical_port: usize) -> (r: bool)
        ensures
            r == (self.sfp_obj_dict@.contains_key(physical_port) && in_lpmode(
                self.sfp_obj_dict@[physical_port],
            )),
    {
        match self.sfp_obj_dict.get(&physical_port) {
            Some(sfp) => match sfp.lpmode {
                Ok(on) => on,
                Err(_) => false,
            },
            None => false,
        }
    }
}

} // verus!
