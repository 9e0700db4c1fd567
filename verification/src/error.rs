//! Why an operation on a module or a port did not succeed.

use vstd::prelude::*;

verus! {

#[derive(Debug, Clone, Copy, PartialEq, Eq, Structural)]
pub enum XcvrdError {
    /// The module is there but its EEPROM cannot be read yet.
    EepromNotReady,
    /// The logical port has no physical port.
    PhysicalPortNotExist,
    /// The module does not offer the operation.
    NotImplemented,
    /// The platform did not answer.
    Bridge,
}

/// A result whose error is an [`XcvrdError`].
pub type XResult<T> = Result<T, XcvrdError>;

} // verus!
