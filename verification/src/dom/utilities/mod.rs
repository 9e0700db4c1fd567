//! Reading the modules' diagnostics and posting them to the state tables.

pub mod db;
pub mod dom_sensor;
pub mod flags;
pub mod status;
pub mod vdm;
