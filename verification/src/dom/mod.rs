//! Diagnostic monitoring of the modules.

pub mod dom_mgr;
pub mod flag_laws;
pub mod gate_laws;
pub mod history_laws;
pub mod isolation;
pub mod laws;
pub mod link_laws;
pub mod monitor_laws;
pub mod poll_laws;
pub mod reading_laws;
pub mod utilities;
pub mod vdm_laws;
pub mod vdm_run;
