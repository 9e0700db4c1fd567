//! Helpers that the tasks share.

pub mod common;
pub mod mapping_laws;
pub mod natural;
pub mod natural_laws;
pub mod port_event_helper;
pub mod sfp_status_helper;
pub mod utils;
pub mod xcvr_table_helper;
