//! The bring-up of CMIS modules.

pub mod cmis_manager_task;
pub mod datapath;
pub mod lane_laws;
pub mod laws;
pub mod step_laws;
