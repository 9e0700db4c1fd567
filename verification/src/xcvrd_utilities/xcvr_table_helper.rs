//! The names of the state tables.

use vstd::prelude::*;
use vstd::string::*;
use crate::db::{field_at, Db, TableId};
use crate::text::{is_text, join, to_uppercase, uppercase};

verus! {

pub const TRANSCEIVER_INFO_TABLE: &'static str = "TRANSCEIVER_INFO";

pub const TRANSCEIVER_FIRMWARE_INFO_TABLE: &'static str = "TRANSCEIVER_FIRMWARE_INFO";

pub const TRANSCEIVER_DOM_SENSOR_TABLE: &'static str = "TRANSCEIVER_DOM_SENSOR";

pub const TRANSCEIVER_DOM_FLAG_TABLE: &'static str = "TRANSCEIVER_DOM_FLAG";

pub const TRANSCEIVER_DOM_FLAG_CHANGE_COUNT_TABLE: &'static str = "TRANSCEIVER_DOM_FLAG_CHANGE_COUNT";

pub const TRANSCEIVER_DOM_FLAG_SET_TIME_TABLE: &'static str = "TRANSCEIVER_DOM_FLAG_SET_TIME";

pub const TRANSCEIVER_DOM_FLAG_CLEAR_TIME_TABLE: &'static str = "TRANSCEIVER_DOM_FLAG_CLEAR_TIME";

pub const TRANSCEIVER_DOM_THRESHOLD_TABLE: &'static str = "TRANSCEIVER_DOM_THRESHOLD";

pub const TRANSCEIVER_DOM_TEMPERATURE_TABLE: &'static str = "TRANSCEIVER_DOM_TEMPERATURE";

pub const TRANSCEIVER_STATUS_TABLE: &'static str = "TRANSCEIVER_STATUS";

pub const TRANSCEIVER_STATUS_FLAG_TABLE: &'static str = "TRANSCEIVER_STATUS_FLAG";

pub const TRANSCEIVER_STATUS_FLAG_CHANGE_COUNT_TABLE: &'static str =
    "TRANSCEIVER_STATUS_FLAG_CHANGE_COUNT";

pub const TRANSCEIVER_STATUS_FLAG_SET_TIME_TABLE: &'static str = "TRANSCEIVER_STATUS_FLAG_SET_TIME";

pub const TRANSCEIVER_STATUS_FLAG_CLEAR_TIME_TABLE: &'static str =
    "TRANSCEIVER_STATUS_FLAG_CLEAR_TIME";

pub const TRANSCEIVER_STATUS_SW_TABLE: &'static str = "TRANSCEIVER_STATUS_SW";

pub const TRANSCEIVER_VDM_REAL_VALUE_TABLE: &'static str = "TRANSCEIVER_VDM_REAL_VALUE";

pub const TRANSCEIVER_PM_TABLE: &'static str = "TRANSCEIVER_PM";

pub const NPU_SI_SETTINGS_SYNC_STATUS_KEY: &'static str = "NPU_SI_SETTINGS_SYNC_STATUS";

pub const NPU_SI_SETTINGS_DEFAULT_VALUE: &'static str = "NPU_SI_SETTINGS_DEFAULT";

pub const NPU_SI_SETTINGS_NOTIFIED_VALUE: &'static str = "NPU_SI_SETTINGS_NOTIFIED";

/// One of the four kinds of VDM thresholds and flags.
#[derive(Debug, Clone, Copy, PartialEq, Eq, Structural)]
pub enum VdmType {
    Halarm,
    Lalarm,
    Hwarn,
    Lwarn,
}

/// The names of the kinds of thresholds.
pub const VDM_THRESHOLD_TYPES: [&'static str; 4] = ["halarm", "lalarm", "hwarn", "lwarn"];

/// The name of a kind of thresholds.
pub open spec fn vdm_type_name(t: VdmType) -> Seq<char> {
    match t {
        VdmType::Halarm => "halarm"@,
        VdmType::Lalarm => "lalarm"@,
        VdmType::Hwarn => "hwarn"@,
        VdmType::Lwarn => "lwarn"@,
    }
}

impl VdmType {
    pub fn as_str(&self) -> (r: &'static str)
        ensures
            r@ == vdm_type_name(*self),
    {
        match self {
            VdmType::Halarm => VDM_THRESHOLD_TYPES[0],
            VdmType::Lalarm => VDM_THRESHOLD_TYPES[1],
            VdmType::Hwarn => VDM_THRESHOLD_TYPES[2],
            VdmType::Lwarn => VDM_THRESHOLD_TYPES[3],
        }
    }
}

/// The name of a table that exists for each kind of thresholds.
pub open spec fn vdm_table_name(threshold_type: Seq<char>, ending: Seq<char>) -> Seq<char> {
    "TRANSCEIVER_VDM_"@ + uppercase(threshold_type) + ending
}

fn vdm_name(threshold_type: &str, ending: &str) -> (r: String)
    ensures
        r@ == vdm_table_name(threshold_type@, ending@),
{
    let mut r = join("TRANSCEIVER_VDM_", to_uppercase(threshold_type).as_str());
    r.append(ending);
    r
}

pub fn vdm_threshold_table_name(threshold_type: &str) -> (r: String)
    ensures
        r@ == vdm_table_name(threshold_type@, "_THRESHOLD"@),
{
    vdm_name(threshold_type, "_THRESHOLD")
}

pub fn vdm_flag_table_name(threshold_type: &str) -> (r: String)
    ensures
        r@ == vdm_table_name(threshold_type@, "_FLAG"@),
{
    vdm_name(threshold_type, "_FLAG")
}

pub fn vdm_flag_change_count_table_name(threshold_type: &str) -> (r: String)
    ensures
        r@ == vdm_table_name(threshold_type@, "_FLAG_CHANGE_COUNT"@),
{
    vdm_name(threshold_type, "_FLAG_CHANGE_COUNT")
}

pub fn vdm_flag_set_time_table_name(threshold_type: &str) -> (r: String)
    ensures
        r@ == vdm_table_name(threshold_type@, "_FLAG_SET_TIME"@),
{
    vdm_name(threshold_type, "_FLAG_SET_TIME")
}

pub fn vdm_flag_clear_time_table_name(threshold_type: &str) -> (r: String)
    ensures
        r@ == vdm_table_name(threshold_type@, "_FLAG_CLEAR_TIME"@),
{
    vdm_name(threshold_type, "_FLAG_CLEAR_TIME")
}

/// The state tables that are asked for by what they hold.
pub struct XcvrTableHelper {
    /// The port table of the state database.
    pub state_port_tbl: TableId,
}

impl XcvrTableHelper {
    pub fn new(state_port_tbl: TableId) -> (r: Self)
        ensures
            r.state_port_tbl == state_port_tbl,
    {
        XcvrTableHelper { state_port_tbl }
    }

    /// Whether the signal-integrity settings of a port are still to be notified:
    /// none were yet, or they were set back.
    pub fn is_npu_si_settings_update_required(&self, db: &Db, lport: &str) -> (r: bool)
        ensures
            r == match field_at(db@, self.state_port_tbl, lport@, NPU_SI_SETTINGS_SYNC_STATUS_KEY@) {
                Some(v) => v == NPU_SI_SETTINGS_DEFAULT_VALUE@,
                None => true,
            },
    {
        let status = db.hget(self.state_port_tbl, lport, NPU_SI_SETTINGS_SYNC_STATUS_KEY);
        status.is_none() || is_text(&status, NPU_SI_SETTINGS_DEFAULT_VALUE)
    }
}

} // verus!
