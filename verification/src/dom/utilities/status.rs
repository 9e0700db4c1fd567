//! The hardware status of a module and its rows.

use vstd::prelude::*;
use crate::db::{Db, TableId};
use crate::dom::utilities::db::{copy_reading, Beautifier, DbCache, DbUtils, Diagnostic};
use crate::dom::utilities::dom_sensor::{monitors_cache, monitors_posted, port_flags_cache, port_flags_posted};
use crate::dom::utilities::flags::FlagTables;
use crate::hal::{reading, Hal, Sfp};
use crate::value::Reply;
use crate::xcvrd_utilities::port_event_helper::PortMapping;

verus! {

/// Reads the hardware status of a module.
pub struct StatusUtils;

impl Default for StatusUtils {
    fn default() -> (r: Self)
        ensures
            r == StatusUtils,
    {
        StatusUtils
    }
}

impl StatusUtils {
    pub fn new() -> (r: Self)
        ensures
            r == StatusUtils,
    {
        StatusUtils
    }

    /// The hardware status of a module.
    pub fn get_transceiver_status(&self, sfp: &Sfp) -> (r: Option<Reply>)
        ensures
            r.deep_view() == reading(sfp.status),
    {
        copy_reading(&sfp.status)
    }

    /// The latched flags of the hardware status.
    pub fn get_transceiver_status_flags(&self, sfp: &Sfp) -> (r: Option<Reply>)
        ensures
            r.deep_view() == reading(sfp.status_flags),
    {
        copy_reading(&sfp.status_flags)
    }
}

/// Posts the hardware status of a module.
pub struct StatusDbUtils;

impl Default for StatusDbUtils {
    fn default() -> (r: Self)
        ensures
            r == StatusDbUtils,
    {
        StatusDbUtils
    }
}

impl StatusDbUtils {
    pub fn new() -> (r: Self)
        ensures
            r == StatusDbUtils,
    {
        StatusDbUtils
    }

    /// Posts the hardware status.
    pub fn post_port_transceiver_hw_status_to_db(
        &self,
        stop: bool,
        logical_port_name: &str,
        port_mapping: &PortMapping,
        db: &mut Db,
        table: TableId,
        hal: &Hal,
        db_cache: &mut DbCache,
        now: u64,
    )
        ensures
            final(db)@ == monitors_posted(
                old(db)@,
                old(db_cache)@,
                stop,
                port_mapping@,
                hal,
                logical_port_name@,
                table,
                Diagnostic::Status,
                Beautifier::Plain,
                now,
            ),
            final(db_cache)@ == monitors_cache(
                old(db_cache)@,
                stop,
                port_mapping@,
                hal,
                logical_port_name@,
                Diagnostic::Status,
            ),
    {
        if port_mapping.get_asic_id_for_logical_port(logical_port_name).is_none() {
            return ;
        }
        DbUtils::new().post_diagnostic_values_to_db(
            stop,
            logical_port_name,
            port_mapping,
            db,
            table,
            hal,
            Diagnostic::Status,
            db_cache,
            Beautifier::Plain,
            now,
        );
    }

    /// Posts the latched status flags, after their metadata.
    pub fn post_port_transceiver_hw_status_flags_to_db(
        &self,
        stop: bool,
        logical_port_name: &str,
        port_mapping: &PortMapping,
        db: &mut Db,
        hal: &Hal,
        flag_tbl: TableId,
        flag_change_count_tbl: TableId,
        flag_set_time_tbl: TableId,
        flag_clear_time_tbl: TableId,
        db_cache: &mut DbCache,
        now: u64,
    )
        ensures
            final(db)@ == port_flags_posted(
                old(db)@,
                old(db_cache)@,
                stop,
                port_mapping@,
                hal,
                logical_port_name@,
                Diagnostic::StatusFlags,
                Beautifier::Plain,
                (FlagTables {
                    value: flag_tbl,
                    change_count: flag_change_count_tbl,
                    set_time: flag_set_time_tbl,
                    clear_time: flag_clear_time_tbl,
                }),
                now,
            ),
            final(db_cache)@ == port_flags_cache(
                old(db_cache)@,
                stop,
                port_mapping@,
                hal,
                logical_port_name@,
                Diagnostic::StatusFlags,
            ),
    {
        if port_mapping.get_asic_id_for_logical_port(logical_port_name).is_none() {
            return ;
        }
        DbUtils::new().post_flags_to_db(
            stop,
            logical_port_name,
            port_mapping,
            db,
            hal,
            flag_tbl,
            flag_change_count_tbl,
            flag_set_time_tbl,
            flag_clear_time_tbl,
            Diagnostic::StatusFlags,
            Beautifier::Plain,
            db_cache,
            now,
        );
    }
}

} // verus!
