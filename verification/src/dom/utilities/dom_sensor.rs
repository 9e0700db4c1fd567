//! The monitor values of a module and their rows.

use vstd::prelude::*;
use vstd::string::*;
use crate::db::{Db, DbState, TableId};
use crate::dom::utilities::db::{
    beautified, beautify, cache_after, copy_reading, diagnostic_posted, flag_cache_after, flags_posted,
    py_str, strip_unit, unit_stripped, value_to_py_str, Beautifier, CacheState, DbCache, DbUtils, Diagnostic,
};
use crate::dom::utilities::flags::FlagTables;
use crate::hal::{reading, Hal, Sfp};
use crate::ord_map::{Duplicate, OrdMap};
use crate::text::{chars_of, same};
use crate::value::{Dict, Reply, ReplyState, Val, Value};
use crate::xcvrd_utilities::port_event_helper::{Mapping, PortMapping};

verus! {

/// A lane's monitor: `tx` or `rx`, the lane from 1 to 8, and the ending.
pub open spec fn lane_key(k: Seq<char>, ending: Seq<char>) -> bool {
    &&& k.len() == 3 + ending.len()
    &&& k[0] == 't' || k[0] == 'r'
    &&& k[1] == 'x'
    &&& 49 <= (k[2] as int) <= 56
    &&& k.skip(3) == ending
}

/// The unit that a monitor's value may end with.
pub open spec fn monitor_unit(k: Seq<char>) -> Option<Seq<char>> {
    if k == "temperature"@ {
        Some("C"@)
    } else if k == "voltage"@ {
        Some("Volts"@)
    } else if lane_key(k, "power"@) {
        Some("dBm"@)
    } else if lane_key(k, "bias"@) {
        Some("mA"@)
    } else {
        None
    }
}

/// The text of a monitor's value, without its unit.
pub open spec fn monitor_text(k: Seq<char>, v: Val) -> Seq<char> {
    match monitor_unit(k) {
        Some(unit) => unit_stripped(v, unit),
        None => py_str(v),
    }
}

fn is_lane_number(c: char) -> (r: bool)
    ensures
        r == (49 <= (c as int) <= 56),
{
    let n: u32 = c as u32;
    49 <= n && n <= 56
}

fn is_lane_key(k: &str, ending: &str) -> (r: bool)
    ensures
        r == lane_key(k@, ending@),
{
    let x = chars_of(k);
    let n: usize = ending.unicode_len();
    if x.len() < 3 || x.len() - 3 != n {
        return false;
    }
    assert(k@.subrange(3, k@.len() as int) =~= k@.skip(3));
    (x[0] == 't' || x[0] == 'r') && x[1] == 'x' && is_lane_number(x[2]) && same(
        k.substring_char(3, x.len()),
        ending,
    )
}

/// The text of a monitor's value, without its unit.
pub fn show_monitor(k: &str, v: &Value) -> (r: String)
    ensures
        r@ == monitor_text(k@, v@),
{
    if same(k, "temperature") {
        strip_unit(v, DomDbUtils::TEMP_UNIT)
    } else if same(k, "voltage") {
        strip_unit(v, DomDbUtils::VOLT_UNIT)
    } else if is_lane_key(k, "power") {
        strip_unit(v, DomDbUtils::POWER_UNIT)
    } else if is_lane_key(k, "bias") {
        strip_unit(v, DomDbUtils::BIAS_UNIT)
    } else {
        value_to_py_str(v)
    }
}

/// The temperature of a module as a dictionary of one value.
pub open spec fn temperature_reading(s: Sfp) -> Option<ReplyState> {
    match s.temperature {
        Ok(v) => Some(ReplyState::Object(Map::empty().insert("temperature"@, v@))),
        Err(_) => None,
    }
}

/// Reads the monitors of a module.
pub struct DomUtils;

impl Default for DomUtils {
    fn default() -> (r: Self)
        ensures
            r == DomUtils,
    {
        DomUtils
    }
}

impl DomUtils {
    pub fn new() -> (r: Self)
        ensures
            r == DomUtils,
    {
        DomUtils
    }

    /// The temperature of a module, as a dictionary of one entry.
    pub fn get_transceiver_dom_temperature(&self, sfp: &Sfp) -> (r: Option<Reply>)
        ensures
            r.deep_view() == temperature_reading(*sfp),
    {
        match &sfp.temperature {
            Ok(v) => {
                let mut d: Dict = OrdMap::new();
                d.insert("temperature".to_owned(), v.duplicate());
                Some(Reply::Object(d))
            },
            Err(_) => None,
        }
    }

    /// The monitors of a module.
    pub fn get_transceiver_dom_sensor_real_value(&self, sfp: &Sfp) -> (r: Option<Reply>)
        ensures
            r.deep_view() == reading(sfp.dom_real_value),
    {
        copy_reading(&sfp.dom_real_value)
    }

    /// The latched flags of the monitors.
    pub fn get_transceiver_dom_flags(&self, sfp: &Sfp) -> (r: Option<Reply>)
        ensures
            r.deep_view() == reading(sfp.dom_flags),
    {
        copy_reading(&sfp.dom_flags)
    }

    /// The thresholds of the monitors.
    pub fn get_transceiver_dom_thresholds(&self, sfp: &Sfp) -> (r: Option<Reply>)
        ensures
            r.deep_view() == reading(sfp.threshold_info),
    {
        copy_reading(&sfp.threshold_info)
    }
}

/// A monitor diagnostic posted, where the port has an ASIC.
pub open spec fn monitors_posted(
    db: DbState,
    cache: CacheState,
    stop: bool,
    m: Mapping,
    hal: &Hal,
    port: Seq<char>,
    t: TableId,
    what: Diagnostic,
    kind: Beautifier,
    now: u64,
) -> DbState {
    if m.asic_of(port) is None {
        db
    } else {
        diagnostic_posted(db, cache, stop, m, hal, port, t, what, kind, now)
    }
}

/// The cache after [`monitors_posted`].
pub open spec fn monitors_cache(
    cache: CacheState,
    stop: bool,
    m: Mapping,
    hal: &Hal,
    port: Seq<char>,
    what: Diagnostic,
) -> CacheState {
    if m.asic_of(port) is None {
        cache
    } else {
        cache_after(cache, stop, m, hal, port, what)
    }
}

/// Flags posted, where the port has an ASIC.
pub open spec fn port_flags_posted(
    db: DbState,
    cache: CacheState,
    stop: bool,
    m: Mapping,
    hal: &Hal,
    port: Seq<char>,
    what: Diagnostic,
    kind: Beautifier,
    ft: FlagTables,
    now: u64,
) -> DbState {
    if m.asic_of(port) is None {
        db
    } else {
        flags_posted(db, cache, stop, m, hal, port, what, kind, ft, now)
    }
}

/// The cache after [`port_flags_posted`].
pub open spec fn port_flags_cache(
    cache: CacheState,
    stop: bool,
    m: Mapping,
    hal: &Hal,
    port: Seq<char>,
    what: Diagnostic,
) -> CacheState {
    if m.asic_of(port) is None {
        cache
    } else {
        flag_cache_after(cache, stop, m, hal, port, what)
    }
}

/// Posts the monitors of a module.
pub struct DomDbUtils;

impl Default for DomDbUtils {
    fn default() -> (r: Self)
        ensures
            r == DomDbUtils,
    {
        DomDbUtils
    }
}

impl DomDbUtils {
    pub const TEMP_UNIT: &'static str = "C";

    pub const VOLT_UNIT: &'static str = "Volts";

    pub const POWER_UNIT: &'static str = "dBm";

    pub const BIAS_UNIT: &'static str = "mA";

    pub fn new() -> (r: Self)
        ensures
            r == DomDbUtils,
    {
        DomDbUtils
    }

    /// Posts the monitor values.
    pub fn post_port_dom_sensor_info_to_db(
        &self,
        stop: bool,
        logical_port_name: &str,
        port_mapping: &PortMapping,
        db: &mut Db,
        table: TableId,
        hal: &Hal,
        db_cache: &mut DbCache,
        now: u64,
    )
        ensures
            final(db)@ == monitors_posted(
                old(db)@,
                old(db_cache)@,
                stop,
                port_mapping@,
                hal,
                logical_port_name@,
                table,
                Diagnostic::DomSensor,
                Beautifier::Dom,
                now,
            ),
            final(db_cache)@ == monitors_cache(
                old(db_cache)@,
                stop,
                port_mapping@,
                hal,
                logical_port_name@,
                Diagnostic::DomSensor,
            ),
    {
        if port_mapping.get_asic_id_for_logical_port(logical_port_name).is_none() {
            return ;
        }
        DbUtils::new().post_diagnostic_values_to_db(
            stop,
            logical_port_name,
            port_mapping,
            db,
            table,
            hal,
            Diagnostic::DomSensor,
            db_cache,
            Beautifier::Dom,
            now,
        );
    }

    /// Posts the temperature.
    pub fn post_port_dom_temperature_info_to_db(
        &self,
        stop: bool,
        logical_port_name: &str,
        port_mapping: &PortMapping,
        db: &mut Db,
        table: TableId,
        hal: &Hal,
        db_cache: &mut DbCache,
        now: u64,
    )
        ensures
            final(db)@ == monitors_posted(
                old(db)@,
                old(db_cache)@,
                stop,
                port_mapping@,
                hal,
                logical_port_name@,
                table,
                Diagnostic::DomTemperature,
                Beautifier::Dom,
                now,
            ),
            final(db_cache)@ == monitors_cache(
                old(db_cache)@,
                stop,
                port_mapping@,
                hal,
                logical_port_name@,
                Diagnostic::DomTemperature,
            ),
    {
        if port_mapping.get_asic_id_for_logical_port(logical_port_name).is_none() {
            return ;
        }
        DbUtils::new().post_diagnostic_values_to_db(
            stop,
            logical_port_name,
            port_mapping,
            db,
            table,
            hal,
            Diagnostic::DomTemperature,
            db_cache,
            Beautifier::Dom,
            now,
        );
    }

    /// Posts the thresholds of the monitors.
    pub fn post_port_dom_thresholds_to_db(
        &self,
        stop: bool,
        logical_port_name: &str,
        port_mapping: &PortMapping,
        db: &mut Db,
        table: TableId,
        hal: &Hal,
        db_cache: &mut DbCache,
        now: u64,
    )
        ensures
            final(db)@ == monitors_posted(
                old(db)@,
                old(db_cache)@,
                stop,
                port_mapping@,
                hal,
                logical_port_name@,
                table,
                Diagnostic::DomThresholds,
                Beautifier::Dom,
                now,
            ),
            final(db_cache)@ == monitors_cache(
                old(db_cache)@,
                stop,
                port_mapping@,
                hal,
                logical_port_name@,
                Diagnostic::DomThresholds,
            ),
    {
        if port_mapping.get_asic_id_for_logical_port(logical_port_name).is_none() {
            return ;
        }
        DbUtils::new().post_diagnostic_values_to_db(
            stop,
            logical_port_name,
            port_mapping,
            db,
            table,
            hal,
            Diagnostic::DomThresholds,
            db_cache,
            Beautifier::Dom,
            now,
        );
    }

    /// Posts the latched monitor flags, after their metadata.
    pub fn post_port_dom_flags_to_db(
        &self,
        stop: bool,
        logical_port_name: &str,
        port_mapping: &PortMapping,
        db: &mut Db,
        hal: &Hal,
        flag_tbl: TableId,
        flag_change_count_tbl: TableId,
        flag_set_time_tbl: TableId,
        flag_clear_time_tbl: TableId,
        db_cache: &mut DbCache,
        now: u64,
    )
        ensures
            final(db)@ == port_flags_posted(
                old(db)@,
                old(db_cache)@,
                stop,
                port_mapping@,
                hal,
                logical_port_name@,
                Diagnostic::DomFlags,
                Beautifier::Dom,
                (FlagTables {
                    value: flag_tbl,
                    change_count: flag_change_count_tbl,
                    set_time: flag_set_time_tbl,
                    clear_time: flag_clear_time_tbl,
                }),
                now,
            ),
            final(db_cache)@ == port_flags_cache(
                old(db_cache)@,
                stop,
                port_mapping@,
                hal,
                logical_port_name@,
                Diagnostic::DomFlags,
            ),
    {
        if port_mapping.get_asic_id_for_logical_port(logical_port_name).is_none() {
            return ;
        }
        DbUtils::new().post_flags_to_db(
            stop,
            logical_port_name,
            port_mapping,
            db,
            hal,
            flag_tbl,
            flag_change_count_tbl,
            flag_set_time_tbl,
            flag_clear_time_tbl,
            Diagnostic::DomFlags,
            Beautifier::Dom,
            db_cache,
            now,
        );
    }

    /// Replaces each value by its text, monitor values without their unit.
    pub fn beautify_dom_info_dict(dom_info_dict: &mut Dict)
        ensures
            final(dom_info_dict)@ == beautified(Beautifier::Dom, old(dom_info_dict)@),
    {
        beautify(Beautifier::Dom, dom_info_dict);
    }
}

} // verus!
