//! The identity of the modules.

use vstd::prelude::*;
use vstd::string::*;
use crate::db::{with_set, Db, DbState, Fields, Row, TableId};
use crate::error::{XResult, XcvrdError};
use crate::hal::{present, reading, Hal};
use crate::ord_map::{among, lemma_among_all, lemma_among_step, OrdMap};
use crate::text::{cut_nuls, nuls_cut, trim_end, trimmed_end};
use crate::value::{bool_text, render, rendered, Dict, DictState, Reply, ReplyState, Val, Value};
use crate::xcvrd_utilities::common::{del_port_sfp_dom_info_from_db, port_rows_deleted};
use crate::xcvrd_utilities::port_event_helper::{physical_of, Mapping, PortMapping, no_ports};

pub mod error_laws;
pub mod identity_laws;
pub mod laws;
pub mod sfp_state_update;
pub mod slot_laws;
pub mod start_laws;

verus! {

/// The text of a boolean.
pub fn pybool(b: bool) -> (r: &'static str)
    ensures
        r@ == bool_text(b),
{
    if b {
        "True"
    } else {
        "False"
    }
}

/// The text of an identity value: strings without the padding behind them, and
/// none where there is no value.
pub open spec fn identity_text(v: Val) -> Option<Seq<char>> {
    match v {
        Val::Null => None,
        Val::Text(s) => Some(trimmed_end(nuls_cut(s))),
        Val::Bool(b) => Some(bool_text(b)),
        Val::Number(s) => Some(s),
        Val::Json(s) => Some(rendered(s)),
    }
}

/// The text of an identity value.
pub fn stringify(v: &Value) -> (r: Option<String>)
    ensures
        r.deep_view() == identity_text(v@),
{
    match v {
        Value::Null => None,
        Value::String(s) => Some(trim_end(cut_nuls(s.as_str()).as_str())),
        Value::Bool(b) => Some(pybool(*b).to_owned()),
        Value::Number(s) => Some(s.clone()),
        Value::Json(s) => Some(render(s)),
    }
}

/// The text of a named identity value, or `other` where there is none.
pub open spec fn text_or(d: DictState, name: Seq<char>, other: Seq<char>) -> Seq<char> {
    if d.contains_key(name) {
        match identity_text(d[name]) {
            Some(s) => s,
            None => other,
        }
    } else {
        other
    }
}

/// Every identity value that has a text, under its name.
pub open spec fn all_texts(d: DictState) -> Fields {
    Map::new(
        |k: Seq<char>| d.contains_key(k) && identity_text(d[k]) is Some,
        |k: Seq<char>| identity_text(d[k])->0,
    )
}

/// `f` with a named identity value, empty where there is none.
pub open spec fn with_text(f: Fields, d: DictState, name: Seq<char>) -> Fields {
    f.insert(name, text_or(d, name, Seq::empty()))
}

/// The fields of the identity row of a module: all that a CMIS module reports,
/// the fixed ones of another, and in either case whether it can be replaced.
pub open spec fn identity_fields(d: DictState, replaceable: bool) -> Fields {
    if d.contains_key("cmis_rev"@) {
        all_texts(d).insert("is_replaceable"@, bool_text(replaceable))
    } else {
        let f = Map::empty();
        let f = with_text(f, d, "type"@);
        let f = with_text(f, d, "vendor_rev"@);
        let f = with_text(f, d, "serial"@);
        let f = with_text(f, d, "manufacturer"@);
        let f = with_text(f, d, "model"@);
        let f = with_text(f, d, "vendor_oui"@);
        let f = with_text(f, d, "vendor_date"@);
        let f = with_text(f, d, "connector"@);
        let f = with_text(f, d, "encoding"@);
        let f = with_text(f, d, "ext_identifier"@);
        let f = with_text(f, d, "ext_rateselect_compliance"@);
        let f = with_text(f, d, "cable_type"@);
        let f = with_text(f, d, "cable_length"@);
        let f = with_text(f, d, "specification_compliance"@);
        let f = with_text(f, d, "nominal_bit_rate"@);
        let f = f.insert(
            "application_advertisement"@,
            text_or(d, "application_advertisement"@, "N/A"@),
        );
        let f = f.insert("is_replaceable"@, bool_text(replaceable));
        f.insert("dom_capability"@, text_or(d, "dom_capability"@, "N/A"@))
    }
}

/// The fields of a port's identity row: none where its module is not there, and
/// an error where they cannot be told.
pub open spec fn identity(m: Mapping, hal: &Hal, port: Seq<char>) -> XResult<Option<Fields>> {
    match physical_of(m, port) {
        None => Err(XcvrdError::PhysicalPortNotExist),
        Some(p) => if p >= hal.sfps@.len() {
            Err(XcvrdError::Bridge)
        } else {
            let s = hal.sfps@[p as int];
            match s.presence {
                Err(e) => Err(e),
                Ok(false) => Ok(None),
                Ok(true) => match reading(s.transceiver_info) {
                    Some(ReplyState::Object(d)) => Ok(
                        Some(identity_fields(d, s.replaceable == Ok::<bool, XcvrdError>(true))),
                    ),
                    _ => Err(XcvrdError::EepromNotReady),
                },
            }
        },
    }
}

/// A port's identity row written, where it can be told.
pub open spec fn identity_posted(db: DbState, t: TableId, m: Mapping, hal: &Hal, port: Seq<char>) -> DbState {
    match identity(m, hal, port) {
        Ok(Some(f)) => with_set(db, t, port, f),
        _ => db,
    }
}

/// The EEPROM of a port's module cannot be read yet.
pub open spec fn not_ready(m: Mapping, hal: &Hal, port: Seq<char>) -> bool {
    identity(m, hal, port) == Err::<Option<Fields>, XcvrdError>(XcvrdError::EepromNotReady)
}

fn put_text(fields: &mut Row, d: &Dict, name: &str, other: &str)
    ensures
        final(fields)@ == old(fields)@.insert(name@, text_or(d@, name@, other@)),
{
    let text: Option<String> = match d.get_str(name) {
        Some(v) => stringify(v),
        None => None,
    };
    match text {
        Some(s) => fields.insert(name.to_owned(), s),
        None => fields.insert(name.to_owned(), other.to_owned()),
    }
}

fn put_all_texts(d: &Dict) -> (r: Row)
    ensures
        r@ == all_texts(d@),
{
    let mut out: Row = OrdMap::new();
    d.recall_order();
    let n: usize = d.len();
    let mut i: usize = 0;
    let ghost keys = d.keys();
    while i < n
        invariant
            i <= n,
            n == keys.len(),
            keys == d.keys(),
            forall|j: int| 0 <= j < n ==> d@.contains_key(#[trigger] keys[j]),
            forall|k: Seq<char>| #[trigger]
                out@.contains_key(k) <==> among(keys, i as int, k) && identity_text(d@[k]) is Some,
            forall|k: Seq<char>| #[trigger]
                out@.contains_key(k) ==> Some(out@[k]) == identity_text(d@[k]),
        decreases n - i,
    {
        let k = d.key_at(i);
        if let Some(s) = stringify(d.value_at(i)) {
            out.insert(k.clone(), s);
        }
        proof {
            lemma_among_step(keys, i as int);
        }
        i = i + 1;
    }
    proof {
        lemma_among_all(keys, d@.dom());
        assert(out@ =~= all_texts(d@));
    }
    out
}

/// The fields of the identity row of a module.
fn identity_row(d: &Dict, replaceable: bool) -> (r: Row)
    ensures
        r@ == identity_fields(d@, replaceable),
{
    if d.contains_str("cmis_rev") {
        let mut f = put_all_texts(d);
        f.insert("is_replaceable".to_owned(), pybool(replaceable).to_owned());
        f
    } else {
        let mut f: Row = OrdMap::new();
        proof {
            reveal_strlit("");
            assert(""@ =~= Seq::<char>::empty());
        }
        put_text(&mut f, d, "type", "");
        put_text(&mut f, d, "vendor_rev", "");
        put_text(&mut f, d, "serial", "");
        put_text(&mut f, d, "manufacturer", "");
        put_text(&mut f, d, "model", "");
        put_text(&mut f, d, "vendor_oui", "");
        put_text(&mut f, d, "vendor_date", "");
        put_text(&mut f, d, "connector", "");
        put_text(&mut f, d, "encoding", "");
        put_text(&mut f, d, "ext_identifier", "");
        put_text(&mut f, d, "ext_rateselect_compliance", "");
        put_text(&mut f, d, "cable_type", "");
        put_text(&mut f, d, "cable_length", "");
        put_text(&mut f, d, "specification_compliance", "");
        put_text(&mut f, d, "nominal_bit_rate", "");
        put_text(&mut f, d, "application_advertisement", "N/A");
        f.insert("is_replaceable".to_owned(), pybool(replaceable).to_owned());
        put_text(&mut f, d, "dom_capability", "N/A");
        f
    }
}

/// Writes the identity row of a port whose module is there.
pub fn post_port_sfp_info_to_db(
    logical_port_name: &str,
    port_mapping: &PortMapping,
    db: &mut Db,
    int_tbl: TableId,
    hal: &Hal,
) -> (r: XResult<()>)
    ensures
        final(db)@ == identity_posted(old(db)@, int_tbl, port_mapping@, hal, logical_port_name@),
        match identity(port_mapping@, hal, logical_port_name@) {
            Ok(_) => r == Ok::<(), XcvrdError>(()),
            Err(e) => r == Err::<(), XcvrdError>(e),
        },
{
    let list = match port_mapping.logical_port_name_to_physical_port_list(logical_port_name) {
        Some(l) => l,
        None => {
            return Err(XcvrdError::PhysicalPortNotExist);
        },
    };
    let sfp = match hal.sfp(list[0]) {
        Ok(s) => s,
        Err(e) => {
            return Err(e);
        },
    };
    match sfp.presence {
        Err(e) => {
            return Err(e);
        },
        Ok(there) => {
            if !there {
                return Ok(());
            }
        },
    }
    let info = match &sfp.transceiver_info {
        Ok(Reply::Object(d)) => d,
        _ => {
            return Err(XcvrdError::EepromNotReady);
        },
    };
    let replaceable = match sfp.replaceable {
        Ok(b) => b,
        Err(_) => false,
    };
    let fields = identity_row(info, replaceable);
    db.set(int_tbl, logical_port_name, &fields);
    Ok(())
}

/// The settings of the daemon.
pub struct DaemonXcvrd {
    pub skip_cmis_mgr: bool,
    pub enable_sff_mgr: bool,
    pub dom_temperature_poll_interval: Option<u64>,
    pub dom_update_interval: Option<u64>,
    pub port_mapping: PortMapping,
}

/// The identity rows of the first `n` logical ports deleted whose module is not
/// there.
pub open spec fn stale_removed(db: DbState, m: Mapping, t: TableId, hal: &Hal, n: int) -> DbState
    decreases n,
{
    if n <= 0 {
        db
    } else {
        let before = stale_removed(db, m, t, hal, n - 1);
        let port = m.logical[n - 1];
        match m.first_physical(port) {
            Some(p) => if before.contains_key((t, port)) && !present(hal, p) {
                port_rows_deleted(before, m, seq![t], port)
            } else {
                before
            },
            None => before,
        }
    }
}

impl DaemonXcvrd {
    pub fn new(skip_cmis_mgr: bool, enable_sff_mgr: bool) -> (r: Self)
        ensures
            r.skip_cmis_mgr == skip_cmis_mgr,
            r.enable_sff_mgr == enable_sff_mgr,
            r.dom_temperature_poll_interval is None,
            r.dom_update_interval is None,
            r.port_mapping@ == no_ports(),
    {
        DaemonXcvrd {
            skip_cmis_mgr,
            enable_sff_mgr,
            dom_temperature_poll_interval: None,
            dom_update_interval: None,
            port_mapping: PortMapping::new(),
        }
    }

    /// Deletes the identity row of each logical port whose module is not there.
    pub fn remove_stale_transceiver_info(&self, port_mapping: &PortMapping, db: &mut Db, int_tbl: TableId, hal: &Hal)
        ensures
            final(db)@ == stale_removed(
                old(db)@,
                port_mapping@,
                int_tbl,
                hal,
                port_mapping@.logical.len() as int,
            ),
    {
        let ghost before = db@;
        let mut tbls: Vec<TableId> = Vec::new();
        tbls.push(int_tbl);
        assert(tbls@ =~= seq![int_tbl]);
        let mut i: usize = 0;
        while i < port_mapping.logical_port_list.len()
            invariant
                i <= port_mapping.logical_port_list.len(),
                tbls@ == seq![int_tbl],
                db@ == stale_removed(before, port_mapping@, int_tbl, hal, i as int),
            decreases port_mapping.logical_port_list.len() - i,
        {
            let lport = port_mapping.logical_port_list[i].as_str();
            if db.has_row(int_tbl, lport) {
                if let Some(pport) = port_mapping.physical_port(lport) {
                    if !hal.is_present(pport) {
                        del_port_sfp_dom_info_from_db(lport, port_mapping, db, &tbls);
                    }
                }
            }
            i = i + 1;
        }
    }
}

} // verus!
