//! The states of the CMIS bring-up, and the rows that the tasks share.

use vstd::prelude::*;
use vstd::string::*;
use crate::db::{field_at, with_set, Db, DbState, Fields, Row, TableId};
use crate::error::XResult;
use crate::hal::Sfp;
use crate::ord_map::{IdxMap, OrdMap};
use crate::text::{dec, join, same, usize_text};
use crate::xcvrd_utilities::port_event_helper::{physical_of, Mapping, PortMapping};

verus! {

pub const CMIS_STATE_UNKNOWN: &'static str = "UNKNOWN";

pub const CMIS_STATE_INSERTED: &'static str = "INSERTED";

pub const CMIS_STATE_DP_PRE_INIT_CHECK: &'static str = "DP_PRE_INIT_CHECK";

pub const CMIS_STATE_DP_DEINIT: &'static str = "DP_DEINIT";

pub const CMIS_STATE_AP_CONF: &'static str = "AP_CONFIGURED";

pub const CMIS_STATE_DP_ACTIVATE: &'static str = "DP_ACTIVATION";

pub const CMIS_STATE_DP_INIT: &'static str = "DP_INIT";

pub const CMIS_STATE_DP_TXON: &'static str = "DP_TXON";

pub const CMIS_STATE_READY: &'static str = "READY";

pub const CMIS_STATE_REMOVED: &'static str = "REMOVED";

pub const CMIS_STATE_FAILED: &'static str = "FAILED";

/// The code of a call that the platform does not offer.
pub const NOT_IMPLEMENTED_ERROR: i32 = 3;

/// The states of the datapath bring-up.
#[derive(Debug, Clone, Copy, PartialEq, Eq, Structural)]
pub enum CmisState {
    Unknown,
    Inserted,
    DpPreInitCheck,
    DpDeinit,
    ApConfigured,
    DpInit,
    DpTxOn,
    DpActivation,
    Ready,
    Removed,
    Failed,
}

/// The name of a state, as the status table holds it.
pub open spec fn state_name(s: CmisState) -> Seq<char> {
    match s {
        CmisState::Unknown => CMIS_STATE_UNKNOWN@,
        CmisState::Inserted => CMIS_STATE_INSERTED@,
        CmisState::DpPreInitCheck => CMIS_STATE_DP_PRE_INIT_CHECK@,
        CmisState::DpDeinit => CMIS_STATE_DP_DEINIT@,
        CmisState::ApConfigured => CMIS_STATE_AP_CONF@,
        CmisState::DpInit => CMIS_STATE_DP_INIT@,
        CmisState::DpTxOn => CMIS_STATE_DP_TXON@,
        CmisState::DpActivation => CMIS_STATE_DP_ACTIVATE@,
        CmisState::Ready => CMIS_STATE_READY@,
        CmisState::Removed => CMIS_STATE_REMOVED@,
        CmisState::Failed => CMIS_STATE_FAILED@,
    }
}

/// The state of a name; unknown where no state has it.
pub open spec fn state_named(s: Seq<char>) -> CmisState {
    if s == CMIS_STATE_INSERTED@ {
        CmisState::Inserted
    } else if s == CMIS_STATE_DP_PRE_INIT_CHECK@ {
        CmisState::DpPreInitCheck
    } else if s == CMIS_STATE_DP_DEINIT@ {
        CmisState::DpDeinit
    } else if s == CMIS_STATE_AP_CONF@ {
        CmisState::ApConfigured
    } else if s == CMIS_STATE_DP_INIT@ {
        CmisState::DpInit
    } else if s == CMIS_STATE_DP_TXON@ {
        CmisState::DpTxOn
    } else if s == CMIS_STATE_DP_ACTIVATE@ {
        CmisState::DpActivation
    } else if s == CMIS_STATE_READY@ {
        CmisState::Ready
    } else if s == CMIS_STATE_REMOVED@ {
        CmisState::Removed
    } else if s == CMIS_STATE_FAILED@ {
        CmisState::Failed
    } else {
        CmisState::Unknown
    }
}

/// The bring-up has come to an end.
pub open spec fn terminal(s: CmisState) -> bool {
    s == CmisState::Failed || s == CmisState::Ready || s == CmisState::Removed
}

/// Every state is the one that its name names.
pub proof fn law_state_names_read_back(s: CmisState)
    ensures
        state_named(state_name(s)) == s,
{
    reveal_strlit("UNKNOWN");
    reveal_strlit("INSERTED");
    reveal_strlit("DP_PRE_INIT_CHECK");
    reveal_strlit("DP_DEINIT");
    reveal_strlit("AP_CONFIGURED");
    reveal_strlit("DP_ACTIVATION");
    reveal_strlit("DP_INIT");
    reveal_strlit("DP_TXON");
    reveal_strlit("READY");
    reveal_strlit("REMOVED");
    reveal_strlit("FAILED");
    assert(CMIS_STATE_UNKNOWN@[0] == 'U');
    assert(CMIS_STATE_INSERTED@[0] == 'I');
    assert(CMIS_STATE_DP_PRE_INIT_CHECK@[3] == 'P');
    assert(CMIS_STATE_DP_DEINIT@[4] == 'E');
    assert(CMIS_STATE_AP_CONF@[0] == 'A');
    assert(CMIS_STATE_DP_ACTIVATE@[3] == 'A');
    assert(CMIS_STATE_DP_INIT@[3] == 'I');
    assert(CMIS_STATE_DP_TXON@[3] == 'T');
    assert(CMIS_STATE_READY@[2] == 'A');
    assert(CMIS_STATE_REMOVED@[2] == 'M');
    assert(CMIS_STATE_FAILED@[0] == 'F');
}

impl CmisState {
    pub fn as_str(&self) -> (r: &'static str)
        ensures
            r@ == state_name(*self),
    {
        match self {
            CmisState::Unknown => CMIS_STATE_UNKNOWN,
            CmisState::Inserted => CMIS_STATE_INSERTED,
            CmisState::DpPreInitCheck => CMIS_STATE_DP_PRE_INIT_CHECK,
            CmisState::DpDeinit => CMIS_STATE_DP_DEINIT,
            CmisState::ApConfigured => CMIS_STATE_AP_CONF,
            CmisState::DpInit => CMIS_STATE_DP_INIT,
            CmisState::DpTxOn => CMIS_STATE_DP_TXON,
            CmisState::DpActivation => CMIS_STATE_DP_ACTIVATE,
            CmisState::Ready => CMIS_STATE_READY,
            CmisState::Removed => CMIS_STATE_REMOVED,
            CmisState::Failed => CMIS_STATE_FAILED,
        }
    }

    /// Whether the bring-up has come to an end.
    pub fn is_terminal(&self) -> (r: bool)
        ensures
            r == terminal(*self),
    {
        match self {
            CmisState::Failed => true,
            CmisState::Ready => true,
            CmisState::Removed => true,
            _ => false,
        }
    }

    /// The state of a name; unknown where no state has it.
    pub fn from_db_str(s: &str) -> (r: CmisState)
        ensures
            r == state_named(s@),
    {
        if same(s, CMIS_STATE_INSERTED) {
            CmisState::Inserted
        } else if same(s, CMIS_STATE_DP_PRE_INIT_CHECK) {
            CmisState::DpPreInitCheck
        } else if same(s, CMIS_STATE_DP_DEINIT) {
            CmisState::DpDeinit
        } else if same(s, CMIS_STATE_AP_CONF) {
            CmisState::ApConfigured
        } else if same(s, CMIS_STATE_DP_INIT) {
            CmisState::DpInit
        } else if same(s, CMIS_STATE_DP_TXON) {
            CmisState::DpTxOn
        } else if same(s, CMIS_STATE_DP_ACTIVATE) {
            CmisState::DpActivation
        } else if same(s, CMIS_STATE_READY) {
            CmisState::Ready
        } else if same(s, CMIS_STATE_REMOVED) {
            CmisState::Removed
        } else if same(s, CMIS_STATE_FAILED) {
            CmisState::Failed
        } else {
            CmisState::Unknown
        }
    }
}

/// The status and the error of a port as fields.
pub open spec fn status_fields(status: Seq<char>, error: Seq<char>) -> Fields {
    Map::empty().insert("status"@, status).insert("error"@, error)
}

/// The status and the error of a port written; its bring-up state stays.
pub open spec fn with_status(db: DbState, t: TableId, port: Seq<char>, status: Seq<char>, error: Seq<char>) -> DbState {
    with_set(db, t, port, status_fields(status, error))
}

/// Writes the status and the error of a port; its bring-up state stays.
pub fn update_port_transceiver_status_table_sw(
    logical_port_name: &str,
    db: &mut Db,
    status_sw_tbl: TableId,
    status: &str,
    error_descriptions: &str,
)
    ensures
        final(db)@ == with_status(
            old(db)@,
            status_sw_tbl,
            logical_port_name@,
            status@,
            error_descriptions@,
        ),
{
    let mut fields: Row = OrdMap::new();
    fields.insert("status".to_owned(), status.to_owned());
    fields.insert("error".to_owned(), error_descriptions.to_owned());
    db.set(status_sw_tbl, logical_port_name, &fields);
}

/// The bring-up state that the status table holds for a port.
pub open spec fn cmis_state_text(db: DbState, t: TableId, port: Seq<char>) -> Seq<char> {
    match field_at(db, t, port, "cmis_state"@) {
        Some(s) => s,
        None => CMIS_STATE_UNKNOWN@,
    }
}

/// The name of a port's bring-up state; unknown where the table has none.
pub fn get_cmis_state_from_state_db(lport: &str, db: &Db, status_sw_tbl: TableId) -> (r: String)
    ensures
        r@ == cmis_state_text(db@, status_sw_tbl, lport@),
{
    match db.hget(status_sw_tbl, lport, "cmis_state") {
        Some(s) => s,
        None => CMIS_STATE_UNKNOWN.to_owned(),
    }
}

/// The row key of one physical port of a logical one.
pub open spec fn physical_port_name(port: Seq<char>, member: nat, ganged: bool) -> Seq<char> {
    if ganged {
        port + ":"@ + dec(member) + " (ganged)"@
    } else {
        port
    }
}

/// The name of a physical port of a logical port.
pub fn get_physical_port_name(logical_port: &str, physical_port: usize, ganged: bool) -> (r: String)
    ensures
        r@ == physical_port_name(logical_port@, physical_port as nat, ganged),
{
    if ganged {
        let mut r = join(logical_port, ":");
        r.append(usize_text(physical_port).as_str());
        r.append(" (ganged)");
        r
    } else {
        logical_port.to_owned()
    }
}

/// The row keys of a logical port, by physical port. A logical port has one
/// physical port, so its row key is its own name.
pub open spec fn physical_port_names(m: Mapping, port: Seq<char>) -> Map<usize, Seq<char>> {
    match physical_of(m, port) {
        Some(p) => Map::empty().insert(p, port),
        None => Map::empty(),
    }
}

/// The names of the physical ports of a logical port.
pub fn get_physical_port_name_dict(logical_port_name: &str, port_mapping: &PortMapping) -> (r: IdxMap<String>)
    ensures
        r@ == physical_port_names(port_mapping@, logical_port_name@),
        r.keys() == match physical_of(port_mapping@, logical_port_name@) {
            Some(p) => seq![p],
            None => Seq::empty(),
        },
{
    let mut out: IdxMap<String> = OrdMap::new();
    let list = match port_mapping.logical_port_name_to_physical_port_list(logical_port_name) {
        Some(l) => l,
        None => {
            return out;
        },
    };
    let ganged = list.len() > 1;
    let name = get_physical_port_name(logical_port_name, 1, ganged);
    out.insert(list[0], name);
    out.recall_order();
    proof {
        let p = list@[0];
        assert(out@.contains_key(p));
        let k = out.keys();
        assert(k.len() >= 1);
        assert forall|i: int| 0 <= i < k.len() implies k[i] == p by {
            assert(out@.contains_key(k[i]));
        }
        if k.len() > 1 {
            assert(<usize as crate::ord_map::MapKey>::before(k[0], k[1]));
        }
        assert(k =~= seq![p]);
    }
    out
}

/// The rows of `key` deleted from each of the tables.
pub open spec fn rows_deleted(db: DbState, tables: Seq<TableId>, key: Seq<char>) -> DbState {
    db.remove_keys(Set::new(|tk: (TableId, Seq<char>)| tk.1 == key && tables.contains(tk.0)))
}

/// The rows of a port deleted from each of the tables, where the port has a
/// physical one.
pub open spec fn port_rows_deleted(db: DbState, m: Mapping, tables: Seq<TableId>, port: Seq<char>) -> DbState {
    if physical_of(m, port) is Some {
        rows_deleted(db, tables, port)
    } else {
        db
    }
}

fn delete_rows(db: &mut Db, tables: &Vec<TableId>, key: &str)
    ensures
        final(db)@ == rows_deleted(old(db)@, tables@, key@),
{
    let ghost before = db@;
    let mut i: usize = 0;
    assert(db@ =~= rows_deleted(before, tables@.take(0), key@));
    while i < tables.len()
        invariant
            i <= tables.len(),
            db@ == rows_deleted(before, tables@.take(i as int), key@),
        decreases tables.len() - i,
    {
        db.del(tables[i], key);
        proof {
            let a = tables@.take(i as int);
            let b = tables@.take(i + 1);
            assert(b =~= a.push(tables@[i as int]));
            assert forall|t: TableId| b.contains(t) <==> a.contains(t) || t == tables@[i as int] by {
                if a.contains(t) {
                    let j = a.index_of(t);
                    assert(b[j] == t);
                }
                if t == tables@[i as int] {
                    assert(b[i as int] == t);
                }
            }
            assert(db@ =~= rows_deleted(before, b, key@));
        }
        i = i + 1;
    }
    assert(tables@.take(i as int) =~= tables@);
}

/// Deletes the rows of a port from each of the tables.
pub fn del_port_sfp_dom_info_from_db(
    logical_port_name: &str,
    port_mapping: &PortMapping,
    db: &mut Db,
    tbl_to_del_list: &Vec<TableId>,
)
    ensures
        final(db)@ == port_rows_deleted(
            old(db)@,
            port_mapping@,
            tbl_to_del_list@,
            logical_port_name@,
        ),
{
    let names = get_physical_port_name_dict(logical_port_name, port_mapping);
    let n: usize = names.len();
    if n == 1 {
        let name = names.value_at(0);
        delete_rows(db, tbl_to_del_list, name.as_str());
    }
}

/// Whether the module is there, as the platform reports it.
pub fn wrapper_get_presence(sfp: &Sfp) -> (r: XResult<bool>)
    ensures
        r == sfp.presence,
{
    match sfp.presence {
        Ok(p) => Ok(p),
        Err(e) => Err(e),
    }
}

/// Writing the status and the error of a port leaves every bring-up state as it
/// was.
pub proof fn law_status_keeps_bring_up_state(
    db: DbState,
    t: TableId,
    port: Seq<char>,
    status: Seq<char>,
    error: Seq<char>,
    t2: TableId,
    port2: Seq<char>,
)
    ensures
        cmis_state_text(with_status(db, t, port, status, error), t2, port2) == cmis_state_text(
            db,
            t2,
            port2,
        ),
        field_at(with_status(db, t, port, status, error), t, port, "status"@) == Some(status),
        field_at(with_status(db, t, port, status, error), t, port, "error"@) == Some(error),
{
    reveal_strlit("cmis_state");
    reveal_strlit("status");
    reveal_strlit("error");
    assert("cmis_state"@.len() == 10);
    assert("status"@.len() == 6);
    assert("error"@.len() == 5);
}

/// The rows of a mapped port are gone from each of the tables, and every other row
/// stays.
pub proof fn law_deleted_rows_are_gone(
    db: DbState,
    m: Mapping,
    tables: Seq<TableId>,
    port: Seq<char>,
    t: TableId,
    key: Seq<char>,
)
    requires
        physical_of(m, port) is Some,
    ensures
        port_rows_deleted(db, m, tables, port).contains_key((t, key)) <==> db.contains_key((t, key)) && !(key
            == port && tables.contains(t)),
        port_rows_deleted(db, m, tables, port).contains_key((t, key)) ==> port_rows_deleted(
            db,
            m,
            tables,
            port,
        )[(t, key)] == db[(t, key)],
{
}

} // verus!
