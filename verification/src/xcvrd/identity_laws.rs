//! What is published of a module's identity.

use vstd::prelude::*;
use vstd::string::*;
use crate::db::{field_at, DbState, Fields, TableId};
use crate::error::XcvrdError;
use crate::hal::{reading, Hal};
use crate::text::white;
use crate::text_laws::{law_nuls_behind_are_cut, law_white_space_behind_is_cut};
use crate::value::{DictState, ReplyState, Val};
use crate::xcvrd::{identity_fields, identity_posted, identity_text, not_ready, with_text};
use crate::xcvrd_utilities::port_event_helper::{physical_of, Mapping};

verus! {

/// The text of an identity value: a string without the white space and then the NUL
/// characters that pad it, a number as it is written, a boolean as `True` or `False`,
/// and none where there is no value.
pub proof fn law_identity_values_have_their_text(t: Seq<char>, blanks: Seq<char>, nuls: Seq<char>)
    requires
        t.len() == 0 || !white(t.last()),
        t.len() + blanks.len() == 0 || (t + blanks).last() != '\0',
        forall|i: int| 0 <= i < blanks.len() ==> white(#[trigger] blanks[i]),
        forall|i: int| 0 <= i < nuls.len() ==> #[trigger] nuls[i] == '\0',
    ensures
        identity_text(Val::Text(t + blanks + nuls)) == Some(t),
        identity_text(Val::Number(t)) == Some(t),
        identity_text(Val::Bool(true)) == Some("True"@),
        identity_text(Val::Bool(false)) == Some("False"@),
        identity_text(Val::Null) is None,
{
    law_nuls_behind_are_cut(t + blanks, nuls);
    law_white_space_behind_is_cut(t, blanks);
}

/// The fields that the identity of a module without a CMIS revision has, each empty
/// where the module does not report it.
pub open spec fn fixed_names() -> Seq<Seq<char>> {
    seq![
        "type"@,
        "vendor_rev"@,
        "serial"@,
        "manufacturer"@,
        "model"@,
        "vendor_oui"@,
        "vendor_date"@,
        "connector"@,
        "encoding"@,
        "ext_identifier"@,
        "ext_rateselect_compliance"@,
        "cable_type"@,
        "cable_length"@,
        "specification_compliance"@,
        "nominal_bit_rate"@,
    ]
}

/// `d` reports `name` with the text `text`.
pub open spec fn reports(d: DictState, name: Seq<char>, text: Seq<char>) -> bool {
    d.contains_key(name) && identity_text(d[name]) == Some(text)
}

/// `d` reports no text for `name`.
pub open spec fn lacks(d: DictState, name: Seq<char>) -> bool {
    d.contains_key(name) ==> identity_text(d[name]) is None
}

proof fn lemma_names_differ(i: int)
    requires
        0 <= i < 15,
    ensures
        fixed_names()[i] != "is_replaceable"@,
        fixed_names()[i] != "dom_capability"@,
        fixed_names()[i] != "application_advertisement"@,
        "application_advertisement"@ != "dom_capability"@,
        "application_advertisement"@ != "is_replaceable"@,
        "dom_capability"@ != "is_replaceable"@,
{
    reveal_strlit("type");
    reveal_strlit("vendor_rev");
    reveal_strlit("serial");
    reveal_strlit("manufacturer");
    reveal_strlit("model");
    reveal_strlit("vendor_oui");
    reveal_strlit("vendor_date");
    reveal_strlit("connector");
    reveal_strlit("encoding");
    reveal_strlit("ext_identifier");
    reveal_strlit("ext_rateselect_compliance");
    reveal_strlit("cable_type");
    reveal_strlit("cable_length");
    reveal_strlit("specification_compliance");
    reveal_strlit("nominal_bit_rate");
    reveal_strlit("is_replaceable");
    reveal_strlit("dom_capability");
    reveal_strlit("application_advertisement");
    assert("is_replaceable"@[0] == 'i' && "dom_capability"@[0] == 'd' && "application_advertisement"@[0] == 'a');
    let n = fixed_names()[i];
    assert(n[0] == 't' || n[0] == 'v' || n[0] == 's' || n[0] == 'm' || n[0] == 'c' || n[0] == 'e' || n[0] == 'n');
}

/// The identity of a module without a CMIS revision holds every fixed field with the
/// text of the value that the module reports under that very name, empty where it
/// reports none; its application advertisement and its monitoring capability, or that
/// they are not available; and whether it is replaceable.
pub proof fn law_fixed_identity_fields(d: DictState, replaceable: bool, i: int, text: Seq<char>)
    requires
        !d.contains_key("cmis_rev"@),
        0 <= i < 15,
    ensures
        ({
            let f = identity_fields(d, replaceable);
            let name = fixed_names()[i];
            &&& f.contains_key(name)
            &&& reports(d, name, text) ==> f[name] == text
            &&& lacks(d, name) ==> f[name].len() == 0
            &&& f.contains_key("application_advertisement"@)
            &&& reports(d, "application_advertisement"@, text) ==> f["application_advertisement"@] == text
            &&& lacks(d, "application_advertisement"@) ==> f["application_advertisement"@] == "N/A"@
            &&& f.contains_key("dom_capability"@)
            &&& reports(d, "dom_capability"@, text) ==> f["dom_capability"@] == text
            &&& lacks(d, "dom_capability"@) ==> f["dom_capability"@] == "N/A"@
            &&& f.contains_key("is_replaceable"@)
            &&& f["is_replaceable"@] == if replaceable {
                "True"@
            } else {
                "False"@
            }
        }),
{
    lemma_names_differ(i);
    let f = identity_fields(d, replaceable);
    let name = fixed_names()[i];
    assert(f.contains_key(name)) by {
        if i == 0 {
            assert(name == "type"@);
        } else if i == 1 {
            assert(name == "vendor_rev"@);
        } else if i == 2 {
            assert(name == "serial"@);
        } else if i == 3 {
            assert(name == "manufacturer"@);
        } else if i == 4 {
            assert(name == "model"@);
        } else if i == 5 {
            assert(name == "vendor_oui"@);
        } else if i == 6 {
            assert(name == "vendor_date"@);
        } else if i == 7 {
            assert(name == "connector"@);
        } else if i == 8 {
            assert(name == "encoding"@);
        } else if i == 9 {
            assert(name == "ext_identifier"@);
        } else if i == 10 {
            assert(name == "ext_rateselect_compliance"@);
        } else if i == 11 {
            assert(name == "cable_type"@);
        } else if i == 12 {
            assert(name == "cable_length"@);
        } else if i == 13 {
            assert(name == "specification_compliance"@);
        } else {
            assert(name == "nominal_bit_rate"@);
        }
    }
}

proof fn lemma_no_text(f: Fields, d: DictState, i: int, name: Seq<char>)
    requires
        0 <= i < 15,
        !fixed_names().contains(name),
        !f.contains_key(name),
    ensures
        !with_text(f, d, fixed_names()[i]).contains_key(name),
{
    assert(fixed_names().contains(fixed_names()[i]));
}

/// The identity of a module without a CMIS revision has no other fields.
pub proof fn law_no_other_identity_fields(d: DictState, replaceable: bool, name: Seq<char>)
    requires
        !d.contains_key("cmis_rev"@),
        !fixed_names().contains(name),
        name != "application_advertisement"@,
        name != "dom_capability"@,
        name != "is_replaceable"@,
    ensures
        !identity_fields(d, replaceable).contains_key(name),
{
    let f0 = Map::empty();
    lemma_no_text(f0, d, 0, name);
    let f1 = with_text(f0, d, "type"@);
    lemma_no_text(f1, d, 1, name);
    let f2 = with_text(f1, d, "vendor_rev"@);
    lemma_no_text(f2, d, 2, name);
    let f3 = with_text(f2, d, "serial"@);
    lemma_no_text(f3, d, 3, name);
    let f4 = with_text(f3, d, "manufacturer"@);
    lemma_no_text(f4, d, 4, name);
    let f5 = with_text(f4, d, "model"@);
    lemma_no_text(f5, d, 5, name);
    let f6 = with_text(f5, d, "vendor_oui"@);
    lemma_no_text(f6, d, 6, name);
    let f7 = with_text(f6, d, "vendor_date"@);
    lemma_no_text(f7, d, 7, name);
    let f8 = with_text(f7, d, "connector"@);
    lemma_no_text(f8, d, 8, name);
    let f9 = with_text(f8, d, "encoding"@);
    lemma_no_text(f9, d, 9, name);
    let f10 = with_text(f9, d, "ext_identifier"@);
    lemma_no_text(f10, d, 10, name);
    let f11 = with_text(f10, d, "ext_rateselect_compliance"@);
    lemma_no_text(f11, d, 11, name);
    let f12 = with_text(f11, d, "cable_type"@);
    lemma_no_text(f12, d, 12, name);
    let f13 = with_text(f12, d, "cable_length"@);
    lemma_no_text(f13, d, 13, name);
    let f14 = with_text(f13, d, "specification_compliance"@);
    lemma_no_text(f14, d, 14, name);
    let f15 = with_text(f14, d, "nominal_bit_rate"@);
}

/// The identity of a module with a CMIS revision holds every value that it reports
/// with a text, under its name, and nothing else but whether it is replaceable.
pub proof fn law_cmis_identity_fields(d: DictState, replaceable: bool, name: Seq<char>, text: Seq<char>)
    requires
        d.contains_key("cmis_rev"@),
        name != "is_replaceable"@,
    ensures
        ({
            let f = identity_fields(d, replaceable);
            &&& reports(d, name, text) ==> f.contains_key(name) && f[name] == text
            &&& lacks(d, name) ==> !f.contains_key(name)
            &&& f.contains_key("is_replaceable"@)
            &&& f["is_replaceable"@] == if replaceable {
                "True"@
            } else {
                "False"@
            }
        }),
{
    let f = identity_fields(d, replaceable);
    assert(f.contains_key("is_replaceable"@));
}

/// The identity row of a port is that of the module in the slot that the port is
/// mapped to: every field of the module's identity is published in the row of the
/// port. A module that is not there or cannot be read leaves the row alone, and one
/// that is there and cannot be read is to be read again.
pub proof fn law_identity_is_that_of_the_slot(
    db: DbState,
    t: TableId,
    m: Mapping,
    hal: &Hal,
    port: Seq<char>,
    p: usize,
    d: DictState,
    name: Seq<char>,
)
    requires
        physical_of(m, port) == Some(p),
        p < hal.sfps@.len(),
    ensures
        ({
            let s = hal.sfps@[p as int];
            let there = s.presence == Ok::<bool, XcvrdError>(true);
            let posted = identity_posted(db, t, m, hal, port);
            let f = identity_fields(d, s.replaceable == Ok::<bool, XcvrdError>(true));
            &&& there && reading(s.transceiver_info) == Some(ReplyState::Object(d)) ==> {
                &&& !not_ready(m, hal, port)
                &&& posted.contains_key((t, port))
                &&& f.contains_key(name) ==> field_at(posted, t, port, name) == Some(f[name])
                &&& !f.contains_key(name) ==> field_at(posted, t, port, name) == field_at(db, t, port, name)
            }
            &&& !there ==> posted == db
            &&& s.presence == Ok::<bool, XcvrdError>(false) ==> !not_ready(m, hal, port)
            &&& there && !(reading(s.transceiver_info) matches Some(ReplyState::Object(_))) ==> posted == db
                && not_ready(m, hal, port)
        }),
{
}

} // verus!
