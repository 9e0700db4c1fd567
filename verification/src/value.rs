//! The values that a module reports, and their text.

use vstd::prelude::*;
use crate::ord_map::{Duplicate, StrMap};
use crate::text::same;

verus! {

/// One reported value.
#[derive(Debug, PartialEq, Eq)]
pub enum Value {
    Null,
    Bool(bool),
    /// A number, by its text.
    Number(String),
    String(String),
    /// An array or an object, as JSON text.
    Json(String),
}

/// What a [`Value`] holds.
#[verifier::ext_equal]
pub enum Val {
    Null,
    Bool(bool),
    Number(Seq<char>),
    Text(Seq<char>),
    Json(Seq<char>),
}

impl DeepView for Value {
    type V = Val;

    open spec fn deep_view(&self) -> Val {
        match self {
            Value::Null => Val::Null,
            Value::Bool(b) => Val::Bool(*b),
            Value::Number(s) => Val::Number(s@),
            Value::String(s) => Val::Text(s@),
            Value::Json(s) => Val::Json(s@),
        }
    }
}

impl View for Value {
    type V = Val;

    open spec fn view(&self) -> Val {
        self.deep_view()
    }
}

impl Duplicate for Value {
    fn duplicate(&self) -> (r: Self) {
        match self {
            Value::Null => Value::Null,
            Value::Bool(b) => Value::Bool(*b),
            Value::Number(s) => Value::Number(s.clone()),
            Value::String(s) => Value::String(s.clone()),
            Value::Json(s) => Value::Json(s.clone()),
        }
    }
}

/// The values of a reported dictionary, by name.
pub type Dict = StrMap<Value>;

/// What a [`Dict`] holds.
pub type DictState = Map<Seq<char>, Val>;

/// A module's answer: a dictionary, or a single value.
pub enum Reply {
    Object(Dict),
    Scalar(Value),
}

/// What a [`Reply`] holds.
#[verifier::ext_equal]
pub enum ReplyState {
    Object(DictState),
    Scalar(Val),
}

impl DeepView for Reply {
    type V = ReplyState;

    open spec fn deep_view(&self) -> ReplyState {
        match self {
            Reply::Object(d) => ReplyState::Object(d@),
            Reply::Scalar(v) => ReplyState::Scalar(v@),
        }
    }
}

impl View for Reply {
    type V = ReplyState;

    open spec fn view(&self) -> ReplyState {
        self.deep_view()
    }
}

impl Duplicate for Reply {
    fn duplicate(&self) -> (r: Self) {
        match self {
            Reply::Object(d) => Reply::Object(d.copy()),
            Reply::Scalar(v) => Reply::Scalar(v.duplicate()),
        }
    }
}

/// The compact text that `serde_json` gives to the JSON value that `text`
/// writes; none where `text` is not JSON.
pub uninterp spec fn json_text(text: Seq<char>) -> Option<Seq<char>>;

/// Calls `serde_json::Value::to_string` on the value that `text` writes, which
/// `serde_json::from_str` makes; the crate's `float_roundtrip` feature has it read
/// every float as the nearest one. The result is a function of `text` alone.
#[verifier::external_body]
fn json_to_string(text: &str) -> (r: Option<String>)
    ensures
        r.deep_view() == json_text(text@),
{
    match serde_json::from_str::<serde_json::Value>(text) {
        Ok(v) => Some(v.to_string()),
        Err(_) => None,
    }
}

/// The text of an array or object: as `serde_json` writes it, or as it stands
/// where it is not JSON.
pub open spec fn rendered(text: Seq<char>) -> Seq<char> {
    match json_text(text) {
        Some(t) => t,
        None => text,
    }
}

/// The text of an array or object.
pub fn render(text: &String) -> (r: String)
    ensures
        r@ == rendered(text@),
{
    match json_to_string(text.as_str()) {
        Some(t) => t,
        None => text.clone(),
    }
}

/// The text of a boolean.
pub open spec fn bool_text(b: bool) -> Seq<char> {
    if b {
        "True"@
    } else {
        "False"@
    }
}

/// A boolean value, where it is one.
pub open spec fn as_bool(v: Val) -> Option<bool> {
    match v {
        Val::Bool(b) => Some(b),
        _ => None,
    }
}

/// The text of a string value, where it is one.
pub open spec fn as_text(v: Val) -> Option<Seq<char>> {
    match v {
        Val::Text(s) => Some(s),
        _ => None,
    }
}

/// `c` starts the exponent of a number.
pub open spec fn exponent_mark(c: char) -> bool {
    c == 'e' || c == 'E'
}

/// The number that `s` writes is other than zero: a digit other than zero stands
/// before its exponent.
pub open spec fn nonzero_number(s: Seq<char>) -> bool {
    exists|i: int|
        0 <= i < s.len() && 49 <= (#[trigger] s[i] as int) <= 57 && forall|j: int|
            0 <= j < i ==> !exponent_mark(#[trigger] s[j])
}

/// Whether a value counts as true.
pub open spec fn truthy(v: Val) -> bool {
    match v {
        Val::Null => false,
        Val::Bool(b) => b,
        Val::Number(s) => nonzero_number(s),
        Val::Text(s) => s.len() > 0,
        Val::Json(s) => rendered(s) != "[]"@ && rendered(s) != "{}"@,
    }
}

fn is_nonzero_digit(c: char) -> (r: bool)
    ensures
        r == (49 <= (c as int) <= 57),
{
    let n: u32 = c as u32;
    49 <= n && n <= 57
}

/// Whether the text of a number writes one other than zero.
pub fn number_text_is_nonzero(s: &str) -> (r: bool)
    ensures
        r == nonzero_number(s@),
{
    let x = crate::text::chars_of(s);
    let mut i: usize = 0;
    while i < x.len()
        invariant
            x@ == s@,
            i <= x.len(),
            forall|j: int| 0 <= j < i ==> !(49 <= (#[trigger] x@[j] as int) <= 57),
            forall|j: int| 0 <= j < i ==> !exponent_mark(#[trigger] x@[j]),
        decreases x.len() - i,
    {
        if x[i] == 'e' || x[i] == 'E' {
            assert(exponent_mark(x@[i as int]));
            return false;
        }
        if is_nonzero_digit(x[i]) {
            return true;
        }
        i = i + 1;
    }
    false
}

/// Whether a value counts as true.
pub fn py_truthy(v: &Value) -> (r: bool)
    ensures
        r == truthy(v@),
{
    match v {
        Value::Null => false,
        Value::Bool(b) => *b,
        Value::Number(s) => number_text_is_nonzero(s.as_str()),
        Value::String(s) => {
            let n: bool = s.as_str().is_empty();
            !n
        },
        Value::Json(s) => {
            let t = render(s);
            !same(t.as_str(), "[]") && !same(t.as_str(), "{}")
        },
    }
}

} // verus!
