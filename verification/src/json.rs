//! JSON values as the batch protocol reads them.
//!
//! Parsing JSON text is serde_json's work. The library holds what it parsed
//! as a `Json` tree of plain values, and reads numbers the two ways the
//! protocol does: as an unsigned integer and as a double.

use vstd::prelude::*;

use crate::number::JsNumber;

verus! {

/// A JSON number, as the readings the protocol takes of it.
#[derive(Clone, Copy, Debug, PartialEq, Eq, Structural)]
pub struct JsonNumber {
    /// The number as an unsigned 64-bit integer, when it is one.
    pub as_u64: Option<u64>,
    /// The number as a signed 64-bit integer, when it is one.
    pub as_i64: Option<i64>,
    /// The number as a finite double, when it has one.
    pub as_f64: Option<JsNumber>,
}

/// A JSON value.
#[derive(Debug)]
pub enum Json {
    Null,
    Bool(bool),
    Number(JsonNumber),
    String(String),
    Array(Vec<Json>),
    /// The members of an object as serde_json keeps them: sorted by key,
    /// one member per key (a repeated key keeps its last value).
    Object(Vec<(String, Json)>),
}

/// The outside JSON tree that serde_json parses into.
#[verifier::external_type_specification]
#[verifier::external_body]
pub struct ExSerdeJsonValue(serde_json::Value);

/// What serde_json's `from_str` makes of `text`: the value it parses, or
/// the text of the error it reports when `text` is not one JSON value.
pub uninterp spec fn json_text_value(text: Seq<char>) -> Result<Json, Seq<char>>;

/// Converts a serde_json value into a `Json` tree, node for node: each
/// number keeps serde_json's own `as_u64` and `as_i64` readings and its
/// finite `as_f64` reading. Nothing is stated of it; `parse_json_text` names the result.
#[verifier::external_body]
fn json_from_value(value: serde_json::Value) -> Json {
    match value {
        serde_json::Value::Null => Json::Null,
        serde_json::Value::Bool(b) => Json::Bool(b),
        serde_json::Value::Number(n) => Json::Number(JsonNumber {
            as_u64: n.as_u64(),
            as_i64: n.as_i64(),
            as_f64: n.as_f64().map(|f| JsNumber { bits: f.to_bits() }),
        }),
        serde_json::Value::String(s) => Json::String(s),
        serde_json::Value::Array(items) => Json::Array(items.into_iter().map(json_from_value).collect()),
        serde_json::Value::Object(members) => Json::Object(
            members.into_iter().map(|(k, v)| (k, json_from_value(v))).collect(),
        ),
    }
}

/// Parses `text` with serde_json's `from_str` into a `Json` tree, or gives
/// the error's text as serde_json displays it. The contract claims only that
/// the outcome is a function of the text alone, named `json_text_value`;
/// what serde_json accepts, and how it words an error, is not restated.
#[verifier::external_body]
pub(crate) fn parse_json_text(text: &str) -> (r: Result<Json, String>)
    ensures
        match r {
            Ok(v) => json_text_value(text@) == Ok::<Json, Seq<char>>(v),
            Err(e) => json_text_value(text@) == Err::<Json, Seq<char>>(e@),
        },
{
    match serde_json::from_str::<serde_json::Value>(text) {
        Ok(value) => Ok(json_from_value(value)),
        Err(error) => Err(error.to_string()),
    }
}

/// A custom prop value that is not JSON text.
#[derive(Clone, Debug)]
pub struct CustomPropError {
    /// The parse error as serde_json words it.
    pub reason: String,
}

impl CustomPropError {
    /// The error as the text JS receives.
    pub fn message(&self) -> (m: String)
        ensures
            m@ == "Failed to parse custom prop value: "@ + self.reason@,
    {
        let mut m = String::from_str("Failed to parse custom prop value: ");
        m.append(self.reason.as_str());
        m
    }
}

/// Read a custom prop value JS sends as JSON text.
pub fn parse_custom_prop_value(value_json: &str) -> (r: Result<Json, CustomPropError>)
    ensures
        match json_text_value(value_json@) {
            Ok(v) => r == Ok::<Json, CustomPropError>(v),
            Err(reason) => r matches Err(e) && e.reason@ == reason,
        },
{
    match parse_json_text(value_json) {
        Ok(value) => Ok(value),
        Err(reason) => Err(CustomPropError { reason }),
    }
}

} // verus!
