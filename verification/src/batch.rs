//! Turning one batch of React mutations into tree operations.
//!
//! Every op is parsed and checked before any of them touches the tree, so a
//! malformed batch changes nothing rather than applying half of itself.
//!
//! Batch format: a JSON array of tuples `[opcode, ...args]`:
//!
//! ```text
//!   ["createElement",      id, "type"]
//!   ["destroyElement",     id]
//!   ["appendChild",        parentId, childId]
//!   ["removeChild",        parentId, childId]
//!   ["insertBefore",       parentId, childId, beforeId]
//!   ["setStyle",           id, { ...style } | "{styleJson}"]
//!   ["setText",            id, "content"]
//!   ["setEventListener",   id, "eventType", true | false | 0 | 1 | ...]
//!   ["setRoot",            id]
//!   ["setCustomProp",      id, "key", value | "{valueJson}"]
//!   ["setCustomPropValue", id, "key", value]
//! ```

use vstd::prelude::*;

use crate::json::{json_text_value, parse_json_text, Json};
use crate::number::{element_id, raw_element_id, JsNumber};
use crate::text::{chars_eq, chars_of, debug_quoted, decimal, push_decimal, quote_debug};

verus! {

/// One parsed batch operation. `S` is the decoded style.
#[derive(Debug)]
pub enum BatchOp<S> {
    CreateElement { id: u64, element_type: String },
    DestroyElement { id: u64 },
    AppendChild { parent_id: u64, child_id: u64 },
    RemoveChild { parent_id: u64, child_id: u64 },
    InsertBefore { parent_id: u64, child_id: u64, before_id: u64 },
    SetStyle { id: u64, style: S },
    SetText { id: u64, content: String },
    SetEventListener { id: u64, event_type: String, has_handler: bool },
    SetRoot { id: u64 },
    SetCustomProp { id: u64, key: String, value: Json },
}

/// Why a batch was rejected. `op` is the index of the first bad op.
#[derive(Debug)]
pub enum BatchError {
    /// The batch text is not JSON; `reason` is serde_json's error.
    InvalidJson { reason: String },
    /// The batch is JSON but not an array.
    Malformed,
    /// The op is not an array.
    NotAnArray { op: usize },
    /// The op does not start with an op name string.
    MissingOpName { op: usize },
    /// The op name is not one the protocol knows.
    UnknownOperation { op: usize, name: String },
    /// There is no number at an id position.
    MissingId { op: usize, index: usize },
    /// The number at an id position has no finite double (such as `1e999`).
    UnrepresentableId { op: usize, index: usize },
    /// The number at an id position is not a valid element id.
    InvalidId { op: usize, index: usize, id: JsNumber },
    /// There is no string at a string position.
    MissingString { op: usize, index: usize },
    /// There is no value at a payload position.
    MissingValue { op: usize, index: usize },
    /// `setEventListener` carries no bool or number as `hasHandler`.
    MissingHasHandler { op: usize },
    /// `hasHandler` is a number that is not a non-negative integer.
    InvalidHasHandler { op: usize },
    /// `setCustomPropValue` carries no value.
    MissingCustomPropValue { op: usize },
    /// The style decoder rejected the payload.
    InvalidStyle { op: usize, message: String },
}

/// The text of a batch error. Errors in the shape of the batch (text that
/// is not JSON, an op that is not a tuple, an argument that is absent or of
/// the wrong kind) start with `Failed to parse batch:`; errors in the value
/// of an argument that is there name the op.
pub open spec fn error_message(e: BatchError) -> Seq<char> {
    match e {
        BatchError::InvalidJson { reason } => "Failed to parse batch: "@ + reason@,
        BatchError::Malformed => "Failed to parse batch: the batch is not a JSON array"@,
        BatchError::NotAnArray { op } => "Failed to parse batch: op "@ + decimal(op as nat) + " is not an array"@,
        BatchError::MissingOpName { op } => "Failed to parse batch: op "@ + decimal(op as nat)
            + " missing op name string"@,
        BatchError::UnknownOperation { op, name } => "Batch op "@ + decimal(op as nat)
            + " unknown operation: "@ + debug_quoted(name@),
        BatchError::MissingId { op, index } => "Failed to parse batch: op "@ + decimal(op as nat)
            + " missing id at index "@ + decimal(index as nat),
        BatchError::UnrepresentableId { op, index } => "Batch op "@ + decimal(op as nat)
            + " invalid element id at index "@ + decimal(index as nat),
        BatchError::InvalidId { op, index, id } => "Batch op "@ + decimal(op as nat)
            + " invalid element id at index "@ + decimal(index as nat),
        BatchError::MissingString { op, index } => "Failed to parse batch: op "@ + decimal(op as nat)
            + " missing string at index "@ + decimal(index as nat),
        BatchError::MissingValue { op, index } => "Failed to parse batch: op "@ + decimal(op as nat)
            + " missing value at index "@ + decimal(index as nat),
        BatchError::MissingHasHandler { op } => "Failed to parse batch: op "@ + decimal(op as nat)
            + " setEventListener missing hasHandler at index 3"@,
        BatchError::InvalidHasHandler { op } => "Batch op "@ + decimal(op as nat)
            + " setEventListener invalid hasHandler at index 3"@,
        BatchError::MissingCustomPropValue { op } => "Failed to parse batch: op "@ + decimal(op as nat)
            + " missing custom prop value"@,
        BatchError::InvalidStyle { op, message } => "Batch op "@ + decimal(op as nat)
            + " setStyle parse error: "@ + message@,
    }
}

impl BatchError {
    /// The error as the text JS receives.
    pub fn message(&self) -> (m: String)
        ensures
            m@ == error_message(*self),
    {
        match self {
            BatchError::InvalidJson { reason } => {
                let mut m = String::from_str("Failed to parse batch: ");
                m.append(reason.as_str());
                m
            },
            BatchError::Malformed => String::from_str("Failed to parse batch: the batch is not a JSON array"),
            BatchError::NotAnArray { op } => {
                let mut m = String::from_str("Failed to parse batch: op ");
                push_decimal(&mut m, *op as u64);
                m.append(" is not an array");
                m
            },
            BatchError::MissingOpName { op } => {
                let mut m = String::from_str("Failed to parse batch: op ");
                push_decimal(&mut m, *op as u64);
                m.append(" missing op name string");
                m
            },
            BatchError::UnknownOperation { op, name } => {
                let mut m = String::from_str("Batch op ");
                push_decimal(&mut m, *op as u64);
                m.append(" unknown operation: ");
                let quoted = quote_debug(name.as_str());
                m.append(quoted.as_str());
                m
            },
            BatchError::MissingId { op, index } => {
                let mut m = String::from_str("Failed to parse batch: op ");
                push_decimal(&mut m, *op as u64);
                m.append(" missing id at index ");
                push_decimal(&mut m, *index as u64);
                m
            },
            BatchError::UnrepresentableId { op, index } => {
                let mut m = String::from_str("Batch op ");
                push_decimal(&mut m, *op as u64);
                m.append(" invalid element id at index ");
                push_decimal(&mut m, *index as u64);
                m
            },
            BatchError::InvalidId { op, index, id: _ } => {
                let mut m = String::from_str("Batch op ");
                push_decimal(&mut m, *op as u64);
                m.append(" invalid element id at index ");
                push_decimal(&mut m, *index as u64);
                m
            },
            BatchError::MissingString { op, index } => {
                let mut m = String::from_str("Failed to parse batch: op ");
                push_decimal(&mut m, *op as u64);
                m.append(" missing string at index ");
                push_decimal(&mut m, *index as u64);
                m
            },
            BatchError::MissingValue { op, index } => {
                let mut m = String::from_str("Failed to parse batch: op ");
                push_decimal(&mut m, *op as u64);
                m.append(" missing value at index ");
                push_decimal(&mut m, *index as u64);
                m
            },
            BatchError::MissingHasHandler { op } => {
                let mut m = String::from_str("Failed to parse batch: op ");
                push_decimal(&mut m, *op as u64);
                m.append(" setEventListener missing hasHandler at index 3");
                m
            },
            BatchError::InvalidHasHandler { op } => {
                let mut m = String::from_str("Batch op ");
                push_decimal(&mut m, *op as u64);
                m.append(" setEventListener invalid hasHandler at index 3");
                m
            },
            BatchError::MissingCustomPropValue { op } => {
                let mut m = String::from_str("Failed to parse batch: op ");
                push_decimal(&mut m, *op as u64);
                m.append(" missing custom prop value");
                m
            },
            BatchError::InvalidStyle { op, message } => {
                let mut m = String::from_str("Batch op ");
                push_decimal(&mut m, *op as u64);
                m.append(" setStyle parse error: ");
                m.append(message.as_str());
                m
            },
        }
    }
}

// ── What one op parses to ───────────────────────────────────────────

/// The value as a double, when it is a number that has one.
pub open spec fn as_f64(j: Json) -> Option<JsNumber> {
    match j {
        Json::Number(n) => n.as_f64,
        _ => None,
    }
}

/// The element id at `a[k]`.
pub open spec fn id_at(a: Seq<Json>, k: usize, op: usize) -> Result<u64, BatchError> {
    if k < a.len() && a[k as int] is Number {
        match as_f64(a[k as int]) {
            Some(f) => match element_id(f) {
                Some(id) => Ok(id),
                None => Err(BatchError::InvalidId { op, index: k, id: f }),
            },
            None => Err(BatchError::UnrepresentableId { op, index: k }),
        }
    } else {
        Err(BatchError::MissingId { op, index: k })
    }
}

/// The string at `a[k]`.
pub open spec fn str_at(a: Seq<Json>, k: usize, op: usize) -> Result<String, BatchError> {
    if k < a.len() && a[k as int] is String {
        Ok(a[k as int]->String_0)
    } else {
        Err(BatchError::MissingString { op, index: k })
    }
}

/// A style or custom-prop payload. Objects land as JSON. Legacy batches
/// still send a JSON string and get decoded; a string that is not JSON
/// stays the string it was.
pub open spec fn payload_of(j: Json) -> Json {
    match j {
        Json::String(s) => match json_text_value(s@) {
            Ok(p) => p,
            Err(_) => Json::String(s),
        },
        other => other,
    }
}

/// The payload at `a[k]`.
pub open spec fn payload_at(a: Seq<Json>, k: usize, op: usize) -> Result<Json, BatchError> {
    if k < a.len() {
        Ok(payload_of(a[k as int]))
    } else {
        Err(BatchError::MissingValue { op, index: k })
    }
}

/// `hasHandler` at `a[3]`: a bool, or an unsigned integer where non-zero is
/// true. Anything but a bool or a number there is a shape error.
pub open spec fn has_handler_at(a: Seq<Json>, op: usize) -> Result<bool, BatchError> {
    if 3 < a.len() {
        match a[3] {
            Json::Bool(b) => Ok(b),
            Json::Number(n) => match n.as_u64 {
                Some(u) => Ok(u != 0),
                None => Err(BatchError::InvalidHasHandler { op }),
            },
            _ => Err(BatchError::MissingHasHandler { op }),
        }
    } else {
        Err(BatchError::MissingHasHandler { op })
    }
}

/// The op that op `op` of a batch parses to, in the order the protocol
/// checks its arguments; the first failing check names the error.
pub open spec fn parse_op<S>(j: Json, op: usize, style: spec_fn(Json) -> Result<S, String>) -> Result<BatchOp<S>, BatchError> {
    match j {
        Json::Array(arr) => {
            let a = arr@;
            if a.len() == 0 || !(a[0] is String) {
                Err(BatchError::MissingOpName { op })
            } else {
                let name = a[0]->String_0;
                if name@ == "createElement"@ {
                    match id_at(a, 1, op) {
                        Err(e) => Err(e),
                        Ok(id) => match str_at(a, 2, op) {
                            Err(e) => Err(e),
                            Ok(element_type) => Ok(BatchOp::CreateElement { id, element_type }),
                        },
                    }
                } else if name@ == "destroyElement"@ {
                    match id_at(a, 1, op) {
                        Err(e) => Err(e),
                        Ok(id) => Ok(BatchOp::DestroyElement { id }),
                    }
                } else if name@ == "appendChild"@ || name@ == "removeChild"@ {
                    match id_at(a, 1, op) {
                        Err(e) => Err(e),
                        Ok(parent_id) => match id_at(a, 2, op) {
                            Err(e) => Err(e),
                            Ok(child_id) => if name@ == "appendChild"@ {
                                Ok(BatchOp::AppendChild { parent_id, child_id })
                            } else {
                                Ok(BatchOp::RemoveChild { parent_id, child_id })
                            },
                        },
                    }
                } else if name@ == "insertBefore"@ {
                    match id_at(a, 1, op) {
                        Err(e) => Err(e),
                        Ok(parent_id) => match id_at(a, 2, op) {
                            Err(e) => Err(e),
                            Ok(child_id) => match id_at(a, 3, op) {
                                Err(e) => Err(e),
                                Ok(before_id) => Ok(BatchOp::InsertBefore { parent_id, child_id, before_id }),
                            },
                        },
                    }
                } else if name@ == "setStyle"@ {
                    match payload_at(a, 2, op) {
                        Err(e) => Err(e),
                        Ok(value) => match style(value) {
                            Err(message) => Err(BatchError::InvalidStyle { op, message }),
                            Ok(s) => match id_at(a, 1, op) {
                                Err(e) => Err(e),
                                Ok(id) => Ok(BatchOp::SetStyle { id, style: s }),
                            },
                        },
                    }
                } else if name@ == "setText"@ {
                    match id_at(a, 1, op) {
                        Err(e) => Err(e),
                        Ok(id) => match str_at(a, 2, op) {
                            Err(e) => Err(e),
                            Ok(content) => Ok(BatchOp::SetText { id, content }),
                        },
                    }
                } else if name@ == "setEventListener"@ {
                    match has_handler_at(a, op) {
                        Err(e) => Err(e),
                        Ok(has_handler) => match id_at(a, 1, op) {
                            Err(e) => Err(e),
                            Ok(id) => match str_at(a, 2, op) {
                                Err(e) => Err(e),
                                Ok(event_type) => Ok(BatchOp::SetEventListener { id, event_type, has_handler }),
                            },
                        },
                    }
                } else if name@ == "setRoot"@ {
                    match id_at(a, 1, op) {
                        Err(e) => Err(e),
                        Ok(id) => Ok(BatchOp::SetRoot { id }),
                    }
                } else if name@ == "setCustomProp"@ || name@ == "setCustomPropValue"@ {
                    match id_at(a, 1, op) {
                        Err(e) => Err(e),
                        Ok(id) => match str_at(a, 2, op) {
                            Err(e) => Err(e),
                            Ok(key) => if name@ == "setCustomProp"@ {
                                match payload_at(a, 3, op) {
                                    Err(e) => Err(e),
                                    Ok(value) => Ok(BatchOp::SetCustomProp { id, key, value }),
                                }
                            } else if 3 < a.len() {
                                Ok(BatchOp::SetCustomProp { id, key, value: a[3] })
                            } else {
                                Err(BatchError::MissingCustomPropValue { op })
                            },
                        },
                    }
                } else {
                    Err(BatchError::UnknownOperation { op, name })
                }
            }
        },
        _ => Err(BatchError::NotAnArray { op }),
    }
}

/// What a batch parses to: every op in order, or the error of the first op
/// that fails.
pub open spec fn parse_ops<S>(ops: Seq<Json>, style: spec_fn(Json) -> Result<S, String>) -> Result<Seq<BatchOp<S>>, BatchError>
    decreases ops.len(),
{
    if ops.len() == 0 {
        Ok(Seq::empty())
    } else {
        match parse_ops(ops.drop_last(), style) {
            Err(e) => Err(e),
            Ok(done) => match parse_op(ops.last(), (ops.len() - 1) as usize, style) {
                Err(e) => Err(e),
                Ok(op) => Ok(done.push(op)),
            },
        }
    }
}

/// `r` is what a batch in JSON text parses to: the ops of a JSON array,
/// `Malformed` for other JSON, and serde_json's error for text that is not
/// JSON.
pub open spec fn is_batch_outcome<S>(text: Seq<char>, style: spec_fn(Json) -> Result<S, String>, r: Result<Seq<BatchOp<S>>, BatchError>) -> bool {
    match json_text_value(text) {
        Ok(Json::Array(ops)) => r == parse_ops(ops@, style),
        Ok(_) => r == Err::<Seq<BatchOp<S>>, BatchError>(BatchError::Malformed),
        Err(reason) => r matches Err(BatchError::InvalidJson { reason: got }) && got@ == reason,
    }
}

// ── The style decoder ───────────────────────────────────────────────

/// The style decoder can be called on any payload and gives one answer for
/// each.
pub open spec fn is_style_decoder<S, D: Fn(&Json) -> Result<S, String>>(decode: D) -> bool {
    &&& forall|j: Json| call_requires(decode, (&j,))
    &&& forall|j: Json, r1: Result<S, String>, r2: Result<S, String>|
        call_ensures(decode, (&j,), r1) && call_ensures(decode, (&j,), r2) ==> r1 == r2
}

/// The answer the style decoder gives for a payload.
pub open spec fn decoded<S, D: Fn(&Json) -> Result<S, String>>(decode: D) -> spec_fn(Json) -> Result<S, String> {
    |j: Json| choose|r: Result<S, String>| call_ensures(decode, (&j,), r)
}

// ── Parsing ─────────────────────────────────────────────────────────

/// Extract an element id from a batch tuple at the given index.
fn batch_id(arr: &Vec<Json>, idx: usize, op_idx: usize) -> (r: Result<u64, BatchError>)
    ensures
        r == id_at(arr@, idx, op_idx),
{
    if idx < arr.len() {
        if let Json::Number(n) = &arr[idx] {
            return match n.as_f64 {
                Some(f) => match raw_element_id(f) {
                    Ok(id) => Ok(id),
                    Err(_) => Err(BatchError::InvalidId { op: op_idx, index: idx, id: f }),
                },
                None => Err(BatchError::UnrepresentableId { op: op_idx, index: idx }),
            };
        }
    }
    Err(BatchError::MissingId { op: op_idx, index: idx })
}

/// Extract a string from a batch tuple at the given index.
fn batch_str(arr: &Vec<Json>, idx: usize, op_idx: usize) -> (r: Result<String, BatchError>)
    ensures
        r == str_at(arr@, idx, op_idx),
{
    if idx < arr.len() {
        if let Json::String(s) = &arr[idx] {
            return Ok(s.clone());
        }
    }
    Err(BatchError::MissingString { op: op_idx, index: idx })
}

/// Take the value at `k` out of `arr`, leaving `null` in its place.
fn take_at(arr: &mut Vec<Json>, k: usize) -> (v: Json)
    requires
        k < old(arr)@.len(),
    ensures
        v == old(arr)@[k as int],
        final(arr)@ == old(arr)@.update(k as int, Json::Null),
{
    let mut v = Json::Null;
    std::mem::swap(&mut v, &mut arr[k]);
    v
}

/// Decode a taken payload: a string that is JSON text is the value it
/// encodes.
fn decode_payload(value: Json) -> (r: Json)
    ensures
        r == payload_of(value),
{
    match value {
        Json::String(s) => match parse_json_text(s.as_str()) {
            Ok(parsed) => parsed,
            Err(_) => Json::String(s),
        },
        other => other,
    }
}

/// Take the payload at `a[idx]` out of the tuple.
fn batch_payload(arr: &mut Vec<Json>, idx: usize, op_idx: usize) -> (r: Result<Json, BatchError>)
    ensures
        r == payload_at(old(arr)@, idx, op_idx),
        final(arr)@.len() == old(arr)@.len(),
        forall|j: int| 0 <= j < old(arr)@.len() && j != idx ==> #[trigger] final(arr)@[j] == old(arr)@[j],
{
    if idx < arr.len() {
        Ok(decode_payload(take_at(arr, idx)))
    } else {
        Err(BatchError::MissingValue { op: op_idx, index: idx })
    }
}

fn batch_has_handler(arr: &Vec<Json>, op_idx: usize) -> (r: Result<bool, BatchError>)
    ensures
        r == has_handler_at(arr@, op_idx),
{
    if 3 < arr.len() {
        match &arr[3] {
            Json::Bool(b) => return Ok(*b),
            Json::Number(n) => match n.as_u64 {
                Some(u) => return Ok(u != 0),
                None => return Err(BatchError::InvalidHasHandler { op: op_idx }),
            },
            _ => {},
        }
    }
    Err(BatchError::MissingHasHandler { op: op_idx })
}

/// Parse one op, checking its arguments in the protocol's order.
fn parse_one<S, D: Fn(&Json) -> Result<S, String>>(j: Json, op: usize, decode_style: &D) -> (r: Result<BatchOp<S>, BatchError>)
    requires
        is_style_decoder::<S, D>(*decode_style),
    ensures
        r == parse_op(j, op, decoded::<S, D>(*decode_style)),
{
    let mut arr = match j {
        Json::Array(arr) => arr,
        _ => return Err(BatchError::NotAnArray { op }),
    };
    let ghost a = arr@;
    if arr.len() == 0 {
        return Err(BatchError::MissingOpName { op });
    }
    let name: String = match &arr[0] {
        Json::String(name) => name.clone(),
        _ => return Err(BatchError::MissingOpName { op }),
    };
    let n = chars_of(name.as_str());
    let n = n.as_slice();
    if chars_eq(n, "createElement") {
        let id = match batch_id(&arr, 1, op) {
            Ok(id) => id,
            Err(e) => return Err(e),
        };
        let element_type = match batch_str(&arr, 2, op) {
            Ok(s) => s,
            Err(e) => return Err(e),
        };
        Ok(BatchOp::CreateElement { id, element_type })
    } else if chars_eq(n, "destroyElement") {
        match batch_id(&arr, 1, op) {
            Ok(id) => Ok(BatchOp::DestroyElement { id }),
            Err(e) => Err(e),
        }
    } else if chars_eq(n, "appendChild") || chars_eq(n, "removeChild") {
        let parent_id = match batch_id(&arr, 1, op) {
            Ok(id) => id,
            Err(e) => return Err(e),
        };
        let child_id = match batch_id(&arr, 2, op) {
            Ok(id) => id,
            Err(e) => return Err(e),
        };
        if chars_eq(n, "appendChild") {
            Ok(BatchOp::AppendChild { parent_id, child_id })
        } else {
            Ok(BatchOp::RemoveChild { parent_id, child_id })
        }
    } else if chars_eq(n, "insertBefore") {
        let parent_id = match batch_id(&arr, 1, op) {
            Ok(id) => id,
            Err(e) => return Err(e),
        };
        let child_id = match batch_id(&arr, 2, op) {
            Ok(id) => id,
            Err(e) => return Err(e),
        };
        let before_id = match batch_id(&arr, 3, op) {
            Ok(id) => id,
            Err(e) => return Err(e),
        };
        Ok(BatchOp::InsertBefore { parent_id, child_id, before_id })
    } else if chars_eq(n, "setStyle") {
        let value = match batch_payload(&mut arr, 2, op) {
            Ok(v) => v,
            Err(e) => return Err(e),
        };
        let result = decode_style(&value);
        proof {
            let c = choose|r: Result<S, String>| call_ensures(*decode_style, (&value,), r);
            assert(call_ensures(*decode_style, (&value,), c));
            assert(c == result);
            assert(decoded::<S, D>(*decode_style)(value) == result);
        }
        let style = match result {
            Ok(style) => style,
            Err(message) => return Err(BatchError::InvalidStyle { op, message }),
        };
        match batch_id(&arr, 1, op) {
            Ok(id) => Ok(BatchOp::SetStyle { id, style }),
            Err(e) => Err(e),
        }
    } else if chars_eq(n, "setText") {
        let id = match batch_id(&arr, 1, op) {
            Ok(id) => id,
            Err(e) => return Err(e),
        };
        match batch_str(&arr, 2, op) {
            Ok(content) => Ok(BatchOp::SetText { id, content }),
            Err(e) => Err(e),
        }
    } else if chars_eq(n, "setEventListener") {
        let has_handler = match batch_has_handler(&arr, op) {
            Ok(h) => h,
            Err(e) => return Err(e),
        };
        let id = match batch_id(&arr, 1, op) {
            Ok(id) => id,
            Err(e) => return Err(e),
        };
        match batch_str(&arr, 2, op) {
            Ok(event_type) => Ok(BatchOp::SetEventListener { id, event_type, has_handler }),
            Err(e) => Err(e),
        }
    } else if chars_eq(n, "setRoot") {
        match batch_id(&arr, 1, op) {
            Ok(id) => Ok(BatchOp::SetRoot { id }),
            Err(e) => Err(e),
        }
    } else if chars_eq(n, "setCustomProp") || chars_eq(n, "setCustomPropValue") {
        let id = match batch_id(&arr, 1, op) {
            Ok(id) => id,
            Err(e) => return Err(e),
        };
        let key = match batch_str(&arr, 2, op) {
            Ok(s) => s,
            Err(e) => return Err(e),
        };
        if chars_eq(n, "setCustomProp") {
            match batch_payload(&mut arr, 3, op) {
                Ok(value) => Ok(BatchOp::SetCustomProp { id, key, value }),
                Err(e) => Err(e),
            }
        } else if 3 < arr.len() {
            let value = take_at(&mut arr, 3);
            Ok(BatchOp::SetCustomProp { id, key, value })
        } else {
            Err(BatchError::MissingCustomPropValue { op })
        }
    } else {
        Err(BatchError::UnknownOperation { op, name })
    }
}

/// Parse all batch ops into typed operations. Returns the error of the first
/// invalid op, so nothing is applied from a batch that is not valid whole.
pub fn parse_batch_ops<S, D: Fn(&Json) -> Result<S, String>>(ops: Vec<Json>, decode_style: &D) -> (r: Result<Vec<BatchOp<S>>, BatchError>)
    requires
        is_style_decoder::<S, D>(*decode_style),
    ensures
        match r {
            Ok(parsed) => parse_ops(ops@, decoded::<S, D>(*decode_style)) == Ok::<Seq<BatchOp<S>>, BatchError>(parsed@),
            Err(e) => parse_ops(ops@, decoded::<S, D>(*decode_style)) == Err::<Seq<BatchOp<S>>, BatchError>(e),
        },
{
    let ghost all = ops@;
    let count = ops.len();
    let ghost style = decoded::<S, D>(*decode_style);
    let mut parsed: Vec<BatchOp<S>> = Vec::new();
    let mut i: usize = 0;
    for op in it: ops
        invariant
            it.seq() == all,
            i == it.index(),
            all.len() == count,
            i <= count,
            style == decoded::<S, D>(*decode_style),
            is_style_decoder::<S, D>(*decode_style),
            parse_ops(all.take(i as int), style) == Ok::<Seq<BatchOp<S>>, BatchError>(parsed@),
    {
        proof {
            assert(all.take(i + 1).drop_last() =~= all.take(i as int));
            assert(all.take(i + 1).last() == op);
        }
        match parse_one(op, i, decode_style) {
            Ok(parsed_op) => {
                parsed.push(parsed_op);
            },
            Err(e) => {
                proof {
                    lemma_parse_ops_prefix_error(all, (i + 1) as int, style);
                }
                return Err(e);
            },
        }
        i += 1;
    }
    assert(all.take(all.len() as int) =~= all);
    Ok(parsed)
}

/// An error in a prefix is the error of the whole batch.
pub proof fn lemma_parse_ops_prefix_error<S>(ops: Seq<Json>, k: int, style: spec_fn(Json) -> Result<S, String>)
    requires
        0 <= k <= ops.len(),
        parse_ops(ops.take(k), style) is Err,
    ensures
        parse_ops(ops, style) == parse_ops(ops.take(k), style),
    decreases ops.len() - k,
{
    if k < ops.len() {
        assert(ops.take(k + 1).drop_last() =~= ops.take(k));
        lemma_parse_ops_prefix_error(ops, k + 1, style);
    } else {
        assert(ops.take(k) =~= ops);
    }
}

/// A batch is all or nothing: it parses exactly when every op in it parses,
/// each op to what it parses to on its own; otherwise the error is that of
/// the first op that fails, so no op of a bad batch is ever applied.
pub proof fn lemma_batch_all_or_nothing<S>(ops: Seq<Json>, style: spec_fn(Json) -> Result<S, String>)
    ensures
        parse_ops(ops, style) is Ok <==> forall|i: int| 0 <= i < ops.len() ==> #[trigger] parse_op(ops[i], i as usize, style) is Ok,
        parse_ops(ops, style) matches Ok(p) ==> p.len() == ops.len() && forall|i: int| 0 <= i < ops.len()
            ==> parse_op(ops[i], i as usize, style) == Ok::<BatchOp<S>, BatchError>(#[trigger] p[i]),
        parse_ops(ops, style) matches Err(e) ==> exists|k: int| #![trigger parse_op(ops[k], k as usize, style)]
            0 <= k < ops.len() && parse_op(ops[k], k as usize, style) == Err::<BatchOp<S>, BatchError>(e)
            && forall|j: int| 0 <= j < k ==> #[trigger] parse_op(ops[j], j as usize, style) is Ok,
    decreases ops.len(),
{
    if ops.len() > 0 {
        let init = ops.drop_last();
        let last = (ops.len() - 1) as int;
        lemma_batch_all_or_nothing(init, style);
        assert forall|i: int| 0 <= i < init.len() implies init[i] == ops[i] by {}
        match parse_ops(init, style) {
            Err(e) => {
                let k = choose|k: int| #![trigger parse_op(init[k], k as usize, style)]
                    0 <= k < init.len() && parse_op(init[k], k as usize, style) == Err::<BatchOp<S>, BatchError>(e)
                    && forall|j: int| 0 <= j < k ==> #[trigger] parse_op(init[j], j as usize, style) is Ok;
                assert(init[k] == ops[k]);
                assert(parse_op(ops[k], k as usize, style) is Err);
                assert forall|j: int| 0 <= j < k implies #[trigger] parse_op(ops[j], j as usize, style) is Ok by {
                    assert(init[j] == ops[j]);
                    assert(parse_op(init[j], j as usize, style) is Ok);
                }
            },
            Ok(p) => {
                match parse_op(ops[last], last as usize, style) {
                    Err(e) => {
                        assert(parse_op(ops[last], last as usize, style) is Err);
                        assert forall|j: int| 0 <= j < last implies #[trigger] parse_op(ops[j], j as usize, style) is Ok by {
                            assert(init[j] == ops[j]);
                            assert(parse_op(init[j], j as usize, style) is Ok);
                        }
                    },
                    Ok(o) => {
                        assert forall|i: int| 0 <= i < ops.len() implies #[trigger] parse_op(ops[i], i as usize, style) is Ok by {
                            if i < last {
                                assert(init[i] == ops[i]);
                                assert(parse_op(init[i], i as usize, style) is Ok);
                            }
                        }
                        let q = p.push(o);
                        assert forall|i: int| 0 <= i < ops.len()
                            implies parse_op(ops[i], i as usize, style) == Ok::<BatchOp<S>, BatchError>(#[trigger] q[i]) by {
                            if i < last {
                                assert(init[i] == ops[i]);
                                assert(parse_op(init[i], i as usize, style) == Ok::<BatchOp<S>, BatchError>(p[i]));
                            }
                        }
                    },
                }
            },
        }
    }
}

/// The op names of the protocol are pairwise different.
proof fn lemma_op_names_distinct()
    ensures
        "createElement"@.len() == 13 && "destroyElement"@.len() == 14 && "appendChild"@.len() == 11
            && "removeChild"@.len() == 11 && "insertBefore"@.len() == 12 && "setStyle"@.len() == 8
            && "setText"@.len() == 7 && "setEventListener"@.len() == 16 && "setRoot"@.len() == 7
            && "setCustomProp"@.len() == 13 && "setCustomPropValue"@.len() == 18,
        "appendChild"@ != "removeChild"@,
        "setText"@ != "setRoot"@,
        "createElement"@ != "setCustomProp"@,
{
    reveal_strlit("createElement");
    reveal_strlit("destroyElement");
    reveal_strlit("appendChild");
    reveal_strlit("removeChild");
    reveal_strlit("insertBefore");
    reveal_strlit("setStyle");
    reveal_strlit("setText");
    reveal_strlit("setEventListener");
    reveal_strlit("setRoot");
    reveal_strlit("setCustomProp");
    reveal_strlit("setCustomPropValue");
    assert("appendChild"@[0] != "removeChild"@[0]);
    assert("setText"@[3] != "setRoot"@[3]);
    assert("createElement"@[0] != "setCustomProp"@[0]);
}

/// Whether argument `k` of an op named `name` is an element id.
pub open spec fn is_id_position(name: Seq<char>, k: int) -> bool {
    ||| k == 1 && (name == "createElement"@ || name == "destroyElement"@ || name == "appendChild"@
        || name == "removeChild"@ || name == "insertBefore"@ || name == "setStyle"@ || name == "setText"@
        || name == "setEventListener"@ || name == "setRoot"@ || name == "setCustomProp"@
        || name == "setCustomPropValue"@)
    ||| k == 2 && (name == "appendChild"@ || name == "removeChild"@ || name == "insertBefore"@)
    ||| k == 3 && name == "insertBefore"@
}

/// A number that is not a valid element id, in any id position of any op,
/// rejects that op, whatever else the op holds.
pub proof fn lemma_invalid_id_rejected<S>(arr: Vec<Json>, op: usize, k: int, style: spec_fn(Json) -> Result<S, String>)
    requires
        arr@.len() > 0,
        arr@[0] is String,
        is_id_position(arr@[0]->String_0@, k),
        k < arr@.len(),
        as_f64(arr@[k]) matches Some(f) && element_id(f) is None,
    ensures
        parse_op(Json::Array(arr), op, style) is Err,
{
    lemma_op_names_distinct();
    let a = arr@;
    if k == 1 {
        assert(id_at(a, 1, op) is Err);
    } else if k == 2 {
        assert(id_at(a, 2, op) is Err);
    } else {
        assert(id_at(a, 3, op) is Err);
    }
}

/// `setCustomPropValue` takes whatever JSON stands at index 3 as the value,
/// `null` included, unchanged; it fails for want of a value only when the
/// tuple ends before index 3.
pub proof fn lemma_custom_prop_value_taken_as_is<S>(
    arr: Vec<Json>,
    op: usize,
    style: spec_fn(Json) -> Result<S, String>,
    id: u64,
    key: String,
)
    requires
        arr@.len() > 2,
        arr@[0] is String && arr@[0]->String_0@ == "setCustomPropValue"@,
        as_f64(arr@[1]) matches Some(f) && element_id(f) == Some(id),
        arr@[2] == Json::String(key),
    ensures
        arr@.len() > 3 ==> parse_op(Json::Array(arr), op, style) == Ok::<BatchOp<S>, BatchError>(
            BatchOp::SetCustomProp { id, key, value: arr@[3] }),
        arr@.len() == 3 ==> parse_op(Json::Array(arr), op, style) == Err::<BatchOp<S>, BatchError>(
            BatchError::MissingCustomPropValue { op }),
{
    lemma_op_names_distinct();
}

/// Parse a batch given as JSON text: the text must be a JSON array of ops.
pub fn parse_batch<S, D: Fn(&Json) -> Result<S, String>>(json: &str, decode_style: &D) -> (r: Result<Vec<BatchOp<S>>, BatchError>)
    requires
        is_style_decoder::<S, D>(*decode_style),
    ensures
        is_batch_outcome(json@, decoded::<S, D>(*decode_style), match r {
            Ok(parsed) => Ok(parsed@),
            Err(e) => Err(e),
        }),
{
    match parse_json_text(json) {
        Ok(Json::Array(ops)) => parse_batch_ops(ops, decode_style),
        Ok(_) => Err(BatchError::Malformed),
        Err(reason) => Err(BatchError::InvalidJson { reason }),
    }
}

} // verus!
