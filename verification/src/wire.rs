//! The wire protocol: one structured record per line of the worker's output.
//!
//! A line is parsed as a JSON object with the optional fields `id`, `result`,
//! `error`, `event` and `data`. Payload fields (`result`, `data`) are kept as
//! opaque JSON text; `error` and `event` must be JSON strings; `id` must be an
//! unsigned integer. A line that does not parse as JSON yields no message.
use vstd::prelude::*;

verus! {

/// A decoded record from the worker's output stream, before classification.
#[derive(Debug, Clone, PartialEq, Eq)]
pub struct WireMessage {
    /// Correlation identifier, when the record answers a request.
    pub id: Option<u64>,
    /// Success payload, as the JSON text of the field's value.
    pub result: Option<String>,
    /// Failure description, present only when the field is a JSON string.
    pub error: Option<String>,
    /// Name of an unsolicited notification, present only when a JSON string.
    pub event: Option<String>,
    /// Event payload, as the JSON text of the field's value.
    pub data: Option<String>,
}

/// Mathematical model of a `WireMessage`.
pub ghost struct WireView {
    pub id: Option<u64>,
    pub result: Option<Seq<char>>,
    pub error: Option<Seq<char>>,
    pub event: Option<Seq<char>>,
    pub data: Option<Seq<char>>,
}

/// Model of an optional owned string.
pub open spec fn view_opt_str(o: Option<String>) -> Option<Seq<char>> {
    match o {
        Some(s) => Some(s@),
        None => None,
    }
}

impl View for WireMessage {
    type V = WireView;

    open spec fn view(&self) -> WireView {
        WireView {
            id: self.id,
            result: view_opt_str(self.result),
            error: view_opt_str(self.error),
            event: view_opt_str(self.event),
            data: view_opt_str(self.data),
        }
    }
}

#[verifier::external_type_specification]
#[verifier::external_body]
pub struct ExJsonValue(serde_json::Value);

/// The JSON tree that a line of text parses to, or `None` when the text is
/// not well-formed JSON. Parsing is a function of the text alone.
pub uninterp spec fn json_tree(s: Seq<char>) -> Option<serde_json::Value>;

/// The member of a JSON object under a key, or `None` when the tree is not
/// an object or lacks the key.
pub uninterp spec fn tree_field(v: serde_json::Value, key: Seq<char>) -> Option<serde_json::Value>;

/// The value of a JSON tree that is an unsigned integer in range.
pub uninterp spec fn tree_u64(v: serde_json::Value) -> Option<u64>;

/// The characters of a JSON tree that is a string.
pub uninterp spec fn tree_str(v: serde_json::Value) -> Option<Seq<char>>;

/// The compact JSON text that renders a tree; a function of the tree alone.
pub uninterp spec fn tree_text(v: serde_json::Value) -> Seq<char>;

/// Relies on serde_json::from_str::<Value>: parses one line of text as a
/// JSON document, failing exactly when the text is not well-formed JSON.
#[verifier::external_body]
fn parse_json(line: &str) -> (r: Option<serde_json::Value>)
    ensures
        r == json_tree(line@),
{
    match serde_json::from_str::<serde_json::Value>(line) {
        Ok(v) => Some(v),
        Err(_) => None,
    }
}

/// Relies on serde_json::Value::get: looks a key up in a JSON object,
/// returning `None` when the value is not an object or has no such member.
#[verifier::external_body]
fn get_field(v: &serde_json::Value, key: &str) -> (r: Option<serde_json::Value>)
    ensures
        r == tree_field(*v, key@),
{
    v.get(key).cloned()
}

/// Relies on serde_json::Value::as_u64: the integer value of a JSON number
/// that is a non-negative integer in range, `None` otherwise.
#[verifier::external_body]
fn field_u64(v: &serde_json::Value) -> (r: Option<u64>)
    ensures
        r == tree_u64(*v),
{
    v.as_u64()
}

/// Relies on serde_json::Value::as_str: the characters of a JSON string,
/// `None` when the value is not a string.
#[verifier::external_body]
fn field_str(v: &serde_json::Value) -> (r: Option<String>)
    ensures
        view_opt_str(r) == tree_str(*v),
{
    match v.as_str() {
        Some(s) => Some(s.to_owned()),
        None => None,
    }
}

/// Relies on serde_json's Display impl for Value: renders the compact JSON
/// text of a value, a function of the value alone.
#[verifier::external_body]
fn field_text(v: &serde_json::Value) -> (r: String)
    ensures
        r@ == tree_text(*v),
{
    v.to_string()
}

/// Model of an optional field read as opaque JSON text.
pub open spec fn field_as_text(f: Option<serde_json::Value>) -> Option<Seq<char>> {
    match f {
        Some(v) => Some(tree_text(v)),
        None => None,
    }
}

/// Model of an optional field read as a JSON string.
pub open spec fn field_as_str(f: Option<serde_json::Value>) -> Option<Seq<char>> {
    match f {
        Some(v) => tree_str(v),
        None => None,
    }
}

/// Model of an optional field read as an unsigned integer.
pub open spec fn field_as_u64(f: Option<serde_json::Value>) -> Option<u64> {
    match f {
        Some(v) => tree_u64(v),
        None => None,
    }
}

/// What one line of worker output decodes to: `None` for text that is not
/// well-formed JSON, otherwise the record read from the parsed tree.
pub open spec fn spec_decode(line: Seq<char>) -> Option<WireView> {
    match json_tree(line) {
        None => None,
        Some(v) => Some(
            WireView {
                id: field_as_u64(tree_field(v, "id"@)),
                result: field_as_text(tree_field(v, "result"@)),
                error: field_as_str(tree_field(v, "error"@)),
                event: field_as_str(tree_field(v, "event"@)),
                data: field_as_text(tree_field(v, "data"@)),
            },
        ),
    }
}

/// Model of an optional decoded record.
pub open spec fn view_opt_wire(o: Option<WireMessage>) -> Option<WireView> {
    match o {
        Some(w) => Some(w@),
        None => None,
    }
}

/// Decodes one line of worker output, or reports that the line is malformed.
pub fn decode_line(line: &str) -> (r: Option<WireMessage>)
    ensures
        view_opt_wire(r) == spec_decode(line@),
{
    match parse_json(line) {
        None => None,
        Some(v) => {
            let id = match get_field(&v, "id") {
                Some(f) => field_u64(&f),
                None => None,
            };
            let result = match get_field(&v, "result") {
                Some(f) => Some(field_text(&f)),
                None => None,
            };
            let error = match get_field(&v, "error") {
                Some(f) => field_str(&f),
                None => None,
            };
            let event = match get_field(&v, "event") {
                Some(f) => field_str(&f),
                None => None,
            };
            let data = match get_field(&v, "data") {
                Some(f) => Some(field_text(&f)),
                None => None,
            };
            Some(WireMessage { id, result, error, event, data })
        },
    }
}

} // verus!
