//! The boundary between JSON text and the value tree.
//!
//! Parsing and printing of JSON text are done by an outside parser behind
//! the two trusted functions below; everything either side of them works
//! on [`JsonValue`] trees and is verified. What the parser returns for a
//! given text is named, not restated: [`parsed_json`] and [`printed_json`]
//! stand for the parse and the print, each a function of its argument
//! alone.

use vstd::prelude::*;

use crate::json::{JsonSpec, JsonValue, wf_json};

verus! {

/// The JSON tree that a text parses to, if it is well-formed JSON.
pub uninterp spec fn parsed_json(s: Seq<char>) -> Option<JsonSpec>;

/// The JSON text that a tree prints to.
pub uninterp spec fn printed_json(j: JsonSpec) -> Seq<char>;

#[verifier::external_type_specification]
#[verifier::external_body]
pub struct ExJsonText(serde_json::Value);

/// Relies on `serde_json::Value`: carries the parsed tree over into the
/// library's form, one variant each; a number keeps its decimal text, and
/// a map hands its fields out in ascending key order.
#[verifier::external_body]
fn value_to_tree(v: serde_json::Value) -> JsonValue {
    match v {
        serde_json::Value::Null => JsonValue::Null,
        serde_json::Value::Bool(b) => JsonValue::Bool(b),
        serde_json::Value::Number(n) => JsonValue::Num(n.to_string()),
        serde_json::Value::String(s) => JsonValue::Str(s),
        serde_json::Value::Array(a) => JsonValue::Arr(a.into_iter().map(value_to_tree).collect()),
        serde_json::Value::Object(m) => JsonValue::Obj(
            m.into_iter().map(|(k, x)| crate::json::JsonField { key: k, value: value_to_tree(x) }).collect(),
        ),
    }
}

/// Relies on `serde_json::Value`: the library's tree carried back, one
/// variant each; a number's decimal text is parsed back, and one that is
/// no number serializes as null.
#[verifier::external_body]
fn tree_to_value(v: &JsonValue) -> serde_json::Value {
    match v {
        JsonValue::Null => serde_json::Value::Null,
        JsonValue::Bool(b) => serde_json::Value::Bool(*b),
        JsonValue::Num(s) => match s.parse::<serde_json::Number>() {
            Ok(n) => serde_json::Value::Number(n),
            Err(_) => serde_json::Value::Null,
        },
        JsonValue::Str(s) => serde_json::Value::String(s.clone()),
        JsonValue::Arr(a) => serde_json::Value::Array(a.iter().map(tree_to_value).collect()),
        JsonValue::Obj(o) => serde_json::Value::Object(
            o.iter().map(|f| (f.key.clone(), tree_to_value(&f.value))).collect(),
    ),
    }
}

/// Relies on `serde_json::from_str`: parses JSON text, or fails on
/// malformed text. The returned tree is well-formed: `serde_json`'s maps
/// are ordered by key, with one entry per key.
#[verifier::external_body]
pub fn parse_json_text(s: &str) -> (r: Option<JsonValue>)
    ensures
        r matches Some(v) ==> parsed_json(s@) == Some(v.model()) && wf_json(v.model()),
        r is None ==> parsed_json(s@) is None,
{
    match serde_json::from_str::<serde_json::Value>(s) {
        Ok(v) => Some(value_to_tree(v)),
        Err(_) => None,
    }
}

/// Relies on `serde_json::to_string`: prints a value tree as JSON text;
/// printing a tree of plain values does not fail.
#[verifier::external_body]
pub fn render_json_text(v: &JsonValue) -> (r: String)
    ensures
        r@ == printed_json(v.model()),
{
    match serde_json::to_string(&tree_to_value(v)) {
        Ok(s) => s,
        Err(_) => String::new(),
    }
}

} // verus!
