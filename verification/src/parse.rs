//! Reading JSON text with `serde_json`.
//!
//! Nothing in this module is proved. The two functions here are the only
//! places where the crate calls into `serde_json`: one has a text parsed, the
//! other copies the value that came back into a tree of the crate's own. All
//! that is claimed of either is that its result depends on its argument
//! alone.

use crate::json::{Json, Member};
use vstd::prelude::*;

verus! {

/// A JSON value of `serde_json`. The verifier sees nothing inside it.
#[verifier::external_type_specification]
#[verifier::external_body]
pub struct ExValue(serde_json::Value);

/// The error of `serde_json`. The verifier sees nothing inside it.
#[verifier::external_type_specification]
#[verifier::external_body]
pub struct ExError(serde_json::Error);

/// What a value of `serde_json` holds: null, a boolean, a number as the
/// text that its `Display` writes, a string, the elements of an array, or
/// the entries of an object in the order in which its map walks them.
pub uninterp spec fn tree_of(value: serde_json::Value) -> Json;

/// What `serde_json::from_str` makes of a text, as a tree: nothing where
/// the text is not one JSON document.
pub uninterp spec fn parsed_tree(text: Seq<char>) -> Option<Json>;

/// Calls `serde_json::from_str` for a `Value`. Claims that the outcome
/// depends on the text alone: whether the text is a JSON document, and what
/// the value holds where it is.
#[verifier::external_body]
pub(crate) fn parse_value(text: &str) -> (r: Result<serde_json::Value, serde_json::Error>)
    ensures
        match r {
            Ok(value) => parsed_tree(text@) == Some(tree_of(value)),
            Err(_) => parsed_tree(text@) is None,
        },
{
    serde_json::from_str::<serde_json::Value>(text)
}

/// Copies a value of `serde_json` into a tree, variant for variant: a
/// number through its `Display`, an array through its elements, an object
/// through `Map::iter`. Claims that the tree depends on the value alone.
#[verifier::external_body]
pub(crate) fn copy_tree(value: &serde_json::Value) -> (tree: Json)
    ensures
        tree == tree_of(*value),
{
    match value {
        serde_json::Value::Null => Json::Null,
        serde_json::Value::Bool(b) => Json::Bool(*b),
        serde_json::Value::Number(n) => Json::Number(n.to_string()),
        serde_json::Value::String(s) => Json::Text(s.clone()),
        serde_json::Value::Array(a) => Json::Array(a.iter().map(copy_tree).collect()),
        serde_json::Value::Object(m) => Json::Object(
            m.iter().map(|(k, v)| Member { key: k.clone(), value: copy_tree(v) }).collect(),
        ),
    }
}

} // verus!
