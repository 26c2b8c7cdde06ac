//! JSON values, as far as they are read.

use serde_json::Value;
use vstd::prelude::*;
use vstd::string::*;

verus! {

/// What is read of a JSON value: texts, and objects with their entries in the order in
/// which the map is walked.
#[verifier::ext_equal]
pub enum Tree {
    Text(Seq<char>),
    Object(Seq<Entry>),
    Other,
}

/// An entry of an object.
#[verifier::ext_equal]
pub struct Entry {
    pub key: Seq<char>,
    pub value: Tree,
}

/// `serde_json::Value`: a JSON value.
#[verifier::external_type_specification]
#[verifier::external_body]
pub struct ExValue(Value);

/// What a value holds.
pub uninterp spec fn tree_of(value: Value) -> Tree;

/// The value of the entry with a key.
pub open spec fn entry_value(entries: Seq<Entry>, key: Seq<char>) -> Option<Tree>
    decreases entries.len(),
{
    if entries.len() == 0 {
        None
    } else if entries[0].key == key {
        Some(entries[0].value)
    } else {
        entry_value(entries.skip(1), key)
    }
}

/// The value that an object has for a key; other values have none.
pub open spec fn member(tree: Tree, key: Seq<char>) -> Option<Tree> {
    match tree {
        Tree::Object(entries) => entry_value(entries, key),
        _ => None,
    }
}

/// The text that a value is.
pub open spec fn text_of(tree: Tree) -> Option<Seq<char>> {
    match tree {
        Tree::Text(text) => Some(text),
        _ => None,
    }
}

/// What a value that may be missing holds.
pub open spec fn maybe_tree(value: Option<&Value>) -> Option<Tree> {
    match value {
        Some(value) => Some(tree_of(*value)),
        None => None,
    }
}

/// The value that a JSON text stands for, if it is one.
pub uninterp spec fn json_of_text(text: Seq<char>) -> Option<Tree>;

/// Calls `serde_json::from_str` for a `Value`; `json_of_text` names what it parses, none
/// where it returns an error.
#[verifier::external_body]
pub(crate) fn parse_text(text: &str) -> (r: Option<Value>)
    ensures
        match r {
            Some(value) => json_of_text(text@) == Some(tree_of(value)),
            None => json_of_text(text@) is None,
        },
{
    serde_json::from_str(text).ok()
}

/// The value that JSON bytes stand for, or the message of the parser.
pub uninterp spec fn json_of_bytes(bytes: Seq<u8>) -> Result<Tree, Seq<char>>;

/// Calls `serde_json::from_slice` for a `Value`; `json_of_bytes` names what it parses,
/// with the text of the error where it returns one.
#[verifier::external_body]
pub(crate) fn parse_bytes(bytes: &[u8]) -> (r: Result<Value, String>)
    ensures
        match r {
            Ok(value) => json_of_bytes(bytes@) == Ok::<Tree, Seq<char>>(tree_of(value)),
            Err(error) => json_of_bytes(bytes@) == Err::<Tree, Seq<char>>(error@),
        },
{
    serde_json::from_slice(bytes).map_err(|error| error.to_string())
}

/// Calls `serde_json::Value::get` with a text: the value of that key of an object, and
/// nothing for any other value.
#[verifier::external_body]
pub(crate) fn get<'a>(value: &'a Value, key: &str) -> (r: Option<&'a Value>)
    ensures
        maybe_tree(r) == member(tree_of(*value), key@),
{
    value.get(key)
}

/// Calls `serde_json::Value::as_str`: the text that a value is.
#[verifier::external_body]
pub(crate) fn as_text(value: &Value) -> (r: Option<&str>)
    ensures
        match r {
            Some(text) => text_of(tree_of(*value)) == Some(text@),
            None => text_of(tree_of(*value)) is None,
        },
{
    value.as_str()
}

/// Calls `serde_json::Value::as_object` and `serde_json::Map::values`: the values of an
/// object in the order in which the map is walked.
#[verifier::external_body]
pub(crate) fn children(value: &Value) -> (r: Option<Vec<&Value>>)
    ensures
        match (r, tree_of(*value)) {
            (Some(values), Tree::Object(entries)) => values@.len() == entries.len() && forall|
                i: int,
            |
                0 <= i < entries.len() ==> tree_of(*#[trigger] values@[i]) == entries[i].value,
            (Some(_), _) => false,
            (None, Tree::Object(_)) => false,
            (None, _) => true,
        },
{
    value.as_object().map(|map| map.values().collect())
}

/// A JSON value.
pub struct Json {
    pub value: Value,
}

impl DeepView for Json {
    type V = Tree;

    open spec fn deep_view(&self) -> Tree {
        tree_of(self.value)
    }
}

} // verus!
