//! JSON documents as plain data.

use vstd::prelude::*;
use crate::text::same_text;

verus! {

/// A JSON document. Object entries keep the order in which the parser hands them out.
#[derive(Debug)]
pub enum Json {
    Null,
    Bool(bool),
    /// A number without sign, fraction or exponent.
    Unsigned(u64),
    /// A negative number without fraction or exponent.
    Negative(i64),
    /// Any other number.
    Fraction,
    Text(String),
    List(Vec<Json>),
    Object(Vec<(String, Json)>),
}

/// What a JSON document says.
pub enum JsonTree {
    Null,
    Bool(bool),
    Unsigned(u64),
    Negative(i64),
    Fraction,
    Text(Seq<char>),
    List(Seq<JsonTree>),
    Object(Seq<(Seq<char>, JsonTree)>),
}

impl Json {
    /// What the document says.
    pub open spec fn tree(self) -> JsonTree
        decreases self,
    {
        match self {
            Json::Null => JsonTree::Null,
            Json::Bool(value) => JsonTree::Bool(value),
            Json::Unsigned(value) => JsonTree::Unsigned(value),
            Json::Negative(value) => JsonTree::Negative(value),
            Json::Fraction => JsonTree::Fraction,
            Json::Text(value) => JsonTree::Text(value@),
            Json::List(items) => JsonTree::List(
                Seq::new(
                    items@.len(),
                    |i: int|
                        if 0 <= i < items@.len() {
                            items@[i].tree()
                        } else {
                            JsonTree::Null
                        },
                ),
            ),
            Json::Object(entries) => JsonTree::Object(
                Seq::new(
                    entries@.len(),
                    |i: int|
                        if 0 <= i < entries@.len() {
                            (entries@[i].0@, entries@[i].1.tree())
                        } else {
                            (Seq::empty(), JsonTree::Null)
                        },
                ),
            ),
        }
    }
}

/// The parser's own document type.
#[verifier::external_type_specification]
#[verifier::external_body]
pub struct ExValue(serde_json::Value);

/// The parser's error type.
#[verifier::external_type_specification]
#[verifier::external_body]
pub struct ExError(serde_json::Error);

/// What a document of the parser says.
pub uninterp spec fn value_tree(value: serde_json::Value) -> JsonTree;

/// What a text says as JSON, if it is JSON.
pub uninterp spec fn json_of_text(text: Seq<char>) -> Option<JsonTree>;

/// Calls `serde_json::from_str`. Claims that it accepts exactly the texts that are JSON and returns
/// what they say.
#[verifier::external_body]
fn read_value(text: &str) -> (result: Result<serde_json::Value, serde_json::Error>)
    ensures
        match result {
            Ok(value) => json_of_text(text@) == Some(value_tree(value)),
            Err(_) => json_of_text(text@) is None,
        },
{
    serde_json::from_str(text)
}

/// Takes a `serde_json::Value` apart, variant by variant, with `Number::as_u64` and
/// `Number::as_i64` for numbers. Claims that the result says what the value says.
#[verifier::external_body]
fn json_of_value(value: serde_json::Value) -> (json: Json)
    ensures
        json.tree() == value_tree(value),
{
    match value {
        serde_json::Value::Null => Json::Null,
        serde_json::Value::Bool(value) => Json::Bool(value),
        serde_json::Value::Number(number) => match (number.as_u64(), number.as_i64()) {
            (Some(value), _) => Json::Unsigned(value),
            (None, Some(value)) => Json::Negative(value),
            (None, None) => Json::Fraction,
        },
        serde_json::Value::String(value) => Json::Text(value),
        serde_json::Value::Array(items) => Json::List(items.into_iter().map(json_of_value).collect()),
        serde_json::Value::Object(entries) => Json::Object(
            entries.into_iter().map(|entry| (entry.0, json_of_value(entry.1))).collect(),
        ),
    }
}

/// Reads a text as JSON.
pub fn parse_json(text: &str) -> (json: Option<Json>)
    ensures
        match json {
            Some(json) => json_of_text(text@) == Some(json.tree()),
            None => json_of_text(text@) is None,
        },
{
    match read_value(text) {
        Ok(value) => Some(json_of_value(value)),
        Err(_) => None,
    }
}

impl JsonTree {
    /// The entry of an object under `key`; of several the first.
    pub open spec fn get(self, key: Seq<char>) -> Option<JsonTree> {
        match self {
            JsonTree::Object(entries) => entry_under(entries, key),
            _ => None,
        }
    }

    /// The value of an integer that fits a signed integer of the machine.
    pub open spec fn integer(self) -> Option<i64> {
        match self {
            JsonTree::Unsigned(value) => if value <= i64::MAX {
                Some(value as i64)
            } else {
                None
            },
            JsonTree::Negative(value) => Some(value),
            _ => None,
        }
    }

    pub open spec fn text(self) -> Option<Seq<char>> {
        match self {
            JsonTree::Text(value) => Some(value),
            _ => None,
        }
    }
}

/// The first entry under `key`.
pub open spec fn entry_under(entries: Seq<(Seq<char>, JsonTree)>, key: Seq<char>) -> Option<JsonTree>
    decreases entries.len(),
{
    if entries.len() == 0 {
        None
    } else if entries[0].0 == key {
        Some(entries[0].1)
    } else {
        entry_under(entries.skip(1), key)
    }
}

impl Json {
    /// The entry of an object under `key`.
    pub fn get(&self, key: &str) -> (found: Option<&Json>)
        ensures
            match found {
                Some(json) => self.tree().get(key@) == Some(json.tree()),
                None => self.tree().get(key@) is None,
            },
    {
        let entries: &Vec<(String, Json)> = match self {
            Json::Object(entries) => entries,
            _ => {
                return None;
            },
        };
        let ghost tree = self.tree()->Object_0;
        let mut index: usize = 0;
        assert(tree.skip(0) == tree);
        while index < entries.len()
            invariant
                index <= entries@.len(),
                self == Json::Object(*entries),
                tree == self.tree()->Object_0,
                tree.len() == entries@.len(),
                entry_under(tree.skip(index as int), key@) == entry_under(tree, key@),
            decreases entries@.len() - index,
        {
            proof {
                assert(tree.skip(index as int)[0] == tree[index as int]);
                assert(tree[index as int] == (
                    entries@[index as int].0@,
                    entries@[index as int].1.tree(),
                ));
                assert(tree.skip(index as int).skip(1) == tree.skip(index + 1));
            }
            if same_text(entries[index].0.as_str(), key) {
                return Some(&entries[index].1);
            }
            index = index + 1;
        }
        None
    }

    /// The value of an integer that fits a signed integer of the machine.
    pub fn as_i64(&self) -> (value: Option<i64>)
        ensures
            value == self.tree().integer(),
    {
        match self {
            Json::Unsigned(value) => if *value <= i64::MAX as u64 {
                Some(*value as i64)
            } else {
                None
            },
            Json::Negative(value) => Some(*value),
            _ => None,
        }
    }

    pub fn as_str(&self) -> (value: Option<&str>)
        ensures
            match value {
                Some(value) => self.tree().text() == Some(value@),
                None => self.tree().text() is None,
            },
    {
        match self {
            Json::Text(value) => Some(value.as_str()),
            _ => None,
        }
    }

    pub fn is_object(&self) -> (object: bool)
        ensures
            object == self.tree() is Object,
    {
        match self {
            Json::Object(_) => true,
            _ => false,
        }
    }
}

} // verus!
