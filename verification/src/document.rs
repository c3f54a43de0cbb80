//! Reading JSON text into the document model.

use vstd::prelude::*;
use vstd::string::StringExecFns;
use crate::json::{
    keys_unique,
    lemma_child_depth,
    JsonNumber,
    JsonTree,
    JsonValue,
    NestingTooDeep,
    NumberModel,
    MAX_DEPTH,
};

verus! {

/// serde_json's `Value`, carried as it is; nothing inside it is seen.
#[verifier::external_type_specification]
#[verifier::external_body]
pub struct ExValue(serde_json::Value);

/// serde_json's `Error`, carried as it is; nothing inside it is seen.
#[verifier::external_type_specification]
#[verifier::external_body]
pub struct ExJsonError(serde_json::Error);

/// The tree that a value of the JSON reader holds.
pub uninterp spec fn value_tree(value: serde_json::Value) -> JsonTree;

/// The tree that the JSON reader makes of `text`; `None` where it refuses
/// the text.
pub uninterp spec fn parsed_json(text: Seq<char>) -> Option<JsonTree>;

/// One level of a value of the JSON reader: a scalar as plain values, an
/// array or an object as the list of what it holds.
enum Opened<'a> {
    Null,
    Bool(bool),
    Number { unsigned: Option<u64>, signed: Option<i64>, text: String },
    Text(String),
    Array(Vec<&'a serde_json::Value>),
    Object(Vec<(String, &'a serde_json::Value)>),
}

/// Whether `opened` shows the top level of `tree`.
spec fn shows(opened: Opened<'_>, tree: JsonTree) -> bool {
    match opened {
        Opened::Null => tree is Null,
        Opened::Bool(b) => tree == JsonTree::Bool(b),
        Opened::Number { unsigned, signed, text } => {
            &&& tree matches JsonTree::Number(number)
            &&& unsigned == number.as_u64()
            &&& signed == number.as_i64()
            &&& number matches NumberModel::Real(digits) ==> text@ == digits
        },
        Opened::Text(text) => tree == JsonTree::Text(text@),
        Opened::Array(items) => {
            &&& tree matches JsonTree::Array(trees)
            &&& trees.len() == items.len()
            &&& forall|i: int| 0 <= i < items.len() ==> value_tree(*items[i]) == #[trigger] trees[i]
        },
        Opened::Object(entries) => {
            &&& tree matches JsonTree::Object(pairs)
            &&& pairs.len() == entries.len()
            &&& forall|i: int|
                0 <= i < entries.len() ==> (#[trigger] pairs[i]).0 == entries[i].0@
                    && pairs[i].1 == value_tree(*entries[i].1)
            &&& forall|i: int, j: int|
                0 <= i < j < pairs.len() ==> (#[trigger] pairs[i]).0 != (#[trigger] pairs[j]).0
        },
    }
}

/// Calls serde_json's `from_str` for a `Value`.
///
/// Believed of serde_json, not proved: whether the text is accepted, and
/// the tree of the value that comes back, depend on the text alone.
#[verifier::external_body]
fn parse_value(text: &str) -> (r: Result<serde_json::Value, serde_json::Error>)
    ensures
        r is Ok == parsed_json(text@) is Some,
        r matches Ok(value) ==> parsed_json(text@) == Some(value_tree(value)),
{
    serde_json::from_str(text)
}

/// Tells the variants of serde_json's `Value` apart and hands out what the
/// value holds at its top level.
///
/// Believed of serde_json, not proved: a number is handed out as what
/// `Number::as_u64`, `Number::as_i64` and its `Display` give for it, an
/// array as its elements in order, an object as the entries that
/// `Map::iter` yields, and no two entries of one object have the same key.
#[verifier::external_body]
fn open_value(value: &serde_json::Value) -> (opened: Opened<'_>)
    ensures
        shows(opened, value_tree(*value)),
{
    match value {
        serde_json::Value::Null => Opened::Null,
        serde_json::Value::Bool(b) => Opened::Bool(*b),
        serde_json::Value::Number(n) => Opened::Number {
            unsigned: n.as_u64(),
            signed: n.as_i64(),
            text: n.to_string(),
        },
        serde_json::Value::String(s) => Opened::Text(s.clone()),
        serde_json::Value::Array(items) => Opened::Array(items.iter().collect()),
        serde_json::Value::Object(map) => Opened::Object(
            map.iter().map(|(key, value)| (key.clone(), value)).collect(),
        ),
    }
}

/// The message of an error of serde_json, as its `Display` writes it.
#[verifier::external_body]
fn error_message(error: &serde_json::Error) -> (message: String) {
    error.to_string()
}

/// Why a text gave no document.
#[derive(Debug, PartialEq, Eq)]
pub enum ParseFailure {
    /// The text is not JSON; `message` is what the reader said of it.
    Syntax { message: String },
    /// The text is JSON that nests arrays and objects deeper than `limit`.
    TooDeep { limit: usize },
}

/// The failure in words: what the reader said, or that the nesting is too
/// deep.
pub open spec fn failure_text(failure: ParseFailure) -> Seq<char> {
    match failure {
        ParseFailure::Syntax { message } => message@,
        ParseFailure::TooDeep { limit: _ } => "arrays and objects nest too deep"@,
    }
}

impl ParseFailure {
    /// The failure in words.
    pub fn message(&self) -> (text: String)
        ensures
            text@ == failure_text(*self),
    {
        match self {
            ParseFailure::Syntax { message } => message.clone(),
            ParseFailure::TooDeep { limit: _ } => String::from_str(
                "arrays and objects nest too deep",
            ),
        }
    }
}

/// Copies a value of the JSON reader into the document model, as long as
/// arrays and objects nest no deeper than `budget`.
fn copy_within(value: &serde_json::Value, budget: usize) -> (r: Option<JsonValue>)
    ensures
        match r {
            Some(copy) => {
                &&& copy@ == value_tree(*value)
                &&& keys_unique(copy@)
                &&& copy@.depth() <= budget
            },
            None => value_tree(*value).depth() > budget,
        },
    decreases value_tree(*value),
{
    let ghost tree = value_tree(*value);
    match open_value(value) {
        Opened::Null => Some(JsonValue::Null),
        Opened::Bool(b) => Some(JsonValue::Bool(b)),
        Opened::Number { unsigned, signed, text } => {
            match (unsigned, signed) {
                (Some(n), _) => Some(JsonValue::Number(JsonNumber::Unsigned(n))),
                (None, Some(n)) => Some(JsonValue::Number(JsonNumber::Negative(n))),
                (None, None) => Some(JsonValue::Number(JsonNumber::Real(text))),
            }
        },
        Opened::Text(text) => Some(JsonValue::Text(text)),
        Opened::Array(items) => {
            if budget == 0 {
                return None;
            }
            let ghost trees = tree->Array_0;
            let mut copies: Vec<JsonValue> = Vec::new();
            let mut i: usize = 0;
            while i < items.len()
                invariant
                    i <= items.len(),
                    budget > 0,
                    tree == value_tree(*value),
                    tree == JsonTree::Array(trees),
                    trees.len() == items.len(),
                    forall|j: int|
                        0 <= j < items.len() ==> value_tree(*items[j]) == #[trigger] trees[j],
                    copies.len() == i,
                    forall|j: int| 0 <= j < i ==> copies[j]@ == trees[j] && keys_unique(trees[j]),
                    tree.depth_among(i as nat) <= budget - 1,
                decreases items.len() - i,
            {
                assert(value_tree(*items[i as int]) == trees[i as int]);
                assert(tree.child(i as int) == trees[i as int]);
                assert(decreases_to!(tree => trees[i as int]));
                match copy_within(items[i], budget - 1) {
                    Some(copy) => {
                        copies.push(copy);
                    },
                    None => {
                        proof {
                            lemma_child_depth(tree, i as int);
                        }
                        return None;
                    },
                }
                i += 1;
            }
            let copy = JsonValue::Array(copies);
            assert(copy@->Array_0 =~= trees);
            Some(copy)
        },
        Opened::Object(entries) => {
            if budget == 0 {
                return None;
            }
            let ghost pairs = tree->Object_0;
            let mut copies: Vec<(String, JsonValue)> = Vec::new();
            let mut i: usize = 0;
            while i < entries.len()
                invariant
                    i <= entries.len(),
                    budget > 0,
                    tree == value_tree(*value),
                    tree == JsonTree::Object(pairs),
                    pairs.len() == entries.len(),
                    forall|j: int|
                        0 <= j < entries.len() ==> (#[trigger] pairs[j]).0 == entries[j].0@
                            && pairs[j].1 == value_tree(*entries[j].1),
                    copies.len() == i,
                    forall|j: int|
                        0 <= j < i ==> copies[j].0@ == pairs[j].0 && copies[j].1@ == pairs[j].1
                            && keys_unique(pairs[j].1),
                    tree.depth_among(i as nat) <= budget - 1,
                decreases entries.len() - i,
            {
                assert(pairs[i as int].1 == value_tree(*entries[i as int].1));
                assert(tree.child(i as int) == pairs[i as int].1);
                assert(decreases_to!(tree => pairs[i as int].1));
                match copy_within(entries[i].1, budget - 1) {
                    Some(copy) => {
                        copies.push((entries[i].0.clone(), copy));
                    },
                    None => {
                        proof {
                            lemma_child_depth(tree, i as int);
                        }
                        return None;
                    },
                }
                i += 1;
            }
            let copy = JsonValue::Object(copies);
            assert(copy@->Object_0 =~= pairs);
            Some(copy)
        },
    }
}

/// Copies a value of the JSON reader into the document model: the copy
/// holds what the value holds, level by level, and no object of it has a
/// key twice. A value that nests arrays and objects deeper than
/// [`MAX_DEPTH`] is refused.
pub fn from_value(value: &serde_json::Value) -> (r: Result<JsonValue, NestingTooDeep>)
    ensures
        match r {
            Ok(copy) => {
                &&& copy@ == value_tree(*value)
                &&& keys_unique(copy@)
                &&& copy@.depth() <= MAX_DEPTH
            },
            Err(refusal) => value_tree(*value).depth() > MAX_DEPTH && refusal.limit == MAX_DEPTH,
        },
{
    match copy_within(value, MAX_DEPTH) {
        Some(copy) => Ok(copy),
        None => Err(NestingTooDeep { limit: MAX_DEPTH }),
    }
}

/// The document that `text` writes: what the JSON reader makes of it,
/// where that nests no deeper than [`MAX_DEPTH`].
pub open spec fn document_of(text: Seq<char>) -> Option<JsonTree> {
    match parsed_json(text) {
        Some(tree) => if tree.depth() <= MAX_DEPTH {
            Some(tree)
        } else {
            None
        },
        None => None,
    }
}

/// Whether `failure` says why `text` gives no document.
pub open spec fn explains(failure: ParseFailure, text: Seq<char>) -> bool {
    match failure {
        ParseFailure::Syntax { message: _ } => parsed_json(text) is None,
        ParseFailure::TooDeep { limit } => {
            &&& parsed_json(text) matches Some(tree)
            &&& tree.depth() > MAX_DEPTH
            &&& limit == MAX_DEPTH
        },
    }
}

/// Reads `text` as one JSON document. A text that the reader refuses gives
/// a syntax failure; one that nests deeper than [`MAX_DEPTH`] is refused as
/// too deep. A document that is read can always be walked.
pub fn parse_document(text: &str) -> (r: Result<JsonValue, ParseFailure>)
    ensures
        match r {
            Ok(document) => {
                &&& document_of(text@) == Some(document@)
                &&& keys_unique(document@)
                &&& document@.depth() <= MAX_DEPTH
            },
            Err(failure) => explains(failure, text@),
        },
{
    match parse_value(text) {
        Ok(value) => match from_value(&value) {
            Ok(document) => Ok(document),
            Err(refusal) => Err(ParseFailure::TooDeep { limit: refusal.limit }),
        },
        Err(error) => Err(ParseFailure::Syntax { message: error_message(&error) }),
    }
}

} // verus!
