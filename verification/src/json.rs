//! JSON documents, as far as the display report of macOS needs them: objects,
//! arrays and strings. Numbers, booleans and nulls are told apart from nothing.

use vstd::prelude::*;

verus! {

/// A JSON value.
pub enum Json {
    Object(Vec<(String, Json)>),
    Array(Vec<Json>),
    Text(String),
    Other,
}

/// A JSON value, as mathematics.
pub enum JsonTree {
    Object(Seq<(Seq<char>, JsonTree)>),
    Array(Seq<JsonTree>),
    Text(Seq<char>),
    Other,
}

impl Json {
    pub open spec fn tree(self) -> JsonTree
        decreases self,
    {
        match self {
            Json::Object(entries) => JsonTree::Object(
                Seq::new(
                    entries@.len(),
                    |i: int|
                        if 0 <= i < entries@.len() {
                            (entries@[i].0@, entries@[i].1.tree())
                        } else {
                            arbitrary()
                        },
                ),
            ),
            Json::Array(items) => JsonTree::Array(
                Seq::new(
                    items@.len(),
                    |i: int|
                        if 0 <= i < items@.len() {
                            items@[i].tree()
                        } else {
                            arbitrary()
                        },
                ),
            ),
            Json::Text(text) => JsonTree::Text(text@),
            Json::Other => JsonTree::Other,
        }
    }
}

/// A `serde_json::Value`, which nothing but [`open`] looks into.
#[verifier::external_type_specification]
#[verifier::external_body]
pub struct ExValue(serde_json::Value);

/// What a `serde_json::Value` holds.
pub uninterp spec fn json_contents(value: serde_json::Value) -> JsonTree;

/// What `serde_json::from_str` reads in a text: nothing where the text is not a
/// JSON document.
pub uninterp spec fn json_document(text: Seq<char>) -> Option<JsonTree>;

/// One layer of a `serde_json::Value`.
enum Node<'a> {
    Object(Vec<(&'a String, &'a serde_json::Value)>),
    Array(&'a Vec<serde_json::Value>),
    Text(&'a String),
    Other,
}

/// Calls `serde_json::from_str`, which reads the text as a JSON document or
/// fails, by the text alone.
#[verifier::external_body]
fn parse(text: &str) -> (value: Option<serde_json::Value>)
    ensures
        value is Some <==> json_document(text@) is Some,
        value matches Some(value) ==> json_document(text@) == Some(json_contents(value)),
{
    serde_json::from_str(text).ok()
}

spec fn node_matches(node: Node, tree: JsonTree) -> bool {
    match node {
        Node::Object(entries) => {
            &&& tree is Object
            &&& tree->Object_0.len() == entries@.len()
            &&& forall|i: int|
                0 <= i < entries@.len() ==> (#[trigger] entries@[i]).0@ == tree->Object_0[i].0
                    && json_contents(*entries@[i].1) == tree->Object_0[i].1
        },
        Node::Array(items) => {
            &&& tree is Array
            &&& tree->Array_0.len() == items@.len()
            &&& forall|i: int|
                0 <= i < items@.len() ==> json_contents(#[trigger] items@[i]) == tree->Array_0[i]
        },
        Node::Text(text) => tree == JsonTree::Text(text@),
        Node::Other => tree is Other,
    }
}

/// Opens a `serde_json::Value`: an object gives its entries, an array its items,
/// a string its text, and any other variant nothing.
#[verifier::external_body]
fn open(value: &serde_json::Value) -> (node: Node<'_>)
    ensures
        node_matches(node, json_contents(*value)),
{
    match value {
        serde_json::Value::Object(map) => Node::Object(map.iter().collect()),
        serde_json::Value::Array(items) => Node::Array(items),
        serde_json::Value::String(text) => Node::Text(text),
        serde_json::Value::Null => Node::Other,
        serde_json::Value::Bool(_) => Node::Other,
        serde_json::Value::Number(_) => Node::Other,
    }
}

fn read(value: &serde_json::Value) -> (json: Json)
    ensures
        json.tree() == json_contents(*value),
    decreases json_contents(*value),
{
    let ghost tree = json_contents(*value);
    match open(value) {
        Node::Object(entries) => {
            let mut read_entries: Vec<(String, Json)> = Vec::new();
            let mut i: usize = 0;
            while i < entries.len()
                invariant
                    i <= entries@.len(),
                    tree == json_contents(*value),
                    node_matches(Node::Object(entries), tree),
                    read_entries@.len() == i,
                    forall|j: int|
                        0 <= j < i ==> (#[trigger] read_entries@[j]).0@ == tree->Object_0[j].0
                            && read_entries@[j].1.tree() == tree->Object_0[j].1,
                decreases entries.len() - i,
            {
                let (key, inner) = entries[i];
                assert(entries@[i as int].1 == inner);
                assert(decreases_to!(tree => tree->Object_0[i as int].1));
                read_entries.push((key.clone(), read(inner)));
                i += 1;
            }
            let json = Json::Object(read_entries);
            assert(json.tree()->Object_0 == tree->Object_0);
            json
        },
        Node::Array(items) => {
            let mut read_items: Vec<Json> = Vec::new();
            let mut i: usize = 0;
            while i < items.len()
                invariant
                    i <= items@.len(),
                    tree == json_contents(*value),
                    node_matches(Node::Array(items), tree),
                    read_items@.len() == i,
                    forall|j: int|
                        0 <= j < i ==> (#[trigger] read_items@[j]).tree() == tree->Array_0[j],
                decreases items.len() - i,
            {
                assert(json_contents(items@[i as int]) == tree->Array_0[i as int]);
                assert(decreases_to!(tree => tree->Array_0[i as int]));
                read_items.push(read(&items[i]));
                i += 1;
            }
            let json = Json::Array(read_items);
            assert(json.tree()->Array_0 == tree->Array_0);
            json
        },
        Node::Text(text) => Json::Text(text.clone()),
        Node::Other => Json::Other,
    }
}

/// Reads a text as a JSON document.
pub fn parse_json(text: &str) -> (json: Option<Json>)
    ensures
        json is Some <==> json_document(text@) is Some,
        json matches Some(json) ==> json_document(text@) == Some(json.tree()),
{
    match parse(text) {
        Some(value) => Some(read(&value)),
        None => None,
    }
}

} // verus!
