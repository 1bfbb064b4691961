//! JSON documents: a tree of plain values, read and written with `serde_json`.

use serde_json::{Number, Value};
use vstd::prelude::*;

use crate::text::same_text;

verus! {

/// `serde_json::Number`, carried through without being looked into.
#[verifier::external_type_specification]
#[verifier::external_body]
pub struct ExNumber(Number);

/// `serde_json::Value`; what one holds is named by [`value_tree`].
#[verifier::external_type_specification]
#[verifier::external_body]
pub struct ExValue(Value);

/// `serde_json::Error`, why a text is no JSON document.
#[verifier::external_type_specification]
#[verifier::external_body]
pub struct ExJsonError(serde_json::Error);

/// A JSON document as a mathematical tree.
pub enum JsonTree {
    Null,
    Bool(bool),
    Number(Number),
    Text(Seq<char>),
    Array(Seq<JsonTree>),
    Object(Map<Seq<char>, JsonTree>),
}

impl JsonTree {
    /// The member called `key`, where the tree is an object that has one.
    pub open spec fn get(self, key: Seq<char>) -> Option<JsonTree> {
        match self {
            JsonTree::Object(fields) => if fields.contains_key(key) {
                Some(fields[key])
            } else {
                None
            },
            _ => None,
        }
    }
}

/// A JSON document.
#[derive(Debug)]
pub enum Json {
    Null,
    Bool(bool),
    Number(Number),
    Text(String),
    Array(Vec<Json>),
    Object(JsonObject),
}

/// The members of a JSON object; no key occurs twice.
#[derive(Debug)]
pub struct JsonObject {
    entries: Vec<(String, Json)>,
}

spec fn distinct_keys(entries: Seq<(String, Json)>) -> bool {
    forall|i: int, j: int|
        0 <= i < j < entries.len() ==> (#[trigger] entries[i]).0@ != (#[trigger] entries[j]).0@
}

/// The tree that a document stands for.
pub open spec fn json_tree(json: Json) -> JsonTree
    decreases json,
{
    match json {
        Json::Null => JsonTree::Null,
        Json::Bool(b) => JsonTree::Bool(b),
        Json::Number(n) => JsonTree::Number(n),
        Json::Text(text) => JsonTree::Text(text@),
        Json::Array(items) => JsonTree::Array(
            Seq::new(
                items@.len(),
                |i: int|
                    if 0 <= i < items@.len() {
                        json_tree(items@[i])
                    } else {
                        JsonTree::Null
                    },
            ),
        ),
        Json::Object(object) => JsonTree::Object(object_tree(object)),
    }
}

/// The members that an object stands for.
pub closed spec fn object_tree(object: JsonObject) -> Map<Seq<char>, JsonTree>
    decreases object,
{
    entries_tree(object.entries@)
}

spec fn entries_tree(entries: Seq<(String, Json)>) -> Map<Seq<char>, JsonTree>
    decreases entries,
{
    if entries.len() == 0 {
        Map::empty()
    } else {
        entries_tree(entries.drop_last()).insert(entries.last().0@, json_tree(entries.last().1))
    }
}

impl View for Json {
    type V = JsonTree;

    open spec fn view(&self) -> JsonTree {
        json_tree(*self)
    }
}

impl View for JsonObject {
    type V = Map<Seq<char>, JsonTree>;

    open spec fn view(&self) -> Map<Seq<char>, JsonTree> {
        object_tree(*self)
    }
}

proof fn lemma_entries_tree(entries: Seq<(String, Json)>)
    requires
        distinct_keys(entries),
    ensures
        forall|i: int|
            0 <= i < entries.len() ==> entries_tree(entries).contains_key(
                (#[trigger] entries[i]).0@,
            ) && entries_tree(entries)[entries[i].0@] == json_tree(entries[i].1),
        forall|key: Seq<char>| #[trigger]
            entries_tree(entries).contains_key(key) ==> exists|i: int|
                0 <= i < entries.len() && (#[trigger] entries[i]).0@ == key,
    decreases entries.len(),
{
    if entries.len() > 0 {
        let front = entries.drop_last();
        assert forall|i: int, j: int| 0 <= i < j < front.len() implies (#[trigger] front[i]).0@ != (
        #[trigger] front[j]).0@ by {
            assert(front[i] == entries[i] && front[j] == entries[j]);
        }
        lemma_entries_tree(front);
        assert forall|i: int| 0 <= i < entries.len() implies entries_tree(entries).contains_key(
            (#[trigger] entries[i]).0@,
        ) && entries_tree(entries)[entries[i].0@] == json_tree(entries[i].1) by {
            if i < front.len() {
                assert(front[i] == entries[i]);
                assert(entries[i].0@ != entries[entries.len() - 1].0@);
            }
        }
        assert forall|key: Seq<char>| #[trigger]
            entries_tree(entries).contains_key(key) implies exists|i: int|
            0 <= i < entries.len() && (#[trigger] entries[i]).0@ == key by {
            if key == entries.last().0@ {
                assert(entries[entries.len() - 1].0@ == key);
            } else {
                assert(entries_tree(front).contains_key(key));
                let i = choose|i: int| 0 <= i < front.len() && (#[trigger] front[i]).0@ == key;
                assert(entries[i].0@ == key);
            }
        }
    }
}

impl JsonObject {
    #[verifier::type_invariant]
    spec fn keys_are_distinct(self) -> bool {
        distinct_keys(self.entries@)
    }

    /// An object without members.
    pub fn new() -> (result: JsonObject)
        ensures
            result@ == Map::<Seq<char>, JsonTree>::empty(),
    {
        JsonObject { entries: Vec::new() }
    }

    fn position(entries: &Vec<(String, Json)>, key: &str) -> (result: Option<usize>)
        ensures
            match result {
                Some(i) => i < entries@.len() && entries@[i as int].0@ == key@,
                None => forall|i: int| 0 <= i < entries@.len() ==> (#[trigger] entries@[i]).0@ != key@,
            },
    {
        let mut i: usize = 0;
        while i < entries.len()
            invariant
                i <= entries@.len(),
                forall|j: int| 0 <= j < i ==> (#[trigger] entries@[j]).0@ != key@,
            decreases entries@.len() - i,
        {
            if same_text(entries[i].0.as_str(), key) {
                return Some(i);
            }
            i += 1;
        }
        None
    }

    /// Gives the member `key` the value `value`, in place of the value that it had.
    pub fn set(&mut self, key: &str, value: Json)
        ensures
            final(self)@ == old(self)@.insert(key@, value@),
    {
        proof {
            use_type_invariant(&*self);
        }
        let mut entries: Vec<(String, Json)> = Vec::new();
        std::mem::swap(&mut entries, &mut self.entries);
        let ghost before = entries@;
        let ghost mut hole = before.len() as int;
        if let Some(i) = Self::position(&entries, key) {
            let _ = entries.remove(i);
            proof {
                hole = i as int;
                assert forall|a: int, b: int| 0 <= a < b < entries@.len() implies (
                #[trigger] entries@[a]).0@ != (#[trigger] entries@[b]).0@ by {
                    let x = if a < i { a } else { a + 1 };
                    let y = if b < i { b } else { b + 1 };
                    assert(entries@[a] == before[x] && entries@[b] == before[y]);
                }
                assert forall|a: int| 0 <= a < entries@.len() implies (#[trigger] entries@[a]).0@
                    != key@ by {
                    let x = if a < i { a } else { a + 1 };
                    assert(entries@[a] == before[x]);
                    assert(before[x].0@ != before[i as int].0@);
                }
            }
        }
        let ghost kept = entries@;
        proof {
            lemma_entries_tree(before);
            lemma_entries_tree(kept);
            assert(entries_tree(kept).insert(key@, value@) =~= entries_tree(before).insert(
                key@,
                value@,
            )) by {
                assert forall|k: Seq<char>| k != key@ implies entries_tree(kept).contains_key(k)
                    == entries_tree(before).contains_key(k) && (entries_tree(kept).contains_key(k)
                    ==> entries_tree(kept)[k] == entries_tree(before)[k]) by {
                    if entries_tree(kept).contains_key(k) {
                        let a = choose|a: int| 0 <= a < kept.len() && (#[trigger] kept[a]).0@ == k;
                        let x = if a < hole { a } else { a + 1 };
                        assert(before[x] == kept[a]);
                    }
                    if entries_tree(before).contains_key(k) {
                        let x = choose|x: int|
                            0 <= x < before.len() && (#[trigger] before[x]).0@ == k;
                        let a = if x < hole { x } else { x - 1 };
                        assert(kept[a] == before[x]);
                    }
                }
            }
        }
        entries.push((key.to_owned(), value));
        proof {
            assert(entries@.drop_last() == kept);
        }
        self.entries = entries;
    }

    /// The value of the member `key`.
    pub fn get(&self, key: &str) -> (result: Option<&Json>)
        ensures
            match result {
                Some(value) => self@.contains_key(key@) && value@ == self@[key@],
                None => !self@.contains_key(key@),
            },
    {
        proof {
            use_type_invariant(self);
            lemma_entries_tree(self.entries@);
        }
        match Self::position(&self.entries, key) {
            Some(i) => Some(&self.entries[i].1),
            None => None,
        }
    }
}

/// The number that stands for `value`, as `serde_json::Number::from` makes it.
pub uninterp spec fn whole_number(value: u64) -> Number;

/// Calls `serde_json::Number::from` on an unsigned integer. The result is named by
/// [`whole_number`]: it depends on the integer alone.
#[verifier::external_body]
pub(crate) fn number_from(value: u64) -> (result: Number)
    ensures
        result == whole_number(value),
{
    Number::from(value)
}

/// Calls `serde_json::Number::as_u64`, which gives back an integer exactly from the
/// number that `Number::from` makes of it: negative numbers and fractions have none.
#[verifier::external_body]
fn number_as_u64(number: &Number) -> (result: Option<u64>)
    ensures
        result matches Some(value) ==> *number == whole_number(value),
        forall|value: u64| *number == whole_number(value) ==> result == Some(value),
{
    number.as_u64()
}

/// Calls `<serde_json::Number as Clone>::clone`, which yields the same number.
#[verifier::external_body]
fn number_clone(number: &Number) -> (result: Number)
    ensures
        result == *number,
{
    number.clone()
}

impl Json {
    /// A number that is a whole, non-negative integer.
    pub fn whole(value: u64) -> (result: Json)
        ensures
            result@ == JsonTree::Number(whole_number(value)),
    {
        Json::Number(number_from(value))
    }

    /// A text.
    pub fn text(value: &str) -> (result: Json)
        ensures
            result@ == JsonTree::Text(value@),
    {
        Json::Text(value.to_owned())
    }

    /// The member `key`, where the document is an object that has one.
    pub fn get(&self, key: &str) -> (result: Option<&Json>)
        ensures
            match result {
                Some(value) => self@.get(key@) == Some(value@),
                None => self@.get(key@) is None,
            },
    {
        match self {
            Json::Object(object) => object.get(key),
            _ => None,
        }
    }

    /// The text, where the document is one.
    pub fn as_str(&self) -> (result: Option<&str>)
        ensures
            match result {
                Some(text) => self@ == JsonTree::Text(text@),
                None => !(self@ is Text),
            },
    {
        match self {
            Json::Text(text) => Some(text.as_str()),
            _ => None,
        }
    }

    /// The truth value, where the document is one.
    pub fn as_bool(&self) -> (result: Option<bool>)
        ensures
            match result {
                Some(value) => self@ == JsonTree::Bool(value),
                None => !(self@ is Bool),
            },
    {
        match self {
            Json::Bool(value) => Some(*value),
            _ => None,
        }
    }

    /// The integer, where the document is a whole, non-negative one that fits.
    pub fn as_u64(&self) -> (result: Option<u64>)
        ensures
            result matches Some(value) ==> self@ == JsonTree::Number(whole_number(value)),
            forall|value: u64|
                self@ == JsonTree::Number(whole_number(value)) ==> result == Some(value),
    {
        match self {
            Json::Number(number) => number_as_u64(number),
            _ => None,
        }
    }

    /// The items, where the document is an array.
    pub fn as_array(&self) -> (result: Option<&Vec<Json>>)
        ensures
            match result {
                Some(items) => self@ == JsonTree::Array(items_tree(items@)),
                None => !(self@ is Array),
            },
    {
        match self {
            Json::Array(items) => {
                proof {
                    assert(self@->Array_0 =~= items_tree(items@));
                }
                Some(items)
            },
            _ => None,
        }
    }
}

/// The trees of a list of documents.
pub open spec fn items_tree(items: Seq<Json>) -> Seq<JsonTree> {
    Seq::new(items.len(), |i: int| items[i]@)
}

/// What a `serde_json::Value` holds.
pub uninterp spec fn value_tree(value: Value) -> JsonTree;

/// The outermost layer of a `serde_json::Value`, borrowed.
enum ValueNode<'a> {
    Null,
    Bool(bool),
    Number(&'a Number),
    Text(&'a String),
    Array(&'a Vec<Value>),
    Object(Vec<(&'a String, &'a Value)>),
}

spec fn node_fields(entries: Seq<(&String, &Value)>) -> Map<Seq<char>, JsonTree>
    decreases entries.len(),
{
    if entries.len() == 0 {
        Map::empty()
    } else {
        node_fields(entries.drop_last()).insert(entries.last().0@, value_tree(*entries.last().1))
    }
}

spec fn values_tree(values: Seq<Value>) -> Seq<JsonTree> {
    Seq::new(values.len(), |i: int| value_tree(values[i]))
}

spec fn node_tree(node: ValueNode) -> JsonTree {
    match node {
        ValueNode::Null => JsonTree::Null,
        ValueNode::Bool(b) => JsonTree::Bool(b),
        ValueNode::Number(n) => JsonTree::Number(*n),
        ValueNode::Text(text) => JsonTree::Text(text@),
        ValueNode::Array(items) => JsonTree::Array(values_tree(items@)),
        ValueNode::Object(entries) => JsonTree::Object(node_fields(entries@)),
    }
}

/// Tells the variants of a `serde_json::Value` apart and hands out their fields; the
/// members of an object come from `serde_json::Map::iter`, each key once.
#[verifier::external_body]
fn open_value<'a>(value: &'a Value) -> (result: ValueNode<'a>)
    ensures
        node_tree(result) == value_tree(*value),
        result matches ValueNode::Object(entries) ==> forall|i: int, j: int|
            0 <= i < j < entries@.len() ==> (#[trigger] entries@[i]).0@ != (
            #[trigger] entries@[j]).0@,
{
    match value {
        Value::Null => ValueNode::Null,
        Value::Bool(b) => ValueNode::Bool(*b),
        Value::Number(n) => ValueNode::Number(n),
        Value::String(text) => ValueNode::Text(text),
        Value::Array(items) => ValueNode::Array(items),
        Value::Object(fields) => ValueNode::Object(fields.iter().collect()),
    }
}

proof fn lemma_node_fields(entries: Seq<(&String, &Value)>)
    requires
        forall|i: int, j: int|
            0 <= i < j < entries.len() ==> (#[trigger] entries[i]).0@ != (#[trigger] entries[j]).0@,
    ensures
        node_fields(entries).dom().finite(),
        forall|i: int|
            0 <= i < entries.len() ==> node_fields(entries).contains_key((#[trigger] entries[i]).0@)
                && node_fields(entries)[entries[i].0@] == value_tree(*entries[i].1),
    decreases entries.len(),
{
    if entries.len() > 0 {
        let front = entries.drop_last();
        assert forall|i: int, j: int| 0 <= i < j < front.len() implies (#[trigger] front[i]).0@ != (
        #[trigger] front[j]).0@ by {
            assert(front[i] == entries[i] && front[j] == entries[j]);
        }
        lemma_node_fields(front);
        assert forall|i: int| 0 <= i < entries.len() implies node_fields(entries).contains_key(
            (#[trigger] entries[i]).0@,
        ) && node_fields(entries)[entries[i].0@] == value_tree(*entries[i].1) by {
            if i < front.len() {
                assert(front[i] == entries[i]);
                assert(entries[i].0@ != entries[entries.len() - 1].0@);
            }
        }
    }
}

/// Reads a `serde_json::Value` into a document of the same tree.
fn document(value: &Value) -> (result: Json)
    ensures
        result@ == value_tree(*value),
    decreases value_tree(*value),
{
    match open_value(value) {
        ValueNode::Null => Json::Null,
        ValueNode::Bool(b) => Json::Bool(b),
        ValueNode::Number(n) => Json::Number(number_clone(n)),
        ValueNode::Text(text) => Json::Text(text.clone()),
        ValueNode::Array(values) => {
            let mut items: Vec<Json> = Vec::new();
            let mut i: usize = 0;
            while i < values.len()
                invariant
                    i <= values@.len(),
                    items@.len() == i,
                    value_tree(*value) == JsonTree::Array(values_tree(values@)),
                    forall|j: int|
                        0 <= j < i ==> (#[trigger] items@[j])@ == value_tree(values@[j]),
                decreases values@.len() - i,
            {
                proof {
                    assert(values_tree(values@)[i as int] == value_tree(values@[i as int]));
                    let tree = value_tree(*value);
                    assert(decreases_to!(tree => tree->Array_0));
                    assert(decreases_to!(tree->Array_0 => tree->Array_0[i as int]));
                }
                items.push(document(&values[i]));
                i += 1;
            }
            proof {
                assert(items_tree(items@) =~= values_tree(values@));
                assert(Json::Array(items)@->Array_0 =~= items_tree(items@));
            }
            Json::Array(items)
        },
        ValueNode::Object(entries) => {
            let mut object = JsonObject::new();
            let mut i: usize = 0;
            proof {
                lemma_node_fields(entries@);
                assert(entries@.take(0) == Seq::<(&String, &Value)>::empty());
            }
            while i < entries.len()
                invariant
                    i <= entries@.len(),
                    value_tree(*value) == JsonTree::Object(node_fields(entries@)),
                    node_fields(entries@).dom().finite(),
                    forall|j: int|
                        0 <= j < entries@.len() ==> node_fields(entries@).contains_key(
                            (#[trigger] entries@[j]).0@,
                        ) && node_fields(entries@)[entries@[j].0@] == value_tree(*entries@[j].1),
                    object@ == node_fields(entries@.take(i as int)),
                decreases entries@.len() - i,
            {
                let (key, field) = entries[i];
                proof {
                    assert(entries@[i as int] == (key, field));
                    let fields = node_fields(entries@);
                    assert(fields[key@] == value_tree(*field));
                    let tree = value_tree(*value);
                    assert(decreases_to!(tree => tree->Object_0));
                    assert(decreases_to!(tree->Object_0 => tree->Object_0[key@]));
                    assert(entries@.take(i + 1).drop_last() == entries@.take(i as int));
                    assert(entries@.take(i + 1).last() == entries@[i as int]);
                }
                let item = document(field);
                object.set(key.as_str(), item);
                i += 1;
            }
            proof {
                assert(entries@.take(entries@.len() as int) == entries@);
            }
            Json::Object(object)
        },
    }
}

/// The outermost layer of a `serde_json::Value`, owned.
enum ValueParts {
    Null,
    Bool(bool),
    Number(Number),
    Text(String),
    Array(Vec<Value>),
    Object(Vec<(String, Value)>),
}

spec fn part_fields(entries: Seq<(String, Value)>) -> Map<Seq<char>, JsonTree>
    decreases entries.len(),
{
    if entries.len() == 0 {
        Map::empty()
    } else {
        part_fields(entries.drop_last()).insert(entries.last().0@, value_tree(entries.last().1))
    }
}

spec fn parts_tree(parts: ValueParts) -> JsonTree {
    match parts {
        ValueParts::Null => JsonTree::Null,
        ValueParts::Bool(b) => JsonTree::Bool(b),
        ValueParts::Number(n) => JsonTree::Number(n),
        ValueParts::Text(text) => JsonTree::Text(text@),
        ValueParts::Array(items) => JsonTree::Array(values_tree(items@)),
        ValueParts::Object(entries) => JsonTree::Object(part_fields(entries@)),
    }
}

/// Puts a `serde_json::Value` together from its outermost layer; the members of an
/// object, whose keys are distinct, go through `serde_json::Map::from_iter`.
#[verifier::external_body]
fn close_value(parts: ValueParts) -> (result: Value)
    requires
        parts matches ValueParts::Object(entries) ==> forall|i: int, j: int|
            0 <= i < j < entries@.len() ==> (#[trigger] entries@[i]).0@ != (
            #[trigger] entries@[j]).0@,
    ensures
        value_tree(result) == parts_tree(parts),
{
    match parts {
        ValueParts::Null => Value::Null,
        ValueParts::Bool(b) => Value::Bool(b),
        ValueParts::Number(n) => Value::Number(n),
        ValueParts::Text(text) => Value::String(text),
        ValueParts::Array(items) => Value::Array(items),
        ValueParts::Object(entries) => Value::Object(entries.into_iter().collect()),
    }
}

/// Builds the `serde_json::Value` of the same tree as a document.
fn value_of(json: &Json) -> (result: Value)
    ensures
        value_tree(result) == json@,
    decreases json,
{
    match json {
        Json::Null => close_value(ValueParts::Null),
        Json::Bool(b) => close_value(ValueParts::Bool(*b)),
        Json::Number(n) => close_value(ValueParts::Number(number_clone(n))),
        Json::Text(text) => close_value(ValueParts::Text(text.clone())),
        Json::Array(items) => {
            let mut values: Vec<Value> = Vec::new();
            let mut i: usize = 0;
            while i < items.len()
                invariant
                    i <= items@.len(),
                    values@.len() == i,
                    *json == Json::Array(*items),
                    forall|j: int|
                        0 <= j < i ==> value_tree(#[trigger] values@[j]) == items@[j]@,
                decreases items@.len() - i,
            {
                proof {
                    assert(decreases_to!(json => json->Array_0));
                    assert(decreases_to!(json->Array_0 => json->Array_0@));
                    assert(decreases_to!(items@ => items@[i as int]));
                }
                values.push(value_of(&items[i]));
                i += 1;
            }
            proof {
                assert(values_tree(values@) =~= json@->Array_0);
            }
            close_value(ValueParts::Array(values))
        },
        Json::Object(object) => {
            let mut entries: Vec<(String, Value)> = Vec::new();
            let mut i: usize = 0;
            proof {
                use_type_invariant(object);
                assert(object.entries@.take(0) == Seq::<(String, Json)>::empty());
            }
            while i < object.entries.len()
                invariant
                    i <= object.entries@.len(),
                    entries@.len() == i,
                    *json == Json::Object(*object),
                    forall|j: int|
                        0 <= j < i ==> (#[trigger] entries@[j]).0@ == object.entries@[j].0@,
                    part_fields(entries@) == entries_tree(object.entries@.take(i as int)),
                decreases object.entries@.len() - i,
            {
                let field = &object.entries[i];
                proof {
                    assert(decreases_to!(json => json->Object_0));
                    assert(decreases_to!(json->Object_0 => json->Object_0.entries));
                    assert(decreases_to!(object.entries => object.entries@));
                    assert(decreases_to!(object.entries@ => object.entries@[i as int]));
                    assert(decreases_to!(field => field.1));
                }
                let value = value_of(&field.1);
                let ghost front = entries@;
                entries.push((field.0.clone(), value));
                proof {
                    assert(entries@.drop_last() == front);
                    assert(object.entries@.take(i + 1).drop_last() == object.entries@.take(
                        i as int,
                    ));
                    assert(object.entries@.take(i + 1).last() == object.entries@[i as int]);
                }
                i += 1;
            }
            proof {
                assert(object.entries@.take(object.entries@.len() as int) == object.entries@);
                assert forall|a: int, b: int| 0 <= a < b < entries@.len() implies (
                #[trigger] entries@[a]).0@ != (#[trigger] entries@[b]).0@ by {
                    assert(object.entries@[a].0@ != object.entries@[b].0@);
                }
            }
            proof {
                assert(json@ == JsonTree::Object(object_tree(*object)));
                assert(object_tree(*object) == entries_tree(object.entries@));
            }
            close_value(ValueParts::Object(entries))
        },
    }
}

/// The document that `serde_json::from_slice` reads in a text, if the text is one.
pub uninterp spec fn parsed_json(text: Seq<u8>) -> Option<JsonTree>;

/// Calls `serde_json::from_slice`. Whether the text is a JSON document, and which one,
/// depends on the text alone and is named by [`parsed_json`].
#[verifier::external_body]
fn value_from_slice(text: &[u8]) -> (result: Result<Value, serde_json::Error>)
    ensures
        match result {
            Ok(value) => parsed_json(text@) == Some(value_tree(value)),
            Err(_) => parsed_json(text@) is None,
        },
{
    serde_json::from_slice(text)
}

/// Reads a JSON document; `None` where the text is none.
pub fn read_json(text: &[u8]) -> (result: Option<Json>)
    ensures
        match result {
            Some(json) => parsed_json(text@) == Some(json@),
            None => parsed_json(text@) is None,
        },
{
    match value_from_slice(text) {
        Ok(value) => Some(document(&value)),
        Err(_) => None,
    }
}

/// The compact text that `serde_json::to_vec` writes for a document, if it writes one.
pub uninterp spec fn json_text(tree: JsonTree) -> Option<Seq<u8>>;

/// Calls `serde_json::to_vec`. Whether the document can be written, and its text, depend on
/// the tree alone and are named by [`json_text`].
#[verifier::external_body]
fn value_to_vec(value: &Value) -> (result: Result<Vec<u8>, serde_json::Error>)
    ensures
        match result {
            Ok(text) => json_text(value_tree(*value)) == Some(text@),
            Err(_) => json_text(value_tree(*value)) is None,
        },
{
    serde_json::to_vec(value)
}

/// Writes a JSON document.
pub fn write_json(json: &Json) -> (result: Option<Vec<u8>>)
    ensures
        match result {
            Some(text) => json_text(json@) == Some(text@),
            None => json_text(json@) is None,
        },
{
    match value_to_vec(&value_of(json)) {
        Ok(text) => Some(text),
        Err(_) => None,
    }
}

/// The compact text that `serde_json::to_string` writes for a document, if it writes one.
pub uninterp spec fn json_string(tree: JsonTree) -> Option<Seq<char>>;

/// Calls `serde_json::to_string`. Whether the document can be written, and its text, depend
/// on the tree alone and are named by [`json_string`].
#[verifier::external_body]
fn value_to_string(value: &Value) -> (result: Result<String, serde_json::Error>)
    ensures
        match result {
            Ok(text) => json_string(value_tree(*value)) == Some(text@),
            Err(_) => json_string(value_tree(*value)) is None,
        },
{
    serde_json::to_string(value)
}

/// Writes a JSON document as text.
pub fn print_json(json: &Json) -> (result: Option<String>)
    ensures
        match result {
            Some(text) => json_string(json@) == Some(text@),
            None => json_string(json@) is None,
        },
{
    match value_to_string(&value_of(json)) {
        Ok(text) => Some(text),
        Err(_) => None,
    }
}

/// A member is found in an object under its own name, with its own value; an object without it
/// and anything but an object have none.
pub proof fn law_members_are_found(
    fields: Map<Seq<char>, JsonTree>,
    key: Seq<char>,
    value: JsonTree,
    other: Seq<char>,
)
    ensures
        JsonTree::Object(fields.insert(key, value)).get(key) == Some(value),
        other != key ==> JsonTree::Object(fields.insert(key, value)).get(other)
            == JsonTree::Object(fields).get(other),
        JsonTree::Object(Map::empty()).get(key) is None,
        !(value is Object) ==> value.get(key) is None,
{
}

} // verus!
