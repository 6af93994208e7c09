//! Reading and writing JSON text. The grammar is that of `serde_json`; here its
//! values become values of the library and the other way round.
use vstd::prelude::*;
use crate::json::{split_number, unsigned_number, Json, JsonView, Numeral};
#[allow(unused_imports)]
use crate::json::{distinct_keys, items_view, members_view, number_model, placed, position, put};
#[allow(unused_imports)]
use crate::text::decimal;

verus! {

/// The outside type of JSON values.
#[verifier::external_type_specification]
#[verifier::external_body]
pub struct ExValue(serde_json::Value);

/// The outside type of JSON objects.
#[verifier::external_type_specification]
#[verifier::external_body]
#[verifier::reject_recursive_types(K)]
#[verifier::reject_recursive_types(V)]
pub struct ExMap<K, V>(serde_json::Map<K, V>);

/// What an outside value holds.
pub uninterp spec fn value_model(value: serde_json::Value) -> JsonView;

/// What an outside object holds, in the order in which it hands it out.
pub uninterp spec fn members_of(
    map: serde_json::Map<String, serde_json::Value>,
) -> Seq<(Seq<char>, JsonView)>;

/// What `serde_json::from_str` makes of a text: a value, or the words of its
/// error.
pub uninterp spec fn json_decoded(text: Seq<char>) -> Result<JsonView, Seq<char>>;

/// The compact text that `serde_json` writes for a value.
pub uninterp spec fn json_text(value: JsonView) -> Seq<char>;

/// One layer of an outside value.
pub enum Node {
    Null,
    Bool(bool),
    Number(serde_json::Number),
    Text(String),
    List(Vec<serde_json::Value>),
    Object(serde_json::Map<String, serde_json::Value>),
}

/// What the values of an outside list hold.
pub open spec fn values_model(values: Seq<serde_json::Value>) -> Seq<JsonView> {
    values.map_values(|value: serde_json::Value| value_model(value))
}

/// What the entries of an outside object hold.
pub open spec fn entries_model(entries: Seq<(String, serde_json::Value)>) -> Seq<
    (Seq<char>, JsonView),
> {
    entries.map_values(|entry: (String, serde_json::Value)| (entry.0@, value_model(entry.1)))
}

impl Node {
    /// What the value of which this is the top layer holds.
    pub open spec fn model(self) -> JsonView {
        match self {
            Node::Null => JsonView::Null,
            Node::Bool(b) => JsonView::Bool(b),
            Node::Number(n) => JsonView::Number(number_model(n)),
            Node::Text(s) => JsonView::Text(s@),
            Node::List(values) => JsonView::List(values_model(values@)),
            Node::Object(map) => JsonView::Object(members_of(map)),
        }
    }
}

/// `serde_json::from_str`: reads one JSON value from a text. What it makes of a
/// text depends on the text alone.
#[verifier::external_body]
fn parse_value(text: &str) -> (result: Result<serde_json::Value, String>)
    ensures
        match result {
            Ok(value) => json_decoded(text@) == Ok::<JsonView, Seq<char>>(value_model(value)),
            Err(words) => json_decoded(text@) == Err::<JsonView, Seq<char>>(words@),
        },
{
    serde_json::from_str(text).map_err(|e| e.to_string())
}

/// The variants of `serde_json::Value`, taken apart: the layer holds what the
/// value holds.
#[verifier::external_body]
fn open_value(value: serde_json::Value) -> (node: Node)
    ensures
        node.model() == value_model(value),
{
    match value {
        serde_json::Value::Null => Node::Null,
        serde_json::Value::Bool(b) => Node::Bool(b),
        serde_json::Value::Number(n) => Node::Number(n),
        serde_json::Value::String(s) => Node::Text(s),
        serde_json::Value::Array(values) => Node::List(values),
        serde_json::Value::Object(map) => Node::Object(map),
    }
}

/// The variants of `serde_json::Value`, put together: the value holds what the
/// layer holds.
#[verifier::external_body]
fn close_value(node: Node) -> (value: serde_json::Value)
    ensures
        value_model(value) == node.model(),
{
    match node {
        Node::Null => serde_json::Value::Null,
        Node::Bool(b) => serde_json::Value::Bool(b),
        Node::Number(n) => serde_json::Value::Number(n),
        Node::Text(s) => serde_json::Value::String(s),
        Node::List(values) => serde_json::Value::Array(values),
        Node::Object(map) => serde_json::Value::Object(map),
    }
}

/// `serde_json::Map::into_iter`: hands out the entries in order, no key twice.
#[verifier::external_body]
fn into_entries(map: serde_json::Map<String, serde_json::Value>) -> (entries: Vec<
    (String, serde_json::Value),
>)
    ensures
        entries_model(entries@) == members_of(map),
        distinct_keys(entries_model(entries@)),
{
    map.into_iter().collect()
}

/// `serde_json::Map::new`: an object without members.
#[verifier::external_body]
fn empty_map() -> (map: serde_json::Map<String, serde_json::Value>)
    ensures
        members_of(map) == Seq::<(Seq<char>, JsonView)>::empty(),
{
    serde_json::Map::new()
}

/// `serde_json::Map::insert` where objects keep their order: a known key keeps
/// its place and gets the new value, a new one comes last.
#[verifier::external_body]
fn insert_member(
    map: &mut serde_json::Map<String, serde_json::Value>,
    key: String,
    value: serde_json::Value,
)
    ensures
        members_of(*final(map)) == put(members_of(*old(map)), key@, value_model(value)),
{
    map.insert(key, value);
}

/// `serde_json::Value::to_string`: the compact text of a value, which depends
/// on what the value holds alone. Null, the truth values and unsigned integers
/// are written as JSON has them.
#[verifier::external_body]
fn value_text(value: &serde_json::Value) -> (text: String)
    ensures
        text@ == json_text(value_model(*value)),
        match value_model(*value) {
            JsonView::Null => text@ == "null"@,
            JsonView::Bool(true) => text@ == "true"@,
            JsonView::Bool(false) => text@ == "false"@,
            JsonView::Number(Numeral::Unsigned(n)) => text@ == decimal(n as nat),
            _ => true,
        },
{
    value.to_string()
}

/// The library's value for an outside value.
fn import(value: serde_json::Value) -> (json: Json)
    ensures
        json@ == value_model(value),
        json@.wf(),
    decreases value_model(value),
{
    match open_value(value) {
        Node::Null => Json::Null,
        Node::Bool(b) => Json::Bool(b),
        Node::Number(n) => Json::Number(split_number(n)),
        Node::Text(s) => Json::Text(s),
        Node::List(values) => {
            let ghost all = values@;
            let ghost whole = value_model(value);
            let mut items: Vec<Json> = Vec::new();
            for item in iter: values
                invariant
                    whole == JsonView::List(values_model(all)),
                    whole == value_model(value),
                    iter.seq() == all,
                    items@.len() == iter.index(),
                    forall|i: int|
                        0 <= i < items@.len() ==> (#[trigger] items@[i])@ == value_model(all[i])
                            && items@[i]@.wf(),
            {
                let ghost n = iter.index();
                assert(values_model(all)[n] == value_model(item));
                assert(decreases_to!(whole => whole->List_0[n]));
                items.push(import(item));
            }
            assert(items_view(items@) =~= values_model(all));
            Json::List(items)
        },
        Node::Object(map) => {
            let ghost all = members_of(map);
            let ghost whole = value_model(value);
            let entries = into_entries(map);
            let ghost pairs = entries@;
            let mut members: Vec<(String, Json)> = Vec::new();
            for entry in iter: entries
                invariant
                    whole == JsonView::Object(all),
                    whole == value_model(value),
                    iter.seq() == pairs,
                    entries_model(pairs) == all,
                    members@.len() == iter.index(),
                    forall|i: int|
                        0 <= i < members@.len() ==> (#[trigger] members@[i]).0@ == all[i].0
                            && members@[i].1@ == all[i].1 && members@[i].1@.wf(),
            {
                let ghost n = iter.index();
                let (key, item) = entry;
                assert(entries_model(pairs)[n] == (key@, value_model(item)));
                assert(decreases_to!(whole => whole->Object_0[n].1));
                members.push((key, import(item)));
            }
            assert(entries_model(pairs).len() == pairs.len());
            assert(members_view(members@) =~= all);
            Json::Object(members)
        },
    }
}

/// The outside value for a value of the library.
fn export(json: &Json) -> (value: serde_json::Value)
    ensures
        value_model(value) == json@.settled(),
    decreases json,
{
    match json {
        Json::Null => close_value(Node::Null),
        Json::Bool(b) => close_value(Node::Bool(*b)),
        Json::Number(Numeral::Unsigned(n)) => close_value(Node::Number(unsigned_number(*n))),
        Json::Number(Numeral::Other(n)) => close_value(Node::Number(n.clone())),
        Json::Text(s) => close_value(Node::Text(s.clone())),
        Json::List(items) => {
            let ghost all = json@.settled()->List_0;
            let mut values: Vec<serde_json::Value> = Vec::new();
            let mut i: usize = 0;
            while i < items.len()
                invariant
                    i <= items@.len(),
                    json == Json::List(*items),
                    json@.settled() == JsonView::List(all),
                    all.len() == items@.len(),
                    values@.len() == i,
                    forall|j: int| 0 <= j < i ==> value_model(#[trigger] values@[j]) == all[j],
                decreases items@.len() - i,
            {
                assert(decreases_to!(json => json->List_0@[i as int]));
                values.push(export(&items[i]));
                assert(all[i as int] == items@[i as int]@.settled());
                i += 1;
            }
            assert(values_model(values@) =~= all);
            close_value(Node::List(values))
        },
        Json::Object(members) => {
            let ghost all = members_view(members@);
            let mut map = empty_map();
            let mut i: usize = 0;
            assert(all.take(0) =~= Seq::empty());
            while i < members.len()
                invariant
                    i <= members@.len(),
                    json == Json::Object(*members),
                    all == members_view(members@),
                    members_of(map) == placed(all.take(i as int)),
                decreases members@.len() - i,
            {
                assert(decreases_to!(json => json->Object_0@[i as int].1));
                insert_member(&mut map, members[i].0.clone(), export(&members[i].1));
                assert(all.take(i + 1).drop_last() =~= all.take(i as int));
                i += 1;
            }
            assert(all.take(i as int) =~= all);
            close_value(Node::Object(map))
        },
    }
}

/// What a reading of a value comes to.
pub open spec fn json_result(result: Result<Json, String>) -> Result<JsonView, Seq<char>> {
    match result {
        Ok(json) => Ok(json@),
        Err(words) => Err(words@),
    }
}

/// Reads one JSON value from a text.
pub fn decode(text: &str) -> (result: Result<Json, String>)
    ensures
        json_result(result) == json_decoded(text@),
        result is Ok ==> result->Ok_0@.wf(),
{
    match parse_value(text) {
        Ok(value) => Ok(import(value)),
        Err(words) => Err(words),
    }
}

/// Writes a JSON value as compact text.
pub fn encode(json: &Json) -> (text: String)
    ensures
        text@ == json_text(json@.settled()),
        match json@ {
            JsonView::Null => text@ == "null"@,
            JsonView::Bool(true) => text@ == "true"@,
            JsonView::Bool(false) => text@ == "false"@,
            JsonView::Number(Numeral::Unsigned(n)) => text@ == decimal(n as nat),
            _ => true,
        },
{
    value_text(&export(json))
}

proof fn a_new_key_has_no_position(members: Seq<(Seq<char>, JsonView)>, key: Seq<char>)
    requires
        forall|i: int| 0 <= i < members.len() ==> (#[trigger] members[i]).0 != key,
    ensures
        position(members, key) == members.len(),
    decreases members.len(),
{
    if members.len() > 0 {
        assert forall|i: int| 0 <= i < members.drop_first().len() implies (
        #[trigger] members.drop_first()[i]).0 != key by {
            assert(members[i + 1].0 != key);
        }
        a_new_key_has_no_position(members.drop_first(), key);
    }
}

/// A value whose objects have no key twice is written as it is.
pub proof fn settled_leaves_a_sound_value(value: JsonView)
    requires
        value.wf(),
    ensures
        value.settled() == value,
    decreases value, 0nat,
{
    match value {
        JsonView::List(items) => {
            assert forall|i: int| 0 <= i < items.len() implies (#[trigger] items[i]).settled()
                == items[i] by {
                assert(decreases_to!(value => value->List_0[i]));
                settled_leaves_a_sound_value(items[i]);
            }
            assert(value.settled()->List_0 =~= items);
        },
        JsonView::Object(members) => {
            placed_leaves_sound_members(members);
        },
        _ => {},
    }
}

proof fn placed_leaves_sound_members(members: Seq<(Seq<char>, JsonView)>)
    requires
        distinct_keys(members),
        forall|i: int| 0 <= i < members.len() ==> (#[trigger] members[i]).1.wf(),
    ensures
        placed(members) == members,
    decreases members, 1nat,
{
    if members.len() > 0 {
        let front = members.drop_last();
        placed_leaves_sound_members(front);
        assert(decreases_to!(members => members[members.len() - 1]));
        settled_leaves_a_sound_value(members.last().1);
        a_new_key_has_no_position(front, members.last().0);
        assert(front.push(members.last()) =~= members);
    }
}

} // verus!
