//! The way from the library's JSON values to those of `serde_json`.

use vstd::prelude::*;

use crate::json::{entries_view, items_view, Json, JsonView};
use crate::sorted_map::entry_keys;

verus! {

/// The value type of `serde_json`.
#[verifier::external_type_specification]
#[verifier::external_body]
pub struct ExSerdeValue(serde_json::Value);

/// What a `serde_json::Value` holds.
pub uninterp spec fn json_contents(json: serde_json::Value) -> JsonView;

/// `serde_json::Value::Null`: the value that holds null.
#[verifier::external_body]
fn json_null() -> (json: serde_json::Value)
    ensures
        json_contents(json) == JsonView::Null,
{
    serde_json::Value::Null
}

/// `serde_json::Value::Bool`: the value that holds the given boolean.
#[verifier::external_body]
fn json_bool(b: bool) -> (json: serde_json::Value)
    ensures
        json_contents(json) == JsonView::Bool(b),
{
    serde_json::Value::Bool(b)
}

/// `serde_json::Value::Number`: the value that holds the given number.
#[verifier::external_body]
fn json_number(n: serde_json::Number) -> (json: serde_json::Value)
    ensures
        json_contents(json) == JsonView::Number(n),
{
    serde_json::Value::Number(n)
}

/// `serde_json::Value::String`: the value that holds the given string.
#[verifier::external_body]
fn json_string(s: String) -> (json: serde_json::Value)
    ensures
        json_contents(json) == JsonView::String(s@),
{
    serde_json::Value::String(s)
}

/// `serde_json::Value::Array`: the value that holds the given values, in order.
#[verifier::external_body]
fn json_array(items: Vec<serde_json::Value>) -> (json: serde_json::Value)
    ensures
        json_contents(json) == JsonView::Array(
            items@.map_values(|item: serde_json::Value| json_contents(item)),
        ),
{
    serde_json::Value::Array(items)
}

/// The map that a list of keys and `serde_json` values stands for.
pub open spec fn json_entries(entries: Seq<(String, serde_json::Value)>) -> Map<
    Seq<char>,
    JsonView,
>
    decreases entries.len(),
{
    if entries.len() == 0 {
        Map::empty()
    } else {
        json_entries(entries.drop_last()).insert(
            entries.last().0@,
            json_contents(entries.last().1),
        )
    }
}

/// `FromIterator<(String, Value)>` of `serde_json::Value`: the object that maps each listed key
/// to the value listed with it. No key may be listed twice.
#[verifier::external_body]
fn json_object(entries: Vec<(String, serde_json::Value)>) -> (json: serde_json::Value)
    requires
        entry_keys(entries@).no_duplicates(),
    ensures
        json_contents(json) == JsonView::Object(json_entries(entries@)),
{
    serde_json::Value::from_iter(entries)
}

/// The `serde_json` value that holds the same as `value`.
pub fn to_json(value: &Json) -> (json: serde_json::Value)
    ensures
        json_contents(json) == value@,
    decreases value,
{
    match value {
        Json::Null => json_null(),
        Json::Bool(b) => json_bool(*b),
        Json::Number(n) => json_number(n.clone()),
        Json::String(s) => json_string(s.clone()),
        Json::Array(items) => {
            let mut list: Vec<serde_json::Value> = Vec::new();
            let mut i: usize = 0;
            while i < items.len()
                invariant
                    i <= items@.len(),
                    list@.len() == i,
                    *value == Json::Array(*items),
                    forall|j: int|
                        0 <= j < i ==> json_contents(#[trigger] list@[j]) == items@[j]@,
                decreases items@.len() - i,
            {
                proof {
                    assert(decreases_to!(*value => value->Array_0));
                    assert(decreases_to!(*items => items@[i as int]));
                }
                list.push(to_json(&items[i]));
                i = i + 1;
            }
            assert(list@.map_values(|item: serde_json::Value| json_contents(item)) =~= items_view(
                items@,
            ));
            json_array(list)
        },
        Json::Object(object) => {
            let mut list: Vec<(String, serde_json::Value)> = Vec::new();
            let mut i: usize = 0;
            let count = object.len();
            assert(entry_keys(list@) =~= object.keys().take(0));
            while i < count
                invariant
                    i <= count == object.entries().len(),
                    object.keys().no_duplicates(),
                    *value == Json::Object(*object),
                    entry_keys(list@) == object.keys().take(i as int),
                    json_entries(list@) == entries_view(object.entries().take(i as int)),
                decreases object.entries().len() - i,
            {
                let ghost before = list@;
                let ghost entry = object.entries()[i as int];
                proof {
                    object.lemma_entries_decrease();
                    assert(decreases_to!(*value => value->Object_0));
                    assert(decreases_to!(object.entries() => entry));
                    assert(decreases_to!(entry => entry.1));
                }
                let item = to_json(object.value_at(i));
                list.push((object.key_at(i).clone(), item));
                proof {
                    let taken = object.entries().take(i + 1);
                    assert(taken.drop_last() =~= object.entries().take(i as int));
                    assert(list@.drop_last() =~= before);
                    let keys = object.keys();
                    assert(entry_keys(list@) =~= entry_keys(before).push(keys[i as int]));
                    assert(keys.take(i + 1) =~= keys.take(i as int).push(keys[i as int]));
                }
                i = i + 1;
            }
            assert(object.entries().take(i as int) =~= object.entries());
            assert(object.keys().take(i as int) =~= object.keys());
            json_object(list)
        },
    }
}

} // verus!
