//! JSON values: the variables and options that templates are rendered with.

use vstd::prelude::*;

use crate::sorted_map::{entries_map, entry_keys, lemma_entries_map, SortedMap};

verus! {

/// The number type of `serde_json`. The library only carries numbers along.
#[verifier::external_type_specification]
#[verifier::external_body]
pub struct ExNumber(serde_json::Number);

/// `clone` of a `serde_json::Number`, which the crate derives: the copy is the same number.
pub assume_specification[ <serde_json::Number as Clone>::clone ](n: &serde_json::Number) -> (r:
    serde_json::Number)
    ensures
        r == *n,
;

/// A JSON value.
pub enum Json {
    Null,
    Bool(bool),
    Number(serde_json::Number),
    String(String),
    Array(Vec<Json>),
    Object(SortedMap<Json>),
}

/// What a JSON value is: an object maps each of its keys to one value.
#[verifier::ext_equal]
pub enum JsonView {
    Null,
    Bool(bool),
    Number(serde_json::Number),
    String(Seq<char>),
    Array(Seq<JsonView>),
    Object(Map<Seq<char>, JsonView>),
}

impl View for Json {
    type V = JsonView;

    open spec fn view(&self) -> JsonView {
        json_view(*self)
    }
}

/// The view of a value.
pub open spec fn json_view(value: Json) -> JsonView
    decreases value,
{
    match value {
        Json::Null => JsonView::Null,
        Json::Bool(b) => JsonView::Bool(b),
        Json::Number(n) => JsonView::Number(n),
        Json::String(s) => JsonView::String(s@),
        Json::Array(items) => JsonView::Array(items_view(items@)),
        Json::Object(object) => {
            proof {
                object.lemma_entries_decrease();
            }
            JsonView::Object(entries_view(object.entries()))
        },
    }
}

/// The views of a list of values.
pub open spec fn items_view(items: Seq<Json>) -> Seq<JsonView>
    decreases items,
{
    Seq::new(
        items.len(),
        |i: int|
            if 0 <= i < items.len() {
                json_view(items[i])
            } else {
                JsonView::Null
            },
    )
}

/// The map that a list of keys and values stands for.
pub open spec fn entries_view(entries: Seq<(String, Json)>) -> Map<Seq<char>, JsonView>
    decreases entries,
{
    if entries.len() == 0 {
        Map::empty()
    } else {
        entries_view(entries.drop_last()).insert(entries.last().0@, json_view(entries.last().1))
    }
}

/// The object without entries.
pub open spec fn empty_object() -> JsonView {
    JsonView::Object(Map::empty())
}

/// `value`, or the empty object where there is none.
pub open spec fn or_empty_object(value: Option<JsonView>) -> JsonView {
    match value {
        Some(v) => v,
        None => empty_object(),
    }
}

/// The view of an optional value.
pub open spec fn option_view(value: Option<Json>) -> Option<JsonView> {
    match value {
        Some(v) => Some(v@),
        None => None,
    }
}

/// What is stored under `key`, or `Null`.
pub open spec fn entry_or_null(entries: Map<Seq<char>, JsonView>, key: Seq<char>) -> JsonView {
    if entries.contains_key(key) {
        entries[key]
    } else {
        JsonView::Null
    }
}

/// `base` with `patch` laid over it. Where both are objects, a key that `patch` maps to `Null`
/// is taken out, any other key of `patch` is merged into what `base` holds there, and the keys
/// that `patch` does not have stay. In every other case `patch` replaces `base`.
pub open spec fn merged(base: JsonView, patch: JsonView) -> JsonView
    decreases patch,
{
    match (base, patch) {
        (JsonView::Object(old_entries), JsonView::Object(new_entries)) => JsonView::Object(
            Map::new(
                |k: Seq<char>|
                    if new_entries.contains_key(k) {
                        new_entries[k] != JsonView::Null
                    } else {
                        old_entries.contains_key(k)
                    },
                |k: Seq<char>|
                    if new_entries.contains_key(k) {
                        merged(entry_or_null(old_entries, k), new_entries[k])
                    } else {
                        old_entries[k]
                    },
            ),
        ),
        _ => patch,
    }
}

/// The entries of the object that results from laying `patch` over `base`.
pub open spec fn merged_entries(
    base: Map<Seq<char>, JsonView>,
    patch: Map<Seq<char>, JsonView>,
) -> Map<Seq<char>, JsonView> {
    merged(JsonView::Object(base), JsonView::Object(patch))->Object_0
}

/// Laying one more entry over an object changes that entry alone.
proof fn lemma_merged_insert(
    base: Map<Seq<char>, JsonView>,
    patch: Map<Seq<char>, JsonView>,
    key: Seq<char>,
    value: JsonView,
)
    requires
        !patch.contains_key(key),
    ensures
        entry_or_null(merged_entries(base, patch), key) == entry_or_null(base, key),
        merged_entries(base, patch).contains_key(key) == base.contains_key(key),
        merged_entries(base, patch.insert(key, value)) == if value == JsonView::Null {
            merged_entries(base, patch).remove(key)
        } else {
            merged_entries(base, patch).insert(key, merged(entry_or_null(base, key), value))
        },
{
    let bigger = patch.insert(key, value);
    let result = merged_entries(base, bigger);
    if value == JsonView::Null {
        assert(result =~= merged_entries(base, patch).remove(key));
    } else {
        assert(result =~= merged_entries(base, patch).insert(
            key,
            merged(entry_or_null(base, key), value),
        ));
    }
}

/// Laying nothing over an object leaves it as it is.
pub proof fn lemma_merged_nothing(base: Map<Seq<char>, JsonView>)
    ensures
        merged(JsonView::Object(base), empty_object()) == JsonView::Object(base),
{
    assert(merged_entries(base, Map::empty()) =~= base);
}

/// The map of a list of entries, value by value, is the view of the list.
pub proof fn lemma_entries_view(entries: Seq<(String, Json)>)
    ensures
        entries_view(entries) == entries_map(entries).map_values(|v: Json| v@),
    decreases entries.len(),
{
    if entries.len() > 0 {
        lemma_entries_view(entries.drop_last());
    }
    assert(entries_view(entries) =~= entries_map(entries).map_values(|v: Json| v@));
}

impl Clone for Json {
    fn clone(&self) -> (r: Self)
        ensures
            r@ == self@,
        decreases self,
    {
        match self {
            Json::Null => Json::Null,
            Json::Bool(b) => Json::Bool(*b),
            Json::Number(n) => Json::Number(n.clone()),
            Json::String(s) => Json::String(s.clone()),
            Json::Array(items) => {
                let mut copy: Vec<Json> = Vec::new();
                let mut i: usize = 0;
                while i < items.len()
                    invariant
                        i <= items@.len(),
                        copy@.len() == i,
                        *self == Json::Array(*items),
                        forall|j: int| 0 <= j < i ==> (#[trigger] copy@[j])@ == items@[j]@,
                    decreases items@.len() - i,
                {
                    proof {
                        assert(decreases_to!(*self => self->Array_0));
                        assert(decreases_to!(*items => items@[i as int]));
                    }
                    copy.push(items[i].clone());
                    i = i + 1;
                }
                assert(items_view(copy@) =~= items_view(items@));
                Json::Array(copy)
            },
            Json::Object(object) => {
                let mut copy: SortedMap<Json> = SortedMap::new();
                let mut i: usize = 0;
                while i < object.len()
                    invariant
                        i <= object.entries().len(),
                        *self == Json::Object(*object),
                        entries_view(copy.entries()) == entries_view(object.entries().take(i as int)),
                    decreases object.entries().len() - i,
                {
                    let ghost before = copy.entries();
                    let ghost entry = object.entries()[i as int];
                    proof {
                        object.lemma_entries_decrease();
                        assert(decreases_to!(*self => self->Object_0));
                        assert(decreases_to!(object.entries() => entry));
                        assert(decreases_to!(entry => entry.1));
                    }
                    let value = object.value_at(i).clone();
                    copy.insert(object.key_at(i).clone(), value);
                    proof {
                        lemma_entries_view(before);
                        lemma_entries_view(copy.entries());
                        let taken = object.entries().take(i + 1);
                        assert(taken.drop_last() =~= object.entries().take(i as int));
                        assert(taken.last() == entry);
                        assert(entries_view(copy.entries()) =~= entries_view(taken));
                    }
                    i = i + 1;
                }
                assert(object.entries().take(i as int) =~= object.entries());
                Json::Object(copy)
            },
        }
    }
}

/// The object without entries.
pub fn default_serde_object() -> (r: Json)
    ensures
        r@ == empty_object(),
{
    Json::Object(SortedMap::new())
}

/// Stores `value` in an object under `key`.
pub fn put(object: &mut SortedMap<Json>, key: &str, value: Json)
    ensures
        entries_view(final(object).entries()) == entries_view(old(object).entries()).insert(
            key@,
            value@,
        ),
{
    proof {
        lemma_entries_view(object.entries());
    }
    object.insert(key.to_owned(), value);
    proof {
        lemma_entries_view(object.entries());
        assert(entries_view(object.entries()) =~= entries_view(old(object).entries()).insert(
            key@,
            value@,
        ));
    }
}

/// A copy of `value`, or the empty object where there is none.
pub fn copy_or_empty(value: &Option<Json>) -> (r: Json)
    ensures
        r@ == or_empty_object(option_view(*value)),
{
    match value {
        Some(v) => v.clone(),
        None => default_serde_object(),
    }
}

/// Lays `b` over `a`.
pub fn merge(a: &mut Json, b: Json)
    ensures
        final(a)@ == merged(old(a)@, b@),
{
    let mut base = Json::Null;
    std::mem::swap(a, &mut base);
    *a = merge_into(base, b);
}

/// `base` with `patch` laid over it.
fn merge_into(base: Json, patch: Json) -> (r: Json)
    ensures
        r@ == merged(base@, patch@),
    decreases patch,
{
    match base {
        Json::Object(object) => match patch {
            Json::Object(changes) => {
                let ghost base_entries = entries_view(object.entries());
                let ghost all = changes.entries();
                proof {
                    changes.lemma_entries_decrease();
                    assert(decreases_to!(patch => patch->Object_0));
                    lemma_merged_nothing(base_entries);
                }
                let mut result = object;
                for entry in it: changes.into_entries()
                    invariant
                        it.seq() == all,
                        entry_keys(all).no_duplicates(),
                        decreases_to!(patch => all),
                        entries_view(result.entries()) == merged_entries(
                            base_entries,
                            entries_view(all.take(it.index())),
                        ),
                {
                    let ghost n = it.index();
                    let ghost done = all.take(n);
                    let ghost before = result.entries();
                    let (key, value) = entry;
                    proof {
                        assert(all[n] == (key, value));
                        assert(decreases_to!(all => all[n]));
                        assert(decreases_to!(all[n] => all[n].1));
                        assert(all.take(n + 1).drop_last() =~= done);
                        assert(entry_keys(done) =~= entry_keys(all).take(n));
                        lemma_entries_view(done);
                        lemma_entries_map(done);
                        if entries_view(done).contains_key(key@) {
                            let i = choose|i: int|
                                0 <= i < done.len() && (#[trigger] done[i]).0@ == key@;
                            assert(entry_keys(all)[i] == entry_keys(all)[n]);
                        }
                        lemma_merged_insert(base_entries, entries_view(done), key@, value@);
                        lemma_entries_view(before);
                    }
                    if let Json::Null = value {
                        let _ = result.remove(key.as_str());
                    } else {
                        let old_value = match result.remove(key.as_str()) {
                            Some(v) => v,
                            None => Json::Null,
                        };
                        let new_value = merge_into(old_value, value);
                        result.insert(key, new_value);
                    }
                    proof {
                        lemma_entries_view(result.entries());
                        assert(entries_view(result.entries()) =~= merged_entries(
                            base_entries,
                            entries_view(all.take(n + 1)),
                        ));
                    }
                }
                assert(all.take(all.len() as int) =~= all);
                Json::Object(result)
            },
            other => other,
        },
        _ => patch,
    }
}

} // verus!
