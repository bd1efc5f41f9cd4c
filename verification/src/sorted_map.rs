//! A map keyed by strings that keeps its entries in key order.

use vstd::prelude::*;
use vstd::relations::sorted_by;
use vstd::seq_lib::lemma_sorted_unique;

use crate::order::{
    is_less, lemma_text_at_most_is_total_order, lemma_text_less_irreflexive, lemma_text_less_total,
    lemma_text_less_transitive, text_at_most, text_less,
};
use crate::text::same_text;

verus! {

/// The keys of a list of entries, in order.
pub open spec fn entry_keys<V>(entries: Seq<(String, V)>) -> Seq<Seq<char>> {
    entries.map_values(|e: (String, V)| e.0@)
}

/// The map that a list of entries stands for.
pub open spec fn entries_map<V>(entries: Seq<(String, V)>) -> Map<Seq<char>, V>
    decreases entries.len(),
{
    if entries.len() == 0 {
        Map::empty()
    } else {
        entries_map(entries.drop_last()).insert(entries.last().0@, entries.last().1)
    }
}

/// Every key comes strictly before the keys that follow it.
pub open spec fn strictly_increasing(keys: Seq<Seq<char>>) -> bool {
    forall|i: int, j: int|
        #![trigger keys[i], keys[j]]
        0 <= i < j < keys.len() ==> text_less(keys[i], keys[j])
}

/// In increasing order no key occurs twice.
pub proof fn lemma_increasing_is_distinct(keys: Seq<Seq<char>>)
    requires
        strictly_increasing(keys),
    ensures
        keys.no_duplicates(),
{
    assert forall|i: int, j: int|
        0 <= i < keys.len() && 0 <= j < keys.len() && i != j implies keys[i] != keys[j] by {
        lemma_text_less_irreflexive(keys[i]);
        if i < j {
            assert(text_less(keys[i], keys[j]));
        } else {
            assert(text_less(keys[j], keys[i]));
        }
    }
}

/// The keys of a finite set, in increasing order.
pub open spec fn keys_in_order(keys: Set<Seq<char>>) -> Seq<Seq<char>> {
    choose|list: Seq<Seq<char>>| strictly_increasing(list) && #[trigger] list.to_set() == keys
}

/// There is one way only to list keys in increasing order.
pub proof fn lemma_one_increasing_list(a: Seq<Seq<char>>, b: Seq<Seq<char>>)
    requires
        strictly_increasing(a),
        strictly_increasing(b),
        a.to_set() == b.to_set(),
    ensures
        a == b,
{
    broadcast use vstd::multiset::group_multiset_axioms;

    let leq = |x: Seq<char>, y: Seq<char>| text_at_most(x, y);
    lemma_text_at_most_is_total_order();
    lemma_increasing_is_distinct(a);
    lemma_increasing_is_distinct(b);
    a.lemma_multiset_has_no_duplicates();
    b.lemma_multiset_has_no_duplicates();
    a.to_multiset_ensures();
    b.to_multiset_ensures();
    assert forall|k: Seq<char>| a.to_multiset().count(k) == b.to_multiset().count(k) by {
        assert(a.to_set().contains(k) == a.contains(k));
        assert(b.to_set().contains(k) == b.contains(k));
        assert(a.contains(k) <==> a.to_multiset().count(k) > 0);
        assert(b.contains(k) <==> b.to_multiset().count(k) > 0);
        assert(a.to_multiset().contains(k) ==> a.to_multiset().count(k) == 1);
        assert(b.to_multiset().contains(k) ==> b.to_multiset().count(k) == 1);
    }
    assert(a.to_multiset() =~= b.to_multiset());
    assert(sorted_by(a, leq));
    assert(sorted_by(b, leq));
    lemma_sorted_unique(a, b, leq);
}

/// A list of keys in increasing order is the one that `keys_in_order` picks.
pub proof fn lemma_keys_in_order(list: Seq<Seq<char>>)
    requires
        strictly_increasing(list),
    ensures
        keys_in_order(list.to_set()) == list,
{
    lemma_one_increasing_list(keys_in_order(list.to_set()), list);
}

/// A key more can be put where it belongs in a list in increasing order.
proof fn lemma_put_in_order(list: Seq<Seq<char>>, key: Seq<char>) -> (r: Seq<Seq<char>>)
    requires
        strictly_increasing(list),
        !list.contains(key),
    ensures
        strictly_increasing(r),
        forall|k: Seq<char>| #[trigger] r.contains(k) <==> k == key || list.contains(k),
    decreases list.len(),
{
    if list.len() == 0 {
        let r = seq![key];
        assert(r[0] == key);
        r
    } else {
        let last = list.last();
        let n = list.len() - 1;
        assert(list.contains(list[n]));
        lemma_text_less_total(last, key);
        if text_less(last, key) {
            let r = list.push(key);
            assert forall|i: int, j: int|
                #![trigger r[i], r[j]]
                0 <= i < j < r.len() implies text_less(r[i], r[j]) by {
                if j == list.len() && i < n {
                    assert(text_less(list[i], list[n]));
                    lemma_text_less_transitive(list[i], last, key);
                } else if j < list.len() {
                    assert(text_less(list[i], list[j]));
                }
            }
            assert forall|k: Seq<char>| #[trigger] r.contains(k) <==> k == key || list.contains(k) by {
                assert(r[list.len() as int] == key);
                if list.contains(k) {
                    let i = choose|i: int| 0 <= i < list.len() && list[i] == k;
                    assert(r[i] == k);
                }
            }
            r
        } else {
            let rest = list.drop_last();
            assert forall|i: int| 0 <= i < rest.len() implies rest[i] != key by {
                assert(list.contains(list[i]));
            }
            let shorter = lemma_put_in_order(rest, key);
            let r = shorter.push(last);
            assert forall|i: int, j: int|
                #![trigger r[i], r[j]]
                0 <= i < j < r.len() implies text_less(r[i], r[j]) by {
                if j == shorter.len() {
                    assert(shorter.contains(shorter[i]));
                    if shorter[i] != key {
                        let m = choose|m: int| 0 <= m < rest.len() && rest[m] == shorter[i];
                        assert(text_less(list[m], list[n]));
                    }
                } else {
                    assert(text_less(shorter[i], shorter[j]));
                }
            }
            assert forall|k: Seq<char>| #[trigger] r.contains(k) <==> k == key || list.contains(k) by {
                assert(r[shorter.len() as int] == last);
                if shorter.contains(k) {
                    let i = choose|i: int| 0 <= i < shorter.len() && shorter[i] == k;
                    assert(r[i] == k);
                    if k != key {
                        let m = choose|m: int| 0 <= m < rest.len() && rest[m] == k;
                        assert(list[m] == k);
                    }
                }
                if list.contains(k) && k != last {
                    let i = choose|i: int| 0 <= i < list.len() && list[i] == k;
                    assert(rest[i] == k);
                    assert(shorter.contains(k));
                }
                if k == key {
                    assert(shorter.contains(k));
                }
            }
            r
        }
    }
}

/// The keys of a finite set can be listed in increasing order.
proof fn lemma_keys_can_be_listed(keys: Set<Seq<char>>) -> (r: Seq<Seq<char>>)
    requires
        keys.finite(),
    ensures
        strictly_increasing(r),
        r.to_set() == keys,
    decreases keys.len(),
{
    if keys.len() == 0 {
        assert(keys =~= Set::empty());
        assert(Seq::<Seq<char>>::empty().to_set() =~= keys);
        Seq::empty()
    } else {
        let key = keys.choose();
        let rest = lemma_keys_can_be_listed(keys.remove(key));
        assert(!keys.remove(key).contains(key));
        assert(!rest.to_set().contains(key));
        let r = lemma_put_in_order(rest, key);
        assert forall|k: Seq<char>| #[trigger] r.to_set().contains(k) == keys.contains(k) by {
            assert(rest.to_set().contains(k) == keys.remove(key).contains(k));
            assert(r.contains(k) <==> k == key || rest.contains(k));
        }
        assert(r.to_set() =~= keys);
        r
    }
}

/// The keys of a finite set in order are all of its keys, none twice, and each comes before those
/// that follow it.
pub proof fn law_keys_in_order(keys: Set<Seq<char>>)
    requires
        keys.finite(),
    ensures
        keys_in_order(keys).to_set() == keys,
        keys_in_order(keys).no_duplicates(),
        forall|i: int, j: int|
            0 <= i < j < keys_in_order(keys).len() ==> text_less(
                #[trigger] keys_in_order(keys)[i],
                #[trigger] keys_in_order(keys)[j],
            ),
{
    let list = lemma_keys_can_be_listed(keys);
    lemma_keys_in_order(list);
    lemma_increasing_is_distinct(list);
}

/// Where no key occurs twice, the map holds exactly the listed entries.
pub proof fn lemma_entries_map<V>(entries: Seq<(String, V)>)
    requires
        entry_keys(entries).no_duplicates(),
    ensures
        forall|i: int|
            0 <= i < entries.len() ==> entries_map(entries).contains_key(
                (#[trigger] entries[i]).0@,
            ) && entries_map(entries)[entries[i].0@] == entries[i].1,
        forall|k: Seq<char>| #[trigger]
            entries_map(entries).contains_key(k) ==> exists|i: int|
                0 <= i < entries.len() && (#[trigger] entries[i]).0@ == k,
        entries_map(entries).dom() =~= entry_keys(entries).to_set(),
    decreases entries.len(),
{
    let keys = entry_keys(entries);
    if entries.len() > 0 {
        let rest = entries.drop_last();
        assert(entry_keys(rest) =~= keys.drop_last());
        lemma_entries_map(rest);
        assert forall|i: int| 0 <= i < entries.len() implies entries_map(entries).contains_key(
            (#[trigger] entries[i]).0@,
        ) && entries_map(entries)[entries[i].0@] == entries[i].1 by {
            if i < rest.len() {
                assert(rest[i] == entries[i]);
                assert(keys[i] != keys[entries.len() - 1]);
            }
        }
        assert forall|k: Seq<char>| #[trigger] entries_map(entries).contains_key(k) implies exists|
            i: int,
        |
            0 <= i < entries.len() && (#[trigger] entries[i]).0@ == k by {
            if k == entries.last().0@ {
                assert(entries[entries.len() - 1].0@ == k);
            } else {
                assert(entries_map(rest).contains_key(k));
                let i = choose|i: int| 0 <= i < rest.len() && (#[trigger] rest[i]).0@ == k;
                assert(entries[i].0@ == k);
            }
        }
    }
    assert forall|k: Seq<char>| #[trigger] keys.to_set().contains(k) implies entries_map(
        entries,
    ).dom().contains(k) by {
        let i = choose|i: int| 0 <= i < keys.len() && keys[i] == k;
        assert(entries[i].0@ == k);
    }
    assert forall|k: Seq<char>| #[trigger] entries_map(entries).dom().contains(k) implies
        keys.to_set().contains(k) by {
        assert(entries_map(entries).contains_key(k));
        let i = choose|i: int| 0 <= i < entries.len() && (#[trigger] entries[i]).0@ == k;
        assert(keys[i] == k);
    }
}

/// A map from strings to values. Its entries are kept in key order, one for each key.
pub struct SortedMap<V> {
    entries: Vec<(String, V)>,
}

impl<V> SortedMap<V> {
    #[verifier::type_invariant]
    spec fn in_order(self) -> bool {
        strictly_increasing(entry_keys(self.entries@))
    }

    /// The entries, in key order.
    pub closed spec fn entries(self) -> Seq<(String, V)> {
        self.entries@
    }

    /// The keys, in order.
    pub open spec fn keys(self) -> Seq<Seq<char>> {
        entry_keys(self.entries())
    }

    /// The map from keys to values.
    pub open spec fn map(self) -> Map<Seq<char>, V> {
        entries_map(self.entries())
    }

    /// A map is larger than the list of its entries.
    pub proof fn lemma_entries_decrease(self)
        ensures
            decreases_to!(self => self.entries()),
    {
    }

    /// The keys are in order, and the map holds exactly the listed entries.
    proof fn lemma_in_order(entries: Seq<(String, V)>)
        requires
            strictly_increasing(entry_keys(entries)),
        ensures
            entry_keys(entries).no_duplicates(),
            forall|i: int|
                0 <= i < entries.len() ==> entries_map(entries).contains_key(
                    (#[trigger] entries[i]).0@,
                ) && entries_map(entries)[entries[i].0@] == entries[i].1,
            forall|k: Seq<char>| #[trigger]
                entries_map(entries).contains_key(k) ==> exists|i: int|
                    0 <= i < entries.len() && (#[trigger] entries[i]).0@ == k,
            entries_map(entries).dom() =~= entry_keys(entries).to_set(),
    {
        lemma_increasing_is_distinct(entry_keys(entries));
        lemma_entries_map(entries);
    }

    /// The map without entries.
    pub fn new() -> (r: Self)
        ensures
            r.entries() == Seq::<(String, V)>::empty(),
            r.map() == Map::<Seq<char>, V>::empty(),
    {
        SortedMap { entries: Vec::new() }
    }

    /// The number of entries. That the entries are in key order, one for each key, is stated here
    /// and where an entry is taken by its position, for callers that walk over them.
    pub fn len(&self) -> (n: usize)
        ensures
            n == self.entries().len(),
            strictly_increasing(self.keys()),
            self.keys().no_duplicates(),
            self.map().dom() == self.keys().to_set(),
            self.keys() == keys_in_order(self.map().dom()),
    {
        proof {
            use_type_invariant(self);
            Self::lemma_in_order(self.entries@);
            lemma_keys_in_order(self.keys());
        }
        self.entries.len()
    }

    /// The key of the entry at `i`, in key order.
    pub fn key_at(&self, i: usize) -> (key: &String)
        requires
            i < self.entries().len(),
        ensures
            *key == self.entries()[i as int].0,
            key@ == self.keys()[i as int],
            self.map().contains_key(key@),
            self.keys() == keys_in_order(self.map().dom()),
            self.entries().len() <= usize::MAX,
    {
        proof {
            use_type_invariant(self);
            Self::lemma_in_order(self.entries@);
            lemma_keys_in_order(self.keys());
            assert(self.entries.len() <= usize::MAX);
        }
        &self.entries[i].0
    }

    /// The key at `i`, counted in the order of the keys of the map.
    pub fn nth_key(&self, i: usize) -> (key: &String)
        requires
            i < keys_in_order(self.map().dom()).len(),
        ensures
            key@ == keys_in_order(self.map().dom())[i as int],
            i < self.entries().len(),
    {
        proof {
            use_type_invariant(self);
            Self::lemma_in_order(self.entries@);
            lemma_keys_in_order(self.keys());
        }
        self.key_at(i)
    }

    /// The value of the entry at `i`, in key order.
    pub fn value_at(&self, i: usize) -> (value: &V)
        requires
            i < self.entries().len(),
        ensures
            *value == self.entries()[i as int].1,
            self.map().contains_key(self.keys()[i as int]),
            *value == self.map()[self.keys()[i as int]],
            self.keys() == keys_in_order(self.map().dom()),
            self.entries().len() <= usize::MAX,
    {
        proof {
            use_type_invariant(self);
            Self::lemma_in_order(self.entries@);
            lemma_keys_in_order(self.keys());
            assert(self.entries.len() <= usize::MAX);
        }
        &self.entries[i].1
    }

    /// The first position in `entries` whose key does not come before `key`.
    fn position(entries: &Vec<(String, V)>, key: &str) -> (p: usize)
        requires
            strictly_increasing(entry_keys(entries@)),
        ensures
            p <= entries@.len(),
            forall|i: int| 0 <= i < p ==> text_less(#[trigger] entry_keys(entries@)[i], key@),
            forall|i: int|
                p <= i < entries@.len() ==> entry_keys(entries@)[i] == key@ && i == p || text_less(
                    key@,
                    #[trigger] entry_keys(entries@)[i],
                ),
    {
        let ghost keys = entry_keys(entries@);
        let mut p: usize = 0;
        while p < entries.len() && is_less(entries[p].0.as_str(), key)
            invariant
                p <= entries@.len(),
                keys == entry_keys(entries@),
                forall|i: int| 0 <= i < p ==> text_less(#[trigger] keys[i], key@),
            decreases entries@.len() - p,
        {
            assert(keys[p as int] == entries@[p as int].0@);
            p = p + 1;
        }
        proof {
            assert forall|i: int| p <= i < entries@.len() implies keys[i] == key@ && i == p
                || text_less(key@, #[trigger] keys[i]) by {
                assert(keys[p as int] == entries@[p as int].0@);
                lemma_text_less_total(keys[p as int], key@);
                if i > p {
                    assert(text_less(keys[p as int], keys[i]));
                    if keys[p as int] != key@ {
                        lemma_text_less_transitive(key@, keys[p as int], keys[i]);
                    }
                }
            }
        }
        p
    }

    /// Whether position `p` of `entries` holds `key`.
    fn holds_at(entries: &Vec<(String, V)>, p: usize, key: &str) -> (r: bool)
        ensures
            r == (p < entries@.len() && entries@[p as int].0@ == key@),
    {
        p < entries.len() && same_text(entries[p].0.as_str(), key)
    }

    /// The value stored under `key`.
    pub fn get(&self, key: &str) -> (r: Option<&V>)
        ensures
            r is Some <==> self.map().contains_key(key@),
            r matches Some(value) ==> *value == self.map()[key@],
    {
        proof {
            use_type_invariant(self);
            Self::lemma_in_order(self.entries@);
        }
        let p = Self::position(&self.entries, key);
        if Self::holds_at(&self.entries, p, key) {
            Some(&self.entries[p].1)
        } else {
            proof {
                if self.map().contains_key(key@) {
                    let i = choose|i: int|
                        0 <= i < self.entries@.len() && (#[trigger] self.entries@[i]).0@ == key@;
                    assert(self.keys()[i] == key@);
                    lemma_text_less_irreflexive(key@);
                }
            }
            None
        }
    }

    /// Whether there is a value under `key`.
    pub fn contains_key(&self, key: &str) -> (r: bool)
        ensures
            r == self.map().contains_key(key@),
    {
        self.get(key).is_some()
    }

    /// Stores `value` under `key`, in place of what was there.
    pub fn insert(&mut self, key: String, value: V)
        ensures
            final(self).map() == old(self).map().insert(key@, value),
    {
        proof {
            use_type_invariant(&*self);
        }
        let ghost before = self.entries@;
        let mut entries: Vec<(String, V)> = Vec::new();
        std::mem::swap(&mut entries, &mut self.entries);
        let p = Self::position(&entries, key.as_str());
        let ghost keys = entry_keys(before);
        proof {
            Self::lemma_in_order(before);
        }
        if Self::holds_at(&entries, p, key.as_str()) {
            entries.set(p, (key, value));
            assert(entry_keys(entries@) =~= keys);
        } else {
            entries.insert(p, (key, value));
            assert(entry_keys(entries@) =~= keys.insert(p as int, key@));
            assert forall|i: int, j: int|
                #![trigger entry_keys(entries@)[i], entry_keys(entries@)[j]]
                0 <= i < j < entries@.len() implies text_less(
                entry_keys(entries@)[i],
                entry_keys(entries@)[j],
            ) by {
                let i0 = if i < p { i } else { i - 1 };
                let j0 = if j < p { j } else { j - 1 };
                if i != p && j != p {
                    assert(text_less(keys[i0], keys[j0]));
                } else if i == p {
                    assert(keys[p as int] == before[p as int].0@);
                    assert(text_less(key@, keys[j0]));
                } else {
                    assert(text_less(keys[i0], key@));
                }
            }
        }
        let ghost after = entries@;
        proof {
            Self::lemma_in_order(after);
            assert forall|k: Seq<char>| entries_map(after).contains_key(k) <==> entries_map(
                before,
            ).insert(key@, value).contains_key(k) by {
                if entries_map(after).contains_key(k) {
                    let i = choose|i: int|
                        0 <= i < after.len() && (#[trigger] after[i]).0@ == k;
                    if k != key@ {
                        if i < p || after.len() == before.len() {
                            assert(before[i].0@ == k);
                        } else {
                            assert(before[i - 1].0@ == k);
                        }
                    }
                }
                if entries_map(before).contains_key(k) && k != key@ {
                    let i = choose|i: int|
                        0 <= i < before.len() && (#[trigger] before[i]).0@ == k;
                    if i < p || after.len() == before.len() {
                        assert(after[i].0@ == k);
                    } else {
                        assert(after[i + 1].0@ == k);
                    }
                }
                assert(after[p as int].0@ == key@);
            }
            assert forall|k: Seq<char>| #[trigger]
                entries_map(after).contains_key(k) implies entries_map(after)[k] == entries_map(
                before,
            ).insert(key@, value)[k] by {
                let i = choose|i: int| 0 <= i < after.len() && (#[trigger] after[i]).0@ == k;
                assert(after[p as int].0@ == key@);
                if k != key@ {
                    if i < p || after.len() == before.len() {
                        assert(before[i] == after[i]);
                    } else {
                        assert(before[i - 1] == after[i]);
                    }
                }
            }
            assert(entries_map(after) =~= entries_map(before).insert(key@, value));
        }
        self.entries = entries;
    }

    /// Takes out the value stored under `key`, if there is one.
    pub fn remove(&mut self, key: &str) -> (r: Option<V>)
        ensures
            final(self).map() == old(self).map().remove(key@),
            r is Some <==> old(self).map().contains_key(key@),
            r matches Some(value) ==> value == old(self).map()[key@],
    {
        proof {
            use_type_invariant(&*self);
        }
        let ghost before = self.entries@;
        let mut entries: Vec<(String, V)> = Vec::new();
        std::mem::swap(&mut entries, &mut self.entries);
        let p = Self::position(&entries, key);
        let ghost keys = entry_keys(before);
        proof {
            Self::lemma_in_order(before);
        }
        let r: Option<V> = if Self::holds_at(&entries, p, key) {
            let (_, value) = entries.remove(p);
            let ghost after = entries@;
            proof {
                assert(entry_keys(after) =~= keys.remove(p as int));
                assert forall|i: int, j: int|
                    #![trigger entry_keys(after)[i], entry_keys(after)[j]]
                    0 <= i < j < after.len() implies text_less(
                    entry_keys(after)[i],
                    entry_keys(after)[j],
                ) by {
                    let i0 = if i < p { i } else { i + 1 };
                    let j0 = if j < p { j } else { j + 1 };
                    assert(text_less(keys[i0], keys[j0]));
                }
                Self::lemma_in_order(after);
                assert(keys[p as int] == key@);
                assert forall|k: Seq<char>| entries_map(after).contains_key(k) <==> entries_map(
                    before,
                ).remove(key@).contains_key(k) by {
                    if entries_map(after).contains_key(k) {
                        let i = choose|i: int|
                            0 <= i < after.len() && (#[trigger] after[i]).0@ == k;
                        let i0 = if i < p { i } else { i + 1 };
                        assert(before[i0].0@ == k);
                        assert(keys[i0] != keys[p as int]);
                    }
                    if entries_map(before).contains_key(k) && k != key@ {
                        let i = choose|i: int|
                            0 <= i < before.len() && (#[trigger] before[i]).0@ == k;
                        let i0 = if i < p { i } else { i - 1 };
                        assert(after[i0].0@ == k);
                    }
                }
                assert forall|k: Seq<char>| #[trigger]
                    entries_map(after).contains_key(k) implies entries_map(after)[k]
                    == entries_map(before).remove(key@)[k] by {
                    let i = choose|i: int| 0 <= i < after.len() && (#[trigger] after[i]).0@ == k;
                    let i0 = if i < p { i } else { i + 1 };
                    assert(before[i0] == after[i]);
                    assert(keys[i0] != keys[p as int]);
                }
                assert(entries_map(after) =~= entries_map(before).remove(key@));
            }
            Some(value)
        } else {
            proof {
                if entries_map(before).contains_key(key@) {
                    let i = choose|i: int|
                        0 <= i < before.len() && (#[trigger] before[i]).0@ == key@;
                    assert(keys[i] == key@);
                    lemma_text_less_irreflexive(key@);
                }
                assert(entries_map(before) =~= entries_map(before).remove(key@));
            }
            None
        };
        self.entries = entries;
        r
    }

    /// The entries themselves, in key order.
    pub fn into_entries(self) -> (entries: Vec<(String, V)>)
        ensures
            entries@ == self.entries(),
            strictly_increasing(self.keys()),
            self.keys().no_duplicates(),
            self.map().dom() == self.keys().to_set(),
    {
        proof {
            use_type_invariant(&self);
            Self::lemma_in_order(self.entries@);
        }
        self.entries
    }
}

} // verus!
