//! The lexicographic order of strings, by code point.

use vstd::prelude::*;
use vstd::relations::{sorted_by, total_ordering};
use vstd::seq_lib::lemma_sorted_unique;

use crate::text::chars_of;

verus! {

/// `a` comes strictly before `b`.
pub open spec fn text_less(a: Seq<char>, b: Seq<char>) -> bool
    decreases a.len(),
{
    if b.len() == 0 {
        false
    } else if a.len() == 0 {
        true
    } else if a[0] != b[0] {
        (a[0] as int) < (b[0] as int)
    } else {
        text_less(a.drop_first(), b.drop_first())
    }
}

/// `a` comes before `b`, or is `b`.
pub open spec fn text_at_most(a: Seq<char>, b: Seq<char>) -> bool {
    a == b || text_less(a, b)
}

/// No text comes before itself.
pub proof fn lemma_text_less_irreflexive(a: Seq<char>)
    ensures
        !text_less(a, a),
    decreases a.len(),
{
    if a.len() > 0 {
        lemma_text_less_irreflexive(a.drop_first());
    }
}

/// The order is transitive.
pub proof fn lemma_text_less_transitive(a: Seq<char>, b: Seq<char>, c: Seq<char>)
    requires
        text_less(a, b),
        text_less(b, c),
    ensures
        text_less(a, c),
    decreases a.len(),
{
    if a.len() > 0 && a[0] == b[0] && b[0] == c[0] {
        lemma_text_less_transitive(a.drop_first(), b.drop_first(), c.drop_first());
    }
}

/// Of two different texts one comes before the other.
pub proof fn lemma_text_less_total(a: Seq<char>, b: Seq<char>)
    ensures
        a == b || text_less(a, b) || text_less(b, a),
    decreases a.len(),
{
    if a.len() > 0 && b.len() > 0 && a[0] == b[0] {
        lemma_text_less_total(a.drop_first(), b.drop_first());
        if a.drop_first() == b.drop_first() {
            assert(a =~= seq![a[0]] + a.drop_first());
            assert(b =~= seq![b[0]] + b.drop_first());
        }
    } else if a.len() == 0 && b.len() == 0 {
        assert(a =~= b);
    }
}

/// `text_at_most` is a total order on texts.
pub proof fn lemma_text_at_most_is_total_order()
    ensures
        total_ordering(|a: Seq<char>, b: Seq<char>| text_at_most(a, b)),
{
    let leq = |a: Seq<char>, b: Seq<char>| text_at_most(a, b);
    assert forall|a: Seq<char>, b: Seq<char>| #[trigger] leq(a, b) && #[trigger] leq(b, a) implies a
        == b by {
        if a != b {
            lemma_text_less_transitive(a, b, a);
            lemma_text_less_irreflexive(a);
        }
    }
    assert forall|a: Seq<char>, b: Seq<char>, c: Seq<char>| #[trigger]
        leq(a, b) && #[trigger] leq(b, c) implies leq(a, c) by {
        if a != b && b != c {
            lemma_text_less_transitive(a, b, c);
        }
    }
    assert forall|a: Seq<char>, b: Seq<char>| #[trigger] leq(a, b) || #[trigger] leq(b, a) by {
        lemma_text_less_total(a, b);
    }
}

/// Whether `a` comes strictly before `b`.
pub fn is_less(a: &str, b: &str) -> (r: bool)
    ensures
        r == text_less(a@, b@),
{
    let x = chars_of(a);
    let y = chars_of(b);
    let mut i: usize = 0;
    assert(a@.skip(0) =~= a@);
    assert(b@.skip(0) =~= b@);
    while i < x.len() && i < y.len() && x[i] == y[i]
        invariant
            x@ == a@,
            y@ == b@,
            i <= x@.len(),
            i <= y@.len(),
            text_less(a@, b@) == text_less(a@.skip(i as int), b@.skip(i as int)),
        decreases x@.len() - i,
    {
        assert(a@.skip(i as int).drop_first() =~= a@.skip(i + 1));
        assert(b@.skip(i as int).drop_first() =~= b@.skip(i + 1));
        i = i + 1;
    }
    if i >= y.len() {
        false
    } else if i >= x.len() {
        true
    } else {
        let c = x[i];
        let d = y[i];
        c < d
    }
}

/// The characters of each string.
pub open spec fn texts(strings: Seq<String>) -> Seq<Seq<char>> {
    strings.map_values(|s: String| s@)
}

/// The texts in order.
pub open spec fn in_order(list: Seq<Seq<char>>) -> Seq<Seq<char>> {
    list.sort_by(|a: Seq<char>, b: Seq<char>| text_at_most(a, b))
}

/// However texts are listed, they come out in the same order.
pub proof fn lemma_order_of_listing_is_lost(list: Seq<Seq<char>>, other: Seq<Seq<char>>)
    requires
        list.to_multiset() == other.to_multiset(),
    ensures
        in_order(list) == in_order(other),
{
    let leq = |a: Seq<char>, b: Seq<char>| text_at_most(a, b);
    lemma_text_at_most_is_total_order();
    list.lemma_sort_by_ensures(leq);
    other.lemma_sort_by_ensures(leq);
    lemma_sorted_unique(in_order(list), in_order(other), leq);
}

/// The strings in order.
pub fn sorted(strings: &Vec<String>) -> (r: Vec<String>)
    ensures
        texts(r@) == in_order(texts(strings@)),
{
    let ghost leq = |a: Seq<char>, b: Seq<char>| text_at_most(a, b);
    let mut r: Vec<String> = Vec::new();
    let mut n: usize = 0;
    assert(texts(r@) =~= texts(strings@.take(0)));
    while n < strings.len()
        invariant
            n <= strings@.len(),
            r@.len() == n,
            leq == (|a: Seq<char>, b: Seq<char>| text_at_most(a, b)),
            sorted_by(texts(r@), leq),
            texts(r@).to_multiset() =~= texts(strings@.take(n as int)).to_multiset(),
        decreases strings@.len() - n,
    {
        let ghost before = r@;
        let ghost list = texts(before);
        let ghost x = strings@[n as int]@;
        let mut p: usize = 0;
        while p < r.len() && is_less(r[p].as_str(), strings[n].as_str())
            invariant
                p <= r@.len(),
                n < strings@.len(),
                r@ == before,
                list == texts(before),
                x == strings@[n as int]@,
                forall|i: int| 0 <= i < p ==> text_less(#[trigger] list[i], x),
            decreases r@.len() - p,
        {
            assert(list[p as int] == r@[p as int]@);
            p = p + 1;
        }
        r.insert(p, strings[n].clone());
        proof {
            let longer = texts(r@);
            assert(longer =~= list.insert(p as int, x));
            lemma_text_at_most_is_total_order();
            assert forall|i: int, j: int| 0 <= i < j < longer.len() implies #[trigger] leq(
                longer[i],
                longer[j],
            ) by {
                let i0 = if i < p { i } else { i - 1 };
                let j0 = if j < p { j } else { j - 1 };
                if i != p && j != p {
                    assert(leq(list[i0], list[j0]));
                } else if j == p {
                    assert(text_less(list[i0], x));
                } else {
                    assert(list[p as int] == before[p as int]@);
                    lemma_text_less_total(list[p as int], x);
                    assert(leq(x, list[p as int]));
                    if j0 > p {
                        assert(leq(list[p as int], list[j0]));
                    }
                }
            }
            vstd::seq_lib::to_multiset_insert(list, p as int, x);
            let taken = texts(strings@.take(n as int));
            assert(texts(strings@.take(n + 1)) =~= taken.push(x));
            vstd::seq_lib::to_multiset_build(taken, x);
        }
        n = n + 1;
    }
    proof {
        assert(strings@.take(n as int) =~= strings@);
        lemma_text_at_most_is_total_order();
        texts(strings@).lemma_sort_by_ensures(leq);
        lemma_sorted_unique(texts(r@), in_order(texts(strings@)), leq);
    }
    r
}

/// Both texts agree up to position `i`, and there `a` ends or has the smaller character.
pub open spec fn first_differs(a: Seq<char>, b: Seq<char>, i: int) -> bool {
    &&& 0 <= i <= a.len()
    &&& i < b.len()
    &&& a.take(i) == b.take(i)
    &&& i == a.len() || (a[i] as int) < (b[i] as int)
}

/// One text comes before another where they agree up to some position, and there the one ends or
/// has the smaller character.
pub proof fn law_texts_are_ordered_by_their_first_difference(a: Seq<char>, b: Seq<char>)
    ensures
        text_less(a, b) <==> exists|i: int| #[trigger] first_differs(a, b, i),
    decreases a.len(),
{
    if b.len() > 0 && (a.len() == 0 || a[0] != b[0]) {
        assert(a.take(0) =~= b.take(0));
        assert forall|i: int| #[trigger] first_differs(a, b, i) implies i == 0 by {
            if i > 0 {
                assert(a.take(i)[0] == b.take(i)[0]);
            }
        }
        if text_less(a, b) {
            assert(first_differs(a, b, 0));
        }
    } else if b.len() > 0 {
        let x = a.drop_first();
        let y = b.drop_first();
        law_texts_are_ordered_by_their_first_difference(x, y);
        if text_less(a, b) {
            let i = choose|i: int| #[trigger] first_differs(x, y, i);
            assert(a.take(i + 1) =~= seq![a[0]] + x.take(i));
            assert(b.take(i + 1) =~= seq![b[0]] + y.take(i));
            assert(first_differs(a, b, i + 1));
        }
        assert forall|i: int| #[trigger] first_differs(a, b, i) implies text_less(a, b) by {
            if i > 0 {
                assert(x.take(i - 1) =~= a.take(i).drop_first());
                assert(y.take(i - 1) =~= b.take(i).drop_first());
                assert(first_differs(x, y, i - 1));
            }
        }
    }
}

/// The texts in order are the same texts, each as often, and none comes before one that stands
/// earlier.
pub proof fn law_texts_in_order(list: Seq<Seq<char>>)
    ensures
        in_order(list).to_multiset() == list.to_multiset(),
        in_order(list).len() == list.len(),
        forall|i: int, j: int|
            0 <= i < j < list.len() ==> !text_less(
                #[trigger] in_order(list)[j],
                #[trigger] in_order(list)[i],
            ),
{
    let leq = |a: Seq<char>, b: Seq<char>| text_at_most(a, b);
    lemma_text_at_most_is_total_order();
    list.lemma_sort_by_ensures(leq);
    let sorted = in_order(list);
    sorted.to_multiset_ensures();
    list.to_multiset_ensures();
    assert forall|i: int, j: int| 0 <= i < j < list.len() implies !text_less(
        #[trigger] sorted[j],
        #[trigger] sorted[i],
    ) by {
        assert(leq(sorted[i], sorted[j]));
        lemma_text_less_irreflexive(sorted[i]);
        if text_less(sorted[j], sorted[i]) && sorted[i] != sorted[j] {
            lemma_text_less_transitive(sorted[i], sorted[j], sorted[i]);
        }
    }
}

} // verus!
