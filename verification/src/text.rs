//! Strings as sequences of characters.

use vstd::prelude::*;

verus! {

/// `String::push` of std: appends the character to the end of the string.
pub assume_specification[ std::string::String::push ](s: &mut std::string::String, c: char)
    ensures
        final(s)@ == old(s)@.push(c),
;

/// Whether `a` and `b` hold the same characters.
pub fn same_text(a: &str, b: &str) -> (r: bool)
    ensures
        r == (a@ == b@),
{
    a.to_owned() == b.to_owned()
}

/// The characters of `s`, in order.
pub fn chars_of(s: &str) -> (r: Vec<char>)
    ensures
        r@ == s@,
{
    let mut r: Vec<char> = Vec::new();
    for c in it: s.chars()
        invariant
            it.seq() == s@,
            r@ == s@.take(it.index()),
    {
        r.push(c);
    }
    assert(s@.take(s@.len() as int) =~= s@);
    r
}

/// The string made of the characters `chars[from..to]`.
pub fn string_of(chars: &Vec<char>, from: usize, to: usize) -> (r: String)
    requires
        from <= to <= chars@.len(),
    ensures
        r@ == chars@.subrange(from as int, to as int),
{
    let mut r = String::new();
    let mut i: usize = from;
    while i < to
        invariant
            from <= i <= to <= chars@.len(),
            r@ =~= chars@.subrange(from as int, i as int),
        decreases to - i,
    {
        r.push(chars[i]);
        i = i + 1;
    }
    r
}

/// `s` without the characters at its start that satisfy `drop`.
pub open spec fn trimmed_start(s: Seq<char>, drop: spec_fn(char) -> bool) -> Seq<char>
    decreases s.len(),
{
    if s.len() > 0 && drop(s[0]) {
        trimmed_start(s.drop_first(), drop)
    } else {
        s
    }
}

/// `s` without the characters at its end that satisfy `drop`.
pub open spec fn trimmed_end(s: Seq<char>, drop: spec_fn(char) -> bool) -> Seq<char>
    decreases s.len(),
{
    if s.len() > 0 && drop(s.last()) {
        trimmed_end(s.drop_last(), drop)
    } else {
        s
    }
}

/// `s` without the characters at its start and at its end that satisfy `drop`.
pub open spec fn trimmed(s: Seq<char>, drop: spec_fn(char) -> bool) -> Seq<char> {
    trimmed_end(trimmed_start(s, drop), drop)
}

/// The part of `s` that trimming leaves lies between the characters that it drops.
proof fn lemma_trimmed_is_subrange(s: Seq<char>, drop: spec_fn(char) -> bool, from: int, to: int)
    requires
        0 <= from <= to <= s.len(),
        forall|i: int| 0 <= i < from ==> drop(#[trigger] s[i]),
        forall|i: int| to <= i < s.len() ==> drop(#[trigger] s[i]),
        from < to ==> !drop(s[from]) && !drop(s[to - 1]),
        from == to ==> from == s.len(),
    ensures
        trimmed(s, drop) == s.subrange(from, to),
    decreases s.len(),
{
    if from > 0 {
        let rest = s.drop_first();
        assert forall|i: int| 0 <= i < from - 1 implies drop(#[trigger] rest[i]) by {
            assert(rest[i] == s[i + 1]);
        }
        assert forall|i: int| to - 1 <= i < rest.len() implies drop(#[trigger] rest[i]) by {
            assert(rest[i] == s[i + 1]);
        }
        assert(drop(s[0]));
        lemma_trimmed_is_subrange(rest, drop, from - 1, to - 1);
        assert(rest.subrange(from - 1, to - 1) =~= s.subrange(from, to));
    } else {
        assert(trimmed_start(s, drop) == s);
        lemma_trimmed_end_is_prefix(s, drop, to);
        assert(s.take(to) =~= s.subrange(from, to));
    }
}

proof fn lemma_trimmed_end_is_prefix(s: Seq<char>, drop: spec_fn(char) -> bool, to: int)
    requires
        0 <= to <= s.len(),
        forall|i: int| to <= i < s.len() ==> drop(#[trigger] s[i]),
        to > 0 ==> !drop(s[to - 1]),
    ensures
        trimmed_end(s, drop) == s.take(to),
    decreases s.len(),
{
    if to < s.len() {
        assert(drop(s[s.len() - 1]));
        let rest = s.drop_last();
        assert forall|i: int| to <= i < rest.len() implies drop(#[trigger] rest[i]) by {
            assert(rest[i] == s[i]);
        }
        lemma_trimmed_end_is_prefix(rest, drop, to);
        assert(rest.take(to) =~= s.take(to));
    } else {
        assert(s.take(to) =~= s);
    }
}

/// What trimming leaves lies within `s`, and neither starts nor ends with a dropped character.
pub proof fn lemma_trimmed(s: Seq<char>, drop: spec_fn(char) -> bool)
    ensures
        trimmed(s, drop).len() <= s.len(),
        forall|i: int|
            0 <= i < trimmed(s, drop).len() ==> s.contains(#[trigger] trimmed(s, drop)[i]),
        trimmed(s, drop).len() > 0 ==> !drop(trimmed(s, drop)[0]) && !drop(
            trimmed(s, drop).last(),
        ),
{
    lemma_trimmed_start(s, drop);
    let t = trimmed_start(s, drop);
    lemma_trimmed_end(t, drop);
    let r = trimmed(s, drop);
    assert forall|i: int| 0 <= i < r.len() implies s.contains(#[trigger] r[i]) by {
        assert(t[i] == r[i]);
        assert(s.contains(t[i]));
    }
}

proof fn lemma_trimmed_start(s: Seq<char>, drop: spec_fn(char) -> bool)
    ensures
        trimmed_start(s, drop).len() <= s.len(),
        forall|i: int|
            0 <= i < trimmed_start(s, drop).len() ==> s.contains(
                #[trigger] trimmed_start(s, drop)[i],
            ),
        trimmed_start(s, drop).len() > 0 ==> !drop(trimmed_start(s, drop)[0]),
    decreases s.len(),
{
    if s.len() > 0 && drop(s[0]) {
        let rest = s.drop_first();
        lemma_trimmed_start(rest, drop);
        let t = trimmed_start(s, drop);
        assert forall|i: int| 0 <= i < t.len() implies s.contains(#[trigger] t[i]) by {
            assert(rest.contains(t[i]));
            let j = choose|j: int| 0 <= j < rest.len() && rest[j] == t[i];
            assert(s[j + 1] == t[i]);
        }
    }
}

proof fn lemma_trimmed_end(s: Seq<char>, drop: spec_fn(char) -> bool)
    ensures
        trimmed_end(s, drop).len() <= s.len(),
        forall|i: int|
            0 <= i < trimmed_end(s, drop).len() ==> s[i] == #[trigger] trimmed_end(s, drop)[i],
        trimmed_end(s, drop).len() > 0 ==> !drop(trimmed_end(s, drop).last()),
    decreases s.len(),
{
    if s.len() > 0 && drop(s.last()) {
        lemma_trimmed_end(s.drop_last(), drop);
    }
}

/// `chars` without the characters at its start and at its end that are marked in `marks`.
pub(crate) fn trim_marked(chars: &Vec<char>, marks: &Vec<bool>, drop: Ghost<spec_fn(char) -> bool>) -> (r:
    String)
    requires
        marks@.len() == chars@.len(),
        forall|i: int| 0 <= i < chars@.len() ==> #[trigger] marks@[i] == drop@(chars@[i]),
    ensures
        r@ == trimmed(chars@, drop@),
{
    let mut from: usize = 0;
    while from < chars.len() && marks[from]
        invariant
            from <= chars@.len(),
            marks@.len() == chars@.len(),
            forall|i: int| 0 <= i < from ==> #[trigger] marks@[i],
        decreases chars@.len() - from,
    {
        from = from + 1;
    }
    let mut to: usize = chars.len();
    while from < to && marks[to - 1]
        invariant
            from <= to <= chars@.len(),
            marks@.len() == chars@.len(),
            from < chars@.len() ==> !marks@[from as int],
            from == to ==> from == chars@.len(),
            forall|i: int| to <= i < chars@.len() ==> #[trigger] marks@[i],
        decreases to,
    {
        to = to - 1;
    }
    proof {
        assert forall|i: int| 0 <= i < from implies (drop@)(#[trigger] chars@[i]) by {
            assert(marks@[i]);
        }
        assert forall|i: int| to <= i < chars@.len() implies (drop@)(#[trigger] chars@[i]) by {
            assert(marks@[i]);
        }
        lemma_trimmed_is_subrange(chars@, drop@, from as int, to as int);
    }
    string_of(chars, from, to)
}

/// What trimming leaves lies between two positions: every character before the first and from the
/// second on is dropped, and what is left neither starts nor ends with one to be dropped.
pub proof fn law_trimming(s: Seq<char>, drop: spec_fn(char) -> bool) -> (r: (int, int))
    ensures
        0 <= r.0 <= r.1 <= s.len(),
        trimmed(s, drop) == s.subrange(r.0, r.1),
        forall|i: int| 0 <= i < r.0 ==> drop(#[trigger] s[i]),
        forall|i: int| r.1 <= i < s.len() ==> drop(#[trigger] s[i]),
        r.0 < r.1 ==> !drop(s[r.0]) && !drop(s[r.1 - 1]),
{
    let from = lemma_start_is_dropped(s, drop);
    let rest = s.skip(from);
    let to = lemma_end_is_dropped(rest, drop);
    assert(rest.take(to) =~= s.subrange(from, from + to));
    assert forall|i: int| from + to <= i < s.len() implies drop(#[trigger] s[i]) by {
        assert(rest[i - from] == s[i]);
    }
    if 0 < to {
        assert(rest[0] == s[from]);
        assert(rest[to - 1] == s[from + to - 1]);
    }
    (from, from + to)
}

/// Where what is left begins when the start is trimmed.
proof fn lemma_start_is_dropped(s: Seq<char>, drop: spec_fn(char) -> bool) -> (from: int)
    ensures
        0 <= from <= s.len(),
        trimmed_start(s, drop) == s.skip(from),
        forall|i: int| 0 <= i < from ==> drop(#[trigger] s[i]),
        from < s.len() ==> !drop(s[from]),
    decreases s.len(),
{
    if s.len() > 0 && drop(s[0]) {
        let rest = s.drop_first();
        let from = lemma_start_is_dropped(rest, drop);
        assert(rest.skip(from) =~= s.skip(from + 1));
        assert forall|i: int| 0 <= i < from + 1 implies drop(#[trigger] s[i]) by {
            if i > 0 {
                assert(rest[i - 1] == s[i]);
            }
        }
        if from < rest.len() {
            assert(rest[from] == s[from + 1]);
        }
        from + 1
    } else {
        assert(s.skip(0) =~= s);
        0
    }
}

/// Where what is left ends when the end is trimmed.
proof fn lemma_end_is_dropped(s: Seq<char>, drop: spec_fn(char) -> bool) -> (to: int)
    ensures
        0 <= to <= s.len(),
        trimmed_end(s, drop) == s.take(to),
        forall|i: int| to <= i < s.len() ==> drop(#[trigger] s[i]),
        to > 0 ==> !drop(s[to - 1]),
    decreases s.len(),
{
    if s.len() > 0 && drop(s.last()) {
        let rest = s.drop_last();
        let to = lemma_end_is_dropped(rest, drop);
        assert(rest.take(to) =~= s.take(to));
        assert forall|i: int| to <= i < s.len() implies drop(#[trigger] s[i]) by {
            if i < rest.len() {
                assert(rest[i] == s[i]);
            }
        }
        to
    } else {
        assert(s.take(s.len() as int) =~= s);
        s.len() as int
    }
}

} // verus!
