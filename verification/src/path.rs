//! Paths, part by part.

use vstd::prelude::*;

use crate::text::{chars_of, string_of};

verus! {

/// A part of a path.
pub enum PathPart {
    /// What stands before the root, such as a drive.
    Prefix(String),
    /// The root.
    Root,
    /// The folder itself, `.`.
    Current,
    /// The folder above, `..`.
    Parent,
    /// A file or folder of that name.
    Normal(String),
}

/// The path without its last part. A path that is empty or ends in its root has none.
pub open spec fn parent_of(path: Seq<PathPart>) -> Option<Seq<PathPart>> {
    if path.len() == 0 || path.last() is Prefix || path.last() is Root {
        None
    } else {
        Some(path.drop_last())
    }
}

/// The name of the file or folder that the path leads to, where it ends in a name.
pub open spec fn name_of(path: Seq<PathPart>) -> Option<Seq<char>> {
    if path.len() == 0 {
        None
    } else {
        match path.last() {
            PathPart::Normal(name) => Some(name@),
            _ => None,
        }
    }
}

/// The name of the folder that the file or folder at the end of the path lies in.
pub open spec fn parent_name_of(path: Seq<PathPart>) -> Option<Seq<char>> {
    match parent_of(path) {
        Some(parent) => name_of(parent),
        None => None,
    }
}

/// `part` adjoined to `base` with a `/` between them. An absolute `part` stands alone.
pub open spec fn joined(base: Seq<char>, part: Seq<char>) -> Seq<char> {
    if part.len() > 0 && part[0] == '/' {
        part
    } else if base.len() == 0 || base.last() == '/' {
        base + part
    } else {
        base.push('/') + part
    }
}

/// The name at the position before `end`, where the path has one there.
fn name_before(path: &Vec<PathPart>, end: usize) -> (r: Option<String>)
    requires
        end <= path@.len(),
    ensures
        match r {
            Some(name) => name_of(path@.take(end as int)) == Some(name@),
            None => name_of(path@.take(end as int)) is None,
        },
{
    if end == 0 {
        return None;
    }
    assert(path@.take(end as int).last() == path@[end - 1]);
    match &path[end - 1] {
        PathPart::Normal(name) => Some(name.clone()),
        _ => None,
    }
}

/// The name of the file or folder that the path leads to.
pub fn file_name(path: &Vec<PathPart>) -> (r: Option<String>)
    ensures
        match r {
            Some(name) => name_of(path@) == Some(name@),
            None => name_of(path@) is None,
        },
{
    assert(path@.take(path@.len() as int) =~= path@);
    name_before(path, path.len())
}

/// The name of the folder that the file or folder at the end of the path lies in.
pub fn parent_name(path: &Vec<PathPart>) -> (r: Option<String>)
    ensures
        match r {
            Some(name) => parent_name_of(path@) == Some(name@),
            None => parent_name_of(path@) is None,
        },
{
    if path.len() == 0 {
        return None;
    }
    assert(path@.drop_last() =~= path@.take(path@.len() - 1));
    match &path[path.len() - 1] {
        PathPart::Prefix(_) => None,
        PathPart::Root => None,
        _ => name_before(path, path.len() - 1),
    }
}

/// `part` adjoined to `base`.
pub fn join(base: &str, part: &str) -> (r: String)
    ensures
        r@ == joined(base@, part@),
{
    let left = chars_of(base);
    let right = chars_of(part);
    if right.len() > 0 && right[0] == '/' {
        return part.to_owned();
    }
    let mut r = base.to_owned();
    if left.len() > 0 && left[left.len() - 1] != '/' {
        r.push('/');
    }
    r.append(part);
    r
}

/// `text` without the separators, and the parts `.` between them, that it starts with.
pub open spec fn after_separators(text: Seq<char>) -> Seq<char>
    decreases text.len(),
{
    if text.len() > 0 && (text[0] == '/' || text[0] == '.' && (text.len() == 1 || text[1] == '/')) {
        after_separators(text.drop_first())
    } else {
        text
    }
}

/// `text` without the separators, and the parts `.` between them, that it ends with.
pub open spec fn before_separators(text: Seq<char>) -> Seq<char>
    decreases text.len(),
{
    if text.len() > 0 && (text.last() == '/' || text.last() == '.' && (text.len() == 1
        || text[text.len() - 2] == '/')) {
        before_separators(text.drop_last())
    } else {
        text
    }
}

/// How long the part is that `text` starts with.
pub open spec fn part_len(text: Seq<char>) -> nat
    decreases text.len(),
{
    if text.len() == 0 || text[0] == '/' {
        0
    } else {
        1 + part_len(text.drop_first())
    }
}

/// What follows on separators is no longer than the text, and starts with a part.
pub proof fn lemma_after_separators(text: Seq<char>)
    ensures
        after_separators(text).len() <= text.len(),
        after_separators(text).len() > 0 ==> part_len(after_separators(text)) > 0,
    decreases text.len(),
{
    if text.len() > 0 {
        lemma_after_separators(text.drop_first());
    }
}

/// The part that a text starts with is no longer than the text.
pub proof fn lemma_part_len(text: Seq<char>)
    ensures
        part_len(text) <= text.len(),
    decreases text.len(),
{
    if text.len() > 0 {
        lemma_part_len(text.drop_first());
    }
}

/// What follows in `path` on `base`, part by part, where `path` starts with the parts of `base`.
pub open spec fn stripped(path: Seq<char>, base: Seq<char>) -> Option<Seq<char>>
    decreases base.len(),
{
    let p = after_separators(path);
    let b = after_separators(base);
    let n = part_len(b) as int;
    if b.len() == 0 {
        Some(before_separators(p))
    } else if part_len(p) == n && p.take(n) == b.take(n) {
        proof {
            lemma_after_separators(base);
            lemma_part_len(b);
        }
        stripped(p.skip(n), b.skip(n))
    } else {
        None
    }
}

/// The position that follows on the separators at `from`.
fn skip_separators(chars: &Vec<char>, from: usize) -> (r: usize)
    requires
        from <= chars@.len(),
    ensures
        from <= r <= chars@.len(),
        after_separators(chars@.skip(from as int)) == chars@.skip(r as int),
{
    let mut r: usize = from;
    while r < chars.len() && (chars[r] == '/' || chars[r] == '.' && (r == chars.len() - 1
        || chars[r + 1] == '/'))
        invariant
            from <= r <= chars@.len(),
            after_separators(chars@.skip(from as int)) == after_separators(chars@.skip(r as int)),
        decreases chars@.len() - r,
    {
        assert(chars@.skip(r as int).drop_first() =~= chars@.skip(r + 1));
        r = r + 1;
    }
    r
}

/// The position that follows on the part at `from`.
fn part_end(chars: &Vec<char>, from: usize) -> (r: usize)
    requires
        from <= chars@.len(),
    ensures
        from <= r <= chars@.len(),
        r == from + part_len(chars@.skip(from as int)),
{
    let mut r: usize = from;
    while r < chars.len() && chars[r] != '/'
        invariant
            from <= r <= chars@.len(),
            from + part_len(chars@.skip(from as int)) == r + part_len(chars@.skip(r as int)),
        decreases chars@.len() - r,
    {
        assert(chars@.skip(r as int).drop_first() =~= chars@.skip(r + 1));
        r = r + 1;
    }
    r
}

/// The text from `from` on, without the separators at its end.
fn text_before_separators(chars: &Vec<char>, from: usize) -> (r: String)
    requires
        from <= chars@.len(),
    ensures
        r@ == before_separators(chars@.skip(from as int)),
{
    let mut to: usize = chars.len();
    assert(chars@.subrange(from as int, to as int) =~= chars@.skip(from as int));
    while from < to && (chars[to - 1] == '/' || chars[to - 1] == '.' && (to - from == 1 || chars[to
        - 2] == '/'))
        invariant
            from <= to <= chars@.len(),
            before_separators(chars@.skip(from as int)) == before_separators(
                chars@.subrange(from as int, to as int),
            ),
        decreases to,
    {
        assert(chars@.subrange(from as int, to as int).drop_last() =~= chars@.subrange(
            from as int,
            to - 1,
        ));
        to = to - 1;
    }
    string_of(chars, from, to)
}

/// Whether the parts from `i` to `i_end` and from `j` to `j_end` are the same.
fn same_part(a: &Vec<char>, i: usize, i_end: usize, b: &Vec<char>, j: usize, j_end: usize) -> (r:
    bool)
    requires
        i <= i_end <= a@.len(),
        j <= j_end <= b@.len(),
    ensures
        r == (a@.subrange(i as int, i_end as int) == b@.subrange(j as int, j_end as int)),
{
    string_of(a, i, i_end) == string_of(b, j, j_end)
}

/// Whether a path starts at the root.
pub open spec fn is_absolute(path: Seq<char>) -> bool {
    path.len() > 0 && path[0] == '/'
}

/// The path of the template at `template` in the folder `input`, where it lies in that folder.
pub open spec fn name_in_tree(input: Seq<char>, template: Seq<char>) -> Option<Seq<char>> {
    if is_absolute(template) && !is_absolute(input) {
        None
    } else {
        stripped(joined(input, template), input)
    }
}

/// The name of the template at the path `template`, which is taken from the folder `input` on: its
/// path in that folder. One that lies elsewhere has none.
pub fn template_name(input: &str, template: &str) -> (r: Option<String>)
    requires
        input@.len() > 0,
    ensures
        match r {
            Some(name) => name_in_tree(input@, template@) == Some(name@),
            None => name_in_tree(input@, template@) is None,
        },
{
    let base = chars_of(input);
    let wanted = chars_of(template);
    if wanted.len() > 0 && wanted[0] == '/' && base[0] != '/' {
        return None;
    }
    let path = chars_of(join(input, template).as_str());
    let mut i: usize = 0;
    let mut j: usize = 0;
    assert(path@.skip(0) =~= path@);
    assert(base@.skip(0) =~= base@);
    loop
        invariant
            i <= path@.len(),
            j <= base@.len(),
            path@ == joined(input@, template@),
            base@ == input@,
            name_in_tree(input@, template@) == stripped(
                path@.skip(i as int),
                base@.skip(j as int),
            ),
        decreases base@.len() - j,
    {
        let p = skip_separators(&path, i);
        let b = skip_separators(&base, j);
        if b == base.len() {
            return Some(text_before_separators(&path, p));
        }
        let p_end = part_end(&path, p);
        let b_end = part_end(&base, b);
        proof {
            let n = part_len(base@.skip(b as int)) as int;
            lemma_after_separators(base@.skip(j as int));
            assert(base@.skip(b as int).take(n) =~= base@.subrange(b as int, b_end as int));
            if part_len(path@.skip(p as int)) == n {
                assert(path@.skip(p as int).take(n) =~= path@.subrange(p as int, p_end as int));
                assert(path@.skip(p as int).skip(n) =~= path@.skip(p_end as int));
            } else {
                assert(path@.subrange(p as int, p_end as int).len() != n);
            }
            assert(base@.skip(b as int).skip(n) =~= base@.skip(b_end as int));
        }
        if !same_part(&path, p, p_end, &base, b, b_end) {
            return None;
        }
        i = p_end;
        j = b_end;
    }
}

/// A part that starts at the root stands alone. Any other part follows on the base, with one `/`
/// between them unless the base is empty or ends with one.
pub proof fn law_joining(base: Seq<char>, part: Seq<char>)
    ensures
        part.len() > 0 && part[0] == '/' ==> joined(base, part) == part,
        part.len() == 0 || part[0] != '/' ==> joined(base, part) == if base.len() == 0 || base[
        base.len() - 1] == '/' {
            base + part
        } else {
            base + seq!['/'] + part
        },
{
    assert(base.push('/') =~= base + seq!['/']);
}

/// The last part of a path gives the name of the file, and the part before it the name of the
/// folder that the file lies in, where these parts are names. What lies at the root lies in no
/// folder.
pub proof fn law_a_path_gives_its_last_two_names(path: Seq<PathPart>)
    ensures
        match name_of(path) {
            Some(name) => path.len() > 0 && path[path.len() - 1] is Normal && path[path.len()
                - 1]->Normal_0@ == name,
            None => path.len() == 0 || !(path[path.len() - 1] is Normal),
        },
        match parent_name_of(path) {
            Some(name) => {
                &&& path.len() > 1
                &&& !(path[path.len() - 1] is Root) && !(path[path.len() - 1] is Prefix)
                &&& path[path.len() - 2] is Normal && path[path.len() - 2]->Normal_0@ == name
            },
            None => path.len() <= 1 || path[path.len() - 1] is Root || path[path.len() - 1] is Prefix
                || !(path[path.len() - 2] is Normal),
        },
{
}

/// `rest` begins a new part when it follows on `base`.
spec fn begins_part(base: Seq<char>, rest: Seq<char>) -> bool {
    base.len() == 0 || base.last() == '/' || rest.len() == 0 || rest[0] == '/'
}

proof fn lemma_after_separators_of_both(base: Seq<char>, rest: Seq<char>)
    requires
        begins_part(base, rest),
    ensures
        after_separators(base).len() == 0 ==> after_separators(base + rest) == after_separators(
            rest,
        ),
        after_separators(base).len() > 0 ==> {
            &&& after_separators(base + rest) == after_separators(base) + rest
            &&& after_separators(base).last() == base.last()
        },
    decreases base.len(),
{
    let all = base + rest;
    if base.len() == 0 {
        assert(all =~= rest);
    } else if base[0] == '/' || base[0] == '.' && (base.len() == 1 || base[1] == '/') {
        assert(all.drop_first() =~= base.drop_first() + rest);
        lemma_after_separators_of_both(base.drop_first(), rest);
    }
}

proof fn lemma_part_len_of_both(base: Seq<char>, rest: Seq<char>)
    requires
        base.len() > 0,
        begins_part(base, rest),
    ensures
        part_len(base + rest) == part_len(base),
    decreases base.len(),
{
    let all = base + rest;
    if base[0] != '/' {
        assert(all.drop_first() =~= base.drop_first() + rest);
        if base.len() > 1 {
            lemma_part_len_of_both(base.drop_first(), rest);
        } else {
            assert(all.drop_first() =~= rest);
            assert(part_len(rest) == 0);
            assert(part_len(base.drop_first()) == 0);
        }
    }
}

/// What follows on the base is found again, less the separators at both ends.
proof fn lemma_stripped_of_both(base: Seq<char>, rest: Seq<char>)
    requires
        begins_part(base, rest),
    ensures
        stripped(base + rest, base) == Some(before_separators(after_separators(rest))),
    decreases base.len(),
{
    lemma_after_separators_of_both(base, rest);
    lemma_after_separators(base);
    let b = after_separators(base);
    if b.len() > 0 {
        let n = part_len(b) as int;
        lemma_part_len(b);
        lemma_part_len_of_both(b, rest);
        assert((b + rest).take(n) =~= b.take(n));
        assert((b + rest).skip(n) =~= b.skip(n) + rest);
        if b.skip(n).len() > 0 {
            assert(b.skip(n).last() == b.last());
        }
        lemma_stripped_of_both(b.skip(n), rest);
    }
}

/// The path starts and ends with a part that is not `.`.
pub open spec fn is_bare(path: Seq<char>) -> bool {
    let n = path.len() as int;
    &&& n > 0
    &&& path[0] != '/'
    &&& path[n - 1] != '/'
    &&& path[0] == '.' ==> n > 1 && path[1] != '/'
    &&& path[n - 1] == '.' ==> n > 1 && path[n - 2] != '/'
}

/// A template is named by its path in the tree, whether that path is given from the tree on or from
/// the root on.
pub proof fn law_a_template_is_named_by_its_path_in_the_tree(input: Seq<char>, path: Seq<char>)
    requires
        input.len() > 0,
        is_bare(path),
    ensures
        name_in_tree(input, path) == Some(path),
        name_in_tree(input, seq!['.', '/'] + path) == Some(path),
        name_in_tree(input, path + seq!['/']) == Some(path),
        input[0] == '/' ==> name_in_tree(input, input + seq!['/'] + path) == Some(path),
{
    let slash = seq!['/'];
    lemma_named(input, path, path);
    let dotted = seq!['.', '/'] + path;
    assert(dotted.drop_first() =~= slash + path);
    assert((slash + path).drop_first() =~= path);
    reveal_with_fuel(after_separators, 3);
    lemma_named(input, dotted, path);
    let ended = path + slash;
    assert(ended.drop_last() =~= path);
    reveal_with_fuel(before_separators, 3);
    lemma_named(input, ended, path);
    if input[0] == '/' {
        let whole = input + slash + path;
        assert(whole =~= input + (slash + path));
        assert(joined(input, whole) == whole);
        lemma_stripped_of_both(input, slash + path);
    }
}

proof fn lemma_named(input: Seq<char>, template: Seq<char>, name: Seq<char>)
    requires
        input.len() > 0,
        template.len() > 0,
        template[0] != '/',
        before_separators(after_separators(template)) == name,
    ensures
        name_in_tree(input, template) == Some(name),
{
    let slash = seq!['/'];
    if input.last() == '/' {
        lemma_stripped_of_both(input, template);
    } else {
        assert(input.push('/') + template =~= input + (slash + template));
        assert((slash + template).drop_first() =~= template);
        lemma_stripped_of_both(input, slash + template);
    }
}

/// A template that lies elsewhere has no name: the first parts of both paths from the root on
/// differ.
pub proof fn law_a_template_elsewhere_has_no_name(
    a: Seq<char>,
    b: Seq<char>,
    in_a: Seq<char>,
    in_b: Seq<char>,
)
    requires
        is_bare(a),
        is_bare(b),
        !a.contains('/'),
        !b.contains('/'),
        a != b,
        in_a.len() == 0 || in_a[0] == '/',
        in_b.len() == 0 || in_b[0] == '/',
    ensures
        name_in_tree(seq!['/'] + a + in_a, seq!['/'] + b + in_b) is None,
{
    let slash = seq!['/'];
    let input = slash + a + in_a;
    let template = slash + b + in_b;
    assert(input.drop_first() =~= a + in_a);
    assert(template.drop_first() =~= b + in_b);
    lemma_part_len_of_both(a, in_a);
    lemma_part_len_of_both(b, in_b);
    lemma_whole_part(a);
    lemma_whole_part(b);
    reveal_with_fuel(after_separators, 2);
    assert((a + in_a)[0] == a[0]);
    assert((b + in_b)[0] == b[0]);
    assert(after_separators(a + in_a) == a + in_a);
    assert(after_separators(b + in_b) == b + in_b);
    assert((a + in_a).take(a.len() as int) =~= a);
    assert((b + in_b).take(b.len() as int) =~= b);
}

proof fn lemma_whole_part(a: Seq<char>)
    requires
        !a.contains('/'),
    ensures
        part_len(a) == a.len(),
    decreases a.len(),
{
    if a.len() > 0 {
        assert(a.contains(a[0]));
        assert forall|i: int| 0 <= i < a.drop_first().len() implies a.drop_first()[i] != '/' by {
            assert(a.contains(a[i + 1]));
        }
        lemma_whole_part(a.drop_first());
    }
}

} // verus!
