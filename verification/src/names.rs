//! Names that are fit for DNS.

use vstd::prelude::*;
use vstd::utf8::is_ascii_chars;

use crate::text::{chars_of, law_trimming, lemma_trimmed, trim_marked, trimmed};

verus! {

/// The longest name that DNS takes.
pub const MAX_DNS_NAME_LENGTH: usize = 253;

/// A pattern of every character that a DNS name may not hold.
pub const INVALID_DNS_NAME_CHARS: &'static str = "[^-a-z0-9.]";

/// The compiled pattern of `regex`.
#[verifier::external_type_specification]
#[verifier::external_body]
pub struct ExRegex(regex::Regex);

/// The error of `regex`.
#[verifier::external_type_specification]
#[verifier::external_body]
pub struct ExRegexError(regex::Error);

/// What `str::to_lowercase` makes of a text that goes beyond ASCII.
pub uninterp spec fn unicode_lowercased(text: Seq<char>) -> Seq<char>;

/// The pattern that `regex::Regex::new` made a `regex::Regex` from.
pub uninterp spec fn pattern_of(re: regex::Regex) -> Seq<char>;

/// What `regex::Regex::replace_all` makes of a text, for a pattern and a replacement.
pub uninterp spec fn regex_replaced(
    pattern: Seq<char>,
    text: Seq<char>,
    replacement: Seq<char>,
) -> Seq<char>;

/// The small letter of an ASCII letter, and any other character itself.
pub open spec fn ascii_lower(c: char) -> char {
    if 'A' <= c <= 'Z' {
        ((c as u32) + 32) as char
    } else {
        c
    }
}

/// An ASCII text in small letters.
pub open spec fn ascii_lowercased(text: Seq<char>) -> Seq<char> {
    text.map_values(|c: char| ascii_lower(c))
}

/// A text in small letters.
pub open spec fn lowercased(text: Seq<char>) -> Seq<char> {
    if is_ascii_chars(text) {
        ascii_lowercased(text)
    } else {
        unicode_lowercased(text)
    }
}

/// Small ASCII letters and digits.
pub open spec fn is_lower_alphanumeric(c: char) -> bool {
    'a' <= c <= 'z' || '0' <= c <= '9'
}

/// The characters that a DNS name may hold.
pub open spec fn is_name_char(c: char) -> bool {
    is_lower_alphanumeric(c) || c == '-' || c == '.'
}

/// The characters that a DNS name may hold, but neither start nor end with.
pub open spec fn is_separator(c: char) -> bool {
    c == '-' || c == '.'
}

/// `c` where a DNS name may hold it, and `-` in place of any other character.
pub open spec fn name_char(c: char) -> char {
    if is_name_char(c) {
        c
    } else {
        '-'
    }
}

/// The first `n` characters, or all of them where there are fewer.
pub open spec fn at_most(text: Seq<char>, n: int) -> Seq<char> {
    if text.len() > n {
        text.take(n)
    } else {
        text
    }
}

/// The name that a text in small letters is turned into.
pub open spec fn dns_name_of(lower: Seq<char>) -> Seq<char> {
    trimmed(
        at_most(lower.map_values(|c: char| name_char(c)), MAX_DNS_NAME_LENGTH as int),
        |c: char| is_separator(c),
    )
}

/// The name that `name` is turned into.
pub open spec fn sanitized(name: Seq<char>) -> Seq<char> {
    dns_name_of(lowercased(name))
}

/// A DNS name has at most 253 characters, all of them small alphanumeric ones, `-` or `.`, and
/// starts and ends with an alphanumeric one.
pub open spec fn is_dns_name(name: Seq<char>) -> bool {
    &&& 0 < name.len() <= MAX_DNS_NAME_LENGTH
    &&& forall|i: int| 0 <= i < name.len() ==> is_name_char(#[trigger] name[i])
    &&& is_lower_alphanumeric(name[0])
    &&& is_lower_alphanumeric(name.last())
}

/// `str::to_lowercase` of std. In an ASCII text each letter becomes its small letter. Beyond ASCII
/// the result follows the Unicode tables, and is only given a name here: nothing is said of what
/// becomes of it when it is put into small letters once more.
#[verifier::external_body]
fn to_lowercase(text: &str) -> (r: String)
    ensures
        is_ascii_chars(text@) ==> r@ == ascii_lowercased(text@),
        !is_ascii_chars(text@) ==> r@ == unicode_lowercased(text@),
{
    text.to_lowercase()
}

/// `regex::Regex::new`: the pattern compiled. The pattern of invalid characters, a negated
/// character class, is a valid one.
#[verifier::external_body]
fn compile(pattern: &str) -> (r: Result<regex::Regex, regex::Error>)
    ensures
        r matches Ok(re) ==> pattern_of(re) == pattern@,
        pattern@ == INVALID_DNS_NAME_CHARS@ ==> r is Ok,
{
    regex::Regex::new(pattern)
}

/// `regex::Regex::replace_all` with a string to put in: every match of the pattern is replaced.
/// The pattern of invalid characters matches each character that it does not list, one at a time,
/// and a replacement without `$` is put in as it is.
#[verifier::external_body]
fn replace_all(re: &regex::Regex, text: &str, replacement: &str) -> (r: String)
    ensures
        r@ == regex_replaced(pattern_of(*re), text@, replacement@),
        pattern_of(*re) == INVALID_DNS_NAME_CHARS@ && replacement@ == seq!['-'] ==> r@
            == text@.map_values(|c: char| name_char(c)),
{
    re.replace_all(text, replacement).to_string()
}

/// The characters of `text` with `-` in place of each one that a DNS name may not hold.
fn replace_invalid(text: &str) -> (r: String)
    ensures
        r@ == text@.map_values(|c: char| name_char(c)),
{
    match compile(INVALID_DNS_NAME_CHARS) {
        Ok(re) => {
            proof {
                reveal_strlit("-");
                assert("-"@ =~= seq!['-']);
            }
            replace_all(&re, text, "-")
        },
        Err(_) => {
            assert(false);
            String::new()
        },
    }
}

/// What is left of a text when its invalid characters are replaced, its end is cut off and its
/// separators at both ends are dropped is a DNS name, unless nothing is left.
pub proof fn lemma_dns_name_of(lower: Seq<char>)
    ensures
        dns_name_of(lower).len() > 0 ==> is_dns_name(dns_name_of(lower)),
{
    let drop = |c: char| is_separator(c);
    let replaced = lower.map_values(|c: char| name_char(c));
    let cut = at_most(replaced, MAX_DNS_NAME_LENGTH as int);
    lemma_trimmed(cut, drop);
    let r = dns_name_of(lower);
    assert forall|i: int| 0 <= i < cut.len() implies is_name_char(#[trigger] cut[i]) by {
        assert(cut[i] == replaced[i]);
    }
    assert forall|i: int| 0 <= i < r.len() implies is_name_char(#[trigger] r[i]) by {
        assert(cut.contains(r[i]));
    }
    if r.len() > 0 {
        assert(is_name_char(r[0]));
        assert(is_name_char(r[r.len() - 1]));
        assert(!drop(r[0]));
        assert(!drop(r.last()));
    }
}

/// Turns a text in small letters into a DNS name: with `-` for every character that a DNS name
/// may not hold, at most 253 characters long, and without separators at its ends. A DNS name
/// stays as it is. A text of separators alone comes out empty.
pub fn sanitize_lowercase(lower: &str) -> (r: String)
    ensures
        r@ == dns_name_of(lower@),
        r@.len() > 0 ==> is_dns_name(r@),
        is_dns_name(lower@) ==> r@ == lower@,
{
    let valid = replace_invalid(lower);
    let mut chars = chars_of(valid.as_str());
    if chars.len() > MAX_DNS_NAME_LENGTH {
        chars.truncate(MAX_DNS_NAME_LENGTH);
    }
    let ghost drop = |c: char| is_separator(c);
    let mut marks: Vec<bool> = Vec::new();
    let mut i: usize = 0;
    while i < chars.len()
        invariant
            i <= chars@.len(),
            marks@.len() == i,
            forall|j: int| 0 <= j < i ==> #[trigger] marks@[j] == drop(chars@[j]),
            drop == (|c: char| is_separator(c)),
        decreases chars@.len() - i,
    {
        marks.push(chars[i] == '-' || chars[i] == '.');
        i = i + 1;
    }
    let r = trim_marked(&chars, &marks, Ghost(drop));
    proof {
        assert(chars@ =~= at_most(
            lower@.map_values(|c: char| name_char(c)),
            MAX_DNS_NAME_LENGTH as int,
        ));
        lemma_dns_name_of(lower@);
        if is_dns_name(lower@) {
            assert(valid@ =~= lower@);
            assert(chars@ =~= lower@);
            assert(!drop(lower@[0]));
            assert(!drop(lower@.last()));
            assert(r@ =~= lower@);
        }
    }
    r
}

/// A DNS name, and the empty text, is in small letters.
proof fn lemma_dns_name_is_lowercased(name: Seq<char>)
    requires
        name.len() == 0 || is_dns_name(name),
    ensures
        is_ascii_chars(name),
        lowercased(name) == name,
{
    assert forall|i: int| 0 <= i < name.len() implies is_name_char(#[trigger] name[i]) by {}
    assert(is_ascii_chars(name));
    assert(ascii_lowercased(name) =~= name);
}

/// A DNS name stays as it is when its invalid characters are replaced, its end is cut off and its
/// separators are dropped, and so does the empty text.
pub proof fn lemma_cleaning_keeps_dns_names(name: Seq<char>)
    requires
        name.len() == 0 || is_dns_name(name),
    ensures
        dns_name_of(name) == name,
{
    assert(name.map_values(|c: char| name_char(c)) =~= name) by {
        assert(forall|i: int| 0 <= i < name.len() ==> is_name_char(#[trigger] name[i]));
    }
}

/// Making a name fit for DNS twice gives the same as once, also where nothing is left of it. A DNS
/// name stays as it is.
pub proof fn law_sanitizing_twice(name: Seq<char>)
    ensures
        sanitized(sanitized(name)) == sanitized(name),
        is_dns_name(name) ==> sanitized(name) == name,
{
    lemma_dns_name_of(lowercased(name));
    lemma_dns_name_is_lowercased(sanitized(name));
    lemma_cleaning_keeps_dns_names(sanitized(name));
    if is_dns_name(name) {
        lemma_dns_name_is_lowercased(name);
        lemma_cleaning_keeps_dns_names(name);
    }
}

/// Putting an ASCII name into small letters first makes no difference.
pub proof fn law_small_letters_first_make_no_difference(name: Seq<char>)
    requires
        is_ascii_chars(name),
    ensures
        sanitized(lowercased(name)) == sanitized(name),
{
    let lower = ascii_lowercased(name);
    assert forall|i: int| 0 <= i < lower.len() implies ascii_lower(#[trigger] lower[i]) == lower[i]
        && (lower[i] as int) < 128 by {
        let c = name[i];
        assert((c as int) < 128);
    }
    assert(is_ascii_chars(lower));
    assert(ascii_lowercased(lower) =~= lower);
}

/// Turns `name` into a DNS name, as `sanitize_lowercase` does, in small letters. A DNS name stays
/// as it is, and so does the empty name.
pub fn sanitize_name(name: &str) -> (r: String)
    ensures
        r@ == sanitized(name@),
        r@.len() > 0 ==> is_dns_name(r@),
        is_dns_name(name@) || name@.len() == 0 ==> r@ == name@,
        is_ascii_chars(name@) ==> r@ == dns_name_of(name@.map_values(|c: char| ascii_lower(c))),
        sanitized(r@) == r@,
{
    let lower = to_lowercase(name);
    proof {
        law_sanitizing_twice(name@);
        if name@.len() == 0 {
            lemma_dns_name_is_lowercased(name@);
            lemma_cleaning_keeps_dns_names(name@);
        }
    }
    sanitize_lowercase(lower.as_str())
}

/// A name is a run of the first 253 characters of the text: a character that is neither a small
/// letter nor a digit nor `-` nor `.` is replaced by `-`, every other one stays. What is cut off at
/// both ends up to the 253rd character is neither a letter nor a digit, and what is left starts and
/// ends with one.
pub proof fn law_names_keep_their_characters(lower: Seq<char>) -> (r: (int, int))
    ensures
        ({
            let name = dns_name_of(lower);
            let end = if lower.len() > 253 {
                253
            } else {
                lower.len() as int
            };
            &&& 0 <= r.0 <= r.1 <= end
            &&& name.len() == r.1 - r.0
            &&& forall|k: int|
                0 <= k < name.len() ==> {
                    let c = lower[r.0 + k];
                    (#[trigger] name[k]) == if 'a' <= c <= 'z' || '0' <= c <= '9' || c == '-' || c
                        == '.' {
                        c
                    } else {
                        '-'
                    }
                }
            &&& forall|k: int|
                0 <= k < r.0 || r.1 <= k < end ==> !('a' <= #[trigger] lower[k] <= 'z') && !('0'
                    <= lower[k] <= '9')
            &&& r.0 < r.1 ==> {
                let first = lower[r.0];
                let last = lower[r.1 - 1];
                &&& 'a' <= first <= 'z' || '0' <= first <= '9'
                &&& 'a' <= last <= 'z' || '0' <= last <= '9'
            }
        }),
{
    let drop = |c: char| is_separator(c);
    let cut = at_most(lower.map_values(|c: char| name_char(c)), MAX_DNS_NAME_LENGTH as int);
    let r = law_trimming(cut, drop);
    assert forall|k: int| 0 <= k < cut.len() implies cut[k] == name_char(#[trigger] lower[k]) by {}
    assert forall|k: int| 0 <= k < r.0 || r.1 <= k < cut.len() implies !('a' <= #[trigger] lower[k]
        <= 'z') && !('0' <= lower[k] <= '9') by {
        assert(drop(cut[k]));
    }
    if r.0 < r.1 {
        assert(!drop(cut[r.0]));
        assert(!drop(cut[r.1 - 1]));
        assert(cut[r.0] == name_char(lower[r.0]));
        assert(cut[r.1 - 1] == name_char(lower[r.1 - 1]));
    }
    r
}

/// Every name is put into small letters before it is cleaned: an ASCII name letter by letter, and
/// any other name as std does it.
pub proof fn law_names_are_put_into_small_letters(name: Seq<char>) -> (lower: Seq<char>)
    ensures
        sanitized(name) == dns_name_of(lower),
        is_ascii_chars(name) ==> lower.len() == name.len() && forall|i: int|
            0 <= i < name.len() ==> (#[trigger] lower[i]) == if 'A' <= name[i] <= 'Z' {
                ((name[i] as u32) + 32) as char
            } else {
                name[i]
            },
        !is_ascii_chars(name) ==> lower == unicode_lowercased(name),
{
    lowercased(name)
}

} // verus!
