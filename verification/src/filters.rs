//! The filters that templates can use.

use vstd::prelude::*;

use crate::convert::{json_contents, to_json};
use crate::error::{FilterError, ProcessError};
use crate::json::{entries_view, lemma_entries_view, Json, JsonView};
use crate::sorted_map::SortedMap;
use crate::text::{chars_of, law_trimming, trim_marked, trimmed};

verus! {

/// The error of `serde_yaml`.
#[verifier::external_type_specification]
#[verifier::external_body]
pub struct ExYamlError(serde_yaml::Error);

/// The error of `serde_json`.
#[verifier::external_type_specification]
#[verifier::external_body]
pub struct ExJsonError(serde_json::Error);

/// What `serde_yaml::to_string` makes of a value.
pub uninterp spec fn yaml_text(value: JsonView) -> Result<Seq<char>, serde_yaml::Error>;

/// The message of a `serde_yaml::Error`.
pub uninterp spec fn yaml_error_message(error: serde_yaml::Error) -> Seq<char>;

/// The `usize` that `serde_json::from_value` reads from a value, if it can.
pub uninterp spec fn usize_in(value: JsonView) -> Option<usize>;

/// `serde_yaml::to_string`: the value as YAML. The text is only given a name here.
#[verifier::external_body]
fn yaml_to_string(json: &serde_json::Value) -> (r: Result<String, serde_yaml::Error>)
    ensures
        match r {
            Ok(text) => yaml_text(json_contents(*json)) == Ok::<Seq<char>, serde_yaml::Error>(
                text@,
            ),
            Err(e) => yaml_text(json_contents(*json)) == Err::<Seq<char>, serde_yaml::Error>(e),
        },
{
    serde_yaml::to_string(json)
}

/// `Display` of `serde_yaml::Error`: the message of the error, which is only given a name here.
#[verifier::external_body]
fn yaml_error_text(error: &serde_yaml::Error) -> (r: String)
    ensures
        r@ == yaml_error_message(*error),
{
    format!("{}", error)
}

/// `serde_json::from_value` for `usize`: the number that a value holds, where it is a whole one
/// that fits. Which numbers these are is left to the crate. A value of another kind is refused.
#[verifier::external_body]
fn usize_from_value(json: serde_json::Value) -> (r: Result<usize, serde_json::Error>)
    ensures
        r is Ok <==> usize_in(json_contents(json)) is Some,
        r matches Ok(n) ==> usize_in(json_contents(json)) == Some(n),
        !(json_contents(json) is Number) ==> r is Err,
{
    serde_json::from_value::<usize>(json)
}

/// The characters with the Unicode property `White_Space`.
pub open spec fn is_white_space(c: char) -> bool {
    ||| '\u{9}' <= c <= '\u{d}'
    ||| c == ' '
    ||| c == '\u{85}'
    ||| c == '\u{a0}'
    ||| c == '\u{1680}'
    ||| '\u{2000}' <= c <= '\u{200a}'
    ||| c == '\u{2028}'
    ||| c == '\u{2029}'
    ||| c == '\u{202f}'
    ||| c == '\u{205f}'
    ||| c == '\u{3000}'
}

/// `text` without the white space at its ends.
fn trim_white_space(text: &str) -> (r: String)
    ensures
        r@ == trimmed(text@, |c: char| is_white_space(c)),
{
    let chars = chars_of(text);
    let ghost drop = |c: char| is_white_space(c);
    let mut marks: Vec<bool> = Vec::new();
    let mut i: usize = 0;
    while i < chars.len()
        invariant
            i <= chars@.len(),
            marks@.len() == i,
            forall|j: int| 0 <= j < i ==> #[trigger] marks@[j] == drop(chars@[j]),
            drop == (|c: char| is_white_space(c)),
        decreases chars@.len() - i,
    {
        let c = chars[i];
        marks.push(
            '\u{9}' <= c && c <= '\u{d}' || c == ' ' || c == '\u{85}' || c == '\u{a0}' || c
                == '\u{1680}' || '\u{2000}' <= c && c <= '\u{200a}' || c == '\u{2028}' || c
                == '\u{2029}' || c == '\u{202f}' || c == '\u{205f}' || c == '\u{3000}',
        );
        i = i + 1;
    }
    trim_marked(&chars, &marks, Ghost(drop))
}

/// The YAML of a value, without the white space at its ends.
pub open spec fn trimmed_yaml(value: JsonView) -> Result<Seq<char>, Seq<char>> {
    match yaml_text(value) {
        Ok(text) => Ok(trimmed(text, |c: char| is_white_space(c))),
        Err(e) => Err(yaml_error_message(e)),
    }
}

/// The text that results from writing a value as YAML, for what came of the writing.
pub fn finish_yaml(written: Result<String, serde_yaml::Error>) -> (r: Result<String, ProcessError>)
    ensures
        match written {
            Ok(text) => r matches Ok(s) && s@ == trimmed(text@, |c: char| is_white_space(c)),
            Err(e) => r matches Err(ProcessError::Yaml(m)) && m@ == yaml_error_message(e),
        },
{
    match written {
        Ok(text) => Ok(trim_white_space(text.as_str())),
        Err(e) => Err(ProcessError::Yaml(yaml_error_text(&e))),
    }
}

/// Writes a value as YAML, without white space at the ends of the text.
pub fn yaml_encode(value: &Json) -> (r: Result<String, ProcessError>)
    ensures
        match trimmed_yaml(value@) {
            Ok(text) => r matches Ok(s) && s@ == text,
            Err(message) => r matches Err(ProcessError::Yaml(m)) && m@ == message,
        },
{
    finish_yaml(yaml_to_string(&to_json(value)))
}

/// The filter `yaml_encode`: encodes a value of any type into YAML.
pub fn yaml_encode_filter(value: &Json) -> (r: Result<Json, FilterError>)
    ensures
        match trimmed_yaml(value@) {
            Ok(text) => r matches Ok(v) && v@ == JsonView::String(text),
            Err(message) => r matches Err(FilterError::Yaml(m)) && m@ == message,
        },
{
    match yaml_encode(value) {
        Ok(text) => Ok(Json::String(text)),
        Err(ProcessError::Yaml(message)) => Err(FilterError::Yaml(message)),
        Err(_) => {
            assert(false);
            Err(FilterError::NotAString)
        },
    }
}

/// `n` spaces.
pub open spec fn blanks(n: nat) -> Seq<char> {
    Seq::new(n, |i: int| ' ')
}

/// `text` with `spaces` spaces after each line break.
pub open spec fn indented(text: Seq<char>, spaces: nat) -> Seq<char>
    decreases text.len(),
{
    if text.len() == 0 {
        Seq::empty()
    } else if text.last() == '\n' {
        indented(text.drop_last(), spaces).push('\n') + blanks(spaces)
    } else {
        indented(text.drop_last(), spaces).push(text.last())
    }
}

/// `text` on lines of its own, each indented by `spaces` spaces.
pub open spec fn nindented(text: Seq<char>, spaces: nat) -> Seq<char> {
    indented(seq!['\n'] + text, spaces)
}

/// Each line break is followed by the indentation.
pub proof fn lemma_indents_each_line(text: Seq<char>, spaces: nat, i: int)
    requires
        0 <= i < indented(text, spaces).len(),
        indented(text, spaces)[i] == '\n',
    ensures
        i + spaces < indented(text, spaces).len(),
        indented(text, spaces).subrange(i + 1, i + 1 + spaces) == blanks(spaces),
    decreases text.len(),
{
    let rest = indented(text.drop_last(), spaces);
    let all = indented(text, spaces);
    if i < rest.len() {
        assert(all[i] == rest[i]);
        lemma_indents_each_line(text.drop_last(), spaces, i);
        assert(all.subrange(i + 1, i + 1 + spaces) =~= rest.subrange(i + 1, i + 1 + spaces));
    } else {
        assert(i == rest.len());
        assert(all.subrange(i + 1, i + 1 + spaces) =~= blanks(spaces));
    }
}

/// Starts a new line, and indents every line of `text` by `spaces` spaces.
pub fn nindent(text: &str, spaces: usize) -> (r: String)
    requires
        spaces <= isize::MAX,
    ensures
        r@ == nindented(text@, spaces as nat),
{
    let mut r = String::new();
    append_indented(&mut r, '\n', spaces);
    let ghost whole = seq!['\n'] + text@;
    assert(whole.take(1).drop_last() =~= Seq::empty());
    assert(r@ =~= indented(whole.take(1), spaces as nat)) by {
        reveal_with_fuel(indented, 2);
    }
    for c in it: text.chars()
        invariant
            it.seq() == text@,
            whole == seq!['\n'] + text@,
            r@ == indented(whole.take(it.index() + 1), spaces as nat),
    {
        let ghost n = it.index() + 1;
        append_indented(&mut r, c, spaces);
        proof {
            assert(whole.take(n + 1).drop_last() =~= whole.take(n));
            assert(whole.take(n + 1).last() == c);
            assert(r@ =~= indented(whole.take(n + 1), spaces as nat));
        }
    }
    assert(whole.take(whole.len() as int) =~= whole);
    r
}

/// Appends `c`, and `spaces` spaces after a line break.
fn append_indented(r: &mut String, c: char, spaces: usize)
    ensures
        final(r)@ == if c == '\n' {
            old(r)@.push('\n') + blanks(spaces as nat)
        } else {
            old(r)@.push(c)
        },
{
    r.push(c);
    if c == '\n' {
        let ghost start = r@;
        let mut i: usize = 0;
        assert(r@ =~= start + blanks(0));
        while i < spaces
            invariant
                i <= spaces,
                r@ == start + blanks(i as nat),
            decreases spaces - i,
        {
            r.push(' ');
            i = i + 1;
            assert(r@ =~= start + blanks(i as nat));
        }
    }
}

/// The result of the filter `nindent` on a string, for what was read from its argument.
pub open spec fn nindent_result(
    text: Seq<char>,
    spaces: Option<Option<usize>>,
) -> Result<JsonView, FilterError> {
    match spaces {
        None => Err(FilterError::MissingSpaces),
        Some(None) => Err(FilterError::InvalidSpaces),
        Some(Some(n)) => if n <= isize::MAX {
            Ok(JsonView::String(nindented(text, n as nat)))
        } else {
            Err(FilterError::TooManySpaces)
        },
    }
}

/// The filter `nindent` on a string, for what was read from its argument: nothing where it is
/// missing, and no number where it is not a number of spaces.
pub fn nindent_by(text: &str, spaces: Option<Option<usize>>) -> (r: Result<Json, FilterError>)
    ensures
        match nindent_result(text@, spaces) {
            Ok(v) => r matches Ok(s) && s@ == v,
            Err(e) => r == Err::<Json, FilterError>(e),
        },
{
    match spaces {
        None => Err(FilterError::MissingSpaces),
        Some(None) => Err(FilterError::InvalidSpaces),
        Some(Some(n)) => if n <= isize::MAX as usize {
            Ok(Json::String(nindent(text, n)))
        } else {
            Err(FilterError::TooManySpaces)
        },
    }
}

/// The argument `spaces` of the filter `nindent`, as far as it is a number of spaces.
pub open spec fn spaces_argument(args: Map<Seq<char>, JsonView>) -> Option<Option<usize>> {
    if args.contains_key("spaces"@) {
        Some(usize_in(args["spaces"@]))
    } else {
        None
    }
}

/// The filter `nindent`: indents each line of a string by the number of spaces that the argument
/// `spaces` gives, after a line break.
pub fn nindent_filter(value: &Json, args: &SortedMap<Json>) -> (r: Result<Json, FilterError>)
    ensures
        match value@ {
            JsonView::String(text) => match nindent_result(
                text,
                spaces_argument(entries_view(args.entries())),
            ) {
                Ok(v) => r matches Ok(s) && s@ == v,
                Err(e) => r == Err::<Json, FilterError>(e),
            },
            _ => r == Err::<Json, FilterError>(FilterError::NotAString),
        },
        ({
            let arguments = entries_view(args.entries());
            value@ is String && arguments.contains_key("spaces"@) && !(arguments["spaces"@] is Number)
                ==> r == Err::<Json, FilterError>(FilterError::InvalidSpaces)
        }),
{
    proof {
        lemma_entries_view(args.entries());
    }
    let text = match value {
        Json::String(s) => s,
        _ => {
            return Err(FilterError::NotAString);
        },
    };
    let spaces = match args.get("spaces") {
        Some(argument) => match usize_from_value(to_json(argument)) {
            Ok(n) => Some(Some(n)),
            Err(_) => Some(None),
        },
        None => None,
    };
    nindent_by(text.as_str(), spaces)
}

/// Indenting a text is indenting its parts.
proof fn lemma_indented_in_parts(a: Seq<char>, b: Seq<char>, spaces: nat)
    ensures
        indented(a + b, spaces) == indented(a, spaces) + indented(b, spaces),
    decreases b.len(),
{
    if b.len() == 0 {
        assert(a + b =~= a);
        assert(indented(a, spaces) + indented(b, spaces) =~= indented(a, spaces));
    } else {
        lemma_indented_in_parts(a, b.drop_last(), spaces);
        assert((a + b).drop_last() =~= a + b.drop_last());
        assert((a + b).last() == b.last());
        assert(indented(a + b, spaces) =~= indented(a, spaces) + indented(b, spaces));
    }
}

/// A text without line breaks is not indented at all.
proof fn lemma_indented_line(line: Seq<char>, spaces: nat)
    requires
        !line.contains('\n'),
    ensures
        indented(line, spaces) == line,
    decreases line.len(),
{
    if line.len() > 0 {
        let rest = line.drop_last();
        assert(line.contains(line[line.len() - 1]));
        assert forall|i: int| 0 <= i < rest.len() implies rest[i] != '\n' by {
            assert(line.contains(line[i]));
        }
        lemma_indented_line(rest, spaces);
        assert(rest.push(line.last()) =~= line);
    }
}

/// One line is put behind a line break and the given number of spaces, and is not changed itself.
pub proof fn law_nindent_puts_a_line_behind_spaces(line: Seq<char>, spaces: nat)
    requires
        !line.contains('\n'),
    ensures
        nindented(line, spaces) == seq!['\n'] + Seq::new(spaces, |i: int| ' ') + line,
{
    let start = seq!['\n'];
    lemma_indented_in_parts(start, line, spaces);
    lemma_indented_line(line, spaces);
    assert(start.drop_last() =~= Seq::empty());
    reveal_with_fuel(indented, 2);
    assert(indented(start, spaces) =~= start + Seq::new(spaces, |i: int| ' '));
}

/// Lines are indented one by one: what comes before a line break and what comes after it are
/// indented each for itself, and put one behind the other.
pub proof fn law_nindent_works_line_by_line(a: Seq<char>, b: Seq<char>, spaces: nat)
    ensures
        nindented(a + seq!['\n'] + b, spaces) == nindented(a, spaces) + nindented(b, spaces),
{
    assert(seq!['\n'] + (a + seq!['\n'] + b) =~= (seq!['\n'] + a) + (seq!['\n'] + b));
    lemma_indented_in_parts(seq!['\n'] + a, seq!['\n'] + b, spaces);
}

/// The lines with a line break between each two of them.
pub open spec fn text_of_lines(lines: Seq<Seq<char>>) -> Seq<char>
    decreases lines.len(),
{
    if lines.len() <= 1 {
        lines[0]
    } else {
        text_of_lines(lines.drop_last()) + seq!['\n'] + lines.last()
    }
}

/// The lines, each behind a line break and the given number of spaces.
pub open spec fn lines_behind_spaces(lines: Seq<Seq<char>>, spaces: nat) -> Seq<char>
    decreases lines.len(),
{
    if lines.len() == 0 {
        Seq::empty()
    } else {
        lines_behind_spaces(lines.drop_last(), spaces) + (seq!['\n'] + Seq::new(
            spaces,
            |i: int| ' ',
        ) + lines.last())
    }
}

/// Whatever its lines are, a text comes out as these lines, unchanged, each behind a line break and
/// the given number of spaces.
pub proof fn law_nindent_keeps_every_line(lines: Seq<Seq<char>>, spaces: nat)
    requires
        lines.len() > 0,
        forall|i: int| 0 <= i < lines.len() ==> !(#[trigger] lines[i]).contains('\n'),
    ensures
        nindented(text_of_lines(lines), spaces) == lines_behind_spaces(lines, spaces),
    decreases lines.len(),
{
    let last = lines.last();
    assert(last == lines[lines.len() - 1]);
    law_nindent_puts_a_line_behind_spaces(last, spaces);
    if lines.len() == 1 {
        assert(lines.drop_last() =~= Seq::empty());
        reveal_with_fuel(lines_behind_spaces, 2);
        assert(lines_behind_spaces(lines, spaces) =~= nindented(last, spaces));
    } else {
        law_nindent_keeps_every_line(lines.drop_last(), spaces);
        law_nindent_works_line_by_line(text_of_lines(lines.drop_last()), last, spaces);
    }
}

/// Without spaces, a text is put behind a line break and not changed.
pub proof fn law_nindent_by_nothing(text: Seq<char>)
    ensures
        nindented(text, 0) == seq!['\n'] + text,
{
    lemma_indented_by_nothing(seq!['\n'] + text);
}

proof fn lemma_indented_by_nothing(text: Seq<char>)
    ensures
        indented(text, 0) == text,
    decreases text.len(),
{
    if text.len() > 0 {
        lemma_indented_by_nothing(text.drop_last());
        assert(text.drop_last().push(text.last()) =~= text);
        assert(indented(text, 0) =~= text);
    }
}

/// How many line breaks there are in a text.
pub open spec fn line_breaks(text: Seq<char>) -> nat {
    text.filter(|c: char| c == '\n').len()
}

/// A text grows by one line break, and by the given number of spaces for each of its lines.
pub proof fn law_nindent_adds_nothing_else(text: Seq<char>, spaces: nat)
    ensures
        nindented(text, spaces).len() == text.len() + 1 + spaces * (line_breaks(text) + 1),
{
    let start = seq!['\n'];
    lemma_indented_length(text, spaces);
    lemma_indented_in_parts(start, text, spaces);
    assert(start.drop_last() =~= Seq::empty());
    reveal_with_fuel(indented, 2);
    assert(indented(start, spaces).len() == 1 + spaces);
    assert(spaces * (line_breaks(text) + 1) == spaces * line_breaks(text) + spaces)
        by (nonlinear_arith);
}

proof fn lemma_indented_length(text: Seq<char>, spaces: nat)
    ensures
        indented(text, spaces).len() == text.len() + spaces * line_breaks(text),
    decreases text.len(),
{
    reveal(Seq::filter);
    let breaks = line_breaks(text);
    if text.len() > 0 {
        lemma_indented_length(text.drop_last(), spaces);
        let before = line_breaks(text.drop_last());
        if text.last() == '\n' {
            assert(breaks == before + 1);
            assert(spaces * (before + 1) == spaces * before + spaces) by (nonlinear_arith);
        } else {
            assert(breaks == before);
        }
    } else {
        assert(spaces * 0 == 0) by (nonlinear_arith);
    }
}

/// The filter `nindent` gives the indented string wherever its argument is a number of spaces that
/// a string can hold, and otherwise says what is wrong with the argument. Its other arguments do not
/// matter.
pub proof fn law_nindent_goes_by_its_argument(
    text: Seq<char>,
    args: Map<Seq<char>, JsonView>,
    other: Map<Seq<char>, JsonView>,
)
    ensures
        ({
            let r = nindent_result(text, spaces_argument(args));
            if !args.contains_key("spaces"@) {
                r == Err::<JsonView, FilterError>(FilterError::MissingSpaces)
            } else {
                match usize_in(args["spaces"@]) {
                    None => r == Err::<JsonView, FilterError>(FilterError::InvalidSpaces),
                    Some(n) => if n > isize::MAX {
                        r == Err::<JsonView, FilterError>(FilterError::TooManySpaces)
                    } else {
                        r == Ok::<JsonView, FilterError>(
                            JsonView::String(nindented(text, n as nat)),
                        )
                    },
                }
            }
        }),
        args.contains_key("spaces"@) == other.contains_key("spaces"@) && args["spaces"@]
            == other["spaces"@] ==> nindent_result(text, spaces_argument(args)) == nindent_result(
            text,
            spaces_argument(other),
        ),
{
}

/// The text of a value is the YAML that was written for it, less nothing but white space at its
/// ends, and an error is reported with its message.
pub proof fn law_yaml_loses_white_space_at_its_ends_only(value: JsonView) -> (r: (int, int))
    ensures
        match yaml_text(value) {
            Ok(text) => {
                &&& 0 <= r.0 <= r.1 <= text.len()
                &&& trimmed_yaml(value) == Ok::<Seq<char>, Seq<char>>(text.subrange(r.0, r.1))
                &&& forall|i: int|
                    0 <= i < r.0 || r.1 <= i < text.len() ==> is_white_space(#[trigger] text[i])
                &&& r.0 < r.1 ==> !is_white_space(text[r.0]) && !is_white_space(text[r.1 - 1])
            },
            Err(e) => trimmed_yaml(value) == Err::<Seq<char>, Seq<char>>(yaml_error_message(e)),
        },
{
    match yaml_text(value) {
        Ok(text) => {
            let drop = |c: char| is_white_space(c);
            let r = law_trimming(text, drop);
            assert forall|i: int| 0 <= i < r.0 || r.1 <= i < text.len() implies is_white_space(
                #[trigger] text[i],
            ) by {
                assert(drop(text[i]));
            }
            r
        },
        Err(_) => (0, 0),
    }
}

/// White space is the tab and the four control characters after it, the blank, the next line, and
/// the spaces and separators that Unicode lists as such, the last of them the ideographic space.
pub proof fn law_what_white_space_is(c: char)
    ensures
        ({
            let n = c as int;
            is_white_space(c) <==> 9 <= n <= 13 || n == 32 || n == 133 || n == 160 || n == 5760
                || 8192 <= n <= 8202 || n == 8232 || n == 8233 || n == 8239 || n == 8287 || n
                == 12288
        }),
{
}

} // verus!
