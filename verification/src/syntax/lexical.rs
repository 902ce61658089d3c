//! The words that both notations share: blanks, names of variables and
//! names of constructors.
//!
//! A text is read between two positions of a list of characters, `at` and
//! `end`. What is read gives the position after it.

use crate::syntax::text::text_of;
use vstd::prelude::*;

verus! {

/// Whether the positions delimit a part of the text.
pub open spec fn in_bounds(text: Seq<char>, at: int, end: int) -> bool {
    0 <= at <= end <= text.len()
}

/// A blank between words: a space, a tab, a carriage return or a line feed.
pub open spec fn is_space(c: char) -> bool {
    c == ' ' || c == '\t' || c == '\r' || c == '\n'
}

/// A white-space character of Unicode.
pub open spec fn is_white(c: char) -> bool {
    let code = c as u32;
    ||| 0x09 <= code <= 0x0d
    ||| code == 0x20
    ||| code == 0x85
    ||| code == 0xa0
    ||| code == 0x1680
    ||| 0x2000 <= code <= 0x200a
    ||| code == 0x2028
    ||| code == 0x2029
    ||| code == 0x202f
    ||| code == 0x205f
    ||| code == 0x3000
}

/// A letter that may begin the name of a constructor: `A` to `Z`.
pub open spec fn is_constructor_start(c: char) -> bool {
    'A' <= c <= 'Z'
}

/// A letter that may begin the name of a variable: `a` to `z`, or `_`.
pub open spec fn is_variable_start(c: char) -> bool {
    'a' <= c <= 'z' || c == '_'
}

/// A character that may follow in a name: a letter or digit of ASCII, `_`,
/// `-` or `'`.
pub open spec fn is_name_char(c: char) -> bool {
    'a' <= c <= 'z' || 'A' <= c <= 'Z' || '0' <= c <= '9' || c == '_' || c == '-' || c == '\''
}

/// The position of the first character at or after `at` that is no blank.
pub open spec fn skip_spaces(text: Seq<char>, at: int, end: int) -> int
    decreases end - at,
{
    if 0 <= at < end <= text.len() && is_space(text[at]) {
        skip_spaces(text, at + 1, end)
    } else {
        at
    }
}

/// The position of the first character at or after `at` that cannot stand
/// in a name.
pub open spec fn name_end(text: Seq<char>, at: int, end: int) -> int
    decreases end - at,
{
    if 0 <= at < end <= text.len() && is_name_char(text[at]) {
        name_end(text, at + 1, end)
    } else {
        at
    }
}

/// Whether the character `c` stands at `at`.
pub open spec fn char_at(text: Seq<char>, at: int, end: int, c: char) -> bool {
    0 <= at < end <= text.len() && text[at] == c
}

/// Whether the word `tag` stands at `at`.
pub open spec fn tag_at(text: Seq<char>, at: int, end: int, tag: Seq<char>) -> bool {
    0 <= at && at + tag.len() <= end <= text.len() && text.subrange(at, at + tag.len()) == tag
}

/// The name of a constructor that stands at `at`, as long as it can be, and
/// the position after it.
pub open spec fn constructor_at(text: Seq<char>, at: int, end: int) -> Option<(Seq<char>, int)> {
    if 0 <= at < end <= text.len() && is_constructor_start(text[at]) {
        let after = name_end(text, at + 1, end);
        Some((text.subrange(at, after), after))
    } else {
        None
    }
}

/// The name of a variable that stands at `at`, as long as it can be, and
/// the position after it.
pub open spec fn variable_at(text: Seq<char>, at: int, end: int) -> Option<(Seq<char>, int)> {
    if 0 <= at < end <= text.len() && is_variable_start(text[at]) {
        let after = name_end(text, at + 1, end);
        Some((text.subrange(at, after), after))
    } else {
        None
    }
}

/// Skipping blanks goes forward and stays within the text.
pub proof fn lemma_skip_spaces(text: Seq<char>, at: int, end: int)
    ensures
        at <= skip_spaces(text, at, end),
        at <= end ==> skip_spaces(text, at, end) <= end,
    decreases end - at,
{
    if 0 <= at < end <= text.len() && is_space(text[at]) {
        lemma_skip_spaces(text, at + 1, end);
    }
}

/// The end of a name lies forward and within the text.
pub proof fn lemma_name_end(text: Seq<char>, at: int, end: int)
    ensures
        at <= name_end(text, at, end),
        at <= end ==> name_end(text, at, end) <= end,
    decreases end - at,
{
    if 0 <= at < end <= text.len() && is_name_char(text[at]) {
        lemma_name_end(text, at + 1, end);
    }
}

/// Whether the character is a blank between words.
pub fn space(c: char) -> (result: bool)
    ensures
        result == is_space(c),
{
    c == ' ' || c == '\t' || c == '\r' || c == '\n'
}

/// Whether the character is white space of Unicode.
pub fn white(c: char) -> (result: bool)
    ensures
        result == is_white(c),
{
    let code = c as u32;
    (0x09 <= code && code <= 0x0d) || code == 0x20 || code == 0x85 || code == 0xa0 || code
        == 0x1680 || (0x2000 <= code && code <= 0x200a) || code == 0x2028 || code == 0x2029
        || code == 0x202f || code == 0x205f || code == 0x3000
}

/// Whether the character may follow in a name.
pub fn name_char(c: char) -> (result: bool)
    ensures
        result == is_name_char(c),
{
    ('a' <= c && c <= 'z') || ('A' <= c && c <= 'Z') || ('0' <= c && c <= '9') || c == '_' || c
        == '-' || c == '\''
}

/// Skips the blanks at `at`.
pub fn skip(chars: &Vec<char>, at: usize, end: usize) -> (result: usize)
    requires
        at <= end <= chars@.len(),
    ensures
        result as int == skip_spaces(chars@, at as int, end as int),
        at <= result <= end,
{
    let mut i: usize = at;
    while i < end && space(chars[i])
        invariant
            at <= i <= end <= chars@.len(),
            skip_spaces(chars@, i as int, end as int) == skip_spaces(chars@, at as int, end as int),
        decreases end - i,
    {
        i += 1;
    }
    i
}

/// Finds the end of the name that goes on at `at`.
pub fn end_of_name(chars: &Vec<char>, at: usize, end: usize) -> (result: usize)
    requires
        at <= end <= chars@.len(),
    ensures
        result as int == name_end(chars@, at as int, end as int),
        at <= result <= end,
{
    let mut i: usize = at;
    while i < end && name_char(chars[i])
        invariant
            at <= i <= end <= chars@.len(),
            name_end(chars@, i as int, end as int) == name_end(chars@, at as int, end as int),
        decreases end - i,
    {
        i += 1;
    }
    i
}

/// Whether the character `c` stands at `at`.
pub fn is_char(chars: &Vec<char>, at: usize, end: usize, c: char) -> (result: bool)
    requires
        end <= chars@.len(),
    ensures
        result == char_at(chars@, at as int, end as int, c),
{
    at < end && chars[at] == c
}

/// Whether the word `tag` stands at `at`.
pub fn is_tag(chars: &Vec<char>, at: usize, end: usize, tag: &str) -> (result: bool)
    requires
        at <= end <= chars@.len(),
    ensures
        result == tag_at(chars@, at as int, end as int, tag@),
{
    let word = crate::syntax::text::chars_of(tag);
    if word.len() > end - at {
        return false;
    }
    let mut i: usize = 0;
    while i < word.len()
        invariant
            i <= word@.len(),
            at + word@.len() <= end <= chars@.len(),
            word@ == tag@,
            forall|j: int| 0 <= j < i ==> chars@[at + j] == word@[j],
        decreases word.len() - i,
    {
        if chars[at + i] != word[i] {
            assert(chars@.subrange(at as int, at + word@.len())[i as int] != word@[i as int]);
            return false;
        }
        i += 1;
    }
    assert(chars@.subrange(at as int, at + word@.len()) =~= word@);
    true
}

/// Reads the name of a constructor at `at`.
pub fn read_constructor(chars: &Vec<char>, at: usize, end: usize) -> (result: Option<
    (String, usize),
>)
    requires
        at <= end <= chars@.len(),
    ensures
        match result {
            Some((name, next)) => constructor_at(chars@, at as int, end as int) == Some(
                (name@, next as int),
            ) && at < next <= end,
            None => constructor_at(chars@, at as int, end as int) is None,
        },
{
    if at < end && 'A' <= chars[at] && chars[at] <= 'Z' {
        let after = end_of_name(chars, at + 1, end);
        Some((text_of(chars, at, after), after))
    } else {
        None
    }
}

/// Reads the name of a variable at `at`.
pub fn read_variable(chars: &Vec<char>, at: usize, end: usize) -> (result: Option<
    (String, usize),
>)
    requires
        at <= end <= chars@.len(),
    ensures
        match result {
            Some((name, next)) => variable_at(chars@, at as int, end as int) == Some(
                (name@, next as int),
            ) && at < next <= end,
            None => variable_at(chars@, at as int, end as int) is None,
        },
{
    if at < end && (('a' <= chars[at] && chars[at] <= 'z') || chars[at] == '_') {
        let after = end_of_name(chars, at + 1, end);
        Some((text_of(chars, at, after), after))
    } else {
        None
    }
}

/// What reading a name at the start of a text gave: the rest of the text
/// and the name, as mathematical values.
pub open spec fn named(result: Result<(String, String), ()>) -> Option<(Seq<char>, Seq<char>)> {
    match result {
        Ok((rest, name)) => Some((rest@, name@)),
        Err(_) => None,
    }
}

/// The rest of a text after the name that was read at its start, and the
/// name.
pub open spec fn after_name(text: Seq<char>, read: Option<(Seq<char>, int)>) -> Option<
    (Seq<char>, Seq<char>),
> {
    match read {
        Some((name, next)) => Some((text.subrange(next, text.len() as int), name)),
        None => None,
    }
}

/// Reads the name of a constructor at the start of a text, and gives the
/// rest of the text with it.
pub fn constructor(input: &str) -> (result: Result<(String, String), ()>)
    ensures
        named(result) == after_name(input@, constructor_at(input@, 0, input@.len() as int)),
{
    let chars = crate::syntax::text::chars_of(input);
    match read_constructor(&chars, 0, chars.len()) {
        Some((name, next)) => Ok((text_of(&chars, next, chars.len()), name)),
        None => Err(()),
    }
}

/// Reads the name of a variable at the start of a text, and gives the rest
/// of the text with it.
pub fn variable(input: &str) -> (result: Result<(String, String), ()>)
    ensures
        named(result) == after_name(input@, variable_at(input@, 0, input@.len() as int)),
{
    let chars = crate::syntax::text::chars_of(input);
    match read_variable(&chars, 0, chars.len()) {
        Some((name, next)) => Ok((text_of(&chars, next, chars.len()), name)),
        None => Err(()),
    }
}

} // verus!
