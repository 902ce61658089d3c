//! Text as a list of characters.

use vstd::prelude::*;

verus! {

/// The characters of a text.
pub fn chars_of(text: &str) -> (result: Vec<char>)
    ensures
        result@ == text@,
{
    let mut result: Vec<char> = Vec::new();
    for c in iter: text.chars()
        invariant
            result@ == iter.seq().take(iter.index() as int),
            iter.seq() == text@,
    {
        result.push(c);
        assert(result@ =~= iter.seq().take(iter.index() + 1));
    }
    assert(result@ =~= text@);
    result
}

/// `String::push`: appends one character to the end of the text.
#[verifier::external_body]
pub(crate) fn push_char(text: &mut String, c: char)
    ensures
        final(text)@ == old(text)@.push(c),
{
    text.push(c);
}

/// The text that holds the characters from `from` up to `to`.
pub fn text_of(chars: &Vec<char>, from: usize, to: usize) -> (result: String)
    requires
        from <= to <= chars@.len(),
    ensures
        result@ == chars@.subrange(from as int, to as int),
{
    let mut result = String::new();
    let mut i: usize = from;
    while i < to
        invariant
            from <= i <= to <= chars@.len(),
            result@ == chars@.subrange(from as int, i as int),
        decreases to - i,
    {
        push_char(&mut result, chars[i]);
        i += 1;
        assert(result@ =~= chars@.subrange(from as int, i as int));
    }
    result
}

} // verus!
