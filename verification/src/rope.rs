//! The text storage: a `ropey::Rope`, reached only through the items below.
//! What a rope holds is named `rope_text`; each wrapper states what the
//! corresponding ropey method does to it or returns, as ropey's source shows.
//! The crate is built without ropey's `cr_lines` / `unicode_lines` features,
//! so a line feed is the only line break ropey counts.

use vstd::prelude::*;
use ropey::Rope;
use crate::text;

verus! {

/// `ropey::Rope`, an opaque value whose contents are `rope_text`.
#[verifier::external_type_specification]
#[verifier::external_body]
pub struct ExRope(Rope);

/// The characters a rope holds.
pub uninterp spec fn rope_text(r: Rope) -> Seq<char>;

/// `Rope::from_str`: a rope holding exactly the characters of `text`.
#[verifier::external_body]
pub(crate) fn rope_from_str(text: &str) -> (r: Rope)
    ensures
        rope_text(r) == text@,
{
    Rope::from_str(text)
}

/// `Rope::len_chars`: the number of characters held.
#[verifier::external_body]
pub(crate) fn rope_len_chars(r: &Rope) -> (n: usize)
    ensures
        n == rope_text(*r).len(),
{
    r.len_chars()
}

/// `Rope::len_lines`: line feeds plus one.
#[verifier::external_body]
pub(crate) fn rope_len_lines(r: &Rope) -> (n: usize)
    ensures
        n == text::nlines(rope_text(*r)),
{
    r.len_lines()
}

/// `Rope::char`: the character at `i` (panics past the end, hence the bound).
#[verifier::external_body]
pub(crate) fn rope_char(r: &Rope, i: usize) -> (c: char)
    requires
        i < rope_text(*r).len(),
    ensures
        c == rope_text(*r)[i as int],
{
    r.char(i)
}

/// `Rope::char_to_line`: the number of line feeds before character `i`.
#[verifier::external_body]
pub(crate) fn rope_char_to_line(r: &Rope, i: usize) -> (line: usize)
    requires
        i <= rope_text(*r).len(),
    ensures
        line == text::count_nl(rope_text(*r).take(i as int)),
{
    r.char_to_line(i)
}

/// `Rope::line_to_char`: the index of the first character of `line`, or the
/// text length for the one-past-the-end line.
#[verifier::external_body]
pub(crate) fn rope_line_to_char(r: &Rope, line: usize) -> (i: usize)
    requires
        line <= text::nlines(rope_text(*r)),
    ensures
        i == text::line_start(rope_text(*r), line as nat),
{
    r.line_to_char(line)
}

/// `Rope::insert`: `text` inserted before character `i`.
#[verifier::external_body]
pub(crate) fn rope_insert(r: &mut Rope, i: usize, text: &str)
    requires
        i <= rope_text(*old(r)).len(),
    ensures
        rope_text(*final(r)) == rope_text(*old(r)).take(i as int) + text@ + rope_text(*old(r)).skip(i as int),
{
    r.insert(i, text)
}

/// `Rope::insert_char`: `ch` inserted before character `i`.
#[verifier::external_body]
pub(crate) fn rope_insert_char(r: &mut Rope, i: usize, ch: char)
    requires
        i <= rope_text(*old(r)).len(),
    ensures
        rope_text(*final(r)) == rope_text(*old(r)).take(i as int).push(ch) + rope_text(*old(r)).skip(i as int),
{
    r.insert_char(i, ch)
}

/// `Rope::remove`: the characters in `[start, end)` removed.
#[verifier::external_body]
pub(crate) fn rope_remove(r: &mut Rope, start: usize, end: usize)
    requires
        start <= end <= rope_text(*old(r)).len(),
    ensures
        rope_text(*final(r)) == rope_text(*old(r)).take(start as int) + rope_text(*old(r)).skip(end as int),
{
    r.remove(start..end)
}

/// `Rope::slice` of `[start, end)`, converted to a `String`.
#[verifier::external_body]
pub(crate) fn rope_slice_string(r: &Rope, start: usize, end: usize) -> (s: String)
    requires
        start <= end <= rope_text(*r).len(),
    ensures
        s@ == rope_text(*r).subrange(start as int, end as int),
{
    r.slice(start..end).to_string()
}

/// The whole rope converted to a `String` (its `Display` impl).
#[verifier::external_body]
pub(crate) fn rope_to_string(r: &Rope) -> (s: String)
    ensures
        s@ == rope_text(*r),
{
    r.to_string()
}

/// `Rope::char_to_utf16_cu`: UTF-16 code units before character `i`.
#[verifier::external_body]
pub(crate) fn rope_char_to_utf16(r: &Rope, i: usize) -> (u: usize)
    requires
        i <= rope_text(*r).len(),
    ensures
        u == text::utf16_len(rope_text(*r).take(i as int)),
{
    r.char_to_utf16_cu(i)
}

/// `Rope::utf16_cu_to_char`: the index of the character that contains
/// code unit `u` (the text length for the one-past-the-end unit).
#[verifier::external_body]
pub(crate) fn rope_utf16_to_char(r: &Rope, u: usize) -> (i: usize)
    requires
        u <= text::utf16_len(rope_text(*r)),
    ensures
        i <= rope_text(*r).len(),
        text::utf16_len(rope_text(*r).take(i as int)) <= u,
        i < rope_text(*r).len() ==> u < text::utf16_len(rope_text(*r).take(i + 1)),
{
    r.utf16_cu_to_char(u)
}

} // verus!
