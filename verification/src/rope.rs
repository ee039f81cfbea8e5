//! The rope of the `ropey` crate, as the buffer uses it.
//!
//! Each item below calls one function of `ropey` 1.6 (built with its default
//! features, under which every break of `crate::lines` ends a line) and
//! states, over the characters the rope holds, what that function returns.
use vstd::prelude::*;
use ropey::{Rope, RopeSlice};
use crate::lines::{breaks_upto, line_chars, line_start, line_total};

verus! {

#[verifier::external_type_specification]
#[verifier::external_body]
pub struct ExRope(Rope);

#[verifier::external_type_specification]
#[verifier::external_body]
pub struct ExRopeSlice<'a>(RopeSlice<'a>);

/// The characters a rope holds, in order.
pub uninterp spec fn rope_chars(r: Rope) -> Seq<char>;

/// The characters a rope slice holds, in order.
pub uninterp spec fn slice_chars(s: RopeSlice) -> Seq<char>;

/// `Rope::new`: an empty rope.
#[verifier::external_body]
pub(crate) fn rope_new() -> (r: Rope)
    ensures
        rope_chars(r) == Seq::<char>::empty(),
{
    Rope::new()
}

/// `Rope::from_str`: a rope holding the characters of `text`.
#[verifier::external_body]
pub(crate) fn rope_from_str(text: &str) -> (r: Rope)
    ensures
        rope_chars(r) == text@,
{
    Rope::from_str(text)
}

/// `Rope::len_chars`: the number of characters.
#[verifier::external_body]
pub(crate) fn rope_len_chars(r: &Rope) -> (n: usize)
    ensures
        n == rope_chars(*r).len(),
{
    r.len_chars()
}

/// `Rope::len_lines`: the number of line breaks plus one.
#[verifier::external_body]
pub(crate) fn rope_len_lines(r: &Rope) -> (n: usize)
    ensures
        n == line_total(rope_chars(*r)),
{
    r.len_lines()
}

/// `Rope::char_to_line`: the number of line ends up to `char_idx` (a
/// position inside a CRLF pair belongs to the line the pair ends).  Panics
/// past the end, which `requires` leaves out.
#[verifier::external_body]
pub(crate) fn rope_char_to_line(r: &Rope, char_idx: usize) -> (line: usize)
    requires
        char_idx <= rope_chars(*r).len(),
    ensures
        line == breaks_upto(rope_chars(*r), char_idx as int),
{
    r.char_to_line(char_idx)
}

/// `Rope::line_to_char`: where line `line_idx` starts; one past the last line
/// gives the length.  Panics beyond that, which `requires` leaves out.
#[verifier::external_body]
pub(crate) fn rope_line_to_char(r: &Rope, line_idx: usize) -> (start: usize)
    requires
        line_idx <= line_total(rope_chars(*r)),
    ensures
        start == line_start(rope_chars(*r), line_idx as int),
{
    r.line_to_char(line_idx)
}

/// `Rope::char`: the character at `char_idx`, which must be in bounds.
#[verifier::external_body]
pub(crate) fn rope_char(r: &Rope, char_idx: usize) -> (c: char)
    requires
        char_idx < rope_chars(*r).len(),
    ensures
        c == rope_chars(*r)[char_idx as int],
{
    r.char(char_idx)
}

/// `Rope::line`: the characters of line `line_idx` with its break, from the
/// start of that line to the start of the next.
#[verifier::external_body]
pub(crate) fn rope_line<'a>(r: &'a Rope, line_idx: usize) -> (line: RopeSlice<'a>)
    requires
        line_idx < line_total(rope_chars(*r)),
    ensures
        slice_chars(line) == line_chars(rope_chars(*r), line_idx as int),
{
    r.line(line_idx)
}

/// `Rope::insert`: `text` is inserted before the character at `char_idx`.
#[verifier::external_body]
pub(crate) fn rope_insert(r: &mut Rope, char_idx: usize, text: &str)
    requires
        char_idx <= rope_chars(*old(r)).len(),
    ensures
        rope_chars(*final(r)) == rope_chars(*old(r)).take(char_idx as int) + text@ + rope_chars(
            *old(r),
        ).skip(char_idx as int),
{
    r.insert(char_idx, text)
}

/// `Rope::remove`: the characters at `start..end` are removed.
#[verifier::external_body]
pub(crate) fn rope_remove(r: &mut Rope, start: usize, end: usize)
    requires
        start <= end <= rope_chars(*old(r)).len(),
    ensures
        rope_chars(*final(r)) == rope_chars(*old(r)).take(start as int) + rope_chars(
            *old(r),
        ).skip(end as int),
{
    r.remove(start..end)
}

/// `Rope`'s `Display` through `ToString::to_string`: the characters as a
/// `String`.
#[verifier::external_body]
pub(crate) fn rope_to_string(r: &Rope) -> (s: String)
    ensures
        s@ == rope_chars(*r),
{
    r.to_string()
}

/// `RopeSlice::len_chars`: the number of characters of the slice.
#[verifier::external_body]
pub(crate) fn slice_len_chars(s: &RopeSlice) -> (n: usize)
    ensures
        n == slice_chars(*s).len(),
{
    s.len_chars()
}

/// `RopeSlice::char`: the character at `char_idx`, which must be in bounds.
#[verifier::external_body]
pub(crate) fn slice_char(s: &RopeSlice, char_idx: usize) -> (c: char)
    requires
        char_idx < slice_chars(*s).len(),
    ensures
        c == slice_chars(*s)[char_idx as int],
{
    s.char(char_idx)
}

/// `From<RopeSlice> for String`: the characters of the slice as a `String`.
#[verifier::external_body]
pub(crate) fn slice_to_string(s: RopeSlice) -> (text: String)
    ensures
        text@ == slice_chars(s),
{
    String::from(s)
}

} // verus!
