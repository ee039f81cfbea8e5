//! Characters and strings: the std operations the library needs, and the
//! conversions between `&str`, `String` and `Vec<char>` built on them.
use vstd::prelude::*;

verus! {

broadcast use vstd::string::group_string_axioms;

/// The characters with the Unicode `White_Space` property, which is what
/// `char::is_whitespace` answers: TAB, LF, VT, FF, CR, space, NEL, NBSP,
/// OGHAM SPACE MARK, the spaces U+2000 to U+200A, LS, PS, NNBSP, MMSP and
/// the ideographic space.
pub open spec fn is_white_space(c: char) -> bool {
    let u = c as u32;
    ||| 0x09 <= u <= 0x0D
    ||| u == 0x20
    ||| u == 0x85
    ||| u == 0xA0
    ||| u == 0x1680
    ||| 0x2000 <= u <= 0x200A
    ||| u == 0x2028
    ||| u == 0x2029
    ||| u == 0x202F
    ||| u == 0x205F
    ||| u == 0x3000
}

/// An ASCII letter or digit.
pub open spec fn is_ascii_alphanumeric(c: char) -> bool {
    let u = c as u32;
    ||| 0x30 <= u <= 0x39
    ||| 0x41 <= u <= 0x5A
    ||| 0x61 <= u <= 0x7A
}

/// What `char::is_alphanumeric` answers for `c` (Unicode `Alphabetic` or
/// `Numeric`).
pub uninterp spec fn unicode_alphanumeric(c: char) -> bool;

/// Letters and digits: for ASCII the letters and digits, otherwise what
/// `char::is_alphanumeric` answers.
pub open spec fn alphanumeric(c: char) -> bool {
    if (c as u32) < 0x80 {
        is_ascii_alphanumeric(c)
    } else {
        unicode_alphanumeric(c)
    }
}

/// Whether `c` is whitespace (Unicode `White_Space`), as `char::is_whitespace`
/// answers.
pub fn char_is_whitespace(c: char) -> (b: bool)
    ensures
        b == is_white_space(c),
{
    let u = c as u32;
    (0x09 <= u && u <= 0x0D) || u == 0x20 || u == 0x85 || u == 0xA0 || u == 0x1680 || (0x2000
        <= u && u <= 0x200A) || u == 0x2028 || u == 0x2029 || u == 0x202F || u == 0x205F || u
        == 0x3000
}

/// `char::is_alphanumeric`: Unicode `Alphabetic` or `Numeric`, which among
/// ASCII characters are exactly the letters and the digits.
#[verifier::external_body]
pub(crate) fn char_is_alphanumeric(c: char) -> (b: bool)
    ensures
        b == unicode_alphanumeric(c),
        b == alphanumeric(c),
{
    c.is_alphanumeric()
}

/// `String::push`: `c` is appended.
#[verifier::external_body]
pub(crate) fn string_push(s: &mut String, c: char)
    ensures
        final(s)@ == old(s)@.push(c),
{
    s.push(c)
}

/// The characters of `s`, in order.
pub fn str_chars(s: &str) -> (v: Vec<char>)
    ensures
        v@ == s@,
{
    let mut v: Vec<char> = Vec::new();
    for c in it: s.chars()
        invariant
            it.seq() == s@,
            v@ == it.seq().take(it.index() as int),
    {
        v.push(c);
        assert(it.seq().take(it.index() + 1) == v@);
    }
    assert(s@.take(s@.len() as int) == s@);
    v
}

/// A `String` holding the characters of `v`.
pub fn string_from_chars(v: &Vec<char>) -> (s: String)
    ensures
        s@ == v@,
{
    let mut s = String::new();
    let mut i: usize = 0;
    while i < v.len()
        invariant
            i <= v.len(),
            s@ == v@.take(i as int),
        decreases v.len() - i,
    {
        string_push(&mut s, v[i]);
        i = i + 1;
        assert(s@ == v@.take(i as int));
    }
    assert(v@.take(v@.len() as int) == v@);
    s
}

} // verus!
