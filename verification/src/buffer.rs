//! The rope-backed text buffer: the characters of the file being edited,
//! the line ending the file had on disk, and whether it changed since.
//!
//! In memory every CRLF of the file is a single LF; `serialized_text` puts
//! the CRLFs back when the file used them.
use vstd::prelude::*;
use ropey::Rope;
use std::ops::Range;
use crate::lines::{breaks_upto, line_chars, line_start, line_total, lemma_line_order, lemma_position_in_line};
use crate::rope::{
    rope_chars, rope_char, rope_char_to_line, rope_from_str, rope_insert, rope_len_chars,
    rope_len_lines, rope_line, rope_line_to_char, rope_new, rope_remove, rope_to_string,
    slice_char, slice_len_chars, slice_to_string, slice_chars,
};
use crate::text::{
    alphanumeric, char_is_alphanumeric, char_is_whitespace, is_white_space, str_chars,
    string_from_chars,
};

verus! {

/// The line ending a file is written with.
#[derive(Debug, Clone, Copy, PartialEq, Eq, Structural)]
pub enum LineEnding {
    Lf,
    Crlf,
}

/// A CR at position `i` of `s` is directly followed by an LF.
pub open spec fn crlf_at(s: Seq<char>, i: int) -> bool {
    0 <= i && i + 1 < s.len() && s[i] == '\r' && s[i + 1] == '\n'
}

/// `s` holds a CR directly followed by an LF.
pub open spec fn has_crlf(s: Seq<char>) -> bool {
    exists|i: int| #[trigger] crlf_at(s, i)
}

/// The line ending a file's text is taken to use: CRLF as soon as one CRLF
/// occurs.
pub open spec fn disk_ending(s: Seq<char>) -> LineEnding {
    if has_crlf(s) {
        LineEnding::Crlf
    } else {
        LineEnding::Lf
    }
}

/// `s` with every CRLF, read from left to right, replaced by one LF.
pub open spec fn collapse_crlf(s: Seq<char>) -> Seq<char>
    decreases s.len(),
{
    if s.len() == 0 {
        s
    } else if s.len() >= 2 && s[0] == '\r' && s[1] == '\n' {
        seq!['\n'] + collapse_crlf(s.skip(2))
    } else {
        seq![s[0]] + collapse_crlf(s.skip(1))
    }
}

/// `s` with every LF replaced by CRLF.
pub open spec fn expand_lf(s: Seq<char>) -> Seq<char>
    decreases s.len(),
{
    if s.len() == 0 {
        s
    } else if s[0] == '\n' {
        seq!['\r', '\n'] + expand_lf(s.skip(1))
    } else {
        seq![s[0]] + expand_lf(s.skip(1))
    }
}

/// The text written to disk for characters `s` and line ending `e`.
pub open spec fn serialize(s: Seq<char>, e: LineEnding) -> Seq<char> {
    match e {
        LineEnding::Lf => s,
        LineEnding::Crlf => expand_lf(s),
    }
}

/// Every LF of `s` comes right after a CR.
pub open spec fn every_lf_after_cr(s: Seq<char>) -> bool {
    forall|i: int| 0 <= i < s.len() && #[trigger] s[i] == '\n' ==> i > 0 && s[i - 1] == '\r'
}

/// The characters that words are made of: letters, digits and `_`.
pub open spec fn is_word(c: char) -> bool {
    alphanumeric(c) || c == '_'
}

/// Punctuation: neither a word character nor whitespace.
pub open spec fn is_punct(c: char) -> bool {
    !is_word(c) && !is_white_space(c)
}

/// From position `i`, back over the whitespace before it.
pub open spec fn back_over_space(s: Seq<char>, i: int) -> int
    decreases i,
{
    if i > 0 && is_white_space(s[i - 1]) {
        back_over_space(s, i - 1)
    } else {
        i
    }
}

/// From position `i`, back over the word characters before it.
pub open spec fn back_over_word(s: Seq<char>, i: int) -> int
    decreases i,
{
    if i > 0 && is_word(s[i - 1]) {
        back_over_word(s, i - 1)
    } else {
        i
    }
}

/// From position `i`, back over the punctuation before it.
pub open spec fn back_over_punct(s: Seq<char>, i: int) -> int
    decreases i,
{
    if i > 0 && is_punct(s[i - 1]) {
        back_over_punct(s, i - 1)
    } else {
        i
    }
}

/// From position `i`, forward over the word characters after it.
pub open spec fn forward_over_word(s: Seq<char>, i: int) -> int
    decreases s.len() - i,
{
    if 0 <= i < s.len() && is_word(s[i]) {
        forward_over_word(s, i + 1)
    } else {
        i
    }
}

/// From position `i`, forward over the punctuation after it.
pub open spec fn forward_over_punct(s: Seq<char>, i: int) -> int
    decreases s.len() - i,
{
    if 0 <= i < s.len() && is_punct(s[i]) {
        forward_over_punct(s, i + 1)
    } else {
        i
    }
}

/// From position `i`, forward over the whitespace after it.
pub open spec fn forward_over_space(s: Seq<char>, i: int) -> int
    decreases s.len() - i,
{
    if 0 <= i < s.len() && is_white_space(s[i]) {
        forward_over_space(s, i + 1)
    } else {
        i
    }
}

/// The word boundary before position `i`: back over whitespace, then back
/// over a word, or over a run of punctuation when that comes first.
pub open spec fn prev_boundary(s: Seq<char>, i: int) -> int {
    let j = back_over_space(s, i);
    if j > 0 && is_word(s[j - 1]) {
        back_over_word(s, j)
    } else {
        back_over_punct(s, j)
    }
}

/// The word boundary after position `i`: forward over a word (or over a run
/// of punctuation when that comes first), then forward over whitespace.
pub open spec fn next_boundary(s: Seq<char>, i: int) -> int {
    let j = if 0 <= i < s.len() && is_punct(s[i]) {
        forward_over_punct(s, i)
    } else {
        forward_over_word(s, i)
    };
    forward_over_space(s, j)
}

/// The smaller of two integers.
pub open spec fn min(a: int, b: int) -> int {
    if a <= b {
        a
    } else {
        b
    }
}

/// Line `k` of `s`, or the last line when `k` is past it.
pub open spec fn clamp_line(s: Seq<char>, k: int) -> int {
    min(k, line_total(s) - 1)
}

/// The characters of a line without its trailing LF.
pub open spec fn without_lf(l: Seq<char>) -> Seq<char> {
    if l.len() > 0 && l.last() == '\n' {
        l.drop_last()
    } else {
        l
    }
}

/// The text of line `k` (clamped to the last line) without its trailing LF.
pub open spec fn line_content(s: Seq<char>, k: int) -> Seq<char> {
    without_lf(line_chars(s, clamp_line(s, k)))
}

/// Where line `k` (clamped) starts.
pub open spec fn line_first(s: Seq<char>, k: int) -> int {
    line_start(s, clamp_line(s, k))
}

/// Where line `k` (clamped) ends, before its trailing LF.
pub open spec fn line_last(s: Seq<char>, k: int) -> int {
    line_first(s, k) + line_content(s, k).len()
}

/// The line that position `c` (clamped to the end) belongs to.
pub open spec fn line_of(s: Seq<char>, c: int) -> int {
    breaks_upto(s, min(c, s.len() as int)) as int
}

/// The text buffer.
#[derive(Debug)]
pub struct TextBuffer {
    rope: Rope,
    line_ending: LineEnding,
    dirty: bool,
}

impl Default for TextBuffer {
    fn default() -> (b: Self)
        ensures
            b.text() == Seq::<char>::empty(),
            b.ending() == LineEnding::Lf,
            !b.is_modified(),
    {
        Self::new()
    }
}

impl TextBuffer {
    /// The characters of the buffer.
    pub closed spec fn text(&self) -> Seq<char> {
        rope_chars(self.rope)
    }

    /// The line ending the buffer is saved with.
    pub closed spec fn ending(&self) -> LineEnding {
        self.line_ending
    }

    /// The buffer changed since it was loaded or last marked clean.
    pub closed spec fn is_modified(&self) -> bool {
        self.dirty
    }

    /// An empty, clean buffer with LF line endings.
    pub fn new() -> (b: Self)
        ensures
            b.text() == Seq::<char>::empty(),
            b.ending() == LineEnding::Lf,
            !b.is_modified(),
    {
        TextBuffer { rope: rope_new(), line_ending: LineEnding::Lf, dirty: false }
    }

    /// A clean buffer for the text of a file: CRLF line endings when the
    /// text holds a CRLF, each CRLF held as a single LF.
    pub fn from_disk_text(text: &str) -> (b: Self)
        ensures
            b.text() == collapse_crlf(text@),
            b.ending() == disk_ending(text@),
            !b.is_modified(),
    {
        let chars = str_chars(text);
        let n = chars.len();
        let mut out: Vec<char> = Vec::new();
        let mut crlf = false;
        let mut i: usize = 0;
        assert(chars@.skip(0) == chars@);
        while i < n
            invariant
                n == chars@.len(),
                chars@ == text@,
                i <= n,
                out@ + collapse_crlf(chars@.skip(i as int)) == collapse_crlf(chars@),
                crlf == exists|j: int| j < i && #[trigger] crlf_at(chars@, j),
            decreases n - i,
        {
            let ghost rest = chars@.skip(i as int);
            if chars[i] == '\r' && i + 1 < n && chars[i + 1] == '\n' {
                out.push('\n');
                crlf = true;
                assert(crlf_at(chars@, i as int));
                assert(!crlf_at(chars@, i + 1));
                assert(rest.skip(2) == chars@.skip(i + 2));
                assert(collapse_crlf(rest) == seq!['\n'] + collapse_crlf(rest.skip(2)));
                i = i + 2;
            } else {
                out.push(chars[i]);
                assert(!crlf_at(chars@, i as int));
                assert(rest.skip(1) == chars@.skip(i + 1));
                assert(collapse_crlf(rest) == seq![chars@[i as int]] + collapse_crlf(rest.skip(1)));
                i = i + 1;
            }
        }
        assert(collapse_crlf(chars@.skip(n as int)) == Seq::<char>::empty());
        assert(out@ == collapse_crlf(chars@));
        assert(crlf == has_crlf(text@));
        let collapsed = string_from_chars(&out);
        let line_ending = if crlf {
            LineEnding::Crlf
        } else {
            LineEnding::Lf
        };
        TextBuffer { rope: rope_from_str(collapsed.as_str()), line_ending, dirty: false }
    }

    /// Whether the buffer changed since it was loaded or last marked clean.
    pub fn is_dirty(&self) -> (b: bool)
        ensures
            b == self.is_modified(),
    {
        self.dirty
    }

    /// Records that the buffer now matches the file.
    pub fn mark_clean(&mut self)
        ensures
            final(self).text() == old(self).text(),
            final(self).ending() == old(self).ending(),
            !final(self).is_modified(),
    {
        self.dirty = false;
    }

    /// The line ending the buffer is saved with.
    pub fn line_ending(&self) -> (e: LineEnding)
        ensures
            e == self.ending(),
    {
        self.line_ending
    }

    /// The number of characters.
    pub fn len_chars(&self) -> (n: usize)
        ensures
            n == self.text().len(),
    {
        rope_len_chars(&self.rope)
    }

    /// The number of lines: one more than the number of line breaks.
    pub fn line_count(&self) -> (n: usize)
        ensures
            n == line_total(self.text()),
    {
        rope_len_lines(&self.rope)
    }

    /// Whether the buffer holds no character.
    pub fn is_empty(&self) -> (b: bool)
        ensures
            b == (self.text().len() == 0),
    {
        rope_len_chars(&self.rope) == 0
    }

    /// The line of position `char_idx`, positions past the end counting as
    /// the end.
    pub fn line_index_of_char(&self, char_idx: usize) -> (line: usize)
        ensures
            line == line_of(self.text(), char_idx as int),
            line < line_total(self.text()),
    {
        let n = self.len_chars();
        let c = if char_idx < n {
            char_idx
        } else {
            n
        };
        proof {
            lemma_position_in_line(self.text(), c as int);
        }
        rope_char_to_line(&self.rope, c)
    }

    /// Where line `line_idx` starts; a line past the last counts as the last.
    pub fn line_start_char(&self, line_idx: usize) -> (start: usize)
        ensures
            start == line_first(self.text(), line_idx as int),
            start <= self.text().len(),
    {
        let total = self.line_count();
        let k = if line_idx < total - 1 {
            line_idx
        } else {
            total - 1
        };
        proof {
            lemma_line_order(self.text(), k as int);
        }
        rope_line_to_char(&self.rope, k)
    }

    /// Where line `line_idx` (clamped) ends, before its trailing LF if any.
    pub fn line_end_char(&self, line_idx: usize) -> (end: usize)
        ensures
            end == line_last(self.text(), line_idx as int),
            line_first(self.text(), line_idx as int) <= end <= self.text().len(),
    {
        let text_len = self.len_chars();
        let total = self.line_count();
        let k = if line_idx < total - 1 {
            line_idx
        } else {
            total - 1
        };
        proof {
            lemma_line_order(self.text(), k as int);
        }
        let line = rope_line(&self.rope, k);
        let mut len = slice_len_chars(&line);
        if len > 0 && slice_char(&line, len - 1) == '\n' {
            len -= 1;
        }
        let start = self.line_start_char(line_idx);
        assert(start + len <= text_len);
        start + len
    }

    /// The text of line `line_idx` (clamped) without its trailing LF.
    pub fn line_text(&self, line_idx: usize) -> (text: String)
        ensures
            text@ == line_content(self.text(), line_idx as int),
    {
        let total = self.line_count();
        let k = if line_idx < total - 1 {
            line_idx
        } else {
            total - 1
        };
        proof {
            lemma_line_order(self.text(), k as int);
        }
        let line = rope_line(&self.rope, k);
        let len = slice_len_chars(&line);
        if len > 0 && slice_char(&line, len - 1) == '\n' {
            let chars = str_chars(slice_to_string(line).as_str());
            let mut out: Vec<char> = Vec::new();
            let mut i: usize = 0;
            while i + 1 < len
                invariant
                    chars@ == slice_chars(line),
                    len == chars@.len(),
                    len > 0,
                    i < len,
                    out@ == chars@.take(i as int),
                decreases len - i,
            {
                out.push(chars[i]);
                i = i + 1;
                assert(out@ == chars@.take(i as int));
            }
            assert(out@ == chars@.drop_last());
            string_from_chars(&out)
        } else {
            slice_to_string(line)
        }
    }

    /// The character at `char_idx`, if there is one.
    pub fn char_at(&self, char_idx: usize) -> (c: Option<char>)
        ensures
            c == (if char_idx < self.text().len() {
                Some(self.text()[char_idx as int])
            } else {
                None
            }),
    {
        if char_idx < self.len_chars() {
            Some(rope_char(&self.rope, char_idx))
        } else {
            None
        }
    }

    /// The line and the column (in characters) of position `char_idx`,
    /// positions past the end counting as the end.
    pub fn line_column_for_char(&self, char_idx: usize) -> (lc: (usize, usize))
        ensures
            lc.0 == line_of(self.text(), char_idx as int),
            lc.1 == min(char_idx as int, self.text().len() as int) - line_first(
                self.text(),
                lc.0 as int,
            ),
    {
        let line = self.line_index_of_char(char_idx);
        let line_start = self.line_start_char(line);
        let n = self.len_chars();
        let c = if char_idx < n {
            char_idx
        } else {
            n
        };
        proof {
            lemma_position_in_line(self.text(), c as int);
        }
        (line, c - line_start)
    }

    /// The position at column `column` of line `line_idx` (clamped), columns
    /// past the end of the line counting as its end.
    pub fn char_index_for_line_column(&self, line_idx: usize, column: usize) -> (c: usize)
        ensures
            c == line_first(self.text(), line_idx as int) + min(
                column as int,
                line_content(self.text(), line_idx as int).len() as int,
            ),
    {
        let line_start = self.line_start_char(line_idx);
        let line_end = self.line_end_char(line_idx);
        let room = line_end - line_start;
        line_start + if column < room {
            column
        } else {
            room
        }
    }

    /// Inserts `text` at position `char_idx` (past the end: at the end).
    pub fn insert(&mut self, char_idx: usize, text: &str)
        ensures
            final(self).text() == old(self).text().take(min(char_idx as int, old(self).text().len() as int))
                + text@ + old(self).text().skip(min(char_idx as int, old(self).text().len() as int)),
            final(self).ending() == old(self).ending(),
            final(self).is_modified(),
    {
        let n = self.len_chars();
        let c = if char_idx < n {
            char_idx
        } else {
            n
        };
        rope_insert(&mut self.rope, c, text);
        self.dirty = true;
    }

    /// Removes the characters of `range`, both ends clamped to the length;
    /// an empty or reversed range changes nothing.
    pub fn delete_range(&mut self, range: Range<usize>)
        ensures
            ({
                let s = old(self).text();
                let a = min(range.start as int, s.len() as int);
                let b = min(range.end as int, s.len() as int);
                if a < b {
                    &&& final(self).text() == s.take(a) + s.skip(b)
                    &&& final(self).is_modified()
                } else {
                    &&& final(self).text() == s
                    &&& final(self).is_modified() == old(self).is_modified()
                }
            }),
            final(self).ending() == old(self).ending(),
    {
        let n = self.len_chars();
        let start = if range.start < n {
            range.start
        } else {
            n
        };
        let end = if range.end < n {
            range.end
        } else {
            n
        };
        if start >= end {
            return ;
        }
        rope_remove(&mut self.rope, start, end);
        self.dirty = true;
    }

    /// Removes the character before position `char_idx` and returns the
    /// position one to the left (0 stays 0).
    pub fn delete_char_before(&mut self, char_idx: usize) -> (c: usize)
        ensures
            ({
                let s = old(self).text();
                if char_idx == 0 {
                    &&& c == 0
                    &&& final(self).text() == s
                    &&& final(self).is_modified() == old(self).is_modified()
                } else {
                    &&& c == char_idx - 1
                    &&& if char_idx <= s.len() {
                        &&& final(self).text() == s.take(char_idx - 1) + s.skip(char_idx as int)
                        &&& final(self).is_modified()
                    } else {
                        &&& final(self).text() == s
                        &&& final(self).is_modified() == old(self).is_modified()
                    }
                }
            }),
            final(self).ending() == old(self).ending(),
    {
        if char_idx == 0 {
            return 0;
        }
        self.delete_range((char_idx - 1)..char_idx);
        char_idx - 1
    }

    /// Removes the character at position `char_idx` if there is one, and
    /// returns the position clamped to the new length.
    pub fn delete_char_after(&mut self, char_idx: usize) -> (c: usize)
        ensures
            ({
                let s = old(self).text();
                if char_idx < s.len() {
                    &&& final(self).text() == s.take(char_idx as int) + s.skip(char_idx + 1)
                    &&& final(self).is_modified()
                    &&& c == char_idx
                } else {
                    &&& final(self).text() == s
                    &&& final(self).is_modified() == old(self).is_modified()
                    &&& c == s.len()
                }
            }),
            final(self).ending() == old(self).ending(),
    {
        let n = self.len_chars();
        if char_idx >= n {
            return n;
        }
        self.delete_range(char_idx..(char_idx + 1));
        let m = self.len_chars();
        if char_idx < m {
            char_idx
        } else {
            m
        }
    }

    /// The word boundary before `char_idx` (clamped): back over whitespace,
    /// then over word characters (alphanumerics and `_`), or over
    /// punctuation when that comes first.  It moves whenever it can.
    pub fn prev_word_boundary(&self, char_idx: usize) -> (b: usize)
        ensures
            b == prev_boundary(self.text(), min(char_idx as int, self.text().len() as int)),
            b <= min(char_idx as int, self.text().len() as int),
            min(char_idx as int, self.text().len() as int) > 0 ==> b < min(
                char_idx as int,
                self.text().len() as int,
            ),
    {
        let n = self.len_chars();
        let start = if char_idx < n {
            char_idx
        } else {
            n
        };
        let ghost s = self.text();
        proof {
            lemma_prev_boundary_bounds(s, start as int);
        }
        let mut idx = start;
        while idx > 0 && char_is_whitespace(rope_char(&self.rope, idx - 1))
            invariant
                idx <= start <= n,
                n == s.len(),
                s == self.text(),
                back_over_space(s, idx as int) == back_over_space(s, start as int),
            decreases idx,
        {
            idx -= 1;
        }
        let mid = idx;
        if idx > 0 && is_word_char(rope_char(&self.rope, idx - 1)) {
            while idx > 0 && is_word_char(rope_char(&self.rope, idx - 1))
                invariant
                    idx <= mid <= start <= n,
                    n == s.len(),
                    s == self.text(),
                    mid == back_over_space(s, start as int),
                    back_over_word(s, idx as int) == back_over_word(s, mid as int),
                decreases idx,
            {
                idx -= 1;
            }
        } else {
            while idx > 0 && is_punctuation(rope_char(&self.rope, idx - 1))
                invariant
                    idx <= mid <= start <= n,
                    n == s.len(),
                    s == self.text(),
                    mid == back_over_space(s, start as int),
                    back_over_punct(s, idx as int) == back_over_punct(s, mid as int),
                decreases idx,
            {
                idx -= 1;
            }
        }
        idx
    }

    /// The word boundary after `char_idx` (clamped): forward over word
    /// characters (or over punctuation when that comes first), then over
    /// whitespace.  It moves whenever it can.
    pub fn next_word_boundary(&self, char_idx: usize) -> (b: usize)
        ensures
            b == next_boundary(self.text(), min(char_idx as int, self.text().len() as int)),
            min(char_idx as int, self.text().len() as int) <= b <= self.text().len(),
            char_idx < self.text().len() ==> char_idx < b,
    {
        let n = self.len_chars();
        let start = if char_idx < n {
            char_idx
        } else {
            n
        };
        let ghost s = self.text();
        proof {
            lemma_next_boundary_bounds(s, start as int);
        }
        let mut idx = start;
        if idx < n && is_punctuation(rope_char(&self.rope, idx)) {
            while idx < n && is_punctuation(rope_char(&self.rope, idx))
                invariant
                    start <= idx <= n,
                    n == s.len(),
                    s == self.text(),
                    forward_over_punct(s, idx as int) == forward_over_punct(s, start as int),
                decreases n - idx,
            {
                idx += 1;
            }
        } else {
            while idx < n && is_word_char(rope_char(&self.rope, idx))
                invariant
                    start <= idx <= n,
                    n == s.len(),
                    s == self.text(),
                    forward_over_word(s, idx as int) == forward_over_word(s, start as int),
                decreases n - idx,
            {
                idx += 1;
            }
        }
        let mid = idx;
        while idx < n && char_is_whitespace(rope_char(&self.rope, idx))
            invariant
                start <= mid <= idx <= n,
                n == s.len(),
                s == self.text(),
                mid == (if start < n && is_punct(s[start as int]) {
                    forward_over_punct(s, start as int)
                } else {
                    forward_over_word(s, start as int)
                }),
                forward_over_space(s, idx as int) == forward_over_space(s, mid as int),
            decreases n - idx,
        {
            idx += 1;
        }
        idx
    }

    /// Removes the text from the word boundary before `char_idx` up to
    /// `char_idx` (clamped) and returns that boundary.
    pub fn delete_prev_word(&mut self, char_idx: usize) -> (c: usize)
        ensures
            ({
                let s = old(self).text();
                let i = min(char_idx as int, s.len() as int);
                let b = prev_boundary(s, i);
                &&& c == b
                &&& final(self).text() == s.take(b) + s.skip(i)
                &&& final(self).is_modified() == (old(self).is_modified() || b < i)
            }),
            final(self).ending() == old(self).ending(),
    {
        let start = self.prev_word_boundary(char_idx);
        let n = self.len_chars();
        let end = if char_idx < n {
            char_idx
        } else {
            n
        };
        proof {
            let s = self.text();
            if start as int == end as int {
                assert(s.take(start as int) + s.skip(end as int) == s);
            }
        }
        self.delete_range(start..end);
        start
    }

    /// Removes the line of `char_idx` (clamped): up to the start of the next
    /// line, or for the last line up to its end.  Returns the start of the
    /// removed text, clamped to the new length; an empty buffer gives 0.
    pub fn delete_current_line(&mut self, char_idx: usize) -> (c: usize)
        ensures
            ({
                let s = old(self).text();
                let k = line_of(s, char_idx as int);
                let a = line_start(s, k);
                let b = if k + 1 < line_total(s) {
                    line_start(s, k + 1)
                } else {
                    line_last(s, k)
                };
                if s.len() == 0 {
                    &&& c == 0
                    &&& final(self).text() == s
                    &&& final(self).is_modified() == old(self).is_modified()
                } else {
                    &&& final(self).text() == s.take(a) + s.skip(b)
                    &&& final(self).is_modified() == (old(self).is_modified() || a < b)
                    &&& c == min(a, final(self).text().len() as int)
                }
            }),
            final(self).ending() == old(self).ending(),
    {
        if self.is_empty() {
            return 0;
        }
        let ghost s = self.text();
        let line_idx = self.line_index_of_char(char_idx);
        let start = self.line_start_char(line_idx);
        let total = self.line_count();
        let end = if line_idx + 1 < total {
            proof {
                lemma_line_order(s, line_idx as int);
            }
            self.line_start_char(line_idx + 1)
        } else {
            self.line_end_char(line_idx)
        };
        proof {
            lemma_line_order(s, line_idx as int);
            if start as int == end as int {
                assert(s.take(start as int) + s.skip(end as int) == s);
            }
        }
        self.delete_range(start..end);
        let n = self.len_chars();
        if start < n {
            start
        } else {
            n
        }
    }

    /// The text written to disk: the characters with every LF written as
    /// CRLF when the buffer uses CRLF line endings.
    pub fn serialized_text(&self) -> (text: String)
        ensures
            text@ == serialize(self.text(), self.ending()),
    {
        let text = rope_to_string(&self.rope);
        if self.line_ending == LineEnding::Crlf {
            let chars = str_chars(text.as_str());
            let n = chars.len();
            let mut out: Vec<char> = Vec::new();
            let mut i: usize = 0;
            assert(chars@.skip(0) == chars@);
            while i < n
                invariant
                    n == chars@.len(),
                    i <= n,
                    out@ + expand_lf(chars@.skip(i as int)) == expand_lf(chars@),
                decreases n - i,
            {
                let ghost rest = chars@.skip(i as int);
                assert(rest.skip(1) == chars@.skip(i + 1));
                if chars[i] == '\n' {
                    out.push('\r');
                    out.push('\n');
                    assert(expand_lf(rest) == seq!['\r', '\n'] + expand_lf(rest.skip(1)));
                } else {
                    out.push(chars[i]);
                    assert(expand_lf(rest) == seq![chars@[i as int]] + expand_lf(rest.skip(1)));
                }
                i = i + 1;
            }
            assert(expand_lf(chars@.skip(n as int)) == Seq::<char>::empty());
            assert(out@ == expand_lf(chars@));
            string_from_chars(&out)
        } else {
            text
        }
    }
}

/// The word boundary before a position lies between the start and it, and
/// before it when it is not the start.
pub proof fn lemma_prev_boundary_bounds(s: Seq<char>, i: int)
    requires
        0 <= i <= s.len(),
    ensures
        0 <= prev_boundary(s, i) <= i,
        i > 0 ==> prev_boundary(s, i) < i,
{
    lemma_back_over_space_bounds(s, i);
    let j = back_over_space(s, i);
    lemma_back_over_word_bounds(s, j);
    lemma_back_over_punct_bounds(s, j);
    if i > 0 && j == i {
        lemma_back_over_space_bounds(s, i - 1);
        if is_word(s[i - 1]) {
            lemma_back_over_word_bounds(s, i - 1);
            assert(back_over_word(s, i) == back_over_word(s, i - 1));
        } else {
            assert(is_punct(s[i - 1]));
            lemma_back_over_punct_bounds(s, i - 1);
            assert(back_over_punct(s, i) == back_over_punct(s, i - 1));
        }
    }
}

/// The word boundary after a position lies between it and the end, and
/// after it when it is not the end.
pub proof fn lemma_next_boundary_bounds(s: Seq<char>, i: int)
    requires
        0 <= i <= s.len(),
    ensures
        i <= next_boundary(s, i) <= s.len(),
        i < s.len() ==> i < next_boundary(s, i),
{
    lemma_forward_over_word_bounds(s, i);
    lemma_forward_over_punct_bounds(s, i);
    let j = if 0 <= i < s.len() && is_punct(s[i]) {
        forward_over_punct(s, i)
    } else {
        forward_over_word(s, i)
    };
    lemma_forward_over_space_bounds(s, j);
    if i < s.len() && j == i {
        if is_punct(s[i]) {
            lemma_forward_over_punct_bounds(s, i + 1);
            assert(forward_over_punct(s, i) == forward_over_punct(s, i + 1));
        } else {
            lemma_forward_over_word_bounds(s, i + 1);
            assert(!is_word(s[i]));
            assert(is_white_space(s[i]));
            lemma_forward_over_space_bounds(s, i + 1);
            assert(forward_over_space(s, i) == forward_over_space(s, i + 1));
        }
    }
}

proof fn lemma_back_over_space_bounds(s: Seq<char>, i: int)
    requires
        0 <= i,
    ensures
        0 <= back_over_space(s, i) <= i,
    decreases i,
{
    if i > 0 && is_white_space(s[i - 1]) {
        lemma_back_over_space_bounds(s, i - 1);
    }
}

proof fn lemma_back_over_word_bounds(s: Seq<char>, i: int)
    requires
        0 <= i,
    ensures
        0 <= back_over_word(s, i) <= i,
    decreases i,
{
    if i > 0 && is_word(s[i - 1]) {
        lemma_back_over_word_bounds(s, i - 1);
    }
}

proof fn lemma_back_over_punct_bounds(s: Seq<char>, i: int)
    requires
        0 <= i,
    ensures
        0 <= back_over_punct(s, i) <= i,
    decreases i,
{
    if i > 0 && is_punct(s[i - 1]) {
        lemma_back_over_punct_bounds(s, i - 1);
    }
}

proof fn lemma_forward_over_word_bounds(s: Seq<char>, i: int)
    requires
        0 <= i <= s.len(),
    ensures
        i <= forward_over_word(s, i) <= s.len(),
    decreases s.len() - i,
{
    if i < s.len() && is_word(s[i]) {
        lemma_forward_over_word_bounds(s, i + 1);
    }
}

proof fn lemma_forward_over_punct_bounds(s: Seq<char>, i: int)
    requires
        0 <= i <= s.len(),
    ensures
        i <= forward_over_punct(s, i) <= s.len(),
    decreases s.len() - i,
{
    if i < s.len() && is_punct(s[i]) {
        lemma_forward_over_punct_bounds(s, i + 1);
    }
}

proof fn lemma_forward_over_space_bounds(s: Seq<char>, i: int)
    requires
        0 <= i <= s.len(),
    ensures
        i <= forward_over_space(s, i) <= s.len(),
    decreases s.len() - i,
{
    if i < s.len() && is_white_space(s[i]) {
        lemma_forward_over_space_bounds(s, i + 1);
    }
}

/// A line (clamped) ends, before its trailing LF, between its start and the
/// end of the text; for a line that exists, the clamp changes nothing.
pub proof fn lemma_line_last_bounds(s: Seq<char>, k: int)
    requires
        0 <= k,
    ensures
        0 <= line_first(s, k) <= line_last(s, k) <= s.len(),
        k < line_total(s) ==> line_first(s, k) == line_start(s, k),
{
    let c = clamp_line(s, k);
    lemma_line_order(s, c);
}

/// Loading a file's text and serializing it gives the text back, when the
/// file uses one line ending throughout: no CRLF at all, or a CR before
/// every LF.
pub proof fn law_disk_round_trip(t: Seq<char>)
    requires
        !has_crlf(t) || every_lf_after_cr(t),
    ensures
        serialize(collapse_crlf(t), disk_ending(t)) == t,
{
    if has_crlf(t) {
        lemma_expand_collapse(t);
    } else {
        lemma_collapse_without_crlf(t);
    }
}

proof fn lemma_collapse_without_crlf(t: Seq<char>)
    requires
        !has_crlf(t),
    ensures
        collapse_crlf(t) == t,
    decreases t.len(),
{
    if t.len() > 0 {
        assert(!crlf_at(t, 0));
        let r = t.skip(1);
        assert forall|i: int| !crlf_at(r, i) by {
            assert(!crlf_at(t, i + 1));
        }
        lemma_collapse_without_crlf(r);
        assert(t == seq![t[0]] + r);
    }
}

proof fn lemma_expand_collapse(t: Seq<char>)
    requires
        every_lf_after_cr(t),
    ensures
        expand_lf(collapse_crlf(t)) == t,
    decreases t.len(),
{
    if t.len() == 0 {
    } else if t.len() >= 2 && t[0] == '\r' && t[1] == '\n' {
        let r = t.skip(2);
        assert forall|i: int| 0 <= i < r.len() && #[trigger] r[i] == '\n' implies i > 0 && r[i - 1] == '\r' by {
            assert(t[i + 2] == '\n');
            if i == 0 {
                assert(t[1] == '\r');
            }
        }
        lemma_expand_collapse(r);
        let c = collapse_crlf(r);
        assert((seq!['\n'] + c).skip(1) == c);
        assert(expand_lf(seq!['\n'] + c) == seq!['\r', '\n'] + expand_lf(c));
        assert(t == seq!['\r', '\n'] + r);
    } else {
        let r = t.skip(1);
        assert(t[0] != '\n') by {
            if t[0] == '\n' {
                assert(0 > 0);
            }
        }
        assert forall|i: int| 0 <= i < r.len() && #[trigger] r[i] == '\n' implies i > 0 && r[i - 1] == '\r' by {
            assert(t[i + 1] == '\n');
            if i == 0 {
                assert(t[0] == '\r');
                assert(t.len() >= 2 && t[1] == '\n');
            }
        }
        lemma_expand_collapse(r);
        let c = collapse_crlf(r);
        assert((seq![t[0]] + c).skip(1) == c);
        assert(expand_lf(seq![t[0]] + c) == seq![t[0]] + expand_lf(c));
        assert(t == seq![t[0]] + r);
    }
}

/// Deleting the character before the position after an inserted character
/// restores the text: backspace undoes typing.
pub proof fn law_backspace_undoes_insert(s: Seq<char>, c: int, x: char)
    requires
        0 <= c <= s.len(),
    ensures
        ({
            let t = s.take(c) + seq![x] + s.skip(c);
            t.take(c) + t.skip(c + 1) == s
        }),
{
    let t = s.take(c) + seq![x] + s.skip(c);
    assert(t.take(c) == s.take(c));
    assert(t.skip(c + 1) == s.skip(c));
    assert(s == s.take(c) + s.skip(c));
}

/// Deleting the range an insertion filled restores the text: `insert` at
/// `c` followed by `delete_range(c..c + len)` undoes it.
pub proof fn law_delete_undoes_insert(s: Seq<char>, c: int, t: Seq<char>)
    requires
        0 <= c <= s.len(),
    ensures
        ({
            let u = s.take(c) + t + s.skip(c);
            &&& c + t.len() <= u.len()
            &&& u.take(c) + u.skip(c + t.len()) == s
        }),
{
    let u = s.take(c) + t + s.skip(c);
    assert(u.take(c) == s.take(c));
    assert(u.skip(c + t.len()) == s.skip(c));
    assert(s == s.take(c) + s.skip(c));
}

/// Going from a position to its line and column and back gives the
/// position again (positions past the end count as the end).
pub proof fn law_line_column_round_trip(s: Seq<char>, c: int)
    requires
        0 <= c,
    ensures
        ({
            let p = min(c, s.len() as int);
            let k = line_of(s, c);
            line_first(s, k) + min(p - line_first(s, k), line_content(s, k).len() as int) == p
        }),
{
    let n = s.len() as int;
    let p = min(c, n);
    let k = line_of(s, c);
    lemma_position_in_line(s, p);
    lemma_line_order(s, k);
    let a = line_start(s, k);
    let b = crate::lines::line_stop(s, k);
    assert(line_first(s, k) == a);
    if p == n && a < n && s[n - 1] == '\n' {
        crate::lines::lemma_breaks_monotone(s, a, n - 1);
        assert(crate::lines::ends_line(s, n));
        assert(false);
    }
    if b > a && s.subrange(a, b).last() == '\n' {
        assert(s.subrange(a, b).last() == s[b - 1]);
    }
}

/// Punctuation: neither a word character nor whitespace.
fn is_punctuation(ch: char) -> (b: bool)
    ensures
        b == is_punct(ch),
{
    !is_word_char(ch) && !char_is_whitespace(ch)
}

/// Word characters: alphanumerics and the underscore.
pub fn is_word_char(ch: char) -> (b: bool)
    ensures
        b == is_word(ch),
{
    char_is_alphanumeric(ch) || ch == '_'
}

/// An ASCII letter, an ASCII digit or `_`, by code point.
pub open spec fn ascii_identifier_char(c: char) -> bool {
    let u = c as u32;
    ||| 0x30 <= u <= 0x39
    ||| 0x41 <= u <= 0x5A
    ||| 0x61 <= u <= 0x7A
    ||| c == '_'
}

/// Among ASCII characters, the word characters are exactly the letters, the
/// digits and `_`.
pub proof fn law_ascii_word_chars(c: char)
    requires
        (c as u32) < 0x80,
    ensures
        is_word(c) <==> ascii_identifier_char(c),
{
}

proof fn lemma_back_over_run(s: Seq<char>, k: int, i: int)
    requires
        0 <= k <= i <= s.len(),
        forall|j: int| k <= j < i ==> is_word(#[trigger] s[j]),
        k == 0 || !is_word(s[k - 1]),
    ensures
        back_over_word(s, i) == k,
    decreases i,
{
    if i > k {
        lemma_back_over_run(s, k, i - 1);
    }
}

proof fn lemma_forward_over_run(s: Seq<char>, i: int, j: int)
    requires
        0 <= i <= j <= s.len(),
        forall|m: int| i <= m < j ==> is_word(#[trigger] s[m]),
        j == s.len() || !is_word(s[j]),
    ensures
        forward_over_word(s, i) == j,
    decreases j - i,
{
    if i < j {
        lemma_forward_over_run(s, i + 1, j);
    }
}

/// One word move crosses a whole run of ASCII letters, digits and
/// underscores: from inside or at the end of such a run that starts the
/// text or follows another ASCII character, moving left lands on the run's
/// start; from inside or at the start of a run that ends the text or is
/// followed by ASCII punctuation, moving right lands on the run's end.
pub proof fn law_word_moves_cross_identifiers(s: Seq<char>, k: int, i: int, j: int)
    requires
        0 <= k < i <= j <= s.len(),
        forall|m: int| k <= m < j ==> ascii_identifier_char(#[trigger] s[m]),
    ensures
        (k == 0 || ((s[k - 1] as u32) < 0x80 && !ascii_identifier_char(s[k - 1])))
            ==> prev_boundary(s, i) == k,
        (j == s.len() || ((s[j] as u32) < 0x80 && !ascii_identifier_char(s[j]) && !is_white_space(
            s[j],
        ))) ==> next_boundary(s, k) == j,
{
    assert forall|m: int| k <= m < j implies is_word(#[trigger] s[m]) by {
        assert(ascii_identifier_char(s[m]));
        assert((s[m] as u32) < 0x80);
    }
    if k == 0 || ((s[k - 1] as u32) < 0x80 && !ascii_identifier_char(s[k - 1])) {
        assert(!is_white_space(s[i - 1]));
        assert(back_over_space(s, i) == i);
        assert(is_word(s[i - 1]));
        lemma_back_over_run(s, k, i);
    }
    if j == s.len() || ((s[j] as u32) < 0x80 && !ascii_identifier_char(s[j]) && !is_white_space(
        s[j],
    )) {
        assert(is_word(s[k]));
        assert(!is_punct(s[k]));
        lemma_forward_over_run(s, k, j);
        if j < s.len() {
            assert(!is_word(s[j]));
        }
    }
}

} // verus!
