//! Display columns and soft wrap: how a line of text is cut into screen rows
//! of a given width, and which visual rows a whole buffer makes.
use vstd::prelude::*;
use unicode_width::UnicodeWidthChar;
use crate::buffer::{clamp_line, line_content, TextBuffer};
use crate::lines::{lemma_line_order, line_start, line_stop, line_total};
use crate::text::{str_chars, string_from_chars};

verus! {

/// What `UnicodeWidthChar::width` answers for `c`: its width in columns,
/// `None` for control characters.
pub uninterp spec fn unicode_width(c: char) -> Option<usize>;

/// `UnicodeWidthChar::width` of the `unicode-width` crate.  Besides naming the
/// result, the contract states what that crate's `single_char_width` shows
/// plainly: printable ASCII (U+0020 to U+007E) is one column, the C0 and C1
/// control characters (below U+0020, and U+007F to U+009F) have no width, and
/// no character is wider than three columns.
#[verifier::external_body]
fn unicode_char_width(c: char) -> (w: Option<usize>)
    ensures
        w == unicode_width(c),
        0x20 <= c as u32 && (c as u32) < 0x7F ==> w == Some(1usize),
        (c as u32) < 0x20 || (0x7F <= c as u32 && (c as u32) < 0xA0) ==> w is None,
        w matches Some(x) ==> x <= 3,
{
    UnicodeWidthChar::width(c)
}

/// The columns character `c` takes on screen: one for ASCII and the C1
/// controls (below U+00A0), otherwise its Unicode width, with control and
/// zero-width characters taking one column.
pub open spec fn display_width(c: char) -> nat {
    if (c as u32) < 0xA0 {
        1
    } else {
        match unicode_width(c) {
            Some(w) => if w == 0 {
                1
            } else {
                w as nat
            },
            None => 1,
        }
    }
}

/// The columns the characters of `s` take together.
pub open spec fn columns(s: Seq<char>) -> nat
    decreases s.len(),
{
    if s.len() == 0 {
        0
    } else {
        columns(s.drop_last()) + display_width(s.last())
    }
}

/// The display column at which character `k` of `s` starts.
pub open spec fn column_of(s: Seq<char>, k: int) -> nat {
    columns(s.take(k))
}

/// Greedy soft wrap, walking the characters from position `i` while the
/// current row started at `row_start`: a row is cut before a character that
/// would make it wider than `width`, unless the row is still empty.  Each
/// row is the pair of its first and one-past-last character positions.
pub open spec fn wrap_walk(s: Seq<char>, width: nat, i: int, row_start: int) -> Seq<(int, int)>
    decreases s.len() - i,
{
    if i >= s.len() {
        seq![(row_start, s.len() as int)]
    } else if i > row_start && columns(s.subrange(row_start, i + 1)) > width {
        seq![(row_start, i)] + wrap_walk(s, width, i + 1, i)
    } else {
        wrap_walk(s, width, i + 1, row_start)
    }
}

/// The rows of `s` wrapped at `width` columns (an empty text is one empty
/// row), as character ranges.
pub open spec fn wrap_ranges(s: Seq<char>, width: nat) -> Seq<(int, int)> {
    wrap_walk(s, width, 0, 0)
}

/// A row of `s` given by its characters `r.0..r.1`, with its display columns.
pub open spec fn segment_of(s: Seq<char>, r: (int, int)) -> WrapSegment {
    WrapSegment {
        start_char: r.0 as usize,
        end_char: r.1 as usize,
        start_col: column_of(s, r.0) as usize,
        end_col: column_of(s, r.1) as usize,
    }
}

/// The segments `wrap_segments` gives for `s` at `width` columns (a width of
/// 0 counts as 1).
pub open spec fn wrap_spec(s: Seq<char>, width: nat) -> Seq<WrapSegment> {
    let w = if width == 0 {
        1
    } else {
        width
    };
    wrap_ranges(s, w).map_values(|r: (int, int)| segment_of(s, r))
}

/// The largest `k` with `column_of(s, k) <= col`, searching from `i`: the
/// character offset that display column `col` falls in.
pub open spec fn offset_walk(s: Seq<char>, col: int, i: int) -> int
    decreases s.len() - i,
{
    if i >= s.len() {
        s.len() as int
    } else if column_of(s, i + 1) > col {
        i
    } else {
        offset_walk(s, col, i + 1)
    }
}

/// The character offset display column `col` of `s` falls in (the length when
/// it is past the end).
pub open spec fn offset_of_column(s: Seq<char>, col: int) -> int {
    offset_walk(s, col, 0)
}

/// A piece of a line that fits on one screen row: characters
/// `start_char..end_char`, at display columns `start_col..end_col`.
#[derive(Debug, Clone, Copy, PartialEq, Eq)]
pub struct WrapSegment {
    pub start_char: usize,
    pub end_char: usize,
    pub start_col: usize,
    pub end_col: usize,
}

/// One screen row of the buffer: the line it belongs to, its segment of that
/// line and the text of that segment.
#[derive(Debug, Clone)]
pub struct VisualRow {
    pub line_idx: usize,
    pub segment: WrapSegment,
    pub text: String,
}

impl View for VisualRow {
    type V = (usize, WrapSegment, Seq<char>);

    open spec fn view(&self) -> (usize, WrapSegment, Seq<char>) {
        (self.line_idx, self.segment, self.text@)
    }
}

/// The visual rows of one line `l` whose text is `t`.
pub open spec fn line_rows(t: Seq<char>, l: int, width: nat) -> Seq<(usize, WrapSegment, Seq<char>)> {
    wrap_spec(t, width).map_values(
        |g: WrapSegment|
            (l as usize, g, t.subrange(g.start_char as int, g.end_char as int)),
    )
}

/// The visual rows of the first `count` lines of `s`.
pub open spec fn rows_upto(s: Seq<char>, width: nat, count: int) -> Seq<(usize, WrapSegment, Seq<char>)>
    decreases count,
{
    if count <= 0 {
        seq![]
    } else {
        rows_upto(s, width, count - 1) + line_rows(line_content(s, count - 1), count - 1, width)
    }
}

/// The visual rows of the whole of `s`.
pub open spec fn visual_rows(s: Seq<char>, width: nat) -> Seq<(usize, WrapSegment, Seq<char>)> {
    rows_upto(s, width, line_total(s) as int)
}

/// Display columns add up over concatenation.
pub proof fn lemma_columns_concat(a: Seq<char>, b: Seq<char>)
    ensures
        columns(a + b) == columns(a) + columns(b),
    decreases b.len(),
{
    if b.len() == 0 {
        assert(a + b == a);
    } else {
        assert((a + b).drop_last() == a + b.drop_last());
        assert((a + b).last() == b.last());
        lemma_columns_concat(a, b.drop_last());
    }
}

/// The columns of a piece of `s` are the difference of the columns before
/// its ends, and no more than the columns of `s`.
pub proof fn lemma_columns_subrange(s: Seq<char>, i: int, j: int)
    requires
        0 <= i <= j <= s.len(),
    ensures
        columns(s.subrange(i, j)) == column_of(s, j) - column_of(s, i),
        column_of(s, i) <= column_of(s, j) <= columns(s),
        columns(s.subrange(i, j)) <= columns(s),
        j - i <= columns(s.subrange(i, j)),
{
    assert(s.take(j) == s.take(i) + s.subrange(i, j));
    lemma_columns_concat(s.take(i), s.subrange(i, j));
    assert(s == s.take(j) + s.skip(j));
    lemma_columns_concat(s.take(j), s.skip(j));
    lemma_columns_at_least_len(s.subrange(i, j));
}

/// Every character takes at least one column.
pub proof fn lemma_columns_at_least_len(s: Seq<char>)
    ensures
        s.len() <= columns(s),
    decreases s.len(),
{
    if s.len() > 0 {
        lemma_columns_at_least_len(s.drop_last());
    }
}

/// The column of one character more is the column before plus its width.
pub proof fn lemma_column_step(s: Seq<char>, k: int)
    requires
        0 <= k < s.len(),
    ensures
        column_of(s, k + 1) == column_of(s, k) + display_width(s[k]),
{
    assert(s.take(k + 1).drop_last() == s.take(k));
}

/// A character's width on screen is what `unicode-width` gives it, raised to
/// one column where it gives none or zero: the ASCII characters and the C1
/// controls take one column, and so does every character `unicode-width`
/// gives one column, while a character it gives two or three columns takes
/// that many.
pub proof fn law_display_width_is_unicode_width(c: char)
    ensures
        display_width(c) >= 1,
        (c as u32) < 0xA0 ==> display_width(c) == 1,
        (c as u32) >= 0xA0 ==> display_width(c) == match unicode_width(c) {
            Some(u) => if u == 0 {
                1
            } else {
                u as nat
            },
            None => 1,
        },
        unicode_width(c) == Some(1usize) ==> display_width(c) == 1,
        (c as u32) >= 0xA0 && unicode_width(c) is Some && unicode_width(c).unwrap() >= 1
            ==> display_width(c) == unicode_width(c).unwrap(),
{
}

/// The width of one character on screen: its Unicode width, at least one
/// column.
pub fn char_display_width(ch: char) -> (w: usize)
    ensures
        w == display_width(ch),
        w == match unicode_width(ch) {
            Some(u) => if u == 0 {
                1
            } else {
                u
            },
            None => 1,
        },
        1 <= w <= 3,
{
    let w = match unicode_char_width(ch) {
        Some(w) => w,
        None => 1,
    };
    if w < 1 {
        1
    } else {
        w
    }
}

/// Cuts `text` into rows of at most `width` columns (0 counts as 1), greedily
/// from the left; a character wider than the width gets a row of its own,
/// and an empty text gives one empty segment.
pub fn wrap_segments(text: &str, width: usize) -> (segments: Vec<WrapSegment>)
    requires
        columns(text@) <= usize::MAX,
    ensures
        segments@ == wrap_spec(text@, width as nat),
        segments.len() >= 1,
{
    let width = if width < 1 {
        1
    } else {
        width
    };
    let chars = str_chars(text);
    let n = chars.len();
    let ghost s = chars@;
    let ghost w = width as nat;
    let mut result: Vec<WrapSegment> = Vec::new();
    let mut segment_start_char: usize = 0;
    let mut segment_start_col: usize = 0;
    let mut absolute_col: usize = 0;
    let mut segment_col: usize = 0;
    let mut char_idx: usize = 0;
    proof {
        lemma_columns_subrange(s, 0, n as int);
        assert(s.subrange(0, n as int) == s);
    }
    while char_idx < n
        invariant
            s == chars@,
            s == text@,
            n == s.len(),
            columns(s) <= usize::MAX,
            width >= 1,
            w == width,
            segment_start_char <= char_idx <= n,
            absolute_col == column_of(s, char_idx as int),
            segment_start_col == column_of(s, segment_start_char as int),
            segment_col == columns(s.subrange(segment_start_char as int, char_idx as int)),
            result@.map_values(|g: WrapSegment| (g.start_char as int, g.end_char as int))
                + wrap_walk(s, w, char_idx as int, segment_start_char as int) == wrap_ranges(s, w),
            forall|j: int|
                0 <= j < result@.len() ==> #[trigger] result@[j] == segment_of(
                    s,
                    (result@[j].start_char as int, result@[j].end_char as int),
                ),
        decreases n - char_idx,
    {
        let ch = chars[char_idx];
        let ch_width = char_display_width(ch);
        proof {
            lemma_column_step(s, char_idx as int);
            lemma_columns_subrange(s, segment_start_char as int, char_idx + 1);
            lemma_columns_subrange(s, segment_start_char as int, char_idx as int);
            lemma_columns_subrange(s, 0, char_idx + 1);
        }
        let ghost old_result = result@;
        let ghost old_start = segment_start_char;
        if segment_col > 0 && segment_col + ch_width > width {
            let seg = WrapSegment {
                start_char: segment_start_char,
                end_char: char_idx,
                start_col: segment_start_col,
                end_col: absolute_col,
            };
            result.push(seg);
            proof {
                assert(char_idx > old_start);
                assert(result@.map_values(|g: WrapSegment| (g.start_char as int, g.end_char as int))
                    == old_result.map_values(|g: WrapSegment| (g.start_char as int, g.end_char as int))
                    + seq![(old_start as int, char_idx as int)]);
            }
            segment_start_char = char_idx;
            segment_start_col = absolute_col;
            segment_col = 0;
        } else {
            proof {
                if char_idx > old_start {
                } else {
                    assert(segment_col == 0);
                }
            }
        }
        absolute_col += ch_width;
        segment_col += ch_width;
        char_idx += 1;
        proof {
            lemma_column_step(s, (char_idx - 1) as int);
            let sub = s.subrange(segment_start_char as int, char_idx as int);
            assert(sub.drop_last() == s.subrange(segment_start_char as int, char_idx - 1));
            assert(sub.last() == s[char_idx - 1]);
            assert(columns(sub) == columns(sub.drop_last()) + display_width(sub.last()));
            assert(columns(s.subrange(segment_start_char as int, segment_start_char as int)) == 0);
        }
    }
    let seg = WrapSegment {
        start_char: segment_start_char,
        end_char: n,
        start_col: segment_start_col,
        end_col: absolute_col,
    };
    let ghost before = result@;
    result.push(seg);
    proof {
        assert(result@.map_values(|g: WrapSegment| (g.start_char as int, g.end_char as int))
            == before.map_values(|g: WrapSegment| (g.start_char as int, g.end_char as int))
            + seq![(segment_start_char as int, n as int)]);
        let r = wrap_ranges(s, w);
        assert(result@.map_values(|g: WrapSegment| (g.start_char as int, g.end_char as int)) == r);
        assert(wrap_spec(s, width as nat) == r.map_values(|p: (int, int)| segment_of(s, p)));
        assert forall|j: int| 0 <= j < result@.len() implies #[trigger] result@[j] == r.map_values(
            |p: (int, int)| segment_of(s, p),
        )[j] by {
            assert(r[j] == (result@[j].start_char as int, result@[j].end_char as int));
        }
        assert(result@ == wrap_spec(text@, width as nat));
    }
    result
}

/// The display column at which character `char_offset` of `text` starts
/// (offsets past the end count as the end).
pub fn line_display_column(text: &str, char_offset: usize) -> (col: usize)
    requires
        column_of(text@, if char_offset <= text@.len() {
            char_offset as int
        } else {
            text@.len() as int
        }) <= usize::MAX,
    ensures
        col == column_of(text@, if char_offset <= text@.len() {
            char_offset as int
        } else {
            text@.len() as int
        }),
{
    let chars = str_chars(text);
    let n = chars.len();
    let stop = if char_offset < n {
        char_offset
    } else {
        n
    };
    let mut col: usize = 0;
    let mut i: usize = 0;
    while i < stop
        invariant
            chars@ == text@,
            n == chars@.len(),
            stop <= n,
            i <= stop,
            column_of(chars@, stop as int) <= usize::MAX,
            col == column_of(chars@, i as int),
        decreases stop - i,
    {
        proof {
            lemma_column_step(chars@, i as int);
            lemma_columns_subrange(chars@, i + 1, stop as int);
        }
        col = col + char_display_width(chars[i]);
        i = i + 1;
    }
    col
}

/// The character offset that display column `display_column` of `text`
/// falls in: the first character reaching past that column, or the length
/// when none does.
pub fn char_offset_for_display_column(text: &str, display_column: usize) -> (offset: usize)
    ensures
        offset == offset_of_column(text@, display_column as int),
        offset <= text@.len(),
{
    let chars = str_chars(text);
    let n = chars.len();
    let mut col: usize = 0;
    let mut idx: usize = 0;
    while idx < n
        invariant
            chars@ == text@,
            n == chars@.len(),
            idx <= n,
            col == column_of(chars@, idx as int),
            col <= display_column,
            offset_walk(chars@, display_column as int, idx as int) == offset_of_column(
                chars@,
                display_column as int,
            ),
        decreases n - idx,
    {
        let ch_width = char_display_width(chars[idx]);
        proof {
            lemma_column_step(chars@, idx as int);
        }
        if ch_width > display_column - col {
            return idx;
        }
        col = col + ch_width;
        idx = idx + 1;
    }
    n
}

/// The display columns of a buffer's text, if they fit in a `usize`.
pub fn buffer_columns(buffer: &TextBuffer) -> (c: Option<usize>)
    ensures
        match c {
            Some(n) => n == columns(buffer.text()),
            None => columns(buffer.text()) > usize::MAX,
        },
{
    let ghost s = buffer.text();
    let n = buffer.len_chars();
    let mut total: usize = 0;
    let mut i: usize = 0;
    while i < n
        invariant
            s == buffer.text(),
            n == s.len(),
            i <= n,
            total == column_of(s, i as int),
        decreases n - i,
    {
        let ch = match buffer.char_at(i) {
            Some(ch) => ch,
            None => ' ',
        };
        let w = char_display_width(ch);
        proof {
            lemma_column_step(s, i as int);
            lemma_columns_subrange(s, 0, i + 1);
        }
        if total > usize::MAX - w {
            return None;
        }
        total = total + w;
        i = i + 1;
    }
    assert(s.take(n as int) == s);
    Some(total)
}

/// The visual rows of the whole buffer at `width` columns, line after line.
pub fn collect_visual_rows(buffer: &TextBuffer, width: usize) -> (rows: Vec<VisualRow>)
    requires
        columns(buffer.text()) <= usize::MAX,
    ensures
        rows@.map_values(|r: VisualRow| r@) == visual_rows(buffer.text(), width as nat),
{
    let mut rows: Vec<VisualRow> = Vec::new();
    let count = buffer.line_count();
    let ghost s = buffer.text();
    let mut line_idx: usize = 0;
    while line_idx < count
        invariant
            s == buffer.text(),
            count == line_total(s),
            line_idx <= count,
            columns(s) <= usize::MAX,
            rows@.map_values(|r: VisualRow| r@) == rows_upto(s, width as nat, line_idx as int),
        decreases count - line_idx,
    {
        let text = buffer.line_text(line_idx);
        proof {
            lemma_line_content_columns(s, line_idx as int);
        }
        let segments = wrap_segments(text.as_str(), width);
        let chars = str_chars(text.as_str());
        let ghost before = rows@.map_values(|r: VisualRow| r@);
        let mut j: usize = 0;
        while j < segments.len()
            invariant
                s == buffer.text(),
                chars@ == text@,
                text@ == line_content(s, line_idx as int),
                segments@ == wrap_spec(text@, width as nat),
                j <= segments.len(),
                before == rows_upto(s, width as nat, line_idx as int),
                rows@.map_values(|r: VisualRow| r@) == before + line_rows(
                    text@,
                    line_idx as int,
                    width as nat,
                ).take(j as int),
            decreases segments.len() - j,
        {
            let segment = segments[j];
            assert(chars@.len() == chars.len());
            proof {
                lemma_wrap_spec_bounds(text@, width as nat, j as int);
            }
            let mut piece: Vec<char> = Vec::new();
            let mut k: usize = segment.start_char;
            while k < segment.end_char
                invariant
                    chars@ == text@,
                    segment.start_char <= k <= segment.end_char <= chars@.len(),
                    piece@ == chars@.subrange(segment.start_char as int, k as int),
                decreases segment.end_char - k,
            {
                piece.push(chars[k]);
                k = k + 1;
            }
            let row_text = string_from_chars(&piece);
            let ghost old_rows = rows@;
            rows.push(VisualRow { line_idx, segment, text: row_text });
            j = j + 1;
            proof {
                let lr = line_rows(text@, line_idx as int, width as nat);
                assert(lr.take(j as int) == lr.take(j - 1) + seq![lr[j - 1]]);
                assert(rows@.map_values(|r: VisualRow| r@) == old_rows.map_values(|r: VisualRow| r@)
                    + seq![rows@[j + before.len() - 1]@]);
            }
        }
        proof {
            let lr = line_rows(text@, line_idx as int, width as nat);
            assert(lr.take(lr.len() as int) == lr);
        }
        line_idx = line_idx + 1;
    }
    rows
}

/// The columns of a line's text are no more than those of the whole text.
pub proof fn lemma_line_content_columns(s: Seq<char>, k: int)
    requires
        0 <= k,
    ensures
        columns(line_content(s, k)) <= columns(s),
{
    let c = clamp_line(s, k);
    lemma_line_order(s, c);
    let a = line_start(s, c);
    let b = line_stop(s, c);
    lemma_columns_subrange(s, a, b);
    if b > a && s.subrange(a, b).last() == '\n' {
        assert(s.subrange(a, b).drop_last() == s.subrange(a, b - 1));
        lemma_columns_subrange(s, a, b - 1);
    }
}

/// The rows of a wrap walk lie in order between the row start and the end.
pub proof fn lemma_wrap_walk_bounds(s: Seq<char>, width: nat, i: int, row_start: int)
    requires
        0 <= row_start <= i,
        row_start <= s.len(),
    ensures
        forall|j: int|
            0 <= j < wrap_walk(s, width, i, row_start).len() ==> row_start <= (
            #[trigger] wrap_walk(s, width, i, row_start)[j]).0 <= wrap_walk(s, width, i, row_start)[j].1
                <= s.len(),
        wrap_walk(s, width, i, row_start).len() >= 1,
    decreases s.len() - i,
{
    if i >= s.len() {
    } else if i > row_start && columns(s.subrange(row_start, i + 1)) > width {
        lemma_wrap_walk_bounds(s, width, i + 1, i);
        let rest = wrap_walk(s, width, i + 1, i);
        assert forall|j: int| 0 <= j < wrap_walk(s, width, i, row_start).len() implies row_start <= (
            #[trigger] wrap_walk(s, width, i, row_start)[j]).0 <= wrap_walk(s, width, i, row_start)[j].1
                <= s.len() by {
            if j > 0 {
                assert(wrap_walk(s, width, i, row_start)[j] == rest[j - 1]);
            }
        }
    } else {
        lemma_wrap_walk_bounds(s, width, i + 1, row_start);
    }
}

/// Display columns never decrease along a text, and grow with every
/// character.
pub proof fn lemma_column_strictly_grows(s: Seq<char>, i: int, j: int)
    requires
        0 <= i <= j <= s.len(),
    ensures
        column_of(s, i) + (j - i) <= column_of(s, j),
{
    lemma_columns_subrange(s, i, j);
}

/// What `line_display_column` gives, as the offset grows (offsets past the
/// end counting as the end): it never decreases, it is at least the number
/// of characters before the offset, and from the end on it is the width of
/// the whole text.
pub proof fn law_display_column_grows(s: Seq<char>, i: int, j: int)
    requires
        0 <= i <= j,
    ensures
        column_of(s, crate::buffer::min(i, s.len() as int)) <= column_of(
            s,
            crate::buffer::min(j, s.len() as int),
        ),
        crate::buffer::min(i, s.len() as int) <= column_of(s, crate::buffer::min(i, s.len() as int)),
        j >= s.len() ==> column_of(s, crate::buffer::min(j, s.len() as int)) == columns(s),
{
    let a = crate::buffer::min(i, s.len() as int);
    let b = crate::buffer::min(j, s.len() as int);
    lemma_column_strictly_grows(s, a, b);
    lemma_column_strictly_grows(s, 0, a);
    assert(s.take(0) == Seq::<char>::empty());
    assert(s.take(s.len() as int) == s);
}

proof fn lemma_offset_walk(s: Seq<char>, col: int, i: int)
    requires
        0 <= i <= s.len(),
        column_of(s, i) <= col,
    ensures
        i <= offset_walk(s, col, i) <= s.len(),
        column_of(s, offset_walk(s, col, i)) <= col,
        offset_walk(s, col, i) == s.len() || column_of(s, offset_walk(s, col, i) + 1) > col,
    decreases s.len() - i,
{
    if i < s.len() && column_of(s, i + 1) <= col {
        lemma_offset_walk(s, col, i + 1);
    }
}

proof fn lemma_offset_walk_reaches(s: Seq<char>, k: int, i: int)
    requires
        0 <= i <= k <= s.len(),
    ensures
        offset_walk(s, column_of(s, k) as int, i) == k,
    decreases k - i,
{
    if i < k {
        lemma_column_strictly_grows(s, i + 1, k);
        lemma_offset_walk_reaches(s, k, i + 1);
    } else if i < s.len() {
        lemma_column_strictly_grows(s, i, i + 1);
    }
}

/// The offset of a column is the last character starting at or before it:
/// its column is no later than the column asked for, and the next
/// character's column is later.
pub proof fn law_offset_of_column(s: Seq<char>, col: int)
    requires
        0 <= col,
    ensures
        0 <= offset_of_column(s, col) <= s.len(),
        column_of(s, offset_of_column(s, col)) <= col,
        offset_of_column(s, col) == s.len() || column_of(s, offset_of_column(s, col) + 1) > col,
{
    assert(s.take(0) == Seq::<char>::empty());
    lemma_offset_walk(s, col, 0);
}

/// Mapping a character offset to its display column and back gives the
/// offset again.
pub proof fn law_column_round_trip(s: Seq<char>, k: int)
    requires
        0 <= k <= s.len(),
    ensures
        offset_of_column(s, column_of(s, k) as int) == k,
{
    lemma_offset_walk_reaches(s, k, 0);
}

proof fn lemma_walk_partition(s: Seq<char>, w: nat, i: int, rs: int)
    requires
        0 <= rs <= i <= s.len(),
        rs < i || i == 0,
        i == rs || i == rs + 1 || columns(s.subrange(rs, i)) <= w,
    ensures
        ({
            let r = wrap_walk(s, w, i, rs);
            &&& r.len() >= 1
            &&& r[0].0 == rs
            &&& r.last().1 == s.len()
            &&& forall|j: int| 0 <= j < r.len() - 1 ==> #[trigger] r[j].1 == r[j + 1].0
            &&& forall|j: int| 0 <= j < r.len() ==> #[trigger] r[j].0 <= r[j].1
            &&& s.len() > 0 ==> forall|j: int| 0 <= j < r.len() ==> #[trigger] r[j].0 < r[j].1
            &&& forall|j: int|
                0 <= j < r.len() ==> #[trigger] r[j].1 == r[j].0 + 1 || columns(
                    s.subrange(r[j].0, r[j].1),
                ) <= w
            &&& forall|j: int|
                0 <= j < r.len() - 1 ==> columns(s.subrange(#[trigger] r[j].0, r[j].1 + 1)) > w
        }),
    decreases s.len() - i,
{
    if i >= s.len() {
    } else if i > rs && columns(s.subrange(rs, i + 1)) > w {
        lemma_walk_partition(s, w, i + 1, i);
        let rest = wrap_walk(s, w, i + 1, i);
        let r = wrap_walk(s, w, i, rs);
        assert(r == seq![(rs, i)] + rest);
        assert forall|j: int| 0 <= j < r.len() - 1 implies #[trigger] r[j].1 == r[j + 1].0 by {
            if j > 0 {
                assert(r[j] == rest[j - 1]);
                assert(r[j + 1] == rest[j]);
            }
        }
        assert forall|j: int| 0 <= j < r.len() implies #[trigger] r[j].0 <= r[j].1 by {
            if j > 0 {
                assert(r[j] == rest[j - 1]);
            }
        }
        assert forall|j: int| s.len() > 0 && 0 <= j < r.len() implies #[trigger] r[j].0 < r[j].1 by {
            if j > 0 {
                assert(r[j] == rest[j - 1]);
            }
        }
        assert forall|j: int| 0 <= j < r.len() implies #[trigger] r[j].1 == r[j].0 + 1 || columns(
            s.subrange(r[j].0, r[j].1),
        ) <= w by {
            if j > 0 {
                assert(r[j] == rest[j - 1]);
            }
        }
        assert forall|j: int| 0 <= j < r.len() - 1 implies columns(
            s.subrange(#[trigger] r[j].0, r[j].1 + 1),
        ) > w by {
            if j > 0 {
                assert(r[j] == rest[j - 1]);
            }
        }
    } else {
        if i > rs {
            assert(columns(s.subrange(rs, i + 1)) <= w);
        }
        lemma_walk_partition(s, w, i + 1, rs);
    }
}

/// Soft wrap cuts a text into rows that follow each other from the first
/// character to the last, each non-empty (an empty text is one empty row),
/// each at most `width` columns unless it is a single character, and each
/// but the last ending only because the next character would not fit.
pub proof fn law_wrap_partition(s: Seq<char>, width: nat)
    requires
        width >= 1,
    ensures
        ({
            let r = wrap_ranges(s, width);
            &&& r.len() >= 1
            &&& r[0].0 == 0
            &&& r.last().1 == s.len()
            &&& forall|j: int| 0 <= j < r.len() - 1 ==> #[trigger] r[j].1 == r[j + 1].0
            &&& forall|j: int| 0 <= j < r.len() ==> #[trigger] r[j].0 <= r[j].1
            &&& s.len() > 0 ==> forall|j: int| 0 <= j < r.len() ==> #[trigger] r[j].0 < r[j].1
            &&& s.len() == 0 ==> r == seq![(0int, 0int)]
            &&& forall|j: int|
                0 <= j < r.len() ==> #[trigger] r[j].1 == r[j].0 + 1 || columns(
                    s.subrange(r[j].0, r[j].1),
                ) <= width
            &&& forall|j: int|
                0 <= j < r.len() - 1 ==> columns(s.subrange(#[trigger] r[j].0, r[j].1 + 1)) > width
        }),
{
    lemma_walk_partition(s, width, 0, 0);
}

/// Soft wrap as `wrap_segments` gives it, over the segments' own fields (for
/// a text whose display columns fit in a `usize`): the segments start at
/// character and column 0, follow each other without a gap, end at the end
/// of the text, carry the display columns of their ends, are non-empty (an
/// empty text is one empty segment), are at most the width wide (0 counting
/// as 1) unless they hold a single character, and each but the last stops
/// only because the next character would not fit.
pub proof fn law_wrap_segments(s: Seq<char>, width: nat)
    requires
        columns(s) <= usize::MAX,
    ensures
        ({
            let g = wrap_spec(s, width);
            let w: int = if width == 0 {
                1
            } else {
                width as int
            };
            &&& g.len() >= 1
            &&& g[0].start_char == 0
            &&& g[0].start_col == 0
            &&& g.last().end_char == s.len()
            &&& forall|j: int|
                0 <= j < g.len() - 1 ==> #[trigger] g[j].end_char == g[j + 1].start_char
                    && g[j].end_col == g[j + 1].start_col
            &&& forall|j: int|
                0 <= j < g.len() ==> {
                    &&& #[trigger] g[j].start_char <= g[j].end_char
                    &&& g[j].start_col == column_of(s, g[j].start_char as int)
                    &&& g[j].end_col == column_of(s, g[j].end_char as int)
                    &&& s.len() > 0 ==> g[j].start_char < g[j].end_char
                    &&& g[j].end_col - g[j].start_col <= w || g[j].end_char == g[j].start_char + 1
                }
            &&& forall|j: int|
                0 <= j < g.len() - 1 ==> #[trigger] g[j].end_col - g[j].start_col + display_width(
                    s[g[j].end_char as int],
                ) > w
        }),
{
    let w: nat = if width == 0 {
        1
    } else {
        width
    };
    let r = wrap_ranges(s, w);
    let g = wrap_spec(s, width);
    law_wrap_partition(s, w);
    lemma_wrap_walk_bounds(s, w, 0, 0);
    lemma_columns_at_least_len(s);
    assert forall|j: int| 0 <= j < g.len() implies {
        &&& g[j].start_char == r[j].0
        &&& g[j].end_char == r[j].1
        &&& g[j].start_col == column_of(s, r[j].0)
        &&& g[j].end_col == column_of(s, r[j].1)
        &&& columns(s.subrange(r[j].0, r[j].1)) == column_of(s, r[j].1) - column_of(s, r[j].0)
    } by {
        assert(0 <= r[j].0 <= r[j].1 <= s.len());
        lemma_columns_subrange(s, r[j].0, r[j].1);
        lemma_columns_subrange(s, 0, r[j].0);
        assert(g[j] == segment_of(s, r[j]));
    }
    assert(s.take(0) == Seq::<char>::empty());
    assert forall|j: int| 0 <= j < g.len() - 1 implies #[trigger] g[j].end_col - g[j].start_col
        + display_width(s[g[j].end_char as int]) > w by {
        assert(0 <= r[j].0 <= r[j].1 <= s.len());
        assert(r[j].1 == r[j + 1].0);
        assert(r[j + 1].0 < r[j + 1].1 <= s.len());
        lemma_columns_subrange(s, r[j].0, r[j].1 + 1);
        lemma_column_step(s, r[j].1);
    }
    assert(g.last() == g[g.len() - 1]);
}

/// A width of 0 wraps as a width of 1.
pub proof fn law_wrap_width_zero(s: Seq<char>)
    ensures
        wrap_spec(s, 0) == wrap_spec(s, 1),
{
}

/// The rows of a line give the line back: their texts, read in order, join
/// to the line's text.
pub proof fn law_line_rows_join(t: Seq<char>, l: int, width: nat)
    requires
        t.len() <= usize::MAX,
    ensures
        line_rows(t, l, width).map_values(|r: (usize, WrapSegment, Seq<char>)| r.2).flatten() == t,
{
    let w: nat = if width == 0 {
        1
    } else {
        width
    };
    let r = wrap_ranges(t, w);
    law_wrap_partition(t, w);
    lemma_wrap_walk_bounds(t, w, 0, 0);
    let parts = Seq::new(r.len(), |j: int| t.subrange(r[j].0, r[j].1));
    let texts = line_rows(t, l, width).map_values(|x: (usize, WrapSegment, Seq<char>)| x.2);
    assert forall|j: int| 0 <= j < texts.len() implies #[trigger] texts[j] == parts[j] by {
        assert(0 <= r[j].0 <= r[j].1 <= t.len());
        assert(wrap_spec(t, width)[j] == segment_of(t, r[j]));
    }
    assert(texts == parts);
    lemma_parts_join(t, r, parts, r.len() as int);
    assert(parts.take(r.len() as int) == parts);
    assert(r.last() == r[r.len() - 1]);
    assert(t.subrange(0, t.len() as int) == t);
}

proof fn lemma_parts_join(t: Seq<char>, r: Seq<(int, int)>, parts: Seq<Seq<char>>, k: int)
    requires
        r.len() >= 1,
        r[0].0 == 0,
        forall|j: int| 0 <= j < r.len() - 1 ==> #[trigger] r[j].1 == r[j + 1].0,
        forall|j: int| 0 <= j < r.len() ==> 0 <= #[trigger] r[j].0 <= r[j].1 <= t.len(),
        parts.len() == r.len(),
        forall|j: int| 0 <= j < r.len() ==> #[trigger] parts[j] == t.subrange(r[j].0, r[j].1),
        0 <= k <= r.len(),
    ensures
        parts.take(k).flatten() == t.subrange(
            0,
            if k == 0 {
                0
            } else {
                r[k - 1].1
            },
        ),
    decreases k,
{
    if k == 0 {
        assert(parts.take(0) == Seq::<Seq<char>>::empty());
    } else {
        lemma_parts_join(t, r, parts, k - 1);
        assert(parts.take(k) == parts.take(k - 1).push(parts[k - 1]));
        parts.take(k - 1).lemma_flatten_push(parts[k - 1]);
        let a = if k - 1 == 0 {
            0
        } else {
            r[k - 2].1
        };
        assert(a == r[k - 1].0);
        assert(t.subrange(0, a) + t.subrange(a, r[k - 1].1) == t.subrange(0, r[k - 1].1));
    }
}

/// A wrap has at least one segment.
pub proof fn lemma_wrap_spec_nonempty(t: Seq<char>, width: nat)
    ensures
        wrap_spec(t, width).len() >= 1,
{
    let w: nat = if width == 0 {
        1
    } else {
        width
    };
    lemma_wrap_walk_bounds(t, w, 0, 0);
}

/// Every segment of a wrap lies within the text, in order, and there is at
/// least one.
pub proof fn lemma_wrap_spec_bounds(t: Seq<char>, width: nat, j: int)
    requires
        t.len() <= usize::MAX,
        0 <= j < wrap_spec(t, width).len(),
    ensures
        wrap_spec(t, width)[j].start_char <= wrap_spec(t, width)[j].end_char <= t.len(),
        wrap_spec(t, width).len() >= 1,
{
    let w: nat = if width == 0 {
        1
    } else {
        width
    };
    lemma_wrap_walk_bounds(t, w, 0, 0);
    let r = wrap_ranges(t, w);
    assert(0 <= r[j].0 <= r[j].1 <= t.len());
}

} // verus!
