//! The editor: a buffer, a cursor, the first screen row shown, a status
//! message and the close prompt, changed one action at a time.
//!
//! Saving writes a file, which happens around the library: `apply` answers
//! `Step::Save` for the save action, and `finish_save` records a save that
//! succeeded.
use vstd::prelude::*;
use crate::action::Action;
use crate::buffer::{
    line_content, line_first, line_last, line_of, min, next_boundary, prev_boundary, TextBuffer,
};
use crate::text::str_chars;
use crate::lines::{breaks_upto, lemma_line_order, lemma_position_in_line, line_start, line_total};
use crate::render::{
    buffer_columns, char_display_width, char_offset_for_display_column, collect_visual_rows,
    column_of, columns, lemma_column_step, lemma_columns_concat, lemma_columns_subrange,
    lemma_line_content_columns, line_display_column, line_rows, offset_of_column, rows_upto,
    visual_rows, wrap_segments, wrap_spec, VisualRow, WrapSegment,
};

verus! {

broadcast use vstd::string::group_string_axioms;

/// What the caller has to do after an action.
#[derive(Debug, Clone, Copy, PartialEq, Eq, Structural)]
pub enum Step {
    /// Nothing: the action is applied.
    Done,
    /// Write the buffer's serialized text to the file, then call
    /// `finish_save`; nothing changed yet.
    Save,
}

/// A width of at least one column.
pub open spec fn at_least_one(w: int) -> nat {
    if w < 1 {
        1
    } else {
        w as nat
    }
}

/// `a - b`, or 0 when `b` is larger.
pub open spec fn sat_sub(a: int, b: int) -> int {
    if a >= b {
        a - b
    } else {
        0
    }
}

/// The text of the line cursor position `c` is on.
pub open spec fn cursor_line_text(s: Seq<char>, c: int) -> Seq<char> {
    line_content(s, line_of(s, c))
}

/// The display column of cursor position `c` within its line.
pub open spec fn cursor_column(s: Seq<char>, c: int) -> int {
    let t = cursor_line_text(s, c);
    column_of(t, min(sat_sub(c, line_first(s, line_of(s, c))), t.len() as int)) as int
}

/// Display column `dc` lies in segment `j` of a wrapped line: from the
/// segment's start column up to its end column, the end itself only for the
/// last segment (a column at a wrap point starts the next row).
pub open spec fn seg_holds(segs: Seq<WrapSegment>, j: int, dc: int) -> bool {
    &&& segs[j].start_col <= dc
    &&& (dc < segs[j].end_col || (j == segs.len() - 1 && dc == segs[j].end_col))
}

/// The first segment from `j` on that holds display column `dc`, or the
/// last one when none does.
pub open spec fn first_holding(segs: Seq<WrapSegment>, dc: int, j: int) -> int
    decreases segs.len() - j,
{
    if j >= segs.len() || j < 0 {
        sat_sub(segs.len() as int, 1)
    } else if seg_holds(segs, j, dc) {
        j
    } else {
        first_holding(segs, dc, j + 1)
    }
}

/// The segment of a wrapped line that display column `dc` is in.
pub open spec fn segment_index(segs: Seq<WrapSegment>, dc: int) -> int {
    first_holding(segs, dc, 0)
}

/// The segment of its line that cursor position `c` is in, at width `w`.
pub open spec fn cursor_segment(s: Seq<char>, c: int, w: nat) -> WrapSegment {
    let segs = wrap_spec(cursor_line_text(s, c), w);
    segs[segment_index(segs, cursor_column(s, c))]
}

/// The first visual row from `j` on of line `line` and segment `g`, or 0.
pub open spec fn first_row(
    rows: Seq<(usize, WrapSegment, Seq<char>)>,
    line: int,
    g: WrapSegment,
    j: int,
) -> int
    decreases rows.len() - j,
{
    if j >= rows.len() || j < 0 {
        0
    } else if rows[j].0 == line && rows[j].1.start_char == g.start_char && rows[j].1.end_char
        == g.end_char {
        j
    } else {
        first_row(rows, line, g, j + 1)
    }
}

/// The visual row of cursor position `c` at width `w`.
pub open spec fn cursor_row(s: Seq<char>, c: int, w: nat) -> int {
    first_row(visual_rows(s, w), line_of(s, c), cursor_segment(s, c, w), 0)
}

/// The first row shown after scrolling as little as possible from `v` so
/// that row `r` is among the `h` rows shown.
pub open spec fn scroll_to(v: int, r: int, h: nat) -> int {
    if r < v {
        r
    } else if r >= v + h {
        r + 1 - h
    } else {
        v
    }
}

/// Where moving up (`up`) or down from cursor position `c` aims, at width
/// `w`: a line, a segment of it and the column within the segment; `None`
/// at the top or bottom of the text.  The column is the preferred one, or
/// else the cursor's column within its segment.
pub open spec fn vertical_target(s: Seq<char>, c: int, pref: Option<usize>, up: bool, w: nat) -> Option<
    (int, int, int),
> {
    let line = line_of(s, c);
    let segs = wrap_spec(cursor_line_text(s, c), w);
    let idx = segment_index(segs, cursor_column(s, c));
    let local = sat_sub(cursor_column(s, c), segs[idx].start_col as int);
    let desired = match pref {
        Some(p) => p as int,
        None => local,
    };
    if up {
        if idx > 0 {
            Some((line, idx - 1, desired))
        } else if line > 0 {
            Some((line - 1, sat_sub(wrap_spec(line_content(s, line - 1), w).len() as int, 1), desired))
        } else {
            None
        }
    } else if idx + 1 < segs.len() {
        Some((line, idx + 1, desired))
    } else if line + 1 < line_total(s) {
        Some((line + 1, 0, desired))
    } else {
        None
    }
}

/// The last column offset a cursor can take within segment `j` of a wrapped
/// line: up to the line's end in the last segment, and before the wrap point
/// in the others.
pub open spec fn segment_span(segs: Seq<WrapSegment>, j: int) -> int {
    if j + 1 < segs.len() {
        sat_sub(segs[j].end_col as int, segs[j].start_col + 1)
    } else {
        sat_sub(segs[j].end_col as int, segs[j].start_col as int)
    }
}

/// The cursor position that target `t` of a vertical move gives: the column
/// within the target segment, kept inside it, mapped back to a character of
/// the line and kept before the line's end.
pub open spec fn vertical_cursor(s: Seq<char>, t: (int, int, int), w: nat) -> int {
    let text = line_content(s, t.0);
    let segs = wrap_spec(text, w);
    let col = segs[t.1].start_col + min(t.2, segment_span(segs, t.1));
    min(line_first(s, t.0) + offset_of_column(text, col), line_last(s, t.0))
}

/// The editor.
#[derive(Debug)]
pub struct Editor {
    path: String,
    buffer: TextBuffer,
    cursor: usize,
    preferred_visual_col: Option<usize>,
    viewport_row: usize,
    status_message: String,
    pending_close: bool,
    should_quit: bool,
}

/// Editor `f` is editor `o` with its text, modified flag and cursor set, the
/// prompt dropped, and the preferred column, status and quit flag kept.
pub open spec fn edit_to(o: Editor, f: Editor, text: Seq<char>, modified: bool, cursor: int) -> bool {
    &&& f.text() == text
    &&& f.modified() == modified
    &&& f.cursor_pos() == cursor
    &&& f.preferred() == o.preferred()
    &&& !f.closing()
    &&& f.status() == o.status()
    &&& f.quitting() == o.quitting()
}

/// Editor `f` is editor `o` with `t` inserted at the cursor, the cursor
/// after it, the prompt dropped and the status cleared.
pub open spec fn insert_to(o: Editor, f: Editor, t: Seq<char>) -> bool {
    let s = o.text();
    let c = o.cursor_pos();
    &&& f.text() == s.take(c) + t + s.skip(c)
    &&& f.modified()
    &&& f.cursor_pos() == c + t.len()
    &&& f.preferred() == o.preferred()
    &&& !f.closing()
    &&& f.status() == Seq::<char>::empty()
    &&& f.quitting() == o.quitting()
}

/// Editor `f` is editor `o` with the cursor moved to `cursor`, the preferred
/// column set to `pref` and the prompt dropped.
pub open spec fn move_to(o: Editor, f: Editor, cursor: int, pref: Option<usize>) -> bool {
    &&& f.text() == o.text()
    &&& f.modified() == o.modified()
    &&& f.cursor_pos() == cursor
    &&& f.preferred() == pref
    &&& !f.closing()
    &&& f.status() == o.status()
    &&& f.quitting() == o.quitting()
}

/// Editor `f` is editor `o` with the prompt flag, quit flag and status set
/// as given.
pub open spec fn prompt_to(o: Editor, f: Editor, closing: bool, quitting: bool, status: Seq<char>) -> bool {
    &&& f.text() == o.text()
    &&& f.modified() == o.modified()
    &&& f.cursor_pos() == o.cursor_pos()
    &&& f.preferred() == o.preferred()
    &&& f.closing() == closing
    &&& f.quitting() == quitting
    &&& f.status() == status
}

/// The message asking to confirm closing a modified buffer.
pub open spec fn unsaved_message() -> Seq<char> {
    "Unsaved changes. Press Ctrl-W again or y to discard"@
}

/// The message telling that closing was cancelled.
pub open spec fn cancelled_message() -> Seq<char> {
    "Close cancelled"@
}

/// The message shown when a file is opened.
pub open spec fn welcome_message() -> Seq<char> {
    "Ctrl-S save  Ctrl-W close"@
}

/// Editor `f` is editor `o` after action `a` (other than saving) at width
/// `w`, the viewport aside.
pub open spec fn acted(o: Editor, a: Action, f: Editor, w: nat) -> bool {
    let s = o.text();
    let c = o.cursor_pos();
    match a {
        Action::Insert(t) => insert_to(o, f, t@),
        Action::Newline => insert_to(o, f, seq!['\n']),
        Action::Save => true,
        Action::RequestClose => if o.closing() {
            prompt_to(o, f, true, true, o.status())
        } else if o.modified() {
            prompt_to(o, f, true, o.quitting(), unsaved_message())
        } else {
            prompt_to(o, f, false, true, o.status())
        },
        Action::ConfirmClose => if o.closing() {
            prompt_to(o, f, true, true, o.status())
        } else {
            insert_to(o, f, seq!['y'])
        },
        Action::CancelPrompt => if o.closing() {
            prompt_to(o, f, false, o.quitting(), cancelled_message())
        } else {
            prompt_to(o, f, false, o.quitting(), o.status())
        },
        Action::MoveLeft => move_to(o, f, sat_sub(c, 1), None),
        Action::MoveRight => move_to(o, f, min(c + 1, s.len() as int), None),
        Action::MoveLineStart => move_to(o, f, line_first(s, line_of(s, c)), Some(0usize)),
        Action::MoveLineEnd => move_to(o, f, line_last(s, line_of(s, c)), None),
        Action::MoveFileStart => move_to(o, f, 0, Some(0usize)),
        Action::MoveFileEnd => move_to(o, f, s.len() as int, None),
        Action::MoveWordLeft => move_to(o, f, prev_boundary(s, c), None),
        Action::MoveWordRight => move_to(o, f, next_boundary(s, c), None),
        Action::Backspace => if c == 0 {
            edit_to(o, f, s, o.modified(), 0)
        } else {
            edit_to(o, f, s.take(c - 1) + s.skip(c), true, c - 1)
        },
        Action::Delete => if c < s.len() {
            edit_to(o, f, s.take(c) + s.skip(c + 1), true, c)
        } else {
            edit_to(o, f, s, o.modified(), c)
        },
        Action::DeleteWordLeft => edit_to(
            o,
            f,
            s.take(prev_boundary(s, c)) + s.skip(c),
            o.modified() || prev_boundary(s, c) < c,
            prev_boundary(s, c),
        ),
        Action::DeleteLine => {
            let k = line_of(s, c);
            let a = line_start(s, k);
            let b = if k + 1 < line_total(s) {
                line_start(s, k + 1)
            } else {
                line_last(s, k)
            };
            if s.len() == 0 {
                edit_to(o, f, s, o.modified(), 0)
            } else {
                edit_to(o, f, s.take(a) + s.skip(b), o.modified() || a < b, min(a, s.len() - (b - a)))
            }
        },
        Action::MoveUp => match vertical_target(s, c, o.preferred(), true, w) {
            Some(t) => move_to(o, f, vertical_cursor(s, t, w), Some(t.2 as usize)),
            None => move_to(o, f, c, o.preferred()),
        },
        Action::MoveDown => match vertical_target(s, c, o.preferred(), false, w) {
            Some(t) => move_to(o, f, vertical_cursor(s, t, w), Some(t.2 as usize)),
            None => move_to(o, f, c, o.preferred()),
        },
    }
}

impl Editor {
    /// The text of the buffer.
    pub closed spec fn text(&self) -> Seq<char> {
        self.buffer.text()
    }

    /// The buffer changed since it was loaded or saved.
    pub closed spec fn modified(&self) -> bool {
        self.buffer.is_modified()
    }

    /// The line ending the buffer is saved with.
    pub closed spec fn ending(&self) -> crate::buffer::LineEnding {
        self.buffer.ending()
    }

    /// The cursor, as a character position.
    pub closed spec fn cursor_pos(&self) -> int {
        self.cursor as int
    }

    /// The display column vertical moves aim for, if one is kept.
    pub closed spec fn preferred(&self) -> Option<usize> {
        self.preferred_visual_col
    }

    /// The first visual row on screen.
    pub closed spec fn viewport(&self) -> int {
        self.viewport_row as int
    }

    /// The status message.
    pub closed spec fn status(&self) -> Seq<char> {
        self.status_message@
    }

    /// The close prompt is showing.
    pub closed spec fn closing(&self) -> bool {
        self.pending_close
    }

    /// The editor is done.
    pub closed spec fn quitting(&self) -> bool {
        self.should_quit
    }

    /// The path of the file, as shown.
    pub closed spec fn path_text(&self) -> Seq<char> {
        self.path@
    }

    /// The cursor lies within the text, and the text's display columns fit
    /// in a `usize`.
    pub open spec fn wf(&self) -> bool {
        &&& 0 <= self.cursor_pos() <= self.text().len()
        &&& columns(self.text()) <= usize::MAX
    }

    /// An editor on `buffer` for the file at `path`: cursor and viewport at
    /// the top, no prompt, and the welcome message.
    pub fn open(path: &str, buffer: TextBuffer) -> (e: Editor)
        requires
            columns(buffer.text()) <= usize::MAX,
        ensures
            e.wf(),
            e.text() == buffer.text(),
            e.modified() == buffer.is_modified(),
            e.ending() == buffer.ending(),
            e.path_text() == path@,
            e.cursor_pos() == 0,
            e.preferred() is None,
            e.viewport() == 0,
            e.status() == welcome_message(),
            !e.closing(),
            !e.quitting(),
    {
        Editor {
            path: path.to_string(),
            buffer,
            cursor: 0,
            preferred_visual_col: None,
            viewport_row: 0,
            status_message: String::from_str("Ctrl-S save  Ctrl-W close"),
            pending_close: false,
            should_quit: false,
        }
    }

    /// The path of the file, as shown.
    pub fn path(&self) -> (p: &str)
        ensures
            p@ == self.path_text(),
    {
        self.path.as_str()
    }

    /// The buffer.
    pub fn buffer(&self) -> (b: &TextBuffer)
        ensures
            b.text() == self.text(),
            b.is_modified() == self.modified(),
            b.ending() == self.ending(),
    {
        &self.buffer
    }

    /// The cursor, as a character position.
    pub fn cursor(&self) -> (c: usize)
        ensures
            c == self.cursor_pos(),
    {
        self.cursor
    }

    /// The first visual row on screen.
    pub fn viewport_row(&self) -> (v: usize)
        ensures
            v == self.viewport(),
    {
        self.viewport_row
    }

    /// The status message.
    pub fn status_message(&self) -> (m: &str)
        ensures
            m@ == self.status(),
    {
        self.status_message.as_str()
    }

    /// Whether the close prompt is showing.
    pub fn pending_close(&self) -> (b: bool)
        ensures
            b == self.closing(),
    {
        self.pending_close
    }

    /// Whether the editor is done.
    pub fn should_quit(&self) -> (b: bool)
        ensures
            b == self.quitting(),
    {
        self.should_quit
    }

    /// Whether `action` keeps the text's display columns within a `usize`,
    /// which `apply` requires.
    pub fn can_apply(&self, action: &Action) -> (ok: bool)
        requires
            self.wf(),
        ensures
            ok == match action {
                Action::Insert(t) => columns(self.text()) + columns(t@) <= usize::MAX,
                Action::Newline => columns(self.text()) + columns(seq!['\n']) <= usize::MAX,
                Action::ConfirmClose => self.closing() || columns(self.text()) + columns(seq!['y'])
                    <= usize::MAX,
                _ => true,
            },
    {
        match action {
            Action::Insert(t) => {
                let total = buffer_columns(&self.buffer);
                let ts = t.as_str();
                assert(ts@ == t@);
                fits_with(total, ts)
            },
            Action::Newline => {
                let total = buffer_columns(&self.buffer);
                let nl = "\n";
                proof {
                    reveal_strlit("\n");
                }
                assert(nl@ == seq!['\n']);
                fits_with(total, nl)
            },
            Action::ConfirmClose => {
                if self.pending_close {
                    true
                } else {
                    let total = buffer_columns(&self.buffer);
                    let y = "y";
                    proof {
                        reveal_strlit("y");
                    }
                    assert(y@ == seq!['y']);
                    fits_with(total, y)
                }
            },
            _ => true,
        }
    }

    /// Applies `action` on a screen of `width` columns and `height` rows
    /// (the last row is the status bar).  Saving only answers `Step::Save`.
    /// The `y` key (`ConfirmClose`) closes while the close prompt shows and
    /// is typed as a `y` otherwise.
    /// Any other action changes the editor as `acted` says, then scrolls as
    /// little as possible to keep the cursor's row on screen.
    #[verifier::rlimit(80)]
    pub fn apply(&mut self, action: Action, width: usize, height: usize) -> (step: Step)
        requires
            old(self).wf(),
            action matches Action::Insert(t) ==> columns(old(self).text()) + columns(t@) <= usize::MAX,
            action is Newline ==> columns(old(self).text()) + columns(seq!['\n']) <= usize::MAX,
            action is ConfirmClose && !old(self).closing() ==> columns(old(self).text()) + columns(
                seq!['y'],
            ) <= usize::MAX,
        ensures
            final(self).wf(),
            final(self).path_text() == old(self).path_text(),
            final(self).ending() == old(self).ending(),
            action is Save ==> step == Step::Save && *final(self) == *old(self),
            !(action is Save) ==> {
                &&& step == Step::Done
                &&& acted(*old(self), action, *final(self), at_least_one(width as int))
                &&& final(self).viewport() == scroll_to(
                    old(self).viewport(),
                    cursor_row(final(self).text(), final(self).cursor_pos(), at_least_one(width as int)),
                    at_least_one(height - 1),
                )
            },
    {
        let w = if width < 1 {
            1
        } else {
            width
        };
        let ghost s = self.text();
        let ghost c = self.cursor as int;
        match action {
            Action::Save => {
                return Step::Save;
            },
            Action::Insert(text) => {
                if self.pending_close {
                    self.pending_close = false;
                }
                proof {
                    lemma_columns_concat(s.take(c), text@);
                    lemma_columns_concat(s.take(c) + text@, s.skip(c));
                    lemma_columns_concat(s.take(c), s.skip(c));
                    assert(s == s.take(c) + s.skip(c));
                    crate::render::lemma_columns_at_least_len(s);
                    crate::render::lemma_columns_at_least_len(text@);
                }
                self.buffer.insert(self.cursor, text.as_str());
                self.cursor = self.cursor + text.as_str().unicode_len();
                self.status_message = String::new();
            },
            Action::Newline => {
                if self.pending_close {
                    self.pending_close = false;
                }
                let nl = "\n";
                proof {
                    reveal_strlit("\n");
                    lemma_columns_concat(s.take(c), nl@);
                    lemma_columns_concat(s.take(c) + nl@, s.skip(c));
                    lemma_columns_concat(s.take(c), s.skip(c));
                    assert(s == s.take(c) + s.skip(c));
                    crate::render::lemma_columns_at_least_len(s);
                    assert(nl@ == seq!['\n']);
                }
                self.buffer.insert(self.cursor, nl);
                self.cursor = self.cursor + 1;
                self.status_message = String::new();
            },
            Action::RequestClose => {
                if self.pending_close {
                    self.should_quit = true;
                } else if self.buffer.is_dirty() {
                    self.pending_close = true;
                    self.status_message = String::from_str(
                        "Unsaved changes. Press Ctrl-W again or y to discard",
                    );
                } else {
                    self.should_quit = true;
                }
            },
            Action::ConfirmClose => {
                if self.pending_close {
                    self.should_quit = true;
                } else {
                    let y = "y";
                    proof {
                        reveal_strlit("y");
                        lemma_columns_concat(s.take(c), y@);
                        lemma_columns_concat(s.take(c) + y@, s.skip(c));
                        lemma_columns_concat(s.take(c), s.skip(c));
                        assert(s == s.take(c) + s.skip(c));
                        crate::render::lemma_columns_at_least_len(s);
                        assert(y@ == seq!['y']);
                    }
                    self.buffer.insert(self.cursor, y);
                    self.cursor = self.cursor + 1;
                    self.status_message = String::new();
                }
            },
            Action::CancelPrompt => {
                if self.pending_close {
                    self.pending_close = false;
                    self.status_message = String::from_str("Close cancelled");
                }
            },
            Action::MoveLeft => {
                self.pending_close = false;
                self.cursor = if self.cursor > 0 {
                    self.cursor - 1
                } else {
                    0
                };
                self.preferred_visual_col = None;
            },
            Action::MoveRight => {
                self.pending_close = false;
                let n = self.buffer.len_chars();
                self.cursor = if self.cursor < n {
                    self.cursor + 1
                } else {
                    n
                };
                self.preferred_visual_col = None;
            },
            Action::MoveLineStart => {
                self.pending_close = false;
                let line = self.buffer.line_index_of_char(self.cursor);
                self.cursor = self.buffer.line_start_char(line);
                self.preferred_visual_col = Some(0);
            },
            Action::MoveLineEnd => {
                self.pending_close = false;
                let line = self.buffer.line_index_of_char(self.cursor);
                self.cursor = self.buffer.line_end_char(line);
                self.preferred_visual_col = None;
            },
            Action::MoveFileStart => {
                self.pending_close = false;
                self.cursor = 0;
                self.preferred_visual_col = Some(0);
            },
            Action::MoveFileEnd => {
                self.pending_close = false;
                self.cursor = self.buffer.len_chars();
                self.preferred_visual_col = None;
            },
            Action::MoveWordLeft => {
                self.pending_close = false;
                self.cursor = self.buffer.prev_word_boundary(self.cursor);
                self.preferred_visual_col = None;
            },
            Action::MoveWordRight => {
                self.pending_close = false;
                self.cursor = self.buffer.next_word_boundary(self.cursor);
                self.preferred_visual_col = None;
            },
            Action::Backspace => {
                self.pending_close = false;
                proof {
                    if c > 0 {
                        lemma_columns_shrink(s, c - 1, c);
                    }
                }
                self.cursor = self.buffer.delete_char_before(self.cursor);
            },
            Action::Delete => {
                self.pending_close = false;
                proof {
                    if c < s.len() {
                        lemma_columns_shrink(s, c, c + 1);
                    }
                }
                self.cursor = self.buffer.delete_char_after(self.cursor);
            },
            Action::DeleteWordLeft => {
                self.pending_close = false;
                let ghost b = prev_boundary(s, c);
                proof {
                    crate::buffer::lemma_prev_boundary_bounds(s, c);
                    lemma_columns_shrink(s, b, c);
                }
                self.cursor = self.buffer.delete_prev_word(self.cursor);
            },
            Action::DeleteLine => {
                self.pending_close = false;
                proof {
                    if s.len() > 0 {
                        let k = line_of(s, c);
                        lemma_position_in_line(s, c);
                        lemma_line_order(s, k);
                        crate::buffer::lemma_line_last_bounds(s, k);
                        let a = line_start(s, k);
                        let b = if k + 1 < line_total(s) {
                            line_start(s, k + 1)
                        } else {
                            line_last(s, k)
                        };
                        lemma_columns_shrink(s, a, b);
                    }
                }
                self.cursor = self.buffer.delete_current_line(self.cursor);
            },
            Action::MoveUp => {
                self.pending_close = false;
                self.move_vertical(-1, w);
            },
            Action::MoveDown => {
                self.pending_close = false;
                self.move_vertical(1, w);
            },
        }
        let h = if height < 2 {
            1
        } else {
            height - 1
        };
        self.ensure_visible(w, h);
        Step::Done
    }

    /// Records a save that succeeded: the buffer is clean, the prompt gone
    /// and the status tells the path saved; the viewport follows the cursor
    /// as after any action.
    pub fn finish_save(&mut self, width: usize, height: usize)
        requires
            old(self).wf(),
        ensures
            final(self).wf(),
            final(self).text() == old(self).text(),
            final(self).ending() == old(self).ending(),
            !final(self).modified(),
            final(self).cursor_pos() == old(self).cursor_pos(),
            final(self).preferred() == old(self).preferred(),
            !final(self).closing(),
            final(self).quitting() == old(self).quitting(),
            final(self).status() == "Saved "@ + old(self).path_text(),
            final(self).path_text() == old(self).path_text(),
            final(self).viewport() == scroll_to(
                old(self).viewport(),
                cursor_row(old(self).text(), old(self).cursor_pos(), at_least_one(width as int)),
                at_least_one(height - 1),
            ),
    {
        self.buffer.mark_clean();
        self.pending_close = false;
        let mut message = String::from_str("Saved ");
        message.append(self.path.as_str());
        self.status_message = message;
        let w = if width < 1 {
            1
        } else {
            width
        };
        let h = if height < 2 {
            1
        } else {
            height - 1
        };
        self.ensure_visible(w, h);
    }

    /// Where the cursor shows on screen at `width` columns: its row counted
    /// from the viewport, and its column within its row's segment.
    pub fn cursor_screen_position(&self, width: usize) -> (pos: (usize, usize))
        requires
            self.wf(),
        ensures
            ({
                let w = at_least_one(width as int);
                let s = self.text();
                let c = self.cursor_pos();
                &&& pos.0 == sat_sub(cursor_row(s, c, w), self.viewport())
                &&& pos.1 == sat_sub(cursor_column(s, c), cursor_segment(s, c, w).start_col as int)
            }),
    {
        let width = if width < 1 {
            1
        } else {
            width
        };
        let rows = collect_visual_rows(&self.buffer, width);
        let current_row = self.cursor_visual_row(width, rows.as_slice());
        let (line, line_text, line_start, display_col, segments) = self.cursor_location(width);
        let idx = segment_index_for_display_col(segments.as_slice(), display_col);
        proof {
            lemma_segment_index_bounds(segments@, display_col as int);
        }
        let segment = segments[idx];
        let row = if current_row >= self.viewport_row {
            current_row - self.viewport_row
        } else {
            0
        };
        let col = if display_col >= segment.start_col {
            display_col - segment.start_col
        } else {
            0
        };
        (row, col)
    }

    /// The cursor's line, its text, where it starts, the cursor's display
    /// column in it, and its segments at `width` columns.
    fn cursor_location(&self, width: usize) -> (loc: (usize, String, usize, usize, Vec<WrapSegment>))
        requires
            self.wf(),
            width >= 1,
        ensures
            ({
                let s = self.text();
                let c = self.cursor_pos();
                &&& loc.0 == line_of(s, c)
                &&& loc.0 < line_total(s)
                &&& loc.1@ == cursor_line_text(s, c)
                &&& loc.2 == line_first(s, line_of(s, c))
                &&& loc.2 <= c
                &&& loc.3 == cursor_column(s, c)
                &&& loc.4@ == wrap_spec(cursor_line_text(s, c), width as nat)
                &&& loc.4@.len() >= 1
            }),
    {
        let ghost s = self.text();
        let line = self.buffer.line_index_of_char(self.cursor);
        let line_text = self.buffer.line_text(line);
        let line_start = self.buffer.line_start_char(line);
        proof {
            lemma_position_in_line(s, self.cursor as int);
            lemma_line_content_columns(s, line as int);
        }
        let line_offset = self.cursor - line_start;
        proof {
            let t = line_text@;
            let k = if line_offset <= t.len() {
                line_offset as int
            } else {
                t.len() as int
            };
            lemma_columns_subrange(t, 0, k);
        }
        let display_col = line_display_column(line_text.as_str(), line_offset);
        let segments = wrap_segments(line_text.as_str(), width);
        (line, line_text, line_start, display_col, segments)
    }

    fn move_vertical(&mut self, delta: isize, width: usize)
        requires
            old(self).wf(),
            !old(self).closing(),
            width >= 1,
        ensures
            final(self).wf(),
            ({
                let o = *old(self);
                let f = *final(self);
                let s = o.text();
                let c = o.cursor_pos();
                match vertical_target(s, c, o.preferred(), delta < 0, width as nat) {
                    Some(t) => move_to(o, f, vertical_cursor(s, t, width as nat), Some(t.2 as usize)),
                    None => move_to(o, f, c, o.preferred()),
                }
            }),
            final(self).viewport() == old(self).viewport(),
            final(self).path_text() == old(self).path_text(),
            final(self).ending() == old(self).ending(),
            final(self).closing() == old(self).closing(),
    {
        let ghost s = self.text();
        let target = self.vertical_move_target(delta < 0, width);
        match target {
            Some((target_line, target_segment_idx, desired_col)) => {
                let target_text = self.buffer.line_text(target_line);
                proof {
                    lemma_line_content_columns(s, target_line as int);
                }
                let target_segments = wrap_segments(target_text.as_str(), width);
                let ts = target_segments[target_segment_idx];
                let span = if ts.end_col <= ts.start_col {
                    0
                } else if target_segment_idx + 1 < target_segments.len() {
                    ts.end_col - ts.start_col - 1
                } else {
                    ts.end_col - ts.start_col
                };
                let target_display_col = ts.start_col + if desired_col < span {
                    desired_col
                } else {
                    span
                };
                let target_offset = char_offset_for_display_column(
                    target_text.as_str(),
                    target_display_col,
                );
                let target_line_start = self.buffer.line_start_char(target_line);
                let line_end = self.buffer.line_end_char(target_line);
                let pos = target_line_start + target_offset;
                self.cursor = if pos < line_end {
                    pos
                } else {
                    line_end
                };
                self.preferred_visual_col = Some(desired_col);
            },
            None => {},
        }
    }

    /// Where a vertical move aims: a line, a segment of it and a column.
    fn vertical_move_target(&self, up: bool, width: usize) -> (target: Option<(usize, usize, usize)>)
        requires
            self.wf(),
            width >= 1,
        ensures
            ({
                let s = self.text();
                let spec_target = vertical_target(s, self.cursor_pos(), self.preferred(), up, width as nat);
                &&& target is Some == spec_target is Some
                &&& target matches Some(x) ==> {
                    &&& spec_target == Some((x.0 as int, x.1 as int, x.2 as int))
                    &&& x.0 < line_total(s)
                    &&& x.1 < wrap_spec(line_content(s, x.0 as int), width as nat).len()
                }
            }),
    {
        let ghost s = self.text();
        let ghost c = self.cursor as int;
        let (line, line_text, line_start, display_col, segments) = self.cursor_location(width);
        let current_segment_idx = segment_index_for_display_col(segments.as_slice(), display_col);
        proof {
            lemma_segment_index_bounds(segments@, display_col as int);
        }
        let nsegs = segments.len();
        assert(current_segment_idx < nsegs);
        let seg_start = segments[current_segment_idx].start_col;
        let local_col = if display_col >= seg_start {
            display_col - seg_start
        } else {
            0
        };
        let desired = match self.preferred_visual_col {
            Some(p) => p,
            None => local_col,
        };
        let total = self.buffer.line_count();
        let target: Option<(usize, usize, usize)> = if up {
            if current_segment_idx > 0 {
                Some((line, current_segment_idx - 1, desired))
            } else if line > 0 {
                let previous_text = self.buffer.line_text(line - 1);
                proof {
                    lemma_line_content_columns(s, line - 1);
                }
                let previous_segments = wrap_segments(previous_text.as_str(), width);
                Some((line - 1, previous_segments.len() - 1, desired))
            } else {
                None
            }
        } else if current_segment_idx + 1 < nsegs {
            Some((line, current_segment_idx + 1, desired))
        } else if line + 1 < total {
            proof {
                crate::render::lemma_wrap_spec_nonempty(line_content(s, line + 1), width as nat);
            }
            Some((line + 1, 0, desired))
        } else {
            None
        };
        proof {
            let segs = wrap_spec(cursor_line_text(s, c), width as nat);
            assert(segments@ == segs);
        }
        target
    }

    fn ensure_visible(&mut self, width: usize, height: usize)
        requires
            old(self).wf(),
            width >= 1,
            height >= 1,
        ensures
            final(self).text() == old(self).text(),
            final(self).modified() == old(self).modified(),
            final(self).ending() == old(self).ending(),
            final(self).cursor_pos() == old(self).cursor_pos(),
            final(self).preferred() == old(self).preferred(),
            final(self).status() == old(self).status(),
            final(self).closing() == old(self).closing(),
            final(self).quitting() == old(self).quitting(),
            final(self).path_text() == old(self).path_text(),
            final(self).viewport() == scroll_to(
                old(self).viewport(),
                cursor_row(old(self).text(), old(self).cursor_pos(), width as nat),
                height as nat,
            ),
    {
        let rows = collect_visual_rows(&self.buffer, width);
        let cursor_row = self.cursor_visual_row(width, rows.as_slice());
        if cursor_row < self.viewport_row {
            self.viewport_row = cursor_row;
        } else if cursor_row - self.viewport_row >= height {
            self.viewport_row = cursor_row - height + 1;
        }
    }

    fn cursor_visual_row(&self, width: usize, rows: &[VisualRow]) -> (r: usize)
        requires
            self.wf(),
            width >= 1,
            rows@.map_values(|r: VisualRow| r@) == visual_rows(self.text(), width as nat),
        ensures
            r == cursor_row(self.text(), self.cursor_pos(), width as nat),
            r == 0 || r < rows@.len(),
    {
        let (line, line_text, line_start, display_col, segments) = self.cursor_location(width);
        let segment_idx = segment_index_for_display_col(segments.as_slice(), display_col);
        proof {
            lemma_segment_index_bounds(segments@, display_col as int);
        }
        assert(segment_idx < segments@.len());
        let g = segments[segment_idx];
        let ghost views = rows@.map_values(|r: VisualRow| r@);
        let mut idx: usize = 0;
        while idx < rows.len()
            invariant
                views == rows@.map_values(|r: VisualRow| r@),
                idx <= rows@.len(),
                first_row(views, line as int, g, idx as int) == first_row(views, line as int, g, 0),
                first_row(views, line as int, g, 0) == cursor_row(self.text(), self.cursor_pos(), width as nat),
            decreases rows.len() - idx,
        {
            let row = &rows[idx];
            assert(views[idx as int] == rows@[idx as int]@);
            if row.line_idx == line && row.segment.start_char == g.start_char
                && row.segment.end_char == g.end_char {
                return idx;
            }
            idx = idx + 1;
        }
        0
    }
}

/// The first segment that holds display column `display_col` (a column at
/// a wrap point belongs to the segment after it), or the last segment when
/// none does.
pub fn segment_index_for_display_col(segments: &[WrapSegment], display_col: usize) -> (idx: usize)
    ensures
        idx == segment_index(segments@, display_col as int),
{
    let mut idx: usize = 0;
    while idx < segments.len()
        invariant
            idx <= segments@.len(),
            first_holding(segments@, display_col as int, idx as int) == segment_index(
                segments@,
                display_col as int,
            ),
        decreases segments.len() - idx,
    {
        let g = segments[idx];
        if display_col >= g.start_col && (display_col < g.end_col || (idx + 1 == segments.len()
            && display_col == g.end_col)) {
            return idx;
        }
        idx = idx + 1;
    }
    if segments.len() > 0 {
        segments.len() - 1
    } else {
        0
    }
}

/// After scrolling to a row, that row is on screen: the cursor's screen
/// row, counted from the viewport, is one of the `h` body rows.
pub proof fn law_scroll_shows_row(v: int, r: int, h: nat)
    requires
        0 <= v,
        0 <= r,
        h >= 1,
    ensures
        0 <= scroll_to(v, r, h) <= r < scroll_to(v, r, h) + h,
        sat_sub(r, scroll_to(v, r, h)) < h,
{
}

/// Closing a modified buffer asks first: the first close request only
/// shows the prompt, and a second one (or `y`) closes.
pub proof fn law_close_needs_confirmation(o: Editor, f: Editor, g: Editor, a: Action, w: nat)
    requires
        o.modified(),
        !o.closing(),
        !o.quitting(),
        acted(o, Action::RequestClose, f, w),
        a is RequestClose || a is ConfirmClose,
        acted(f, a, g, w),
    ensures
        f.closing(),
        !f.quitting(),
        f.status() == unsaved_message(),
        g.quitting(),
{
}

/// While the close prompt shows, `y` closes, Esc cancels the prompt with a
/// message, neither touches the text or the cursor, and every other action
/// but a second close request (and saving, which goes through
/// `finish_save`) drops the prompt without closing.
pub proof fn law_prompt_answers(o: Editor, a: Action, f: Editor, w: nat)
    requires
        o.closing(),
        !o.quitting(),
        acted(o, a, f, w),
    ensures
        a is ConfirmClose ==> f.quitting() && f.text() == o.text() && f.cursor_pos()
            == o.cursor_pos(),
        a is CancelPrompt ==> !f.closing() && !f.quitting() && f.status() == cancelled_message()
            && f.text() == o.text() && f.cursor_pos() == o.cursor_pos(),
        !(a is RequestClose || a is ConfirmClose || a is Save) ==> !f.closing() && !f.quitting(),
{
}

/// Closing an unmodified buffer needs no confirmation.
pub proof fn law_clean_close_is_immediate(o: Editor, f: Editor, w: nat)
    requires
        !o.modified(),
        !o.closing(),
        acted(o, Action::RequestClose, f, w),
    ensures
        f.quitting(),
{
}

/// Moves and prompt answers leave the text and its modified flag alone
/// (`y` answers the prompt only while it shows; otherwise it is typed).
pub proof fn law_moves_keep_text(o: Editor, a: Action, f: Editor, w: nat)
    requires
        acted(o, a, f, w),
        !(a is Insert || a is Newline || a is Backspace || a is Delete || a is DeleteWordLeft
            || a is DeleteLine || a is Save),
        a is ConfirmClose ==> o.closing(),
    ensures
        f.text() == o.text(),
        f.modified() == o.modified(),
{
}

/// The index `segment_index` picks lies within non-empty segments.
pub proof fn lemma_segment_index_bounds(segs: Seq<WrapSegment>, dc: int)
    requires
        segs.len() >= 1,
    ensures
        0 <= segment_index(segs, dc) < segs.len(),
{
    lemma_first_holding_bounds(segs, dc, 0);
}

proof fn lemma_first_holding_bounds(segs: Seq<WrapSegment>, dc: int, j: int)
    requires
        segs.len() >= 1,
        0 <= j,
    ensures
        j <= first_holding(segs, dc, j) < segs.len() || first_holding(segs, dc, j) == segs.len() - 1,
        0 <= first_holding(segs, dc, j) < segs.len(),
    decreases segs.len() - j,
{
    if j < segs.len() && !seg_holds(segs, j, dc) {
        lemma_first_holding_bounds(segs, dc, j + 1);
    }
}

/// Removing characters `a..b` does not add display columns.
pub proof fn lemma_columns_shrink(s: Seq<char>, a: int, b: int)
    requires
        0 <= a <= b <= s.len(),
    ensures
        columns(s.take(a) + s.skip(b)) <= columns(s),
{
    lemma_columns_concat(s.take(a), s.skip(b));
    lemma_columns_subrange(s, 0, a);
    lemma_columns_subrange(s, b, s.len() as int);
    lemma_columns_subrange(s, a, b);
    assert(s.subrange(0, a) == s.take(a));
    assert(s.subrange(b, s.len() as int) == s.skip(b));
    assert(s.take(s.len() as int) == s);
}

/// Whether columns `total` plus those of `text` fit in a `usize`.
fn fits_with(total: Option<usize>, text: &str) -> (ok: bool)
    ensures
        ok == match total {
            Some(n) => n + columns(text@) <= usize::MAX,
            None => false,
        },
{
    let start = match total {
        Some(n) => n,
        None => {
            return false;
        },
    };
    let chars = str_chars(text);
    let mut acc: usize = start;
    let mut i: usize = 0;
    while i < chars.len()
        invariant
            total == Some(start),
            chars@ == text@,
            i <= chars@.len(),
            acc == start + column_of(chars@, i as int),
        decreases chars.len() - i,
    {
        let w = char_display_width(chars[i]);
        proof {
            lemma_column_step(chars@, i as int);
            lemma_columns_subrange(chars@, i as int + 1, chars@.len() as int);
            lemma_columns_subrange(chars@, 0, i as int + 1);
        }
        if acc > usize::MAX - w {
            assert(column_of(chars@, i as int + 1) <= columns(text@));
            assert(start + columns(text@) > usize::MAX);
            return false;
        }
        acc = acc + w;
        i = i + 1;
    }
    assert(chars@.take(chars@.len() as int) == chars@);
    true
}

/// One segment of a wrapped line: it lies within the text, carries the
/// display columns of its ends, is not empty unless the text is, and the
/// next segment starts where it ends (the last one ends with the text).
proof fn lemma_segment_at(t: Seq<char>, w: nat, j: int)
    requires
        columns(t) <= usize::MAX,
        0 <= j < wrap_spec(t, w).len(),
    ensures
        ({
            let g = wrap_spec(t, w);
            &&& g[j].start_char <= g[j].end_char <= t.len()
            &&& g[j].start_col == column_of(t, g[j].start_char as int)
            &&& g[j].end_col == column_of(t, g[j].end_char as int)
            &&& t.len() > 0 ==> g[j].start_char < g[j].end_char
            &&& j + 1 < g.len() ==> g[j].end_char == g[j + 1].start_char
            &&& j + 1 == g.len() ==> g[j].end_char == t.len()
            &&& j == 0 ==> g[j].start_char == 0
        }),
{
    let w1: nat = if w == 0 {
        1
    } else {
        w
    };
    let r = crate::render::wrap_ranges(t, w1);
    let g = wrap_spec(t, w);
    crate::render::law_wrap_partition(t, w1);
    crate::render::lemma_wrap_walk_bounds(t, w1, 0, 0);
    crate::render::lemma_columns_at_least_len(t);
    assert(0 <= r[j].0 <= r[j].1 <= t.len());
    crate::render::lemma_columns_subrange(t, 0, r[j].0);
    crate::render::lemma_columns_subrange(t, r[j].0, r[j].1);
    assert(g[j] == crate::render::segment_of(t, r[j]));
    if j + 1 < g.len() {
        assert(0 <= r[j + 1].0 <= r[j + 1].1 <= t.len());
        assert(g[j + 1] == crate::render::segment_of(t, r[j + 1]));
        assert(r[j].1 == r[j + 1].0);
    } else {
        assert(r.last() == r[j]);
    }
    if t.len() > 0 {
        assert(r[j].0 < r[j].1);
    }
}

/// Segments of a wrapped line come in order: an earlier one ends, in
/// characters and in columns, no later than a later one starts.
proof fn lemma_segments_ordered(t: Seq<char>, w: nat, i: int, j: int)
    requires
        columns(t) <= usize::MAX,
        0 <= i < j < wrap_spec(t, w).len(),
    ensures
        wrap_spec(t, w)[i].end_char <= wrap_spec(t, w)[j].start_char,
        wrap_spec(t, w)[i].end_col <= wrap_spec(t, w)[j].start_col,
    decreases j - i,
{
    let g = wrap_spec(t, w);
    lemma_segment_at(t, w, i);
    lemma_segment_at(t, w, i + 1);
    lemma_segment_at(t, w, j);
    if i + 1 < j {
        lemma_segments_ordered(t, w, i + 1, j);
    }
    crate::render::lemma_column_strictly_grows(t, g[i].end_char as int, g[j].start_char as int);
}

/// `first_holding` from `j` finds segment `k` when `k` holds the column and
/// none between `j` and `k` does.
proof fn lemma_first_holding_finds(segs: Seq<WrapSegment>, dc: int, j: int, k: int)
    requires
        0 <= j <= k < segs.len(),
        seg_holds(segs, k, dc),
        forall|i: int| j <= i < k ==> !seg_holds(segs, i, dc),
    ensures
        first_holding(segs, dc, j) == k,
    decreases k - j,
{
    if j < k {
        lemma_first_holding_finds(segs, dc, j + 1, k);
    }
}

/// The column `vertical_cursor` aims at, the character offset it gives in
/// the target line, and where that offset lies: within the target segment,
/// before its end unless it is the line's last segment.
proof fn lemma_target_offset(t: Seq<char>, w: nat, j: int, d: int)
    requires
        columns(t) <= usize::MAX,
        w >= 1,
        0 <= j < wrap_spec(t, w).len(),
        0 <= d,
    ensures
        ({
            let segs = wrap_spec(t, w);
            let col = segs[j].start_col + min(d, segment_span(segs, j));
            let k = offset_of_column(t, col);
            &&& segs[j].start_char <= k <= segs[j].end_char
            &&& k <= t.len()
            &&& segs[j].start_col <= column_of(t, k)
            &&& (column_of(t, k) < segs[j].end_col || (j == segs.len() - 1 && column_of(t, k)
                == segs[j].end_col))
        }),
{
    let segs = wrap_spec(t, w);
    lemma_segment_at(t, w, j);
    let g = segs[j];
    let col = g.start_col + min(d, segment_span(segs, j));
    let k = offset_of_column(t, col);
    crate::render::law_offset_of_column(t, col);
    if k < g.start_char {
        crate::render::lemma_column_strictly_grows(t, k + 1, g.start_char as int);
    }
    crate::render::lemma_column_strictly_grows(t, g.start_char as int, k);
    crate::render::lemma_column_strictly_grows(t, g.start_char as int, g.end_char as int);
    if j + 1 < segs.len() {
        assert(g.start_char < g.end_char) by {
            if t.len() == 0 {
                lemma_segment_at(t, w, j + 1);
                if j + 2 < segs.len() {
                    lemma_segments_ordered(t, w, j + 1, segs.len() - 1);
                }
                lemma_segment_at(t, w, segs.len() - 1);
            }
        }
        crate::render::lemma_column_strictly_grows(t, g.start_char as int, g.end_char as int);
        if k >= g.end_char {
            crate::render::lemma_column_strictly_grows(t, g.end_char as int, k);
        }
    }
}

/// A vertical move lands where it aims: in the target line and, within it,
/// in the target segment, that is on the target screen row.  The one
/// exception is a cursor that ends up at the very end of a line ended by a
/// line break other than LF: that position belongs to the next line.
pub proof fn law_vertical_move_lands_on_target(
    s: Seq<char>,
    c: int,
    pref: Option<usize>,
    up: bool,
    w: nat,
)
    requires
        0 <= c <= s.len(),
        w >= 1,
        columns(s) <= usize::MAX,
        vertical_target(s, c, pref, up, w) is Some,
    ensures
        ({
            let t = vertical_target(s, c, pref, up, w).unwrap();
            let c2 = vertical_cursor(s, t, w);
            &&& 0 <= t.0 < line_total(s)
            &&& 0 <= t.1 < wrap_spec(line_content(s, t.0), w).len()
            &&& line_first(s, t.0) <= c2 <= line_last(s, t.0)
            &&& (c2 < line_last(s, t.0) || line_of(s, line_last(s, t.0)) == t.0) ==> {
                &&& line_of(s, c2) == t.0
                &&& segment_index(wrap_spec(cursor_line_text(s, c2), w), cursor_column(s, c2))
                    == t.1
            }
        }),
{
    let t = vertical_target(s, c, pref, up, w).unwrap();
    let line = line_of(s, c);
    lemma_position_in_line(s, c);
    assert(line == breaks_upto(s, c));
    let segs0 = wrap_spec(cursor_line_text(s, c), w);
    crate::render::lemma_wrap_spec_nonempty(cursor_line_text(s, c), w);
    lemma_segment_index_bounds(segs0, cursor_column(s, c));
    if up && segment_index(segs0, cursor_column(s, c)) == 0 && line > 0 {
        crate::render::lemma_wrap_spec_nonempty(line_content(s, line - 1), w);
    }
    if !up && segment_index(segs0, cursor_column(s, c)) + 1 >= segs0.len() && line + 1
        < line_total(s) {
        crate::render::lemma_wrap_spec_nonempty(line_content(s, line + 1), w);
    }
    let l = t.0;
    let text = line_content(s, l);
    let segs = wrap_spec(text, w);
    crate::render::lemma_line_content_columns(s, l);
    lemma_target_offset(text, w, t.1, t.2);
    crate::buffer::lemma_line_last_bounds(s, l);
    lemma_line_order(s, l);
    let k = offset_of_column(text, segs[t.1].start_col + min(t.2, segment_span(segs, t.1)));
    let c2 = vertical_cursor(s, t, w);
    assert(c2 == line_first(s, l) + k);
    if c2 < line_last(s, l) || line_of(s, line_last(s, l)) == l {
        if c2 < line_last(s, l) {
            assert(line_last(s, l) <= crate::lines::line_stop(s, l)) by {
                let lc = crate::lines::line_chars(s, l);
                assert(lc.len() == crate::lines::line_stop(s, l) - line_start(s, l));
            }
            assert(breaks_upto(s, c2) == l);
        }
        assert(line_of(s, c2) == l);
        let dc = cursor_column(s, c2);
        assert(dc == column_of(text, k));
        assert forall|i: int| 0 <= i < t.1 implies !seg_holds(segs, i, dc) by {
            lemma_segments_ordered(text, w, i, t.1);
        }
        lemma_first_holding_finds(segs, dc, 0, t.1);
    }
}

/// A position has at most as many line breaks before it as characters.
proof fn lemma_breaks_at_most(s: Seq<char>, i: int)
    requires
        0 <= i,
    ensures
        breaks_upto(s, i) <= i,
    decreases i,
{
    if i > 0 {
        lemma_breaks_at_most(s, i - 1);
    }
}

/// The rows of fewer lines are a prefix of the rows of more lines.
proof fn lemma_rows_prefix(s: Seq<char>, w: nat, a: int, b: int)
    requires
        0 <= a <= b,
    ensures
        rows_upto(s, w, a).len() <= rows_upto(s, w, b).len(),
        forall|i: int|
            0 <= i < rows_upto(s, w, a).len() ==> #[trigger] rows_upto(s, w, b)[i] == rows_upto(
                s,
                w,
                a,
            )[i],
    decreases b - a,
{
    if a < b {
        lemma_rows_prefix(s, w, a, b - 1);
        assert(rows_upto(s, w, b) == rows_upto(s, w, b - 1) + line_rows(
            line_content(s, b - 1),
            b - 1,
            w,
        ));
    }
}

/// The rows of the first `count` lines all belong to lines before `count`.
proof fn lemma_rows_lines(s: Seq<char>, w: nat, count: int)
    requires
        0 <= count,
        count - 1 <= usize::MAX,
    ensures
        forall|i: int| 0 <= i < rows_upto(s, w, count).len() ==> (#[trigger] rows_upto(s, w, count)[i]).0 < count,
    decreases count,
{
    if count > 0 {
        lemma_rows_lines(s, w, count - 1);
        let prev = rows_upto(s, w, count - 1);
        let lr = line_rows(line_content(s, count - 1), count - 1, w);
        assert(rows_upto(s, w, count) == prev + lr);
        assert forall|i: int| 0 <= i < rows_upto(s, w, count).len() implies (#[trigger] rows_upto(
            s,
            w,
            count,
        )[i]).0 < count by {
            if i >= prev.len() {
                assert(rows_upto(s, w, count)[i] == lr[i - prev.len()]);
            }
        }
    }
}

/// `first_row` from `i` finds row `k` when `k` is the segment's row of the
/// line and no row between `i` and `k` is.
proof fn lemma_first_row_finds(
    rows: Seq<(usize, WrapSegment, Seq<char>)>,
    line: int,
    g: WrapSegment,
    i: int,
    k: int,
)
    requires
        0 <= i <= k < rows.len(),
        rows[k].0 == line && rows[k].1.start_char == g.start_char && rows[k].1.end_char
            == g.end_char,
        forall|m: int|
            i <= m < k ==> !(rows[m].0 == line && rows[m].1.start_char == g.start_char
                && #[trigger] rows[m].1.end_char == g.end_char),
    ensures
        first_row(rows, line, g, i) == k,
    decreases k - i,
{
    if i < k {
        lemma_first_row_finds(rows, line, g, i + 1, k);
    }
}

/// Segment `j` of line `l` shows on visual row `rows_upto(s, w, l).len() + j`:
/// the rows of the lines before it, then its own segments in order.
proof fn lemma_segment_row(s: Seq<char>, w: nat, l: int, j: int)
    requires
        columns(s) <= usize::MAX,
        0 <= l < line_total(s),
        0 <= j < wrap_spec(line_content(s, l), w).len(),
    ensures
        rows_upto(s, w, l).len() + j < visual_rows(s, w).len(),
        first_row(visual_rows(s, w), l, wrap_spec(line_content(s, l), w)[j], 0) == rows_upto(
            s,
            w,
            l,
        ).len() + j,
        visual_rows(s, w)[rows_upto(s, w, l).len() + j].0 == l,
        visual_rows(s, w)[rows_upto(s, w, l).len() + j].1 == wrap_spec(line_content(s, l), w)[j],
{
    let t = line_content(s, l);
    let segs = wrap_spec(t, w);
    let rows = visual_rows(s, w);
    let base = rows_upto(s, w, l).len() as int;
    let lr = line_rows(t, l, w);
    crate::render::lemma_columns_at_least_len(s);
    lemma_breaks_at_most(s, s.len() as int);
    crate::render::lemma_line_content_columns(s, l);
    assert(rows_upto(s, w, l + 1) == rows_upto(s, w, l) + lr);
    lemma_rows_prefix(s, w, l, l + 1);
    lemma_rows_prefix(s, w, l + 1, line_total(s) as int);
    lemma_rows_lines(s, w, l);
    assert(rows_upto(s, w, l + 1)[base + j] == lr[j]);
    assert(rows[base + j] == lr[j]);
    assert forall|m: int|
        0 <= m < base + j implies !(rows[m].0 == l && rows[m].1.start_char == segs[j].start_char
        && #[trigger] rows[m].1.end_char == segs[j].end_char) by {
        if m < base {
            assert(rows_upto(s, w, l + 1)[m] == rows_upto(s, w, l)[m]);
            assert(rows[m] == rows_upto(s, w, l)[m]);
        } else {
            assert(rows[m] == lr[m - base]);
            lemma_segment_at(t, w, m - base);
            lemma_segments_ordered(t, w, m - base, j);
            if t.len() == 0 {
                lemma_segment_at(t, w, j);
                if j + 1 < segs.len() {
                    lemma_segments_ordered(t, w, j, segs.len() - 1);
                }
                lemma_segment_at(t, w, segs.len() - 1);
            }
        }
    }
    lemma_first_row_finds(rows, l, segs[j], 0, base + j);
}

/// The visual row of a cursor is the rows of the lines before its line,
/// plus the index of its segment in that line.
proof fn lemma_cursor_row(s: Seq<char>, c: int, w: nat)
    requires
        columns(s) <= usize::MAX,
        0 <= c <= s.len(),
    ensures
        ({
            let segs = wrap_spec(cursor_line_text(s, c), w);
            let idx = segment_index(segs, cursor_column(s, c));
            &&& 0 <= line_of(s, c) < line_total(s)
            &&& 0 <= idx < segs.len()
            &&& cursor_row(s, c, w) == rows_upto(s, w, line_of(s, c)).len() + idx
        }),
{
    lemma_position_in_line(s, c);
    let segs = wrap_spec(cursor_line_text(s, c), w);
    crate::render::lemma_wrap_spec_nonempty(cursor_line_text(s, c), w);
    lemma_segment_index_bounds(segs, cursor_column(s, c));
    lemma_segment_row(s, w, line_of(s, c), segment_index(segs, cursor_column(s, c)));
}

/// Moving down goes to the next visual row and moving up to the one before,
/// each landing inside that row; at the last row (down) or the first (up)
/// the cursor stays.  The exception is that of
/// `law_vertical_move_lands_on_target`: a cursor that ends up at the very
/// end of a line ended by a line break other than LF.
pub proof fn law_vertical_move_changes_row_by_one(
    s: Seq<char>,
    c: int,
    pref: Option<usize>,
    up: bool,
    w: nat,
)
    requires
        0 <= c <= s.len(),
        w >= 1,
        columns(s) <= usize::MAX,
    ensures
        match vertical_target(s, c, pref, up, w) {
            Some(t) => {
                let c2 = vertical_cursor(s, t, w);
                (c2 < line_last(s, t.0) || line_of(s, line_last(s, t.0)) == t.0) ==> cursor_row(
                    s,
                    c2,
                    w,
                ) == cursor_row(s, c, w) + if up {
                    -1int
                } else {
                    1int
                }
            },
            None => if up {
                cursor_row(s, c, w) == 0
            } else {
                cursor_row(s, c, w) + 1 == visual_rows(s, w).len()
            },
        },
{
    lemma_cursor_row(s, c, w);
    let line = line_of(s, c);
    let segs = wrap_spec(cursor_line_text(s, c), w);
    let idx = segment_index(segs, cursor_column(s, c));
    assert(rows_upto(s, w, line + 1).len() == rows_upto(s, w, line).len() + segs.len());
    if line > 0 {
        assert(rows_upto(s, w, line).len() == rows_upto(s, w, line - 1).len() + wrap_spec(
            line_content(s, line - 1),
            w,
        ).len());
        crate::render::lemma_wrap_spec_nonempty(line_content(s, line - 1), w);
    }
    if line + 1 < line_total(s) {
        crate::render::lemma_wrap_spec_nonempty(line_content(s, line + 1), w);
    }
    match vertical_target(s, c, pref, up, w) {
        Some(t) => {
            let c2 = vertical_cursor(s, t, w);
            law_vertical_move_lands_on_target(s, c, pref, up, w);
            if c2 < line_last(s, t.0) || line_of(s, line_last(s, t.0)) == t.0 {
                crate::buffer::lemma_line_last_bounds(s, t.0);
                lemma_cursor_row(s, c2, w);
            }
        },
        None => {
            if !up {
                assert(line + 1 == line_total(s));
            }
        },
    }
}

/// Searching from a segment that starts at or before display column `dc`,
/// where `dc` is within the line, `first_holding` finds a segment that
/// holds it.
proof fn lemma_first_holding_holds(t: Seq<char>, w: nat, dc: int, j: int)
    requires
        columns(t) <= usize::MAX,
        0 <= j < wrap_spec(t, w).len(),
        wrap_spec(t, w)[j].start_col <= dc <= columns(t),
    ensures
        seg_holds(wrap_spec(t, w), first_holding(wrap_spec(t, w), dc, j), dc),
    decreases wrap_spec(t, w).len() - j,
{
    let segs = wrap_spec(t, w);
    lemma_segment_at(t, w, j);
    if !seg_holds(segs, j, dc) {
        if j + 1 < segs.len() {
            lemma_segment_at(t, w, j + 1);
            lemma_first_holding_holds(t, w, dc, j + 1);
        } else {
            assert(t.take(t.len() as int) == t);
        }
    }
}

/// The cursor shows on its own row: the visual row `cursor_row` names
/// belongs to the cursor's line, its segment is the one
/// `cursor_screen_position` measures the column from, and that segment
/// holds the cursor's display column (its end only at the end of the line).
pub proof fn law_cursor_on_its_row(s: Seq<char>, c: int, w: nat)
    requires
        0 <= c <= s.len(),
        columns(s) <= usize::MAX,
    ensures
        ({
            let rows = visual_rows(s, w);
            let r = cursor_row(s, c, w);
            let dc = cursor_column(s, c);
            let g = cursor_segment(s, c, w);
            &&& 0 <= r < rows.len()
            &&& rows[r].0 == line_of(s, c)
            &&& rows[r].1 == g
            &&& g.start_col <= dc
            &&& (dc < g.end_col || (dc == g.end_col && g.end_char == cursor_line_text(s, c).len()))
        }),
{
    lemma_cursor_row(s, c, w);
    let t = cursor_line_text(s, c);
    let segs = wrap_spec(t, w);
    let dc = cursor_column(s, c);
    let idx = segment_index(segs, dc);
    lemma_position_in_line(s, c);
    crate::render::lemma_line_content_columns(s, line_of(s, c));
    lemma_segment_row(s, w, line_of(s, c), idx);
    lemma_segment_at(t, w, 0);
    assert(t.take(0) == Seq::<char>::empty());
    let k = min(sat_sub(c, line_first(s, line_of(s, c))), t.len() as int);
    crate::render::lemma_columns_subrange(t, 0, k);
    assert(t.subrange(0, t.len() as int) == t);
    lemma_first_holding_holds(t, w, dc, 0);
    lemma_segment_at(t, w, idx);
}

/// The column vertical moves keep: a horizontal move other than going to a
/// line's or the text's start drops any kept column, so the next move up or
/// down aims at the cursor's own display column within its row; going to a
/// start keeps column 0; a vertical move keeps the column it aimed at.
pub proof fn law_preferred_column(o: Editor, a: Action, f: Editor, w: nat, up: bool)
    requires
        acted(o, a, f, w),
    ensures
        (a is MoveLeft || a is MoveRight || a is MoveLineEnd || a is MoveFileEnd || a is MoveWordLeft
            || a is MoveWordRight) ==> {
            &&& f.preferred() is None
            &&& vertical_target(f.text(), f.cursor_pos(), f.preferred(), up, w) matches Some(t)
                ==> t.2 == sat_sub(
                cursor_column(f.text(), f.cursor_pos()),
                cursor_segment(f.text(), f.cursor_pos(), w).start_col as int,
            )
        },
        (a is MoveLineStart || a is MoveFileStart) ==> f.preferred() == Some(0usize),
        a is MoveDown ==> match vertical_target(o.text(), o.cursor_pos(), o.preferred(), false, w) {
            Some(t) => f.preferred() == Some(t.2 as usize),
            None => f.preferred() == o.preferred(),
        },
        a is MoveUp ==> match vertical_target(o.text(), o.cursor_pos(), o.preferred(), true, w) {
            Some(t) => f.preferred() == Some(t.2 as usize),
            None => f.preferred() == o.preferred(),
        },
{
}

} // verus!
