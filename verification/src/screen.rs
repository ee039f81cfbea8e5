//! What one frame of the terminal shows: the visual rows in the viewport,
//! the status bar and where the cursor goes.  Drawing it happens around the
//! library.
use vstd::prelude::*;
use crate::buffer::min;
use crate::editor::{
    at_least_one, cursor_column, cursor_row, cursor_segment, sat_sub, Editor,
};
use crate::file_io::{display_name, last_segment, plain_path};
use crate::render::{collect_visual_rows, visual_rows, VisualRow};
use crate::text::{str_chars, string_from_chars};

verus! {

broadcast use vstd::string::group_string_axioms;

/// How a piece of the status bar is drawn.
#[derive(Debug, Clone, Copy, PartialEq, Eq, Structural)]
pub enum ChunkStyle {
    /// The file name of a modified buffer.
    FileModified,
    /// The file name of a buffer that matches the file.
    FileSaved,
    /// The separator and the status message.
    Dim,
}

/// A piece of the status bar.
#[derive(Debug, Clone)]
pub struct StatusChunk {
    pub text: String,
    pub style: ChunkStyle,
}

/// One frame: the text of each body row (`None` past the end of the
/// text), the status bar pieces, the blanks that fill the status bar, and
/// the cursor's row and column on screen.
#[derive(Debug)]
pub struct Frame {
    pub body: Vec<Option<String>>,
    pub status: Vec<StatusChunk>,
    pub padding: usize,
    pub cursor_row: usize,
    pub cursor_col: usize,
}

/// The separator between the file name and the status message.
pub open spec fn separator() -> Seq<char> {
    "  \u{b7}  "@
}

/// What a status bar piece of at most `max` columns shows of `t`: nothing
/// at all when there is no room.
pub open spec fn chunk_spec(max: int, t: Seq<char>) -> Option<Seq<char>> {
    if max <= 0 {
        None
    } else {
        Some(t.take(min(max, t.len() as int)))
    }
}

/// The width a piece takes.
pub open spec fn chunk_width(c: Option<Seq<char>>) -> int {
    match c {
        Some(t) => t.len() as int,
        None => 0,
    }
}

/// The status bar pieces, as text and style, for file name `name`, the
/// modified flag, status message `msg` and `width` columns; the second
/// component is the number of blanks after them.
pub open spec fn status_spec(name: Seq<char>, modified: bool, msg: Seq<char>, width: int) -> (
    Seq<(Seq<char>, ChunkStyle)>,
    int,
) {
    let file_style = if modified {
        ChunkStyle::FileModified
    } else {
        ChunkStyle::FileSaved
    };
    let c1 = chunk_spec(width, name);
    let first: Seq<(Seq<char>, ChunkStyle)> = match c1 {
        Some(t) => seq![(t, file_style)],
        None => seq![],
    };
    let used1 = chunk_width(c1);
    if msg.len() > 0 && used1 < width {
        let c2 = chunk_spec(width - used1, separator());
        let used2 = used1 + chunk_width(c2);
        let c3 = chunk_spec(width - used2, msg);
        let used3 = used2 + chunk_width(c3);
        let second: Seq<(Seq<char>, ChunkStyle)> = match c2 {
            Some(t) => seq![(t, ChunkStyle::Dim)],
            None => seq![],
        };
        let third: Seq<(Seq<char>, ChunkStyle)> = match c3 {
            Some(t) => seq![(t, ChunkStyle::Dim)],
            None => seq![],
        };
        (first + second + third, sat_sub(width, used3))
    } else {
        (first, sat_sub(width, used1))
    }
}

/// The status bar pieces as text and style.
pub open spec fn chunk_views(cs: Seq<StatusChunk>) -> Seq<(Seq<char>, ChunkStyle)> {
    cs.map_values(|c: StatusChunk| (c.text@, c.style))
}

/// At most `max_width` leading characters of `text`, for a status bar piece;
/// `None` when there is no room for one.
pub fn status_chunk(max_width: usize, text: &str) -> (chunk: Option<String>)
    ensures
        match chunk {
            Some(c) => chunk_spec(max_width as int, text@) == Some(c@),
            None => chunk_spec(max_width as int, text@) is None,
        },
{
    if max_width == 0 {
        return None;
    }
    let chars = str_chars(text);
    let take = if max_width < chars.len() {
        max_width
    } else {
        chars.len()
    };
    let mut piece: Vec<char> = Vec::new();
    let mut i: usize = 0;
    while i < take
        invariant
            chars@ == text@,
            take <= chars@.len(),
            i <= take,
            piece@ == chars@.take(i as int),
        decreases take - i,
    {
        piece.push(chars[i]);
        i = i + 1;
        assert(piece@ == chars@.take(i as int));
    }
    Some(string_from_chars(&piece))
}

/// The status bar for file name `name`, the modified flag and status message
/// `message` on `width` columns: the file name, then (when there is a
/// message and room) a separator and the message, each cut to the room
/// left; and the blanks that fill the rest.
pub fn status_bar(name: &str, modified: bool, message: &str, width: usize) -> (bar: (
    Vec<StatusChunk>,
    usize,
))
    ensures
        (chunk_views(bar.0@), bar.1 as int) == status_spec(name@, modified, message@, width as int),
{
    let style = if modified {
        ChunkStyle::FileModified
    } else {
        ChunkStyle::FileSaved
    };
    let mut chunks: Vec<StatusChunk> = Vec::new();
    let mut used: usize = 0;
    let ghost c1 = chunk_spec(width as int, name@);
    match status_chunk(width, name) {
        Some(text) => {
            used = text.as_str().unicode_len();
            chunks.push(StatusChunk { text, style });
        },
        None => {},
    }
    assert(chunk_views(chunks@) == match c1 {
        Some(t) => seq![(t, style)],
        None => Seq::<(Seq<char>, ChunkStyle)>::empty(),
    });
    if message.unicode_len() > 0 && used < width {
        let sep = "  \u{b7}  ";
        let ghost before = chunk_views(chunks@);
        match status_chunk(width - used, sep) {
            Some(text) => {
                used = used + text.as_str().unicode_len();
                chunks.push(StatusChunk { text, style: ChunkStyle::Dim });
            },
            None => {},
        }
        let ghost middle = chunk_views(chunks@);
        let rest = if width >= used {
            width - used
        } else {
            0
        };
        match status_chunk(rest, message) {
            Some(text) => {
                used = used + text.as_str().unicode_len();
                chunks.push(StatusChunk { text, style: ChunkStyle::Dim });
            },
            None => {},
        }
        proof {
            assert(chunk_views(chunks@) == status_spec(name@, modified, message@, width as int).0);
        }
    }
    let padding = if used < width {
        width - used
    } else {
        0
    };
    (chunks, padding)
}

/// The frame for `editor` on a terminal of `width` columns and `height`
/// rows: the body rows from the viewport on (the last terminal row is the
/// status bar), the status bar for the file's display name, and the cursor.
/// The display name of a plain path is its last segment; for other paths it
/// depends on the platform's path rules, so the contract states the status
/// bar for some name that is the path or not empty.
pub fn render(editor: &Editor, width: usize, height: usize) -> (frame: Frame)
    requires
        editor.wf(),
    ensures
        ({
            let w = at_least_one(width as int);
            let rows = visual_rows(editor.text(), w);
            let v = editor.viewport();
            &&& frame.body@.len() == sat_sub(height as int, 1)
            &&& forall|i: int|
                0 <= i < frame.body@.len() ==> match #[trigger] frame.body@[i] {
                    Some(t) => v + i < rows.len() && t@ == rows[v + i].2,
                    None => v + i >= rows.len(),
                }
            &&& exists|name: Seq<char>|
                (plain_path(editor.path_text()) ==> name == last_segment(editor.path_text())) && (
                name == editor.path_text() || name.len() > 0) && (chunk_views(frame.status@),
                frame.padding as int) == status_spec(
                    name,
                    editor.modified(),
                    editor.status(),
                    width as int,
                )
            &&& frame.cursor_row == sat_sub(cursor_row(editor.text(), editor.cursor_pos(), w), v)
            &&& frame.cursor_col == sat_sub(
                cursor_column(editor.text(), editor.cursor_pos()),
                cursor_segment(editor.text(), editor.cursor_pos(), w).start_col as int,
            )
        }),
{
    let body_height = if height >= 1 {
        height - 1
    } else {
        0
    };
    let w = if width < 1 {
        1
    } else {
        width
    };
    let rows = collect_visual_rows(editor.buffer(), w);
    let ghost views = rows@.map_values(|r: VisualRow| r@);
    let viewport = editor.viewport_row();
    let mut body: Vec<Option<String>> = Vec::new();
    let mut screen_row: usize = 0;
    while screen_row < body_height
        invariant
            views == rows@.map_values(|r: VisualRow| r@),
            views == visual_rows(editor.text(), w as nat),
            viewport == editor.viewport(),
            screen_row <= body_height,
            body@.len() == screen_row,
            forall|i: int|
                0 <= i < screen_row ==> match #[trigger] body@[i] {
                    Some(t) => viewport + i < views.len() && t@ == views[viewport + i].2,
                    None => viewport + i >= views.len(),
                },
        decreases body_height - screen_row,
    {
        if viewport < rows.len() && screen_row < rows.len() - viewport {
            let idx = viewport + screen_row;
            let text = rows[idx].text.clone();
            assert(views[idx as int] == rows@[idx as int]@);
            body.push(Some(text));
        } else {
            body.push(None);
        }
        screen_row = screen_row + 1;
    }
    let name = display_name(editor.path());
    let (status, padding) = status_bar(
        name.as_str(),
        editor.buffer().is_dirty(),
        editor.status_message(),
        width,
    );
    let (cursor_row, cursor_col) = editor.cursor_screen_position(w);
    Frame { body, status, padding, cursor_row, cursor_col }
}

} // verus!
