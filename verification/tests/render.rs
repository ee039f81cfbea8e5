use ghostxt::buffer::TextBuffer;
use ghostxt::screen::{render, status_bar, status_chunk, ChunkStyle};
use ghostxt::{Action, Editor};
use ghostxt::render::{
    char_display_width, char_offset_for_display_column, collect_visual_rows,
    line_display_column, wrap_segments,
};

#[test]
fn wraps_long_lines() {
    let segments = wrap_segments("abcdef", 4);
    assert_eq!(segments.len(), 2);
    assert_eq!(segments[0].start_char, 0);
    assert_eq!(segments[0].end_char, 4);
    assert_eq!(segments[1].start_char, 4);
    assert_eq!(segments[1].end_char, 6);
}

#[test]
fn maps_display_columns() {
    assert_eq!(line_display_column("hello", 3), 3);
    assert_eq!(char_offset_for_display_column("hello", 4), 4);
}

#[test]
fn empty_text_is_one_empty_segment() {
    let segments = wrap_segments("", 10);
    assert_eq!(segments.len(), 1);
    assert_eq!(segments[0].start_char, 0);
    assert_eq!(segments[0].end_char, 0);
    assert_eq!(segments[0].start_col, 0);
    assert_eq!(segments[0].end_col, 0);
}

#[test]
fn wide_characters_wrap_by_columns() {
    let segments = wrap_segments("日本語", 3);
    assert_eq!(segments.len(), 3);
    assert_eq!(segments[1].start_char, 1);
    assert_eq!(segments[1].start_col, 2);
    assert_eq!(segments[2].end_col, 6);
    let single = wrap_segments("日x", 1);
    assert_eq!(single.len(), 2);
    assert_eq!(single[0].end_char, 1);
}

#[test]
fn zero_width_counts_as_one() {
    let segments = wrap_segments("abc", 0);
    assert_eq!(segments.len(), 3);
    let ones = wrap_segments("abc", 1);
    for (a, b) in segments.iter().zip(ones.iter()) {
        assert_eq!(a, b);
    }
    assert_eq!((segments[2].start_char, segments[2].end_char), (2, 3));
}

#[test]
fn greedy_rows_are_full() {
    let text = "ab日cd本ef";
    for width in 1..12 {
        let segments = wrap_segments(text, width);
        let chars: Vec<char> = text.chars().collect();
        for pair in segments.windows(2) {
            let next = char_display_width(chars[pair[0].end_char]);
            assert!(pair[0].end_col - pair[0].start_col + next > width);
        }
        for segment in &segments {
            assert!(segment.start_char < segment.end_char);
            assert_eq!(segment.start_col, line_display_column(text, segment.start_char));
            assert_eq!(segment.end_col, line_display_column(text, segment.end_char));
        }
    }
}

#[test]
fn row_texts_join_to_their_lines() {
    let buffer = TextBuffer::from_disk_text("abcdef\nxy\n\n日本語テキスト");
    for width in 0..9 {
        let rows = collect_visual_rows(&buffer, width);
        for line in 0..buffer.line_count() {
            let joined: String = rows
                .iter()
                .filter(|r| r.line_idx == line)
                .map(|r| r.text.as_str())
                .collect();
            assert_eq!(joined, buffer.line_text(line));
        }
    }
}

#[test]
fn wrap_rows_partition_the_line() {
    let text = "the quick brown fox";
    for width in 1..25 {
        let segments = wrap_segments(text, width);
        assert_eq!(segments[0].start_char, 0);
        assert_eq!(segments.last().unwrap().end_char, text.chars().count());
        for pair in segments.windows(2) {
            assert_eq!(pair[0].end_char, pair[1].start_char);
            assert_eq!(pair[0].end_col, pair[1].start_col);
        }
        for segment in &segments {
            assert!(segment.end_col - segment.start_col <= width);
        }
    }
}

#[test]
fn display_widths() {
    assert_eq!(char_display_width('a'), 1);
    assert_eq!(char_display_width('\n'), 1);
    assert_eq!(char_display_width('\u{200b}'), 1);
    assert_eq!(char_display_width('日'), 2);
    assert_eq!(line_display_column("a日b", 2), 3);
    assert_eq!(line_display_column("a日b", 99), 4);
}

#[test]
fn column_offset_round_trip() {
    let text = "a日b本c";
    for k in 0..=5 {
        let col = line_display_column(text, k);
        assert_eq!(char_offset_for_display_column(text, col), k);
    }
    assert_eq!(char_offset_for_display_column(text, 2), 1);
    assert_eq!(char_offset_for_display_column(text, 100), 5);
}

#[test]
fn visual_rows_of_a_buffer() {
    let buffer = TextBuffer::from_disk_text("abcdef\nxy\n");
    let rows = collect_visual_rows(&buffer, 4);
    assert_eq!(rows.len(), 4);
    assert_eq!(rows[0].text, "abcd");
    assert_eq!(rows[1].text, "ef");
    assert_eq!(rows[1].line_idx, 0);
    assert_eq!(rows[2].text, "xy");
    assert_eq!(rows[2].line_idx, 1);
    assert_eq!(rows[3].text, "");
    assert_eq!(rows[3].line_idx, 2);
}

#[test]
fn status_bar_layout() {
    assert_eq!(status_chunk(0, "abc"), None);
    assert_eq!(status_chunk(2, "abc"), Some("ab".to_string()));
    assert_eq!(status_chunk(9, "abc"), Some("abc".to_string()));

    let (chunks, padding) = status_bar("file.txt", true, "Saved", 30);
    assert_eq!(chunks.len(), 3);
    assert_eq!(chunks[0].text, "file.txt");
    assert_eq!(chunks[0].style, ChunkStyle::FileModified);
    assert_eq!(chunks[1].text, "  \u{b7}  ");
    assert_eq!(chunks[2].text, "Saved");
    assert_eq!(chunks[2].style, ChunkStyle::Dim);
    assert_eq!(padding, 30 - 8 - 5 - 5);

    let (chunks, padding) = status_bar("file.txt", false, "", 10);
    assert_eq!(chunks.len(), 1);
    assert_eq!(chunks[0].style, ChunkStyle::FileSaved);
    assert_eq!(padding, 2);

    let (chunks, padding) = status_bar("file.txt", false, "message", 10);
    assert_eq!(chunks.len(), 2);
    assert_eq!(chunks[1].text, "  ");
    assert_eq!(padding, 0);

    let (chunks, padding) = status_bar("file.txt", false, "message", 0);
    assert!(chunks.is_empty());
    assert_eq!(padding, 0);
}

#[test]
fn frame_of_an_editor() {
    let mut editor = Editor::open("/tmp/notes.txt", TextBuffer::from_disk_text("abcdef\nxy"));
    editor.apply(Action::MoveFileEnd, 4, 3);
    let frame = render(&editor, 4, 3);
    assert_eq!(frame.body.len(), 2);
    assert_eq!(frame.body[0].as_deref(), Some("ef"));
    assert_eq!(frame.body[1].as_deref(), Some("xy"));
    assert_eq!(frame.status[0].text, "note");
    assert_eq!(frame.cursor_row, 1);
    assert_eq!(frame.cursor_col, 2);
    let tall = render(&editor, 4, 8);
    assert_eq!(tall.body.len(), 7);
    assert_eq!(tall.body[2], None);
}
