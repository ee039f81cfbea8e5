use ghostxt::buffer::{LineEnding, TextBuffer};
use ghostxt::file_io::load_buffer;

#[test]
fn preserves_crlf_style_for_save() {
    let buffer = TextBuffer::from_disk_text("a\r\nb\r\n");
    assert_eq!(buffer.serialized_text(), "a\r\nb\r\n");
}

#[test]
fn deletes_previous_word() {
    let mut buffer = TextBuffer::from_disk_text("hello there");
    let cursor = buffer.delete_prev_word(11);
    assert_eq!(cursor, 6);
    assert_eq!(buffer.serialized_text(), "hello ");
}

#[test]
fn deletes_current_line() {
    let mut buffer = TextBuffer::from_disk_text("a\nb\nc\n");
    let cursor = buffer.delete_current_line(2);
    assert_eq!(cursor, 2);
    assert_eq!(buffer.serialized_text(), "a\nc\n");
}

#[test]
fn round_trips_newline_style() {
    let mut buffer = load_buffer(Some("a\r\nb\r\n".as_bytes().to_vec())).unwrap();
    buffer.insert(buffer.len_chars(), "c");
    assert_eq!(buffer.serialized_text(), "a\r\nb\r\nc");
}

#[test]
fn disk_text_round_trips_with_one_line_ending() {
    for text in ["", "plain", "a\nb\n", "a\r\nb\r\n", "x\r\r\ny", "lone\rcr"] {
        assert_eq!(TextBuffer::from_disk_text(text).serialized_text(), text);
    }
}

#[test]
fn mixed_line_endings_are_normalised_to_crlf() {
    let buffer = TextBuffer::from_disk_text("a\r\nb\nc");
    assert_eq!(buffer.line_ending(), LineEnding::Crlf);
    assert_eq!(buffer.serialized_text(), "a\r\nb\r\nc");
}

#[test]
fn loaded_buffer_is_clean_and_collapses_crlf() {
    let mut buffer = TextBuffer::from_disk_text("one\r\ntwo");
    assert!(!buffer.is_dirty());
    assert_eq!(buffer.len_chars(), 7);
    assert_eq!(buffer.line_count(), 2);
    assert_eq!(buffer.line_text(0), "one");
    assert_eq!(buffer.line_text(1), "two");
    buffer.insert(0, "x");
    assert!(buffer.is_dirty());
    buffer.mark_clean();
    assert!(!buffer.is_dirty());
}

#[test]
fn new_buffer_is_empty() {
    let buffer = TextBuffer::new();
    assert!(buffer.is_empty());
    assert_eq!(buffer.line_count(), 1);
    assert_eq!(buffer.line_text(0), "");
    assert_eq!(buffer.line_ending(), LineEnding::Lf);
    let default = TextBuffer::default();
    assert!(default.is_empty());
}

#[test]
fn line_queries() {
    let buffer = TextBuffer::from_disk_text("ab\ncd\n");
    assert_eq!(buffer.line_count(), 3);
    assert_eq!(buffer.line_index_of_char(0), 0);
    assert_eq!(buffer.line_index_of_char(2), 0);
    assert_eq!(buffer.line_index_of_char(3), 1);
    assert_eq!(buffer.line_index_of_char(100), 2);
    assert_eq!(buffer.line_start_char(1), 3);
    assert_eq!(buffer.line_start_char(9), 6);
    assert_eq!(buffer.line_end_char(0), 2);
    assert_eq!(buffer.line_end_char(1), 5);
    assert_eq!(buffer.line_end_char(2), 6);
    assert_eq!(buffer.line_text(1), "cd");
    assert_eq!(buffer.line_text(2), "");
    assert_eq!(buffer.char_at(1), Some('b'));
    assert_eq!(buffer.char_at(6), None);
}

#[test]
fn carriage_returns_and_unicode_breaks_end_lines() {
    let buffer = TextBuffer::from_disk_text("a\rb\u{2028}c");
    assert_eq!(buffer.line_count(), 3);
    assert_eq!(buffer.line_start_char(1), 2);
    assert_eq!(buffer.line_start_char(2), 4);
    assert_eq!(buffer.line_text(0), "a\r");
    assert_eq!(buffer.line_end_char(0), 2);
}

#[test]
fn line_column_round_trip() {
    let buffer = TextBuffer::from_disk_text("hello\nworld\n\nend");
    for c in 0..=buffer.len_chars() + 2 {
        let (line, column) = buffer.line_column_for_char(c);
        assert_eq!(
            buffer.char_index_for_line_column(line, column),
            c.min(buffer.len_chars())
        );
    }
    assert_eq!(buffer.line_column_for_char(8), (1, 2));
    assert_eq!(buffer.char_index_for_line_column(0, 99), 5);
}

#[test]
fn backspace_undoes_insert() {
    let mut buffer = TextBuffer::from_disk_text("abc");
    buffer.insert(1, "z");
    assert_eq!(buffer.serialized_text(), "azbc");
    let cursor = buffer.delete_char_before(2);
    assert_eq!(cursor, 1);
    assert_eq!(buffer.serialized_text(), "abc");
}

#[test]
fn delete_edges() {
    let mut buffer = TextBuffer::from_disk_text("ab");
    assert_eq!(buffer.delete_char_before(0), 0);
    assert!(!buffer.is_dirty());
    assert_eq!(buffer.delete_char_after(2), 2);
    assert_eq!(buffer.delete_char_after(7), 2);
    assert!(!buffer.is_dirty());
    assert_eq!(buffer.delete_char_after(0), 0);
    assert_eq!(buffer.serialized_text(), "b");
    buffer.delete_range(5..1);
    assert_eq!(buffer.serialized_text(), "b");
    buffer.delete_range(0..10);
    assert_eq!(buffer.serialized_text(), "");
    assert_eq!(buffer.delete_current_line(0), 0);
}

#[test]
fn insert_past_end_appends() {
    let mut buffer = TextBuffer::from_disk_text("ab");
    buffer.insert(99, "é!");
    assert_eq!(buffer.serialized_text(), "abé!");
    assert_eq!(buffer.len_chars(), 4);
}

#[test]
fn word_boundaries() {
    let buffer = TextBuffer::from_disk_text("foo_bar  baz, qux");
    assert_eq!(buffer.prev_word_boundary(9), 0);
    assert_eq!(buffer.prev_word_boundary(12), 9);
    assert_eq!(buffer.prev_word_boundary(13), 12);
    assert_eq!(buffer.prev_word_boundary(14), 12);
    assert_eq!(buffer.prev_word_boundary(17), 14);
    assert_eq!(buffer.next_word_boundary(0), 9);
    assert_eq!(buffer.next_word_boundary(12), 14);
    assert_eq!(buffer.next_word_boundary(13), 14);
    assert_eq!(buffer.next_word_boundary(100), 17);
    let unicode = TextBuffer::from_disk_text("größe\u{3000}x");
    assert_eq!(unicode.next_word_boundary(0), 6);
    assert_eq!(unicode.prev_word_boundary(6), 0);
}

#[test]
fn deletes_last_line_up_to_its_end() {
    let mut buffer = TextBuffer::from_disk_text("a\nbc");
    let cursor = buffer.delete_current_line(3);
    assert_eq!(cursor, 2);
    assert_eq!(buffer.serialized_text(), "a\n");
}

#[test]
fn word_moves_cross_punctuation() {
    let buffer = TextBuffer::from_disk_text("foo.bar");
    assert_eq!(buffer.prev_word_boundary(4), 3);
    assert_eq!(buffer.prev_word_boundary(3), 0);
    assert_eq!(buffer.next_word_boundary(0), 3);
    assert_eq!(buffer.next_word_boundary(3), 4);
    assert_eq!(buffer.next_word_boundary(4), 7);
    let marks = TextBuffer::from_disk_text("a -> b");
    assert_eq!(marks.next_word_boundary(1), 2);
    assert_eq!(marks.next_word_boundary(2), 5);
    assert_eq!(marks.prev_word_boundary(5), 2);
    assert_eq!(marks.prev_word_boundary(6), 5);
}

#[test]
fn word_moves_always_move() {
    let buffer = TextBuffer::from_disk_text("x, (y) + z_1 \t!");
    let n = buffer.len_chars();
    for i in 1..=n {
        assert!(buffer.prev_word_boundary(i) < i);
    }
    for i in 0..n {
        assert!(buffer.next_word_boundary(i) > i);
    }
    let hello = TextBuffer::from_disk_text("hello there");
    assert_eq!(hello.prev_word_boundary(11), 6);
    assert_eq!(hello.prev_word_boundary(6), 0);
    assert_eq!(hello.next_word_boundary(0), 6);
    assert_eq!(hello.next_word_boundary(6), 11);
}

#[test]
fn delete_range_undoes_insert() {
    let mut buffer = TextBuffer::from_disk_text("héllo\nworld");
    buffer.mark_clean();
    buffer.delete_range(3..3);
    assert!(!buffer.is_dirty());
    buffer.delete_range(7..2);
    assert!(!buffer.is_dirty());
    buffer.insert(2, "日本\nx");
    buffer.delete_range(2..6);
    assert_eq!(buffer.serialized_text(), "héllo\nworld");
    assert!(buffer.is_dirty());
}
