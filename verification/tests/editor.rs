use ghostxt::buffer::TextBuffer;
use ghostxt::render::{collect_visual_rows, line_display_column};
use ghostxt::editor::Step;
use ghostxt::file_io::{display_name, load_buffer, pick_display_name, LoadError};
use ghostxt::input::{decode_key_event, KeyCode, KeyEvent, KeyModifiers};
use ghostxt::{Action, Editor};

#[test]
fn move_down_respects_soft_wrap() {
    let mut editor = Editor::open("sample.txt", TextBuffer::from_disk_text("abcdef\nxy"));
    editor.apply(Action::MoveRight, 4, 8);
    editor.apply(Action::MoveRight, 4, 8);
    editor.apply(Action::MoveRight, 4, 8);
    editor.apply(Action::MoveDown, 4, 8);

    assert_eq!(editor.cursor(), 6);
}

#[test]
fn close_requires_confirmation_when_dirty() {
    let mut editor = Editor::open("sample.txt", TextBuffer::new());
    editor.apply(Action::Insert("x".into()), 20, 10);
    editor.apply(Action::RequestClose, 20, 10);
    assert!(editor.pending_close());
    assert!(!editor.should_quit());
    editor.apply(Action::RequestClose, 20, 10);
    assert!(editor.should_quit());
}

#[test]
fn applies_a_basic_editing_flow() {
    let mut editor = Editor::open("sample.txt", TextBuffer::from_disk_text("hello world"));
    editor.apply(Action::MoveFileEnd, 20, 10);
    editor.apply(Action::Newline, 20, 10);
    editor.apply(Action::Insert("next".into()), 20, 10);
    editor.apply(Action::DeleteLine, 20, 10);
    editor.apply(Action::Insert("line".into()), 20, 10);
    assert_eq!(editor.apply(Action::Save, 20, 10), Step::Save);

    assert_eq!(editor.buffer().serialized_text(), "hello world\nline");
    editor.finish_save(20, 10);
    assert!(!editor.buffer().is_dirty());
    assert_eq!(editor.status_message(), "Saved sample.txt");
}

#[test]
fn clean_close_quits_at_once() {
    let mut editor = Editor::open("notes.md", TextBuffer::from_disk_text("text"));
    assert_eq!(editor.status_message(), "Ctrl-S save  Ctrl-W close");
    assert_eq!(editor.path(), "notes.md");
    editor.apply(Action::RequestClose, 20, 10);
    assert!(editor.should_quit());
    assert!(!editor.pending_close());
}

#[test]
fn confirm_and_cancel_close_prompt() {
    let mut editor = Editor::open("a", TextBuffer::new());
    editor.apply(Action::ConfirmClose, 20, 10);
    assert!(!editor.should_quit());
    assert_eq!(editor.buffer().serialized_text(), "y");
    editor.apply(Action::Newline, 20, 10);
    editor.apply(Action::RequestClose, 20, 10);
    assert_eq!(
        editor.status_message(),
        "Unsaved changes. Press Ctrl-W again or y to discard"
    );
    editor.apply(Action::CancelPrompt, 20, 10);
    assert!(!editor.pending_close());
    assert_eq!(editor.status_message(), "Close cancelled");
    editor.apply(Action::RequestClose, 20, 10);
    editor.apply(Action::ConfirmClose, 20, 10);
    assert!(editor.should_quit());
    assert_eq!(editor.buffer().serialized_text(), "y\n");
}

#[test]
fn plain_y_is_typed_without_a_prompt() {
    let mut editor = Editor::open("f", TextBuffer::from_disk_text("ab"));
    editor.apply(Action::MoveRight, 20, 10);
    let y = decode_key_event(KeyEvent::new(KeyCode::Char('y'), KeyModifiers::none())).unwrap();
    assert!(editor.can_apply(&y));
    assert_eq!(editor.apply(y, 20, 10), Step::Done);
    assert_eq!(editor.buffer().serialized_text(), "ayb");
    assert_eq!(editor.cursor(), 2);
    assert!(editor.buffer().is_dirty());
    assert!(!editor.should_quit());
    assert_eq!(editor.status_message(), "");
}

#[test]
fn moving_down_through_wrap_points() {
    let mut editor = Editor::open("f", TextBuffer::from_disk_text("abcdefgh\nxy"));
    editor.apply(Action::MoveDown, 4, 8);
    assert_eq!(editor.cursor(), 4);
    assert_eq!(editor.cursor_screen_position(4), (1, 0));
    editor.apply(Action::MoveDown, 4, 8);
    assert_eq!(editor.cursor(), 9);
    assert_eq!(editor.cursor_screen_position(4), (2, 0));
    editor.apply(Action::MoveUp, 4, 8);
    assert_eq!(editor.cursor(), 4);
    editor.apply(Action::MoveUp, 4, 8);
    assert_eq!(editor.cursor(), 0);
    editor.apply(Action::MoveLineEnd, 4, 8);
    editor.apply(Action::MoveLeft, 4, 8);
    editor.apply(Action::MoveUp, 4, 8);
    assert_eq!(editor.cursor(), 3);
    assert_eq!(editor.cursor_screen_position(4), (0, 3));
}

#[test]
fn cursor_at_a_wrap_point_shows_on_the_next_row() {
    let mut editor = Editor::open("f", TextBuffer::from_disk_text("abcdef"));
    for _ in 0..4 {
        editor.apply(Action::MoveRight, 4, 10);
    }
    assert_eq!(editor.cursor(), 4);
    assert_eq!(editor.cursor_screen_position(4), (1, 0));
    editor.apply(Action::MoveUp, 4, 10);
    assert_eq!(editor.cursor(), 0);
    editor.apply(Action::MoveLineEnd, 4, 10);
    editor.apply(Action::MoveUp, 4, 10);
    assert_eq!(editor.cursor(), 2);
}

#[test]
fn save_clears_the_close_prompt() {
    let mut editor = Editor::open("f.txt", TextBuffer::new());
    editor.apply(Action::Insert("x".into()), 20, 10);
    editor.apply(Action::RequestClose, 20, 10);
    assert!(editor.pending_close());
    let before = editor.cursor();
    assert_eq!(editor.apply(Action::Save, 20, 10), Step::Save);
    assert!(editor.pending_close());
    assert_eq!(editor.cursor(), before);
    editor.finish_save(20, 10);
    assert!(!editor.pending_close());
    assert!(!editor.should_quit());
}

#[test]
fn horizontal_moves_stay_in_the_text() {
    let mut editor = Editor::open("f", TextBuffer::from_disk_text("ab\ncd"));
    editor.apply(Action::MoveLeft, 10, 5);
    assert_eq!(editor.cursor(), 0);
    editor.apply(Action::MoveFileEnd, 10, 5);
    assert_eq!(editor.cursor(), 5);
    editor.apply(Action::MoveRight, 10, 5);
    assert_eq!(editor.cursor(), 5);
    editor.apply(Action::MoveLineStart, 10, 5);
    assert_eq!(editor.cursor(), 3);
    editor.apply(Action::MoveLeft, 10, 5);
    editor.apply(Action::MoveLineStart, 10, 5);
    assert_eq!(editor.cursor(), 0);
    editor.apply(Action::MoveLineEnd, 10, 5);
    assert_eq!(editor.cursor(), 2);
    editor.apply(Action::MoveFileStart, 10, 5);
    assert_eq!(editor.cursor(), 0);
}

#[test]
fn word_moves_and_deletes() {
    let mut editor = Editor::open("f", TextBuffer::from_disk_text("alpha beta"));
    editor.apply(Action::MoveWordRight, 20, 5);
    assert_eq!(editor.cursor(), 6);
    editor.apply(Action::MoveFileEnd, 20, 5);
    editor.apply(Action::MoveWordLeft, 20, 5);
    assert_eq!(editor.cursor(), 6);
    editor.apply(Action::MoveFileEnd, 20, 5);
    editor.apply(Action::DeleteWordLeft, 20, 5);
    assert_eq!(editor.cursor(), 6);
    assert_eq!(editor.buffer().serialized_text(), "alpha ");
    editor.apply(Action::Backspace, 20, 5);
    assert_eq!(editor.buffer().serialized_text(), "alpha");
    editor.apply(Action::MoveFileStart, 20, 5);
    editor.apply(Action::Delete, 20, 5);
    assert_eq!(editor.buffer().serialized_text(), "lpha");
    assert_eq!(editor.cursor(), 0);
}

#[test]
fn vertical_moves_keep_the_column() {
    let mut editor = Editor::open("f", TextBuffer::from_disk_text("abcdef\nx\nabcdef"));
    editor.apply(Action::MoveWordRight, 80, 10);
    assert_eq!(editor.cursor(), 7);
    editor.apply(Action::MoveFileStart, 80, 10);
    editor.apply(Action::MoveLineEnd, 80, 10);
    assert_eq!(editor.cursor(), 6);
    editor.apply(Action::MoveDown, 80, 10);
    assert_eq!(editor.cursor(), 8);
    editor.apply(Action::MoveDown, 80, 10);
    assert_eq!(editor.cursor(), 15);
    editor.apply(Action::MoveUp, 80, 10);
    editor.apply(Action::MoveUp, 80, 10);
    assert_eq!(editor.cursor(), 6);
    editor.apply(Action::MoveUp, 80, 10);
    assert_eq!(editor.cursor(), 6);
}

#[test]
fn moving_up_from_a_wrapped_row() {
    let mut editor = Editor::open("f", TextBuffer::from_disk_text("abcdefgh"));
    editor.apply(Action::MoveFileEnd, 3, 10);
    editor.apply(Action::MoveUp, 3, 10);
    assert_eq!(editor.cursor(), 5);
    editor.apply(Action::MoveUp, 3, 10);
    assert_eq!(editor.cursor(), 2);
}

#[test]
fn viewport_follows_the_cursor() {
    let mut editor = Editor::open("f", TextBuffer::from_disk_text("1\n2\n3\n4\n5\n6"));
    editor.apply(Action::MoveFileEnd, 10, 4);
    assert_eq!(editor.viewport_row(), 3);
    assert_eq!(editor.cursor_screen_position(10), (2, 1));
    editor.apply(Action::MoveFileStart, 10, 4);
    assert_eq!(editor.viewport_row(), 0);
    assert_eq!(editor.cursor_screen_position(10), (0, 0));
}

#[test]
fn screen_position_on_a_wrapped_line() {
    let mut editor = Editor::open("f", TextBuffer::from_disk_text("abcdef"));
    editor.apply(Action::MoveFileEnd, 4, 10);
    assert_eq!(editor.cursor_screen_position(4), (1, 2));
    editor.apply(Action::MoveLineStart, 4, 10);
    assert_eq!(editor.cursor_screen_position(4), (0, 0));
}

#[test]
fn can_apply_accepts_ordinary_actions() {
    let editor = Editor::open("f", TextBuffer::from_disk_text("abc"));
    assert!(editor.can_apply(&Action::Insert("日本".into())));
    assert!(editor.can_apply(&Action::Newline));
    assert!(editor.can_apply(&Action::Save));
}

#[test]
fn display_names() {
    assert_eq!(display_name("/tmp/dir/file.txt"), "file.txt");
    assert_eq!(display_name("notes.md"), "notes.md");
    assert_eq!(display_name("/"), "/");
    assert_eq!(display_name("/tmp/notes.txt"), "notes.txt");
    assert_eq!(display_name("dir/sub/.hidden"), ".hidden");
    assert_eq!(display_name("a b/ü.rs"), "ü.rs");
    assert_eq!(pick_display_name(Some(String::new()), "x/.."), "x/..");
    assert_eq!(pick_display_name(Some("n".to_string()), "a/n"), "n");
    assert_eq!(pick_display_name(None, ".."), "..");
}

#[test]
fn loads_file_contents() {
    let missing = load_buffer(None).unwrap();
    assert!(missing.is_empty());
    assert!(!missing.is_dirty());
    let loaded = load_buffer(Some("a\r\nb".as_bytes().to_vec())).unwrap();
    assert_eq!(loaded.len_chars(), 3);
    assert_eq!(loaded.serialized_text(), "a\r\nb");
    let accented = load_buffer(Some(vec![0xc3, 0xa9])).unwrap();
    assert_eq!(accented.line_text(0), "é");
    assert_eq!(load_buffer(Some(vec![0xff, 0x41])).unwrap_err(), LoadError::InvalidUtf8);
    assert_eq!(load_buffer(Some(vec![0xed, 0xa0, 0x80])).unwrap_err(), LoadError::InvalidUtf8);
}

#[test]
fn cursor_shows_on_its_own_row() {
    let text = "abcdefgh\nxy\n\n日本語テキスト";
    for width in [1usize, 3, 4, 5] {
        let mut editor = Editor::open("f", TextBuffer::from_disk_text(text));
        let rows = collect_visual_rows(editor.buffer(), width);
        loop {
            let (r, col) = editor.cursor_screen_position(width);
            let row = &rows[editor.viewport_row() + r];
            let buffer = editor.buffer();
            let line = buffer.line_index_of_char(editor.cursor());
            let start = buffer.line_start_char(line);
            let dc = line_display_column(&buffer.line_text(line), editor.cursor() - start);
            assert_eq!(row.line_idx, line);
            assert_eq!(row.segment.start_col + col, dc);
            assert!(dc <= row.segment.end_col);
            let before = editor.cursor();
            editor.apply(Action::MoveRight, width, 6);
            if editor.cursor() == before {
                break;
            }
        }
    }
}

#[test]
fn vertical_moves_step_one_row() {
    let text = "abcdefgh\nxy\n\n日本語テキスト";
    for width in [1usize, 3, 4, 5] {
        let rows = collect_visual_rows(&TextBuffer::from_disk_text(text), width);
        let mut editor = Editor::open("f", TextBuffer::from_disk_text(text));
        let row_of = |e: &Editor| e.viewport_row() + e.cursor_screen_position(width).0;
        for step in 1..rows.len() {
            editor.apply(Action::MoveDown, width, 100);
            assert_eq!(row_of(&editor), step);
        }
        editor.apply(Action::MoveDown, width, 100);
        assert_eq!(row_of(&editor), rows.len() - 1);
        for step in (0..rows.len() - 1).rev() {
            editor.apply(Action::MoveUp, width, 100);
            assert_eq!(row_of(&editor), step);
        }
    }
}

#[test]
fn prompt_answers_while_the_prompt_shows() {
    let dirty = || {
        let mut editor = Editor::open("f", TextBuffer::from_disk_text("ab"));
        editor.apply(Action::Insert("c".into()), 20, 10);
        editor.apply(Action::RequestClose, 20, 10);
        assert!(editor.pending_close());
        editor
    };
    let mut editor = dirty();
    editor.apply(Action::ConfirmClose, 20, 10);
    assert!(editor.should_quit());
    assert_eq!(editor.buffer().serialized_text(), "cab");
    assert_eq!(editor.cursor(), 1);
    let mut editor = dirty();
    editor.apply(Action::CancelPrompt, 20, 10);
    assert!(!editor.pending_close() && !editor.should_quit());
    assert_eq!(editor.status_message(), "Close cancelled");
    assert_eq!(editor.buffer().serialized_text(), "cab");
    let mut editor = dirty();
    editor.apply(Action::MoveRight, 20, 10);
    assert!(!editor.pending_close() && !editor.should_quit());
}
