use ghostxt::input::{
    decode_escaped_sequence, decode_key_event, is_possible_prefix, Event, InputDecoder, KeyCode,
    KeyEvent, KeyEventKind, KeyModifiers, ESCAPE_FLUSH_DELAY_NANOS,
};
use ghostxt::Action;

fn key(code: KeyCode, modifiers: KeyModifiers) -> KeyEvent {
    KeyEvent::new(code, modifiers)
}

#[test]
fn decodes_super_navigation_shortcuts() {
    assert_eq!(
        decode_key_event(key(KeyCode::Left, KeyModifiers::super_key())),
        Some(Action::MoveLineStart)
    );
    assert_eq!(
        decode_key_event(key(KeyCode::Backspace, KeyModifiers::super_key())),
        Some(Action::DeleteLine)
    );
}

#[test]
fn decodes_control_shortcuts() {
    assert_eq!(
        decode_key_event(key(KeyCode::Char('a'), KeyModifiers::control())),
        Some(Action::MoveLineStart)
    );
    assert_eq!(
        decode_key_event(key(KeyCode::Char('u'), KeyModifiers::control())),
        Some(Action::DeleteLine)
    );
    assert_eq!(
        decode_key_event(key(KeyCode::Char('s'), KeyModifiers::control())),
        Some(Action::Save)
    );
    assert_eq!(
        decode_key_event(key(KeyCode::Char('w'), KeyModifiers::control())),
        Some(Action::RequestClose)
    );
}

#[test]
fn decodes_private_vscode_sequences() {
    let mut decoder = InputDecoder::default();
    let sequence = [
        Event::Key(key(KeyCode::Esc, KeyModifiers::none())),
        Event::Key(key(KeyCode::Char('['), KeyModifiers::none())),
        Event::Key(key(KeyCode::Char('9'), KeyModifiers::none())),
        Event::Key(key(KeyCode::Char('5'), KeyModifiers::none())),
        Event::Key(key(KeyCode::Char('0'), KeyModifiers::none())),
        Event::Key(key(KeyCode::Char('2'), KeyModifiers::none())),
        Event::Key(key(KeyCode::Char('u'), KeyModifiers::none())),
    ];

    let mut actions = Vec::new();
    for event in sequence {
        actions.extend(decoder.decode_event(event));
    }

    assert_eq!(actions, vec![Action::MoveFileStart]);
}

#[test]
fn documented_close_and_save_aliases() {
    assert_eq!(
        decode_key_event(key(KeyCode::Char('q'), KeyModifiers::control())),
        Some(Action::RequestClose)
    );
    assert_eq!(
        decode_key_event(key(KeyCode::Char('s'), KeyModifiers::super_key())),
        Some(Action::Save)
    );
    assert_eq!(
        decode_key_event(key(KeyCode::Char('w'), KeyModifiers::super_key())),
        Some(Action::RequestClose)
    );
    assert_eq!(
        decode_key_event(key(KeyCode::Up, KeyModifiers::super_key())),
        Some(Action::MoveFileStart)
    );
}

#[test]
fn plain_keys() {
    let none = KeyModifiers::none();
    assert_eq!(decode_key_event(key(KeyCode::Tab, none)), Some(Action::Insert("    ".to_string())));
    assert_eq!(decode_key_event(key(KeyCode::Char('q'), none)), Some(Action::Insert("q".to_string())));
    assert_eq!(
        decode_key_event(key(KeyCode::Char('Q'), KeyModifiers::shift())),
        Some(Action::Insert("Q".to_string()))
    );
    assert_eq!(decode_key_event(key(KeyCode::Char('y'), none)), Some(Action::ConfirmClose));
    assert_eq!(decode_key_event(key(KeyCode::Enter, none)), Some(Action::Newline));
    assert_eq!(decode_key_event(key(KeyCode::Esc, none)), Some(Action::CancelPrompt));
    assert_eq!(decode_key_event(key(KeyCode::Other, none)), None);
    assert_eq!(decode_key_event(key(KeyCode::Up, none)), Some(Action::MoveUp));
}

#[test]
fn alt_and_other_modifiers() {
    assert_eq!(
        decode_key_event(key(KeyCode::Char('b'), KeyModifiers::alt())),
        Some(Action::MoveWordLeft)
    );
    assert_eq!(
        decode_key_event(key(KeyCode::Backspace, KeyModifiers::alt())),
        Some(Action::DeleteWordLeft)
    );
    assert_eq!(decode_key_event(key(KeyCode::Char('x'), KeyModifiers::alt())), None);
    assert_eq!(
        decode_key_event(key(KeyCode::Char('a'), KeyModifiers { bits: 6 })),
        None
    );
    assert_eq!(
        decode_key_event(key(KeyCode::Up, KeyModifiers { bits: 10 })),
        Some(Action::MoveFileStart)
    );
}

#[test]
fn escape_then_unrelated_key_cancels_and_decodes_the_key() {
    let mut decoder = InputDecoder::default();
    assert!(decoder.decode_event(Event::Key(key(KeyCode::Esc, KeyModifiers::none()))).is_empty());
    let actions = decoder.decode_event(Event::Key(key(KeyCode::Char('x'), KeyModifiers::none())));
    assert_eq!(actions, vec![Action::CancelPrompt, Action::Insert("x".to_string())]);
}

#[test]
fn escape_then_option_letter_moves_by_word() {
    let mut decoder = InputDecoder::default();
    decoder.decode_event(Event::Key(key(KeyCode::Esc, KeyModifiers::none())));
    let actions = decoder.decode_event(Event::Key(key(KeyCode::Char('f'), KeyModifiers::none())));
    assert_eq!(actions, vec![Action::MoveWordRight]);
}

#[test]
fn releases_and_other_events_do_nothing() {
    let mut decoder = InputDecoder::default();
    let release = KeyEvent {
        code: KeyCode::Char('a'),
        modifiers: KeyModifiers::none(),
        kind: KeyEventKind::Release,
    };
    assert!(decoder.decode_event(Event::Key(release)).is_empty());
    assert!(decoder.decode_event(Event::Other).is_empty());
}

#[test]
fn paste_inserts_and_drops_pending() {
    let mut decoder = InputDecoder::default();
    decoder.decode_event(Event::Key(key(KeyCode::Esc, KeyModifiers::none())));
    let actions = decoder.decode_event(Event::Paste("pasted".to_string()));
    assert_eq!(actions, vec![Action::Insert("pasted".to_string())]);
    assert!(decoder.flush_pending().is_empty());
}

#[test]
fn pending_escape_flushes_after_the_delay() {
    let mut decoder = InputDecoder::default();
    decoder.decode_event(Event::Key(key(KeyCode::Esc, KeyModifiers::none())));
    assert!(decoder.flush_after(ESCAPE_FLUSH_DELAY_NANOS - 1).is_empty());
    assert_eq!(decoder.flush_after(ESCAPE_FLUSH_DELAY_NANOS), vec![Action::CancelPrompt]);
    assert!(decoder.flush_after(ESCAPE_FLUSH_DELAY_NANOS).is_empty());
    assert!(decoder.flush_pending_if_timed_out().is_empty());
}

#[test]
fn timed_flush_without_pending_does_nothing() {
    let mut decoder = InputDecoder::default();
    assert!(decoder.flush_pending_if_timed_out().is_empty());
    decoder.clear_pending();
    assert!(decoder.flush_pending().is_empty());
}

#[test]
fn escape_sequence_tables() {
    assert_eq!(decode_escaped_sequence("\u{1b}b"), Some(Action::MoveWordLeft));
    assert_eq!(decode_escaped_sequence("\u{1b}[9506u"), Some(Action::MoveLineEnd));
    assert_eq!(decode_escaped_sequence("\u{1b}[9500u"), Some(Action::Save));
    assert_eq!(decode_escaped_sequence("\u{1b}[9501u"), Some(Action::RequestClose));
    assert_eq!(decode_escaped_sequence("\u{1b}[9507u"), None);
    assert_eq!(decode_escaped_sequence("\u{1b}["), None);
    assert!(is_possible_prefix("\u{1b}[95"));
    assert!(is_possible_prefix(""));
    assert!(!is_possible_prefix("\u{1b}[96"));
    assert!(!is_possible_prefix("\u{1b}bb"));
}

#[test]
fn flush_measures_from_the_sequence_start() {
    let t0 = std::time::Instant::now();
    let ms = std::time::Duration::from_millis;
    let esc = Event::Key(key(KeyCode::Esc, KeyModifiers::none()));
    let mut decoder = InputDecoder::default();
    assert!(decoder.decode_event_at(esc, t0).is_empty());
    assert!(decoder.flush_at(t0 + ms(10)).is_empty());
    assert!(decoder.flush_at(t0 + ms(24)).is_empty());
    assert_eq!(decoder.flush_at(t0 + ms(25)), vec![Action::CancelPrompt]);
    assert!(decoder.flush_at(t0 + ms(100)).is_empty());
}

#[test]
fn a_growing_sequence_restarts_the_timer() {
    let t0 = std::time::Instant::now();
    let ms = std::time::Duration::from_millis;
    let mut decoder = InputDecoder::default();
    decoder.decode_event_at(Event::Key(key(KeyCode::Esc, KeyModifiers::none())), t0);
    let bracket = Event::Key(key(KeyCode::Char('['), KeyModifiers::none()));
    assert!(decoder.decode_event_at(bracket, t0 + ms(20)).is_empty());
    assert!(decoder.flush_at(t0 + ms(30)).is_empty());
    assert!(decoder.flush_at(t0 + ms(44)).is_empty());
    assert_eq!(decoder.flush_at(t0 + ms(45)), vec![Action::CancelPrompt]);
}

#[test]
fn a_lone_escape_is_flushed_by_the_clock() {
    let mut decoder = InputDecoder::default();
    decoder.decode_event(Event::Key(key(KeyCode::Esc, KeyModifiers::none())));
    let after = std::time::Instant::now();
    while after.elapsed() < std::time::Duration::from_millis(30) {}
    let flushed = decoder.flush_pending_if_timed_out();
    assert_eq!(flushed, vec![Action::CancelPrompt]);
}
