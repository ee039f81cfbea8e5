//! Keyboard decoding: key events to editor actions, including the escape
//! sequences some terminals send for shortcuts they do not forward as keys.
//!
//! An Esc key starts a pending sequence.  Following keys extend it until it
//! names a known sequence (its action is decoded), stops being the start of
//! one (the prompt is cancelled and the key decoded on its own), or nothing
//! follows within the flush delay (the prompt is cancelled).
use vstd::prelude::*;
use std::time::Instant;
use crate::action::Action;
use crate::text::{str_chars, string_push};

verus! {

#[verifier::external_type_specification]
#[verifier::external_body]
pub struct ExInstant(Instant);

/// `Instant::now`: a reading of the monotonic clock.  Nothing is stated of
/// the value; the decoder only keeps it to measure from.
#[verifier::external_body]
fn instant_now() -> (t: Instant) {
    Instant::now()
}

/// What `later.saturating_duration_since(earlier).as_nanos()` gives: the
/// nanoseconds from clock reading `earlier` to clock reading `later` (0 when
/// `later` is not after it).
pub uninterp spec fn nanos_from(earlier: Instant, later: Instant) -> u128;

/// `Instant::saturating_duration_since` in nanoseconds
/// (`Duration::as_nanos`): the time from `earlier` to `later`, a function of
/// the two readings alone, named by `nanos_from`.
#[verifier::external_body]
fn nanos_between(earlier: &Instant, later: &Instant) -> (nanos: u128)
    ensures
        nanos == nanos_from(*earlier, *later),
{
    later.saturating_duration_since(*earlier).as_nanos()
}

/// How long a pending escape sequence waits for its next key: 25 ms.
pub const ESCAPE_FLUSH_DELAY_NANOS: u128 = 25_000_000;

/// The keys the decoder tells apart.
#[derive(Debug, Clone, Copy, PartialEq, Eq, Structural)]
pub enum KeyCode {
    Backspace,
    Enter,
    Left,
    Right,
    Up,
    Down,
    Home,
    End,
    Tab,
    Delete,
    Esc,
    Char(char),
    /// Any other key.
    Other,
}

/// The modifier keys held with a key, as bits: Shift 1, Control 2, Alt 4,
/// Super 8, Hyper 16, Meta 32.
#[derive(Debug, Clone, Copy, PartialEq, Eq, Structural)]
pub struct KeyModifiers {
    pub bits: u8,
}

impl KeyModifiers {
    /// No modifier.
    pub fn none() -> (m: KeyModifiers)
        ensures
            m.bits == 0,
    {
        KeyModifiers { bits: 0 }
    }

    /// Shift.
    pub fn shift() -> (m: KeyModifiers)
        ensures
            m.bits == 1,
    {
        KeyModifiers { bits: 1 }
    }

    /// Control.
    pub fn control() -> (m: KeyModifiers)
        ensures
            m.bits == 2,
    {
        KeyModifiers { bits: 2 }
    }

    /// Alt (Option on macOS).
    pub fn alt() -> (m: KeyModifiers)
        ensures
            m.bits == 4,
    {
        KeyModifiers { bits: 4 }
    }

    /// Super (Cmd on macOS).
    pub fn super_key() -> (m: KeyModifiers)
        ensures
            m.bits == 8,
    {
        KeyModifiers { bits: 8 }
    }
}

/// Whether a key went down, repeats or went up.
#[derive(Debug, Clone, Copy, PartialEq, Eq, Structural)]
pub enum KeyEventKind {
    Press,
    Repeat,
    Release,
}

/// A key with its modifiers.
#[derive(Debug, Clone, Copy, PartialEq, Eq, Structural)]
pub struct KeyEvent {
    pub code: KeyCode,
    pub modifiers: KeyModifiers,
    pub kind: KeyEventKind,
}

impl KeyEvent {
    /// A key press.
    pub fn new(code: KeyCode, modifiers: KeyModifiers) -> (k: KeyEvent)
        ensures
            k == (KeyEvent { code, modifiers, kind: KeyEventKind::Press }),
    {
        KeyEvent { code, modifiers, kind: KeyEventKind::Press }
    }
}

/// A terminal input event.
#[derive(Debug, Clone)]
pub enum Event {
    Key(KeyEvent),
    Paste(String),
    /// Focus, mouse and resize events.
    Other,
}

/// The Super bit is set.
pub open spec fn has_super(m: KeyModifiers) -> bool {
    m.bits & 8 == 8
}

/// None of Control, Super and Alt is set.
pub open spec fn no_command_modifier(m: KeyModifiers) -> bool {
    m.bits & 14 == 0
}

/// The command a Super shortcut stands for.
pub open spec fn super_command(code: KeyCode) -> Option<Action> {
    match code {
        KeyCode::Left => Some(Action::MoveLineStart),
        KeyCode::Right => Some(Action::MoveLineEnd),
        KeyCode::Up => Some(Action::MoveFileStart),
        KeyCode::Down => Some(Action::MoveFileEnd),
        KeyCode::Backspace => Some(Action::DeleteLine),
        KeyCode::Char('s') => Some(Action::Save),
        KeyCode::Char('S') => Some(Action::Save),
        KeyCode::Char('w') => Some(Action::RequestClose),
        KeyCode::Char('W') => Some(Action::RequestClose),
        _ => None,
    }
}

/// The command (anything but an insertion) a key stands for on its own.
pub open spec fn key_command(key: KeyEvent) -> Option<Action> {
    let m = key.modifiers;
    if has_super(m) {
        super_command(key.code)
    } else if m.bits == 4 {
        match key.code {
            KeyCode::Left => Some(Action::MoveWordLeft),
            KeyCode::Right => Some(Action::MoveWordRight),
            KeyCode::Backspace => Some(Action::DeleteWordLeft),
            KeyCode::Char('b') => Some(Action::MoveWordLeft),
            KeyCode::Char('f') => Some(Action::MoveWordRight),
            _ => None,
        }
    } else if m.bits == 2 {
        match key.code {
            KeyCode::Char('w') => Some(Action::RequestClose),
            KeyCode::Char('W') => Some(Action::RequestClose),
            KeyCode::Char('q') => Some(Action::RequestClose),
            KeyCode::Char('Q') => Some(Action::RequestClose),
            KeyCode::Char('s') => Some(Action::Save),
            KeyCode::Char('S') => Some(Action::Save),
            KeyCode::Char('a') => Some(Action::MoveLineStart),
            KeyCode::Char('e') => Some(Action::MoveLineEnd),
            KeyCode::Char('u') => Some(Action::DeleteLine),
            _ => None,
        }
    } else if no_command_modifier(m) {
        match key.code {
            KeyCode::Left => Some(Action::MoveLeft),
            KeyCode::Right => Some(Action::MoveRight),
            KeyCode::Up => Some(Action::MoveUp),
            KeyCode::Down => Some(Action::MoveDown),
            KeyCode::Home => Some(Action::MoveLineStart),
            KeyCode::End => Some(Action::MoveLineEnd),
            KeyCode::Enter => Some(Action::Newline),
            KeyCode::Backspace => Some(Action::Backspace),
            KeyCode::Delete => Some(Action::Delete),
            KeyCode::Char('y') => Some(Action::ConfirmClose),
            KeyCode::Esc => Some(Action::CancelPrompt),
            _ => None,
        }
    } else {
        None
    }
}

/// The text a key inserts on its own: four spaces for Tab, the character
/// for any other unmodified character key (but `y`, which decodes to
/// `ConfirmClose`: the editor types it unless the close prompt shows).
pub open spec fn key_text(key: KeyEvent) -> Option<Seq<char>> {
    let m = key.modifiers;
    if !has_super(m) && m.bits != 4 && m.bits != 2 && no_command_modifier(m) {
        match key.code {
            KeyCode::Tab => Some(seq![' ', ' ', ' ', ' ']),
            KeyCode::Char(c) => if c == 'y' {
                None
            } else {
                Some(seq![c])
            },
            _ => None,
        }
    } else {
        None
    }
}

/// `a` is what `key` stands for on its own.
pub open spec fn key_gives(key: KeyEvent, a: Action) -> bool {
    match key_text(key) {
        Some(t) => a matches Action::Insert(s) && s@ == t,
        None => key_command(key) == Some(a),
    }
}

/// `acts` are the actions `key` gives on its own: one, or none when the key
/// stands for nothing.
pub open spec fn key_actions(key: KeyEvent, acts: Seq<Action>) -> bool {
    if key_text(key) is None && key_command(key) is None {
        acts.len() == 0
    } else {
        acts.len() == 1 && key_gives(key, acts[0])
    }
}

/// The escape sequences the decoder knows: Esc b and Esc f (Option-Left
/// and Option-Right), and the private CSI commands `Esc [ 9500 u` to
/// `Esc [ 9506 u` that an editor's key bindings can send.
pub open spec fn known_sequence(i: int) -> Seq<char> {
    if i == 0 {
        seq!['\u{1b}', 'b']
    } else if i == 1 {
        seq!['\u{1b}', 'f']
    } else {
        seq!['\u{1b}', '[', '9', '5', '0', csi_digit(i - 2), 'u']
    }
}

/// The last digit of private CSI command `k`.
pub open spec fn csi_digit(k: int) -> char {
    if k == 0 {
        '0'
    } else if k == 1 {
        '1'
    } else if k == 2 {
        '2'
    } else if k == 3 {
        '3'
    } else if k == 4 {
        '4'
    } else if k == 5 {
        '5'
    } else {
        '6'
    }
}

/// The action of known sequence `i`.
pub open spec fn known_action(i: int) -> Action {
    if i == 0 {
        Action::MoveWordLeft
    } else if i == 1 {
        Action::MoveWordRight
    } else if i == 2 {
        Action::Save
    } else if i == 3 {
        Action::RequestClose
    } else if i == 4 {
        Action::MoveFileStart
    } else if i == 5 {
        Action::MoveFileEnd
    } else if i == 6 {
        Action::DeleteLine
    } else if i == 7 {
        Action::MoveLineStart
    } else {
        Action::MoveLineEnd
    }
}

/// The number of known sequences.
pub open spec fn known_count() -> int {
    9
}

/// The action an escape sequence stands for, if it is a known one.
pub open spec fn escaped_action(s: Seq<char>) -> Option<Action> {
    if exists|i: int| 0 <= i < known_count() && #[trigger] known_sequence(i) == s {
        Some(known_action(choose|i: int| 0 <= i < known_count() && #[trigger] known_sequence(i) == s))
    } else {
        None
    }
}

/// `s` is the beginning of a known escape sequence.
pub open spec fn is_prefix_of_known(s: Seq<char>) -> bool {
    exists|i: int| 0 <= i < known_count() && s.is_prefix_of(#[trigger] known_sequence(i))
}

/// The character a key adds to a pending sequence: its own for a character
/// key, BS for Backspace, ESC for Esc, none for others.
pub open spec fn push_key_spec(s: Seq<char>, code: KeyCode) -> Seq<char> {
    match code {
        KeyCode::Char(c) => s.push(c),
        KeyCode::Backspace => s.push('\u{8}'),
        KeyCode::Esc => s.push('\u{1b}'),
        _ => s,
    }
}

/// Decoding one key with `pending` the sequence pending before it: the
/// sequence pending after it is `next`, and the actions are `acts`.
pub open spec fn key_step(
    pending: Option<Seq<char>>,
    key: KeyEvent,
    next: Option<Seq<char>>,
    acts: Seq<Action>,
) -> bool {
    if !(key.kind == KeyEventKind::Press || key.kind == KeyEventKind::Repeat) {
        next == pending && acts.len() == 0
    } else if key.code == KeyCode::Esc && key.modifiers.bits == 0 {
        next == Some(seq!['\u{1b}']) && acts.len() == 0
    } else if pending is Some {
        let p = push_key_spec(pending.unwrap(), key.code);
        if escaped_action(p) is Some {
            next is None && acts == seq![escaped_action(p).unwrap()]
        } else if is_prefix_of_known(p) {
            next == Some(p) && acts.len() == 0
        } else {
            &&& next is None
            &&& acts.len() >= 1
            &&& acts[0] == Action::CancelPrompt
            &&& key_actions(key, acts.drop_first())
        }
    } else {
        next is None && key_actions(key, acts)
    }
}

/// The timer after key `key` at clock reading `now`, with `started` the one
/// before and `next` the sequence pending after: a key pressed (or
/// repeating) that leaves a sequence pending started or grew it, so the
/// timer restarts at `now`; a sequence left pending otherwise keeps its
/// start; with none pending there is no timer.
pub open spec fn timer_after(
    started: Option<Instant>,
    key: KeyEvent,
    now: Instant,
    next: Option<Seq<char>>,
) -> Option<Instant> {
    if next is None {
        None
    } else if key.kind == KeyEventKind::Press || key.kind == KeyEventKind::Repeat {
        Some(now)
    } else {
        started
    }
}

/// Decoder `f` and actions `acts` are what decoder `o` gives for `event` at
/// clock reading `now`.
pub open spec fn decoded_at(o: InputDecoder, event: Event, now: Instant, f: InputDecoder, acts: Seq<
    Action,
>) -> bool {
    &&& f.wf()
    &&& match event {
        Event::Paste(text) => acts == seq![Action::Insert(text)] && f.pending() is None,
        Event::Key(key) => key_step(o.pending(), key, f.pending(), acts) && f.started()
            == timer_after(o.started(), key, now, f.pending()),
        Event::Other => acts.len() == 0 && f == o,
    }
}

/// Decoder `f` and actions `acts` are what decoder `o` gives when flushed at
/// clock reading `now`: with a sequence pending since `t` and the flush delay
/// passed by `now`, the sequence is dropped and the prompt cancelled;
/// otherwise nothing changes, the timer included.
pub open spec fn flushed_at(o: InputDecoder, now: Instant, f: InputDecoder, acts: Seq<Action>) -> bool {
    &&& f.wf()
    &&& match o.started() {
        Some(t) => if o.pending() is Some && nanos_from(t, now) >= ESCAPE_FLUSH_DELAY_NANOS {
            f.pending() is None && acts == seq![Action::CancelPrompt]
        } else {
            acts.len() == 0 && f == o
        },
        None => acts.len() == 0 && f == o,
    }
}

/// The escape-sequence state of the keyboard decoder.
#[derive(Debug)]
pub struct InputDecoder {
    pending_escape: Option<String>,
    pending_since: Option<Instant>,
}

impl Default for InputDecoder {
    fn default() -> (d: Self)
        ensures
            d.wf(),
            d.pending() is None,
    {
        InputDecoder { pending_escape: None, pending_since: None }
    }
}

impl InputDecoder {
    /// The escape sequence pending, if any.
    pub closed spec fn pending(&self) -> Option<Seq<char>> {
        match self.pending_escape {
            Some(s) => Some(s@),
            None => None,
        }
    }

    /// The clock reading taken when the pending sequence last started or
    /// grew; the flush delay is measured from it.
    pub closed spec fn started(&self) -> Option<Instant> {
        self.pending_since
    }

    /// A timer runs exactly while a sequence is pending.
    pub closed spec fn wf(&self) -> bool {
        self.pending_since is Some == self.pending_escape is Some
    }

    /// The actions an input event stands for, at clock reading `now`.  A
    /// paste inserts its text and drops any pending sequence; a key goes
    /// through `key_step`; other events do nothing.  A key that starts or
    /// grows a sequence restarts the timer at `now`; otherwise a sequence
    /// still pending keeps its start.
    pub fn decode_event_at(&mut self, event: Event, now: Instant) -> (acts: Vec<Action>)
        requires
            old(self).wf(),
        ensures
            decoded_at(*old(self), event, now, *final(self), acts@),
    {
        match event {
            Event::Key(key) => self.decode_key(key, now),
            Event::Paste(text) => {
                self.clear_pending();
                let acts = vec![Action::Insert(text)];
                assert(acts@ =~= seq![Action::Insert(text)]);
                acts
            },
            Event::Other => Vec::new(),
        }
    }

    /// The actions an input event stands for, with the timer read from the
    /// clock: what `decode_event_at` gives for the clock reading taken.
    pub fn decode_event(&mut self, event: Event) -> (acts: Vec<Action>)
        requires
            old(self).wf(),
        ensures
            exists|now: Instant| decoded_at(*old(self), event, now, *final(self), acts@),
    {
        let now = instant_now();
        self.decode_event_at(event, now)
    }

    /// Cancels the prompt when the pending sequence has waited the flush
    /// delay by clock reading `now`: what `flush_after` gives for the time
    /// from the sequence's start to `now`.
    pub fn flush_at(&mut self, now: Instant) -> (acts: Vec<Action>)
        requires
            old(self).wf(),
        ensures
            flushed_at(*old(self), now, *final(self), acts@),
    {
        match &self.pending_since {
            Some(since) => {
                let elapsed = nanos_between(since, &now);
                self.flush_after(elapsed)
            },
            None => Vec::new(),
        }
    }

    /// Cancels the prompt when a sequence has been pending for the flush
    /// delay, reading the clock: what `flush_at` gives for the clock reading
    /// taken.  With no sequence pending the clock is not read and nothing
    /// happens.
    pub fn flush_pending_if_timed_out(&mut self) -> (acts: Vec<Action>)
        requires
            old(self).wf(),
        ensures
            exists|now: Instant| flushed_at(*old(self), now, *final(self), acts@),
            old(self).pending() is None ==> acts@.len() == 0 && *final(self) == *old(self),
    {
        if self.pending_escape.is_none() {
            assert(flushed_at(*old(self), arbitrary(), *self, Seq::<Action>::empty()));
            return Vec::new();
        }
        let now = instant_now();
        self.flush_at(now)
    }

    /// Given `elapsed_nanos` since the pending sequence last grew: when a
    /// sequence is pending and the flush delay has passed, drops it and
    /// cancels the prompt; else does nothing, the timer included.
    pub fn flush_after(&mut self, elapsed_nanos: u128) -> (acts: Vec<Action>)
        requires
            old(self).wf(),
        ensures
            final(self).wf(),
            if old(self).pending() is Some && elapsed_nanos >= ESCAPE_FLUSH_DELAY_NANOS {
                final(self).pending() is None && acts@ == seq![Action::CancelPrompt]
            } else {
                acts@.len() == 0 && *final(self) == *old(self)
            },
    {
        if self.pending_since.is_some() && elapsed_nanos >= ESCAPE_FLUSH_DELAY_NANOS {
            return self.flush_pending();
        }
        Vec::new()
    }

    fn decode_key(&mut self, key: KeyEvent, now: Instant) -> (acts: Vec<Action>)
        requires
            old(self).wf(),
        ensures
            final(self).wf(),
            key_step(old(self).pending(), key, final(self).pending(), acts@),
            final(self).started() == timer_after(old(self).started(), key, now, final(self).pending()),
    {
        if !(key.kind == KeyEventKind::Press || key.kind == KeyEventKind::Repeat) {
            return Vec::new();
        }
        if key.code == KeyCode::Esc && key.modifiers.bits == 0 {
            let mut s = String::new();
            string_push(&mut s, '\u{1b}');
            self.pending_escape = Some(s);
            self.pending_since = Some(now);
            return Vec::new();
        }
        if self.pending_escape.is_some() {
            return self.decode_pending(key, now);
        }
        match decode_key_event(key) {
            Some(action) => vec![action],
            None => Vec::new(),
        }
    }

    fn decode_pending(&mut self, key: KeyEvent, now: Instant) -> (acts: Vec<Action>)
        requires
            old(self).pending() is Some,
            key.kind == KeyEventKind::Press || key.kind == KeyEventKind::Repeat,
            !(key.code == KeyCode::Esc && key.modifiers.bits == 0),
        ensures
            final(self).wf(),
            key_step(old(self).pending(), key, final(self).pending(), acts@),
            final(self).pending() is Some ==> final(self).started() == Some(now),
            final(self).pending() is None ==> final(self).started() is None,
    {
        let mut pending = match self.pending_escape.take() {
            Some(p) => p,
            None => String::new(),
        };
        push_key(&mut pending, key);
        match decode_escaped_sequence(pending.as_str()) {
            Some(action) => {
                self.clear_pending();
                let acts = vec![action];
                assert(acts@ == seq![action]);
                return acts;
            },
            None => {},
        }
        if is_possible_prefix(pending.as_str()) {
            self.pending_since = Some(now);
            self.pending_escape = Some(pending);
            return Vec::new();
        }
        self.clear_pending();
        let mut actions = vec![Action::CancelPrompt];
        match decode_key_event(key) {
            Some(action) => {
                actions.push(action);
                assert(actions@.drop_first() == seq![action]);
            },
            None => {
                assert(actions@.drop_first() == Seq::<Action>::empty());
            },
        }
        actions
    }

    /// Drops the pending sequence; when there was one, the prompt is
    /// cancelled.
    pub fn flush_pending(&mut self) -> (acts: Vec<Action>)
        ensures
            final(self).pending() is None,
            final(self).wf(),
            acts@ == if old(self).pending() is Some {
                seq![Action::CancelPrompt]
            } else {
                seq![]
            },
    {
        let pending = self.pending_escape.take();
        self.pending_since = None;
        if pending.is_some() {
            vec![Action::CancelPrompt]
        } else {
            Vec::new()
        }
    }

    /// Drops the pending sequence and its timer.
    pub fn clear_pending(&mut self)
        ensures
            final(self).pending() is None,
            final(self).wf(),
    {
        self.pending_escape = None;
        self.pending_since = None;
    }
}

/// The action a key stands for on its own, outside an escape sequence.
pub fn decode_key_event(key: KeyEvent) -> (a: Option<Action>)
    ensures
        match a {
            Some(a) => key_gives(key, a),
            None => key_text(key) is None && key_command(key) is None,
        },
{
    let modifiers = key.modifiers;
    if modifiers.bits & 8 == 8 {
        return decode_super_shortcut(key.code);
    }
    if modifiers.bits == 4 {
        return match key.code {
            KeyCode::Left => Some(Action::MoveWordLeft),
            KeyCode::Right => Some(Action::MoveWordRight),
            KeyCode::Backspace => Some(Action::DeleteWordLeft),
            KeyCode::Char('b') => Some(Action::MoveWordLeft),
            KeyCode::Char('f') => Some(Action::MoveWordRight),
            _ => None,
        };
    }
    if modifiers.bits == 2 {
        return match key.code {
            KeyCode::Char('w') | KeyCode::Char('W') => Some(Action::RequestClose),
            KeyCode::Char('q') | KeyCode::Char('Q') => Some(Action::RequestClose),
            KeyCode::Char('s') | KeyCode::Char('S') => Some(Action::Save),
            KeyCode::Char('a') => Some(Action::MoveLineStart),
            KeyCode::Char('e') => Some(Action::MoveLineEnd),
            KeyCode::Char('u') => Some(Action::DeleteLine),
            _ => None,
        };
    }
    let bits = modifiers.bits;
    assert(bits & 14 == 0 ==> (bits & 8 != 8 && bits != 4 && bits != 2)) by (bit_vector);
    if modifiers.bits & 14 == 0 {
        return match key.code {
            KeyCode::Left => Some(Action::MoveLeft),
            KeyCode::Right => Some(Action::MoveRight),
            KeyCode::Up => Some(Action::MoveUp),
            KeyCode::Down => Some(Action::MoveDown),
            KeyCode::Home => Some(Action::MoveLineStart),
            KeyCode::End => Some(Action::MoveLineEnd),
            KeyCode::Enter => Some(Action::Newline),
            KeyCode::Backspace => Some(Action::Backspace),
            KeyCode::Delete => Some(Action::Delete),
            KeyCode::Tab => {
                let mut s = String::new();
                string_push(&mut s, ' ');
                string_push(&mut s, ' ');
                string_push(&mut s, ' ');
                string_push(&mut s, ' ');
                assert(s@ == seq![' ', ' ', ' ', ' ']);
                Some(Action::Insert(s))
            },
            KeyCode::Char('y') => Some(Action::ConfirmClose),
            KeyCode::Esc => Some(Action::CancelPrompt),
            KeyCode::Char(ch) => {
                let mut s = String::new();
                string_push(&mut s, ch);
                assert(s@ == seq![ch]);
                Some(Action::Insert(s))
            },
            _ => None,
        };
    }
    None
}

/// The action of a Super shortcut.
pub fn decode_super_shortcut(code: KeyCode) -> (a: Option<Action>)
    ensures
        a == super_command(code),
{
    match code {
        KeyCode::Left => Some(Action::MoveLineStart),
        KeyCode::Right => Some(Action::MoveLineEnd),
        KeyCode::Up => Some(Action::MoveFileStart),
        KeyCode::Down => Some(Action::MoveFileEnd),
        KeyCode::Backspace => Some(Action::DeleteLine),
        KeyCode::Char('s') | KeyCode::Char('S') => Some(Action::Save),
        KeyCode::Char('w') | KeyCode::Char('W') => Some(Action::RequestClose),
        _ => None,
    }
}

/// Known escape sequence `i`, as characters.
fn known_sequence_chars(i: usize) -> (v: Vec<char>)
    requires
        i < 9,
    ensures
        v@ == known_sequence(i as int),
{
    if i == 0 {
        vec!['\u{1b}', 'b']
    } else if i == 1 {
        vec!['\u{1b}', 'f']
    } else {
        let last = if i == 2 {
            '0'
        } else if i == 3 {
            '1'
        } else if i == 4 {
            '2'
        } else if i == 5 {
            '3'
        } else if i == 6 {
            '4'
        } else if i == 7 {
            '5'
        } else {
            '6'
        };
        let v = vec!['\u{1b}', '[', '9', '5', '0', last, 'u'];
        assert(v@ == known_sequence(i as int));
        v
    }
}

/// The action of known sequence `i`.
fn known_sequence_action(i: usize) -> (a: Action)
    requires
        i < 9,
    ensures
        a == known_action(i as int),
{
    if i == 0 {
        Action::MoveWordLeft
    } else if i == 1 {
        Action::MoveWordRight
    } else if i == 2 {
        Action::Save
    } else if i == 3 {
        Action::RequestClose
    } else if i == 4 {
        Action::MoveFileStart
    } else if i == 5 {
        Action::MoveFileEnd
    } else if i == 6 {
        Action::DeleteLine
    } else if i == 7 {
        Action::MoveLineStart
    } else {
        Action::MoveLineEnd
    }
}

/// `a` begins with `p` (`equal` asks for the whole of `a`).
fn starts_with(a: &Vec<char>, p: &Vec<char>, equal: bool) -> (b: bool)
    ensures
        b == if equal {
            a@ == p@
        } else {
            p@.is_prefix_of(a@)
        },
{
    if p.len() > a.len() || (equal && p.len() != a.len()) {
        return false;
    }
    let mut i: usize = 0;
    while i < p.len()
        invariant
            p@.len() <= a@.len(),
            equal ==> p@.len() == a@.len(),
            i <= p.len(),
            forall|j: int| 0 <= j < i ==> a@[j] == p@[j],
        decreases p.len() - i,
    {
        if a[i] != p[i] {
            return false;
        }
        i = i + 1;
    }
    assert(p@.is_prefix_of(a@) ==> p@ == a@.take(p@.len() as int));
    if equal {
        assert(a@ == p@);
    }
    true
}

/// The action a complete escape sequence stands for, if it is a known one.
pub fn decode_escaped_sequence(sequence: &str) -> (a: Option<Action>)
    ensures
        a == escaped_action(sequence@),
{
    let chars = str_chars(sequence);
    let mut i: usize = 0;
    while i < 9
        invariant
            chars@ == sequence@,
            i <= 9,
            forall|j: int| 0 <= j < i ==> known_sequence(j) != sequence@,
        decreases 9 - i,
    {
        let known = known_sequence_chars(i);
        if starts_with(&known, &chars, true) {
            let a = known_sequence_action(i);
            proof {
                let k = choose|k: int| 0 <= k < known_count() && #[trigger] known_sequence(k) == sequence@;
                lemma_known_sequences_distinct(k, i as int);
            }
            return Some(a);
        }
        i = i + 1;
    }
    None
}

/// No two known sequences are equal.
proof fn lemma_known_sequences_distinct(i: int, j: int)
    requires
        0 <= i < known_count(),
        0 <= j < known_count(),
        known_sequence(i) == known_sequence(j),
    ensures
        i == j,
{
    let a = known_sequence(i);
    let b = known_sequence(j);
    assert(a.len() == b.len());
    assert(a[1] == b[1]);
    if a.len() == 7 {
        assert(a[5] == b[5]);
    }
}

/// Every known escape sequence decodes to its own action, and every piece
/// of it typed so far keeps the sequence pending.
pub proof fn law_known_sequences_decode(i: int)
    requires
        0 <= i < known_count(),
    ensures
        escaped_action(known_sequence(i)) == Some(known_action(i)),
        forall|k: int| 0 <= k <= known_sequence(i).len() ==> is_prefix_of_known(#[trigger] known_sequence(i).take(k)),
{
    assert(exists|j: int| 0 <= j < known_count() && #[trigger] known_sequence(j) == known_sequence(i));
    let j = choose|j: int| 0 <= j < known_count() && #[trigger] known_sequence(j) == known_sequence(i);
    lemma_known_sequences_distinct(i, j);
    assert forall|k: int| 0 <= k <= known_sequence(i).len() implies is_prefix_of_known(
        #[trigger] known_sequence(i).take(k),
    ) by {
        assert(known_sequence(i).take(k).is_prefix_of(known_sequence(i)));
    }
}

/// Whether `sequence` is the beginning of a known escape sequence.
pub fn is_possible_prefix(sequence: &str) -> (b: bool)
    ensures
        b == is_prefix_of_known(sequence@),
{
    let chars = str_chars(sequence);
    let mut i: usize = 0;
    while i < 9
        invariant
            chars@ == sequence@,
            i <= 9,
            forall|j: int| 0 <= j < i ==> !sequence@.is_prefix_of(#[trigger] known_sequence(j)),
        decreases 9 - i,
    {
        let known = known_sequence_chars(i);
        if starts_with(&known, &chars, false) {
            return true;
        }
        i = i + 1;
    }
    false
}

/// Adds the character of `key` to a pending sequence.
fn push_key(pending: &mut String, key: KeyEvent)
    ensures
        final(pending)@ == push_key_spec(old(pending)@, key.code),
{
    match key.code {
        KeyCode::Char(ch) => string_push(pending, ch),
        KeyCode::Backspace => string_push(pending, '\u{8}'),
        KeyCode::Esc => string_push(pending, '\u{1b}'),
        _ => {},
    }
}

/// A held key repeats: a key event of kind `Repeat` decodes exactly as the
/// same key pressed, in what it does to the pending sequence, in the
/// actions it gives and in the timer.
pub proof fn law_repeat_decodes_as_press(
    pending: Option<Seq<char>>,
    code: KeyCode,
    modifiers: KeyModifiers,
    next: Option<Seq<char>>,
    acts: Seq<Action>,
    started: Option<Instant>,
    now: Instant,
)
    ensures
        key_step(pending, (KeyEvent { code, modifiers, kind: KeyEventKind::Repeat }), next, acts)
            == key_step(pending, (KeyEvent { code, modifiers, kind: KeyEventKind::Press }), next, acts),
        timer_after(started, (KeyEvent { code, modifiers, kind: KeyEventKind::Repeat }), now, next)
            == timer_after(started, (KeyEvent { code, modifiers, kind: KeyEventKind::Press }), now, next),
{
    let r = KeyEvent { code, modifiers, kind: KeyEventKind::Repeat };
    let p = KeyEvent { code, modifiers, kind: KeyEventKind::Press };
    assert(key_text(r) == key_text(p));
    assert(key_command(r) == key_command(p));
    assert forall|a: Action| key_gives(r, a) == key_gives(p, a) by {}
    assert(key_actions(r, acts) == key_actions(p, acts));
    assert(key_actions(r, acts.drop_first()) == key_actions(p, acts.drop_first()));
}

/// The keys without modifiers, pressed or held, with no sequence pending:
/// the arrows move the cursor one step, Home and End go to the line's start
/// and end, Enter breaks the line, Backspace deletes the character before
/// the cursor and Delete the one after it, Tab inserts four spaces, `y`
/// answers the close prompt, any other character is typed, and Esc starts
/// an escape sequence.
pub proof fn law_plain_keys(
    code: KeyCode,
    kind: KeyEventKind,
    next: Option<Seq<char>>,
    acts: Seq<Action>,
)
    requires
        kind == KeyEventKind::Press || kind == KeyEventKind::Repeat,
        key_step(None, (KeyEvent { code, modifiers: KeyModifiers { bits: 0 }, kind }), next, acts),
    ensures
        code == KeyCode::Left ==> acts == seq![Action::MoveLeft],
        code == KeyCode::Right ==> acts == seq![Action::MoveRight],
        code == KeyCode::Up ==> acts == seq![Action::MoveUp],
        code == KeyCode::Down ==> acts == seq![Action::MoveDown],
        code == KeyCode::Home ==> acts == seq![Action::MoveLineStart],
        code == KeyCode::End ==> acts == seq![Action::MoveLineEnd],
        code == KeyCode::Enter ==> acts == seq![Action::Newline],
        code == KeyCode::Backspace ==> acts == seq![Action::Backspace],
        code == KeyCode::Delete ==> acts == seq![Action::Delete],
        code == KeyCode::Char('y') ==> acts == seq![Action::ConfirmClose],
        code == KeyCode::Tab ==> acts.len() == 1 && acts[0] is Insert && acts[0]->Insert_0@ == seq![
            ' ',
            ' ',
            ' ',
            ' ',
        ],
        code is Char && code->Char_0 != 'y' ==> acts.len() == 1 && acts[0] is Insert
            && acts[0]->Insert_0@ == seq![code->Char_0],
        code == KeyCode::Esc ==> acts.len() == 0 && next == Some(seq!['\u{1b}']),
        code != KeyCode::Esc ==> next is None,
{
    let b: u8 = 0;
    assert(b & 8 == 0u8 && b & 14 == 0u8) by (bit_vector)
        requires
            b == 0,
    ;
    if acts.len() == 1 {
        assert(acts == seq![acts[0]]);
    }
}

} // verus!
