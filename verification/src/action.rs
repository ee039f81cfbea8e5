use vstd::prelude::*;

verus! {

/// One editing or navigation command, as decoded from the keyboard.
#[derive(Debug, Clone, PartialEq, Eq)]
pub enum Action {
    Insert(String),
    Newline,
    Save,
    RequestClose,
    /// The `y` key: confirms closing while the close prompt shows, and is
    /// typed otherwise.
    ConfirmClose,
    CancelPrompt,
    MoveLeft,
    MoveRight,
    MoveUp,
    MoveDown,
    MoveLineStart,
    MoveLineEnd,
    MoveFileStart,
    MoveFileEnd,
    MoveWordLeft,
    MoveWordRight,
    Backspace,
    Delete,
    DeleteWordLeft,
    DeleteLine,
}

} // verus!
