//! A small terminal text editor's core: a rope-backed text buffer, soft-wrap
//! arithmetic, keyboard decoding and the editor state machine.

pub mod action;
pub mod buffer;
pub mod editor;
pub mod file_io;
pub mod input;
pub mod lines;
pub mod render;
pub mod rope;
pub mod screen;
pub mod text;

pub use action::Action;
pub use editor::Editor;
