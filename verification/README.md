# ghostxt

The core of a small terminal text editor, written in Verus and verified.

- `src/lines.rs` — how text divides into lines (LF, CRLF, CR and the Unicode
  breaks), with the lemmas about line starts.
- `src/rope.rs` — the `ropey` rope the buffer keeps its text in, each call
  with the contract its source shows.
- `src/buffer.rs` — the text buffer: loading text with CRLF line endings,
  editing, word boundaries, line queries, serializing.
- `src/render.rs` — display widths (`unicode-width`), soft wrap and the
  visual rows of a buffer.
- `src/editor.rs` — the editor state and how each action changes it.
- `src/input.rs` — key events and escape sequences to actions.
- `src/screen.rs` — what one frame of the terminal shows.
- `src/file_io.rs` — loading file contents, and the name shown for a file.
- `app/main.rs` — the terminal program: files, the event loop, drawing.

Saving is split: `Editor::apply` answers `Step::Save`, the program writes
`serialized_text()` to the file, then calls `Editor::finish_save`.

The `y` key answers the close prompt while it shows and is typed as text
otherwise.  Word moves skip whitespace, then a word or a run of
punctuation, so they always move when they can.  A cursor at a soft-wrap
point shows at the start of the next row, and vertical moves land inside
the row they aim at.
