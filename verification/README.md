# noline

A small line editor for terminals, written in Verus: the editing logic,
the input parser, the history, the terminal model and the escape sequences
it writes are verified against contracts over mathematical models.

Layout:

- `src/utf8`: a byte-by-byte UTF-8 decoder.
- `src/input`: the parser that turns terminal input bytes into actions
  (characters, control characters, escape sequences).
- `src/line_buffer`: the edited line as UTF-8 bytes, over fixed or growing
  storage, with character-wise insertion and deletion.
- `src/history`: line history in a circular byte buffer, and navigation
  through it.
- `src/terminal`: the editor's model of the screen, its cursor and how
  text positions map to screen places.
- `src/output`: the escape sequences and text that bring the screen in
  line with the editor, worked out step by step; `room.rs` proves that
  every output runs to its end on terminals with room for the text.
- `src/editor`: the prompt and the line being edited, tying the parts
  together.
- `src/testlib`: a mock terminal and test cases used by the tests.
- `tests/`: tests of each part and of whole editing sessions.
- `app/`: a terminal that talks to the editor over channels and threads.

Verify with Verus on `src/lib.rs`.
