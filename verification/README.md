# avt

A virtual terminal: an ANSI escape-sequence parser driving a grid of
character cells with primary and alternate screen buffers, verified with
Verus.

- `src/` is the library. Every function in it carries a contract that
  Verus proves: the parser (`parser.rs`) as a state machine, the
  buffers and lines (`buffer.rs`, `line.rs`), the terminal's functions
  (`terminal.rs`), dumps of functions and of whole terminals (`dump.rs`,
  `terminal_dump.rs`), the front end (`vt.rs`, `util.rs`) and the sixel
  image decoder (`sixel.rs`). Proof modules state what holds across calls:
  a parser's dump resumes it (`resume.rs`), the parser reads a dump of
  functions back (`reparse.rs`), SGR changes rebuild pens
  (`pen_restore.rs`) and come one per changed part (`sgr_shape.rs`), a
  dumped run of cells in one pen is drawn back when executed
  (`replay.rs`), and the checks of a terminal's shape hold in every state
  (`sanity.rs`).
- `tests/` runs the library on concrete inputs.
- `app/` holds what stays outside the proofs: serializable copies of the
  library's types, conversions to the `rgb` crate's colors, and the
  floating-point HLS color conversion that the sixel decoder is given.
