# bedterm_core

The terminal core of BedTerm, an iOS terminal for SSH sessions, written in
Verus: every function under `src/` is verified, against the contract it states.

## Layout

- `src/dcs.rs`, `src/osc133.rs` — shell-integration frames: the `ESC P $ d`
  hex-JSON hooks (prompt, command, exit status) and OSC 133 marks, as a
  stateless scanner and as sinks driven by a VT parser's callbacks.
- `src/frames.rs` — building those frames (the mock SSH server's canned
  transcript), with laws that every frame scans back to its event.
- `src/blocks.rs`, `src/routing.rs` — the command-block state machine and its
  invariants, and how a chunk of output is split around the frames in it.
- `src/block_grid.rs`, `src/snapshot.rs`, `src/palette.rs` — grid cells as
  the emulator leaves them, block bodies, viewport and range snapshots, and
  colour resolution.
- `src/mock_tty/` — the mock TTY: line discipline, the echo shell, a small
  vi, a raw sink and asciinema cast replay.
- `src/toaster.rs`, `src/icons.rs`, `src/glyphs.rs`, `src/presets.rs`,
  `src/render_cli.rs`, `src/record_cli.rs`, `src/text.rs`,
  `src/text_input.rs` — toast kinds, block-header badges, glyph keys and
  texel conversion, palette and device presets, command-line parsing, and
  text helpers.
- `app/` — host glue Verus does not see: the emulator driving a block's
  grid, VT-parser callbacks, serde decoding, the mock TTY's C ABI, and the
  parts that compute in floating point or touch the file system.
- `tests/` — scenario tests run against the compiled library with the real
  outside crates linked.
