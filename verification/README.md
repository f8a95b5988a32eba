# evp

evp runs VHS-style `.tape` scripts against a terminal and turns what the
terminal showed into animated GIFs, SVGs and JSON recordings. This crate is
its library, written in Verus: every function under `src/` carries a
contract that Verus checks.

## Layout

- `src/script/` — the tape language: syntax tree, line parser, error
  messages, the writer that turns recorded events back into a tape, the
  proof that a written tape (output, settings, typed text, key presses
  and pauses) reads back as the script it describes, and the check that
  refuses a `Source` cycle.
- `src/recording.rs` — screen snapshots, the diff-compressed recording and
  its reconstruction (proved to give back every frame that was pushed).
- `src/svg.rs` — cell and cursor spans over time, background rectangles
  (sorted and merged), window-bar dots, colour classes.
- `src/raster.rs`, `src/render.rs` — pixel-buffer painting, redraw plans,
  GIF frame timing, palette quantisation and frame replay.
- `src/record.rs` — decisions of an interactive recording session: typed
  text, mouse segments, the status header and the live preview.
- `src/style.rs`, `src/render_common.rs` — colours, themes, frame style and
  the viewport layout.
- `src/pty.rs`, `src/osc.rs`, `src/gif.rs`, `src/units.rs`, `src/cli.rs`,
  `src/runner.rs`, `src/telemetry.rs`, `src/rng.rs` — shell command
  resolution, OSC 22 pointer shapes, GIF frame delays, byte sizes, output
  kinds, the runner's timeline and its event, wait and frame decisions, timings and the
  stress-test screens;
  `src/mouse_canvas.rs` — the helper program's mouse test screen.
- `src/keys.rs` — what a key press asks of the terminal's key encoder.
- `src/font.rs` — font embedding policy and the choice of face per style
  and character; `src/xtask.rs` — the developer task runner's options and
  where it finds the release binaries.
- `app/` — the command-line program: file I/O, the JSON form of recordings,
  and what depends on floating-point arithmetic (the SVG text layout and
  the human-readable file sizes).
- `tests/` — tests of the library.
