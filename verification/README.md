# rimeterm

A Pac-Man game for a terminal pane, and the state behind selecting text with the
mouse, as a verified library.

- `src/maze.rs`, `src/walk.rs`: the board, walks over it and shortest distances.
- `src/rules.rs`: levels, timings, scores and chance.
- `src/model.rs`: the game as a mathematical state, and what each event does to it.
- `src/engine.rs`: the game that runs; every operation is proved to compute its
  counterpart in the model.
- `src/soundness.rs`, `src/ledger.rs`, `src/history.rs`, `src/laws.rs`: what stays
  true over every frame, and what follows for whole games.
- `src/pane.rs`, `src/screen.rs`, `src/text.rs`, `src/storage.rs`, `src/clock.rs`:
  the pane around the game: keys, frames that are due, what is on the screen, and
  the stored best score.
- `src/selection.rs`: click streaks and the highlighted range.
- `src/clipboard.rs`: the clipboard of a platform that has none.
- `app/`: the terminal front end: files, the system clock, key events and drawing.

Outside code is reached in four places only: reading and writing the stored number
(`src/storage.rs`), the room inside a border (`src/screen.rs`), and appending a
character to a string (`src/text.rs`).
