# stratego

Rules and game state of a two-player Stratego table played on one screen
(hot seat), with every rule stated as a contract and proved with Verus.

- `src/game/piece.rs`: sides, ranks (strength, quota, mobility), pieces.
- `src/game/board.rs`: the 10x10 board with its eight lakes, home rows,
  neighbours.
- `src/game/count.rs`: counting pieces of one side and rank on a board.
- `src/game/rules.rs`: movement (Scout runs included), combat, stalemate
  detection, setup placement and quotas.
- `src/game/state.rs`: the game state machine: blind setup, turns, the
  handoff that waits for confirmation and can be taken back, captured
  pieces, the last move, the back-and-forth rule, per-viewer board views.
- `src/game/laws.rs`: properties that span several operations.
- `src/game/random.rs`: the random number generator used by the random setup.
- `src/cursor.rs`: where the pointer lands when control changes hands.
- `app/`: the Tauri window and commands, the cursor jump, and serializable
  copies of the library's types.
