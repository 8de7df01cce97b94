# barschbot

A chess engine core: positions kept both as a piece per square and as bitboards, legal move
generation from check and pin masks (with a fill-based and a table-based slider generator),
Zobrist hashing, FEN reading and writing, games with make and take-back, and the evaluation
terms of the engine. The library under `src/` is written in Verus and verified: every public
function states what it computes over mathematical models (sequences of squares, bit sets,
move lists), and the laws that tie the functions together are proved.

Layout:

- `src/board/` squares, colours, piece kinds, bitboards and their lookup tables, the piece
  board, attack maps, per-square counters, Zobrist hashes.
- `src/moves/` moves, slider generators (ray walking, Kogge-Stone fills, PEXT tables), check
  and pin masks, the legal and pseudo-legal move generators, the move iterator, the perft
  count, and the laws that the generator's king steps and castlings are exactly those that
  leave the king safe and that a move which meets every check and keeps every pin leaves the
  king safe.
- `src/game/` flags, positions, games and results, and the laws that every generated move can
  be made where the flags fit the position and that the flags still fit after it.
- `src/fen/` FEN text.
- `src/evaluation/`, `src/match_handling/`, `src/tablebase/` evaluation terms, match tallies,
  piece lists for endgame tables.
- `tests/` tests run against the compiled library.
- `app/` the command line: writes the generated lookup tables, runs perft benchmarks, draws
  boards and reports match statistics.
