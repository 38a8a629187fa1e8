# wasm_games

Rules engines for a handful of browser games, written in Verus and verified against
their specifications.

- `src/chess`: chess rules on an 8x8 board (piece patterns, check, mate, stalemate),
  material evaluation, a fail-soft alpha-beta search proved against plain minimax, and
  an engine whose positions keep one king per side.
- `src/janggi`: the same for janggi on a 10x9 board (palace, cannon screens, horse and
  elephant blocks).
- `src/chess2`: a chess game that delegates the rules to the shakmaty crate.  The game is
  kept as the moves played from the starting position (each as its index among the legal
  moves); each call into shakmaty is a trusted wrapper whose result is named as a function
  of that list, and the engine's contracts state its results exactly in terms of those
  names.
- `src/game2048`: 2048 with an exact model of a push, the new tile placed by a random
  draw handed in as an integer, and an engine whose score provably never overflows.
- `src/minesweeper`: mine laying from random draws, neighbour counts, and an opening
  proved to reveal exactly the cells reachable through cells without neighbouring mines.
- `src/racing`: the race track and the tile lookup by grid coordinates.

`app/` exposes the games to JavaScript through wasm-bindgen, draws the random numbers,
serialises states to JSON, and holds the parts that are floating-point physics (the car
of the racing game and the claw machine).
