# tetris_engine

A TETR.IO-style Tetris engine core, written in Verus. The library in `src/`
is verified against its contracts, except for the few small functions in
`rng.rs` that call the `rand` crate: their contracts are trusted.

Layout of `src/`:

- `constants`, `piece`, `rotation`, `board` — board geometry, the seven
  shapes, their rotation states and SRS+/180 kick tables, collision checks.
- `engine` — the game state: bag queue (whole shuffled bags), spawning with
  clutch, hold, queue snapshots, bag remainder counts, end of turn.
- `garbage` — incoming garbage queue, cancellation, timers, landing garbage.
- `scoring` — clear classification, back-to-back and surge, combo attack.
- `bfs` — breadth-first search of the resting placements a piece can reach,
  proved sound and complete against a specification of the moves.
- `grouping`, `ordering`, `record` — merging search results with the same
  outcome, listing order, and the field form of placement records.
- `parity` — rebuilding an engine from a recorded state.
- `runtime` — the gravity and lock-delay decisions of a game running in
  real time.
- `rng` — the engine's random source, over `rand`'s `StdRng`.

`app/` holds the JSON side (serde copies of the value types, the fixture
format, canonical JSON), which Verus does not see.
