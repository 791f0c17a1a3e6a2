# aae

The rules of a small grand-strategy simulation, verified with Verus.

- `src/battle.rs`, `src/battle/units.rs`: the tactical battle board, unit
  statistics, moves, strikes and the end of a round.
- `src/battle/round.rs`: what a round does to the board, read through the
  cells' views: one strike, one square's turn, the row-major round, and the
  draws a round may be played with.
- `src/citizen.rs`, `src/citizen/decision.rs`: citizens, their relations,
  earnings and daily decisions.
- `src/item.rs`, `src/city.rs`, `src/country.rs`, `src/region.rs`: the other
  entities and their stored forms.
- `src/game.rs`: the game clock, save files and the set-up of a new game.
- `src/utils.rs`: random draws, through `rand`.
- `app/`: the process around the library (save files on disk, the SQLite
  store, the simulation loop and the procedures the interface calls).
