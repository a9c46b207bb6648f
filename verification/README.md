# timeloop

The rules of a small time-loop puzzle game, with machine-checked proofs.

A loop lasts 720 ticks. The player moves through a level; when the loop ends
(or the player asks for it) the clock rewinds, every earlier run replays as a
ghost, and a new player joins. Ghosts standing on buttons open doors and fire
teleporters; bulbs carried to the machine fill its six slots and win the level.

- `src/` is the verified library: tiles and keys (`geometry`, `input`), ghost
  recordings (`ghost`), who stands where (`spatial`), doors, teleporters,
  bulbs and the machine (`mechanisms`), buttons (`button`), levels (`level`)
  and their text form (`level_text`),
  one update of the game (`game`) and the laws proved of them (`laws`).
  Positions inside a tile are a type parameter: everything decided on tiles,
  ticks and flags is here.
- `app/` runs the game headless: floating-point movement, distances, timers
  and animation, the sprites of each frame, and the sounds asked for.
- `tests/` exercises the library on concrete levels.
