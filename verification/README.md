# invaders

The rules and state of a space-invaders style arcade game, written in Verus
and verified.

- `src/` is the verified library: the enemy swarm (`swarm`), the shields
  (`shield`), the player's hit mask (`player`), the flying saucer (`ufo`),
  the flow of the one-life game (`game`) and of the three-life game
  (`state`), and the leaderboard (`leaderboard`). Each module states its
  contracts over spec functions and proves the game's laws as public proof
  functions.
- `app/` is the WebAssembly side: the exports the page calls, the
  floating-point world (positions, speeds, timers), drawing, reading the
  leaderboard from JSON, and the foreign calls into the page. It hands the
  library plain values and acts on what the library decides.
- `tests/` runs the library on concrete games.
