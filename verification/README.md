# snake_wasm

The rules of a Snake game, verified with Verus.

- `src/snake.rs`: the snake — its cells from head to tail, its direction and
  the queued turn — with its model `SnakeView` and the laws of moving,
  turning and growing.
- `src/game.rs`: the game — board, food, score, speed and phases — with its
  model `GameModel`, the transitions `stepped`, `ticked`, `restarted` and
  `after_command` that the methods of `Game` are proved to follow, and the
  laws that relate them. Food is drawn with `rand` behind two trusted
  wrappers.
- `app/lib.rs`: the `wasm-bindgen` front end that hands the game to a
  JavaScript host (typed arrays, the panic hook).
- `tests/`: the game's scenarios, run against the compiled library.
