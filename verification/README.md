# gomoku

A Gomoku server with Pente-style rules: five in a row wins, a pair of
opponent stones bracketed by a move is captured, five captured pairs win,
a five that the opponent can still break by a capture must survive one
turn, and a player may not walk into a capture or make two free threes at
once.

Layout:

- `src/` is the verified library.
  - `shared/` — the board (`Vec<Vec<Option<Player>>>`) and its model as a
    sequence of rows, errors, settings.
  - `game/capture.rs` — finding the pair a move captures.
  - `game/win.rs` — wins by five (flanked or not) and by captures.
  - `game/state/` — the game state: evaluating, committing and undoing
    moves, the capture tally, the forbidden cells of the next turn.
  - `game/session.rs` — one game with its room and mode.
  - `game/matchmaker.rs` — pairing players and tracking their matches.
  - `game/room.rs` — room ids.
  - `bridge.rs` — the payload sent to, and the answer read from, the
    Python AI.
  - `events/` — what is told to the players.
- `app/` is the server around it: the socket.io handlers, the Python AI
  process, command-line settings and logging.
- `tests/` runs the library on concrete games.
