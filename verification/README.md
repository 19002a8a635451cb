# amine — 3D Möbius Minesweeper, verified

Minesweeper on a `W × H × D` grid whose X axis is glued into a Möbius
strip: stepping off either end of X lands on the other end with Y and Z
mirrored, while Y and Z stay bounded. Every cell has up to 26 neighbours.

The library in `src/` is written in Verus; each public function carries a
contract that Verus proves.

- `topology` — coordinates, linear indices, the Möbius neighbourhood.
- `board` — configurations and their limits, mine placement that keeps the
  first click and its neighbourhood free, reveal with flood fill, chord,
  flags, win and loss, and the board invariant they all keep.
- `solver`, `elim`, `tank`, `frontier`, `decide` — the AI players: sound
  single-constraint and subset deductions, exact integer Gaussian
  elimination, exact model counting on connected components, and the four
  tiers' choice of move (`AiSolver::decide_action`).
- `room`, `lobby`, `dispatch`, `bots`, `account`, `client_view` — the
  multiplayer game: rooms, scoring and the end of a game, the server's
  room directory and handling of client messages, bot decisions, login
  sessions and account rules, and a client's view of its room.
- `session`, `view` — single-player moves as the command-line tool reports
  them, and the character picture of a board.
- `tui` — the terminal front end's key handling: cursor and layers, moves,
  the custom-board form, hints and bot moves, and what the terminal must do.
- `i18n`, `protocol`, `text` — interface texts in English and Chinese,
  wire types, and string helpers.
- `chance` — the calls into `rand`, `uuid` and `chrono`, with what is
  assumed of them.

`app/` is the command-line program (`init`, `step`, `view`, `solve-step`,
`benchmark`, `play`, and `tui`, a line-mode terminal game) around the library: argument parsing, the JSON state
file and printing. `tests/` exercises the library.
