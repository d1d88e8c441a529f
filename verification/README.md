# pordle

A Persian Wordle game: guess a five-letter Persian word in six tries. Green marks a
letter in the right place, yellow a letter of the word in another place, dark grey a
letter that is not in the word. In daily mode every player gets the word picked by the
date and the day's result is saved; practice mode serves random words.

The library under `src/` is written in Verus and verified:

- `persian` — folding Arabic letter variants onto their Persian forms, and which
  characters are Persian letters.
- `game::state` — the game: scoring a guess (`evaluate_guess`), typing, erasing and
  submitting rows, the colours of the on-screen keyboard, and replaying saved guesses.
  The state is described by `GameModel`; every operation keeps `GameModel::wf`.
- `game::laws` — properties of the game proved over the model: the meaning of the
  colours, repeated letters, backspace, the six tries, replaying a saved game, and the
  keyboard colours.
- `db` — the word list and the statistics kept in SQLite (through `rusqlite`): reading
  word lists, cleaning and checking words, the word of the day, the statistics and the
  saved daily results (guesses kept as JSON through `serde_json`).
- `ui` — the decisions of the game window: picking the answer, resuming the daily game,
  answering key presses, and the shared result.
- `text`, `json`, `sql` — character helpers, and the calls into `serde_json` and
  `rusqlite`, each with the contract it is trusted to meet.

`app/` is the program around the library: the command line, the database location,
the clock, filling an empty word list (its steps decided by `db::next_seed_action`, the
default list and the style sheet compiled in from `data/words.txt` and
`data/pordle.css`), and the GTK/libadwaita window.
