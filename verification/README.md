# stytsch

Persistent, searchable command history for Windows `cmd.exe` (through a
Clink plugin): every command is recorded with its exit code, duration and
working directory in a SQLite database, and Up Arrow / Ctrl+R open a fuzzy
search over it (fzf, or a built-in picker).

## Layout

- `src/` — the verified library. Each public function carries a contract
  that Verus proves:
  - `text` — whitespace, trimming, line splitting, decimal rendering;
  - `schema` — history entries and search filters;
  - `config` — settings, their defaults, and where the files live;
  - `query` — the SQL text and parameters of a search;
  - `store` — retrying busy writes and how much to prune;
  - `fzf` — the list handed to fzf and the reading of its answer;
  - `order` — stable sorting by a descending key;
  - `ranking` — fuzzy ranking of entries and highlighting of matches;
  - `picker` — the built-in picker as a state machine;
  - `stats` — the most used programs;
  - `record` — turning a finished command into an entry;
  - `listing` — the `history list` rows.
- `app/` — the command-line program: argument parsing, the SQLite
  database, the config file, running fzf and drawing the picker.
- `tests/` — tests of the library.
