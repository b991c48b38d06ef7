# xconsoler

A long-bar keyboard launcher for the terminal: type an alias and some input,
press Enter, and the mapped command runs; runs that work are remembered.

## Layout

- `src/` is the library, written in Verus. Every function carries a
  `requires` / `ensures` contract over plain mathematical models (`Seq`,
  `Map`, `int`) and is proved against it:
  - `alias`, `shortcuts`, `storage`, `history`: the alias table, shortcut
    tables kept in key order, the persisted store and its run history;
  - `colon`, `exec`, `run`: `:` commands, command planning (placeholders,
    platform fallback, shell quoting) and what a finished run records;
  - `matcher`, `fuzzy`: the candidate list (recent history first, then
    shortcuts ranked by fuzzy score);
  - `app`, `state`, `action`, `textedit`, `escguard`: the bar's state machine
    and line editing;
  - `settings`, `settings_form`, `settings_apply`: the `/settings` page and
    its wizards;
  - `keyspec`, `cli`, `fit`, `fit_tmux`, `layout`, `bookmarks`, `launch`:
    key specs, argument parsing, window fitting, screen layout text, bookmark
    import, desktop entries and matching an application by name (with pinyin
    initials read from a reading table the caller supplies).
- Calls into outside crates (`base64`, `unicode-width`, `serde_json`) sit
  behind small trusted wrappers whose doc comments say what is assumed.
- `app/` is the program around the library: terminal I/O, drawing with
  ratatui, the clipboard, spawning commands and reading and writing files.
- `tests/` runs the library on concrete inputs.

Laws that span several functions are stated as public proof functions, for
example `keyspec::lemma_parse_then_describe`, `storage::lemma_b64_roundtrip`,
`matcher::lemma_ranked_is_stable` and `bookmarks::lemma_import_is_rerunnable`.
