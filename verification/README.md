# coder

The editing core of a terminal code editor, written in Verus. The executable
functions in `src/` carry `requires`/`ensures` contracts that Verus proves;
the calls into other crates go through small trusted items (functions marked
`#[verifier::external_body]` and declared outside types), whose contracts are
believed, not proved.

- `buffer` — the rope-backed text buffer: cursor, selection, editing, line
  moves and re-indentation, undo/redo, dirty tracking, UTF-16 columns.
- `paste` — re-indenting pasted text, and pretty-printing pasted JSON blobs;
  what `serde_json` makes of a text is named, not proved.
- `keys`, `keymap` — key events and what a key press does in each focus.
- `keybindings` — the remappable shortcuts: chords, their text form, and the
  shortcuts file (read and written through `toml`).
- `config` — the settings file: reading and writing it through `toml`, and
  saving over an existing file: the config's entries, and the file's entries
  for every key the config lacks.
- `ui`, `files`, `mouse`, `status`, `panel`, `icons` — screen layout (the
  splits are `ratatui`'s), scrollbars, hit-testing, the status bar, the file
  tree and its icons.
- `chars`, `text`, `rope`, `clock` — character and string helpers, the line
  model of a text, and the trusted calls into `std`, `ropey` and `std::time`.

Laws that span several functions are public proof functions named `law_*`.
Where they concern a file, they speak of the parser's reading of what was
written: that `toml` reads back what it wrote is not stated.

`tests/` exercises the library on concrete values; `app/` holds the file and
environment access (config paths, atomic writes) and the conversions from
`crossterm` and to `ratatui` types.
