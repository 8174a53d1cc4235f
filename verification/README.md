# cosmic_clip_keep

A clipboard keeper for the COSMIC desktop: it records what is copied, keeps
a searchable history with pins, and puts an entry back on the clipboard (and
pastes it) on request. The library holds the logic, each function proved
with Verus against its contract; the program around it does the I/O.

## Layout

- `src/clip/` — the history service: MIME choice (`mime`), privacy policy
  (`privacy`), hashing and previews (`dedup`), settings, search,
  thumbnails, the history itself (`db`), the decisions of the capture loop
  (`runtime`) and the Wayland-facing parts that compute (`wayland`: socket
  candidates, pipe pumps, paste shortcuts, window focus).
- `src/applet/` — the popup: key handling (`keys`), what it shows and where
  the focus is (`mod.rs`), its messages and state machine (`message`,
  `shell`), the thumbnail cache (`thumbs`) and the words its pages show
  (`view`).
- `src/control.rs` — the one-byte protocol the global shortcut speaks with
  running applets; `src/shortcut.rs` — the shortcut's command line and
  registration outcome.
- `src/text.rs` — character-level helpers and their specifications.
- `tests/` — tests of the library on concrete values.
- `app/` — the program: the capture event loop, the Wayland bindings, the
  SQLite store the history is kept in, the virtual keyboard and the
  shortcut client.

Laws that span several functions are public proof functions next to the
functions they speak of (for example `clip::db::pins_sit_above_the_rest`
or `applet::shell::every_message_keeps_the_surfaces_held`).
