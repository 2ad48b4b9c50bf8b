# fretwire

Editor logic for Line 6 HX-family pedals (HX Stomp, HX Stomp XL, Helix Floor, POD Go), written in
Verus. The functions in `src/` carry contracts that Verus proves, except the few marked
`#[verifier::external_body]`: thin wrappers over `String::push`, `Path::parent` and `serde_json`
(parsing and writing JSON text), whose contracts are trusted and say what those calls do.

- `src/` — the library. What the editor decides, as functions from plain values to plain values:
  planning block moves on a DSP's slot grid and the guard that keeps a move off an occupied slot
  (`grid`, `routing`); the undo/redo timeline (`history`); the paced preset write and the
  paginated stream read (`stream`, `wire`); backup files and their JSON form (`backup`,
  `backup_json`, `json`, `json_text`); the model picker and the reference catalog (`picker`, `catalog`,
  `editor`); importing reference data and the update check (`import`, `update`); routing a front-end command
  by name to the arguments it reads (`route`); hex, text and the front end's shapes (`hex`,
  `text`, `dto`, `cli`, `error`).
- `tests/` — tests run against the compiled library.
- `app/` — the command-line program around the library: arguments, files, processes and the one
  network request of the update check.

The library moves no bytes itself: the program performs the I/O and hands the library what it
read, and the library says what to send or write next.
