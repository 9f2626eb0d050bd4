# stellaris_save_editor

A save editor for Stellaris, verified with Verus.

- `src/` is the verified library: line splitting and joining (`lines`),
  character and number helpers (`text`), the regular expressions and their
  trusted contracts (`pattern`), the map-flag query over an Aho-Corasick
  searcher (`flags`), and the three edits (`espionage`, `archaeology`,
  `first_contact`). Each edit is specified as a line-by-line state machine
  over the save's lines; the executable code is proved to compute it.
- `app/main.rs` is the command-line program: it reads the `.sav` archive,
  asks what to edit, calls the library and writes the archive back.
- `tests/` holds the tests of the library.
