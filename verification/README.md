# unlimited_core

The core of a text editor, verified with Verus: the document buffer, the
UTF-8 codec, marks and how they move, the screen that the layout fills,
the text-mode pipeline of content filters (raw data, codec, tabs, word
wrap, character map, selection, trailing spaces, screen filler), the
editing commands, and the smaller modes (goto line, find, line numbers,
opening a document, the bars around the views, the help pop-up).
The document is held in memory as bytes and keeps no history of its
edits: undo and redo are not part of this crate.

Layout:

- `src/` — the library; its functions carry contracts that Verus proves,
  except three small trusted wrappers around the standard library and
  `unicode-width` (`char_width`, `char_from_u32`, `zero_duration`), whose
  contracts are believed. `buffer.rs`, `codec.rs`, `mark.rs`, `config.rs`; `screen/`
  (the screen and its lines); `view/` (layout environment and pipeline
  elements, and where the children of a view are placed); `text_mode/` (filters, movement, editing, scrolling, next-line
  passes); `modes/` (goto line, find, line numbers, open document, bars,
  help, the vertical split bar).
- `tests/` — tests of the library on concrete values.
- `app/` — the command line around the library: arguments, configuration
  variables, loading files.

Work that needs the whole editor (laying a view out again, scrolling,
running the actions a command left) is split: the library decides, from
the state and the result of the last pass, what comes next, and a caller
that runs the layout passes is expected to drive it. The editor loop,
the views and the user interface are not part of this crate; `app/` only
parses the command line and loads the files.
