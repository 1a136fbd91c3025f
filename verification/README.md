# rdn

A two-panel text-mode file manager in the manner of Dos Navigator.

- `src/` is the library, written in Verus: panels and sorting, the file
  viewer and editor (with undo and redo, the search, replace, save-as
  and go-to-line prompts, and macro recording and playback), the directory tree, archive and
  table (DBF/CSV) browsers, file search, the pull-down and user menus,
  settings and colour themes, bookmarks and histories, uuencode and
  Base64, file splitting, the Tetris game, the key bindings of the panels
  and the editor, the dialog boxes, the environment list and the
  directory walk of file search. Every public function carries a
  contract that Verus proves.
- `app/` is the terminal program around it: reading and writing files,
  drawing with ratatui and reading keys with crossterm. It asks the
  library what a key means and what a dialog does with it, and hands it
  what it read from disk.
- `tests/` runs the library on concrete values.
