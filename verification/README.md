# coder

A VSCode-like code editor for the terminal, built around a verified core.

- `src/` is the library, written in Verus and proved: the text buffer
  (cursor, selection, undo/redo), the key map, the workbench state machine
  (`Workbench::update` takes an event and returns the commands to run), tabs
  and dialogs, find/replace, the workspace search of one file's text, the git
  change gutter and panel, session snapshots with diff hunks and their
  restore, syntax highlighting on top of syntect, language-server
  diagnostics under the cursor, whitespace formatting on save, and
  preferences. `tab_laws.rs` holds laws that span several operations.
- `app/` is the program around it: terminal setup, input, drawing with
  ratatui, and running the commands (files, git, the shell, the clipboard,
  the config and session files).
- `tests/` exercises the library on concrete values.
