# giff

A terminal UI for git diffs: side by side or unified, with syntax highlighting,
a file list or tree, the log, interactive acceptance of changes, sync and
generated commit messages.

## Layout

- `src/` is the library, verified with Verus. It holds all that the program
  decides: what git is asked and how its answers are read (`diff`), the
  configuration (`config`), commit messages (`commit`), and the screen (`ui`):
  its state, what keys and the mouse do to it, and what is drawn.
- `app/` is the program around it: the terminal, the calls of git, the
  configuration file and the file watcher.
- `tests/` are the tests of the library.

The library does no I/O of its own; only `syntect`, asked for the syntax of a
file, may look at its first line. Work that takes several calls of git is a
sequence of steps: the library says which command to run, the program runs it and hands the
output back. In the same way the screen answers a key with a task.

Whatever stands behind an outside crate (`regex`, `unicode-width`, `syntect`,
`two-face`, `ratatui`'s layout) is called through small functions whose
contracts are trusted. Each says what it claims of the function that it calls.

## Commit messages

The program named by `GIFF_COMMIT_PROGRAM` is called with a prompt and gets the
diff on its standard input. What it prints becomes the commit message.
