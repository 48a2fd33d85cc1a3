# panty

Stocks gVim instances in the background and summons one of them, already
started, when a file is to be edited.

- `src/` is the library, verified with Verus: the parser of instance
  conditions, the `gvim` command lines (`--remote*`, `--echo-wid`, window id
  queries), the reading of what gVim prints, the choice of fresh server names,
  the first-in-first-out stock with its renewal and cleaning, and the
  decisions of the summon, edit, broadcast and collector commands.
- `app/` is the program around it: argument parsing, processes, the X11
  calls, the Unix socket and its JSON requests, file watching and signals.
- `tests/` runs the library on concrete values.
