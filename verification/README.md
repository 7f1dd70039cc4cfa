# zrun

A TUI shell-script launcher. The library in `src/` holds its logic, verified
with Verus; `app/` is the program around it (command line, files, terminal).

- `src/text.rs` — characters of strings, trimming, splitting, lines, order.
- `src/fuzzy.rs` — fuzzy scoring, match positions and ranking.
- `src/scripts.rs` — script header parsing, discovery with shadowing, lookup, tags.
- `src/history.rs` — recording runs, newest-first order and relative times.
- `src/config.rs` — search path and settings.
- `src/shell.rs` — shell syntax highlighting of the preview's lines.
- `src/app.rs` — the picker's state, its key handling, the preview window
  and the footer's key hints.
- `src/cli.rs` — the command line as plain values and what it asks for.
- `app/` — `main`, clap arguments, config/history files, directory scans,
  drawing with ratatui and the crossterm event loop.
