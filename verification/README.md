# portman

An interactive view of the TCP ports listening on a development machine:
which process holds each port, its project, framework, language and start
command, with filters by language, search, and killing the process.

## Layout

- `src/` — the verified library.
  - `text.rs`: strings as character sequences; whitespace, trimming, lines,
    words, substring search, decimal numbers.
  - `scanner.rs`: reading the output of `lsof` and `ps`, the process chain
    behind a port, the assembled port records, the kill report.
  - `detect.rs`: framework and language detection, project names, command
    cleaning, `package.json` scripts and package managers.
  - `app.rs`: the list's state machine: tabs, filtering, search, selection
    and scrolling, actions, confirmation, toasts, background-scan results.
  - `event.rs`: what each key does in each mode.
  - `ui.rs`: column padding, truncation, language colours.
  - `laws.rs`: properties that span operations.
- `app/` — the program: command line, running `lsof`/`ps`, probing working
  directories, sending signals, the terminal loop and drawing.
- `tests/` — tests of the library.
