# meatshell

The logic of a terminal and SSH session manager as a verified library: terminal buffers with
scrollback, reflow, selection and search; key encoding; colours; session records, groups and
imports; the command bar; the sidebar; and what each event of a session changes on screen.

Every function of the library states in its contract what it returns or changes, and Verus proves
it. The `law_*` proof functions state what holds across functions, such as that a stream may be cut
anywhere between two reads, or that a theme switch changes nothing but colours.

## Layout

- `src/` is the library.
  - `vt`, `line`, `grid`, `feed`, `term`, `buffer`: the terminal, from the emulator's cells to what a
    tab shows. `term` is the mathematical model, `buffer` the code that keeps to it.
  - `keys`, `palette`, `fonts`, `window`: keyboard, colours, fonts and window.
  - `session`, `dialog`, `import`, `groups`, `quick`, `addr`, `order`, `version`: saved sessions and
    what is shown of them.
  - `events`, `ui`, `apply`, `tabs`, `panel`, `sidebar`: open tabs and the events that change them.
  - `text`: the vocabulary of characters that the others are stated in.
- `tests/` runs the library on concrete values.
- `app/` is the application around the library: input and output, threads, and floating point.

## What is taken on trust

Calls into `vt100`, `unicode-width`, `uuid`, `serde_json`, `fontdb` and two functions of the
standard library stand behind wrappers whose contracts are believed, not proved. Each says in its
doc comment what it claims.
