# ghost-complete

A terminal-native autocomplete engine that sits between the terminal and the
shell as a PTY proxy and draws suggestion popups with ANSI escape sequences.

The library (`src/`) is written in Verus and proved against its contracts:

- `tokenizer`, `context` — shell command lines and what the cursor is on;
- `input` — key decoding of raw stdin bytes;
- `terminal`, `vt` — terminal state driven by VT sequences (cursor, OSC 133
  prompts, OSC 7 working directory, OSC 7770 buffer reports);
- `specs`, `history`, `fuzzy`, `engine` — completion specs, shell history,
  ranking, and which sources a context asks for;
- `overlay`, `layout`, `render`, `style`, `ansi` — selection, popup placement
  and drawing, theme styles;
- `handler` — the popup's state machine: what each key does, what is drawn
  and forwarded;
- `listing` — directory entries, `$PATH` executables and git output turned
  into suggestions, and the `../` shortcut for `cd`;
- `config`, `install`, `paths`, `validate`, `cli` — defaults, the managed
  `.zshrc` blocks, directories, and the command line.

`app/` is the program around it: the command line, configuration and spec
files, the PTY, the event loop, and reading the outside sources (directories,
`$PATH`, running git) whose raw results the library turns into suggestions.
