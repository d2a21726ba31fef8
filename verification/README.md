# shell

The logic of a small interactive Unix shell, verified with Verus.

- `src/parser.rs`: splitting a command line into words (quotes, backslashes,
  blanks) and a pipeline line into commands.
- `src/streams.rs`: taking `>`, `1>` and `2>` redirections out of a command.
- `src/pipeline.rs`: builtins, command lookup in `PATH`, what a command or a
  side of a pipeline does, and how a pipeline runs.
- `src/autocomplete.rs`, `src/order.rs`: completion of command names, sorted
  in the byte order of `String`.
- `src/shell.rs`, `src/number.rs`: the interactive shell's builtins
  (`exit`, `echo`, `type`, `pwd`, `cd`, `history`), number reading and writing,
  and history files.
- `src/text.rs`: string helpers.

`app/` holds the program: the line editor (rustyline), the file system,
processes and pipes (nix).
