# rsush settings, verified

The settings of a single Unix shell, written in Verus and proved correct
against their contracts:

- `src/settings.rs`: the shell flags, the option parser of `set` and of the
  command line (`Settings::parse_options`), the option string `$-`, and the
  stack of positional parameters; with the laws that relate them.
- `src/args.rs`: the positional parameters.
- `src/io.rs`, `src/lexer.rs`, `src/parser.rs`: the input reader, and the
  lexer and parser of arithmetic expressions.
- `src/signals.rs`: which disposition the shell gives a signal, and which
  signal numbers have flags.
- `src/wait_status.rs`: the exit code a shell reports for a wait status.
- `src/builtins.rs`: the status that the `exit` test built-in reads from its
  arguments.
- `app/`: what talks to the system: `sigaction`, the signal flags that the
  handler sets, files and processes for tests, and printable copies of the
  option types.
