# minishell

The verified core of a small interactive Unix shell.

- `src/lexer.rs` — the command-line lexer (`tokenize`), specified as a
  character-by-character state machine (`lex`, `tokenized`).
- `src/laws.rs` — properties proved of every line: words are never empty,
  blank lines are empty, plain words split on spaces, quoting and escaping,
  redirections, and the trailing newline.
- `src/builtins.rs` — the built-in commands and the text they print.
- `src/plan.rs` — what the shell does with a split line.
- `src/process.rs` — decisions around starting programs and redirecting
  their output.
- `src/text.rs` — character helpers.
- `app/main.rs` — the shell itself: terminal, files, processes and signals
  (through `nix`), driven by the library's decisions.
