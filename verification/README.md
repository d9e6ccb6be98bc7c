# interpreter

A tree-walking interpreter for the Lox language, verified with Verus.

- `src/scanner.rs` turns source text into tokens; `scan_spec` says what the
  tokens and the errors of a text are.
- `src/parser/` parses tokens by recursive descent; `parser/grammar.rs` is the
  grammar as spec functions, and `parse` is proved to give what the grammar
  gives.
- `src/evaluator/` runs statements; `evaluator/semantics.rs` is a reference
  semantics, and every evaluation step is proved to agree with it. Numbers are
  the host's (the `Host` trait): the library never computes with floats. Each
  request to the host (read this literal, add these two numbers, write this
  number) is recorded with its answer, and the semantics says which request
  each step makes.
- `src/printers.rs` writes expressions in prefix and postfix form.
- `src/error_utils.rs` and the error types render reports that point into the
  source.
- `src/lib.rs` ties the stages together in `run`.
- `app/main.rs` is the command-line program: a file runner and a prompt, with
  `f64` numbers.
