# gravlib

A small schema language of typed variables and relationships — its lexer,
parser, type checker, evaluator and printer — with every function proved
against its contract by Verus.

Layout:

- `src/` — the verified library.
  - `parse/lexer.rs`, `parse/grammar.rs`, `parse/ast.rs`: the words and the
    grammar of schemas, stated as spec functions; the parsers are proved to
    compute them.
  - `parse/typecheck.rs`: the type rules, and record definitions and insertions.
  - `parse/arith.rs`, `parse/eval.rs`: checked integer arithmetic and the
    evaluation of schemas into a state of values.
  - `parse/session.rs`: what each command of the interactive shell does to a state.
  - `parse/soundness.rs`: checked schemas evaluate to values of their declared types.
  - `parse/roundtrip.rs`: the text a state is written as parses back to it.
  - `lib.rs`: printing schemas, and framing compiled databases.
- `app/` — the `gravity` program: files, the command line, serialisation,
  the interactive shell, and decimal (floating-point) arithmetic.
- `tests/` — tests of the library on concrete values.

Decimals are IEEE-754 doubles. The library holds them by their bits and
takes their arithmetic, reading and printing as functions from its caller.
