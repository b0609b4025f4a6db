# rust_calculator

An arithmetic calculator (`+ - * / % ^`, parentheses, unary minus and plus,
decimals, standard precedence with right-associative `^`) whose front half is
verified with Verus.

- `src/lexer.rs` — splitting input characters into tokens; numbers are kept as
  spans of decimal text; white space only separates tokens.
- `src/parser.rs` — the recursive-descent parser, compiling tokens into a
  postfix stack program that performs the arithmetic in evaluation order and
  records the syntax error, if any, that stops it.
- `src/calculator.rs` — `compile`, the error type and its messages.
- `src/program.rs` — every compiled program is safe to run on a stack.
- `src/grammar.rs` — precedence and associativity, stated over expression trees,
  and why parenthesising a complete expression keeps its program.
- `src/keypad.rs` — the keypad state of the windowed front end.
- `src/repl.rs` — what the command-line loop does with each line.
- `src/text.rs` — contracts of the standard-library text operations used.
- `app/` — the command line and, run under the name `gui`, the `egui` window; the `f64` arithmetic that
  runs compiled programs lives here.
