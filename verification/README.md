# minilang

A lexer and parser for a small scripting language, verified with Verus,
and a command-line runner that evaluates the parsed program.

- `src/lexer.rs`, `src/lexer/tokens.rs`: source text to tokens. The lexer is
  specified as a state machine over the program's UTF-8 bytes (`spec_tokenize`);
  `tokenize_checked` and `tokenize` are proved to follow it.
- `src/parser.rs`, `src/parser/expression.rs`: tokens to statements and
  expressions, each public function proved against a spec function of the
  same shape (`spec_parse`, `spec_parse_expression`, `spec_normalize`, ...).
- `src/ast.rs`: the syntax tree, its mathematical views and verified copies.
- `src/control.rs`: how a stopping reason (`break`, `continue`, `return`)
  travels out of nested blocks, `if`s, loops and calls.
- `src/text.rs`: string comparison used by both.
- `app/`: the runner and the evaluator, which computes with `f64` values and
  so stays outside the verified library.

The `law_*` proof functions state properties that hold of every input, for
instance that every word token is non-empty, that a leading line comment
changes no token, that normalizing an expression
twice changes nothing, and that `break` never leaves the list around its loop.
