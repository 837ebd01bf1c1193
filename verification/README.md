# fairyquery

The front end of a small SQL database, verified with Verus: a lexer that
turns SQL text into tokens, a parser for `SELECT` statements with a Pratt
parser for expressions with operator precedence, and the input history and
line handling of the interactive shell.

Layout of `src/`:

- `text.rs`: character classes (`White_Space`, ASCII letters and digits),
  lower case and `trim`.
- `error.rs`: the error type and its text.
- `token.rs`: tokens, keywords, their text and keyword lookup.
- `lexer.rs`: what the lexer reads, stated over the input characters
  (`lex_next`, `lex_all`), the lexer itself and its laws (quoted text reads
  back, keyword and symbol texts read back and print as read, words read
  alike in any case, white space is skipped and only separates tokens,
  errors repeat).
- `ast.rs`: the syntax tree and its models `ExprView` and `SelectView`.
- `operator.rs`: prefix, infix and postfix operators with precedence and
  associativity.
- `parser.rs`: the grammar stated over the input (`parse_expression_at`,
  `parse_atom_at`, `select_at`, `parse_at`, ...), the parser, and the
  precedence law.
- `history.rs`, `command.rs`, `shell.rs`: the shell's input history, meta
  commands and what it does with a line.

`app/main.rs` is the shell's read loop. A floating-point literal is held as
its decimal text (`NaN` and `inf` included); `str::parse::<f64>` reads its
value.
