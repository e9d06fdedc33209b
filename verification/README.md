# mathex

A lexer and parser for MathEX arithmetic expressions, verified with Verus, and the C
interface of the MathEX engine around them.

- `src/text.rs` — the character classes the lexer takes from std (`char::is_alphabetic`,
  `char::is_alphanumeric`) and `String::push`, as trusted wrappers.
- `src/lexer.rs` — tokens and the lexer. `lex` states what the tokens of a text are;
  `Lexer::tokenize` is proved to compute it, or the exact error message.
- `src/ast.rs` — the syntax tree.
- `src/grammar.rs` — the grammar as spec functions over tokens and a parser state (position
  and known functions).
- `src/parser.rs` — the recursive-descent parser, proved to follow the grammar.
- `src/ffi.rs` — the byte scanner behind the C function `expr_next_token`.
- `src/lexer_laws.rs`, `src/parser_laws.rs` — laws: tokens and trees are well formed, line
  breaks act as commas after operands and as blanks elsewhere, a blank (space, tab or
  backslash) between two texts joins their tokens unless a line break follows it, known
  functions only grow.
- `app/` — the floating-point evaluator and the `extern "C"` functions (`expr_create`,
  `expr_eval`, `expr_destroy`, `expr_var`, `expr_next_token`).

Numbers stay text (their numeral) in tokens and trees; the lexer accepts exactly the
numerals that `f32::from_str` accepts, and the evaluator converts them. An expression with
no tokens parses to the number `NaN`.
