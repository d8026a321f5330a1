# lil_syntax

A lexer and parser for expressions of the Lil language, written in Verus.

- `src/lex.rs`: tokens, the lexical grammar as spec functions, and `lexer`, which is
  proved to read exactly that grammar; laws on the token stream (tokens tile the
  source, token text is source text, each token's text has its class's shape, padding
  never repeats) and on fixed tokens (distinct spellings, each lexing back to itself).
- `src/charclass.rs`: the Unicode character classes the lexer asks chumsky about, and
  UTF-8 widths.
- `src/paint.rs`: terminal colours through the `colored` crate.
- `src/parse.rs`: the expression tree, its view, and traversal.
- `src/grammar.rs`: the expression grammar over spanned tokens as spec functions.
- `src/parser.rs`: `parse_expr`, proved to follow that grammar and to report a failed parse
  where `src/failure.rs` says: at the furthest failure any alternative reached.
- `src/grammar_laws.rs`: laws of the grammar (progress, parsed trees are well built,
  source ranges nest).
- `src/lint.rs`: the style check that warns about nested eaches written with dots.
- `app/`: the command-line program, which reports errors with `ariadne`.
