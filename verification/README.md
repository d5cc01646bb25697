# lox_interpreter

A tokenizer, expression parser, syntax-tree printer and variable scopes for a
small Lox-like language, verified with Verus, and a command-line driver.

- `src/tokens.rs` — tokens, their printed form, operator binding strengths,
  tokenization errors.
- `src/tokenizer.rs` — `TokenIterator`: splits text into tokens; its results
  are specified by `spec_next_token` and `token_stream`.
- `src/syntax.rs` — `SyntaxNode` and its printed form (`node_text`).
- `src/parser.rs` — `Parser`: expressions by binding strength
  (`binary_spec`), programs as `;`-terminated statements (`program_spec`).
- `src/context.rs` — `ValiableContext`: nested scopes of named values,
  modelled as a sequence of maps.
- `src/text.rs` — decimal writing of integers, string-slice equality.
- `app/` — the `tokenize` / `parse` / `evaluate` commands, and evaluation,
  which computes with floating-point numbers. Number literals travel through
  the library as text: their spelling, and the value written as `{:?}` writes
  the double.
