# list_comp

Python-style comprehensions for Rust, as verified token-stream transformers.

```text
MAPPING
    for PAT in SEQ
    [ if COND | if let PAT = EXPR ]*
    [ for PAT in SEQ [ if COND | if let PAT = EXPR ]* ]*
```

`comp` writes an iterator chain, `vec_comp` / `set_comp` collect it into a
`Vec` / `HashSet`, `map_comp` reads `KEY => VALUE` in place of the mapping and
collects into a `HashMap`, and `par_comp` writes the chain over `rayon`.

Layout:

- `src/bridge.rs`: the trusted contact with `proc_macro2` and `syn`.
- `src/tokens.rs`: the tokens the library writes.
- `src/grammar.rs`: the grammar, stated position by position, and its parsers.
- `src/expand.rs`: the chain a comprehension becomes, and its text.
- `src/macros.rs`: the five comprehensions, from input stream to output stream,
  and the error a refused comprehension is answered with.
- `src/stream.rs`: how the output tokens nest into the trees of a stream.
- `src/meaning.rs`: the proof that the chain yields the comprehension's items.
- `src/laws.rs`: properties of the output text (balanced groups, hygiene of
  `__seq`, parallel and collected forms, one grammar for all five).
- `src/coverage.rs`: every fragment of the input is written exactly once.
- `app/lib.rs`: the procedural-macro entry points over `proc_macro`.
