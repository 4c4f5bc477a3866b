# atom_macro

The library behind the `atom!` procedural macro. An atom is written

    init => [pattern] names; f $ [pattern] names; { code } => { resolve }

and expands into nested `match` expressions: each pattern is matched against
every name in scope (passed through `f` where `f $` is given), binding the
names after it; code blocks run in between; `resolve` runs innermost.

- `src/data.rs`: tokens (with spans as indices into the caller's table of
  positions), the parser's input and errors, and the parsed atom.
- `src/parsing.rs`: the grammar, as spec functions on token sequences, and
  the verified parsers and combinators that compute them; laws on how far a
  parse gets, on its errors and on the text of parsed paths.
- `src/gen.rs`: the code an atom expands to, specified recursively over its
  elements, and the verified generator.
- `src/lib.rs`: the whole expansion of `atom!`, including compile errors.
- `app/lib.rs`: the conversion between the compiler's tokens and the
  library's.

There is no `seq!` macro: its parser, `parse_seq`, was never written, so
there is no grammar for it to carry.
