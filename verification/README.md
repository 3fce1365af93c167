# chim_compiler

Library parts of the Chim compiler, written in Verus: every function in
`src/` carries a contract that Verus proves.

## Layout

- `ast.rs`: the syntax tree (statements, expressions, literals), its view
  by texts, and deep copies.
- `parser.rs`: the tokens and the recursive-descent parser from tokens to
  the syntax tree; every parsing function is specified by a spec function
  over the tokens and the position, which it equals.
- `optimizer/`: the intermediate representation and its passes: constant
  propagation and folding, inlining, dead-code and common-subexpression
  elimination, algebraic simplification, memory-to-register promotion,
  sparse conditional constant propagation, global value numbering, loop
  unrolling, vectorisation detection, and the pass pipeline.
- `rvo.rs`: return value optimisation.
- `termination/`: the termination checker for recursive functions.
- `pattern.rs`: constructor tables and the exhaustiveness checker for
  pattern matches.
- `semantic.rs`: lifetimes, borrow checking, escape and loop analysis, the
  symbol table, the declarations of variables, structs and enums, and the
  typing rules of literals, identifiers, operators, indexing, field access,
  ranges, arrays, calls, `if` and assignments; each rule takes the types of
  its operands.
- `memory_layout.rs`: struct layout with field reordering.
- `radix_pool.rs`: the size-class memory pool and its lifetime-aware form.
- `sized.rs`, `sync.rs`, `rand.rs`, `thread_local.rs`, `procedural_macros.rs`:
  supporting libraries.
- `toml.rs`, `toon/`, `stdlib/`: document formats and the standard library of
  the language.

Floating-point values are held as the bits of their IEEE 754 doubles, or,
for TOML, as the text they were written with.

`tests/` holds the tests, run with `cargo test`.
