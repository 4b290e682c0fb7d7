# omni_compiler

The front end and tooling of the Omni compiler as a verified Rust library.
The functions under `src/` carry contracts that Verus proves, except a small
set of trusted items marked `#[verifier::external_body]` (and the names of
their results): the wrappers around standard-library calls whose results
take more than a few lines to state — `{:?}` renderings of strings and of
syntax and value trees, Unicode case and character classes, `String::push`,
`str::chars`, the keys of a `HashMap` —
and the declaration of `PathBuf`. Their contracts are believed, not proved.

- `text`, `strmap` — string helpers and a small string-keyed map.
- `lexer`, `complete_lexer`, `cst` — the two tokenizers, each specified as a
  state machine over characters, and the lossless concrete syntax tree.
- `ast`, `formatter` — the syntax tree and the formatters over the concrete
  and abstract trees.
- `macros`, `comptime` — macro expansion and the two compile-time evaluators.
- `interpreter`, `integration` — the reference interpreter, specified as an
  evaluation over an abstract environment with a step budget, and the
  session that holds its variables, channels and cancellation tokens.
- `levenshtein`, `diagnostics`, `doc_gen`, `type_export`, `abi_check`,
  `effect_resolver`, `control_flow`, `async_effects`, `linear_types`,
  `generational_refs`, `codegen_lir`, `lsp`, `lsp_incr_db` and the smaller
  modules — the analyses, reports and runtime models of the compiler.

`app/` holds what talks to the outside world: the environment and file
system, language-server messages, standard output, and the text of
floating-point literals.

## What is not here

- The compiler's main promise, borrow checking and linear-move checking over
  the MIR, is not held: the MIR, type checker, resolver, module system,
  monomorphizer, traits, security and effect-system modules, and the `lir`
  crate, are not among the sources this library was built from. What stands
  alone of those passes (`borrow_check` helpers, `linear_types`,
  `codegen_lir`'s layout helpers, `mir`'s instruction model) is here.
- In the interpreter:
  - a `channel` statement is an error, and there are no channel or
    cancellation-token values: both rest on the effect system's types;
  - `vector_capacity` is not a built-in: a vector's capacity is whatever the
    allocator gave, which nothing here can state; `vector_reserve` checks its
    argument and keeps the vector as it is;
  - no value is a `Result`: none is ever made, so `?` passes every value
    through, as it does for every value that is not one.
- Maps keep their keys in insertion order (the variant is `Value::Dict`);
  a `for` loop walks them in that order. A closure is the position of its
  lambda in the run's table of closures: two closures are equal (for
  `vector_contains`) when they are the same entry, not whenever their
  parameters, bodies and captured variables are equal. `{:?}` of a
  value (in the text of a failed field access) writes floating-point values
  as their bits, and maps, records and closures, as this library's types
  derive it.
