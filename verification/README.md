# mago_analysis

Verified building blocks of a PHP static analyzer, written in Verus: the
assertion algebra, clauses, block-context bookkeeping, data-flow rules and
analysis results. The analysis of expressions over the PHP syntax tree and
type system is not part of this crate. Verus checks every function in
`src/` against its `requires`/`ensures` contract; the calls into other
crates (`indexmap`, `ahash`, `strsim`) and into the standard library that
Verus has no specification for go through small trusted wrappers whose
contracts are stated next to them, and some of them (the hasher calls and
`Clause`'s `Hash` impl) state nothing of their result.

Layout:

- `src/algebra/`: type assertions and their negations, formulas in
  conjunctive normal form (`add_or_assertion`, `add_and_assertion`,
  `add_and_clause`, `negate_assertion_set`, with their laws), and clauses
  over variables (`Clause`: construction, hashing, containment,
  impossibilities, rendering).
- `src/context/`: the per-block analysis state (`BlockContext`), an
  ordered string-keyed map (`LocalMap`) and the scopes built on them.
- `src/dataflow/`: data-flow path rules for array and property accesses and
  the check that finds unused variables in a data-flow graph.
- `src/expression/`: suggestions for misspelt variable names, the note on
  names with unusual characters, the known global variable names, and exact
  division and exponentiation of integer literals.
- `src/artifacts.rs`, `src/analysis_result.rs`: what the analysis of a body
  and of a set of files records, and how results are merged.
- `src/text.rs`, `src/span.rs`: string order, search and rendering helpers,
  and source spans.
- `tests/`: tests on concrete values, run against the compiled library.
