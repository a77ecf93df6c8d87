# differential_formula

A verified library for the Formula modelling language: its terms, types,
expressions and rules, the grammar of Formula programs, and the building of
domains from their definitions. Every function in `src/` carries a contract
that Verus proves, with the exception of twelve small functions that call
outside code and whose contracts are trusted: eight around `num-bigint`
(`src/integer.rs`), `topological_order` around petgraph's `toposort`
(`src/module.rs`), two around `rand` (`src/graph.rs`) and `debug_quote`
around std's string escaping (`src/text.rs`). The contracts are stated over
mathematical views (`Seq`, `Map`, `int`) of the data.

## Layout

- `src/term.rs`, `src/type_system.rs`, `src/type_behavior.rs`: terms, atoms and
  types, with their views and printing.
- `src/integer.rs`: arbitrary-precision integers (through `num-bigint`).
- `src/matching.rs`, `src/binding.rs`: matching terms against patterns,
  substitution and normalization of variables.
- `src/expression.rs`, `src/analysis.rs`: arithmetic expressions, set
  comprehensions, aggregation, constraints and their variables.
- `src/rule.rs`: rules, their normal form and the ordering of declarations.
- `src/parser.rs`, `src/expr_parser.rs`, `src/rule_parser.rs`,
  `src/module_parser.rs`: the grammar, each reader specified by a function on
  characters; `src/combinator.rs` reads whole texts.
- `src/type_def.rs`, `src/sort_resolution.rs`, `src/domain.rs`,
  `src/module.rs`, `src/program.rs`: type definitions, resolution of type names,
  domains, meta information and the building of a program's domains.
- `src/term_order.rs`: the order in which lists of terms are sorted.
- `src/term_store.rs`: a store of terms under ids and alias names, with the
  expansion of aliases inside terms.
- `src/replacement.rs`: replacing a term wherever it occurs in terms,
  expressions, constraints and rules.
- `src/converter.rs`: printing of types and rule heads in DDlog syntax.
- `src/graph.rs`, `src/names.rs`, `src/text.rs`: random graphs for benchmarks,
  fresh names, text helpers.
- `tests/`: tests run against the compiled library.
- `app/main.rs`: the program that writes random graph programs to files.
