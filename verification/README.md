# vb6semantic

Semantic analysis for VB6 code, written in Verus: symbol tables, a tree of
lexical scopes with name resolution and visibility rules, type compatibility
and promotion rules, and an analyzer that opens a scope for each parsed file
(`vb6parse` parses the files).

Layout:

- `src/` — the verified library.
  - `types.rs` — `TypeInfo`, `TypeKind`, assignment/compatibility/operation
    rules, and their laws (symmetry, Variant, widening, promotion).
  - `symbols.rs` — `Symbol`, `SymbolTable` (symbols keyed by name and
    kind), lookup by name, and what a table holds after any calls.
  - `scope.rs` — `Scope`, `ScopeManager`: the scope tree, lookup through
    enclosing scopes, accessibility, and the laws of push/pop/add/lookup.
  - `resolution.rs` — `NameResolver` for simple and qualified names.
  - `analyzer.rs` — `SemanticAnalyzer`, `AnalysisResult`, and the calls
    into `vb6parse`'s parsed files.
  - `error.rs`, `text.rs` — errors, locations and their printed forms.
- `tests/` — tests on concrete values.
- `app/` — `serde`/`thiserror` forms of the data types, with conversions.
