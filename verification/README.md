# opalescent_types

The Opalescent type checker's state, its constraint-based inference (substitutions,
unification and constraint solving) and its per-node typing rules, written in Verus and
verified against their contracts. The recursive walk over whole expressions, statements
and declarations is not part of the library.

- `src/` — the verified library:
  - `types`, `token`, `ast`, `symbol_table`, `errors`: the data the rules read — core type
    models, spans, expression/statement/annotation shapes, symbols and diagnostics.
  - `name_map`: an ordered name-keyed map (the tables below are built on it).
  - `arithmetic`, `checker_helpers`: constant folding, overflow and shift-count checks,
    numeric classification and cast rules.
  - `memory`, `heap_class`: layouts and heap/ownership categories of types.
  - `environment`, `error_families`, `error_compatibility`: named types and standard
    error families.
  - `affine_aggregates`, `aggregate_barrier`: transactional aggregate declarations, their
    validation, and the retarget/commit barrier between statements.
  - `using_cleanup`, `ownership`: cleanup registrations and obligations of `using`
    bindings, and lexically scoped owner/borrow metadata.
  - `module_resolver`, `test_only_availability`: module interfaces, import resolution,
    dependency-cycle detection and test-only availability checks.
  - `fallible_constructors`, `hot_reload`, `builtin_types`, `terminal_metadata`: small
    registries and metadata helpers.
  - `operators`, `collection_exprs`, `conditionals`, `patterns`, `refinements`: typing rules
    of operators, indexing, casts, array literals, string interpolation, `if` and `match`
    values, match patterns and variant refinements, over operand types the expression
    checker supplies.
  - `return_labels`, `return_values`, `destructure`: return-statement shape, arity, labels
    and value reconciliation, and `let` destructure bindings.
  - `error_sets`, `guard_errors`, `propagation`: error-set declarations, expansion and
    lints, guard error lists, and coverage of propagated and cleanup errors by declared ones.
  - `escape`, `value_escape`, `ref_rules`, `affine_containment`: escape of borrows and
    affine resources, borrow targets, and which types (transitively) hold affine resources.
  - `checker`, `builtins`, `expression_metadata`, `declarations`: the checker's state
    (environment, symbols, pending constraints, warnings, per-expression arithmetic modes
    and folded constants), the standard built-in functions, and entry-point validation.
  - `substitution`, `unification`, `constraints`: substitutions of types for type
    variables, unification (with occurs check), and solving of collected constraints.
  - `call_instantiation`, `array_signatures`: fresh instantiation of a callee's type
    variables, and specialisation of array intrinsic signatures to an element type.
- `tests/` — tests run against the compiled library.
- `app/` — `miette`/`thiserror` diagnostic types mirroring the library's errors.
