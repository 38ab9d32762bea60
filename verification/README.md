# googletest (verified core)

A matcher-based testing library whose logic is verified with Verus.

- `src/` is the verified library: matchers and their descriptions, the
  rendering of descriptions, line and character diffs (Myers' edit lists),
  glob test filters, test sharding, maximum bipartite matching of elements to
  matchers, assertion reports, and the decisions of death tests and scoped
  traces. Every public function states what it returns in its contract;
  the laws that relate several functions are public proof functions
  (`law_*`).
- `app/` holds what talks to the process around the library: environment
  settings (test filter, shards, colors), the outcome of the running test,
  child processes for death tests, thread-local trace stacks, static
  fixtures and the floating-point matchers.
- `tests/` runs the library on concrete values.

The calls into outside code that the library trusts are few and marked
`#[verifier::external_body]`: `format!` of strings and characters,
`String::from_utf8`, collecting characters into a `String`, and the `regex`
crate.
