# repoctl

A verified library for graph-aware monorepos: manifest validation, the
project graph and its policies, affected-project analysis, task planning,
CI matrices and workflows, proto and infrastructure facades, adoption
planning, code-size inspection, operations plans and session journals, and
the human-readable reports of these.

Layout:

- `src/` holds the library. Every executable function carries a `requires`
  and `ensures` contract that Verus proves; the few calls into `std`,
  `camino`, `globset` and `serde_json` go through small trusted wrappers whose
  contracts follow those crates' documentation.
- `src/laws.rs` states and proves the properties that span several functions
  (graph idempotence, ordering of outputs, read-after-write, and so on).
- `tests/` exercises the library on concrete values.
- `app/` is the `repoctl` command line around the library.

The library takes plain values in and gives plain values back: reading the
disk, running processes, decoding YAML and printing are left to the program
that uses it.
