# aquery

Asks Bazel which Rust crates a set of targets is made of, and turns the answer
into one crate spec per crate, ready for rust-analyzer's project file.

- `src/` is the library, verified with Verus: the `bazel aquery` command line
  (`query`), the extraction of crate specs from its output (`output`), the merge
  of two specs of one crate (`crate_spec`), the consolidation of all specs
  (`consolidate`), the way from the output to the consolidated specs
  (`pipeline`), and the laws that merging and consolidating obey (`laws`).
- `tests/` runs the library on concrete values.
- `app/` runs Bazel and decodes its JSON.
