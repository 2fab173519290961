# mvbtree

A multi-version B+ tree: every write gets a version of its own, and readers see the tree as it
was at the version they ask for. The library is written in Rust and verified with Verus.

- `src/record_model`, `src/version_index`, `src/mvb_version_index`, `src/utils`: the versions of
  one record, kept in linked lists, lists with skip links, skip maps or trees.
- `src/page_model`, `src/tree`: leaves, inner pages and the tree itself.
- `src/crud_model`: transactions, how the tree runs them, and what holds of every sequence of
  them (`laws.rs`).
- `src/workload`: what the benchmarks decide and compute.
- `src/api.rs`: a key-value store on top of the tree.
- `app`: the benchmark program and the interface for callers in C.

A tree is written through an exclusive borrow. The program shares one between threads behind a
readers-writer lock.
