# omnigraph

The change surface and the manifest birth of a graph store, verified with Verus.

- `src/error.rs`, `src/storage.rs`: the store's error type, and the classification of
  substrate errors from typed evidence alone.
- `src/changes/`: typed row equality, ordered scans, the exact merge of two table
  versions, and its pruned form, which derives the same changes from the touched rows;
  `runs.rs` says what either gives from its start to its end, and `history.rs` that both
  give the same where every commit of an interval kept the rows.
- `src/manifest/`: keyed table schemas, the tables of a fresh graph, and the genesis of
  its manifest.
- `src/text.rs`: text helpers and the byte order of ids.

Arrow, Lance, DataFusion and ULID are called through small functions whose contracts are
trusted; each says which outside function it stands for.

`app/` runs the library against a storage engine. `tests/` runs it on real record
batches, schemas and errors.
