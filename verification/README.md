# rrd_store

The storage boundary of the RRD runtime, written in Verus: the functions in
`src/` carry contracts over mathematical models (sequences, maps, views of
the records) and are proved against them. The exceptions are the few wrappers
marked `#[verifier::external_body]` around calls into std, `sha2` and
`serde_json` (SHA-256, UTF-8 decoding, JSON parsing and encoding, path
handling): their contracts are trusted, and each one's doc comment says what
it claims of the call it makes.

## Layout

- `src/key_codec.rs`, `src/key_order.rs`, `src/keyspaces.rs`: the ordered
  physical-key grammar, its round trip and memcomparable order, and the
  canonical key shapes of every space.
- `src/engine.rs`, `src/byte_map.rs`: the volatile multi-version store and its
  snapshot transactions (first committer wins, reads see own writes).
- `src/repository/`: the repositories over that store: control journal,
  governed-function catalogue (publication with a compare-and-swap head,
  immutable records, read back by revision), receipts, invocations, claim
  batches (plain and idempotent), access observations and removal
  candidacy, projections, runtime cursor; `catalogue.rs` holds the stored
  forms of the catalogue records.
- `src/function.rs`, `src/control.rs`, `src/index.rs`: record validation.
- `src/archive.rs`, `src/archive_format.rs`, `src/backup.rs`: logical-archive
  receipts, framing and inspection (the replay of an archive's actions
  checked against its footer and digest), backup catalogues and their prune
  decisions.
- `src/export.rs`, `src/restore.rs`: the step-by-step decisions of exporting
  a logical archive and of restoring one into a new root; the caller does
  the file and database work each step names.
- `src/version_key.rs`, `src/commit_plan.rs`, `src/index_binding.rs`: the
  keys a semantic commit's mutations write (adjacency and vector keys
  included) and the version key a direct read expects, the cursor and
  claim-sequence accounting of a commit with its own key writes, and the
  planning and checking of a scope's index commit bindings against its
  schema and the digest of their canonical definitions.
- `src/index_effects.rs`: what one record transition does to one committed
  index: the scalar entries it retires and adds, its source-delta key, and
  the collision checks of a unique index.
- `src/migration_archive.rs`: the byte layout of a migration archive and its
  authenticated reading.
- `src/object.rs`, `src/ds.rs`: content-addressed objects and the check of a
  commit's object references.
- `src/migration.rs`, `src/footprint.rs`, `src/gc.rs`, `src/versioned_read.rs`:
  the migration state machine, storage-footprint classification, removal
  reports, and read budgets.
- `tests/`: executable tests of the library.
- `app/`: the file-system side (local object directory, footprint walk) and
  serde copies of library records: the unsigned JSON of catalogue
  memberships and the canonical JSON of index definitions that their digests
  are taken over.
