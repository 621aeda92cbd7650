# perception

Encodes sensor readings into fixed-length perception vectors.

- `src/` is the verified library: the FNV-1a hash (`fnv.rs`), the
  projection keys and mixing tables (`projection.rs`), the encoding methods
  (`method.rs`), the encoder's padding and projection plan (`encoder.rs`),
  timestamps, vector stamps and batch shape (`batch.rs`), and the
  nearest-neighbour order (`ranking.rs`).
- `app/` holds the floating-point side: readings, vectors with their values,
  similarity and distance, normalization, the projection arithmetic, and the
  serde-enabled types.
- `tests/` runs the library on concrete values.
