# terminus_store (in-memory storage back end)

The in-memory storage back end of a layered triple store, written in Verus.

- `src/storage/buffer.rs`: positional writes and reads on a byte buffer
  (`write_at`, `read_at`, `read_rest`) against spec functions, with the
  read-after-write laws.
- `src/storage/memory.rs`: `MemoryBackedStore` (a file whose clones share
  its bytes, behind `vstd::rwlock::RwLock`) with its reader and writer,
  and `MemoryLayerStore` and `MemoryLabelStore`, whose operations are
  stated exactly over the registries they hold.
- `src/storage/label.rs`: `Label` and `LabelTable`, the label registry with
  optimistic, versioned updates, and its laws.
- `src/storage/layers.rs`: `LayerTable`, the layer registry, with what
  registering and loading do given whether a retriever found the parent,
  and its laws.
- `src/storage/files.rs`: the file sets of base and child layers.
- `app/lib.rs`: the futures-returning faces of the stores, shared by their
  clones behind `futures_locks::RwLock`, and the `std::io`/tokio reader
  and writer impls.
