# storagehub_client

The verified core of a StorageHub storage-provider client, written in Verus.

- `src/` is the library. Every function in it is verified against its
  `requires`/`ensures` contract. It holds the provider's own logic: peer
  statistics and peer selection, the download state of files and buckets,
  chunk batching and the chunk stream format, the forest cache, and the
  decisions that the provider tasks take between their calls to the chain,
  the network and the storage (capacity checks, volunteering, proof
  submission, confirmations, charging, deletions, bucket checks).
- `src/laws.rs` (with a few laws next to the types they speak of, such as
  the stream round trip in `chunk_stream.rs`) states properties that span
  several operations.
- The outside crates the logic calls (`priority-queue`, `lru`, `rand`,
  `hex`) are reached through small trusted wrappers whose contracts say what
  those crates do.
- `tests/` exercises the library on concrete values.
- `app/` holds what cannot be verified: configuration types with serde
  derives, the encoding of persisted peer records, reading chunk streams
  from a transport, and floating-point settings.
