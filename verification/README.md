# rsdragonfly

A sharded in-memory key-value server that speaks RESP2 (the Redis protocol),
with its logic verified by Verus.

- `src/` is the verified library:
  - `common/`: constants, shard ids, values, CRC-16/KERMIT key hashing, clock
    conversions, decimal and text helpers.
  - `protocol/`: the incremental RESP2 parser, the serializer (with the law that
    parsing a serialized value gives it back), commands and responses.
  - `shard/`: a shard's entries, expiry queue, command execution, expiry sweeps,
    the snapshot format (header, serializer, loader) and the laws that relate
    them; the worker's decisions. The serializer writes the two checksums at
    offsets 32 and 40 and the loader reads them at 28 and 36, so a snapshot
    that this server writes is refused when loaded.
  - `frontend/`: routing keys to shards, the connection's next step, and how
    the parts of a DEL spread over shards add up.
  - `observability/`: health and readiness answers, metric totals, and the
    Prometheus page.
  - `server.rs`: the configuration.
- `app/` is the program around it: the command line, the tokio runtime,
  sockets, queues, timers, files and logging.
- `tests/` runs the library on concrete values.
