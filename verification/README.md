# ray_rust

The core of a Ray-style distributed task runtime, with its logic proved
correct by Verus.

## Layout

- `src/` — the verified library.
  - `id` — fixed-size identifiers (tasks, actors, workers, nodes, jobs,
    objects), fresh ones from a version-4 UUID.
  - `object_store` — objects keyed by id with reference counts, a memory
    budget that evicts unreferenced objects, spill/restore bookkeeping and the
    polling steps of blocking gets and waits.
  - `gcs_store` — node, actor, job and resource-usage tables.
  - `worker` — worker handles and the pool that hands them out.
  - `local_scheduler` — task statuses and the queue of tasks waiting for
    resources; the decisions of the scheduler's event loop.
  - `global_scheduler` — the cluster view a placement policy chooses from.
  - `shared_memory` — named shared-memory regions and their pool.
  - `executor`, `runtime`, `serialize`, `types`, `error` — task execution
    by name, runtime configuration, zero-copy buffers, shared records.
  - `table`, `text` — a small key/value table and decimal/hex rendering.
- `app/` — what runs around the library: async interfaces over locks and
  tokio tasks, the scheduler's event loop, resource sets with fractional
  quantities and the placement policies over them, bincode/JSON
  serialization, spill files on disk, the single-process runtime and the
  Python bindings.
- `tests/` — tests of the library.
