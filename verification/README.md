# band

An entity–component store with a query engine and a system scheduler,
verified with Verus.

Entities get components (typed records of bytes); entities with the same set
of component types share an *archetype*, and the rows of one archetype are
kept side by side in its storage. Queries go through the storages whose
archetype a list of terms admits and yield, per entity, the requested
components, resources and markers. Systems are described by the terms of
their queries; the scheduler builds their dependency graph, splits it into
connected sets and plans, for each set, rounds of systems that may run side
by side.

## Layout

- `src/archetype.rs`: sorted component sets, offsets and sizes.
- `src/entity.rs`: entity handles and their allocator.
- `src/storage.rs`: the rows of one archetype, with swap-removal.
- `src/lib.rs`: the registry (spawn, despawn, insert, remove, get, get_mut,
  resources) and its invariant.
- `src/bundle.rs`: bundles of components given as tuples.
- `src/query.rs`: query terms, the query archetype, offsets, iteration, and
  the write-back of what a system hands back.
- `src/commands.rs`: commands queued by queries and their application.
- `src/scheduler.rs`: dependencies between systems, connected sets, and the
  plan of a run.
- `src/laws.rs`: properties that relate several registry operations.
- `src/maps.rs`: the `hashbrown` maps the registry keeps, with their
  contracts.
- `app/lib.rs`: typed values as component records, the debug print, parallel
  iteration with `rayon`, and running the plan with `tokio`.
- `tests/`: tests of each module.
