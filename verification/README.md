# bevy_persistence_database

ECS-to-database persistence for Bevy: change tracking, optimistic-locking
commits, relationship edges and compact encoding of large values, as a Verus
library whose behaviour is stated in contracts and proved.

- `src/value.rs`: JSON documents.
- `src/compact.rs`: the compact envelope (zstd + base64) for large values.
- `src/db/`: documents, edges, transaction operations, and what backends share.
- `src/versioning.rs`: document versions.
- `src/session/`: the session: cache, change tracking, registries, loading,
  edges, and the preparation of commits.
- `src/plugin/`: configuration, change detection and the commit life cycle.
- `src/derive/`: what the attributes expand to.
- `app/`: the Bevy, Tokio and serde side: worlds, closures, tasks, tokens.

Entities and Rust types are 64-bit numbers in the library; `app/` maps them to
Bevy's. Public proof functions whose names start with `law_` state what holds
across functions.
