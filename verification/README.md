# AegisDB core, verified

The logic of the AegisDB key-value store, written in Verus and proved
against its contracts:

- `raft`: the Raft node (`Raft`, `RawNode`, `RaftLog`, progress), modelled by
  `RaftView`/`LogView`; laws on commit, term, votes, and the ready cycle.
- `engine_util`: write batches with safe points, the WAL bookkeeping, column
  family keys and the prefix cursor.
- `raftstore`: region metadata keys and states, the store's region index,
  load balancing, peer allocation, splits, failure detection, recovery and
  region snapshots, and the decisions of the peer and scheduler tasks.
- `pd`: the placement driver's bookkeeping, id allocation and dashboard views.
- `cli`, `ingest`, `launch`: the command-line grammar, the ingest service's
  counters, events, requests and migration plan, and server start-up values.

`src/` is the verified library. `app/` holds what stays outside it: byte
encodings (bincode, serde), the wall clock and background loops, the
machine's metrics (sysinfo), floating-point statistics, generated finance
records and the interactive prompt. `tests/` exercises the library.
