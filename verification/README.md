# filesync

A peer-to-peer file synchronisation engine whose decisions are verified with
Verus: what changed since the last sync, what a sync plan must do, in which
order, how the wire protocol frames and splits data, what a peer may touch,
how pairing proceeds, which certificates a connection accepts, the row
forms of profiles and of the sync index, and how profiles are replicated.

## Layout

- `src/` — the verified library. Every function carries a contract; the
  public proof functions named `law_*` state properties that span calls.
  - `text`, `path`, `path_order`, `pathmap` — characters, relative paths
    compared by their normalised form, and a sorted map keyed by them.
  - `scan`, `diff`, `reconcile`, `guarantees`, `plan`, `apply`, `engine`,
    `session`, `clock` — scanning rules, change detection, reconciliation
    (with its laws in `guarantees`), action ordering, execution bookkeeping,
    index updates, and the date that names conflict copies.
  - `transport`, `transfer`, `remote`, `responder`, `wire`, `error` — frames,
    file data, where each action runs, what a responding peer allows.
  - `identity`, `pinning`, `pairing`, `discovery`, `local_address` —
    fingerprints and identity files, certificate pinning, the pairing
    handshake as a state machine, the table of discovered peers.
  - `profiles`, `profile_edits`, `stored_index`, `views`, `platform` —
    profile rows and their replication form, profile edits, the stored
    sync index, and the values the interface shows.
- `app/` — the I/O around the library: the filesystem walker and file
  operations, TLS, sockets, mDNS, serialisation, and the async drivers that
  run the library's state machines. The database behind the profile and
  index stores is not part of this crate: the stores are traits there.
- `tests/` — tests of the library on concrete values.
