# prodash_tree

A progress tree whose state can be captured as a snapshot, restored from one, and merged
monotonically with one. The library is verified with Verus.

- `src/progress.rs`, `src/unit.rs`, `src/messages.rs`, `src/time.rs`: tasks and their positions,
  units, retained messages, points in time. `src/messages/merge.rs` merges messages such that
  merging them again changes nothing.
- `src/tree.rs`: the state of a tree (`TreeState`), what handles do to it, and `Shared`, which
  holds it. `src/tree/laws.rs` states what holds of handles and of the numbers of children.
- `src/tree/snapshot/`: the parts of a snapshot (`model.rs`), refusals (`error.rs`), taking,
  restoring and merging snapshots (`transfer.rs`), and what holds of that (`round_trip.rs`,
  `laws.rs`, `interleaving.rs`, and `ticking.rs` for clocks).
- `src/tree/root.rs`, `src/tree/item.rs`, `src/tree/snapshot/persist.rs`,
  `src/tree/snapshot/clock.rs`: roots, handles and clocks that several holders share. Each
  operation holds a lock from `parking_lot` once; its contract says which step it takes from
  whichever tree it finds behind the lock. `src/tree/lock.rs` has what is taken for granted of
  the lock.
- `app/`: serializable copies of snapshots, errors of the standard library, and the identities of the
  trees of a process.
