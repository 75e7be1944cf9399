//! Taking snapshots of live trees, continuing from them, and merging them.

use std::sync::Arc;

use vstd::prelude::*;

use crate::tree::lock;
use crate::tree::lock::{with_tree, Slot};
use crate::tree::root::Options;
use crate::tree::snapshot::clock::{Clock, FixedClock};
use crate::tree::snapshot::error::{MergeError, MergeReport, RestoreError};
use crate::tree::snapshot::model::Snapshot;
use crate::tree::snapshot::round_trip;
use crate::tree::snapshot::transfer;
use crate::tree::{Root, Shared, TreeId, TreeState};

verus! {

impl Root {
    /// Produce a serializable snapshot of every task and the retained messages.
    ///
    /// The snapshot identifies the tree it came from; feeding it to [`merge`](Self::merge) on an
    /// unrelated tree fails instead of colliding with its ids.
    pub fn snapshot(&self) -> (res: Snapshot)
        ensures
            exists|found: TreeState| #[trigger]
                lock::steps(self.lock(), found, found) && transfer::is_snapshot_of(
                    res@,
                    TreeState { tree_id: self.identity(), ..found },
                ),
            transfer::merge_refusal(self.identity(), res@) is None,
    {
        let take = |slot: &mut Slot| -> (taken: Snapshot)
            ensures
                final(slot)@ == old(slot)@,
                old(slot)@.valid(),
                transfer::is_snapshot_of(taken@, old(slot)@),
            {
                let tree = slot.tree();
                proof {
                    tree.valid_state();
                }
                tree.snapshot()
            };
        proof {
            self.parts();
        }
        let mut res = with_tree(&self.shared.lock, take);
        let ghost taken = res;
        res.tree_id = self.shared.tree_id.to_vec();
        proof {
            let slot = choose|slot: &mut Slot| #[trigger]
                take.ensures((slot,), taken) && lock::steps(self.lock(), slot@, final(slot)@);
            let found = TreeState { tree_id: self.identity(), ..slot@ };
            assert(transfer::is_snapshot_of(res@, found));
            round_trip::own_snapshot_is_accepted(found, res@);
        }
        res
    }

    /// Continue the tree described by `snapshot`.
    ///
    /// The returned root is a fresh tree carrying the snapshot's identity. Every handle still
    /// pointing at this root's previous tree (root handles as well as items) is invalidated and
    /// becomes unable to mutate the restored tree.
    pub fn restore(&self, snapshot: &Snapshot) -> (res: Result<Arc<Root>, RestoreError>)
        ensures
            match res {
                Ok(root) => {
                    &&& transfer::restore_refusal(self.identity(), snapshot@) is None
                    &&& root.identity() == snapshot@.tree_id
                    &&& root.clock() == self.clock()
                    &&& lock::first_tree(root.lock()) == transfer::restored(snapshot@)
                    &&& exists|before: TreeState| #[trigger]
                        lock::steps(self.lock(), before, before.superseded())
                },
                Err(error) => {
                    &&& transfer::restore_refusal(self.identity(), snapshot@) == Some(error@)
                    &&& exists|found: TreeState| #[trigger] lock::steps(self.lock(), found, found)
                },
            },
    {
        let restore = |slot: &mut Slot| -> (restored: Result<Shared, RestoreError>)
            ensures
                match restored {
                    Ok(tree) => {
                        &&& transfer::restore_refusal(self.shared.tree_id@, snapshot@) is None
                        &&& tree.wf()
                        &&& tree@ == transfer::restored(snapshot@)
                        &&& final(slot)@ == old(slot)@.superseded()
                    },
                    Err(error) => {
                        &&& transfer::restore_refusal(self.shared.tree_id@, snapshot@) == Some(
                            error@,
                        )
                        &&& final(slot)@ == old(slot)@
                    },
                },
            {
                let mut tree = slot.take();
                let restored = tree.restore_as(&self.shared.tree_id, snapshot);
                slot.put(tree);
                restored
            };
        proof {
            self.parts();
        }
        let tree = with_tree(&self.shared.lock, restore)?;
        let root = Root::from_parts(tree, self.shared.clock.clone(), self.shared.tree_id);
        Ok(Arc::new(root))
    }

    /// Monotonically fold `snapshot` into this live tree and report what changed.
    ///
    /// Replaying the same snapshot any number of times leaves the tree unchanged after the first
    /// replay. Steps only move up per item and terminal states cannot be reopened.
    pub fn merge(&self, snapshot: &Snapshot) -> (res: Result<MergeReport, MergeError>)
        ensures
            match res {
                Ok(report) => {
                    &&& transfer::merge_refusal(self.identity(), snapshot@) is None
                    &&& exists|before: TreeState| #[trigger]
                        lock::steps(self.lock(), before, transfer::merged(before, snapshot@))
                            && before.valid() && report == transfer::merge_report(
                            before,
                            snapshot@,
                        )
                },
                Err(error) => {
                    &&& transfer::merge_refusal(self.identity(), snapshot@) == Some(error@)
                    &&& transfer::restore_refusal(self.identity(), snapshot@) is Some
                        ==> exists|found: TreeState| #[trigger]
                        lock::steps(self.lock(), found, found)
                    &&& transfer::restore_refusal(self.identity(), snapshot@) is None
                        ==> exists|before: TreeState| #[trigger]
                        lock::steps(self.lock(), before, transfer::partly_merged(before, snapshot@))
                },
            },
    {
        let merge = |slot: &mut Slot| -> (merged: Result<MergeReport, MergeError>)
            ensures
                old(slot)@.valid(),
                match merged {
                    Ok(report) => {
                        &&& transfer::merge_refusal(self.shared.tree_id@, snapshot@) is None
                        &&& report == transfer::merge_report(old(slot)@, snapshot@)
                        &&& final(slot)@ == transfer::merged(old(slot)@, snapshot@)
                    },
                    Err(error) => {
                        &&& transfer::merge_refusal(self.shared.tree_id@, snapshot@) == Some(error@)
                        &&& final(slot)@ == (if transfer::restore_refusal(
                            self.shared.tree_id@,
                            snapshot@,
                        ) is Some {
                            old(slot)@
                        } else {
                            transfer::partly_merged(old(slot)@, snapshot@)
                        })
                    },
                },
            {
                let mut tree = slot.take();
                proof {
                    tree.valid_state();
                }
                let merged = tree.merge_as(&self.shared.tree_id, snapshot);
                slot.put(tree);
                merged
            };
        proof {
            self.parts();
        }
        with_tree(&self.shared.lock, merge)
    }

    /// Return the identity of this tree. It ties snapshots to the tree they originated from.
    pub fn tree_id(&self) -> (res: TreeId)
        ensures
            res@ == self.identity(),
    {
        self.shared.tree_id
    }
}

impl Options {
    /// Create a root with an explicit, caller-chosen identity and an injectable clock.
    ///
    /// Use this when the same logical tree is reconstructed in a new process: the identity makes
    /// snapshots compatible across restarts, and the clock makes message timestamps deterministic
    /// for byte-reproducible snapshot files.
    pub fn create_with_tree_id(self, tree_id: TreeId, clock: FixedClock) -> (res: Arc<Root>)
        ensures
            res.identity() == tree_id@,
            res.clock() == Clock::Fixed(clock),
            lock::first_tree(res.lock()) == TreeState::fresh(
                self.message_buffer_capacity,
                tree_id@,
            ),
    {
        let tree = Shared::with_capacity(
            self.initial_capacity,
            self.message_buffer_capacity,
            tree_id,
        );
        Arc::new(Root::from_parts(tree, Clock::Fixed(clock), tree_id))
    }
}

} // verus!
