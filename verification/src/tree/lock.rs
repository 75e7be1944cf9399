//! The lock that a tree is shared through.

use parking_lot::Mutex;
use vstd::prelude::*;

use crate::tree::{Shared, TreeId, TreeState};

verus! {

/// `parking_lot::Mutex`, under its name in `lock_api`. Nothing inside of it is known.
#[verifier::external_type_specification]
#[verifier::external_body]
#[verifier::reject_recursive_types(R)]
#[verifier::reject_recursive_types(T)]
pub struct ExMutex<R, T: ?Sized>(parking_lot::lock_api::Mutex<R, T>);

/// `parking_lot::RawMutex`, which `parking_lot::Mutex` is built on. Nothing inside of it is known.
#[verifier::external_type_specification]
#[verifier::external_body]
pub struct ExRawMutex(parking_lot::RawMutex);

/// What is behind the lock of a tree: its state, which is well-formed whenever someone looks.
#[derive(Debug)]
pub struct Slot {
    tree: Shared,
}

impl View for Slot {
    type V = TreeState;

    closed spec fn view(&self) -> TreeState {
        self.tree@
    }
}

impl Slot {
    #[verifier::type_invariant]
    spec fn wf(self) -> bool {
        self.tree.wf()
    }

    /// A slot with this tree in it.
    pub fn new(tree: Shared) -> (res: Slot)
        requires
            tree.wf(),
        ensures
            res@ == tree@,
    {
        Slot { tree }
    }

    /// The tree in the slot.
    pub fn tree(&self) -> (res: &Shared)
        ensures
            res.wf(),
            res@ == self@,
    {
        proof {
            use_type_invariant(self);
        }
        &self.tree
    }

    /// Take the tree out of the slot, which leaves an empty one behind.
    pub fn take(&mut self) -> (res: Shared)
        ensures
            res.wf(),
            res@ == old(self)@,
    {
        proof {
            use_type_invariant(&*self);
        }
        let mut tree = Shared::with_capacity(0, 0, TreeId([0;16]));
        std::mem::swap(&mut tree, &mut self.tree);
        tree
    }

    /// Put a tree into the slot.
    pub fn put(&mut self, tree: Shared)
        requires
            tree.wf(),
        ensures
            final(self)@ == tree@,
    {
        self.tree = tree;
    }
}

/// The tree that a lock was made with.
pub uninterp spec fn first_tree(lock: Mutex<Slot>) -> TreeState;

/// Whether, at some point in the life of the lock, a holder of it finds the tree `before` and leaves
/// the tree `after`.
pub uninterp spec fn steps(lock: Mutex<Slot>, before: TreeState, after: TreeState) -> bool;

/// Makes a lock with `parking_lot::Mutex::new`, which puts the slot behind it.
#[verifier::external_body]
pub(crate) fn new_lock(slot: Slot) -> (res: Mutex<Slot>)
    ensures
        first_tree(res) == slot@,
{
    Mutex::new(slot)
}

/// Runs `change` on the slot behind the lock, which `parking_lot::Mutex::lock` gives access to for
/// as long as its guard lives. The result is what `change` returns for the tree it found, and
/// that tree and the one it left are a step of the lock. Nothing is said of which tree is found: that
/// is up to all holders. `change` must not take the same lock again.
#[verifier::external_body]
pub(crate) fn with_tree<T, F: FnOnce(&mut Slot) -> T>(lock: &Mutex<Slot>, change: F) -> (res: T)
    requires
        forall|slot: &mut Slot| change.requires((slot,)),
    ensures
        exists|slot: &mut Slot| #[trigger]
            change.ensures((slot,), res) && steps(*lock, slot@, final(slot)@),
{
    change(&mut lock.lock())
}

} // verus!
