//! The top-level of the progress tree, and how to make one.

use std::sync::Arc;

use vstd::prelude::*;

use crate::messages::Message;
use crate::progress;
use crate::progress::{Id, Key, Task};
use crate::tree::item;
use crate::tree::lock;
use crate::tree::lock::{new_lock, with_tree, Slot};
use crate::tree::snapshot::clock::Clock;
use crate::tree::snapshot::transfer;
use crate::tree::{Item, Root, Shared, SharedTree, TreeId, TreeIds, TreeState};

verus! {

/// What a tree is made with.
#[derive(Copy, Clone, PartialEq, Eq, Structural, Debug)]
pub struct Options {
    /// The amount of items the tree can hold without being forced to allocate.
    pub initial_capacity: usize,
    /// The amount of messages that are retained before the oldest ones are dropped.
    pub message_buffer_capacity: usize,
}

impl Default for Options {
    fn default() -> (res: Options)
        ensures
            res == (Options { initial_capacity: 100, message_buffer_capacity: 20 }),
    {
        Options { initial_capacity: 100, message_buffer_capacity: 20 }
    }
}

impl Options {
    /// Create the root of another tree of the process, with the clock of the system.
    pub fn create(self, ids: &mut TreeIds) -> (res: Arc<Root>)
        ensures
            final(ids).next() == old(ids).next().wrapping_add(1),
            res.identity() == TreeId::unique_bytes(old(ids).next()),
            res.clock() is System,
            lock::first_tree(res.lock()) == TreeState::fresh(
                self.message_buffer_capacity,
                TreeId::unique_bytes(old(ids).next()),
            ),
    {
        let tree_id = ids.unique();
        let tree = Shared::with_capacity(
            self.initial_capacity,
            self.message_buffer_capacity,
            tree_id,
        );
        Arc::new(Root::from_parts(tree, Clock::System, tree_id))
    }
}

impl Root {
    /// The root of this tree.
    pub(crate) fn from_parts(tree: Shared, clock: Clock, tree_id: TreeId) -> (res: Root)
        requires
            tree.wf(),
        ensures
            res.identity() == tree_id@,
            res.clock() == clock,
            lock::first_tree(res.lock()) == tree@,
    {
        Root { shared: Arc::new(SharedTree { lock: new_lock(Slot::new(tree)), clock, tree_id }) }
    }

    /// The handle that children of the root are added with.
    fn item(&self) -> (res: Item)
        ensures
            res.lock() == self.lock(),
            res.clock() == self.clock(),
            res.position() == Key::Root,
            res.generation() == 0,
    {
        Item { key: Key::Root, generation: 0, shared: Arc::clone(&self.shared) }
    }

    /// Add a child to the root, without an identifier.
    pub fn add_child(&self, name: &str) -> (res: Item)
        ensures
            res.clock() == self.clock(),
            item::is_child(res, self.lock(), Key::Root, 0, name@, progress::UNKNOWN),
    {
        self.item().add_child(name)
    }

    /// Add a child with an identifier to the root.
    pub fn add_child_with_id(&self, name: &str, id: Id) -> (res: Item)
        ensures
            res.clock() == self.clock(),
            item::is_child(res, self.lock(), Key::Root, 0, name@, id),
    {
        self.item().add_child_with_id(name, id)
    }

    /// The number of tasks.
    pub fn num_tasks(&self) -> (res: usize)
        ensures
            exists|found: TreeState| #[trigger]
                lock::steps(self.lock(), found, found) && res == found.tasks.dom().len(),
    {
        let read = |slot: &mut Slot| -> (read: usize)
            ensures
                final(slot)@ == old(slot)@,
                read == old(slot)@.tasks.dom().len(),
            { slot.tree().num_tasks() };
        proof {
            self.parts();
        }
        with_tree(&self.shared.lock, read)
    }

    /// How many messages are retained at most.
    pub fn messages_capacity(&self) -> (res: usize)
        ensures
            exists|found: TreeState| #[trigger]
                lock::steps(self.lock(), found, found) && res == found.message_capacity,
    {
        let read = |slot: &mut Slot| -> (read: usize)
            ensures
                final(slot)@ == old(slot)@,
                read == old(slot)@.message_capacity,
            { slot.tree().messages_capacity() };
        proof {
            self.parts();
        }
        with_tree(&self.shared.lock, read)
    }

    /// Replace what is in `out` by the retained messages, oldest first.
    pub fn copy_messages(&self, out: &mut Vec<Message>)
        ensures
            exists|found: TreeState| #[trigger]
                lock::steps(self.lock(), found, found) && final(out)@ == found.messages,
    {
        let read = |slot: &mut Slot| -> (read: Vec<Message>)
            ensures
                final(slot)@ == old(slot)@,
                read@ == old(slot)@.messages,
            { slot.tree().copy_messages() };
        proof {
            self.parts();
        }
        *out = with_tree(&self.shared.lock, read);
    }

    /// Replace what is in `out` by every task with its position, in hierarchy order.
    pub fn sorted_snapshot(&self, out: &mut Vec<(Key, Task)>)
        ensures
            exists|found: TreeState| #[trigger]
                lock::steps(self.lock(), found, found) && transfer::lists_entries(
                    found.tasks,
                    final(out)@,
                ),
    {
        let read = |slot: &mut Slot| -> (read: Vec<(Key, Task)>)
            ensures
                final(slot)@ == old(slot)@,
                transfer::lists_entries(old(slot)@.tasks, read@),
            { slot.tree().sorted_entries() };
        proof {
            self.parts();
        }
        *out = with_tree(&self.shared.lock, read);
    }

    /// Create an independent copy of the tree, with the same identity and clock. The handles of this
    /// tree do not belong to the copy.
    pub fn deep_clone(&self) -> (res: Arc<Root>)
        ensures
            res.identity() == self.identity(),
            res.clock() == self.clock(),
            exists|found: TreeState| #[trigger]
                lock::steps(self.lock(), found, found) && lock::first_tree(res.lock()) == (
                TreeState { generation: 0, ..found }),
    {
        let copy = |slot: &mut Slot| -> (copy: Shared)
            ensures
                final(slot)@ == old(slot)@,
                copy.wf(),
                copy@ == (TreeState { generation: 0, ..old(slot)@ }),
            { slot.tree().duplicate() };
        proof {
            self.parts();
        }
        let tree = with_tree(&self.shared.lock, copy);
        Arc::new(Root::from_parts(tree, self.shared.clock.clone(), self.shared.tree_id))
    }
}

} // verus!
