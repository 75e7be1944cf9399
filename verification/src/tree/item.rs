//! What can be done with an element of the progress tree.

use std::sync::Arc;

use parking_lot::Mutex;
use vstd::prelude::*;

use crate::messages::MessageLevel;
use crate::progress;
use crate::progress::{Id, Key, State};
use crate::time::Timestamp;
use crate::tree::lock;
use crate::tree::lock::{with_tree, Slot};
use crate::tree::{Item, TreeState};
use crate::unit::Unit;

verus! {

/// Whether `child` is what a handle at `key`, of this generation, gets when it adds a child of this
/// name and identifier: the child is where the tree that is found puts the next one, which is a free
/// position as long as there are numbers and no merge was refused midway. The child of an
/// invalidated handle is an invalidated handle as well.
pub open spec fn is_child(
    child: Item,
    lock: Mutex<Slot>,
    key: Key,
    generation: u64,
    name: Seq<char>,
    id: Id,
) -> bool {
    &&& child.lock() == lock
    &&& child.generation() == generation
    &&& exists|before: TreeState, text: String|
        text@ == name && #[trigger] lock::steps(
            lock,
            before,
            before.with_child(key, generation, text, id),
        ) && child.position() == (if before.attached(generation) {
            before.child_position(key)
        } else {
            key
        }) && before.child_is_free(key)
}

impl Item {
    /// Add a child below the element, without an identifier.
    pub fn add_child(&self, name: &str) -> (res: Item)
        ensures
            res.clock() == self.clock(),
            is_child(
                res,
                self.lock(),
                self.position(),
                self.generation(),
                name@,
                progress::UNKNOWN,
            ),
    {
        self.add_child_with_id(name, progress::UNKNOWN)
    }

    /// Add a child with an identifier below the element.
    pub fn add_child_with_id(&self, name: &str, id: Id) -> (res: Item)
        ensures
            res.clock() == self.clock(),
            is_child(res, self.lock(), self.position(), self.generation(), name@, id),
    {
        let text = name.to_owned();
        let ghost label = text;
        let add = |slot: &mut Slot| -> (key: Option<Key>)
            ensures
                final(slot)@ == old(slot)@.with_child(self.key, self.generation, label, id),
                key == (if old(slot)@.attached(self.generation) {
                    Some(old(slot)@.child_position(self.key))
                } else {
                    None
                }),
                old(slot)@.child_is_free(self.key),
            {
                let mut tree = slot.take();
                let key = tree.add_child(&self.key, self.generation, text, id);
                slot.put(tree);
                key
            };
        proof {
            self.parts();
        }
        let added = with_tree(&self.shared.lock, add);
        let key = match added {
            Some(key) => key,
            None => self.key,
        };
        Item { key, generation: self.generation, shared: Arc::clone(&self.shared) }
    }

    /// Set up the progress of the element: its bound and its unit. Without either there is none.
    pub fn init(&self, max: Option<usize>, unit: Option<Unit>)
        ensures
            exists|before: TreeState| #[trigger]
                lock::steps(
                    self.lock(),
                    before,
                    before.with_init(self.position(), self.generation(), max, unit),
                ),
    {
        let change = |slot: &mut Slot|
            ensures
                final(slot)@ == old(slot)@.with_init(self.key, self.generation, max, unit),
            {
                let mut tree = slot.take();
                tree.init(&self.key, self.generation, max, unit);
                slot.put(tree);
            };
        proof {
            self.parts();
        }
        with_tree(&self.shared.lock, change);
    }

    /// Set the current step of the element.
    pub fn set(&self, step: usize)
        ensures
            exists|before: TreeState| #[trigger]
                lock::steps(
                    self.lock(),
                    before,
                    before.with_step(self.position(), self.generation(), step),
                ),
    {
        let change = |slot: &mut Slot|
            ensures
                final(slot)@ == old(slot)@.with_step(self.key, self.generation, step),
            {
                let mut tree = slot.take();
                tree.set(&self.key, self.generation, step);
                slot.put(tree);
            };
        proof {
            self.parts();
        }
        with_tree(&self.shared.lock, change);
    }

    /// Advance the element by `steps`.
    pub fn inc_by(&self, steps: usize)
        ensures
            exists|before: TreeState| #[trigger]
                lock::steps(
                    self.lock(),
                    before,
                    before.with_steps_added(self.position(), self.generation(), steps),
                ),
    {
        let change = |slot: &mut Slot|
            ensures
                final(slot)@ == old(slot)@.with_steps_added(self.key, self.generation, steps),
            {
                let mut tree = slot.take();
                tree.inc_by(&self.key, self.generation, steps);
                slot.put(tree);
            };
        proof {
            self.parts();
        }
        with_tree(&self.shared.lock, change);
    }

    /// Advance the element by one step.
    pub fn inc(&self)
        ensures
            exists|before: TreeState| #[trigger]
                lock::steps(
                    self.lock(),
                    before,
                    before.with_steps_added(self.position(), self.generation(), 1),
                ),
    {
        self.inc_by(1);
    }

    /// The element is running.
    pub fn running(&self)
        ensures
            exists|before: TreeState| #[trigger]
                lock::steps(
                    self.lock(),
                    before,
                    before.with_state(self.position(), self.generation(), State::Running),
                ),
    {
        let change = |slot: &mut Slot|
            ensures
                final(slot)@ == old(slot)@.with_state(self.key, self.generation, State::Running),
            {
                let mut tree = slot.take();
                tree.set_state(&self.key, self.generation, State::Running);
                slot.put(tree);
            };
        proof {
            self.parts();
        }
        with_tree(&self.shared.lock, change);
    }

    /// The element cannot go on, for this reason, until about `eta`.
    pub fn blocked(&self, reason: &str, eta: Option<Timestamp>)
        ensures
            exists|before: TreeState, why: String| why@ == reason@ && #[trigger]
                lock::steps(
                    self.lock(),
                    before,
                    before.with_state(
                        self.position(),
                        self.generation(),
                        State::Blocked(why, eta),
                    ),
                ),
    {
        let text = reason.to_owned();
        let ghost why = text;
        let change = |slot: &mut Slot|
            ensures
                final(slot)@ == old(slot)@.with_state(
                    self.key,
                    self.generation,
                    State::Blocked(why, eta),
                ),
            {
                let mut tree = slot.take();
                tree.set_state(&self.key, self.generation, State::Blocked(text, eta));
                slot.put(tree);
            };
        proof {
            self.parts();
        }
        with_tree(&self.shared.lock, change);
    }

    /// The element paused by itself, for this reason, until about `eta`.
    pub fn halted(&self, reason: &str, eta: Option<Timestamp>)
        ensures
            exists|before: TreeState, why: String| why@ == reason@ && #[trigger]
                lock::steps(
                    self.lock(),
                    before,
                    before.with_state(
                        self.position(),
                        self.generation(),
                        State::Halted(why, eta),
                    ),
                ),
    {
        let text = reason.to_owned();
        let ghost why = text;
        let change = |slot: &mut Slot|
            ensures
                final(slot)@ == old(slot)@.with_state(
                    self.key,
                    self.generation,
                    State::Halted(why, eta),
                ),
            {
                let mut tree = slot.take();
                tree.set_state(&self.key, self.generation, State::Halted(text, eta));
                slot.put(tree);
            };
        proof {
            self.parts();
        }
        with_tree(&self.shared.lock, change);
    }

    /// Rename the element.
    pub fn set_name(&self, name: &str)
        ensures
            exists|before: TreeState, label: String| label@ == name@ && #[trigger]
                lock::steps(
                    self.lock(),
                    before,
                    before.with_name(self.position(), self.generation(), label),
                ),
    {
        let text = name.to_owned();
        let ghost label = text;
        let change = |slot: &mut Slot|
            ensures
                final(slot)@ == old(slot)@.with_name(self.key, self.generation, label),
            {
                let mut tree = slot.take();
                tree.set_name(&self.key, self.generation, text);
                slot.put(tree);
            };
        proof {
            self.parts();
        }
        with_tree(&self.shared.lock, change);
    }

    /// Send a message, timestamped with the clock of the tree.
    pub fn message(&self, level: MessageLevel, text: &str)
        ensures
            exists|before: TreeState, time: Timestamp, words: String|
                self.clock().shows(time) && words@ == text@ && #[trigger]
                lock::steps(
                    self.lock(),
                    before,
                    before.with_message(self.position(), self.generation(), time, level, words),
                ),
    {
        let time = self.shared.clock.now();
        let owned = text.to_owned();
        let ghost words = owned;
        let change = |slot: &mut Slot|
            ensures
                final(slot)@ == old(slot)@.with_message(
                    self.key,
                    self.generation,
                    time,
                    level,
                    words,
                ),
            {
                let mut tree = slot.take();
                tree.message(&self.key, self.generation, time, level, owned);
                slot.put(tree);
            };
        proof {
            self.parts();
        }
        with_tree(&self.shared.lock, change);
    }

    /// Send an informational message.
    pub fn info(&self, text: &str)
        ensures
            exists|before: TreeState, time: Timestamp, words: String|
                self.clock().shows(time) && words@ == text@ && #[trigger]
                lock::steps(
                    self.lock(),
                    before,
                    before.with_message(
                        self.position(),
                        self.generation(),
                        time,
                        MessageLevel::Info,
                        words,
                    ),
                ),
    {
        self.message(MessageLevel::Info, text);
    }

    /// Send the message that the element failed.
    pub fn fail(&self, text: &str)
        ensures
            exists|before: TreeState, time: Timestamp, words: String|
                self.clock().shows(time) && words@ == text@ && #[trigger]
                lock::steps(
                    self.lock(),
                    before,
                    before.with_message(
                        self.position(),
                        self.generation(),
                        time,
                        MessageLevel::Failure,
                        words,
                    ),
                ),
    {
        self.message(MessageLevel::Failure, text);
    }

    /// Send the message that the element succeeded, and complete it.
    pub fn done(&self, text: &str)
        ensures
            exists|before: TreeState, time: Timestamp, words: String|
                self.clock().shows(time) && words@ == text@ && #[trigger]
                lock::steps(
                    self.lock(),
                    before,
                    before.with_message(
                        self.position(),
                        self.generation(),
                        time,
                        MessageLevel::Success,
                        words,
                    ).with_state(
                        self.position(),
                        self.generation(),
                        State::Completed,
                    ),
                ),
    {
        let time = self.shared.clock.now();
        let owned = text.to_owned();
        let ghost words = owned;
        let change = |slot: &mut Slot|
            ensures
                final(slot)@ == old(slot)@.with_message(
                    self.key,
                    self.generation,
                    time,
                    MessageLevel::Success,
                    words,
                ).with_state(
                    self.key,
                    self.generation,
                    State::Completed,
                ),
            {
                let mut tree = slot.take();
                tree.message(&self.key, self.generation, time, MessageLevel::Success, owned);
                tree.set_state(&self.key, self.generation, State::Completed);
                slot.put(tree);
            };
        proof {
            self.parts();
        }
        with_tree(&self.shared.lock, change);
    }

    /// Take the element out of the tree.
    pub fn remove(self)
        ensures
            exists|before: TreeState| #[trigger]
                lock::steps(
                    self.lock(),
                    before,
                    before.without_task(self.position(), self.generation()),
                ),
    {
        let change = |slot: &mut Slot|
            ensures
                final(slot)@ == old(slot)@.without_task(self.key, self.generation),
            {
                let mut tree = slot.take();
                tree.remove(&self.key, self.generation);
                slot.put(tree);
            };
        proof {
            self.parts();
        }
        with_tree(&self.shared.lock, change);
    }

    /// Whether the tree that the element belongs to was not superseded by restoring a snapshot.
    pub fn is_attached(&self) -> (res: bool)
        ensures
            exists|found: TreeState| #[trigger]
                lock::steps(self.lock(), found, found) && res == found.attached(self.generation()),
    {
        let read = |slot: &mut Slot| -> (read: bool)
            ensures
                final(slot)@ == old(slot)@,
                read == old(slot)@.attached(self.generation),
            { slot.tree().is_attached(self.generation) };
        proof {
            self.parts();
        }
        with_tree(&self.shared.lock, read)
    }

    /// Whether the element has reached a terminal state. Step mutations on terminal elements are
    /// ignored so progress can never move backwards.
    pub fn is_terminal(&self) -> (res: bool)
        ensures
            exists|found: TreeState| #[trigger]
                lock::steps(self.lock(), found, found) && res == found.terminal_at(self.position()),
    {
        let read = |slot: &mut Slot| -> (read: bool)
            ensures
                final(slot)@ == old(slot)@,
                read == old(slot)@.terminal_at(self.key),
            { slot.tree().is_terminal(&self.key) };
        proof {
            self.parts();
        }
        with_tree(&self.shared.lock, read)
    }
}

} // verus!
