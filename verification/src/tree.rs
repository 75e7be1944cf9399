//! The progress tree.

use std::sync::Arc;

use parking_lot::Mutex;
use vstd::prelude::*;

use crate::messages;
use crate::messages::{Message, MessageLevel, MessageRingBuffer};
use crate::progress::key;
use crate::progress::{Id, Key, State, Task, Value};
use crate::time::Timestamp;
use crate::unit::Unit;

pub mod handled;
pub mod item;
pub mod laws;
pub mod lock;
pub mod operations;
pub mod root;
pub mod snapshot;
pub mod sync;

use lock::Slot;
use snapshot::clock::Clock;
use sync::HashMap;

verus! {

/// A 16 byte identifier uniquely separating progress trees from each other.
///
/// The first 8 bytes are a marker, the remaining 8 bytes are a process-unique sequence
/// number. Trees restored from a snapshot inherit the snapshot's identity.
#[derive(Copy, Clone, PartialEq, Eq, PartialOrd, Ord, Hash, Debug)]
pub struct TreeId(pub [u8; 16]);

impl View for TreeId {
    type V = Seq<u8>;

    open spec fn view(&self) -> Seq<u8> {
        self.0@
    }
}

/// The `i`th byte of `n`, the most significant one first.
pub open spec fn big_endian_byte(n: u64, i: int) -> int {
    if i == 0 {
        n as int / 0x100_0000_0000_0000
    } else if i == 1 {
        n as int / 0x1_0000_0000_0000 % 256
    } else if i == 2 {
        n as int / 0x100_0000_0000 % 256
    } else if i == 3 {
        n as int / 0x1_0000_0000 % 256
    } else if i == 4 {
        n as int / 0x100_0000 % 256
    } else if i == 5 {
        n as int / 0x1_0000 % 256
    } else if i == 6 {
        n as int / 0x100 % 256
    } else {
        n as int % 256
    }
}

/// The marker that identities of trees start with: the letters of `ephemer!`.
pub open spec fn marker() -> Seq<u8> {
    seq![0x65, 0x70, 0x68, 0x65, 0x6d, 0x65, 0x72, 0x21]
}

impl TreeId {
    /// The marker, followed by the bytes of `seq`.
    pub open spec fn unique_bytes(seq: u64) -> Seq<u8> {
        marker() + Seq::new(8, |i: int| big_endian_byte(seq, i) as u8)
    }

    /// The identity for the `seq`th tree of a process. It is unique within the process as long as
    /// every tree gets a number of its own.
    pub fn unique(seq: u64) -> (res: TreeId)
        ensures
            res@ == TreeId::unique_bytes(seq),
    {
        let res = TreeId(
            [
                0x65,
                0x70,
                0x68,
                0x65,
                0x6d,
                0x65,
                0x72,
                0x21,
                (seq / 0x100_0000_0000_0000) as u8,
                (seq / 0x1_0000_0000_0000 % 256) as u8,
                (seq / 0x100_0000_0000 % 256) as u8,
                (seq / 0x1_0000_0000 % 256) as u8,
                (seq / 0x100_0000 % 256) as u8,
                (seq / 0x1_0000 % 256) as u8,
                (seq / 0x100 % 256) as u8,
                (seq % 256) as u8,
            ],
        );
        assert(res@ =~= TreeId::unique_bytes(seq));
        res
    }

    /// The bytes of the identity.
    pub fn to_vec(&self) -> (res: Vec<u8>)
        ensures
            res@ == self@,
    {
        let mut bytes: Vec<u8> = Vec::new();
        for i in 0..16
            invariant
                bytes@ == self@.take(i as int),
        {
            bytes.push(self.0[i]);
            assert(bytes@ =~= self@.take(i + 1));
        }
        assert(self@.take(16) =~= self@);
        bytes
    }

    /// The identity with these bytes.
    pub fn from_slice(bytes: &[u8]) -> (res: TreeId)
        requires
            bytes@.len() == 16,
        ensures
            res@ == bytes@,
    {
        let mut id = [0u8;16];
        for i in 0..16
            invariant
                bytes@.len() == 16,
                forall|j: int| 0 <= j < i ==> id@[j] == bytes@[j],
        {
            id[i] = bytes[i];
        }
        assert(id@ =~= bytes@);
        TreeId(id)
    }

    /// Whether `bytes` are this identity.
    pub fn is(&self, bytes: &[u8]) -> (res: bool)
        ensures
            res == (self@ == bytes@),
    {
        if bytes.len() != 16 {
            return false;
        }
        for i in 0..16
            invariant
                bytes@.len() == 16,
                forall|j: int| 0 <= j < i ==> self@[j] == bytes@[j],
        {
            if self.0[i] != bytes[i] {
                return false;
            }
        }
        assert(self@ =~= bytes@);
        true
    }
}

/// `n` is put together from its bytes.
proof fn number_of_bytes(n: u64)
    ensures
        n == ((((((big_endian_byte(n, 0) * 256 + big_endian_byte(n, 1)) * 256 + big_endian_byte(n, 2))
            * 256 + big_endian_byte(n, 3)) * 256 + big_endian_byte(n, 4)) * 256 + big_endian_byte(n, 5))
            * 256 + big_endian_byte(n, 6)) * 256 + big_endian_byte(n, 7),
{
    split_byte(n as int, 1);
    split_byte(n as int, 0x100);
    split_byte(n as int, 0x1_0000);
    split_byte(n as int, 0x100_0000);
    split_byte(n as int, 0x1_0000_0000);
    split_byte(n as int, 0x100_0000_0000);
    split_byte(n as int, 0x1_0000_0000_0000);
}

proof fn split_byte(n: int, unit: int)
    requires
        0 <= n,
        0 < unit,
    ensures
        n / unit == n / (unit * 256) * 256 + n / unit % 256,
{
    vstd::arithmetic::div_mod::lemma_div_denominator(n, unit, 256);
}

/// The identity of a tree has 16 bytes: the letters of `ephemer!`, and the number of the tree, the
/// most significant byte first.
pub proof fn identities_spell_their_numbers(seq: u64)
    ensures
        ({
            let bytes = TreeId::unique_bytes(seq);
            &&& bytes.len() == 16
            &&& forall|i: int| 0 <= i < 8 ==> #[trigger] bytes[i] as int == "ephemer!"@[i] as int
            &&& seq == ((((((bytes[8] * 256 + bytes[9]) * 256 + bytes[10]) * 256 + bytes[11]) * 256
                + bytes[12]) * 256 + bytes[13]) * 256 + bytes[14]) * 256 + bytes[15]
        }),
{
    reveal_strlit("ephemer!");
    number_of_bytes(seq);
}

/// Trees with different numbers have different identities.
pub proof fn unique_identities(seq: u64, other: u64)
    requires
        seq != other,
    ensures
        TreeId::unique_bytes(seq) != TreeId::unique_bytes(other),
{
    number_of_bytes(seq);
    number_of_bytes(other);
    let i = choose|i: int|
        0 <= i < 8 && #[trigger] big_endian_byte(seq, i) != big_endian_byte(other, i);
    assert(TreeId::unique_bytes(seq)[8 + i] == big_endian_byte(seq, i));
    assert(TreeId::unique_bytes(other)[8 + i] == big_endian_byte(other, i));
}

/// Whether `bytes` come before `others`, which are as many, when they are compared from the first one
/// on.
pub open spec fn bytes_before(bytes: Seq<u8>, others: Seq<u8>) -> bool {
    exists|i: int|
        0 <= i < bytes.len() && #[trigger] bytes[i] < others[i] && bytes.take(i) == others.take(i)
}

/// Trees with larger numbers have greater identities.
pub proof fn later_identities_are_greater(seq: u64, other: u64)
    requires
        seq < other,
    ensures
        bytes_before(TreeId::unique_bytes(seq), TreeId::unique_bytes(other)),
{
    number_of_bytes(seq);
    number_of_bytes(other);
    let bytes = TreeId::unique_bytes(seq);
    let others = TreeId::unique_bytes(other);
    let i: int = if big_endian_byte(seq, 0) != big_endian_byte(other, 0) {
        0
    } else if big_endian_byte(seq, 1) != big_endian_byte(other, 1) {
        1
    } else if big_endian_byte(seq, 2) != big_endian_byte(other, 2) {
        2
    } else if big_endian_byte(seq, 3) != big_endian_byte(other, 3) {
        3
    } else if big_endian_byte(seq, 4) != big_endian_byte(other, 4) {
        4
    } else if big_endian_byte(seq, 5) != big_endian_byte(other, 5) {
        5
    } else if big_endian_byte(seq, 6) != big_endian_byte(other, 6) {
        6
    } else {
        7
    };
    assert(big_endian_byte(seq, i) < big_endian_byte(other, i));
    assert(bytes[8 + i] == big_endian_byte(seq, i));
    assert(others[8 + i] == big_endian_byte(other, i));
    assert forall|j: int| 0 <= j < 8 + i implies bytes[j] == others[j] by {
        if j >= 8 {
            assert(bytes[j] == big_endian_byte(seq, j - 8) as u8);
            assert(others[j] == big_endian_byte(other, j - 8) as u8);
        }
    }
    assert(bytes.take(8 + i) =~= others.take(8 + i));
}

/// Hands out the identities of the trees of a process, so that no two of them share one by accident.
#[derive(Debug)]
pub struct TreeIds {
    next: u64,
}

impl TreeIds {
    /// The number of the next tree.
    pub closed spec fn next(self) -> u64 {
        self.next
    }

    /// Numbers start at 1.
    pub fn new() -> (res: TreeIds)
        ensures
            res.next() == 1,
    {
        TreeIds { next: 1 }
    }

    /// Generate an identity that was not handed out before.
    pub fn unique(&mut self) -> (res: TreeId)
        ensures
            res@ == TreeId::unique_bytes(old(self).next()),
            final(self).next() == old(self).next().wrapping_add(1),
    {
        let seq: u64 = self.next;
        self.next = seq.wrapping_add(1);
        TreeId::unique(seq)
    }
}

/// The number that is next after `n` identities were handed out, where `first` was next before.
pub open spec fn number_of_call(first: u64, n: nat) -> u64
    decreases n,
{
    if n == 0 {
        first
    } else {
        number_of_call(first, (n - 1) as nat).wrapping_add(1)
    }
}

proof fn numbers_count_up(n: nat)
    requires
        n < u64::MAX,
    ensures
        number_of_call(1, n) == n + 1,
    decreases n,
{
    if n > 0 {
        numbers_count_up((n - 1) as nat);
    }
}

/// The identities that are handed out from the start on all begin with the marker. They differ, and
/// later ones are greater, as long as there are numbers.
pub proof fn handed_out_identities_are_unique(earlier: nat, later: nat)
    requires
        earlier < later < u64::MAX,
    ensures
        ({
            let one = TreeId::unique_bytes(number_of_call(1, earlier));
            let other = TreeId::unique_bytes(number_of_call(1, later));
            &&& one.take(8) == marker()
            &&& one != other
            &&& bytes_before(one, other)
        }),
{
    numbers_count_up(earlier);
    numbers_count_up(later);
    let seq = number_of_call(1, earlier);
    unique_identities(seq, number_of_call(1, later));
    later_identities_are_greater(seq, number_of_call(1, later));
    assert(TreeId::unique_bytes(seq).take(8) =~= marker());
}

/// Everything there is to know about a tree.
pub struct TreeState {
    /// The tasks by their positions.
    pub tasks: Map<Key, Task>,
    /// The retained messages, oldest first.
    pub messages: Seq<Message>,
    /// How many messages are retained at most.
    pub message_capacity: usize,
    /// How often handles of the tree were invalidated.
    pub generation: u64,
    /// The number of the next child below each position, where one is set. One for the root is not
    /// used.
    pub next_child: Map<Key, key::Id>,
    /// The number of the next child of the root.
    pub root_next_child: key::Id,
    /// The identity of the tree.
    pub tree_id: Seq<u8>,
    /// Whether merging a snapshot was ever refused midway. The tasks that were folded in by then are
    /// not taken into account by the child numbers.
    pub interrupted: bool,
}

/// State shared between the root and every handle created from it.
#[derive(Debug)]
pub struct Shared {
    tree: HashMap<Task>,
    messages: MessageRingBuffer,
    generation: u64,
    next_child: HashMap<key::Id>,
    root_next_child: key::Id,
    tree_id: TreeId,
    interrupted: bool,
}

impl View for Shared {
    type V = TreeState;

    closed spec fn view(&self) -> TreeState {
        TreeState {
            tasks: self.tree@,
            messages: self.messages@,
            message_capacity: self.messages.limit(),
            generation: self.generation,
            next_child: self.next_child@,
            root_next_child: self.root_next_child,
            tree_id: self.tree_id@,
            interrupted: self.interrupted,
        }
    }
}

/// The value at `key`, or 0 if there is none.
pub open spec fn get_or_zero(map: Map<Key, key::Id>, key: Key) -> key::Id {
    if map.contains_key(key) {
        map[key]
    } else {
        0
    }
}

impl TreeState {
    /// No more messages are retained than allowed, and the identity has the right length.
    pub open spec fn valid(self) -> bool {
        &&& self.messages.len() <= self.message_capacity
        &&& self.tree_id.len() == 16
        &&& self.tasks.dom().finite()
    }

    /// A new tree without tasks and messages.
    pub open spec fn fresh(message_capacity: usize, tree_id: Seq<u8>) -> TreeState {
        TreeState {
            tasks: Map::empty(),
            messages: Seq::empty(),
            message_capacity,
            generation: 0,
            next_child: Map::empty(),
            root_next_child: 0,
            tree_id,
            interrupted: false,
        }
    }

    /// Whether handles of this generation still belong to the tree.
    pub open spec fn attached(self, generation: u64) -> bool {
        generation == self.generation
    }

    /// Whether the position that the next child of the task at `key` gets is free, provided there
    /// are numbers left and no merge was refused midway.
    pub open spec fn child_is_free(self, key: Key) -> bool {
        !self.interrupted && self.next_number(TreeState::child_parent(key)) < u16::MAX
            ==> !self.tasks.contains_key(self.child_position(key))
    }

    /// The tree after all its handles were invalidated.
    pub open spec fn superseded(self) -> TreeState {
        TreeState { generation: self.generation.wrapping_add(1), ..self }
    }

    /// The tree after a handle of this generation took the task at `key` out of it.
    pub open spec fn without_task(self, key: Key, generation: u64) -> TreeState {
        if self.attached(generation) {
            TreeState { tasks: self.tasks.remove(key), ..self }
        } else {
            self
        }
    }

    /// Whether there is a task at `key` that has reached a terminal state.
    pub open spec fn terminal_at(self, key: Key) -> bool {
        self.tasks.contains_key(key) && self.tasks[key].terminal()
    }

    /// The tree with `task` at `key`.
    pub open spec fn with_task(self, key: Key, task: Task) -> TreeState {
        TreeState { tasks: self.tasks.insert(key, task), ..self }
    }

    /// The number that the next child of `parent` gets.
    pub open spec fn next_number(self, parent: Key) -> key::Id {
        if parent == Key::Root {
            self.root_next_child
        } else {
            get_or_zero(self.next_child, parent)
        }
    }

    /// The tree with `number` as the next child number of `parent`.
    pub open spec fn with_next_number(self, parent: Key, number: key::Id) -> TreeState {
        if parent == Key::Root {
            TreeState { root_next_child: number, ..self }
        } else {
            TreeState { next_child: self.next_child.insert(parent, number), ..self }
        }
    }

    /// The position that gets the children of `key`. The deepest positions have none below them, so
    /// their children become their siblings.
    pub open spec fn child_parent(key: Key) -> Key {
        if key@.len() == key::MAX_LEVEL {
            Key::of_path(key@.drop_last())
        } else {
            key
        }
    }

    /// The position that the next child of `key` gets.
    pub open spec fn child_position(self, key: Key) -> Key {
        let parent = TreeState::child_parent(key);
        Key::of_path(parent@.push(self.next_number(parent)))
    }

    /// The tree after a handle of this generation added a task below the one at `key`.
    pub open spec fn with_child(self, key: Key, generation: u64, name: String, id: Id) -> TreeState {
        if self.attached(generation) {
            let parent = TreeState::child_parent(key);
            self.with_next_number(parent, number_after(self.next_number(parent))).with_task(
                self.child_position(key),
                Task { name, id, progress: None },
            )
        } else {
            self
        }
    }

    /// The tree after a handle of this generation set up the progress of the task at `key`. There
    /// is none to set up without a bound and a unit.
    pub open spec fn with_init(
        self,
        key: Key,
        generation: u64,
        max: Option<usize>,
        unit: Option<Unit>,
    ) -> TreeState {
        if self.attached(generation) && self.tasks.contains_key(key) && !self.tasks[key].terminal() {
            let progress = if max is Some || unit is Some {
                Some(Value { step: 0, done_at: max, unit, state: State::Running })
            } else {
                None
            };
            self.with_task(key, Task { progress, ..self.tasks[key] })
        } else {
            self
        }
    }

    /// The tree after a handle of this generation set the step of the task at `key`.
    pub open spec fn with_step(self, key: Key, generation: u64, step: usize) -> TreeState {
        if self.changeable(key, generation) {
            self.with_value(key, Value { step, ..self.tasks[key].progress->0 })
        } else {
            self
        }
    }

    /// The tree after a handle of this generation advanced the task at `key` by `steps`.
    pub open spec fn with_steps_added(self, key: Key, generation: u64, steps: usize) -> TreeState {
        if self.changeable(key, generation) {
            let value = self.tasks[key].progress->0;
            self.with_value(key, Value { step: value.step.wrapping_add(steps), ..value })
        } else {
            self
        }
    }

    /// The tree after a handle of this generation set the state of the task at `key`.
    pub open spec fn with_state(self, key: Key, generation: u64, state: State) -> TreeState {
        if self.changeable(key, generation) {
            self.with_value(key, Value { state, ..self.tasks[key].progress->0 })
        } else {
            self
        }
    }

    /// The tree after a handle of this generation renamed the task at `key`.
    pub open spec fn with_name(self, key: Key, generation: u64, name: String) -> TreeState {
        if self.attached(generation) && self.tasks.contains_key(key) {
            self.with_task(key, Task { name, ..self.tasks[key] })
        } else {
            self
        }
    }

    /// Whether a handle of this generation can change the progress of the task at `key`.
    pub open spec fn changeable(self, key: Key, generation: u64) -> bool {
        &&& self.attached(generation)
        &&& self.tasks.contains_key(key)
        &&& self.tasks[key].progress is Some
        &&& !self.tasks[key].terminal()
    }

    /// The tree with `value` as the progress of the task at `key`.
    pub open spec fn with_value(self, key: Key, value: Value) -> TreeState {
        self.with_task(key, Task { progress: Some(value), ..self.tasks[key] })
    }

    /// The tree after the task at `key` left a message, if it is part of the tree.
    pub open spec fn with_message(
        self,
        key: Key,
        generation: u64,
        time: Timestamp,
        level: MessageLevel,
        text: String,
    ) -> TreeState {
        if self.attached(generation) && self.tasks.contains_key(key) {
            TreeState {
                messages: messages::pushed(
                    self.messages,
                    self.message_capacity,
                    Message { time, level, origin: self.tasks[key].name, message: text },
                ),
                ..self
            }
        } else {
            self
        }
    }
}

/// The number after `number`; the largest one comes after itself.
pub open spec fn number_after(number: key::Id) -> key::Id {
    if number == u16::MAX {
        number
    } else {
        (number + 1) as u16
    }
}

impl Shared {
    /// The tables and the message buffer are well-formed.
    spec fn sound(self) -> bool {
        &&& self.tree.wf()
        &&& self.messages.wf()
        &&& self.next_child.wf()
    }

    /// The tables and the message buffer are well-formed, and the child numbers are past those of
    /// all tasks, unless a merge was refused midway.
    pub closed spec fn wf(self) -> bool {
        &&& self.sound()
        &&& laws::accounted(self@)
    }

    /// Well-formed state is that of a valid tree.
    pub proof fn valid_state(self)
        requires
            self.wf(),
        ensures
            self@.valid(),
            laws::accounted(self@),
    {
        self.tree.finite_dom();
    }

    /// Create fresh shared state sized for `capacity` items and `message_buffer_capacity` messages.
    pub fn with_capacity(
        capacity: usize,
        message_buffer_capacity: usize,
        tree_id: TreeId,
    ) -> (res: Shared)
        ensures
            res.wf(),
            res@ == TreeState::fresh(message_buffer_capacity, tree_id@),
    {
        proof {
            laws::fresh_tree_is_numbered(message_buffer_capacity, tree_id@);
        }
        Shared {
            tree: HashMap::with_capacity(capacity),
            messages: MessageRingBuffer::with_capacity(message_buffer_capacity),
            generation: 0,
            next_child: HashMap::with_capacity(0),
            root_next_child: 0,
            tree_id,
            interrupted: false,
        }
    }

    /// Invalidate every existing handle of this tree. Used when restoring a snapshot.
    pub fn supersede(&mut self)
        requires
            old(self).wf(),
        ensures
            final(self).wf(),
            final(self)@ == old(self)@.superseded(),
    {
        self.generation = self.generation.wrapping_add(1);
        proof {
            laws::fewer_tasks_stay_accounted(old(self)@, self@);
        }
    }

    /// Create an independent copy of the shared storage. The copy keeps the tree identity but
    /// starts a new generation line.
    pub fn duplicate(&self) -> (res: Shared)
        requires
            self.wf(),
        ensures
            res.wf(),
            res@ == (TreeState { generation: 0, ..self@ }),
    {
        let res = Shared {
            tree: self.tree.clone(),
            messages: self.messages.clone(),
            generation: 0,
            next_child: self.next_child.clone(),
            root_next_child: self.root_next_child,
            tree_id: self.tree_id,
            interrupted: self.interrupted,
        };
        assert(res.tree@ =~= self.tree@);
        assert(res.next_child@ =~= self.next_child@);
        proof {
            laws::fewer_tasks_stay_accounted(self@, res@);
        }
        res
    }

    /// Whether handles of this generation still belong to the tree.
    pub fn is_attached(&self, generation: u64) -> (res: bool)
        ensures
            res == self@.attached(generation),
    {
        generation == self.generation
    }

    /// Whether merging a snapshot was ever refused midway.
    pub fn was_interrupted(&self) -> (res: bool)
        ensures
            res == self@.interrupted,
    {
        self.interrupted
    }

    /// Whether the task at `key` has reached a terminal state. Step mutations on terminal items are
    /// ignored so progress can never move backwards.
    pub fn is_terminal(&self, key: &Key) -> (res: bool)
        requires
            self.wf(),
        ensures
            res == self@.terminal_at(*key),
    {
        let check = |task: &Task| -> (terminal: bool)
            ensures
                terminal == task.terminal(),
            { task.is_terminal() };
        match self.tree.get(key, check) {
            Some(terminal) => terminal,
            None => false,
        }
    }

    /// Add a task below the one at `key`, for a handle of this generation, and return its position.
    /// Invalidated handles add nothing.
    pub fn add_child(
        &mut self,
        key: &Key,
        generation: u64,
        name: String,
        id: Id,
    ) -> (res: Option<Key>)
        requires
            old(self).wf(),
        ensures
            final(self).wf(),
            final(self)@ == old(self)@.with_child(*key, generation, name, id),
            res == (if old(self)@.attached(generation) {
                Some(old(self)@.child_position(*key))
            } else {
                None
            }),
            old(self)@.child_is_free(*key),
    {
        proof {
            if !self@.interrupted {
                laws::new_child_is_new(self@, *key, generation, name, id);
            }
        }
        if !self.is_attached(generation) {
            return None;
        }
        let parent = if key.level() == key::MAX_LEVEL {
            match snapshot::parent_key(key) {
                Some(parent) => parent,
                None => *key,
            }
        } else {
            *key
        };
        let copy = |number: &key::Id| -> (copied: key::Id)
            ensures
                copied == *number,
            { *number };
        let number: key::Id = if parent == Key::Root {
            self.root_next_child
        } else {
            match self.next_child.get(&parent, copy) {
                Some(number) => number,
                None => 0,
            }
        };
        let next: key::Id = number.saturating_add(1);
        if parent == Key::Root {
            self.root_next_child = next;
        } else {
            self.next_child.insert(parent, next);
        }
        let child = parent.child(number);
        self.tree.insert(child, Task { name, id, progress: None });
        Some(child)
    }

    /// Take the task at `key` out of the tree, for a handle of this generation.
    pub fn remove(&mut self, key: &Key, generation: u64)
        requires
            old(self).wf(),
        ensures
            final(self).wf(),
            final(self)@ == old(self)@.without_task(*key, generation),
    {
        if self.is_attached(generation) {
            let _ = self.tree.remove(key);
        }
        proof {
            laws::fewer_tasks_stay_accounted(old(self)@, self@);
        }
    }

    fn change_task<F: FnOnce(&mut Task)>(&mut self, key: &Key, change: F)
        requires
            old(self).wf(),
            forall|task: &mut Task| #[trigger] change.requires((task,)),
        ensures
            final(self).wf(),
            old(self)@.tasks.contains_key(*key) ==> exists|task: &mut Task|
                #[trigger] change.ensures((task,), ()) && *task == old(self)@.tasks[*key]
                    && final(self)@ == old(self)@.with_task(*key, *final(task)),
            !old(self)@.tasks.contains_key(*key) ==> final(self)@ == old(self)@,
    {
        let _ = self.tree.get_mut(key, change);
        proof {
            laws::fewer_tasks_stay_accounted(old(self)@, self@);
        }
    }

    /// Set up the progress of the task at `key`, for a handle of this generation. Completed tasks
    /// keep their progress.
    pub fn init(&mut self, key: &Key, generation: u64, max: Option<usize>, unit: Option<Unit>)
        requires
            old(self).wf(),
        ensures
            final(self).wf(),
            final(self)@ == old(self)@.with_init(*key, generation, max, unit),
    {
        if self.is_attached(generation) && !self.is_terminal(key) {
            let progress = if max.is_some() || unit.is_some() {
                Some(Value { step: 0, done_at: max, unit, state: State::Running })
            } else {
                None
            };
            let change = |task: &mut Task|
                ensures
                    *final(task) == (Task { progress, ..*old(task) }),
                { task.progress = progress };
            self.change_task(key, change);
        }
    }

    /// Set the step of the task at `key`, for a handle of this generation. Completed tasks keep
    /// their step.
    pub fn set(&mut self, key: &Key, generation: u64, step: usize)
        requires
            old(self).wf(),
        ensures
            final(self).wf(),
            final(self)@ == old(self)@.with_step(*key, generation, step),
    {
        if self.is_attached(generation) && !self.is_terminal(key) {
            let change = |task: &mut Task|
                ensures
                    match old(task).progress {
                        Some(value) => *final(task) == (Task {
                            progress: Some(Value { step, ..value }),
                            ..*old(task)
                        }),
                        None => *final(task) == *old(task),
                    },
                {
                    if let Some(value) = task.progress.as_mut() {
                        value.step = step;
                    }
                };
            self.change_task(key, change);
            assert(self@.tasks =~= old(self)@.with_step(*key, generation, step).tasks);
        }
    }

    /// Advance the task at `key` by `steps`, for a handle of this generation. Completed tasks keep
    /// their step.
    pub fn inc_by(&mut self, key: &Key, generation: u64, steps: usize)
        requires
            old(self).wf(),
        ensures
            final(self).wf(),
            final(self)@ == old(self)@.with_steps_added(*key, generation, steps),
    {
        if self.is_attached(generation) && !self.is_terminal(key) {
            let change = |task: &mut Task|
                ensures
                    match old(task).progress {
                        Some(value) => *final(task) == (Task {
                            progress: Some(Value { step: value.step.wrapping_add(steps), ..value }),
                            ..*old(task)
                        }),
                        None => *final(task) == *old(task),
                    },
                {
                    if let Some(value) = task.progress.as_mut() {
                        value.step = value.step.wrapping_add(steps);
                    }
                };
            self.change_task(key, change);
            assert(self@.tasks =~= old(self)@.with_steps_added(*key, generation, steps).tasks);
        }
    }

    /// Set the state of the task at `key`, for a handle of this generation. Completed tasks stay
    /// completed.
    pub fn set_state(&mut self, key: &Key, generation: u64, state: State)
        requires
            old(self).wf(),
        ensures
            final(self).wf(),
            final(self)@ == old(self)@.with_state(*key, generation, state),
    {
        if self.is_attached(generation) && !self.is_terminal(key) {
            let change = |task: &mut Task|
                ensures
                    match old(task).progress {
                        Some(value) => *final(task) == (Task {
                            progress: Some(Value { state, ..value }),
                            ..*old(task)
                        }),
                        None => *final(task) == *old(task),
                    },
                {
                    if let Some(value) = task.progress.as_mut() {
                        value.state = state;
                    }
                };
            self.change_task(key, change);
            assert(self@.tasks =~= old(self)@.with_state(*key, generation, state).tasks);
        }
    }

    /// Rename the task at `key`, for a handle of this generation.
    pub fn set_name(&mut self, key: &Key, generation: u64, name: String)
        requires
            old(self).wf(),
        ensures
            final(self).wf(),
            final(self)@ == old(self)@.with_name(*key, generation, name),
    {
        if self.is_attached(generation) {
            let change = |task: &mut Task|
                ensures
                    *final(task) == (Task { name, ..*old(task) }),
                { task.name = name };
            self.change_task(key, change);
        }
    }

    /// Retain a message of the task at `key`, for a handle of this generation.
    pub fn message(
        &mut self,
        key: &Key,
        generation: u64,
        time: Timestamp,
        level: MessageLevel,
        text: String,
    )
        requires
            old(self).wf(),
        ensures
            final(self).wf(),
            final(self)@ == old(self)@.with_message(*key, generation, time, level, text),
    {
        if self.is_attached(generation) {
            let name_of = |task: &Task| -> (name: String)
                ensures
                    name == task.name,
                { task.name.clone() };
            if let Some(origin) = self.tree.get(key, name_of) {
                self.messages.push_overwrite_at(time, level, origin, text);
            }
        }
        proof {
            laws::fewer_tasks_stay_accounted(old(self)@, self@);
        }
    }

    /// The number of tasks.
    pub fn num_tasks(&self) -> (res: usize)
        requires
            self.wf(),
        ensures
            res == self@.tasks.dom().len(),
    {
        self.tree.len()
    }

    /// The retained messages, oldest first.
    pub fn copy_messages(&self) -> (res: Vec<Message>)
        ensures
            res@ == self@.messages,
    {
        let mut out = Vec::new();
        self.messages.copy_all(&mut out);
        out
    }

    /// How many messages are retained at most.
    pub fn messages_capacity(&self) -> (res: usize)
        ensures
            res == self@.message_capacity,
    {
        self.messages.capacity()
    }
}

/// A tree that several holders have access to.
#[derive(Debug)]
struct SharedTree {
    lock: Mutex<Slot>,
    clock: Clock,
    /// The identity never changes, so that it can be looked at without the lock.
    tree_id: TreeId,
}

/// The top-level of the progress tree.
#[derive(Debug)]
pub struct Root {
    shared: Arc<SharedTree>,
}

impl Root {
    /// The lock of the tree.
    pub closed spec fn lock(self) -> Mutex<Slot> {
        self.shared.lock
    }

    /// The clock that messages are timestamped with.
    pub closed spec fn clock(self) -> Clock {
        self.shared.clock
    }

    /// The identity of the tree.
    pub closed spec fn identity(self) -> Seq<u8> {
        self.shared.tree_id@
    }

    proof fn parts(&self)
        ensures
            self.lock() == self.shared.lock,
            self.clock() == self.shared.clock,
            self.identity() == self.shared.tree_id@,
    {
    }
}

/// An element of the progress tree. It can be used to set progress and send messages.
///
/// Once the tree it belongs to was superseded by restoring a snapshot, it does nothing any more.
#[derive(Debug)]
pub struct Item {
    key: Key,
    generation: u64,
    shared: Arc<SharedTree>,
}

impl Item {
    /// The position of the element.
    pub closed spec fn position(self) -> Key {
        self.key
    }

    /// The generation of the tree that the element belongs to.
    pub closed spec fn generation(self) -> u64 {
        self.generation
    }

    /// The lock of the tree.
    pub closed spec fn lock(self) -> Mutex<Slot> {
        self.shared.lock
    }

    /// The clock that messages are timestamped with.
    pub closed spec fn clock(self) -> Clock {
        self.shared.clock
    }

    proof fn parts(&self)
        ensures
            self.position() == self.key,
            self.generation() == self.generation,
            self.lock() == self.shared.lock,
            self.clock() == self.shared.clock,
    {
    }
}

} // verus!
