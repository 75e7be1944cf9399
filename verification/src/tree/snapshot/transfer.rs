//! Taking a snapshot of a tree, rebuilding a tree from one, and merging one into a tree.

use vstd::prelude::*;

use crate::messages;
use crate::messages::merge;
use crate::messages::{Message, MessageRingBuffer};
use crate::progress::key;
use crate::progress::{Key, Task};
use crate::text;
use crate::tree::snapshot;
use crate::tree::snapshot::error::{MergeError, MergeReport, Refusal, RestoreError};
use crate::tree::snapshot::model;
use crate::tree::snapshot::model::{
    MessageSnapshot, Record, Snapshot, TaskRecord, TaskSnapshot, ValueSnapshot, SNAPSHOT_VERSION,
};
use crate::tree::snapshot::{
    decode_key, decode_level, decode_task, decode_time, encode_key, encode_state, encode_time,
    encode_unit, fold_existing_task, hex_id, parent_key,
};
use crate::tree;
use crate::tree::sync;
use crate::tree::sync::HashMap;
use crate::tree::{Shared, TreeId, TreeState};

verus! {

// Child numbers.

/// Whether `task` is directly below `parent`.
pub open spec fn is_child(task: TaskRecord, parent: Key) -> bool {
    task.position() matches Some(key) && key.spec_parent() == Some(parent)
}

/// Whether one of `tasks` is directly below `parent`.
pub open spec fn has_child(tasks: Seq<TaskRecord>, parent: Key) -> bool {
    exists|i: int| 0 <= i < tasks.len() && is_child(#[trigger] tasks[i], parent)
}

/// The smallest number that is larger than those of all children of `parent` among `tasks`, or the
/// largest number if there is no larger one.
pub open spec fn next_number(tasks: Seq<TaskRecord>, parent: Key) -> key::Id
    decreases tasks.len(),
{
    if tasks.len() == 0 {
        0
    } else {
        let before = next_number(tasks.drop_last(), parent);
        if is_child(tasks.last(), parent) {
            let after = tree::number_after(tasks.last().position()->0@.last());
            if after > before {
                after
            } else {
                before
            }
        } else {
            before
        }
    }
}

/// Whether `number` is the largest number that a child of `parent` among `tasks` has.
pub open spec fn is_largest_number(tasks: Seq<TaskRecord>, parent: Key, number: key::Id) -> bool {
    &&& exists|i: int|
        0 <= i < tasks.len() && is_child(#[trigger] tasks[i], parent)
            && tasks[i].position()->0@.last() == number
    &&& forall|i: int|
        0 <= i < tasks.len() && is_child(#[trigger] tasks[i], parent)
            ==> tasks[i].position()->0@.last() <= number
}

/// The next number is 0 without children, and otherwise the one after the largest number that a
/// child has.
pub proof fn next_number_meaning(tasks: Seq<TaskRecord>, parent: Key)
    ensures
        !has_child(tasks, parent) ==> next_number(tasks, parent) == 0,
        has_child(tasks, parent) ==> exists|number: key::Id| #[trigger]
            is_largest_number(tasks, parent, number) && next_number(tasks, parent)
                == tree::number_after(number),
    decreases tasks.len(),
{
    if tasks.len() > 0 {
        let init = tasks.drop_last();
        let last = tasks.last();
        assert(last == tasks[tasks.len() - 1]);
        next_number_meaning(init, parent);
        has_child_step(tasks, parent);
        assert forall|i: int| #![trigger init[i]] 0 <= i < init.len() implies init[i]
            == tasks[i] by {}
        if has_child(init, parent) {
            let number = choose|number: key::Id| #[trigger]
                is_largest_number(init, parent, number) && next_number(init, parent)
                    == tree::number_after(number);
            let i = choose|i: int|
                0 <= i < init.len() && is_child(#[trigger] init[i], parent)
                    && init[i].position()->0@.last() == number;
            assert(is_child(tasks[i], parent) && tasks[i].position()->0@.last() == number);
            let now = if is_child(last, parent) && last.position()->0@.last() > number {
                last.position()->0@.last()
            } else {
                number
            };
            assert forall|j: int|
                0 <= j < tasks.len() && is_child(#[trigger] tasks[j], parent) implies tasks[
                j].position()->0@.last() <= now by {
                if j < init.len() {
                    assert(is_child(init[j], parent));
                }
            }
            assert(is_largest_number(tasks, parent, now));
        } else if is_child(last, parent) {
            let number = last.position()->0@.last();
            assert forall|j: int|
                0 <= j < tasks.len() && is_child(#[trigger] tasks[j], parent) implies tasks[
                j].position()->0@.last() <= number by {
                if j < init.len() {
                    assert(is_child(init[j], parent));
                }
            }
            assert(is_largest_number(tasks, parent, number));
        }
    }
}

/// The next child numbers after `tasks` claimed theirs: they only move forward.
pub open spec fn seeded(next_child: Map<Key, key::Id>, tasks: Seq<TaskRecord>) -> Map<Key, key::Id> {
    Map::new(
        |parent: Key| next_child.contains_key(parent) || has_child(tasks, parent),
        |parent: Key|
            if next_number(tasks, parent) > tree::get_or_zero(next_child, parent) {
                next_number(tasks, parent)
            } else {
                tree::get_or_zero(next_child, parent)
            },
    )
}

fn last_number(key: &Key) -> (res: Option<key::Id>)
    ensures
        res == (if key@.len() == 0 {
            None
        } else {
            Some(key@.last())
        }),
{
    match *key {
        Key::Root => None,
        Key::L1(a) => Some(a),
        Key::L2(_, b) => Some(b),
        Key::L3(_, _, c) => Some(c),
        Key::L4(_, _, _, d) => Some(d),
        Key::L5(_, _, _, _, e) => Some(e),
        Key::L6(_, _, _, _, _, f) => Some(f),
    }
}

/// The number for the next child of `parent`, past those of all its children in the snapshot.
pub fn next_child_id(snapshot: &Snapshot, parent: &Key) -> (res: key::Id)
    ensures
        res == next_number(snapshot@.tasks, *parent),
{
    let ghost tasks = snapshot@.tasks;
    let mut next: key::Id = 0;
    for i in 0..snapshot.tasks.len()
        invariant
            tasks == snapshot@.tasks,
            next == next_number(tasks.take(i as int), *parent),
    {
        proof {
            assert(tasks.take(i + 1).drop_last() =~= tasks.take(i as int));
            assert(tasks.take(i + 1).last() == snapshot.tasks@[i as int]@);
        }
        if let Some(key) = decode_key(&snapshot.tasks[i].key) {
            if let (Some(above), Some(last)) = (parent_key(&key), last_number(&key)) {
                if above == *parent {
                    let after: key::Id = last.saturating_add(1);
                    if after > next {
                        next = after;
                    }
                }
            }
        }
    }
    assert(tasks.take(tasks.len() as int) =~= tasks);
    next
}

proof fn has_child_step(tasks: Seq<TaskRecord>, parent: Key)
    requires
        tasks.len() > 0,
    ensures
        has_child(tasks, parent) <==> has_child(tasks.drop_last(), parent) || is_child(
            tasks.last(),
            parent,
        ),
{
    let init = tasks.drop_last();
    if has_child(init, parent) {
        let i = choose|i: int| 0 <= i < init.len() && is_child(#[trigger] init[i], parent);
        assert(tasks[i] == init[i]);
    }
    if has_child(tasks, parent) {
        let i = choose|i: int| 0 <= i < tasks.len() && is_child(#[trigger] tasks[i], parent);
        if i < init.len() {
            assert(init[i] == tasks[i]);
        }
    }
    if is_child(tasks.last(), parent) {
        assert(is_child(tasks[tasks.len() - 1], parent));
    }
}

/// What one more task does to the child numbers.
proof fn seeded_step(next_child: Map<Key, key::Id>, tasks: Seq<TaskRecord>)
    requires
        tasks.len() > 0,
    ensures
        match tasks.last().position() {
            Some(key) if key@.len() > 0 => {
                let parent = key.spec_parent()->0;
                let before = seeded(next_child, tasks.drop_last());
                let after = tree::number_after(key@.last());
                seeded(next_child, tasks) == before.insert(
                    parent,
                    if after > tree::get_or_zero(before, parent) {
                        after
                    } else {
                        tree::get_or_zero(before, parent)
                    },
                )
            },
            _ => seeded(next_child, tasks) == seeded(next_child, tasks.drop_last()),
        },
{
    assert forall|parent: Key| has_child(tasks, parent) <==> has_child(tasks.drop_last(), parent)
        || is_child(tasks.last(), parent) by {
        has_child_step(tasks, parent);
    }
    assert forall|parent: Key|
        !has_child(tasks.drop_last(), parent) implies #[trigger] next_number(tasks.drop_last(), parent)
        == 0 by {
        next_number_meaning(tasks.drop_last(), parent);
    }
    let before = seeded(next_child, tasks.drop_last());
    match tasks.last().position() {
        Some(key) => {
            if key@.len() > 0 {
                let parent = key.spec_parent()->0;
                let after = tree::number_after(key@.last());
                let moved = if after > tree::get_or_zero(before, parent) {
                    after
                } else {
                    tree::get_or_zero(before, parent)
                };
                let now = seeded(next_child, tasks);
                let expected = before.insert(parent, moved);
                assert forall|p: Key| #[trigger]
                    now.contains_key(p) <==> expected.contains_key(p) by {
                    has_child_step(tasks, p);
                    assert(is_child(tasks.last(), p) <==> p == parent);
                }
                assert forall|p: Key| #[trigger] now.contains_key(p) implies now[p]
                    == expected[p] by {
                    assert(is_child(tasks.last(), p) <==> p == parent);
                    if !has_child(tasks.drop_last(), p) {
                        next_number_meaning(tasks.drop_last(), p);
                    }
                }
                assert(now =~= expected);
            } else {
                assert(seeded(next_child, tasks) =~= before);
            }
        },
        None => {
            assert(seeded(next_child, tasks) =~= before);
        },
    }
}

/// Move the child numbers past those of the tasks in a snapshot, so new children never reuse a
/// position that belongs to it.
fn seed_counters(next_child: &mut HashMap<key::Id>, tasks: &Vec<TaskSnapshot>)
    requires
        old(next_child).wf(),
    ensures
        final(next_child).wf(),
        final(next_child)@ == seeded(
            old(next_child)@,
            tasks@.map_values(|task: TaskSnapshot| task@),
        ),
{
    let ghost records = tasks@.map_values(|task: TaskSnapshot| task@);
    assert(seeded(next_child@, records.take(0)) =~= next_child@) by {
        assert forall|parent: Key| !has_child(records.take(0), parent) by {}
    }
    for i in 0..tasks.len()
        invariant
            records == tasks@.map_values(|task: TaskSnapshot| task@),
            next_child.wf(),
            next_child@ == seeded(old(next_child)@, records.take(i as int)),
    {
        proof {
            assert(records.take(i + 1).drop_last() =~= records.take(i as int));
            assert(records.take(i + 1).last() == tasks@[i as int]@);
            seeded_step(old(next_child)@, records.take(i + 1));
        }
        if let Some(key) = decode_key(&tasks[i].key) {
            if let (Some(parent), Some(last)) = (parent_key(&key), last_number(&key)) {
                let copy = |number: &key::Id| -> (copied: key::Id)
                    ensures
                        copied == *number,
                    { *number };
                let current: key::Id = match next_child.get(&parent, copy) {
                    Some(number) => number,
                    None => 0,
                };
                let after: key::Id = last.saturating_add(1);
                next_child.insert(
                    parent,
                    if after > current {
                        after
                    } else {
                        current
                    },
                );
            }
        }
    }
    assert(records.take(records.len() as int) =~= records);
}

// Messages.

/// What merging messages comes to.
pub struct MessageOutcome {
    /// The messages then retained.
    pub messages: Seq<Message>,
    /// How many were appended.
    pub appended: nat,
    /// How many were skipped because they are retained already, or could not be retained.
    pub skipped: nat,
}

/// The messages of a snapshot that have a severity.
pub open spec fn readable(incoming: Seq<MessageSnapshot>) -> Seq<Message>
    decreases incoming.len(),
{
    if incoming.len() == 0 {
        Seq::empty()
    } else {
        match snapshot::message_of(incoming.last()) {
            Some(message) => readable(incoming.drop_last()).push(message),
            None => readable(incoming.drop_last()),
        }
    }
}

/// What merging the `incoming` messages into the retained ones comes to. Those without a severity
/// are passed over. Those that are wanted and missing are appended, and the others are skipped.
pub open spec fn merged_messages(
    messages: Seq<Message>,
    capacity: usize,
    incoming: Seq<MessageSnapshot>,
) -> MessageOutcome {
    let all = readable(incoming);
    let appended = merge::missing(messages, merge::wanted(capacity, all)).len();
    MessageOutcome {
        messages: merge::combined(messages, capacity, all),
        appended,
        skipped: (all.len() - appended) as nat,
    }
}

fn readable_of(incoming: &Vec<MessageSnapshot>) -> (res: Vec<Message>)
    ensures
        res@ == readable(incoming@),
        res@.len() <= incoming@.len(),
{
    let mut res: Vec<Message> = Vec::new();
    for i in 0..incoming.len()
        invariant
            res@ == readable(incoming@.take(i as int)),
            res@.len() <= i,
    {
        let message = &incoming[i];
        proof {
            assert(incoming@.take(i + 1).drop_last() =~= incoming@.take(i as int));
            assert(incoming@.take(i + 1).last() == *message);
        }
        if let (Some(level), Some(time)) = (decode_level(message.level), decode_time(message)) {
            res.push(
                Message {
                    time,
                    level,
                    origin: message.origin.clone(),
                    message: message.message.clone(),
                },
            );
        }
    }
    assert(incoming@.take(incoming@.len() as int) =~= incoming@);
    res
}

/// Append only unseen messages, in snapshot order, preserving their original timestamps. Messages
/// that could not be retained together with those behind them are skipped, so that appending the
/// same messages again changes nothing.
pub fn merge_messages(buffer: &mut MessageRingBuffer, snapshot: &Snapshot, report: &mut MergeReport)
    requires
        old(buffer).wf(),
        old(report).messages_appended + snapshot.messages@.len() <= usize::MAX,
        old(report).messages_skipped + snapshot.messages@.len() <= usize::MAX,
    ensures
        final(buffer).wf(),
        final(buffer).limit() == old(buffer).limit(),
        ({
            let outcome = merged_messages(
                old(buffer)@,
                old(buffer).limit(),
                snapshot.messages@,
            );
            &&& final(buffer)@ == outcome.messages
            &&& *final(report) == (MergeReport {
                messages_appended: (old(report).messages_appended + outcome.appended) as usize,
                messages_skipped: (old(report).messages_skipped + outcome.skipped) as usize,
                ..*old(report)
            })
        }),
{
    let incoming = readable_of(&snapshot.messages);
    let appended: usize = buffer.merge(&incoming);
    report.messages_appended += appended;
    report.messages_skipped += incoming.len() - appended;
}

// Tasks.

/// The tasks after those of a snapshot were folded in, in order: those at new positions are
/// inserted, and the others folded into the task at their position.
pub open spec fn folded_tasks(tasks: Map<Key, Task>, incoming: Seq<TaskRecord>) -> Map<Key, Task>
    decreases incoming.len(),
{
    if incoming.len() == 0 {
        tasks
    } else {
        let before = folded_tasks(tasks, incoming.drop_last());
        let task = incoming.last();
        match task.position() {
            Some(key) => before.insert(
                key,
                if before.contains_key(key) {
                    snapshot::folded_task(before[key], task)
                } else {
                    snapshot::task_of(task)
                },
            ),
            None => before,
        }
    }
}

/// How many of the tasks of a snapshot are inserted when they are folded in, in order.
pub open spec fn inserted_tasks(tasks: Map<Key, Task>, incoming: Seq<TaskRecord>) -> nat
    decreases incoming.len(),
{
    if incoming.len() == 0 {
        0
    } else {
        let before = inserted_tasks(tasks, incoming.drop_last());
        if incoming.last().position() matches Some(key) && !folded_tasks(
            tasks,
            incoming.drop_last(),
        ).contains_key(key) {
            before + 1
        } else {
            before
        }
    }
}

/// Whether a snapshot has a task at `key`.
pub open spec fn speaks_of(incoming: Seq<TaskRecord>, key: Key) -> bool {
    exists|i: int| 0 <= i < incoming.len() && (#[trigger] incoming[i]).position() == Some(key)
}

/// Folding tasks in leaves those where there were some, and puts some where the snapshot has them.
pub proof fn folded_positions(tasks: Map<Key, Task>, incoming: Seq<TaskRecord>, key: Key)
    ensures
        folded_tasks(tasks, incoming).contains_key(key) <==> tasks.contains_key(key) || speaks_of(
            incoming,
            key,
        ),
    decreases incoming.len(),
{
    if incoming.len() > 0 {
        let init = incoming.drop_last();
        assert(incoming.last() == incoming[incoming.len() - 1]);
        folded_positions(tasks, init, key);
        if speaks_of(init, key) {
            let i = choose|i: int|
                0 <= i < init.len() && (#[trigger] init[i]).position() == Some(key);
            assert(incoming[i] == init[i]);
        }
        assert forall|i: int| #![trigger incoming[i]] 0 <= i < init.len() implies init[i]
            == incoming[i] by {}
    }
}

/// The positions of a snapshot's tasks that a tree has no tasks at.
pub open spec fn new_positions(tasks: Map<Key, Task>, incoming: Seq<TaskRecord>) -> Set<Key> {
    Set::new(|key: Key| !tasks.contains_key(key) && speaks_of(incoming, key))
}

/// As many tasks are inserted as the snapshot has positions that the tree has no tasks at.
pub proof fn inserted_tasks_meaning(tasks: Map<Key, Task>, incoming: Seq<TaskRecord>)
    ensures
        new_positions(tasks, incoming).finite(),
        inserted_tasks(tasks, incoming) == new_positions(tasks, incoming).len(),
    decreases incoming.len(),
{
    let all = new_positions(tasks, incoming);
    if incoming.len() == 0 {
        assert(all =~= Set::empty());
    } else {
        let init = incoming.drop_last();
        let before = new_positions(tasks, init);
        inserted_tasks_meaning(tasks, init);
        assert(incoming.last() == incoming[incoming.len() - 1]);
        assert forall|key: Key| #[trigger] before.contains(key) implies all.contains(key) by {
            let i = choose|i: int|
                0 <= i < init.len() && (#[trigger] init[i]).position() == Some(key);
            assert(incoming[i].position() == Some(key));
        }
        assert forall|key: Key| #[trigger] all.contains(key) implies before.contains(key)
            || incoming.last().position() == Some(key) by {
            let i = choose|i: int|
                0 <= i < incoming.len() && (#[trigger] incoming[i]).position() == Some(key);
            if i < init.len() {
                assert(init[i].position() == Some(key));
            }
        }
        if let Some(key) = incoming.last().position() {
            folded_positions(tasks, init, key);
            if folded_tasks(tasks, init).contains_key(key) {
                assert(all =~= before);
            } else {
                assert(all.contains(key));
                assert(all =~= before.insert(key));
            }
        } else {
            assert(all =~= before);
        }
    }
}

/// No more tasks are inserted than there are.
pub proof fn inserted_tasks_bound(tasks: Map<Key, Task>, incoming: Seq<TaskRecord>)
    ensures
        inserted_tasks(tasks, incoming) <= incoming.len(),
    decreases incoming.len(),
{
    if incoming.len() > 0 {
        inserted_tasks_bound(tasks, incoming.drop_last());
    }
}

/// The tasks before the first one at the root.
pub open spec fn before_root(tasks: Seq<TaskRecord>) -> Seq<TaskRecord>
    decreases tasks.len(),
{
    if tasks.len() == 0 {
        tasks
    } else {
        let init = tasks.drop_last();
        if before_root(init).len() < init.len() {
            before_root(init)
        } else if tasks.last().position() == Some(Key::Root) {
            init
        } else {
            tasks
        }
    }
}

/// Why continuing from a snapshot is refused to a tree of this identity, if so.
pub open spec fn restore_refusal(tree_id: Seq<u8>, record: Record) -> Option<Refusal> {
    if record.refusal() is Some {
        record.refusal()
    } else if record.tree_id != tree_id {
        Some(
            Refusal::TreeIdMismatch {
                snapshot: text::hex(record.tree_id),
                current: text::hex(tree_id),
            },
        )
    } else {
        None
    }
}

/// Whether a snapshot has a task at the root.
pub open spec fn has_root_task(record: Record) -> bool {
    before_root(record.tasks).len() < record.tasks.len()
}

/// The refusal of a snapshot that has a task at the root.
pub open spec fn root_task_refusal() -> Refusal {
    Refusal::Malformed { context: "snapshot contains a task for the root key"@ }
}

/// Why merging a snapshot into a tree of this identity is refused, if so.
pub open spec fn merge_refusal(tree_id: Seq<u8>, record: Record) -> Option<Refusal> {
    if restore_refusal(tree_id, record) is Some {
        restore_refusal(tree_id, record)
    } else if has_root_task(record) {
        Some(root_task_refusal())
    } else {
        None
    }
}

/// A tree after a snapshot was merged into it.
pub open spec fn merged(state: TreeState, record: Record) -> TreeState {
    TreeState {
        tasks: folded_tasks(state.tasks, record.tasks),
        messages: merged_messages(
            state.messages,
            state.message_capacity,
            record.messages,
        ).messages,
        next_child: seeded(state.next_child, record.tasks),
        root_next_child: if next_number(record.tasks, Key::Root) > state.root_next_child {
            next_number(record.tasks, Key::Root)
        } else {
            state.root_next_child
        },
        ..state
    }
}

/// A tree after the tasks of a snapshot that come before one at the root were folded into it.
pub open spec fn partly_merged(state: TreeState, record: Record) -> TreeState {
    TreeState {
        tasks: folded_tasks(state.tasks, before_root(record.tasks)),
        interrupted: state.interrupted || before_root(record.tasks).len() > 0,
        ..state
    }
}

/// A tree after merging a snapshot into it was refused. It is as it was, except that the tasks
/// before one at the root have been folded in by the time that one is met.
pub open spec fn refused(state: TreeState, record: Record) -> TreeState {
    if restore_refusal(state.tree_id, record) is Some {
        state
    } else {
        partly_merged(state, record)
    }
}

/// What merging a snapshot into a tree reports.
pub open spec fn merge_report(state: TreeState, record: Record) -> MergeReport {
    let outcome = merged_messages(state.messages, state.message_capacity, record.messages);
    let inserted = inserted_tasks(state.tasks, record.tasks);
    MergeReport {
        tasks_inserted: inserted as usize,
        tasks_updated: (record.tasks.len() - inserted) as usize,
        messages_appended: outcome.appended as usize,
        messages_skipped: outcome.skipped as usize,
    }
}

/// The tasks of a snapshot by their positions; of several at one position the last one counts.
pub open spec fn placed_tasks(tasks: Seq<TaskRecord>) -> Map<Key, Task>
    decreases tasks.len(),
{
    if tasks.len() == 0 {
        Map::empty()
    } else {
        let before = placed_tasks(tasks.drop_last());
        match tasks.last().position() {
            Some(key) => before.insert(key, snapshot::task_of(tasks.last())),
            None => before,
        }
    }
}

/// The messages of a snapshot, as many of the last ones as are retained. Those without a severity
/// are passed over.
pub open spec fn replayed_messages(capacity: usize, incoming: Seq<MessageSnapshot>) -> Seq<Message>
    decreases incoming.len(),
{
    if incoming.len() == 0 {
        Seq::empty()
    } else {
        let before = replayed_messages(capacity, incoming.drop_last());
        match snapshot::message_of(incoming.last()) {
            Some(message) => messages::pushed(before, capacity, message),
            None => before,
        }
    }
}

/// The tree that a snapshot describes.
pub open spec fn restored(record: Record) -> TreeState {
    TreeState {
        tasks: placed_tasks(record.tasks),
        messages: replayed_messages(record.message_buffer_capacity, record.messages),
        message_capacity: record.message_buffer_capacity,
        generation: 0,
        next_child: seeded(Map::empty(), record.tasks),
        root_next_child: next_number(record.tasks, Key::Root),
        tree_id: record.tree_id,
        interrupted: false,
    }
}

/// Whether `records` are the tasks other than one at the root, in hierarchy order.
pub open spec fn lists_tasks(tasks: Map<Key, Task>, records: Seq<TaskRecord>) -> bool {
    &&& forall|i: int|
        #![trigger records[i]]
        0 <= i < records.len() ==> {
            &&& records[i].position() matches Some(key)
            &&& key != Key::Root
            &&& tasks.contains_key(key)
            &&& records[i] == snapshot::task_record_of(key, tasks[key])
        }
    &&& forall|i: int, j: int|
        #![trigger records[i], records[j]]
        0 <= i < j < records.len() ==> records[i].position()->0.before(records[j].position()->0)
    &&& forall|key: Key| #[trigger]
        tasks.contains_key(key) && key != Key::Root ==> exists|i: int|
            0 <= i < records.len() && (#[trigger] records[i]).position() == Some(key)
}

/// Whether `entries` are all tasks with their positions, in hierarchy order.
pub open spec fn lists_entries(tasks: Map<Key, Task>, entries: Seq<(Key, Task)>) -> bool {
    &&& sync::in_order(entries)
    &&& entries.len() == tasks.dom().len()
    &&& forall|key: Key, task: Task| #[trigger]
        entries.contains((key, task)) <==> tasks.contains_key(key) && tasks[key] == task
}

/// Whether `record` is a snapshot of the tree.
pub open spec fn is_snapshot_of(record: Record, state: TreeState) -> bool {
    &&& record.version == SNAPSHOT_VERSION
    &&& record.tree_id == state.tree_id
    &&& record.message_buffer_capacity == state.message_capacity
    &&& lists_tasks(state.tasks, record.tasks)
    &&& record.messages == state.messages.map_values(
        |message: Message| snapshot::message_snapshot_of(message),
    )
}

fn encode_task(key: Key, task: &Task) -> (res: TaskSnapshot)
    ensures
        res@ == snapshot::task_record_of(key, *task),
{
    let progress = match &task.progress {
        Some(value) => Some(
            ValueSnapshot {
                step: value.step,
                done_at: value.done_at,
                state: encode_state(&value.state),
                unit: encode_unit(&value.unit),
            },
        ),
        None => None,
    };
    let id = vec![task.id[0], task.id[1], task.id[2], task.id[3]];
    assert(id@ =~= task.id@);
    TaskSnapshot { key: encode_key(key), name: task.name.clone(), id, progress }
}

/// How many of the ordered `entries` are at the root.
spec fn root_entries(entries: Seq<(Key, Task)>) -> int {
    if entries.len() > 0 && entries[0].0 == Key::Root {
        1
    } else {
        0
    }
}

/// Nothing comes before the root.
proof fn root_comes_first(entries: Seq<(Key, Task)>)
    requires
        sync::in_order(entries),
    ensures
        forall|i: int|
            #![trigger entries[i]]
            0 <= i < entries.len() ==> (entries[i].0 == Key::Root <==> i < root_entries(entries)),
{
    assert forall|i: int| #![trigger entries[i]] 0 < i < entries.len() implies entries[i].0
        != Key::Root by {
        assert(entries[0].0.before(entries[i].0));
    }
}

fn encode_tasks(entries: &Vec<(Key, Task)>) -> (res: Vec<TaskSnapshot>)
    requires
        sync::in_order(entries@),
    ensures
        res@.len() == entries@.len() - root_entries(entries@),
        forall|i: int|
            #![trigger res@[i]]
            0 <= i < res@.len() ==> res@[i]@ == snapshot::task_record_of(
                entries@[i + root_entries(entries@)].0,
                entries@[i + root_entries(entries@)].1,
            ),
{
    let ghost skipped = root_entries(entries@);
    let mut tasks: Vec<TaskSnapshot> = Vec::new();
    proof {
        root_comes_first(entries@);
    }
    for i in 0..entries.len()
        invariant
            skipped == root_entries(entries@),
            forall|k: int|
                #![trigger entries@[k]]
                0 <= k < entries@.len() ==> (entries@[k].0 == Key::Root <==> k < skipped),
            tasks@.len() == (if i < skipped {
                0
            } else {
                i - skipped
            }),
            forall|j: int|
                #![trigger tasks@[j]]
                0 <= j < tasks@.len() ==> tasks@[j]@ == snapshot::task_record_of(
                    entries@[j + skipped].0,
                    entries@[j + skipped].1,
                ),
    {
        let (key, task) = &entries[i];
        if *key != Key::Root {
            tasks.push(encode_task(*key, task));
        }
    }
    tasks
}

fn encode_message(message: &Message) -> (res: MessageSnapshot)
    ensures
        res == snapshot::message_snapshot_of(*message),
{
    let time = encode_time(message.time);
    let level: u8 = match message.level {
        messages::MessageLevel::Info => 0,
        messages::MessageLevel::Failure => 1,
        messages::MessageLevel::Success => 2,
    };
    MessageSnapshot {
        secs: time.secs,
        nanos: time.nanos,
        level,
        origin: message.origin.clone(),
        message: message.message.clone(),
    }
}

/// Check that a tree of this identity can continue from `snapshot`.
pub fn check_restorable(tree_id: &TreeId, snapshot: &Snapshot) -> (res: Result<(), RestoreError>)
    ensures
        match res {
            Ok(()) => restore_refusal(tree_id@, snapshot@) is None,
            Err(error) => restore_refusal(tree_id@, snapshot@) == Some(error@),
        },
{
    snapshot.validate()?;
    if !tree_id.is(snapshot.tree_id.as_slice()) {
        return Err(
            RestoreError::TreeIdMismatch {
                snapshot: hex_id(snapshot.tree_id.as_slice()),
                current: hex_id(tree_id.0.as_slice()),
            },
        );
    }
    Ok(())
}

impl Shared {
    /// Every task with its position, in hierarchy order.
    pub fn sorted_entries(&self) -> (res: Vec<(Key, Task)>)
        requires
            self.wf(),
        ensures
            lists_entries(self@.tasks, res@),
    {
        let mut entries = Vec::new();
        self.tree.extend_to(&mut entries);
        let ghost list = entries@;
        assert(list.skip(0) =~= list);
        let res = sync::sort_entries(entries);
        proof {
            assert forall|key: Key, task: Task| #[trigger]
                res@.contains((key, task)) <==> self@.tasks.contains_key(key) && self@.tasks[key]
                    == task by {
                if self@.tasks.contains_key(key) {
                    let i = choose|i: int| 0 <= i < list.len() && (#[trigger] list[i]).0 == key;
                    assert(list.contains(list[i]));
                }
                if list.contains((key, task)) {
                    let i = choose|i: int| 0 <= i < list.len() && list[i] == (key, task);
                }
            }
        }
        res
    }

    /// Produce a snapshot of every task and the retained messages.
    pub fn snapshot(&self) -> (res: Snapshot)
        requires
            self.wf(),
        ensures
            is_snapshot_of(res@, self@),
    {
        let entries = self.sorted_entries();
        let tasks = encode_tasks(&entries);
        let entries_of_messages = self.copy_messages();
        let mut messages: Vec<MessageSnapshot> = Vec::new();
        let ghost encode = |message: Message| snapshot::message_snapshot_of(message);
        for i in 0..entries_of_messages.len()
            invariant
                encode == (|message: Message| snapshot::message_snapshot_of(message)),
                messages@ == entries_of_messages@.take(i as int).map_values(encode),
        {
            messages.push(encode_message(&entries_of_messages[i]));
            assert(messages@ =~= entries_of_messages@.take(i + 1).map_values(encode));
        }
        assert(entries_of_messages@.take(entries_of_messages@.len() as int)
            =~= entries_of_messages@);
        let res = Snapshot {
            version: SNAPSHOT_VERSION,
            tree_id: self.tree_id.to_vec(),
            message_buffer_capacity: self.messages_capacity(),
            tasks,
            messages,
        };
        proof {
            let records = res@.tasks;
            let skipped = root_entries(entries@);
            root_comes_first(entries@);
            assert forall|i: int| #![trigger records[i]] 0 <= i < records.len() implies {
                let (key, task) = entries@[i + skipped];
                &&& records[i] == snapshot::task_record_of(key, task)
                &&& records[i].position() == Some(key)
                &&& key != Key::Root
                &&& self@.tasks.contains_key(key)
                &&& self@.tasks[key] == task
            } by {
                let (key, task) = entries@[i + skipped];
                model::position_round_trips(key);
                assert(entries@.contains((key, task)));
            }
            assert forall|key: Key| #[trigger]
                self@.tasks.contains_key(key) && key != Key::Root implies exists|i: int|
                0 <= i < records.len() && (#[trigger] records[i]).position() == Some(key) by {
                assert(entries@.contains((key, self@.tasks[key])));
                let k = choose|k: int|
                    0 <= k < entries@.len() && entries@[k] == (key, self@.tasks[key]);
                assert(records[k - skipped].position() == Some(key));
            }
        }
        res
    }

    /// Insert or monotonically merge a single task.
    fn fold_task(&mut self, key: Key, task: &TaskSnapshot, report: &mut MergeReport)
        requires
            old(self).sound(),
            task@.position() == Some(key),
            old(report).tasks_inserted < usize::MAX,
            old(report).tasks_updated < usize::MAX,
        ensures
            final(self).sound(),
            final(self)@ == old(self)@.with_task(
                key,
                if old(self)@.tasks.contains_key(key) {
                    snapshot::folded_task(old(self)@.tasks[key], task@)
                } else {
                    snapshot::task_of(task@)
                },
            ),
            *final(report) == (if old(self)@.tasks.contains_key(key) {
                MergeReport {
                    tasks_updated: (old(report).tasks_updated + 1) as usize,
                    ..*old(report)
                }
            } else {
                MergeReport {
                    tasks_inserted: (old(report).tasks_inserted + 1) as usize,
                    ..*old(report)
                }
            }),
    {
        if !self.tree.contains_key(&key) {
            self.tree.insert(key, decode_task(task));
            report.tasks_inserted += 1;
        } else {
            let fold = |existing: &mut Task|
                ensures
                    *final(existing) == snapshot::folded_task(*old(existing), task@),
                { fold_existing_task(existing, task) };
            let _ = self.tree.get_mut(&key, fold);
            report.tasks_updated += 1;
        }
    }

    /// Monotonically fold a snapshot into this tree and report what changed.
    ///
    /// Steps only move up per item and terminal states cannot be reopened.
    pub fn merge(&mut self, snapshot: &Snapshot) -> (res: Result<MergeReport, MergeError>)
        requires
            old(self).wf(),
        ensures
            final(self).wf(),
            match res {
                Ok(report) => {
                    &&& merge_refusal(old(self)@.tree_id, snapshot@) is None
                    &&& report == merge_report(old(self)@, snapshot@)
                    &&& final(self)@ == merged(old(self)@, snapshot@)
                },
                Err(error) => {
                    &&& merge_refusal(old(self)@.tree_id, snapshot@) == Some(error@)
                    &&& final(self)@ == refused(old(self)@, snapshot@)
                },
            },
    {
        let tree_id = self.tree_id;
        self.merge_as(&tree_id, snapshot)
    }

    /// Monotonically fold a snapshot into this tree, which goes by `tree_id`, and report what
    /// changed.
    pub(crate) fn merge_as(&mut self, tree_id: &TreeId, snapshot: &Snapshot) -> (res: Result<
        MergeReport,
        MergeError,
    >)
        requires
            old(self).wf(),
        ensures
            final(self).wf(),
            match res {
                Ok(report) => {
                    &&& merge_refusal(tree_id@, snapshot@) is None
                    &&& report == merge_report(old(self)@, snapshot@)
                    &&& final(self)@ == merged(old(self)@, snapshot@)
                },
                Err(error) => {
                    &&& merge_refusal(tree_id@, snapshot@) == Some(error@)
                    &&& final(self)@ == (if restore_refusal(tree_id@, snapshot@) is Some {
                        old(self)@
                    } else {
                        partly_merged(old(self)@, snapshot@)
                    })
                },
            },
    {
        match check_restorable(tree_id, snapshot) {
            Ok(()) => self.fold(snapshot),
            Err(error) => {
                proof {
                    crate::tree::snapshot::error::from_keeps_the_refusal(error);
                }
                Err(MergeError::from(error))
            },
        }
    }

    /// Monotonically fold a snapshot of this tree, in the right format, into it and report what
    /// changed. A task at the root is refused when it is met.
    pub fn fold(&mut self, snapshot: &Snapshot) -> (res: Result<MergeReport, MergeError>)
        requires
            old(self).wf(),
            snapshot@.refusal() is None,
        ensures
            final(self).wf(),
            match res {
                Ok(report) => {
                    &&& !has_root_task(snapshot@)
                    &&& report == merge_report(old(self)@, snapshot@)
                    &&& final(self)@ == merged(old(self)@, snapshot@)
                },
                Err(error) => {
                    &&& has_root_task(snapshot@)
                    &&& error@ == root_task_refusal()
                    &&& final(self)@ == partly_merged(old(self)@, snapshot@)
                },
            },
    {
        let mut report = MergeReport::default();
        let ghost tasks = snapshot@.tasks;
        proof {
            model::validity_meaning(snapshot@);
        }
        for i in 0..snapshot.tasks.len()
            invariant
                tasks == snapshot@.tasks,
                snapshot@.refusal() is None,
                forall|j: int|
                    #![trigger tasks[j]]
                    0 <= j < tasks.len() ==> tasks[j].position() is Some,
                before_root(tasks.take(i as int)) == tasks.take(i as int),
                tree::laws::accounted(old(self)@),
                self.sound(),
                self@ == (TreeState {
                    tasks: folded_tasks(old(self)@.tasks, tasks.take(i as int)),
                    ..old(self)@
                }),
                report.tasks_inserted == inserted_tasks(old(self)@.tasks, tasks.take(i as int)),
                report.tasks_updated == i - report.tasks_inserted,
                report.messages_appended == 0,
                report.messages_skipped == 0,
        {
            let task = &snapshot.tasks[i];
            proof {
                assert(tasks[i as int] == task@);
                assert(tasks.take(i + 1).drop_last() =~= tasks.take(i as int));
                assert(tasks.take(i + 1).last() == task@);
                inserted_tasks_bound(old(self)@.tasks, tasks.take(i as int));
                before_root_sticks(tasks, i + 1);
            }
            if let Some(key) = decode_key(&task.key) {
                if key == Key::Root {
                    self.interrupted = self.interrupted || i > 0;
                    proof {
                        assert(before_root(tasks) == tasks.take(i as int));
                        assert(tasks.take(0) =~= Seq::empty());
                    }
                    return Err(
                        MergeError::Malformed {
                            context: "snapshot contains a task for the root key".to_owned(),
                        },
                    );
                }
                self.fold_task(key, task, &mut report);
            }
        }
        assert(tasks.take(tasks.len() as int) =~= tasks);
        // Move the child numbers past every snapshot key, so new children never reuse one.
        seed_counters(&mut self.next_child, &snapshot.tasks);
        let root_next: key::Id = next_child_id(snapshot, &Key::Root);
        if root_next > self.root_next_child {
            self.root_next_child = root_next;
        }
        assert(snapshot.messages.len() <= usize::MAX);
        merge_messages(&mut self.messages, snapshot, &mut report);
        proof {
            tree::laws::merged_tree_is_numbered(old(self)@, snapshot@);
        }
        Ok(report)
    }

    /// Continue the tree described by `snapshot`, and invalidate every handle of this one. A snapshot
    /// that is refused changes nothing.
    pub fn restore(&mut self, snapshot: &Snapshot) -> (res: Result<Shared, RestoreError>)
        requires
            old(self).wf(),
        ensures
            final(self).wf(),
            match res {
                Ok(tree) => {
                    &&& restore_refusal(old(self)@.tree_id, snapshot@) is None
                    &&& tree.wf()
                    &&& tree@ == restored(snapshot@)
                    &&& final(self)@ == old(self)@.superseded()
                },
                Err(error) => {
                    &&& restore_refusal(old(self)@.tree_id, snapshot@) == Some(error@)
                    &&& final(self)@ == old(self)@
                },
            },
    {
        let tree_id = self.tree_id;
        self.restore_as(&tree_id, snapshot)
    }

    /// Continue the tree described by `snapshot`, and invalidate every handle of this one, which goes
    /// by `tree_id`. A snapshot that is refused changes nothing.
    pub(crate) fn restore_as(&mut self, tree_id: &TreeId, snapshot: &Snapshot) -> (res: Result<
        Shared,
        RestoreError,
    >)
        requires
            old(self).wf(),
        ensures
            final(self).wf(),
            match res {
                Ok(tree) => {
                    &&& restore_refusal(tree_id@, snapshot@) is None
                    &&& tree.wf()
                    &&& tree@ == restored(snapshot@)
                    &&& final(self)@ == old(self)@.superseded()
                },
                Err(error) => {
                    &&& restore_refusal(tree_id@, snapshot@) == Some(error@)
                    &&& final(self)@ == old(self)@
                },
            },
    {
        check_restorable(tree_id, snapshot)?;
        let tree = Shared::from_snapshot(snapshot);
        self.supersede();
        Ok(tree)
    }

    /// Rebuild the tree that a snapshot describes.
    pub fn from_snapshot(snapshot: &Snapshot) -> (res: Shared)
        requires
            snapshot@.refusal() is None,
        ensures
            res.wf(),
            res@ == restored(snapshot@),
    {
        proof {
            model::validity_meaning(snapshot@);
            tree::laws::restored_tree_is_numbered(snapshot@);
        }
        let capacity: usize = if snapshot.tasks.len() > 16 {
            snapshot.tasks.len()
        } else {
            16
        };
        let mut tree: HashMap<Task> = HashMap::with_capacity(capacity);
        let ghost tasks = snapshot@.tasks;
        for i in 0..snapshot.tasks.len()
            invariant
                tasks == snapshot@.tasks,
                tree.wf(),
                tree@ == placed_tasks(tasks.take(i as int)),
        {
            let task = &snapshot.tasks[i];
            proof {
                assert(tasks.take(i + 1).drop_last() =~= tasks.take(i as int));
                assert(tasks.take(i + 1).last() == task@);
            }
            if let Some(key) = decode_key(&task.key) {
                tree.insert(key, decode_task(task));
            }
        }
        assert(tasks.take(tasks.len() as int) =~= tasks);
        let mut next_child: HashMap<key::Id> = HashMap::with_capacity(0);
        seed_counters(&mut next_child, &snapshot.tasks);
        let mut messages = MessageRingBuffer::with_capacity(snapshot.message_buffer_capacity);
        let ghost incoming = snapshot.messages@;
        for i in 0..snapshot.messages.len()
            invariant
                incoming == snapshot.messages@,
                messages.wf(),
                messages.limit() == snapshot.message_buffer_capacity,
                messages@ == replayed_messages(
                    snapshot.message_buffer_capacity,
                    incoming.take(i as int),
                ),
        {
            let message = &snapshot.messages[i];
            proof {
                assert(incoming.take(i + 1).drop_last() =~= incoming.take(i as int));
                assert(incoming.take(i + 1).last() == *message);
            }
            if let (Some(level), Some(time)) = (decode_level(message.level), decode_time(message)) {
                messages.push_overwrite_at(
                    time,
                    level,
                    message.origin.clone(),
                    message.message.clone(),
                );
            }
        }
        assert(incoming.take(incoming.len() as int) =~= incoming);
        Shared {
            tree,
            messages,
            generation: 0,
            next_child,
            root_next_child: next_child_id(snapshot, &Key::Root),
            tree_id: TreeId::from_slice(snapshot.tree_id.as_slice()),
            interrupted: false,
        }
    }
}

/// Once a task is at the root, the tasks behind it change nothing.
proof fn before_root_sticks(tasks: Seq<TaskRecord>, n: int)
    requires
        0 <= n <= tasks.len(),
    ensures
        before_root(tasks.take(n)).len() < n ==> before_root(tasks) == before_root(tasks.take(n)),
        before_root(tasks.take(n)).len() <= n,
    decreases tasks.len() - n,
{
    before_root_bound(tasks.take(n));
    if n < tasks.len() {
        before_root_sticks(tasks, n + 1);
        assert(tasks.take(n + 1).drop_last() =~= tasks.take(n));
    } else {
        assert(tasks.take(n) =~= tasks);
    }
}

proof fn before_root_bound(tasks: Seq<TaskRecord>)
    ensures
        before_root(tasks).len() <= tasks.len(),
    decreases tasks.len(),
{
    if tasks.len() > 0 {
        before_root_bound(tasks.drop_last());
    }
}

} // verus!
