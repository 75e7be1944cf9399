//! What a snapshot captures of a tree, and what a tree that is restored from one has, told by what is
//! in the tree and in the snapshot.

use vstd::prelude::*;

use crate::messages;
use crate::messages::Message;
use crate::progress::key;
use crate::progress::{Key, Task};
use crate::tree::operations;
use crate::tree::snapshot;
use crate::tree::snapshot::model::{MessageSnapshot, Record, TaskRecord};
use crate::tree::snapshot::stored;
use crate::tree::snapshot::transfer;
use crate::tree::TreeState;

verus! {

// Taking a snapshot.

/// Whether one path comes before another in hierarchy order: it leads to something above the other
/// one, or has the smaller number where they first differ.
pub open spec fn comes_first(path: Seq<key::Id>, other: Seq<key::Id>) -> bool {
    exists|n: int|
        0 <= n < other.len() && n <= path.len() && #[trigger] path.take(n) == other.take(n) && (n
            < path.len() ==> path[n] < other[n])
}

proof fn before_comes_first(one: Key, other: Key)
    requires
        one.before(other),
    ensures
        comes_first(one@, other@),
{
    let n = choose|n: int| one.before_at(other, n);
    assert(one@.take(n) =~= other@.take(n));
}

/// A snapshot has every task of the tree, other than one at the root, as it is: its path, name and
/// id, and its step, bound, state and unit.
pub proof fn snapshot_has_every_task(state: TreeState, record: Record, key: Key)
    requires
        transfer::is_snapshot_of(record, state),
        state.tasks.contains_key(key),
        key@.len() > 0,
    ensures
        exists|i: int|
            0 <= i < record.tasks.len() && stored::task_is_stored(
                key,
                state.tasks[key],
                #[trigger] record.tasks[i],
            ),
{
    assert(key != Key::Root);
    let i = choose|i: int|
        0 <= i < record.tasks.len() && (#[trigger] record.tasks[i]).position() == Some(key);
    stored::tasks_keep_their_meaning(key, state.tasks[key], record.tasks[i]);
    assert(record.tasks[i] == snapshot::task_record_of(key, state.tasks[key]));
}

/// A snapshot has no other tasks, and none at the root.
pub proof fn snapshot_has_no_other_tasks(state: TreeState, record: Record, i: int)
    requires
        transfer::is_snapshot_of(record, state),
        0 <= i < record.tasks.len(),
    ensures
        exists|key: Key|
            key@.len() > 0 && #[trigger] state.tasks.contains_key(key) && stored::task_is_stored(
                key,
                state.tasks[key],
                record.tasks[i],
            ),
{
    let key = record.tasks[i].position()->0;
    assert(state.tasks.contains_key(key));
    key::key_is_its_path(key);
    stored::tasks_keep_their_meaning(key, state.tasks[key], record.tasks[i]);
    assert(record.tasks[i] == snapshot::task_record_of(key, state.tasks[key]));
}

/// The tasks of a snapshot are in hierarchy order, so that none occurs twice.
pub proof fn snapshot_is_in_order(
    state: TreeState,
    record: Record,
    i: int,
    j: int,
    one: Key,
    other: Key,
)
    requires
        transfer::is_snapshot_of(record, state),
        0 <= i < j < record.tasks.len(),
        stored::path_is(record.tasks[i].key, one),
        stored::path_is(record.tasks[j].key, other),
    ensures
        comes_first(one@, other@),
        one != other,
{
    stored::position_is_read(record.tasks[i].key, one);
    stored::position_is_read(record.tasks[j].key, other);
    assert(record.tasks[i].position()->0.before(record.tasks[j].position()->0));
    before_comes_first(one, other);
    key::order_is_code_order(one, other);
}

/// A snapshot is of version 1, has the identity and the message capacity of the tree, and all its
/// retained messages as they are, in order.
pub proof fn snapshot_has_the_rest(state: TreeState, record: Record)
    requires
        transfer::is_snapshot_of(record, state),
    ensures
        record.version == 1,
        record.tree_id == state.tree_id,
        record.message_buffer_capacity == state.message_capacity,
        record.messages.len() == state.messages.len(),
        forall|i: int|
            0 <= i < state.messages.len() ==> {
                let message = state.messages[i];
                let kept = #[trigger] record.messages[i];
                &&& message.time.valid() ==> stored::message_is_stored(message, kept)
                &&& stored::severity_is(message.level, kept.level)
                &&& kept.origin == message.origin
                &&& kept.message == message.message
            },
{
    assert forall|i: int| 0 <= i < state.messages.len() implies {
        let message = state.messages[i];
        let kept = #[trigger] record.messages[i];
        &&& message.time.valid() ==> stored::message_is_stored(message, kept)
        &&& stored::severity_is(message.level, kept.level)
        &&& kept.origin == message.origin
        &&& kept.message == message.message
    } by {
        stored::messages_keep_their_meaning(state.messages[i], record.messages[i]);
    }
}

/// The entries of a tree are all its tasks as they are, each once and in hierarchy order.
pub proof fn entries_are_the_tasks(tasks: Map<Key, Task>, entries: Seq<(Key, Task)>)
    requires
        transfer::lists_entries(tasks, entries),
    ensures
        forall|i: int|
            0 <= i < entries.len() ==> tasks.contains_key((#[trigger] entries[i]).0)
                && tasks[entries[i].0] == entries[i].1,
        forall|key: Key| #[trigger]
            tasks.contains_key(key) ==> exists|i: int|
                0 <= i < entries.len() && (#[trigger] entries[i]).0 == key,
        forall|i: int, j: int|
            #![trigger entries[i], entries[j]]
            0 <= i < j < entries.len() ==> comes_first(entries[i].0@, entries[j].0@),
{
    assert forall|i: int| 0 <= i < entries.len() implies tasks.contains_key(
        (#[trigger] entries[i]).0,
    ) && tasks[entries[i].0] == entries[i].1 by {
        assert(entries.contains((entries[i].0, entries[i].1)));
    }
    assert forall|key: Key| #[trigger] tasks.contains_key(key) implies exists|i: int|
        0 <= i < entries.len() && (#[trigger] entries[i]).0 == key by {
        assert(entries.contains((key, tasks[key])));
        let i = choose|i: int| 0 <= i < entries.len() && entries[i] == (key, tasks[key]);
        assert(entries[i].0 == key);
    }
    assert forall|i: int, j: int|
        #![trigger entries[i], entries[j]]
        0 <= i < j < entries.len() implies comes_first(entries[i].0@, entries[j].0@) by {
        before_comes_first(entries[i].0, entries[j].0);
    }
}

// Restoring a tree.

/// A restored tree has tasks exactly where the snapshot has some.
pub proof fn restored_tree_has_the_positions(record: Record, key: Key)
    ensures
        transfer::restored(record).tasks.contains_key(key) <==> exists|i: int|
            0 <= i < record.tasks.len() && stored::path_is((#[trigger] record.tasks[i]).key, key),
{
    placed_positions(record.tasks, key);
}

proof fn placed_positions(tasks: Seq<TaskRecord>, key: Key)
    ensures
        transfer::placed_tasks(tasks).contains_key(key) <==> exists|i: int|
            0 <= i < tasks.len() && stored::path_is((#[trigger] tasks[i]).key, key),
    decreases tasks.len(),
{
    if tasks.len() > 0 {
        let init = tasks.drop_last();
        let last = tasks[tasks.len() - 1];
        placed_positions(init, key);
        stored::position_is_read(last.key, key);
        if exists|i: int| 0 <= i < init.len() && stored::path_is((#[trigger] init[i]).key, key) {
            let i = choose|i: int|
                0 <= i < init.len() && stored::path_is((#[trigger] init[i]).key, key);
            assert(stored::path_is(tasks[i].key, key));
        }
        if exists|i: int| 0 <= i < tasks.len() && stored::path_is((#[trigger] tasks[i]).key, key) {
            let i = choose|i: int|
                0 <= i < tasks.len() && stored::path_is((#[trigger] tasks[i]).key, key);
            if i < init.len() {
                assert(stored::path_is(init[i].key, key));
            }
        }
        if transfer::placed_tasks(tasks).contains_key(key) && last.position() == Some(key) {
            assert(stored::path_is(tasks[tasks.len() - 1].key, key));
        }
    }
}

/// Each task of a restored tree is the last one that the snapshot has at its position, in every
/// field.
pub proof fn restored_tasks_are_read(record: Record, key: Key, i: int)
    requires
        0 <= i < record.tasks.len(),
        stored::path_is(record.tasks[i].key, key),
        forall|j: int|
            i < j < record.tasks.len() ==> !stored::path_is((#[trigger] record.tasks[j]).key, key),
    ensures
        transfer::restored(record).tasks.contains_key(key),
        stored::task_is_read(transfer::restored(record).tasks[key], record.tasks[i]),
{
    placed_task(record.tasks, key, i);
}

proof fn placed_task(tasks: Seq<TaskRecord>, key: Key, i: int)
    requires
        0 <= i < tasks.len(),
        stored::path_is(tasks[i].key, key),
        forall|j: int| i < j < tasks.len() ==> !stored::path_is((#[trigger] tasks[j]).key, key),
    ensures
        transfer::placed_tasks(tasks).contains_key(key),
        stored::task_is_read(transfer::placed_tasks(tasks)[key], tasks[i]),
    decreases tasks.len(),
{
    let init = tasks.drop_last();
    let last = tasks[tasks.len() - 1];
    stored::position_is_read(last.key, key);
    if i == tasks.len() - 1 {
        stored::tasks_keep_their_meaning(key, snapshot::task_of(last), last);
    } else {
        assert(init[i] == tasks[i]);
        assert forall|j: int| i < j < init.len() implies !stored::path_is(
            (#[trigger] init[j]).key,
            key,
        ) by {
            assert(!stored::path_is(tasks[j].key, key));
        }
        assert(!stored::path_is(last.key, key));
        placed_task(init, key, i);
    }
}

/// A tree that is restored from its own snapshot has every task other than one at the root with the
/// same name, id, step and bound, whatever its unit and state.
pub proof fn restored_tree_keeps_progress(state: TreeState, record: Record, key: Key)
    requires
        transfer::is_snapshot_of(record, state),
        state.tasks.contains_key(key),
        key@.len() > 0,
    ensures
        ({
            let task = state.tasks[key];
            let after = transfer::restored(record).tasks;
            &&& after.contains_key(key)
            &&& after[key].name == task.name
            &&& after[key].id@ == task.id@
            &&& after[key].progress is Some <==> task.progress is Some
            &&& task.progress matches Some(value) ==> {
                &&& after[key].progress->0.step == value.step
                &&& after[key].progress->0.done_at == value.done_at
                &&& after[key].progress->0.state is Running <==> value.state is Running
                &&& after[key].progress->0.state is Blocked <==> value.state is Blocked
                &&& after[key].progress->0.state is Halted <==> value.state is Halted
                &&& after[key].progress->0.state is Completed <==> value.state is Completed
            }
        }),
{
    snapshot_has_every_task(state, record, key);
    let i = choose|i: int|
        0 <= i < record.tasks.len() && stored::task_is_stored(
            key,
            state.tasks[key],
            #[trigger] record.tasks[i],
        );
    assert forall|j: int| i < j < record.tasks.len() implies !stored::path_is(
        (#[trigger] record.tasks[j]).key,
        key,
    ) by {
        if stored::path_is(record.tasks[j].key, key) {
            snapshot_is_in_order(state, record, i, j, key, key);
        }
    }
    restored_tasks_are_read(record, key, i);
}

/// A restored tree has the identity and the message capacity of the snapshot, and a generation of
/// its own.
pub proof fn restored_tree_has_the_rest(record: Record)
    ensures
        transfer::restored(record).tree_id == record.tree_id,
        transfer::restored(record).message_capacity == record.message_buffer_capacity,
        transfer::restored(record).generation == 0,
        !transfer::restored(record).interrupted,
{
}

/// Whether a task of a snapshot is the child of `parent` with this number.
pub open spec fn has_number(task: TaskRecord, parent: Key, number: key::Id) -> bool {
    exists|key: Key|
        #[trigger] stored::path_is(task.key, key) && key@ == parent@.push(number)
}

/// Whether `next` is the number after the largest one that a task of the snapshot has below `parent`:
/// all those are smaller, or there is no larger number, and it comes right after one of them. Without
/// any it is 0.
pub open spec fn comes_after_all(next: key::Id, tasks: Seq<TaskRecord>, parent: Key) -> bool {
    &&& forall|i: int, number: key::Id|
        0 <= i < tasks.len() && #[trigger] has_number(tasks[i], parent, number) ==> number < next
            || next == 0xffff
    &&& next == 0 || exists|i: int, number: key::Id|
        0 <= i < tasks.len() && #[trigger] has_number(tasks[i], parent, number) && (next == number
            + 1 || number == 0xffff && next == 0xffff)
}

/// What is below a parent, by its path and by its position.
pub proof fn child_has_number(task: TaskRecord, parent: Key)
    ensures
        transfer::is_child(task, parent) <==> exists|number: key::Id| #[trigger]
            has_number(task, parent, number),
        transfer::is_child(task, parent) ==> has_number(
            task,
            parent,
            task.position()->0@.last(),
        ),
        forall|number: key::Id| #[trigger]
            has_number(task, parent, number) ==> task.position()->0@.last() == number,
{
    if transfer::is_child(task, parent) {
        let key = task.position()->0;
        stored::position_is_read(task.key, key);
        stored::parent_is_one_level_up(key);
        assert(stored::path_is(task.key, key) && key@ == parent@.push(key@.last()));
        assert(has_number(task, parent, key@.last()));
    }
    assert forall|number: key::Id| #[trigger] has_number(task, parent, number) implies
        task.position()->0@.last() == number && transfer::is_child(task, parent) by {
        let key = choose|key: Key|
            #[trigger] stored::path_is(task.key, key) && key@ == parent@.push(number);
        stored::position_is_read(task.key, key);
        assert(key@.drop_last() =~= parent@);
        key::key_is_its_path(parent);
    }
}

proof fn next_number_comes_after_all(tasks: Seq<TaskRecord>, parent: Key)
    ensures
        comes_after_all(transfer::next_number(tasks, parent), tasks, parent),
        transfer::has_child(tasks, parent) <==> exists|i: int, number: key::Id|
            0 <= i < tasks.len() && #[trigger] has_number(tasks[i], parent, number),
{
    transfer::next_number_meaning(tasks, parent);
    let next = transfer::next_number(tasks, parent);
    assert forall|i: int, number: key::Id|
        0 <= i < tasks.len() && #[trigger] has_number(tasks[i], parent, number) implies (number
        < next || next == 0xffff) && transfer::has_child(tasks, parent) by {
        child_has_number(tasks[i], parent);
        assert(transfer::is_child(tasks[i], parent));
        assert(transfer::has_child(tasks, parent));
        let largest = choose|largest: key::Id| #[trigger]
            transfer::is_largest_number(tasks, parent, largest) && next
                == crate::tree::number_after(largest);
        assert(tasks[i].position()->0@.last() <= largest);
    }
    if transfer::has_child(tasks, parent) {
        let largest = choose|largest: key::Id| #[trigger]
            transfer::is_largest_number(tasks, parent, largest) && next
                == crate::tree::number_after(largest);
        let i = choose|i: int|
            0 <= i < tasks.len() && transfer::is_child(#[trigger] tasks[i], parent)
                && tasks[i].position()->0@.last() == largest;
        child_has_number(tasks[i], parent);
        assert(has_number(tasks[i], parent, largest));
    }
}

/// In a restored tree the next child of each parent gets the number after those of its children in
/// the snapshot.
pub proof fn restored_tree_counts_on(record: Record, parent: Key)
    ensures
        comes_after_all(
            operations::next_below(transfer::restored(record), parent),
            record.tasks,
            parent,
        ),
{
    next_number_comes_after_all(record.tasks, parent);
    let restored = transfer::restored(record);
    if !(parent is Root) {
        if transfer::has_child(record.tasks, parent) {
            assert(restored.next_child.contains_key(parent));
        } else {
            transfer::next_number_meaning(record.tasks, parent);
        }
    }
}

/// In a tree that a snapshot was merged into, the next child of each parent gets the number it would
/// have got before, or the one after those of its children in the snapshot, whichever is larger.
pub proof fn merged_tree_counts_on(state: TreeState, record: Record, parent: Key)
    ensures
        ({
            let before = operations::next_below(state, parent);
            let after = operations::next_below(transfer::merged(state, record), parent);
            &&& after >= before
            &&& forall|i: int, number: key::Id|
                0 <= i < record.tasks.len() && #[trigger] has_number(
                    record.tasks[i],
                    parent,
                    number,
                ) ==> number < after || after == 0xffff
            &&& after == before || comes_after_all(after, record.tasks, parent)
        }),
{
    next_number_comes_after_all(record.tasks, parent);
    transfer::next_number_meaning(record.tasks, parent);
}

/// The number that a snapshot gives the next child of a parent is the one after those of its children
/// there.
pub proof fn next_number_counts_on(tasks: Seq<TaskRecord>, parent: Key)
    ensures
        comes_after_all(transfer::next_number(tasks, parent), tasks, parent),
{
    next_number_comes_after_all(tasks, parent);
}

// Messages of a snapshot.

/// How many of the first `n` messages of a snapshot have a severity.
pub open spec fn read_before(incoming: Seq<MessageSnapshot>, n: int) -> nat
    decreases n,
{
    if n <= 0 {
        0
    } else {
        read_before(incoming, n - 1) + if incoming[n - 1].level <= 2 {
            1nat
        } else {
            0
        }
    }
}

/// Whether the `k`th message that is read from a snapshot is its `i`th one.
pub open spec fn is_read_from(incoming: Seq<MessageSnapshot>, k: int, i: int) -> bool {
    &&& 0 <= i < incoming.len()
    &&& incoming[i].level <= 2
    &&& read_before(incoming, i) == k
    &&& stored::message_is_read(transfer::readable(incoming)[k], incoming[i])
}

/// Whether the `k`th message that is read from a snapshot is one of its messages.
pub open spec fn has_source(incoming: Seq<MessageSnapshot>, k: int) -> bool {
    exists|i: int| #[trigger] is_read_from(incoming, k, i)
}

/// The messages that are read from a snapshot are those with a severity, in order and as they were
/// stored.
pub proof fn messages_are_read(incoming: Seq<MessageSnapshot>)
    ensures
        transfer::readable(incoming).len() == read_before(incoming, incoming.len() as int),
        forall|i: int|
            0 <= i < incoming.len() && (#[trigger] incoming[i]).level <= 2 ==> 0 <= read_before(
                incoming,
                i,
            ) < transfer::readable(incoming).len() && stored::message_is_read(
                transfer::readable(incoming)[read_before(incoming, i) as int],
                incoming[i],
            ),
        forall|k: int|
            0 <= k < transfer::readable(incoming).len() ==> #[trigger] has_source(incoming, k),
    decreases incoming.len(),
{
    if incoming.len() > 0 {
        let init = incoming.drop_last();
        let last = incoming[incoming.len() - 1];
        messages_are_read(init);
        let all = transfer::readable(incoming);
        let before = transfer::readable(init);
        assert forall|n: int| 0 <= n <= init.len() implies #[trigger] read_before(incoming, n)
            == read_before(init, n) by {
            read_before_prefix(incoming, n);
        }
        stored::messages_keep_their_meaning(
            Message {
                time: crate::time::Timestamp::spec_at(0, 0),
                level: messages::MessageLevel::Info,
                origin: last.origin,
                message: last.message,
            },
            last,
        );
        assert(incoming.last() == last);
        assert(read_before(incoming, init.len() as int) == read_before(init, init.len() as int));
        assert(read_before(incoming, incoming.len() as int) == all.len());
        assert forall|i: int|
            0 <= i < incoming.len() && (#[trigger] incoming[i]).level <= 2 implies 0 <= read_before(
            incoming,
            i,
        ) < all.len() && stored::message_is_read(
            all[read_before(incoming, i) as int],
            incoming[i],
        ) by {
            if i < init.len() {
                assert(init[i] == incoming[i]);
                assert(read_before(incoming, i) == read_before(init, i));
                assert(all[read_before(init, i) as int] == before[read_before(init, i) as int]);
            } else {
                assert(read_before(incoming, i) == before.len());
            }
        }
        assert forall|k: int| 0 <= k < transfer::readable(incoming).len() implies #[trigger]
            has_source(incoming, k) by {
            if k < before.len() {
                assert(before[k] == all[k]);
                assert(has_source(init, k));
                let i = choose|i: int| #[trigger] is_read_from(init, k, i);
                assert(incoming[i] == init[i]);
                assert(read_before(incoming, i) == read_before(init, i));
                assert(is_read_from(incoming, k, i));
            } else {
                let i = incoming.len() - 1;
                assert(incoming[i].level <= 2);
                assert(is_read_from(incoming, k, i));
            }
        }
    }
}

proof fn read_before_prefix(incoming: Seq<MessageSnapshot>, n: int)
    requires
        0 <= n < incoming.len(),
    ensures
        read_before(incoming, n) == read_before(incoming.drop_last(), n),
    decreases n,
{
    if n > 0 {
        read_before_prefix(incoming, n - 1);
        assert(incoming.drop_last()[n - 1] == incoming[n - 1]);
    }
}

/// A restored tree retains the last messages with a severity of the snapshot, as many as there can
/// be, in order and as they were stored.
pub proof fn restored_messages_are_the_last(record: Record)
    ensures
        ({
            let all = read_before(record.messages, record.messages.len() as int);
            let retained = transfer::restored(record).messages;
            let capacity = record.message_buffer_capacity;
            &&& retained.len() == (if all <= capacity {
                all
            } else {
                capacity as nat
            })
            &&& forall|i: int|
                0 <= i < record.messages.len() && (#[trigger] record.messages[i]).level <= 2
                    && read_before(record.messages, i) >= all - retained.len()
                    ==> stored::message_is_read(
                    retained[read_before(record.messages, i) - (all - retained.len())],
                    record.messages[i],
                )
        }),
{
    messages_are_read(record.messages);
    replayed_are_the_last(record.message_buffer_capacity, record.messages);
}

proof fn replayed_are_the_last(capacity: usize, incoming: Seq<MessageSnapshot>)
    ensures
        transfer::replayed_messages(capacity, incoming) == crate::messages::merge::window(
            transfer::readable(incoming),
            capacity,
        ),
    decreases incoming.len(),
{
    if incoming.len() > 0 {
        let init = incoming.drop_last();
        replayed_are_the_last(capacity, init);
        assert(transfer::replayed_messages(capacity, incoming)
            =~= crate::messages::merge::window(transfer::readable(incoming), capacity));
    } else {
        assert(transfer::replayed_messages(capacity, incoming)
            =~= crate::messages::merge::window(transfer::readable(incoming), capacity));
    }
}

} // verus!
