//! What holds of snapshots, restoring and merging as a whole.

use vstd::prelude::*;

use crate::messages;
use crate::messages::merge;
use crate::progress::key;
use crate::progress::{Key, State, Task, Value, UNKNOWN};
use crate::tree::snapshot;
use crate::tree::snapshot::model;
use crate::tree::snapshot::model::{MessageSnapshot, Record, TaskRecord};
use crate::tree::snapshot::transfer;
use crate::tree::TreeState;

verus! {

// Folding tasks.

/// Whether everything that `incoming` has to add is part of `task` already, but for a state that
/// can still change.
pub open spec fn covers(task: Task, incoming: TaskRecord) -> bool {
    &&& task.id != UNKNOWN || !snapshot::valid_id(incoming.id)
    &&& task.name@.len() != 0 || incoming.name@.len() == 0
    &&& incoming.progress matches Some(other) ==> {
        &&& task.progress matches Some(value)
        &&& value.step >= other.step
        &&& snapshot::later_bound(value.done_at, other.done_at) == value.done_at
        &&& value.unit is Some || other.unit is None
        &&& value.state.terminal() || !snapshot::state_of(other.state).terminal()
    }
}

/// The state that the last of `incoming` with progress at `key` reports.
pub open spec fn last_state(incoming: Seq<TaskRecord>, key: Key) -> Option<State>
    decreases incoming.len(),
{
    if incoming.len() == 0 {
        None
    } else if incoming.last().position() == Some(key) && incoming.last().progress is Some {
        Some(snapshot::state_of(incoming.last().progress->0.state))
    } else {
        last_state(incoming.drop_last(), key)
    }
}

/// `task` with another state, if it can change and one is given.
pub open spec fn restated(task: Task, state: Option<State>) -> Task {
    match (task.progress, state) {
        (Some(value), Some(state)) => if value.state.terminal() {
            task
        } else {
            Task { progress: Some(Value { state, ..value }), ..task }
        },
        _ => task,
    }
}

proof fn valid_id_is_known(id: Seq<u8>)
    requires
        snapshot::valid_id(id),
    ensures
        snapshot::id_of(id) != UNKNOWN,
{
    assert(snapshot::id_of(id)@ =~= id);
}

/// A task covers what was folded into it.
pub proof fn fold_covers(task: Task, incoming: TaskRecord)
    ensures
        covers(snapshot::folded_task(task, incoming), incoming),
        covers(snapshot::task_of(incoming), incoming),
{
    if snapshot::valid_id(incoming.id) {
        valid_id_is_known(incoming.id);
    }
}

/// A task still covers what it covered after another one is folded in.
pub proof fn fold_keeps_cover(task: Task, incoming: TaskRecord, covered: TaskRecord)
    requires
        covers(task, covered),
    ensures
        covers(snapshot::folded_task(task, incoming), covered),
{
    if snapshot::valid_id(incoming.id) {
        valid_id_is_known(incoming.id);
    }
}

/// Folding in what is covered changes at most the state.
proof fn fold_covered(task: Task, incoming: TaskRecord)
    requires
        covers(task, incoming),
    ensures
        snapshot::folded_task(task, incoming) == restated(
            task,
            match incoming.progress {
                Some(value) => Some(snapshot::state_of(value.state)),
                None => None,
            },
        ),
{
}

/// Folding a snapshot in covers each of its tasks.
proof fn folded_tasks_cover(tasks: Map<Key, Task>, incoming: Seq<TaskRecord>, i: int)
    requires
        0 <= i < incoming.len(),
        incoming[i].position() is Some,
    ensures
        ({
            let key = incoming[i].position()->0;
            let folded = transfer::folded_tasks(tasks, incoming);
            folded.contains_key(key) && covers(folded[key], incoming[i])
        }),
    decreases incoming.len(),
{
    let init = incoming.drop_last();
    let before = transfer::folded_tasks(tasks, init);
    let key = incoming[i].position()->0;
    let last = incoming.last();
    if i == incoming.len() - 1 {
        fold_covers(before[key], last);
    } else {
        folded_tasks_cover(tasks, init, i);
        assert(init[i] == incoming[i]);
        if last.position() == Some(key) {
            fold_keeps_cover(before[key], last, incoming[i]);
        }
    }
}

/// A task that can still change has the state that the last of the folded tasks reports.
proof fn folded_tasks_state(tasks: Map<Key, Task>, incoming: Seq<TaskRecord>, key: Key)
    ensures
        last_state(incoming, key) matches Some(state) ==> {
            let folded = transfer::folded_tasks(tasks, incoming);
            &&& folded.contains_key(key)
            &&& folded[key].progress matches Some(value)
            &&& value.state.terminal() || value.state == state
        },
    decreases incoming.len(),
{
    if incoming.len() > 0 {
        folded_tasks_state(tasks, incoming.drop_last(), key);
    }
}

/// Folding in tasks that are all covered changes at most states.
proof fn folded_tasks_covered(tasks: Map<Key, Task>, incoming: Seq<TaskRecord>)
    requires
        forall|i: int|
            #![trigger incoming[i]]
            0 <= i < incoming.len() ==> incoming[i].position() is Some,
        forall|i: int|
            #![trigger incoming[i]]
            0 <= i < incoming.len() ==> tasks.contains_key(incoming[i].position()->0) && covers(
                tasks[incoming[i].position()->0],
                incoming[i],
            ),
    ensures
        transfer::folded_tasks(tasks, incoming).dom() == tasks.dom(),
        forall|key: Key| #[trigger]
            tasks.contains_key(key) ==> transfer::folded_tasks(tasks, incoming)[key] == restated(
                tasks[key],
                last_state(incoming, key),
            ),
        transfer::inserted_tasks(tasks, incoming) == 0,
    decreases incoming.len(),
{
    if incoming.len() > 0 {
        let init = incoming.drop_last();
        assert forall|i: int| #![trigger init[i]] 0 <= i < init.len() implies init[i]
            == incoming[i] by {}
        folded_tasks_covered(tasks, init);
        let last = incoming.last();
        assert(last == incoming[incoming.len() - 1]);
        let key = last.position()->0;
        let before = transfer::folded_tasks(tasks, init);
        restated_covers(tasks, init, key, last);
        fold_covered(before[key], last);
        assert forall|other: Key| #[trigger] tasks.contains_key(other) implies transfer::folded_tasks(
            tasks,
            incoming,
        )[other] == restated(tasks[other], last_state(incoming, other)) by {
            assert(before[other] == restated(tasks[other], last_state(init, other)));
        }
        assert(transfer::folded_tasks(tasks, incoming).dom() =~= tasks.dom());
    }
}

proof fn restated_covers(
    tasks: Map<Key, Task>,
    incoming: Seq<TaskRecord>,
    key: Key,
    covered: TaskRecord,
)
    requires
        forall|i: int|
            #![trigger incoming[i]]
            0 <= i < incoming.len() ==> incoming[i].position() is Some && tasks.contains_key(
                incoming[i].position()->0,
            ) && covers(tasks[incoming[i].position()->0], incoming[i]),
        tasks.contains_key(key),
        covers(tasks[key], covered),
    ensures
        covers(restated(tasks[key], last_state(incoming, key)), covered),
        last_state(incoming, key) matches Some(state) ==> tasks[key].progress matches Some(value) && (
        value.state.terminal() || !state.terminal()),
    decreases incoming.len(),
{
    if incoming.len() > 0 {
        let init = incoming.drop_last();
        assert forall|i: int| #![trigger init[i]] 0 <= i < init.len() implies init[i]
            == incoming[i] by {}
        restated_covers(tasks, init, key, covered);
        assert(incoming.last() == incoming[incoming.len() - 1]);
    }
}

/// Folding the same tasks in again changes nothing.
proof fn folding_again(tasks: Map<Key, Task>, incoming: Seq<TaskRecord>)
    requires
        forall|i: int|
            #![trigger incoming[i]]
            0 <= i < incoming.len() ==> incoming[i].position() is Some,
    ensures
        ({
            let folded = transfer::folded_tasks(tasks, incoming);
            &&& transfer::folded_tasks(folded, incoming) == folded
            &&& transfer::inserted_tasks(folded, incoming) == 0
        }),
{
    let folded = transfer::folded_tasks(tasks, incoming);
    assert forall|i: int| #![trigger incoming[i]] 0 <= i < incoming.len() implies folded.contains_key(
        incoming[i].position()->0,
    ) && covers(folded[incoming[i].position()->0], incoming[i]) by {
        folded_tasks_cover(tasks, incoming, i);
    }
    folded_tasks_covered(folded, incoming);
    assert forall|key: Key| #[trigger] folded.contains_key(key) implies transfer::folded_tasks(
        folded,
        incoming,
    )[key] == folded[key] by {
        folded_tasks_state(tasks, incoming, key);
    }
    assert(transfer::folded_tasks(folded, incoming) =~= folded);
}

// Laws of merging.

/// Replaying a snapshot after it was merged leaves the tree unchanged. The replay is not refused,
/// and it inserts no task and appends no message.
pub proof fn replay_changes_nothing(state: TreeState, record: Record)
    requires
        transfer::merge_refusal(state.tree_id, record) is None,
        state.valid(),
    ensures
        ({
            let once = transfer::merged(state, record);
            &&& once.valid()
            &&& transfer::merge_refusal(once.tree_id, record) is None
            &&& transfer::merged(once, record) == once
            &&& transfer::merge_report(once, record).tasks_inserted == 0
            &&& transfer::merge_report(once, record).messages_appended == 0
        }),
{
    let once = transfer::merged(state, record);
    let incoming = transfer::readable(record.messages);
    model::validity_meaning(record);
    folding_again(state.tasks, record.tasks);
    assert(transfer::seeded(once.next_child, record.tasks) =~= once.next_child);
    merge::wanted_are_retained(state.messages, state.message_capacity, incoming);
    merge::merging_again(state.messages, state.message_capacity, incoming);
    folded_tasks_finite(state.tasks, record.tasks);
}

proof fn folded_tasks_finite(tasks: Map<Key, Task>, incoming: Seq<TaskRecord>)
    requires
        tasks.dom().finite(),
    ensures
        transfer::folded_tasks(tasks, incoming).dom().finite(),
    decreases incoming.len(),
{
    if incoming.len() > 0 {
        folded_tasks_finite(tasks, incoming.drop_last());
    }
}

/// A tree after a snapshot was merged into it `n` times.
pub open spec fn merged_times(state: TreeState, record: Record, n: nat) -> TreeState
    decreases n,
{
    if n == 0 {
        state
    } else {
        transfer::merged(merged_times(state, record, (n - 1) as nat), record)
    }
}

/// Replaying a snapshot any number of times leaves the tree as it was after the first time.
pub proof fn replays_change_nothing(state: TreeState, record: Record, n: nat)
    requires
        transfer::merge_refusal(state.tree_id, record) is None,
        state.valid(),
        n >= 1,
    ensures
        merged_times(state, record, n) == transfer::merged(state, record),
    decreases n,
{
    reveal_with_fuel(merged_times, 2);
    if n > 1 {
        replays_change_nothing(state, record, (n - 1) as nat);
        replay_changes_nothing(state, record);
    }
}

/// After a merge the last distinct messages of the snapshot are retained, as many as there can be.
pub proof fn merge_retains_the_last_messages(state: TreeState, record: Record)
    requires
        state.valid(),
    ensures
        merge::all_among(
            merge::wanted(state.message_capacity, transfer::readable(record.messages)),
            transfer::merged(state, record).messages,
        ),
        transfer::merged(state, record).messages.len() <= state.message_capacity,
{
    merge::wanted_are_retained(
        state.messages,
        state.message_capacity,
        transfer::readable(record.messages),
    );
}

/// A merge appends a snapshot's messages that are not retained, each once and in order, behind those
/// that are, and gives none up, if there is room for all of them.
pub proof fn roomy_merge_keeps_messages(state: TreeState, record: Record)
    requires
        state.messages.len() + record.messages.len() <= state.message_capacity,
    ensures
        transfer::merged(state, record).messages == state.messages + merge::missing(
            state.messages,
            merge::distinct(transfer::readable(record.messages)),
        ),
{
    readable_bound(record.messages);
    merge::distinct_meaning(transfer::readable(record.messages));
    merge::roomy_merge(
        state.messages,
        state.message_capacity,
        transfer::readable(record.messages),
    );
}

/// If none of a snapshot's messages is retained, a merge pushes out the oldest ones.
pub proof fn unseen_messages_push_out_the_oldest(state: TreeState, record: Record)
    requires
        state.valid(),
        forall|i: int|
            #![trigger state.messages[i]]
            0 <= i < state.messages.len() ==> !messages::retains(
                transfer::readable(record.messages),
                state.messages[i],
            ),
    ensures
        transfer::merged(state, record).messages == merge::window(
            state.messages + merge::wanted(
                state.message_capacity,
                transfer::readable(record.messages),
            ),
            state.message_capacity,
        ),
{
    merge::unseen_push_out_the_oldest(
        state.messages,
        state.message_capacity,
        transfer::readable(record.messages),
    );
}

proof fn readable_bound(incoming: Seq<MessageSnapshot>)
    ensures
        transfer::readable(incoming).len() <= incoming.len(),
    decreases incoming.len(),
{
    if incoming.len() > 0 {
        readable_bound(incoming.drop_last());
    }
}

/// What a merge keeps or moves forward: no task is lost, and of each one the step and the bound do
/// not go back, a terminal state stays, and a known id, name or unit stays. Child numbers only move
/// forward, and identity, capacity and generation stay.
pub proof fn merge_is_monotonic(state: TreeState, record: Record)
    ensures
        ({
            let after = transfer::merged(state, record);
            &&& forall|key: Key| #[trigger]
                state.tasks.contains_key(key) ==> after.tasks.contains_key(key) && advanced(
                    state.tasks[key],
                    after.tasks[key],
                )
            &&& forall|key: Key| #[trigger]
                state.next_child.contains_key(key) ==> after.next_child.contains_key(key)
                    && state.next_child[key] <= after.next_child[key]
            &&& state.root_next_child <= after.root_next_child
            &&& after.tree_id == state.tree_id
            &&& after.message_capacity == state.message_capacity
            &&& after.generation == state.generation
        }),
{
    assert forall|key: Key| #[trigger]
        state.tasks.contains_key(key) implies transfer::folded_tasks(
        state.tasks,
        record.tasks,
    ).contains_key(key) && advanced(
        state.tasks[key],
        transfer::folded_tasks(state.tasks, record.tasks)[key],
    ) by {
        folded_tasks_advance(state.tasks, record.tasks, key);
    }
}

/// Whether `after` is `before` with nothing taken back.
pub open spec fn advanced(before: Task, after: Task) -> bool {
    &&& before.id != UNKNOWN ==> after.id == before.id
    &&& before.name@.len() != 0 ==> after.name == before.name
    &&& before.progress matches Some(value) ==> {
        &&& after.progress matches Some(later)
        &&& value.step <= later.step
        &&& value.done_at matches Some(bound) ==> later.done_at matches Some(later_bound) && bound
            <= later_bound
        &&& value.unit is Some ==> later.unit == value.unit
        &&& value.state.terminal() ==> later.state == value.state
    }
}

proof fn folded_tasks_advance(tasks: Map<Key, Task>, incoming: Seq<TaskRecord>, key: Key)
    requires
        tasks.contains_key(key),
    ensures
        transfer::folded_tasks(tasks, incoming).contains_key(key),
        advanced(tasks[key], transfer::folded_tasks(tasks, incoming)[key]),
    decreases incoming.len(),
{
    if incoming.len() > 0 {
        folded_tasks_advance(tasks, incoming.drop_last(), key);
    }
}

/// A merge leaves tasks alone that the snapshot does not speak of, and adds no others.
pub proof fn merge_touches_snapshot_tasks_only(state: TreeState, record: Record, key: Key)
    requires
        forall|i: int|
            0 <= i < record.tasks.len() ==> (#[trigger] record.tasks[i]).position() != Some(key),
    ensures
        ({
            let after = transfer::merged(state, record);
            &&& after.tasks.contains_key(key) <==> state.tasks.contains_key(key)
            &&& state.tasks.contains_key(key) ==> after.tasks[key] == state.tasks[key]
        }),
{
    folded_tasks_elsewhere(state.tasks, record.tasks, key);
}

proof fn folded_tasks_elsewhere(tasks: Map<Key, Task>, incoming: Seq<TaskRecord>, key: Key)
    requires
        forall|i: int|
            0 <= i < incoming.len() ==> (#[trigger] incoming[i]).position() != Some(key),
    ensures
        transfer::folded_tasks(tasks, incoming).contains_key(key) <==> tasks.contains_key(key),
        tasks.contains_key(key) ==> transfer::folded_tasks(tasks, incoming)[key] == tasks[key],
    decreases incoming.len(),
{
    if incoming.len() > 0 {
        let init = incoming.drop_last();
        assert forall|i: int| 0 <= i < init.len() implies (#[trigger] init[i]).position() != Some(
            key,
        ) by {
            assert(init[i] == incoming[i]);
        }
        assert(incoming.last() == incoming[incoming.len() - 1]);
        folded_tasks_elsewhere(tasks, init, key);
    }
}

/// Every task of a merged snapshot is then part of the tree, with all the snapshot has to add.
pub proof fn merge_covers_the_snapshot(state: TreeState, record: Record, i: int)
    requires
        transfer::merge_refusal(state.tree_id, record) is None,
        0 <= i < record.tasks.len(),
    ensures
        ({
            let after = transfer::merged(state, record);
            &&& record.tasks[i].position() matches Some(key)
            &&& after.tasks.contains_key(key)
            &&& covers(after.tasks[key], record.tasks[i])
        }),
{
    model::validity_meaning(record);
    assert(record.tasks[i].position() is Some);
    folded_tasks_cover(state.tasks, record.tasks, i);
}

/// The step of a task, or 0 if it has none.
pub open spec fn step_of(tasks: Map<Key, Task>, key: Key) -> usize {
    if tasks.contains_key(key) {
        match tasks[key].progress {
            Some(value) => value.step,
            None => 0,
        }
    } else {
        0
    }
}

/// The largest step that the tasks of a snapshot report for `key`, or 0 if none does.
pub open spec fn largest_step(incoming: Seq<TaskRecord>, key: Key) -> usize
    decreases incoming.len(),
{
    if incoming.len() == 0 {
        0
    } else {
        let before = largest_step(incoming.drop_last(), key);
        if incoming.last().position() == Some(key) && incoming.last().progress is Some
            && incoming.last().progress->0.step > before {
            incoming.last().progress->0.step
        } else {
            before
        }
    }
}

/// Merging settles every step at the maximum of the tree's and the snapshot's.
pub proof fn merge_takes_the_larger_step(state: TreeState, record: Record, key: Key)
    ensures
        ({
            let here = step_of(state.tasks, key);
            let there = largest_step(record.tasks, key);
            step_of(transfer::merged(state, record).tasks, key) == (if there > here {
                there
            } else {
                here
            })
        }),
{
    folded_tasks_step(state.tasks, record.tasks, key);
}

proof fn folded_tasks_step(tasks: Map<Key, Task>, incoming: Seq<TaskRecord>, key: Key)
    ensures
        ({
            let here = step_of(tasks, key);
            let there = largest_step(incoming, key);
            step_of(transfer::folded_tasks(tasks, incoming), key) == (if there > here {
                there
            } else {
                here
            })
        }),
    decreases incoming.len(),
{
    if incoming.len() > 0 {
        folded_tasks_step(tasks, incoming.drop_last(), key);
    }
}

/// The bound of a task, if it has one.
pub open spec fn bound_of(tasks: Map<Key, Task>, key: Key) -> Option<usize> {
    if tasks.contains_key(key) {
        match tasks[key].progress {
            Some(value) => value.done_at,
            None => None,
        }
    } else {
        None
    }
}

/// The largest bound that the tasks of a snapshot report for `key`, if one does.
pub open spec fn largest_bound(incoming: Seq<TaskRecord>, key: Key) -> Option<usize>
    decreases incoming.len(),
{
    if incoming.len() == 0 {
        None
    } else {
        let before = largest_bound(incoming.drop_last(), key);
        if incoming.last().position() == Some(key) && incoming.last().progress is Some {
            snapshot::later_bound(before, incoming.last().progress->0.done_at)
        } else {
            before
        }
    }
}

/// Merging settles every bound at the larger one of the tree's and the snapshot's; a known one is
/// larger than none.
pub proof fn merge_takes_the_larger_bound(state: TreeState, record: Record, key: Key)
    ensures
        bound_of(transfer::merged(state, record).tasks, key) == snapshot::later_bound(
            bound_of(state.tasks, key),
            largest_bound(record.tasks, key),
        ),
{
    folded_tasks_bound(state.tasks, record.tasks, key);
}

proof fn folded_tasks_bound(tasks: Map<Key, Task>, incoming: Seq<TaskRecord>, key: Key)
    ensures
        bound_of(transfer::folded_tasks(tasks, incoming), key) == snapshot::later_bound(
            bound_of(tasks, key),
            largest_bound(incoming, key),
        ),
    decreases incoming.len(),
{
    if incoming.len() > 0 {
        folded_tasks_bound(tasks, incoming.drop_last(), key);
    }
}

/// Whether one of the tasks of a snapshot reports that the one at `key` is complete.
pub open spec fn reports_completion(incoming: Seq<TaskRecord>, key: Key) -> bool
    decreases incoming.len(),
{
    if incoming.len() == 0 {
        false
    } else {
        reports_completion(incoming.drop_last(), key) || incoming.last().position() == Some(key)
            && incoming.last().progress is Some && snapshot::state_of(
            incoming.last().progress->0.state,
        ).terminal()
    }
}

/// After a merge a task is complete exactly if it was before, or the snapshot reports it.
pub proof fn merge_takes_completion(state: TreeState, record: Record, key: Key)
    ensures
        transfer::merged(state, record).terminal_at(key) <==> state.terminal_at(key)
            || reports_completion(record.tasks, key),
{
    folded_tasks_completion(state, record.tasks, key);
}

proof fn folded_tasks_completion(state: TreeState, incoming: Seq<TaskRecord>, key: Key)
    ensures
        ({
            let folded = transfer::folded_tasks(state.tasks, incoming);
            folded.contains_key(key) && folded[key].terminal() <==> state.terminal_at(key)
                || reports_completion(incoming, key)
        }),
    decreases incoming.len(),
{
    if incoming.len() > 0 {
        folded_tasks_completion(state, incoming.drop_last(), key);
    }
}

/// After a merge there are tasks where there were some before, and where the snapshot has some.
pub proof fn merge_joins_positions(state: TreeState, record: Record, key: Key)
    ensures
        transfer::merged(state, record).tasks.contains_key(key) <==> state.tasks.contains_key(key)
            || transfer::speaks_of(record.tasks, key),
{
    transfer::folded_positions(state.tasks, record.tasks, key);
}

/// In whichever order two snapshots are merged, there are tasks at the same positions then, with the
/// same steps and bounds, the same ones are complete, and the child numbers are the same.
pub proof fn merge_order_does_not_matter(state: TreeState, first: Record, second: Record)
    ensures
        ({
            let one = transfer::merged(transfer::merged(state, first), second);
            let other = transfer::merged(transfer::merged(state, second), first);
            &&& one.tasks.dom() == other.tasks.dom()
            &&& forall|key: Key| #[trigger] step_of(one.tasks, key) == step_of(other.tasks, key)
            &&& forall|key: Key| #[trigger] bound_of(one.tasks, key) == bound_of(other.tasks, key)
            &&& forall|key: Key| #[trigger] one.terminal_at(key) == other.terminal_at(key)
            &&& one.next_child == other.next_child
            &&& one.root_next_child == other.root_next_child
        }),
{
    let then_second = transfer::merged(state, first);
    let then_first = transfer::merged(state, second);
    let one = transfer::merged(then_second, second);
    let other = transfer::merged(then_first, first);
    assert forall|key: Key|
        #![trigger one.tasks.dom().contains(key)]
        #![trigger step_of(one.tasks, key)]
        #![trigger bound_of(one.tasks, key)]
        #![trigger one.terminal_at(key)]
        {
            &&& one.tasks.dom().contains(key) <==> other.tasks.dom().contains(key)
            &&& step_of(one.tasks, key) == step_of(other.tasks, key)
            &&& bound_of(one.tasks, key) == bound_of(other.tasks, key)
            &&& one.terminal_at(key) == other.terminal_at(key)
        } by {
        merge_joins_positions(state, first, key);
        merge_joins_positions(then_second, second, key);
        merge_joins_positions(state, second, key);
        merge_joins_positions(then_first, first, key);
        merge_takes_the_larger_step(state, first, key);
        merge_takes_the_larger_step(then_second, second, key);
        merge_takes_the_larger_step(state, second, key);
        merge_takes_the_larger_step(then_first, first, key);
        merge_takes_the_larger_bound(state, first, key);
        merge_takes_the_larger_bound(then_second, second, key);
        merge_takes_the_larger_bound(state, second, key);
        merge_takes_the_larger_bound(then_first, first, key);
        merge_takes_completion(state, first, key);
        merge_takes_completion(then_second, second, key);
        merge_takes_completion(state, second, key);
        merge_takes_completion(then_first, first, key);
    }
    assert(one.tasks.dom() =~= other.tasks.dom());
    assert forall|parent: Key| #[trigger] one.next_child.contains_key(parent) implies one.next_child[
    parent] == other.next_child[parent] by {
        transfer::next_number_meaning(first.tasks, parent);
        transfer::next_number_meaning(second.tasks, parent);
    }
    assert(one.next_child =~= other.next_child);
}

/// A snapshot that is malformed, of another version, or of another tree changes nothing.
pub proof fn refused_snapshots_change_nothing(state: TreeState, record: Record)
    requires
        record.refusal() is Some || record.tree_id != state.tree_id,
    ensures
        transfer::merge_refusal(state.tree_id, record) is Some,
        transfer::refused(state, record) == state,
{
}

/// What a merge reports adds up to what the snapshot has.
pub proof fn report_adds_up(state: TreeState, record: Record)
    ensures
        transfer::inserted_tasks(state.tasks, record.tasks) <= record.tasks.len(),
        ({
            let outcome = transfer::merged_messages(
                state.messages,
                state.message_capacity,
                record.messages,
            );
            outcome.appended + outcome.skipped == transfer::readable(record.messages).len()
        }),
{
    transfer::inserted_tasks_bound(state.tasks, record.tasks);
    let incoming = transfer::readable(record.messages);
    merge::wanted_meaning(state.message_capacity, incoming);
    merge::missing_meaning(state.messages, merge::wanted(state.message_capacity, incoming));
}

} // verus!
