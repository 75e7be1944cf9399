//! What holds when several holders of a tree advance a task and merge snapshots, in any order.
//!
//! Each of them takes one step under the lock of the tree, so that whatever they do comes to these
//! steps one after the other, in some order.

use vstd::prelude::*;

use crate::progress::{Key, Value};
use crate::tree::snapshot;
use crate::tree::snapshot::laws;
use crate::tree::snapshot::model::{Record, ValueSnapshot};
use crate::tree::snapshot::transfer;
use crate::tree::TreeState;

verus! {

// Values.

/// What happens to the progress of a task.
pub enum Change {
    /// It is advanced by so many steps.
    Add(usize),
    /// A snapshot is merged into it.
    Merge(ValueSnapshot),
}

/// The progress after all `changes`, in order.
pub open spec fn value_after(value: Value, changes: Seq<Change>) -> Value
    decreases changes.len(),
{
    if changes.len() == 0 {
        value
    } else {
        let before = value_after(value, changes.drop_last());
        match changes.last() {
            Change::Add(steps) => Value { step: before.step.wrapping_add(steps), ..before },
            Change::Merge(incoming) => snapshot::merged_value(before, incoming),
        }
    }
}

/// Whether the step stays in range throughout.
pub open spec fn in_range(value: Value, changes: Seq<Change>) -> bool
    decreases changes.len(),
{
    changes.len() > 0 ==> {
        &&& in_range(value, changes.drop_last())
        &&& changes.last() matches Change::Add(steps) ==> value_after(
            value,
            changes.drop_last(),
        ).step + steps <= usize::MAX
    }
}

/// The steps that `changes` add.
pub open spec fn added(changes: Seq<Change>) -> nat
    decreases changes.len(),
{
    if changes.len() == 0 {
        0
    } else {
        match changes.last() {
            Change::Add(steps) => added(changes.drop_last()) + steps as nat,
            Change::Merge(_) => added(changes.drop_last()),
        }
    }
}

/// The largest step of those that `changes` merge and `step`.
pub open spec fn largest(step: usize, changes: Seq<Change>) -> usize
    decreases changes.len(),
{
    if changes.len() == 0 {
        step
    } else {
        let before = largest(step, changes.drop_last());
        match changes.last() {
            Change::Merge(incoming) if incoming.step > before => incoming.step,
            _ => before,
        }
    }
}

/// In whatever order a value is advanced and merged with snapshots, no merge lowers its step and no
/// advance is lost. If there are only merges, the step is the largest one in the end.
pub proof fn changes_never_lower_the_step(value: Value, changes: Seq<Change>)
    requires
        in_range(value, changes),
    ensures
        value_after(value, changes).step >= value.step + added(changes),
        forall|i: int|
            0 <= i < changes.len() ==> (#[trigger] changes[i] matches Change::Merge(incoming)
                ==> value_after(value, changes).step >= incoming.step),
        (forall|i: int| 0 <= i < changes.len() ==> (#[trigger] changes[i]) is Merge) ==> value_after(
            value,
            changes,
        ).step == largest(value.step, changes),
    decreases changes.len(),
{
    if changes.len() > 0 {
        let init = changes.drop_last();
        assert(changes.last() == changes[changes.len() - 1]);
        assert forall|i: int| #![trigger init[i]] 0 <= i < init.len() implies init[i]
            == changes[i] by {}
        changes_never_lower_the_step(value, init);
        assert forall|i: int| 0 <= i < changes.len() implies (
        #[trigger] changes[i] matches Change::Merge(incoming) ==> value_after(value, changes).step
            >= incoming.step) by {
            if i < init.len() {
                assert(init[i] == changes[i]);
            }
        }
        if forall|i: int| 0 <= i < changes.len() ==> (#[trigger] changes[i]) is Merge {
            assert forall|i: int| 0 <= i < init.len() implies (#[trigger] init[i]) is Merge by {
                assert(changes[i] is Merge);
            }
        }
    }
}

// Trees.

/// What happens to a tree.
pub enum Event {
    /// A handle advances its task by so many steps.
    Add(usize),
    /// A snapshot is merged into the tree.
    Merge(Record),
}

/// The tree after all `events`, in order. The handle is that of the task at `key`, and of this
/// generation.
pub open spec fn tree_after(
    state: TreeState,
    key: Key,
    generation: u64,
    events: Seq<Event>,
) -> TreeState
    decreases events.len(),
{
    if events.len() == 0 {
        state
    } else {
        let before = tree_after(state, key, generation, events.drop_last());
        match events.last() {
            Event::Add(steps) => before.with_steps_added(key, generation, steps),
            Event::Merge(record) => transfer::merged(before, record),
        }
    }
}

/// Whether the step of the task at `key` stays in range throughout.
pub open spec fn step_in_range(
    state: TreeState,
    key: Key,
    generation: u64,
    events: Seq<Event>,
) -> bool
    decreases events.len(),
{
    events.len() > 0 ==> {
        let init = events.drop_last();
        &&& step_in_range(state, key, generation, init)
        &&& events.last() matches Event::Add(steps) ==> laws::step_of(
            tree_after(state, key, generation, init).tasks,
            key,
        ) + steps <= usize::MAX
    }
}

/// The steps that `events` add.
pub open spec fn steps_added(events: Seq<Event>) -> nat
    decreases events.len(),
{
    if events.len() == 0 {
        0
    } else {
        match events.last() {
            Event::Add(steps) => steps_added(events.drop_last()) + steps as nat,
            Event::Merge(_) => steps_added(events.drop_last()),
        }
    }
}

/// In whatever order handles advance a task and snapshots are merged, its step ends at no less than
/// it started with and no less than any of the snapshots reports. As long as the task does not
/// complete, no advance is lost.
pub proof fn events_never_lower_the_step(
    state: TreeState,
    key: Key,
    generation: u64,
    events: Seq<Event>,
)
    requires
        step_in_range(state, key, generation, events),
    ensures
        ({
            let after = tree_after(state, key, generation, events);
            let step = laws::step_of(after.tasks, key);
            &&& step >= laws::step_of(state.tasks, key)
            &&& forall|i: int|
                0 <= i < events.len() ==> (#[trigger] events[i] matches Event::Merge(record)
                    ==> step >= laws::largest_step(record.tasks, key))
            &&& state.changeable(key, generation) && !after.terminal_at(key) ==> {
                &&& after.changeable(key, generation)
                &&& step >= laws::step_of(state.tasks, key) + steps_added(events)
            }
        }),
    decreases events.len(),
{
    if events.len() > 0 {
        let init = events.drop_last();
        let before = tree_after(state, key, generation, init);
        let after = tree_after(state, key, generation, events);
        assert(events.last() == events[events.len() - 1]);
        events_never_lower_the_step(state, key, generation, init);
        if let Event::Merge(record) = events.last() {
            laws::merge_takes_the_larger_step(before, record, key);
            laws::merge_takes_completion(before, record, key);
            laws::merge_is_monotonic(before, record);
            assert(before.tasks.contains_key(key) ==> laws::advanced(
                before.tasks[key],
                after.tasks[key],
            ));
        }
        assert forall|i: int| 0 <= i < events.len() implies (
        #[trigger] events[i] matches Event::Merge(record) ==> laws::step_of(after.tasks, key)
            >= laws::largest_step(record.tasks, key)) by {
            if i < init.len() {
                assert(init[i] == events[i]);
            }
        }
    }
}

/// If there are only merges, the step ends at the largest one of that it started with and those that
/// the snapshots report, whatever the order.
pub proof fn merges_settle_at_the_largest_step(
    state: TreeState,
    key: Key,
    generation: u64,
    events: Seq<Event>,
)
    requires
        forall|i: int| 0 <= i < events.len() ==> (#[trigger] events[i]) is Merge,
    ensures
        step_in_range(state, key, generation, events),
        ({
            let step = laws::step_of(tree_after(state, key, generation, events).tasks, key);
            &&& step >= laws::step_of(state.tasks, key)
            &&& forall|i: int|
                0 <= i < events.len() ==> step >= laws::largest_step(
                    (#[trigger] events[i])->Merge_0.tasks,
                    key,
                )
            &&& step == laws::step_of(state.tasks, key) || exists|i: int|
                0 <= i < events.len() && laws::largest_step(
                    (#[trigger] events[i])->Merge_0.tasks,
                    key,
                ) == step
        }),
    decreases events.len(),
{
    if events.len() > 0 {
        let init = events.drop_last();
        let last = events[events.len() - 1];
        let before = tree_after(state, key, generation, init);
        assert(last is Merge);
        assert forall|i: int| 0 <= i < init.len() implies (#[trigger] init[i]) is Merge by {
            assert(events[i] is Merge);
        }
        merges_settle_at_the_largest_step(state, key, generation, init);
        laws::merge_takes_the_larger_step(before, last->Merge_0, key);
        let step = laws::step_of(before.tasks, key);
        if step != laws::step_of(state.tasks, key) {
            let i = choose|i: int|
                0 <= i < init.len() && laws::largest_step(
                    (#[trigger] init[i])->Merge_0.tasks,
                    key,
                ) == step;
            assert(events[i] == init[i]);
        }
        events_never_lower_the_step(state, key, generation, events);
        assert forall|i: int| 0 <= i < events.len() implies laws::step_of(
            tree_after(state, key, generation, events).tasks,
            key,
        ) >= laws::largest_step((#[trigger] events[i])->Merge_0.tasks, key) by {
            assert(events[i] is Merge);
        }
    }
}

} // verus!
