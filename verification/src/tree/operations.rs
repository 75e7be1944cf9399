//! What each thing that is done through a handle comes to, told by what is in the tree before and
//! after it.

use vstd::prelude::*;

use crate::messages;
use crate::messages::{Message, MessageLevel};
use crate::progress::key;
use crate::progress::{Id, Key, State};
use crate::time::Timestamp;
use crate::tree::TreeState;
use crate::unit::Unit;

verus! {

/// Whether the trees are the same but for their tasks.
pub open spec fn same_but_tasks(before: TreeState, after: TreeState) -> bool {
    &&& after.messages == before.messages
    &&& after.message_capacity == before.message_capacity
    &&& after.generation == before.generation
    &&& after.next_child == before.next_child
    &&& after.root_next_child == before.root_next_child
    &&& after.tree_id == before.tree_id
    &&& after.interrupted == before.interrupted
}

/// Whether the trees are the same but for what the task at `key` says, and both have one there.
pub open spec fn same_but_task(before: TreeState, after: TreeState, key: Key) -> bool {
    &&& same_but_tasks(before, after)
    &&& before.tasks.dom() == after.tasks.dom()
    &&& before.tasks.contains_key(key)
    &&& forall|other: Key|
        other != key && before.tasks.contains_key(other) ==> #[trigger] after.tasks[other]
            == before.tasks[other]
}

/// Whether the trees are the same but for the progress of the task at `key`.
pub open spec fn same_but_progress(before: TreeState, after: TreeState, key: Key) -> bool {
    &&& same_but_task(before, after, key)
    &&& after.tasks[key].name == before.tasks[key].name
    &&& after.tasks[key].id == before.tasks[key].id
}

/// Whether a handle of this generation can move the progress of the task at `key`: the handle belongs
/// to the tree, and the task is there with progress that is not complete.
pub open spec fn can_move(state: TreeState, key: Key, generation: u64) -> bool {
    &&& state.generation == generation
    &&& state.tasks.contains_key(key)
    &&& state.tasks[key].progress matches Some(value)
    &&& !(value.state is Completed)
}

// Progress.

/// Setting the step of a task makes it that step, whatever it was, and leaves the bound, the unit and
/// the state as they were. Handles that cannot move the task change nothing.
pub proof fn set_makes_it_the_step(state: TreeState, key: Key, generation: u64, step: usize)
    ensures
        ({
            let after = state.with_step(key, generation, step);
            if can_move(state, key, generation) {
                let value = state.tasks[key].progress->0;
                &&& same_but_progress(state, after, key)
                &&& after.tasks[key].progress matches Some(moved)
                &&& moved.step == step
                &&& moved.done_at == value.done_at
                &&& moved.unit == value.unit
                &&& moved.state == value.state
            } else {
                after == state
            }
        }),
{
    let after = state.with_step(key, generation, step);
    assert(after.tasks.dom() =~= state.tasks.dom());
}

/// Of two steps that are set one after the other, the second one counts.
pub proof fn last_step_set_counts(
    state: TreeState,
    key: Key,
    generation: u64,
    first: usize,
    second: usize,
)
    ensures
        state.with_step(key, generation, first).with_step(key, generation, second)
            == state.with_step(key, generation, second),
{
    let one = state.with_step(key, generation, first).with_step(key, generation, second);
    let other = state.with_step(key, generation, second);
    assert(one.tasks =~= other.tasks);
}

/// Advancing a task adds to its step, which starts over at 0 past the largest one, and leaves the
/// bound, the unit and the state as they were. Handles that cannot move the task change nothing.
pub proof fn advancing_adds_to_the_step(state: TreeState, key: Key, generation: u64, steps: usize)
    ensures
        ({
            let after = state.with_steps_added(key, generation, steps);
            if can_move(state, key, generation) {
                let value = state.tasks[key].progress->0;
                &&& same_but_progress(state, after, key)
                &&& after.tasks[key].progress matches Some(moved)
                &&& moved.step == (if value.step + steps <= usize::MAX {
                    value.step + steps
                } else {
                    value.step + steps - usize::MAX - 1
                })
                &&& moved.done_at == value.done_at
                &&& moved.unit == value.unit
                &&& moved.state == value.state
            } else {
                after == state
            }
        }),
{
    let after = state.with_steps_added(key, generation, steps);
    assert(after.tasks.dom() =~= state.tasks.dom());
}

/// Setting the state of a task makes it that state, and leaves the step, the bound and the unit as
/// they were. Handles that cannot move the task change nothing.
pub proof fn state_is_set(state: TreeState, key: Key, generation: u64, task_state: State)
    ensures
        ({
            let after = state.with_state(key, generation, task_state);
            if can_move(state, key, generation) {
                let value = state.tasks[key].progress->0;
                &&& same_but_progress(state, after, key)
                &&& after.tasks[key].progress matches Some(moved)
                &&& moved.step == value.step
                &&& moved.done_at == value.done_at
                &&& moved.unit == value.unit
                &&& moved.state == task_state
            } else {
                after == state
            }
        }),
{
    let after = state.with_state(key, generation, task_state);
    assert(after.tasks.dom() =~= state.tasks.dom());
}

/// Setting up the progress of a task starts it over at step 0, running, with the given bound and
/// unit; without both it has no progress. The name and the id stay. A handle that does not belong to
/// the tree changes nothing, and neither does one whose task is gone or complete.
pub proof fn init_starts_over(
    state: TreeState,
    key: Key,
    generation: u64,
    max: Option<usize>,
    unit: Option<Unit>,
)
    ensures
        ({
            let after = state.with_init(key, generation, max, unit);
            if state.generation == generation && state.tasks.contains_key(key) && !(
            state.tasks[key].progress matches Some(value) && value.state is Completed) {
                &&& same_but_progress(state, after, key)
                &&& max is None && unit is None ==> after.tasks[key].progress is None
                &&& max is Some || unit is Some ==> {
                    &&& after.tasks[key].progress matches Some(value)
                    &&& value.step == 0
                    &&& value.done_at == max
                    &&& value.unit == unit
                    &&& value.state is Running
                }
            } else {
                after == state
            }
        }),
{
    let after = state.with_init(key, generation, max, unit);
    assert(after.tasks.dom() =~= state.tasks.dom());
}

// Names, tasks and messages.

/// Renaming a task gives it that name and leaves its id and progress as they were. A handle that does
/// not belong to the tree, or whose task is gone, changes nothing.
pub proof fn name_is_set(state: TreeState, key: Key, generation: u64, name: String)
    ensures
        ({
            let after = state.with_name(key, generation, name);
            if state.generation == generation && state.tasks.contains_key(key) {
                &&& same_but_task(state, after, key)
                &&& after.tasks[key].name == name
                &&& after.tasks[key].id == state.tasks[key].id
                &&& after.tasks[key].progress == state.tasks[key].progress
            } else {
                after == state
            }
        }),
{
    let after = state.with_name(key, generation, name);
    assert(after.tasks.dom() =~= state.tasks.dom());
}

/// Removing a task takes it out of the tree and changes nothing else; child numbers are not given
/// back. A handle that does not belong to the tree changes nothing.
pub proof fn task_is_removed(state: TreeState, key: Key, generation: u64)
    ensures
        ({
            let after = state.without_task(key, generation);
            if state.generation == generation {
                &&& same_but_tasks(state, after)
                &&& forall|other: Key| #[trigger]
                    after.tasks.contains_key(other) <==> state.tasks.contains_key(other) && other
                        != key
                &&& forall|other: Key| #[trigger]
                    after.tasks.contains_key(other) ==> after.tasks[other] == state.tasks[other]
            } else {
                after == state
            }
        }),
{
}

/// The number that the next child of the task with this path gets: the one that is set for it, or 0.
pub open spec fn next_below(state: TreeState, parent: Key) -> key::Id {
    if parent is Root {
        state.root_next_child
    } else if state.next_child.contains_key(parent) {
        state.next_child[parent]
    } else {
        0
    }
}

/// A child is added right below the task at `key`, or beside it if it is on the deepest level, under
/// the next number there is. It has the given name and id and no progress. The next number moves on
/// by one, up to the largest there is, and those of other parents stay, as do all other tasks and the
/// messages. A handle that does not belong to the tree adds nothing.
pub proof fn child_is_added(state: TreeState, key: Key, generation: u64, name: String, id: Id)
    ensures
        ({
            let after = state.with_child(key, generation, name, id);
            let child = state.child_position(key);
            if state.generation == generation {
                &&& exists|parent: Key| #[trigger]
                    parent@ == (if key@.len() == 6 {
                        key@.take(5)
                    } else {
                        key@
                    }) && child@ == parent@.push(next_below(state, parent)) && next_below(
                        after,
                        parent,
                    ) == (if next_below(state, parent) == 0xffff {
                        0xffff
                    } else {
                        next_below(state, parent) + 1
                    }) && forall|other: Key|
                        other != parent ==> #[trigger] next_below(after, other) == next_below(
                            state,
                            other,
                        )
                &&& after.tasks.contains_key(child)
                &&& after.tasks[child].name == name
                &&& after.tasks[child].id == id
                &&& after.tasks[child].progress is None
                &&& forall|other: Key|
                    other != child ==> (#[trigger] after.tasks.contains_key(other)
                        <==> state.tasks.contains_key(other))
                &&& forall|other: Key|
                    other != child && state.tasks.contains_key(other) ==> #[trigger] after.tasks[other]
                        == state.tasks[other]
                &&& after.messages == state.messages
                &&& after.message_capacity == state.message_capacity
                &&& after.generation == state.generation
                &&& after.tree_id == state.tree_id
                &&& after.interrupted == state.interrupted
            } else {
                after == state
            }
        }),
{
    if state.generation == generation {
        let parent = TreeState::child_parent(key);
        let after = state.with_child(key, generation, name, id);
        key::key_is_its_path(key);
        if key@.len() == 6 {
            key::path_of_key(key@.drop_last());
            assert(key@.drop_last() =~= key@.take(5));
        }
        key::path_of_key(parent@.push(state.next_number(parent)));
        assert(parent@ == (if key@.len() == 6 {
            key@.take(5)
        } else {
            key@
        }));
        assert forall|other: Key| other != parent implies #[trigger] next_below(after, other)
            == next_below(state, other) by {}
    }
}

/// A message is retained behind all others with the time, the severity and the text that it was left
/// with, and under the name that its task has then. If as many are retained as there can be, the
/// oldest one gives way; if none can be, nothing happens. Nothing else changes. A handle that does
/// not belong to the tree, or whose task is gone, leaves no message.
pub proof fn message_is_retained(
    state: TreeState,
    key: Key,
    generation: u64,
    time: Timestamp,
    level: MessageLevel,
    text: String,
)
    requires
        state.messages.len() <= state.message_capacity,
    ensures
        ({
            let after = state.with_message(key, generation, time, level, text);
            if state.generation == generation && state.tasks.contains_key(key)
                && state.message_capacity > 0 {
                let gone: int = if state.messages.len() == state.message_capacity {
                    1
                } else {
                    0
                };
                &&& after.messages.len() == state.messages.len() + 1 - gone
                &&& after.messages.last().time == time
                &&& after.messages.last().level == level
                &&& after.messages.last().origin == state.tasks[key].name
                &&& after.messages.last().message == text
                &&& forall|i: int|
                    0 <= i < after.messages.len() - 1 ==> #[trigger] after.messages[i]
                        == state.messages[i + gone]
                &&& after == (TreeState { messages: after.messages, ..state })
            } else {
                after == state
            }
        }),
{
}

// Handles and trees.

/// A new tree has no tasks and no messages, and its first children get the number 0.
pub proof fn fresh_tree_is_empty(message_capacity: usize, tree_id: Seq<u8>, parent: Key)
    ensures
        ({
            let fresh = TreeState::fresh(message_capacity, tree_id);
            &&& forall|key: Key| !#[trigger] fresh.tasks.contains_key(key)
            &&& fresh.messages.len() == 0
            &&& fresh.message_capacity == message_capacity
            &&& fresh.tree_id == tree_id
            &&& fresh.generation == 0
            &&& next_below(fresh, parent) == 0
            &&& !fresh.interrupted
        }),
{
}

/// Superseding a tree leaves everything as it is but for the generation, which is another one then:
/// the next one, or 0 after the last.
pub proof fn superseding_changes_the_generation(state: TreeState)
    ensures
        ({
            let after = state.superseded();
            &&& after.tasks == state.tasks
            &&& after.messages == state.messages
            &&& after.message_capacity == state.message_capacity
            &&& after.next_child == state.next_child
            &&& after.root_next_child == state.root_next_child
            &&& after.tree_id == state.tree_id
            &&& after.interrupted == state.interrupted
            &&& after.generation != state.generation
            &&& after.generation == state.generation + 1 || after.generation == 0
                && state.generation == 0xffff_ffff_ffff_ffff
        }),
{
}

/// Whether a handle belongs to a tree is whether their generations are the same, and a task is
/// complete if its progress says so.
pub proof fn belonging_and_completion(state: TreeState, key: Key, generation: u64)
    ensures
        state.attached(generation) <==> state.generation == generation,
        state.terminal_at(key) <==> state.tasks.contains_key(key) && (
        state.tasks[key].progress matches Some(value) && value.state is Completed),
{
}

/// What is retained is found again by its content, and only then: the time, the severity, the name of
/// the task and the text are all the same.
pub proof fn retained_by_content(all: Seq<Message>, message: Message)
    ensures
        messages::retains(all, message) <==> exists|i: int|
            0 <= i < all.len() && (#[trigger] all[i]).time == message.time && all[i].level
                == message.level && all[i].origin@ == message.origin@ && all[i].message@
                == message.message@,
{
    if messages::retains(all, message) {
        let i = choose|i: int| 0 <= i < all.len() && (#[trigger] all[i]).same(message);
        assert(all[i].time == message.time);
    }
    if exists|i: int|
        0 <= i < all.len() && (#[trigger] all[i]).time == message.time && all[i].level
            == message.level && all[i].origin@ == message.origin@ && all[i].message@
            == message.message@ {
        let i = choose|i: int|
            0 <= i < all.len() && (#[trigger] all[i]).time == message.time && all[i].level
                == message.level && all[i].origin@ == message.origin@ && all[i].message@
                == message.message@;
        assert(all[i].same(message));
    }
}

} // verus!
