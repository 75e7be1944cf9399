//! What calls of handles do to the tree that they find.
//!
//! Every call takes a step under the lock of the tree, from the tree that it finds to the one that it
//! leaves. Each law here says of a call what holds of that step.

use vstd::prelude::*;

use crate::messages::MessageLevel;
use crate::progress;
use crate::progress::{Id, Key, State};
use crate::time::Timestamp;
use crate::tree::item;
use crate::tree::lock;
use crate::tree::operations;
use crate::tree::{Item, TreeState};
use crate::unit::Unit;

verus! {

/// Whether all that happens is that the task at `key` gets this step and state, provided the handle
/// of this generation can move it.
pub open spec fn is_moved(
    before: TreeState,
    after: TreeState,
    key: Key,
    generation: u64,
    step: int,
    state: State,
) -> bool {
    if operations::can_move(before, key, generation) {
        let value = before.tasks[key].progress->0;
        &&& operations::same_but_progress(before, after, key)
        &&& after.tasks[key].progress matches Some(moved)
        &&& moved.step == step
        &&& moved.done_at == value.done_at
        &&& moved.unit == value.unit
        &&& moved.state == state
    } else {
        after == before
    }
}

/// Whether all that happens is that a message with this time, severity and text comes behind the
/// others, under the name of the task at `key`, provided the handle belongs to the tree, the task is
/// there, and messages are retained at all. The oldest one gives way if there is no room.
pub open spec fn message_is_left(
    before: TreeState,
    after: TreeState,
    key: Key,
    generation: u64,
    time: Timestamp,
    level: MessageLevel,
    text: Seq<char>,
) -> bool {
    if before.generation == generation && before.tasks.contains_key(key) && before.message_capacity
        > 0 {
        let gone: int = if before.messages.len() >= before.message_capacity {
            1
        } else {
            0
        };
        &&& after.messages.len() == before.messages.len() + 1 - gone
        &&& after.messages.last().time == time
        &&& after.messages.last().level == level
        &&& after.messages.last().origin == before.tasks[key].name
        &&& after.messages.last().message@ == text
        &&& forall|i: int|
            0 <= i < after.messages.len() - 1 ==> #[trigger] after.messages[i]
                == before.messages[i + gone]
        &&& after == (TreeState { messages: after.messages, ..before })
    } else {
        after == before
    }
}

/// The step of the task at `key`.
pub open spec fn step_at(state: TreeState, key: Key) -> usize {
    state.tasks[key].progress->0.step
}

/// The state of the task at `key`.
pub open spec fn state_at(state: TreeState, key: Key) -> State {
    state.tasks[key].progress->0.state
}

/// The step after so many more, which starts over at 0 past the largest one.
pub open spec fn step_after(step: usize, steps: usize) -> int {
    if step + steps <= usize::MAX {
        step + steps
    } else {
        step + steps - usize::MAX - 1
    }
}

// Progress.

/// Setting a step makes it the step of the task.
pub proof fn set_is_done(item: Item, step: usize)
    requires
        call_ensures(Item::set, (&item, step), ()),
    ensures
        exists|before: TreeState, after: TreeState| #[trigger]
            lock::steps(item.lock(), before, after) && is_moved(
                before,
                after,
                item.position(),
                item.generation(),
                step as int,
                state_at(before, item.position()),
            ),
{
    let (key, generation) = (item.position(), item.generation());
    let before = choose|before: TreeState| #[trigger]
        lock::steps(item.lock(), before, before.with_step(key, generation, step));
    operations::set_makes_it_the_step(before, key, generation, step);
}

/// Advancing adds to the step of the task.
pub proof fn inc_by_is_done(item: Item, steps: usize)
    requires
        call_ensures(Item::inc_by, (&item, steps), ()),
    ensures
        exists|before: TreeState, after: TreeState| #[trigger]
            lock::steps(item.lock(), before, after) && is_moved(
                before,
                after,
                item.position(),
                item.generation(),
                step_after(step_at(before, item.position()), steps),
                state_at(before, item.position()),
            ),
{
    let (key, generation) = (item.position(), item.generation());
    let before = choose|before: TreeState| #[trigger]
        lock::steps(item.lock(), before, before.with_steps_added(key, generation, steps));
    operations::advancing_adds_to_the_step(before, key, generation, steps);
}

/// Advancing by one adds 1 to the step of the task.
pub proof fn inc_is_done(item: Item)
    requires
        call_ensures(Item::inc, (&item,), ()),
    ensures
        exists|before: TreeState, after: TreeState| #[trigger]
            lock::steps(item.lock(), before, after) && is_moved(
                before,
                after,
                item.position(),
                item.generation(),
                step_after(step_at(before, item.position()), 1),
                state_at(before, item.position()),
            ),
{
    let (key, generation) = (item.position(), item.generation());
    let before = choose|before: TreeState| #[trigger]
        lock::steps(item.lock(), before, before.with_steps_added(key, generation, 1));
    operations::advancing_adds_to_the_step(before, key, generation, 1);
}

/// Setting up progress starts it over at step 0, running, with the given bound and unit, or leaves
/// none if there is neither.
pub proof fn init_is_done(item: Item, max: Option<usize>, unit: Option<Unit>)
    requires
        call_ensures(Item::init, (&item, max, unit), ()),
    ensures
        exists|before: TreeState, after: TreeState| #[trigger]
            lock::steps(item.lock(), before, after) && ({
                let key = item.position();
                if before.generation == item.generation() && before.tasks.contains_key(key) && !(
                before.tasks[key].progress matches Some(value) && value.state is Completed) {
                    &&& operations::same_but_progress(before, after, key)
                    &&& max is None && unit is None ==> after.tasks[key].progress is None
                    &&& max is Some || unit is Some ==> {
                        &&& after.tasks[key].progress matches Some(value)
                        &&& value.step == 0
                        &&& value.done_at == max
                        &&& value.unit == unit
                        &&& value.state is Running
                    }
                } else {
                    after == before
                }
            }),
{
    let (key, generation) = (item.position(), item.generation());
    let before = choose|before: TreeState| #[trigger]
        lock::steps(item.lock(), before, before.with_init(key, generation, max, unit));
    operations::init_starts_over(before, key, generation, max, unit);
}

/// A task that is said to be running is running, at the same step.
pub proof fn running_is_done(item: Item)
    requires
        call_ensures(Item::running, (&item,), ()),
    ensures
        exists|before: TreeState, after: TreeState| #[trigger]
            lock::steps(item.lock(), before, after) && is_moved(
                before,
                after,
                item.position(),
                item.generation(),
                step_at(before, item.position()) as int,
                State::Running,
            ),
{
    let (key, generation) = (item.position(), item.generation());
    let before = choose|before: TreeState| #[trigger]
        lock::steps(item.lock(), before, before.with_state(key, generation, State::Running));
    operations::state_is_set(before, key, generation, State::Running);
}

/// A task that is said to be blocked is blocked, with this reason and estimate, at the same step.
pub proof fn blocked_is_done(item: Item, reason: &str, eta: Option<Timestamp>)
    requires
        call_ensures(Item::blocked, (&item, reason, eta), ()),
    ensures
        exists|before: TreeState, after: TreeState, why: String| #[trigger]
            lock::steps(item.lock(), before, after) && #[trigger] why@ == reason@ && is_moved(
                before,
                after,
                item.position(),
                item.generation(),
                step_at(before, item.position()) as int,
                State::Blocked(why, eta),
            ),
{
    let (key, generation) = (item.position(), item.generation());
    let (before, why) = choose|before: TreeState, why: String|
        why@ == reason@ && #[trigger] lock::steps(
            item.lock(),
            before,
            before.with_state(key, generation, State::Blocked(why, eta)),
        );
    operations::state_is_set(before, key, generation, State::Blocked(why, eta));
}

/// A task that is said to be halted is halted, with this reason and estimate, at the same step.
pub proof fn halted_is_done(item: Item, reason: &str, eta: Option<Timestamp>)
    requires
        call_ensures(Item::halted, (&item, reason, eta), ()),
    ensures
        exists|before: TreeState, after: TreeState, why: String| #[trigger]
            lock::steps(item.lock(), before, after) && #[trigger] why@ == reason@ && is_moved(
                before,
                after,
                item.position(),
                item.generation(),
                step_at(before, item.position()) as int,
                State::Halted(why, eta),
            ),
{
    let (key, generation) = (item.position(), item.generation());
    let (before, why) = choose|before: TreeState, why: String|
        why@ == reason@ && #[trigger] lock::steps(
            item.lock(),
            before,
            before.with_state(key, generation, State::Halted(why, eta)),
        );
    operations::state_is_set(before, key, generation, State::Halted(why, eta));
}

// Names and tasks.

/// A renamed task has that name, and is otherwise as it was.
pub proof fn set_name_is_done(item: Item, name: &str)
    requires
        call_ensures(Item::set_name, (&item, name), ()),
    ensures
        exists|before: TreeState, after: TreeState| #[trigger]
            lock::steps(item.lock(), before, after) && ({
                let key = item.position();
                if before.generation == item.generation() && before.tasks.contains_key(key) {
                    &&& operations::same_but_task(before, after, key)
                    &&& after.tasks[key].name@ == name@
                    &&& after.tasks[key].id == before.tasks[key].id
                    &&& after.tasks[key].progress == before.tasks[key].progress
                } else {
                    after == before
                }
            }),
{
    let (key, generation) = (item.position(), item.generation());
    let (before, label) = choose|before: TreeState, label: String|
        label@ == name@ && #[trigger] lock::steps(
            item.lock(),
            before,
            before.with_name(key, generation, label),
        );
    operations::name_is_set(before, key, generation, label);
}

/// A removed task is gone, and nothing else changes.
pub proof fn remove_is_done(item: Item)
    requires
        call_ensures(Item::remove, (item,), ()),
    ensures
        exists|before: TreeState, after: TreeState| #[trigger]
            lock::steps(item.lock(), before, after) && (if before.generation == item.generation() {
                &&& operations::same_but_tasks(before, after)
                &&& after.tasks == before.tasks.remove(item.position())
            } else {
                after == before
            }),
{
    let (key, generation) = (item.position(), item.generation());
    let before = choose|before: TreeState| #[trigger]
        lock::steps(item.lock(), before, before.without_task(key, generation));
    let after = before.without_task(key, generation);
    operations::task_is_removed(before, key, generation);
    if before.generation == generation {
        assert(after.tasks =~= before.tasks.remove(key));
    }
}

/// Whether `child` is a handle for a task that was added right below the one at `key`, or beside it
/// on the deepest level, under the next number there, with this name and id and without progress. All
/// other tasks stay.
pub open spec fn child_is_added(
    before: TreeState,
    after: TreeState,
    child: Key,
    key: Key,
    name: Seq<char>,
    id: Id,
) -> bool {
    &&& exists|parent: Key| #[trigger]
        parent@ == (if key@.len() == 6 {
            key@.take(5)
        } else {
            key@
        }) && child@ == parent@.push(operations::next_below(before, parent))
    &&& after.tasks.contains_key(child)
    &&& after.tasks[child].name@ == name
    &&& after.tasks[child].id == id
    &&& after.tasks[child].progress is None
    &&& after.tasks.remove(child) == before.tasks.remove(child)
    &&& after.messages == before.messages
}

/// Adding a child adds a task with this name and id, and the handle of it belongs to the same tree.
pub proof fn add_child_with_id_is_done(item: Item, name: &str, id: Id, child: Item)
    requires
        call_ensures(Item::add_child_with_id, (&item, name, id), child),
    ensures
        child.lock() == item.lock(),
        child.generation() == item.generation(),
        child.clock() == item.clock(),
        exists|before: TreeState, after: TreeState| #[trigger]
            lock::steps(item.lock(), before, after) && (if before.generation == item.generation() {
                child_is_added(before, after, child.position(), item.position(), name@, id)
            } else {
                after == before && child.position() == item.position()
            }),
{
    added(item, name, id, child);
}

proof fn added(item: Item, name: &str, id: Id, child: Item)
    requires
        item::is_child(
            child,
            item.lock(),
            item.position(),
            item.generation(),
            name@,
            id,
        ),
    ensures
        exists|before: TreeState, after: TreeState| #[trigger]
            lock::steps(item.lock(), before, after) && (if before.generation == item.generation() {
                child_is_added(before, after, child.position(), item.position(), name@, id)
            } else {
                after == before && child.position() == item.position()
            }),
{
    let (key, generation) = (item.position(), item.generation());
    let (before, text) = choose|before: TreeState, text: String|
        text@ == name@ && #[trigger] lock::steps(
            item.lock(),
            before,
            before.with_child(key, generation, text, id),
        ) && child.position() == (if before.attached(generation) {
            before.child_position(key)
        } else {
            key
        }) && before.child_is_free(key);
    let after = before.with_child(key, generation, text, id);
    let at = child.position();
    operations::child_is_added(before, key, generation, text, id);
    if before.generation == generation {
        assert(after.tasks.remove(at) =~= before.tasks.remove(at));
        assert(child_is_added(before, after, at, key, name@, id));
    }
}

/// Adding a child without an id adds a task with this name whose id is all 0.
pub proof fn add_child_is_done(item: Item, name: &str, child: Item)
    requires
        call_ensures(Item::add_child, (&item, name), child),
    ensures
        child.lock() == item.lock(),
        child.generation() == item.generation(),
        child.clock() == item.clock(),
        exists|before: TreeState, after: TreeState| #[trigger]
            lock::steps(item.lock(), before, after) && (if before.generation == item.generation() {
                child_is_added(
                    before,
                    after,
                    child.position(),
                    item.position(),
                    name@,
                    [0u8, 0, 0, 0],
                )
            } else {
                after == before && child.position() == item.position()
            }),
{
    assert(progress::UNKNOWN =~= [0u8, 0, 0, 0]);
    added(item, name, progress::UNKNOWN, child);
}

// Messages.

proof fn message_in_tree(
    before: TreeState,
    key: Key,
    generation: u64,
    time: Timestamp,
    level: MessageLevel,
    text: String,
)
    ensures
        message_is_left(
            before,
            before.with_message(key, generation, time, level, text),
            key,
            generation,
            time,
            level,
            text@,
        ),
{
}

/// A message is left with this severity and text, at a time that the clock of the tree shows.
pub proof fn message_is_done(item: Item, level: MessageLevel, text: &str)
    requires
        call_ensures(Item::message, (&item, level, text), ()),
    ensures
        exists|before: TreeState, after: TreeState, time: Timestamp| #[trigger]
            lock::steps(item.lock(), before, after) && #[trigger] item.clock().shows(time)
                && message_is_left(
                before,
                after,
                item.position(),
                item.generation(),
                time,
                level,
                text@,
            ),
{
    let (key, generation) = (item.position(), item.generation());
    let (before, time, words) = choose|before: TreeState, time: Timestamp, words: String|
        item.clock().shows(time) && words@ == text@ && #[trigger] lock::steps(
            item.lock(),
            before,
            before.with_message(key, generation, time, level, words),
        );
    message_in_tree(before, key, generation, time, level, words);
}

/// An informational message is left with that severity.
pub proof fn info_is_done(item: Item, text: &str)
    requires
        call_ensures(Item::info, (&item, text), ()),
    ensures
        exists|before: TreeState, after: TreeState, time: Timestamp| #[trigger]
            lock::steps(item.lock(), before, after) && #[trigger] item.clock().shows(time)
                && message_is_left(
                before,
                after,
                item.position(),
                item.generation(),
                time,
                MessageLevel::Info,
                text@,
            ),
{
    let (key, generation) = (item.position(), item.generation());
    let (before, time, words) = choose|before: TreeState, time: Timestamp, words: String|
        item.clock().shows(time) && words@ == text@ && #[trigger] lock::steps(
            item.lock(),
            before,
            before.with_message(key, generation, time, MessageLevel::Info, words),
        );
    message_in_tree(before, key, generation, time, MessageLevel::Info, words);
}

/// The message that a task failed is left with that severity. The task is not complete for it.
pub proof fn fail_is_done(item: Item, text: &str)
    requires
        call_ensures(Item::fail, (&item, text), ()),
    ensures
        exists|before: TreeState, after: TreeState, time: Timestamp| #[trigger]
            lock::steps(item.lock(), before, after) && #[trigger] item.clock().shows(time)
                && message_is_left(
                before,
                after,
                item.position(),
                item.generation(),
                time,
                MessageLevel::Failure,
                text@,
            ),
{
    let (key, generation) = (item.position(), item.generation());
    let (before, time, words) = choose|before: TreeState, time: Timestamp, words: String|
        item.clock().shows(time) && words@ == text@ && #[trigger] lock::steps(
            item.lock(),
            before,
            before.with_message(key, generation, time, MessageLevel::Failure, words),
        );
    message_in_tree(before, key, generation, time, MessageLevel::Failure, words);
}

/// Whether all that happens is that a message of success is left, at `time`, and that the task is
/// complete then, at the same step.
pub open spec fn is_completed(
    before: TreeState,
    after: TreeState,
    key: Key,
    generation: u64,
    time: Timestamp,
    text: Seq<char>,
) -> bool {
    exists|between: TreeState|
        message_is_left(before, between, key, generation, time, MessageLevel::Success, text)
            && #[trigger] is_moved(
            between,
            after,
            key,
            generation,
            step_at(before, key) as int,
            State::Completed,
        )
}

/// A task that is done has left a message of success and is complete, in one step.
pub proof fn done_is_done(item: Item, text: &str)
    requires
        call_ensures(Item::done, (&item, text), ()),
    ensures
        exists|before: TreeState, after: TreeState, time: Timestamp| #[trigger]
            lock::steps(item.lock(), before, after) && #[trigger] item.clock().shows(time)
                && is_completed(
                before,
                after,
                item.position(),
                item.generation(),
                time,
                text@,
            ),
{
    let (key, generation) = (item.position(), item.generation());
    let (before, time, words) = choose|before: TreeState, time: Timestamp, words: String|
        item.clock().shows(time) && words@ == text@ && #[trigger] lock::steps(
            item.lock(),
            before,
            before.with_message(
                key,
                generation,
                time,
                MessageLevel::Success,
                words,
            ).with_state(key, generation, State::Completed),
        );
    let between = before.with_message(key, generation, time, MessageLevel::Success, words);
    let after = between.with_state(key, generation, State::Completed);
    message_in_tree(before, key, generation, time, MessageLevel::Success, words);
    operations::state_is_set(between, key, generation, State::Completed);
    assert(is_moved(
        between,
        after,
        key,
        generation,
        step_at(before, key) as int,
        State::Completed,
    ));
    assert(is_completed(before, after, key, generation, time, text@));
}

// Looking.

/// Whether a handle belongs to the tree is whether it has the generation of the tree that is found,
/// which stays as it is.
pub proof fn is_attached_is_seen(item: Item, seen: bool)
    requires
        call_ensures(Item::is_attached, (&item,), seen),
    ensures
        exists|found: TreeState| #[trigger]
            lock::steps(item.lock(), found, found) && (seen <==> found.generation
                == item.generation()),
{
}

/// Whether a task is complete is whether the tree that is found, and stays as it is, says so.
pub proof fn is_terminal_is_seen(item: Item, seen: bool)
    requires
        call_ensures(Item::is_terminal, (&item,), seen),
    ensures
        exists|found: TreeState| #[trigger]
            lock::steps(item.lock(), found, found) && (seen <==> found.tasks.contains_key(
                item.position(),
            ) && (found.tasks[item.position()].progress matches Some(value)
                && value.state is Completed)),
{
}

} // verus!
