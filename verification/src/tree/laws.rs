//! What holds of the handles of a tree, and of the numbers that children get.

use vstd::prelude::*;

use crate::messages::MessageLevel;
use crate::progress::key;
use crate::progress::{Id, Key, State, Task};
use crate::time::Timestamp;
use crate::tree;
use crate::tree::snapshot::model::{Record, TaskRecord};
use crate::tree::snapshot::transfer;
use crate::tree::TreeState;
use crate::unit::Unit;

verus! {

// Handles.

/// Whether nothing that handles of this generation do changes the tree.
pub open spec fn inert(state: TreeState, generation: u64) -> bool {
    &&& forall|key: Key, name: String, id: Id| #[trigger]
        state.with_child(key, generation, name, id) == state
    &&& forall|key: Key| #[trigger] state.without_task(key, generation) == state
    &&& forall|key: Key, max: Option<usize>, unit: Option<Unit>| #[trigger]
        state.with_init(key, generation, max, unit) == state
    &&& forall|key: Key, step: usize| #[trigger] state.with_step(key, generation, step) == state
    &&& forall|key: Key, steps: usize| #[trigger]
        state.with_steps_added(key, generation, steps) == state
    &&& forall|key: Key, task_state: State| #[trigger]
        state.with_state(key, generation, task_state) == state
    &&& forall|key: Key, name: String| #[trigger] state.with_name(key, generation, name) == state
    &&& forall|key: Key, time: Timestamp, level: MessageLevel, text: String| #[trigger]
        state.with_message(key, generation, time, level, text) == state
}

/// Handles that were invalidated cannot change the tree in any way.
pub proof fn detached_handles_change_nothing(state: TreeState, generation: u64)
    requires
        !state.attached(generation),
    ensures
        inert(state, generation),
{
}

/// Restoring a snapshot invalidates the handles that belonged to the tree: from then on they change
/// nothing of it. Its tasks, messages and child numbers stay. The handle that children of the
/// restored tree's root are added with belongs to that tree, which has the snapshot's identity.
pub proof fn restoring_invalidates_handles(state: TreeState, record: Record, generation: u64)
    requires
        state.attached(generation),
    ensures
        ({
            let left = state.superseded();
            let restored = transfer::restored(record);
            &&& left.generation == state.generation.wrapping_add(1)
            &&& left == (TreeState { generation: left.generation, ..state })
            &&& !left.attached(generation)
            &&& inert(left, generation)
            &&& restored.attached(0)
            &&& restored.tree_id == record.tree_id
        }),
{
    detached_handles_change_nothing(state.superseded(), generation);
}

/// Superseding a tree invalidates the handles that belonged to it, and changes nothing else.
pub proof fn superseding_detaches_handles(state: TreeState, generation: u64)
    requires
        state.attached(generation),
    ensures
        !state.superseded().attached(generation),
        state.superseded() == (TreeState {
            generation: state.superseded().generation,
            ..state
        }),
{
}

/// A tree after it was superseded `n` times.
pub open spec fn superseded_times(state: TreeState, n: nat) -> TreeState
    decreases n,
{
    if n == 0 {
        state
    } else {
        superseded_times(state, (n - 1) as nat).superseded()
    }
}

/// How many generations there are before they come again.
pub const GENERATIONS: u128 = 0x1_0000_0000_0000_0000;

/// Handles of a superseded tree stay invalidated however often it is superseded again, until the
/// generations come again.
pub proof fn superseded_handles_stay_detached(state: TreeState, generation: u64, n: nat)
    requires
        state.attached(generation),
    ensures
        superseded_times(state, n).attached(generation) <==> n % GENERATIONS as nat == 0,
{
    superseded_generation(state, n);
    let sum = state.generation + n;
    if n % GENERATIONS as nat == 0 {
        assert(sum % (GENERATIONS as int) == state.generation) by (nonlinear_arith)
            requires
                sum == state.generation + n,
                n % GENERATIONS as nat == 0,
                0 <= state.generation < GENERATIONS,
        ;
    } else if sum % (GENERATIONS as int) == state.generation {
        assert(n % GENERATIONS as nat == 0) by (nonlinear_arith)
            requires
                sum == state.generation + n,
                sum % (GENERATIONS as int) == state.generation,
                0 <= state.generation < GENERATIONS,
        ;
    }
}

proof fn superseded_generation(state: TreeState, n: nat)
    ensures
        superseded_times(state, n).generation == (state.generation + n) % (GENERATIONS as int),
    decreases n,
{
    if n > 0 {
        superseded_generation(state, (n - 1) as nat);
    }
}

/// Handles cannot move a completed task: its step, bound, unit and state stay.
pub proof fn completed_tasks_stay(
    state: TreeState,
    key: Key,
    generation: u64,
    max: Option<usize>,
    unit: Option<Unit>,
    step: usize,
    task_state: State,
    name: String,
)
    requires
        state.tasks.contains_key(key),
        state.tasks[key].terminal(),
    ensures
        state.with_init(key, generation, max, unit) == state,
        state.with_step(key, generation, step) == state,
        state.with_steps_added(key, generation, step) == state,
        state.with_state(key, generation, task_state) == state,
        state.with_name(key, generation, name).tasks[key].progress == state.tasks[key].progress,
{
}

/// Handles of a task leave all other tasks alone.
pub proof fn handles_change_their_own_task(
    state: TreeState,
    key: Key,
    generation: u64,
    max: Option<usize>,
    unit: Option<Unit>,
    step: usize,
    task_state: State,
    name: String,
    other: Key,
)
    requires
        other != key,
    ensures
        same_task(state, state.with_init(key, generation, max, unit), other),
        same_task(state, state.with_step(key, generation, step), other),
        same_task(state, state.with_steps_added(key, generation, step), other),
        same_task(state, state.with_state(key, generation, task_state), other),
        same_task(state, state.with_name(key, generation, name), other),
        same_task(state, state.without_task(key, generation), other),
{
}

/// Whether both trees have the same task at `key`, or both none.
pub open spec fn same_task(before: TreeState, after: TreeState, key: Key) -> bool {
    &&& before.tasks.contains_key(key) <==> after.tasks.contains_key(key)
    &&& before.tasks.contains_key(key) ==> after.tasks[key] == before.tasks[key]
}

// Child numbers.

/// Whether `next` is past `number`, as far as there are numbers.
pub open spec fn past(next: key::Id, number: key::Id) -> bool {
    number < next || next == u16::MAX
}

/// Whether the next child number below the parent of `key` is past that of `key`.
pub open spec fn numbered_past(state: TreeState, key: Key) -> bool {
    key.spec_parent() matches Some(parent) ==> past(state.next_number(parent), key@.last())
}

/// Whether the next child numbers are past those of all tasks of the tree.
pub open spec fn numbered(state: TreeState) -> bool {
    forall|key: Key| #[trigger] state.tasks.contains_key(key) ==> numbered_past(state, key)
}

/// Whether the tree is numbered, unless a merge was refused midway.
pub open spec fn accounted(state: TreeState) -> bool {
    !state.interrupted ==> numbered(state)
}

proof fn next_number_is_past(tasks: Seq<TaskRecord>, i: int)
    requires
        0 <= i < tasks.len(),
        tasks[i].position() is Some,
    ensures
        tasks[i].position()->0.spec_parent() matches Some(parent) ==> {
            &&& transfer::has_child(tasks, parent)
            &&& past(transfer::next_number(tasks, parent), tasks[i].position()->0@.last())
        },
    decreases tasks.len(),
{
    if let Some(parent) = tasks[i].position()->0.spec_parent() {
        assert(transfer::is_child(tasks[i], parent));
        if i < tasks.len() - 1 {
            assert(tasks.drop_last()[i] == tasks[i]);
            next_number_is_past(tasks.drop_last(), i);
        }
    }
}

proof fn placed_task_is_listed(tasks: Seq<TaskRecord>, key: Key) -> (i: int)
    requires
        transfer::placed_tasks(tasks).contains_key(key),
    ensures
        0 <= i < tasks.len(),
        tasks[i].position() == Some(key),
    decreases tasks.len(),
{
    if tasks.last().position() == Some(key) {
        tasks.len() - 1
    } else {
        placed_task_is_listed(tasks.drop_last(), key)
    }
}

proof fn folded_task_is_known(
    tasks: Map<Key, Task>,
    incoming: Seq<TaskRecord>,
    key: Key,
) -> (i: int)
    requires
        transfer::folded_tasks(tasks, incoming).contains_key(key),
    ensures
        tasks.contains_key(key) || 0 <= i < incoming.len() && incoming[i].position() == Some(key),
    decreases incoming.len(),
{
    if incoming.len() == 0 {
        0
    } else if incoming.last().position() == Some(key) {
        incoming.len() - 1
    } else {
        folded_task_is_known(tasks, incoming.drop_last(), key)
    }
}

/// A new tree is numbered.
pub proof fn fresh_tree_is_numbered(message_capacity: usize, tree_id: Seq<u8>)
    ensures
        numbered(TreeState::fresh(message_capacity, tree_id)),
{
}

/// A restored tree is numbered: new children do not reuse positions of the snapshot.
pub proof fn restored_tree_is_numbered(record: Record)
    ensures
        numbered(transfer::restored(record)),
{
    let state = transfer::restored(record);
    assert forall|key: Key| #[trigger] state.tasks.contains_key(key) implies numbered_past(
        state,
        key,
    ) by {
        let i = placed_task_is_listed(record.tasks, key);
        next_number_is_past(record.tasks, i);
    }
}

/// After a merge the child numbers are past those of all tasks of the snapshot, and a numbered tree
/// stays numbered: new children do not reuse positions of the tree or of the snapshot.
pub proof fn merged_tree_is_numbered(state: TreeState, record: Record)
    ensures
        forall|i: int|
            #![trigger record.tasks[i]]
            0 <= i < record.tasks.len() ==> (record.tasks[i].position() matches Some(key)
                ==> numbered_past(transfer::merged(state, record), key)),
        numbered(state) ==> numbered(transfer::merged(state, record)),
{
    let after = transfer::merged(state, record);
    assert forall|i: int| #![trigger record.tasks[i]] 0 <= i < record.tasks.len() implies (
    record.tasks[i].position() matches Some(key) ==> numbered_past(after, key)) by {
        if record.tasks[i].position() is Some {
            next_number_is_past(record.tasks, i);
        }
    }
    if numbered(state) {
        assert forall|key: Key| #[trigger] after.tasks.contains_key(key) implies numbered_past(
            after,
            key,
        ) by {
            let i = folded_task_is_known(state.tasks, record.tasks, key);
            if state.tasks.contains_key(key) {
                assert(numbered_past(state, key));
            } else {
                assert(record.tasks[i].position() == Some(key));
            }
        }
    }
}

/// In a numbered tree a new child gets a position that no task has, as long as there are numbers,
/// and the tree stays numbered.
pub proof fn new_child_is_new(state: TreeState, key: Key, generation: u64, name: String, id: Id)
    requires
        numbered(state),
    ensures
        state.next_number(TreeState::child_parent(key)) < u16::MAX ==> !state.tasks.contains_key(
            state.child_position(key),
        ),
        numbered(state.with_child(key, generation, name, id)),
{
    let parent = TreeState::child_parent(key);
    let number = state.next_number(parent);
    let child = state.child_position(key);
    key::key_is_its_path(key);
    if key@.len() == key::MAX_LEVEL {
        key::path_of_key(key@.drop_last());
    }
    key::path_of_key(parent@.push(number));
    assert(parent@.push(number).drop_last() =~= parent@);
    key::key_is_its_path(parent);
    assert(child.spec_parent() == Some(parent));
    assert(child@.last() == number);
    if state.tasks.contains_key(child) {
        assert(numbered_past(state, child));
    }
    let after = state.with_child(key, generation, name, id);
    if state.attached(generation) {
        assert forall|other: Key| #[trigger] after.tasks.contains_key(other) implies numbered_past(
            after,
            other,
        ) by {
            if other != child {
                assert(state.tasks.contains_key(other));
                assert(numbered_past(state, other));
            }
        }
    }
}

/// A child that is added right after another one of the same parent gets the very next number.
pub proof fn next_child_gets_the_next_number(
    state: TreeState,
    key: Key,
    generation: u64,
    name: String,
    id: Id,
)
    requires
        state.attached(generation),
    ensures
        ({
            let parent = TreeState::child_parent(key);
            state.with_child(key, generation, name, id).next_number(parent) == tree::number_after(
                state.next_number(parent),
            )
        }),
{
}

/// All that handles do besides adding children keeps a tree numbered.
pub proof fn handles_keep_the_tree_numbered(
    state: TreeState,
    key: Key,
    generation: u64,
    name: String,
    max: Option<usize>,
    unit: Option<Unit>,
    step: usize,
    task_state: State,
    time: Timestamp,
    level: MessageLevel,
    text: String,
)
    requires
        numbered(state),
    ensures
        numbered(state.without_task(key, generation)),
        numbered(state.with_init(key, generation, max, unit)),
        numbered(state.with_step(key, generation, step)),
        numbered(state.with_steps_added(key, generation, step)),
        numbered(state.with_state(key, generation, task_state)),
        numbered(state.with_name(key, generation, name)),
        numbered(state.with_message(key, generation, time, level, text)),
        numbered(state.superseded()),
{
    fewer_tasks_stay_numbered(state, state.without_task(key, generation));
    fewer_tasks_stay_numbered(state, state.with_init(key, generation, max, unit));
    fewer_tasks_stay_numbered(state, state.with_step(key, generation, step));
    fewer_tasks_stay_numbered(state, state.with_steps_added(key, generation, step));
    fewer_tasks_stay_numbered(state, state.with_state(key, generation, task_state));
    fewer_tasks_stay_numbered(state, state.with_name(key, generation, name));
    fewer_tasks_stay_numbered(state, state.with_message(key, generation, time, level, text));
    fewer_tasks_stay_numbered(state, state.superseded());
}

/// A numbered tree stays so when it has no new tasks and the same child numbers.
pub proof fn fewer_tasks_stay_numbered(state: TreeState, after: TreeState)
    requires
        numbered(state),
        after.next_child == state.next_child,
        after.root_next_child == state.root_next_child,
        forall|key: Key| #[trigger]
            after.tasks.contains_key(key) ==> state.tasks.contains_key(key),
    ensures
        numbered(after),
{
    assert forall|key: Key| #[trigger] after.tasks.contains_key(key) implies numbered_past(
        after,
        key,
    ) by {
        assert(numbered_past(state, key));
    }
}

/// The same, of trees that a merge may have been refused to midway.
pub proof fn fewer_tasks_stay_accounted(state: TreeState, after: TreeState)
    requires
        accounted(state),
        after.interrupted == state.interrupted,
        after.next_child == state.next_child,
        after.root_next_child == state.root_next_child,
        forall|key: Key| #[trigger]
            after.tasks.contains_key(key) ==> state.tasks.contains_key(key),
    ensures
        accounted(after),
{
    if !state.interrupted {
        fewer_tasks_stay_numbered(state, after);
    }
}

} // verus!
