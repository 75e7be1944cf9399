//! What a tree that a snapshot was merged into has, told by what was in the tree and what is in the
//! snapshot.

use vstd::prelude::*;

use crate::progress::{Key, Task, Value};
use crate::tree::snapshot;
use crate::tree::snapshot::laws;
use crate::tree::snapshot::model::{Record, TaskRecord, ValueSnapshot};
use crate::tree::snapshot::refusals;
use crate::tree::snapshot::stored;
use crate::tree::snapshot::transfer;
use crate::tree::TreeState;

verus! {

// Progress.

/// Whether `merged` is what `current` becomes when the progress that is stored as `incoming` is
/// merged into it: the step and the bound are the larger ones, a known bound counting as larger than
/// none; the unit is the current one if there is one, and otherwise the stored one, in label and mode; and
/// the state is the stored one unless the current one is complete.
pub open spec fn is_merged(current: Value, incoming: ValueSnapshot, merged: Value) -> bool {
    &&& merged.step >= current.step
    &&& merged.step >= incoming.step
    &&& merged.step == current.step || merged.step == incoming.step
    &&& merged.done_at is None <==> current.done_at is None && incoming.done_at is None
    &&& current.done_at matches Some(bound) ==> merged.done_at->0 >= bound
    &&& incoming.done_at matches Some(bound) ==> merged.done_at->0 >= bound
    &&& merged.done_at == current.done_at || merged.done_at == incoming.done_at
    &&& current.unit is Some ==> merged.unit == current.unit
    &&& current.unit is None ==> stored::unit_is_read(merged.unit, incoming.unit)
    &&& current.state is Completed ==> merged.state is Completed
    &&& !(current.state is Completed) ==> stored::state_is_read(merged.state, incoming.state)
}

/// Progress is merged into what is there.
pub proof fn values_are_merged(current: Value, incoming: ValueSnapshot)
    ensures
        is_merged(current, incoming, snapshot::merged_value(current, incoming)),
{
    stored::units_keep_their_meaning(current.unit, incoming.unit);
    stored::states_keep_their_meaning(current.state, incoming.state);
}

/// Whether `folded` is what `existing` becomes when the task that is stored as `incoming` is folded
/// into it: what it has of an id, a name and progress stays or is merged, and what it lacks is filled
/// in.
pub open spec fn is_folded(existing: Task, incoming: TaskRecord, folded: Task) -> bool {
    &&& existing.name@.len() > 0 ==> folded.name == existing.name
    &&& existing.name@.len() == 0 && incoming.name@.len() > 0 ==> folded.name == incoming.name
    &&& existing.name@.len() == 0 && incoming.name@.len() == 0 ==> folded.name@.len() == 0
    &&& is_known(existing.id@) ==> folded.id == existing.id
    &&& !is_known(existing.id@) && is_known(incoming.id) ==> folded.id@ == incoming.id
    &&& !is_known(existing.id@) && !is_known(incoming.id) ==> folded.id == existing.id
    &&& folded.progress is Some <==> existing.progress is Some || incoming.progress is Some
    &&& incoming.progress is None ==> folded.progress == existing.progress
    &&& incoming.progress matches Some(value) ==> match existing.progress {
        Some(current) => is_merged(current, value, folded.progress->0),
        None => stored::value_is_read(folded.progress->0, value),
    }
}

/// Whether these are the four bytes of an id, which are not all 0.
pub open spec fn is_known(id: Seq<u8>) -> bool {
    id.len() == 4 && !(id[0] == 0 && id[1] == 0 && id[2] == 0 && id[3] == 0)
}

proof fn known_ids(task: Task)
    ensures
        is_known(task.id@) <==> task.id != crate::progress::UNKNOWN,
{
    let unknown = crate::progress::UNKNOWN;
    assert(unknown@[0] == 0 && unknown@[1] == 0 && unknown@[2] == 0 && unknown@[3] == 0);
    if !is_known(task.id@) {
        assert(task.id =~= unknown);
    }
}

/// Tasks are folded into what is there.
pub proof fn tasks_are_folded(existing: Task, incoming: TaskRecord)
    ensures
        is_folded(existing, incoming, snapshot::folded_task(existing, incoming)),
{
    known_ids(existing);
    stored::id_is_read(incoming.id);
    if let Some(value) = incoming.progress {
        if let Some(current) = existing.progress {
            values_are_merged(current, value);
        }
        stored::tasks_keep_their_meaning(Key::Root, existing, incoming);
    }
}

// Trees.

/// What a task of a snapshot can tell of the one at its position.
pub enum Aspect {
    /// A name that is not empty.
    Name,
    /// An id that is not all 0.
    Id,
    /// Progress.
    Progress,
    /// Progress with a unit.
    Unit,
    /// Progress that is complete.
    Completion,
}

/// Whether a task of a snapshot is at `key` and tells this.
pub open spec fn tells(task: TaskRecord, key: Key, aspect: Aspect) -> bool {
    &&& stored::path_is(task.key, key)
    &&& match aspect {
        Aspect::Name => task.name@.len() > 0,
        Aspect::Id => is_known(task.id),
        Aspect::Progress => task.progress is Some,
        Aspect::Unit => task.progress matches Some(value) && value.unit is Some,
        Aspect::Completion => task.progress matches Some(value) && value.state is Completed,
    }
}

/// Whether one of the tasks tells this.
pub open spec fn some_tells(tasks: Seq<TaskRecord>, key: Key, aspect: Aspect) -> bool {
    exists|i: int| 0 <= i < tasks.len() && tells(#[trigger] tasks[i], key, aspect)
}

/// Whether the `i`th task is the first one that tells this.
pub open spec fn first_tells(tasks: Seq<TaskRecord>, key: Key, aspect: Aspect, i: int) -> bool {
    &&& 0 <= i < tasks.len()
    &&& tells(tasks[i], key, aspect)
    &&& forall|j: int| 0 <= j < i ==> !tells(#[trigger] tasks[j], key, aspect)
}

/// Whether the `i`th task is the last one that tells this.
pub open spec fn last_tells(tasks: Seq<TaskRecord>, key: Key, aspect: Aspect, i: int) -> bool {
    &&& 0 <= i < tasks.len()
    &&& tells(tasks[i], key, aspect)
    &&& forall|j: int| i < j < tasks.len() ==> !tells(#[trigger] tasks[j], key, aspect)
}

/// Whether a tree has a task at `key` that tells this already.
pub open spec fn tree_tells(tasks: Map<Key, Task>, key: Key, aspect: Aspect) -> bool {
    &&& tasks.contains_key(key)
    &&& match aspect {
        Aspect::Name => tasks[key].name@.len() > 0,
        Aspect::Id => is_known(tasks[key].id@),
        Aspect::Progress => tasks[key].progress is Some,
        Aspect::Unit => tasks[key].progress matches Some(value) && value.unit is Some,
        Aspect::Completion => tasks[key].progress matches Some(value) && value.state is Completed,
    }
}

proof fn tells_step(tasks: Seq<TaskRecord>, key: Key, aspect: Aspect)
    requires
        tasks.len() > 0,
    ensures
        ({
            let init = tasks.drop_last();
            let n = tasks.len() - 1;
            &&& some_tells(tasks, key, aspect) <==> some_tells(init, key, aspect) || tells(
                tasks[n],
                key,
                aspect,
            )
            &&& forall|i: int| #[trigger]
                first_tells(tasks, key, aspect, i) ==> first_tells(init, key, aspect, i) || i == n
                    && !some_tells(init, key, aspect)
            &&& forall|i: int| #[trigger]
                last_tells(tasks, key, aspect, i) ==> i == n || last_tells(init, key, aspect, i)
                    && !tells(tasks[n], key, aspect)
        }),
{
    let init = tasks.drop_last();
    let n = tasks.len() - 1;
    assert forall|i: int| #![trigger init[i]] 0 <= i < init.len() implies init[i] == tasks[i] by {}
    if some_tells(init, key, aspect) {
        let i = choose|i: int| 0 <= i < init.len() && tells(#[trigger] init[i], key, aspect);
        assert(tells(tasks[i], key, aspect));
    }
    if some_tells(tasks, key, aspect) {
        let i = choose|i: int| 0 <= i < tasks.len() && tells(#[trigger] tasks[i], key, aspect);
        if i < n {
            assert(tells(init[i], key, aspect));
        }
    }
    assert forall|i: int| #[trigger] first_tells(tasks, key, aspect, i) implies first_tells(
        init,
        key,
        aspect,
        i,
    ) || i == n && !some_tells(init, key, aspect) by {
        if i < n {
            assert(init[i] == tasks[i]);
            assert forall|j: int| 0 <= j < i implies !tells(#[trigger] init[j], key, aspect) by {
                assert(!tells(tasks[j], key, aspect));
            }
        } else if some_tells(init, key, aspect) {
            let j = choose|j: int| 0 <= j < init.len() && tells(#[trigger] init[j], key, aspect);
            assert(!tells(tasks[j], key, aspect));
        }
    }
    assert forall|i: int| #[trigger] last_tells(tasks, key, aspect, i) implies i == n
        || last_tells(init, key, aspect, i) && !tells(tasks[n], key, aspect) by {
        if i < n {
            assert(init[i] == tasks[i]);
            assert(!tells(tasks[n], key, aspect));
            assert forall|j: int| i < j < init.len() implies !tells(
                #[trigger] init[j],
                key,
                aspect,
            ) by {
                assert(!tells(tasks[j], key, aspect));
            }
        }
    }
}

/// What holds of the task at `key` after the tasks of a snapshot were folded in.
pub open spec fn is_result(
    before: Map<Key, Task>,
    tasks: Seq<TaskRecord>,
    key: Key,
    after: Task,
) -> bool {
    // The name: that of the tree, or the first one that the snapshot tells.
    &&& tree_tells(before, key, Aspect::Name) ==> after.name == before[key].name
    &&& !tree_tells(before, key, Aspect::Name) ==> forall|i: int| #[trigger]
        first_tells(tasks, key, Aspect::Name, i) ==> after.name == tasks[i].name
    &&& !tree_tells(before, key, Aspect::Name) && !some_tells(tasks, key, Aspect::Name)
        ==> after.name@.len() == 0
    // The id: that of the tree, or the first one that the snapshot tells.
    &&& tree_tells(before, key, Aspect::Id) ==> after.id == before[key].id
    &&& !tree_tells(before, key, Aspect::Id) ==> forall|i: int| #[trigger]
        first_tells(tasks, key, Aspect::Id, i) ==> after.id@ == tasks[i].id
    &&& !tree_tells(before, key, Aspect::Id) && !some_tells(tasks, key, Aspect::Id) ==> !is_known(
        after.id@,
    )
    // Progress: if the tree or the snapshot tells of it.
    &&& after.progress is Some <==> tree_tells(before, key, Aspect::Progress) || some_tells(
        tasks,
        key,
        Aspect::Progress,
    )
    &&& after.progress matches Some(value) ==> {
        // The unit: that of the tree, or the first one that the snapshot tells.
        &&& tree_tells(before, key, Aspect::Unit) ==> value.unit == before[key].progress->0.unit
        &&& !tree_tells(before, key, Aspect::Unit) ==> forall|i: int| #[trigger]
            first_tells(tasks, key, Aspect::Unit, i) ==> stored::unit_is_read(
                value.unit,
                tasks[i].progress->0.unit,
            )
        &&& !tree_tells(before, key, Aspect::Unit) && !some_tells(tasks, key, Aspect::Unit)
            ==> value.unit is None
        // The state: complete if the tree or the snapshot tells so, and else the last one that the
        // snapshot tells.
        &&& value.state is Completed <==> tree_tells(before, key, Aspect::Completion) || some_tells(
            tasks,
            key,
            Aspect::Completion,
        )
        &&& !(value.state is Completed) ==> forall|i: int| #[trigger]
            last_tells(tasks, key, Aspect::Progress, i) ==> stored::state_is_read(
                value.state,
                tasks[i].progress->0.state,
            )
        &&& !some_tells(tasks, key, Aspect::Progress) ==> value == before[key].progress->0
        // The step: the largest one that the tree and the snapshot tell.
        &&& tree_tells(before, key, Aspect::Progress) ==> value.step >= before[key].progress->0.step
        &&& forall|i: int|
            0 <= i < tasks.len() && tells(#[trigger] tasks[i], key, Aspect::Progress) ==> value.step
                >= tasks[i].progress->0.step
        &&& tree_tells(before, key, Aspect::Progress) && value.step == before[key].progress->0.step
            || exists|i: int|
            0 <= i < tasks.len() && tells(#[trigger] tasks[i], key, Aspect::Progress) && value.step
                == tasks[i].progress->0.step
        // The bound: the largest one that the tree and the snapshot tell.
        &&& tree_tells(before, key, Aspect::Progress) && before[key].progress->0.done_at is Some
            ==> value.done_at is Some && value.done_at->0 >= before[key].progress->0.done_at->0
        &&& forall|i: int|
            0 <= i < tasks.len() && tells(#[trigger] tasks[i], key, Aspect::Progress)
                && tasks[i].progress->0.done_at is Some ==> value.done_at is Some
                && value.done_at->0 >= tasks[i].progress->0.done_at->0
        &&& value.done_at is None || tree_tells(before, key, Aspect::Progress) && value.done_at
            == before[key].progress->0.done_at || exists|i: int|
            0 <= i < tasks.len() && tells(#[trigger] tasks[i], key, Aspect::Progress)
                && value.done_at == tasks[i].progress->0.done_at
    }
}

proof fn folding_has_results(before: Map<Key, Task>, tasks: Seq<TaskRecord>, key: Key)
    requires
        forall|i: int| 0 <= i < tasks.len() ==> (#[trigger] tasks[i]).id.len() == 4,
    ensures
        ({
            let after = transfer::folded_tasks(before, tasks);
            &&& after.contains_key(key) <==> before.contains_key(key) || exists|i: int|
                0 <= i < tasks.len() && stored::path_is((#[trigger] tasks[i]).key, key)
            &&& after.contains_key(key) ==> is_result(before, tasks, key, after[key])
        }),
    decreases tasks.len(),
{
    let after = transfer::folded_tasks(before, tasks);
    if tasks.len() > 0 {
        let init = tasks.drop_last();
        let n = tasks.len() - 1;
        let last = tasks[n];
        assert forall|i: int| 0 <= i < init.len() implies (#[trigger] init[i]).id.len() == 4 by {
            assert(tasks[i].id.len() == 4);
        }
        folding_has_results(before, init, key);
        let middle = transfer::folded_tasks(before, init);
        stored::position_is_read(last.key, key);
        tells_step(tasks, key, Aspect::Name);
        tells_step(tasks, key, Aspect::Id);
        tells_step(tasks, key, Aspect::Progress);
        tells_step(tasks, key, Aspect::Unit);
        tells_step(tasks, key, Aspect::Completion);
        assert(last == tasks.last());
        if exists|i: int| 0 <= i < init.len() && stored::path_is((#[trigger] init[i]).key, key) {
            let i = choose|i: int|
                0 <= i < init.len() && stored::path_is((#[trigger] init[i]).key, key);
            assert(stored::path_is(tasks[i].key, key));
        }
        if exists|i: int| 0 <= i < tasks.len() && stored::path_is((#[trigger] tasks[i]).key, key) {
            let i = choose|i: int|
                0 <= i < tasks.len() && stored::path_is((#[trigger] tasks[i]).key, key);
            if i < n {
                assert(stored::path_is(init[i].key, key));
            }
        }
        if stored::path_is(last.key, key) {
            assert(stored::path_is(tasks[n].key, key));
            if middle.contains_key(key) {
                tasks_are_folded(middle[key], last);
                result_folded(before, tasks, key, middle[key], after[key]);
            } else {
                stored::tasks_keep_their_meaning(key, after[key], last);
                stored::id_is_read(last.id);
                nothing_told(init, key);
                result_inserted(before, tasks, key, after[key]);
            }
        } else if after.contains_key(key) {
            result_elsewhere(before, tasks, key, after[key]);
        }
    }
}

proof fn nothing_told(tasks: Seq<TaskRecord>, key: Key)
    requires
        !exists|i: int| 0 <= i < tasks.len() && stored::path_is((#[trigger] tasks[i]).key, key),
    ensures
        forall|aspect: Aspect| !#[trigger] some_tells(tasks, key, aspect),
{
    assert forall|aspect: Aspect| !#[trigger] some_tells(tasks, key, aspect) by {
        if some_tells(tasks, key, aspect) {
            let i = choose|i: int| 0 <= i < tasks.len() && tells(#[trigger] tasks[i], key, aspect);
            assert(stored::path_is(tasks[i].key, key));
        }
    }
}

proof fn result_elsewhere(
    before: Map<Key, Task>,
    tasks: Seq<TaskRecord>,
    key: Key,
    after: Task,
)
    requires
        tasks.len() > 0,
        !stored::path_is(tasks[tasks.len() - 1].key, key),
        is_result(before, tasks.drop_last(), key, after),
    ensures
        is_result(before, tasks, key, after),
{
    let init = tasks.drop_last();
    let n = tasks.len() - 1;
    tells_step(tasks, key, Aspect::Name);
    tells_step(tasks, key, Aspect::Id);
    tells_step(tasks, key, Aspect::Progress);
    tells_step(tasks, key, Aspect::Unit);
    tells_step(tasks, key, Aspect::Completion);
    assert forall|i: int| #![trigger tasks[i]] 0 <= i < n implies init[i] == tasks[i] by {}
    assert forall|i: int| #![trigger init[i]] 0 <= i < n implies init[i] == tasks[i] by {}
    assert forall|aspect: Aspect| !#[trigger] tells(tasks[n], key, aspect) by {}
    assert forall|aspect: Aspect, i: int| #[trigger]
        first_tells(tasks, key, aspect, i) implies i < n by {}
    assert forall|aspect: Aspect, i: int| #[trigger]
        last_tells(tasks, key, aspect, i) implies i < n by {}
    if let Some(value) = after.progress {
        attained(before, tasks, key, value);
    }
}

/// A step and a bound that are told before the last task are told altogether.
proof fn attained(before: Map<Key, Task>, tasks: Seq<TaskRecord>, key: Key, value: Value)
    requires
        tasks.len() > 0,
    ensures
        ({
            let init = tasks.drop_last();
            &&& (exists|i: int|
                0 <= i < init.len() && tells(#[trigger] init[i], key, Aspect::Progress)
                    && value.step == init[i].progress->0.step) ==> exists|i: int|
                0 <= i < tasks.len() && tells(#[trigger] tasks[i], key, Aspect::Progress)
                    && value.step == tasks[i].progress->0.step
            &&& (exists|i: int|
                0 <= i < init.len() && tells(#[trigger] init[i], key, Aspect::Progress)
                    && value.done_at == init[i].progress->0.done_at) ==> exists|i: int|
                0 <= i < tasks.len() && tells(#[trigger] tasks[i], key, Aspect::Progress)
                    && value.done_at == tasks[i].progress->0.done_at
        }),
{
    let init = tasks.drop_last();
    if exists|i: int|
        0 <= i < init.len() && tells(#[trigger] init[i], key, Aspect::Progress) && value.step
            == init[i].progress->0.step {
        let i = choose|i: int|
            0 <= i < init.len() && tells(#[trigger] init[i], key, Aspect::Progress) && value.step
                == init[i].progress->0.step;
        assert(tasks[i] == init[i]);
    }
    if exists|i: int|
        0 <= i < init.len() && tells(#[trigger] init[i], key, Aspect::Progress) && value.done_at
            == init[i].progress->0.done_at {
        let i = choose|i: int|
            0 <= i < init.len() && tells(#[trigger] init[i], key, Aspect::Progress) && value.done_at
                == init[i].progress->0.done_at;
        assert(tasks[i] == init[i]);
    }
}

proof fn result_inserted(before: Map<Key, Task>, tasks: Seq<TaskRecord>, key: Key, after: Task)
    requires
        tasks.len() > 0,
        !before.contains_key(key),
        stored::path_is(tasks[tasks.len() - 1].key, key),
        tasks[tasks.len() - 1].id.len() == 4,
        stored::task_is_read(after, tasks[tasks.len() - 1]),
        forall|aspect: Aspect| !#[trigger] some_tells(tasks.drop_last(), key, aspect),
    ensures
        is_result(before, tasks, key, after),
{
    let init = tasks.drop_last();
    let n = tasks.len() - 1;
    tells_step(tasks, key, Aspect::Name);
    tells_step(tasks, key, Aspect::Id);
    tells_step(tasks, key, Aspect::Progress);
    tells_step(tasks, key, Aspect::Unit);
    tells_step(tasks, key, Aspect::Completion);
    assert forall|aspect: Aspect, i: int| 0 <= i < n implies !#[trigger] tells(
        tasks[i],
        key,
        aspect,
    ) by {
        assert(!some_tells(init, key, aspect));
        assert(!tells(init[i], key, aspect));
    }
    assert forall|aspect: Aspect, i: int| #[trigger]
        first_tells(tasks, key, aspect, i) implies i == n by {}
    assert forall|aspect: Aspect, i: int| #[trigger]
        last_tells(tasks, key, aspect, i) implies i == n by {}
    if after.progress is Some {
        assert(tells(tasks[n], key, Aspect::Progress));
    }
}

#[verifier::rlimit(40)]
proof fn result_folded(
    before: Map<Key, Task>,
    tasks: Seq<TaskRecord>,
    key: Key,
    middle: Task,
    after: Task,
)
    requires
        tasks.len() > 0,
        stored::path_is(tasks[tasks.len() - 1].key, key),
        tasks[tasks.len() - 1].id.len() == 4,
        is_result(before, tasks.drop_last(), key, middle),
        is_folded(middle, tasks[tasks.len() - 1], after),
    ensures
        is_result(before, tasks, key, after),
{
    let init = tasks.drop_last();
    let n = tasks.len() - 1;
    let last = tasks[n];
    tells_step(tasks, key, Aspect::Name);
    tells_step(tasks, key, Aspect::Id);
    tells_step(tasks, key, Aspect::Progress);
    tells_step(tasks, key, Aspect::Unit);
    tells_step(tasks, key, Aspect::Completion);
    assert forall|i: int| #![trigger tasks[i]] 0 <= i < n implies init[i] == tasks[i] by {}
    some_first(init, key, Aspect::Name);
    some_first(init, key, Aspect::Id);
    some_first(init, key, Aspect::Unit);
    if let Some(value) = after.progress {
        if middle.progress is Some {
            attained(before, tasks, key, middle.progress->0);
        }
        if last.progress is Some {
            assert(tells(tasks[n], key, Aspect::Progress));
        }
        assert forall|i: int|
            0 <= i < tasks.len() && tells(#[trigger] tasks[i], key, Aspect::Progress) implies
            value.step >= tasks[i].progress->0.step && (tasks[i].progress->0.done_at is Some
            ==> value.done_at is Some && value.done_at->0 >= tasks[i].progress->0.done_at->0) by {
            if i < n {
                assert(tells(init[i], key, Aspect::Progress));
                assert(some_tells(init, key, Aspect::Progress));
            }
        }
    }
}

proof fn some_first(tasks: Seq<TaskRecord>, key: Key, aspect: Aspect)
    ensures
        some_tells(tasks, key, aspect) ==> exists|i: int| #[trigger]
            first_tells(tasks, key, aspect, i),
    decreases tasks.len(),
{
    if some_tells(tasks, key, aspect) {
        let init = tasks.drop_last();
        some_first(init, key, aspect);
        tells_step(tasks, key, aspect);
        if some_tells(init, key, aspect) {
            let i = choose|i: int| #[trigger] first_tells(init, key, aspect, i);
            assert forall|j: int| 0 <= j < i implies !tells(#[trigger] tasks[j], key, aspect) by {
                assert(!tells(init[j], key, aspect));
            }
            assert(tasks[i] == init[i]);
            assert(first_tells(tasks, key, aspect, i));
        } else {
            assert forall|j: int| 0 <= j < init.len() implies !tells(
                #[trigger] tasks[j],
                key,
                aspect,
            ) by {
                assert(!tells(init[j], key, aspect));
            }
            assert(first_tells(tasks, key, aspect, tasks.len() - 1));
        }
    }
}

/// After a merge there are tasks exactly where the tree or the snapshot has some. Each has the name,
/// the id and the unit that the tree has, or else the first ones that the snapshot tells; it is
/// complete if the tree or the snapshot says so, and otherwise in the state that the snapshot tells
/// last; and its step and bound are the largest ones told.
pub proof fn merge_has_results(state: TreeState, record: Record, key: Key)
    requires
        forall|i: int| 0 <= i < record.tasks.len() ==> (#[trigger] record.tasks[i]).id.len() == 4,
    ensures
        ({
            let after = transfer::merged(state, record).tasks;
            &&& after.contains_key(key) <==> state.tasks.contains_key(key) || exists|i: int|
                0 <= i < record.tasks.len() && stored::path_is(
                    (#[trigger] record.tasks[i]).key,
                    key,
                )
            &&& after.contains_key(key) ==> is_result(state.tasks, record.tasks, key, after[key])
        }),
{
    folding_has_results(state.tasks, record.tasks, key);
}

/// A merge leaves tasks alone that the snapshot has none for, in every field.
pub proof fn merge_leaves_other_tasks(state: TreeState, record: Record, key: Key)
    requires
        state.tasks.contains_key(key),
        forall|i: int|
            0 <= i < record.tasks.len() ==> !stored::path_is((#[trigger] record.tasks[i]).key, key),
    ensures
        transfer::merged(state, record).tasks.contains_key(key),
        transfer::merged(state, record).tasks[key] == state.tasks[key],
{
    assert forall|i: int| 0 <= i < record.tasks.len() implies (
    #[trigger] record.tasks[i]).position() != Some(key) by {
        stored::position_is_read(record.tasks[i].key, key);
    }
    laws::merge_touches_snapshot_tasks_only(state, record, key);
}

/// A merge leaves the identity, the capacity and the generation of a tree as they are.
pub proof fn merge_leaves_the_rest(state: TreeState, record: Record)
    ensures
        transfer::merged(state, record).tree_id == state.tree_id,
        transfer::merged(state, record).message_capacity == state.message_capacity,
        transfer::merged(state, record).generation == state.generation,
        transfer::merged(state, record).interrupted == state.interrupted,
{
}

/// A merge that is refused when it meets a task at the root has done to the tasks what a merge of
/// those before it does, and has left messages and child numbers alone.
pub proof fn refused_midway(state: TreeState, record: Record, n: int)
    requires
        0 <= n < record.tasks.len(),
        stored::path_is(record.tasks[n].key, Key::Root),
        forall|i: int|
            0 <= i < n ==> !stored::path_is((#[trigger] record.tasks[i]).key, Key::Root),
    ensures
        ({
            let after = transfer::partly_merged(state, record);
            let others = Record { tasks: record.tasks.take(n), ..record };
            &&& after.tasks == transfer::merged(state, others).tasks
            &&& after.messages == state.messages
            &&& after.next_child == state.next_child
            &&& after.root_next_child == state.root_next_child
            &&& after.message_capacity == state.message_capacity
            &&& after.generation == state.generation
            &&& after.tree_id == state.tree_id
            &&& after.interrupted <==> state.interrupted || n > 0
        }),
{
    refusals::root_task_is_met(record.tasks);
    let before = transfer::before_root(record.tasks);
    if before.len() < n {
        assert(stored::path_is(record.tasks[before.len() as int].key, Key::Root));
    }
    if before.len() > n {
        assert(!stored::path_is(record.tasks[n].key, Key::Root));
    }
}

} // verus!
