//! What survives being stored in a snapshot and read back.

use vstd::prelude::*;

use crate::messages::Message;
use crate::progress::key;
use crate::progress::{Key, State, Task};
use crate::time;
use crate::time::Timestamp;
use crate::tree::snapshot;
use crate::tree::snapshot::model;
use crate::tree::snapshot::model::{Record, StateSnapshot, TaskRecord};
use crate::tree::snapshot::transfer;
use crate::tree::TreeState;
use crate::unit::Unit;

verus! {

// States, units and messages.

/// Whether a point in time, where known, is kept by a snapshot.
pub open spec fn portable_eta(eta: Option<Timestamp>) -> bool {
    eta matches Some(time) ==> time.countable()
}

/// Whether a state is kept by a snapshot: it names no time before the epoch.
pub open spec fn portable_state(state: State) -> bool {
    match state {
        State::Blocked(_, eta) => portable_eta(eta),
        State::Halted(_, eta) => portable_eta(eta),
        _ => true,
    }
}

/// Whether a unit, where known, is kept by a snapshot: it is not rendered by code.
pub open spec fn portable_unit(unit: Option<Unit>) -> bool {
    unit matches Some(unit) ==> unit.kind is Label
}

/// Whether a task is kept by a snapshot.
pub open spec fn portable(task: Task) -> bool {
    task.progress matches Some(value) ==> portable_state(value.state) && portable_unit(value.unit)
}

proof fn eta_round_trips(eta: Option<Timestamp>)
    ensures
        ({
            let (secs, nanos) = snapshot::eta_parts(eta);
            &&& portable_eta(eta) ==> snapshot::eta_of(secs, nanos) == eta
            &&& snapshot::eta_parts(snapshot::eta_of(secs, nanos)) == (secs, nanos)
        }),
{
    if let Some(at) = eta {
        if at.countable() {
            time::timestamp_round_trips(at);
        }
        if let Some((secs, nanos)) = at.spec_since_epoch() {
            time::split_timestamp_round_trips(secs, nanos);
        }
    }
}

/// A state that names no time before the epoch is read back as it was stored.
pub proof fn state_round_trips(state: State)
    requires
        portable_state(state),
    ensures
        snapshot::state_of(snapshot::state_snapshot_of(state)) == state,
{
    match state {
        State::Blocked(_, eta) => eta_round_trips(eta),
        State::Halted(_, eta) => eta_round_trips(eta),
        _ => {},
    }
}

/// Storing what was read back gives the same snapshot again, whatever the state.
pub proof fn state_snapshot_is_stable(state: State)
    ensures
        ({
            let stored = snapshot::state_snapshot_of(state);
            snapshot::state_snapshot_of(snapshot::state_of(stored)) == stored
        }),
{
    match state {
        State::Blocked(_, eta) => eta_round_trips(eta),
        State::Halted(_, eta) => eta_round_trips(eta),
        _ => {},
    }
}

/// Whether a snapshot of a state is one that storing a state produces.
pub open spec fn canonical_state(state: StateSnapshot) -> bool {
    match state {
        StateSnapshot::Blocked { eta_secs, eta_nanos, .. } => if eta_secs is Some {
            eta_nanos < time::NANOS_PER_SEC
        } else {
            eta_nanos == 0
        },
        StateSnapshot::Halted { eta_secs, eta_nanos, .. } => if eta_secs is Some {
            eta_nanos < time::NANOS_PER_SEC
        } else {
            eta_nanos == 0
        },
        _ => true,
    }
}

/// A canonical snapshot of a state is stored again as it was read.
pub proof fn state_snapshot_round_trips(state: StateSnapshot)
    requires
        canonical_state(state),
    ensures
        snapshot::state_snapshot_of(snapshot::state_of(state)) == state,
{
    match state {
        StateSnapshot::Blocked { eta_secs: Some(secs), eta_nanos, .. } => {
            time::split_timestamp_round_trips(secs, eta_nanos);
        },
        StateSnapshot::Halted { eta_secs: Some(secs), eta_nanos, .. } => {
            time::split_timestamp_round_trips(secs, eta_nanos);
        },
        _ => {},
    }
}

/// A labelled unit is read back as it was stored.
pub proof fn unit_round_trips(unit: Option<Unit>)
    requires
        portable_unit(unit),
    ensures
        snapshot::unit_of(snapshot::unit_snapshot_of(unit)) == unit,
{
}

/// A unit that is rendered by code is left out of snapshots.
pub proof fn dynamic_unit_is_omitted(unit: Unit)
    requires
        unit.kind is Dynamic,
    ensures
        snapshot::unit_snapshot_of(Some(unit)) is None,
{
}

/// Storing what was read back gives the same snapshot again, whatever the unit.
pub proof fn unit_snapshot_is_stable(unit: Option<Unit>)
    ensures
        ({
            let stored = snapshot::unit_snapshot_of(unit);
            snapshot::unit_snapshot_of(snapshot::unit_of(stored)) == stored
        }),
{
}

/// A message of the epoch or later is read back as it was stored.
pub proof fn message_round_trips(message: Message)
    requires
        message.time.countable(),
    ensures
        snapshot::message_of(snapshot::message_snapshot_of(message)) == Some(message),
{
    time::timestamp_round_trips(message.time);
}

/// Storing what was read back gives the same snapshot again, whatever the message.
pub proof fn message_snapshot_is_stable(message: Message)
    ensures
        ({
            let stored = snapshot::message_snapshot_of(message);
            &&& snapshot::message_of(stored) matches Some(read)
            &&& snapshot::message_snapshot_of(read) == stored
        }),
{
    let (secs, nanos) = snapshot::time_parts(message.time);
    time::split_timestamp_round_trips(secs, nanos);
}

proof fn task_round_trips(key: Key, task: Task)
    ensures
        portable(task) ==> snapshot::task_of(snapshot::task_record_of(key, task)) == task,
        snapshot::task_record_of(key, snapshot::task_of(snapshot::task_record_of(key, task)))
            == snapshot::task_record_of(key, task),
        snapshot::task_record_of(key, task).position() == Some(key),
        snapshot::task_record_of(key, task).id.len() == model::TASK_ID_LEN,
{
    model::position_round_trips(key);
    assert(snapshot::id_of(task.id@) =~= task.id);
    if let Some(value) = task.progress {
        if portable(task) {
            state_round_trips(value.state);
            unit_round_trips(value.unit);
        }
        state_snapshot_is_stable(value.state);
        unit_snapshot_is_stable(value.unit);
    }
}

// Whole trees.

/// A snapshot of a tree is accepted by that tree and by every other one of the same identity.
pub proof fn own_snapshot_is_accepted(state: TreeState, record: Record)
    requires
        state.valid(),
        transfer::is_snapshot_of(record, state),
    ensures
        record.refusal() is None,
        transfer::restore_refusal(state.tree_id, record) is None,
        transfer::merge_refusal(state.tree_id, record) is None,
{
    assert forall|i: int|
        #![trigger record.tasks[i]]
        0 <= i < record.tasks.len() implies record.tasks[i].id.len() == model::TASK_ID_LEN
            && record.tasks[i].position() is Some by {
        let key = record.tasks[i].position()->0;
        task_round_trips(key, state.tasks[key]);
    }
    model::validity_meaning(record);
    no_root_in(record.tasks);
}

proof fn no_root_in(tasks: Seq<TaskRecord>)
    requires
        forall|i: int|
            #![trigger tasks[i]]
            0 <= i < tasks.len() ==> tasks[i].position() != Some(Key::Root),
    ensures
        transfer::before_root(tasks) == tasks,
    decreases tasks.len(),
{
    if tasks.len() > 0 {
        let init = tasks.drop_last();
        assert forall|i: int| #![trigger init[i]] 0 <= i < init.len() implies init[i].position()
            != Some(Key::Root) by {
            assert(init[i] == tasks[i]);
        }
        no_root_in(init);
        assert(tasks.last() == tasks[tasks.len() - 1]);
    }
}

/// Whether no two of `tasks` are at the same position.
pub open spec fn distinct_positions(tasks: Seq<TaskRecord>) -> bool {
    forall|i: int, j: int|
        #![trigger tasks[i], tasks[j]]
        0 <= i < j < tasks.len() ==> tasks[i].position() != tasks[j].position()
}

proof fn placed_tasks_meaning(tasks: Seq<TaskRecord>)
    requires
        distinct_positions(tasks),
        forall|i: int| #![trigger tasks[i]] 0 <= i < tasks.len() ==> tasks[i].position() is Some,
    ensures
        forall|i: int|
            #![trigger tasks[i]]
            0 <= i < tasks.len() ==> transfer::placed_tasks(tasks).contains_key(
                tasks[i].position()->0,
            ) && transfer::placed_tasks(tasks)[tasks[i].position()->0] == snapshot::task_of(
                tasks[i],
            ),
        forall|key: Key| #[trigger]
            transfer::placed_tasks(tasks).contains_key(key) ==> exists|i: int|
                0 <= i < tasks.len() && (#[trigger] tasks[i]).position() == Some(key),
    decreases tasks.len(),
{
    if tasks.len() > 0 {
        let init = tasks.drop_last();
        assert forall|i: int| #![trigger init[i]] 0 <= i < init.len() implies init[i]
            == tasks[i] by {}
        assert(distinct_positions(init)) by {
            assert forall|i: int, j: int| #![trigger init[i], init[j]] 0 <= i < j
                < init.len() implies init[i].position() != init[j].position() by {
                assert(init[i] == tasks[i] && init[j] == tasks[j]);
            }
        }
        placed_tasks_meaning(init);
        let last = tasks.last();
        assert(last == tasks[tasks.len() - 1]);
        assert forall|i: int| #![trigger tasks[i]] 0 <= i < tasks.len() implies transfer::placed_tasks(
            tasks,
        ).contains_key(tasks[i].position()->0) && transfer::placed_tasks(tasks)[tasks[i].position()->0]
            == snapshot::task_of(tasks[i]) by {
            if i < init.len() {
                assert(init[i] == tasks[i]);
                assert(tasks[i].position() != tasks[tasks.len() - 1].position());
            }
        }
        assert forall|key: Key| #[trigger]
            transfer::placed_tasks(tasks).contains_key(key) implies exists|i: int|
            0 <= i < tasks.len() && (#[trigger] tasks[i]).position() == Some(key) by {
            if last.position() == Some(key) {
                assert(tasks[tasks.len() - 1].position() == Some(key));
            } else {
                let i = choose|i: int|
                    0 <= i < init.len() && (#[trigger] init[i]).position() == Some(key);
                assert(tasks[i].position() == Some(key));
            }
        }
    }
}

proof fn listed_positions_are_distinct(tasks: Map<Key, Task>, records: Seq<TaskRecord>)
    requires
        transfer::lists_tasks(tasks, records),
    ensures
        distinct_positions(records),
        forall|i: int|
            #![trigger records[i]]
            0 <= i < records.len() ==> records[i].position() is Some,
{
    assert forall|i: int, j: int| #![trigger records[i], records[j]] 0 <= i < j
        < records.len() implies records[i].position() != records[j].position() by {
        key::order_is_code_order(records[i].position()->0, records[j].position()->0);
    }
}

proof fn replayed_messages_meaning(capacity: usize, messages: Seq<Message>, n: int)
    requires
        0 <= n <= messages.len() <= capacity,
    ensures
        ({
            let stored = messages.map_values(
                |message: Message| snapshot::message_snapshot_of(message),
            ).take(n);
            let replayed = transfer::replayed_messages(capacity, stored);
            &&& replayed.len() == n
            &&& forall|i: int|
                #![trigger replayed[i]]
                0 <= i < n ==> snapshot::message_of(snapshot::message_snapshot_of(messages[i]))
                    == Some(replayed[i])
        }),
    decreases n,
{
    let all = messages.map_values(|message: Message| snapshot::message_snapshot_of(message));
    if n > 0 {
        replayed_messages_meaning(capacity, messages, n - 1);
        assert(all.take(n).drop_last() =~= all.take(n - 1));
        assert(all.take(n).last() == snapshot::message_snapshot_of(messages[n - 1]));
        message_snapshot_is_stable(messages[n - 1]);
    }
}

/// A tree that is restored from a snapshot has the identity, the message capacity, the tasks (but
/// for one at the root) and the messages of the tree that the snapshot was taken from. Tasks are
/// the same in every field unless they name a time before the epoch or a unit that is rendered by
/// code, and so are messages of the epoch or later.
pub proof fn restored_tree_is_the_same(state: TreeState, record: Record)
    requires
        state.valid(),
        transfer::is_snapshot_of(record, state),
    ensures
        ({
            let after = transfer::restored(record);
            &&& after.tree_id == state.tree_id
            &&& after.message_capacity == state.message_capacity
            &&& after.generation == 0
            &&& forall|key: Key| #[trigger]
                after.tasks.contains_key(key) <==> state.tasks.contains_key(key) && key != Key::Root
            &&& forall|key: Key| #[trigger]
                after.tasks.contains_key(key) && portable(state.tasks[key]) ==> after.tasks[key]
                    == state.tasks[key]
            &&& after.messages.len() == state.messages.len()
            &&& forall|i: int|
                #![trigger after.messages[i]]
                0 <= i < after.messages.len() && state.messages[i].time.countable()
                    ==> after.messages[i] == state.messages[i]
        }),
{
    let after = transfer::restored(record);
    listed_positions_are_distinct(state.tasks, record.tasks);
    placed_tasks_meaning(record.tasks);
    assert forall|key: Key| #[trigger]
        after.tasks.contains_key(key) <==> state.tasks.contains_key(key) && key != Key::Root by {
        if state.tasks.contains_key(key) && key != Key::Root {
            let i = choose|i: int|
                0 <= i < record.tasks.len() && (#[trigger] record.tasks[i]).position() == Some(key);
            assert(after.tasks.contains_key(record.tasks[i].position()->0));
        }
        if after.tasks.contains_key(key) {
            let i = choose|i: int|
                0 <= i < record.tasks.len() && (#[trigger] record.tasks[i]).position() == Some(key);
        }
    }
    assert forall|key: Key| #[trigger]
        after.tasks.contains_key(key) && portable(state.tasks[key]) implies after.tasks[key]
        == state.tasks[key] by {
        let i = choose|i: int|
            0 <= i < record.tasks.len() && (#[trigger] record.tasks[i]).position() == Some(key);
        task_round_trips(key, state.tasks[key]);
    }
    let n = state.messages.len() as int;
    replayed_messages_meaning(state.message_capacity, state.messages, n);
    assert(record.messages.take(n) =~= record.messages);
    assert forall|i: int|
        #![trigger after.messages[i]]
        0 <= i < after.messages.len() && state.messages[i].time.countable() implies after.messages[i]
        == state.messages[i] by {
        message_round_trips(state.messages[i]);
    }
}

/// A snapshot of a tree is also a snapshot of the tree that is restored from it.
pub proof fn restored_tree_has_the_same_snapshot(state: TreeState, record: Record)
    requires
        state.valid(),
        transfer::is_snapshot_of(record, state),
    ensures
        transfer::is_snapshot_of(record, transfer::restored(record)),
{
    let after = transfer::restored(record);
    restored_tree_is_the_same(state, record);
    listed_positions_are_distinct(state.tasks, record.tasks);
    placed_tasks_meaning(record.tasks);
    assert forall|i: int| #![trigger record.tasks[i]] 0 <= i < record.tasks.len() implies {
        &&& record.tasks[i].position() matches Some(key)
        &&& key != Key::Root
        &&& after.tasks.contains_key(key)
        &&& record.tasks[i] == snapshot::task_record_of(key, after.tasks[key])
    } by {
        let key = record.tasks[i].position()->0;
        task_round_trips(key, state.tasks[key]);
    }
    assert forall|key: Key| #[trigger]
        after.tasks.contains_key(key) && key != Key::Root implies exists|i: int|
        0 <= i < record.tasks.len() && (#[trigger] record.tasks[i]).position() == Some(key) by {
        assert(state.tasks.contains_key(key));
    }
    let n = state.messages.len() as int;
    replayed_messages_meaning(state.message_capacity, state.messages, n);
    assert(record.messages.take(n) =~= record.messages);
    let encode = |message: Message| snapshot::message_snapshot_of(message);
    assert forall|i: int| 0 <= i < n implies record.messages[i] == #[trigger] after.messages.map_values(
        encode,
    )[i] by {
        message_snapshot_is_stable(state.messages[i]);
        assert(after.messages[i] == after.messages[i]);
    }
    assert(record.messages =~= after.messages.map_values(encode));
}

/// A tree has one snapshot: what it says is determined by the tree.
pub proof fn snapshot_is_determined(state: TreeState, first: Record, second: Record)
    requires
        transfer::is_snapshot_of(first, state),
        transfer::is_snapshot_of(second, state),
    ensures
        first == second,
{
    listing_is_determined(state.tasks, first.tasks, second.tasks);
    assert(first.tasks =~= second.tasks);
}

proof fn listing_is_determined(
    tasks: Map<Key, Task>,
    first: Seq<TaskRecord>,
    second: Seq<TaskRecord>,
)
    requires
        transfer::lists_tasks(tasks, first),
        transfer::lists_tasks(tasks, second),
    ensures
        first.len() == second.len(),
        forall|i: int| 0 <= i < first.len() ==> first[i] == second[i],
{
    listing_prefix(tasks, first, second, first.len() as int);
    listing_prefix(tasks, second, first, second.len() as int);
    assert forall|i: int| 0 <= i < first.len() implies first[i] == second[i] by {
        assert(first[i].position() == second[i].position());
    }
}

/// The first `n` positions of one listing are those of any other.
proof fn listing_prefix(
    tasks: Map<Key, Task>,
    first: Seq<TaskRecord>,
    second: Seq<TaskRecord>,
    n: int,
)
    requires
        transfer::lists_tasks(tasks, first),
        transfer::lists_tasks(tasks, second),
        0 <= n <= first.len(),
    ensures
        n <= second.len(),
        forall|i: int|
            #![trigger first[i]]
            #![trigger second[i]]
            0 <= i < n ==> first[i].position() == second[i].position(),
    decreases n,
{
    if n > 0 {
        let last = n - 1;
        listing_prefix(tasks, first, second, last);
        listed_positions_are_distinct(tasks, first);
        listed_positions_are_distinct(tasks, second);
        let key = first[last].position()->0;
        let at = choose|i: int|
            0 <= i < second.len() && (#[trigger] second[i]).position() == Some(key);
        if at < last {
            assert(first[at].position() == second[at].position());
            assert(false);
        }
        if at > last {
            let between = second[last].position()->0;
            assert(second[last].position()->0.before(second[at].position()->0));
            key::order_is_code_order(between, key);
            let back = choose|i: int|
                0 <= i < first.len() && (#[trigger] first[i]).position() == Some(between);
            if back < last {
                assert(first[back].position() == second[back].position());
                assert(second[back].position() != second[last].position());
                assert(false);
            } else if back > last {
                assert(first[last].position()->0.before(first[back].position()->0));
                key::order_is_code_order(key, between);
                assert(false);
            }
        }
    }
}

} // verus!
