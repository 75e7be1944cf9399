//! What merging a snapshot does to messages, what it reports, and what merging a tree's own snapshot
//! comes to.

use vstd::prelude::*;

use crate::messages;
use crate::messages::merge;
use crate::messages::selection;
use crate::messages::Message;
use crate::progress::Key;
use crate::tree::snapshot;
use crate::tree::snapshot::captured;
use crate::tree::snapshot::model::{MessageSnapshot, Record};
use crate::tree::snapshot::round_trip;
use crate::tree::snapshot::stored;
use crate::tree::snapshot::transfer;
use crate::tree::TreeState;

verus! {

// Messages.

/// Whether a message has the content of what is stored: the time, the severity, the name of the task
/// and the text.
pub open spec fn has_content(message: Message, stored: MessageSnapshot) -> bool {
    &&& message.time.spec_nanos() == stored::nanos_from_epoch(stored.secs, stored.nanos)
    &&& stored::severity_is(message.level, stored.level)
    &&& message.origin@ == stored.origin@
    &&& message.message@ == stored.message@
}

/// Whether one of the messages has the content of what is stored.
pub open spec fn some_has_content(messages: Seq<Message>, stored: MessageSnapshot) -> bool {
    exists|k: int| 0 <= k < messages.len() && has_content(#[trigger] messages[k], stored)
}

/// Whether a message is read from one of those that are stored.
pub open spec fn is_read_from_some(message: Message, stored: Seq<MessageSnapshot>) -> bool {
    exists|i: int| 0 <= i < stored.len() && stored::message_is_read(message, #[trigger] stored[i])
}

proof fn read_messages_have_sources(incoming: Seq<MessageSnapshot>, message: Message)
    requires
        transfer::readable(incoming).contains(message),
    ensures
        is_read_from_some(message, incoming),
{
    let all = transfer::readable(incoming);
    captured::messages_are_read(incoming);
    let k = choose|k: int| 0 <= k < all.len() && all[k] == message;
    assert(captured::has_source(incoming, k));
    let i = choose|i: int| #[trigger] captured::is_read_from(incoming, k, i);
    assert(stored::message_is_read(message, incoming[i]));
}

/// With room for all of them, merging a snapshot leaves all messages where they are. Every message of
/// the snapshot that has a severity is then retained, with the time, the severity, the name and the
/// text that were stored. What comes behind the earlier messages is read from the snapshot, has a
/// content that was not retained before, and has it once.
pub proof fn merge_adds_the_messages(state: TreeState, record: Record)
    requires
        state.messages.len() + record.messages.len() <= state.message_capacity,
    ensures
        ({
            let after = transfer::merged(state, record).messages;
            &&& after.len() >= state.messages.len()
            &&& forall|i: int|
                0 <= i < state.messages.len() ==> after[i] == #[trigger] state.messages[i]
            &&& forall|i: int|
                0 <= i < record.messages.len() && record.messages[i].level <= 2
                    ==> some_has_content(after, #[trigger] record.messages[i])
            &&& forall|k: int|
                state.messages.len() <= k < after.len() ==> is_read_from_some(
                    #[trigger] after[k],
                    record.messages,
                )
            &&& forall|k: int, l: int|
                0 <= k < l < after.len() && state.messages.len() <= l ==> !(
                #[trigger] after[k]).same(#[trigger] after[l])
        }),
{
    let incoming = transfer::readable(record.messages);
    let after = transfer::merged(state, record).messages;
    captured::messages_are_read(record.messages);
    read_before_bound(record.messages, record.messages.len() as int);
    selection::roomy_merging_adds(state.messages, state.message_capacity, incoming);
    assert forall|i: int|
        0 <= i < record.messages.len() && record.messages[i].level <= 2 implies some_has_content(
        after,
        #[trigger] record.messages[i],
    ) by {
        let at = captured::read_before(record.messages, i) as int;
        assert(stored::message_is_read(incoming[at], record.messages[i]));
        assert(messages::retains(after, incoming[at]));
        let k = choose|k: int| 0 <= k < after.len() && (#[trigger] after[k]).same(incoming[at]);
        assert(has_content(after[k], record.messages[i]));
    }
    assert forall|k: int| state.messages.len() <= k < after.len() implies is_read_from_some(
        #[trigger] after[k],
        record.messages,
    ) by {
        read_messages_have_sources(record.messages, after[k]);
    }
    assert forall|k: int, l: int|
        0 <= k < l < after.len() && state.messages.len() <= l implies !(#[trigger] after[k]).same(
        #[trigger] after[l],
    ) by {
        if k < state.messages.len() {
            assert(after[k] == state.messages[k]);
            assert(!messages::retains(state.messages, after[l]));
        }
    }
}

proof fn read_before_bound(incoming: Seq<MessageSnapshot>, n: int)
    ensures
        n >= 0 ==> captured::read_before(incoming, n) <= n,
    decreases n,
{
    if n > 0 {
        read_before_bound(incoming, n - 1);
    }
}

/// Merging a snapshot keeps the messages that stay, in order, and puts those that are new behind
/// them, in the order of the snapshot, whether there is room for all of them or not.
pub proof fn merge_keeps_and_adds_messages(state: TreeState, record: Record)
    requires
        state.messages.len() <= state.message_capacity,
    ensures
        ({
            let before = state.messages;
            let capacity = state.message_capacity;
            let incoming = transfer::readable(record.messages);
            transfer::merged(state, record).messages == selection::selection(
                before,
                |i: int| selection::stays(before, capacity, incoming, i),
            ) + selection::selection(
                incoming,
                |i: int| selection::is_new(before, capacity, incoming, i),
            )
        }),
        transfer::merged(state, record).messages.len() <= state.message_capacity,
        forall|k: int|
            0 <= k < transfer::merged(state, record).messages.len() ==> state.messages.contains(
                #[trigger] transfer::merged(state, record).messages[k],
            ) || is_read_from_some(
                transfer::merged(state, record).messages[k],
                record.messages,
            ),
{
    let before = state.messages;
    let capacity = state.message_capacity;
    let incoming = transfer::readable(record.messages);
    let after = transfer::merged(state, record).messages;
    let kept = |i: int| selection::stays(before, capacity, incoming, i);
    let new = |i: int| selection::is_new(before, capacity, incoming, i);
    selection::merging_keeps_and_adds(before, capacity, incoming);
    merge::wanted_are_retained(before, capacity, incoming);
    selected_are_among(before, kept);
    selected_are_among(incoming, new);
    assert forall|k: int| 0 <= k < after.len() implies before.contains(#[trigger] after[k])
        || is_read_from_some(after[k], record.messages) by {
        let stayed = selection::selection(before, kept);
        if k < stayed.len() {
            assert(stayed[k] == after[k]);
        } else {
            let added = selection::selection(incoming, new);
            assert(added[k - stayed.len()] == after[k]);
            read_messages_have_sources(record.messages, after[k]);
        }
    }
}

proof fn selected_are_among(messages: Seq<Message>, picked: spec_fn(int) -> bool)
    ensures
        forall|k: int|
            0 <= k < selection::selection(messages, picked).len() ==> messages.contains(
                #[trigger] selection::selection(messages, picked)[k],
            ),
    decreases messages.len(),
{
    if messages.len() > 0 {
        let init = messages.drop_last();
        let before = selection::selection(init, picked);
        let all = selection::selection(messages, picked);
        selected_are_among(init, picked);
        assert forall|k: int| 0 <= k < all.len() implies messages.contains(#[trigger] all[k]) by {
            if k < before.len() {
                assert(before[k] == all[k]);
                let i = choose|i: int| 0 <= i < init.len() && init[i] == before[k];
                assert(messages[i] == all[k]);
            } else {
                assert(messages[messages.len() - 1] == all[k]);
            }
        }
    }
}

// Reports.

/// A merge reports how many tasks the tree has gained, and for each of the others of the snapshot
/// one that was updated. It reports how many messages are new, and for each of the others of the
/// snapshot that have a severity one that was skipped.
pub proof fn merges_are_reported(state: TreeState, record: Record)
    requires
        state.valid(),
        record.tasks.len() <= usize::MAX,
        record.messages.len() <= usize::MAX,
    ensures
        ({
            let report = transfer::merge_report(state, record);
            let after = transfer::merged(state, record);
            &&& report.tasks_inserted == after.tasks.dom().len() - state.tasks.dom().len()
            &&& report.tasks_inserted + report.tasks_updated == record.tasks.len()
            &&& report.messages_appended == selection::new_messages(
                state.messages,
                state.message_capacity,
                transfer::readable(record.messages),
            )
            &&& report.messages_appended + report.messages_skipped == captured::read_before(
                record.messages,
                record.messages.len() as int,
            )
            &&& state.messages.len() + record.messages.len() <= state.message_capacity
                ==> report.messages_appended == after.messages.len() - state.messages.len()
        }),
{
    let after = transfer::merged(state, record);
    let incoming = transfer::readable(record.messages);
    transfer::inserted_tasks_bound(state.tasks, record.tasks);
    transfer::inserted_tasks_meaning(state.tasks, record.tasks);
    let new = transfer::new_positions(state.tasks, record.tasks);
    assert forall|key: Key| after.tasks.dom().contains(key) <==> #[trigger] (state.tasks.dom()
        + new).contains(key) by {
        transfer::folded_positions(state.tasks, record.tasks, key);
    }
    assert(after.tasks.dom() =~= state.tasks.dom() + new);
    assert(state.tasks.dom().disjoint(new));
    vstd::set_lib::lemma_set_disjoint_lens(state.tasks.dom(), new);
    captured::messages_are_read(record.messages);
    read_before_bound(record.messages, record.messages.len() as int);
    selection::merging_keeps_and_adds(state.messages, state.message_capacity, incoming);
    merge::wanted_meaning(state.message_capacity, incoming);
    merge::missing_meaning(state.messages, merge::wanted(state.message_capacity, incoming));
}

// A tree's own snapshot.

/// A tree that its own snapshot is merged into keeps its messages as they are, if they were left at
/// the epoch or later: none is appended and all are skipped.
pub proof fn own_messages_change_nothing(state: TreeState, record: Record)
    requires
        state.valid(),
        transfer::is_snapshot_of(record, state),
        forall|i: int|
            0 <= i < state.messages.len() ==> (#[trigger] state.messages[i]).time.valid()
                && state.messages[i].time.spec_nanos() >= 0,
    ensures
        transfer::merged(state, record).messages == state.messages,
        transfer::merge_report(state, record).messages_appended == 0,
        transfer::merge_report(state, record).messages_skipped == state.messages.len(),
{
    let incoming = transfer::readable(record.messages);
    own_messages_are_read(state.messages, record.messages);
    merge::wanted_meaning(state.message_capacity, incoming);
    merge::retained_change_nothing(state.messages, state.message_capacity, incoming);
}

proof fn own_messages_are_read(messages: Seq<Message>, stored: Seq<MessageSnapshot>)
    requires
        stored.len() == messages.len(),
        forall|i: int|
            0 <= i < messages.len() ==> (#[trigger] messages[i]).time.valid()
                && messages[i].time.spec_nanos() >= 0,
        forall|i: int|
            0 <= i < messages.len() ==> #[trigger] stored[i] == snapshot::message_snapshot_of(
                messages[i],
            ),
    ensures
        transfer::readable(stored) == messages,
    decreases messages.len(),
{
    if messages.len() > 0 {
        let init = messages.drop_last();
        let last = messages[messages.len() - 1];
        assert forall|i: int| 0 <= i < init.len() implies (#[trigger] init[i]).time.valid()
            && init[i].time.spec_nanos() >= 0 by {
            assert(init[i] == messages[i]);
        }
        assert forall|i: int| 0 <= i < init.len() implies #[trigger] stored.drop_last()[i]
            == snapshot::message_snapshot_of(init[i]) by {
            assert(stored[i] == snapshot::message_snapshot_of(messages[i]));
        }
        own_messages_are_read(init, stored.drop_last());
        assert(stored[messages.len() - 1] == snapshot::message_snapshot_of(last));
        assert(last.time.valid());
        round_trip::message_round_trips(last);
        assert(init.push(last) =~= messages);
    }
}

/// A tree that its own snapshot is merged into keeps its tasks as they are, if their states name no
/// times before the epoch: none is inserted, and none is lost or changed in any field.
pub proof fn own_tasks_change_nothing(state: TreeState, record: Record)
    requires
        state.valid(),
        transfer::is_snapshot_of(record, state),
        forall|key: Key| #[trigger]
            state.tasks.contains_key(key) && state.tasks[key].progress is Some
                ==> round_trip::portable_state(state.tasks[key].progress->0.state),
    ensures
        transfer::merged(state, record).tasks == state.tasks,
        transfer::merge_report(state, record).tasks_inserted == 0,
{
    own_tasks_fold(state, record, record.tasks.len() as int);
    assert(record.tasks.take(record.tasks.len() as int) =~= record.tasks);
}

proof fn own_tasks_fold(state: TreeState, record: Record, n: int)
    requires
        transfer::is_snapshot_of(record, state),
        forall|key: Key| #[trigger]
            state.tasks.contains_key(key) && state.tasks[key].progress is Some
                ==> round_trip::portable_state(state.tasks[key].progress->0.state),
        0 <= n <= record.tasks.len(),
    ensures
        transfer::folded_tasks(state.tasks, record.tasks.take(n)) == state.tasks,
        transfer::inserted_tasks(state.tasks, record.tasks.take(n)) == 0,
    decreases n,
{
    if n > 0 {
        let part = record.tasks.take(n);
        let last = record.tasks[n - 1];
        own_tasks_fold(state, record, n - 1);
        assert(part.drop_last() =~= record.tasks.take(n - 1));
        assert(part.last() == last);
        let key = last.position()->0;
        let task = state.tasks[key];
        assert(state.tasks.contains_key(key));
        assert(snapshot::folded_task(task, last) == task) by {
            assert(snapshot::id_of(task.id@) =~= task.id);
            if let Some(value) = task.progress {
                round_trip::state_round_trips(value.state);
            }
        }
        assert(state.tasks.insert(key, task) =~= state.tasks);
    }
}

} // verus!
