//! What calls of a root that take, continue from or merge a snapshot do to the tree that they find.

use std::sync::Arc;

use vstd::prelude::*;

use crate::messages::selection;
use crate::progress::key;
use crate::progress::Key;
use crate::tree::lock;
use crate::tree::operations;
use crate::tree::snapshot::captured;
use crate::tree::snapshot::error::{MergeError, MergeReport, RestoreError};
use crate::tree::snapshot::folded;
use crate::tree::snapshot::model;
use crate::tree::snapshot::model::{Record, Snapshot};
use crate::tree::snapshot::refusals;
use crate::tree::snapshot::replayed;
use crate::tree::snapshot::stored;
use crate::tree::snapshot::transfer;
use crate::tree::{Root, TreeState};

verus! {

/// Whether a snapshot has a task of the tree as it is.
pub open spec fn has_task(record: Record, state: TreeState, key: Key) -> bool {
    exists|i: int|
        0 <= i < record.tasks.len() && stored::task_is_stored(
            key,
            state.tasks[key],
            #[trigger] record.tasks[i],
        )
}

/// A snapshot is taken of the tree that is found, which stays as it is. It is of version 1, and has
/// the identity of the root, the message capacity of the tree, every task but one at the root as it
/// is, and every message as it is.
pub proof fn snapshot_is_taken(root: Root, snapshot: Snapshot)
    requires
        call_ensures(Root::snapshot, (&root,), snapshot),
    ensures
        snapshot.version == 1,
        snapshot.tree_id@ == root.identity(),
        exists|found: TreeState| #[trigger]
            lock::steps(root.lock(), found, found) && ({
                &&& snapshot.message_buffer_capacity == found.message_capacity
                &&& forall|key: Key| #[trigger]
                    found.tasks.contains_key(key) && key@.len() > 0 ==> has_task(
                        snapshot@,
                        found,
                        key,
                    )
                &&& snapshot.messages@.len() == found.messages.len()
                &&& forall|i: int|
                    0 <= i < found.messages.len() && found.messages[i].time.valid()
                        ==> stored::message_is_stored(
                        found.messages[i],
                        #[trigger] snapshot.messages@[i],
                    )
            }),
{
    let found = choose|found: TreeState| #[trigger]
        lock::steps(root.lock(), found, found) && transfer::is_snapshot_of(
            snapshot@,
            TreeState { tree_id: root.identity(), ..found },
        );
    let known = TreeState { tree_id: root.identity(), ..found };
    model::records_have_the_parts(snapshot);
    captured::snapshot_has_the_rest(known, snapshot@);
    assert forall|key: Key| #[trigger]
        found.tasks.contains_key(key) && key@.len() > 0 implies has_task(
        snapshot@,
        found,
        key,
    ) by {
        captured::snapshot_has_every_task(known, snapshot@, key);
    }
    assert(lock::steps(root.lock(), found, found));
}

/// Whether a snapshot has a task at `key`.
pub open spec fn has_path(record: Record, key: Key) -> bool {
    exists|i: int|
        0 <= i < record.tasks.len() && stored::path_is((#[trigger] record.tasks[i]).key, key)
}

/// Whether `after` is what the tree becomes when a snapshot is merged into it: there are tasks where
/// the tree or the snapshot has some, and nowhere else, each with what is told of it; the messages
/// that stay are there, with the new ones behind them; the identity, the message capacity and the
/// generation are the same; and child numbers do not go back, and go past those of the snapshot.
pub open spec fn is_merge_of(before: TreeState, after: TreeState, record: Record) -> bool {
    &&& forall|key: Key| #[trigger]
        after.tasks.contains_key(key) <==> before.tasks.contains_key(key) || has_path(record, key)
    &&& forall|key: Key| #[trigger]
        after.tasks.contains_key(key) ==> folded::is_result(
            before.tasks,
            record.tasks,
            key,
            after.tasks[key],
        )
    &&& after.messages == selection::selection(
        before.messages,
        |i: int|
            selection::stays(
                before.messages,
                before.message_capacity,
                transfer::readable(record.messages),
                i,
            ),
    ) + selection::selection(
        transfer::readable(record.messages),
        |i: int|
            selection::is_new(
                before.messages,
                before.message_capacity,
                transfer::readable(record.messages),
                i,
            ),
    )
    &&& after.message_capacity == before.message_capacity
    &&& after.generation == before.generation
    &&& after.tree_id == before.tree_id
    &&& after.interrupted == before.interrupted
    &&& forall|parent: Key| #[trigger]
        operations::next_below(after, parent) >= operations::next_below(before, parent)
    &&& forall|i: int, parent: Key, number: key::Id|
        0 <= i < record.tasks.len() && #[trigger] captured::has_number(
            record.tasks[i],
            parent,
            number,
        ) ==> number < operations::next_below(after, parent) || operations::next_below(
            after,
            parent,
        ) == 0xffff
}

proof fn merged_is_merge(before: TreeState, record: Record)
    requires
        before.valid(),
        record.refusal() is None,
    ensures
        is_merge_of(before, transfer::merged(before, record), record),
{
    let after = transfer::merged(before, record);
    model::validity_meaning(record);
    assert forall|i: int| 0 <= i < record.tasks.len() implies (#[trigger] record.tasks[i]).id.len()
        == 4 by {}
    assert forall|key: Key| #[trigger]
        after.tasks.contains_key(key) <==> before.tasks.contains_key(key) || has_path(
            record,
            key,
        ) by {
        folded::merge_has_results(before, record, key);
    }
    assert forall|key: Key| #[trigger] after.tasks.contains_key(key) implies folded::is_result(
        before.tasks,
        record.tasks,
        key,
        after.tasks[key],
    ) by {
        folded::merge_has_results(before, record, key);
    }
    replayed::merge_keeps_and_adds_messages(before, record);
    assert forall|parent: Key| #[trigger] operations::next_below(after, parent)
        >= operations::next_below(before, parent) by {
        captured::merged_tree_counts_on(before, record, parent);
    }
    assert forall|i: int, parent: Key, number: key::Id|
        0 <= i < record.tasks.len() && #[trigger] captured::has_number(
            record.tasks[i],
            parent,
            number,
        ) implies number < operations::next_below(after, parent) || operations::next_below(
        after,
        parent,
    ) == 0xffff by {
        captured::merged_tree_counts_on(before, record, parent);
    }
}

/// A snapshot of this tree that has no defect and no task at the root is merged into the tree that is
/// found, and what is reported is what was done. Another one is refused; unless it is one with a task
/// at the root, the tree that is found stays as it is.
pub proof fn merge_is_done(root: Root, snapshot: &Snapshot, res: Result<MergeReport, MergeError>)
    requires
        call_ensures(Root::merge, (&root, snapshot), res),
    ensures
        res is Ok <==> snapshot@.refusal() is None && snapshot.tree_id@ == root.identity() && forall|
            i: int,
        |
            0 <= i < snapshot@.tasks.len() ==> !stored::path_is(
                (#[trigger] snapshot@.tasks[i]).key,
                Key::Root,
            ),
        res matches Ok(report) ==> exists|before: TreeState, after: TreeState| #[trigger]
            lock::steps(root.lock(), before, after) && is_merge_of(before, after, snapshot@)
                && report.tasks_inserted == after.tasks.dom().len() - before.tasks.dom().len()
                && report.tasks_inserted + report.tasks_updated == snapshot.tasks@.len()
                && report.messages_appended == selection::new_messages(
                before.messages,
                before.message_capacity,
                transfer::readable(snapshot.messages@),
            ) && report.messages_appended + report.messages_skipped == captured::read_before(
                snapshot.messages@,
                snapshot.messages@.len() as int,
            ),
        res matches Err(error) ==> transfer::merge_refusal(root.identity(), snapshot@) == Some(
            error@,
        ),
        res is Err && !(snapshot@.refusal() is None && snapshot.tree_id@ == root.identity())
            ==> exists|found: TreeState| #[trigger] lock::steps(root.lock(), found, found),
{
    model::records_have_the_parts(*snapshot);
    refusals::other_trees_are_refused(root.identity(), snapshot@);
    if let Ok(report) = res {
        let before = choose|before: TreeState| #[trigger]
            lock::steps(root.lock(), before, transfer::merged(before, snapshot@))
                && before.valid() && report == transfer::merge_report(before, snapshot@);
        merged_is_merge(before, snapshot@);
        assert(snapshot.tasks.len() <= usize::MAX && snapshot.messages.len() <= usize::MAX);
        replayed::merges_are_reported(before, snapshot@);
    }
}

/// Continuing from a snapshot gives a root with the identity and the clock of this one, whose tree
/// starts out with the tasks and messages of the snapshot, and invalidates the handles of the tree
/// that is found. A snapshot that has a defect or is of another tree is refused, and changes nothing.
pub proof fn restore_is_done(
    root: Root,
    snapshot: &Snapshot,
    res: Result<Arc<Root>, RestoreError>,
)
    requires
        call_ensures(Root::restore, (&root, snapshot), res),
    ensures
        res is Ok <==> snapshot@.refusal() is None && snapshot.tree_id@ == root.identity(),
        res matches Ok(other) ==> {
            let first = lock::first_tree(other.lock());
            &&& other.identity() == root.identity()
            &&& other.clock() == root.clock()
            &&& first.tree_id == snapshot.tree_id@
            &&& first.message_capacity == snapshot.message_buffer_capacity
            &&& first.generation == 0
            &&& forall|i: int, key: Key|
                0 <= i < snapshot@.tasks.len() && #[trigger] stored::path_is(
                    snapshot@.tasks[i].key,
                    key,
                ) && (forall|j: int|
                    i < j < snapshot@.tasks.len() ==> !stored::path_is(
                        (#[trigger] snapshot@.tasks[j]).key,
                        key,
                    )) ==> first.tasks.contains_key(key) && stored::task_is_read(
                    first.tasks[key],
                    snapshot@.tasks[i],
                )
            &&& exists|before: TreeState, after: TreeState| #[trigger]
                lock::steps(root.lock(), before, after) && after.generation != before.generation
                    && after == (TreeState { generation: after.generation, ..before })
        },
        res matches Err(error) ==> transfer::restore_refusal(root.identity(), snapshot@) == Some(
            error@,
        ),
        res is Err ==> exists|found: TreeState| #[trigger] lock::steps(root.lock(), found, found),
{
    model::records_have_the_parts(*snapshot);
    refusals::other_trees_are_refused(root.identity(), snapshot@);
    if res is Ok {
        let first = transfer::restored(snapshot@);
        let before = choose|before: TreeState| #[trigger]
            lock::steps(root.lock(), before, before.superseded());
        captured::restored_tree_has_the_rest(snapshot@);
        operations::superseding_changes_the_generation(before);
        assert forall|i: int, key: Key|
            0 <= i < snapshot@.tasks.len() && #[trigger] stored::path_is(
                snapshot@.tasks[i].key,
                key,
            ) && (forall|j: int|
                i < j < snapshot@.tasks.len() ==> !stored::path_is(
                    (#[trigger] snapshot@.tasks[j]).key,
                    key,
                )) implies first.tasks.contains_key(key) && stored::task_is_read(
            first.tasks[key],
            snapshot@.tasks[i],
        ) by {
            captured::restored_tasks_are_read(snapshot@, key, i);
        }
        assert(lock::steps(root.lock(), before, before.superseded()));
    }
}

} // verus!
