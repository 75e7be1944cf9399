//! When snapshots are refused, and what is said then.

use vstd::prelude::*;

use crate::progress::Key;
use crate::text;
use crate::tree::snapshot::error::Refusal;
use crate::tree::snapshot::model;
use crate::tree::snapshot::model::{KeySnapshot, Record, TaskRecord};
use crate::tree::snapshot::stored;
use crate::tree::snapshot::transfer;

verus! {

// When snapshots are refused.

/// Whether the path of a task of a snapshot leads to no position.
pub open spec fn is_hollow(task: TaskRecord) -> bool {
    ||| task.key.a is None && task.key.b is Some
    ||| task.key.b is None && task.key.c is Some
    ||| task.key.c is None && task.key.d is Some
    ||| task.key.d is None && task.key.e is Some
    ||| task.key.e is None && task.key.f is Some
}

/// A snapshot can be used if and only if it is of version 1, its identity has 16 bytes, and all its
/// tasks have ids of 4 bytes and paths without holes. Otherwise the refusal says what is wrong: first
/// the version, then the identity, and then the first task with a defect.
pub proof fn refusals_have_reasons(record: Record)
    ensures
        record.refusal() is None <==> record.version == 1 && record.tree_id.len() == 16 && forall|
            i: int,
        |
            0 <= i < record.tasks.len() ==> (#[trigger] record.tasks[i]).id.len() == 4
                && !is_hollow(record.tasks[i]),
        record.version != 1 ==> record.refusal() == Some(
            Refusal::UnsupportedVersion { version: record.version, supported: 1 },
        ),
        record.version == 1 && record.refusal() is Some ==> record.refusal()->0 is Malformed,
{
    model::validity_meaning(record);
    assert forall|i: int| #![trigger record.tasks[i]] 0 <= i < record.tasks.len() implies (
    record.tasks[i].position() is Some <==> !is_hollow(record.tasks[i])) by {
        stored::position_is_read(record.tasks[i].key, Key::Root);
    }
    malformed_tasks(record.tasks);
}

proof fn malformed_tasks(tasks: Seq<TaskRecord>)
    ensures
        model::first_refusal(tasks) matches Some(refusal) ==> refusal is Malformed,
    decreases tasks.len(),
{
    if tasks.len() > 0 {
        malformed_tasks(tasks.drop_last());
    }
}

/// A tree of this identity refuses to continue from a snapshot, or to merge it, if and only if it
/// cannot be used or has another identity. Beyond that a merge refuses tasks at the root.
pub proof fn other_trees_are_refused(tree_id: Seq<u8>, record: Record)
    ensures
        transfer::restore_refusal(tree_id, record) is None <==> record.refusal() is None
            && record.tree_id == tree_id,
        record.refusal() is Some ==> transfer::restore_refusal(tree_id, record)
            == record.refusal() && transfer::merge_refusal(tree_id, record) == record.refusal(),
        record.refusal() is None && record.tree_id != tree_id ==> {
            &&& transfer::restore_refusal(tree_id, record) matches Some(refusal)
            &&& refusal is TreeIdMismatch
            &&& transfer::merge_refusal(tree_id, record) == Some(refusal)
        },
        record.refusal() is None && record.tree_id == tree_id ==> (transfer::merge_refusal(
            tree_id,
            record,
        ) is Some <==> exists|i: int|
            0 <= i < record.tasks.len() && stored::path_is(
                (#[trigger] record.tasks[i]).key,
                Key::Root,
            )),
{
    root_task_is_met(record.tasks);
}

/// The tasks before the first one at the root.
pub proof fn root_task_is_met(tasks: Seq<TaskRecord>)
    ensures
        transfer::before_root(tasks).len() <= tasks.len(),
        transfer::before_root(tasks) == tasks.take(transfer::before_root(tasks).len() as int),
        transfer::before_root(tasks).len() < tasks.len() ==> stored::path_is(
            tasks[transfer::before_root(tasks).len() as int].key,
            Key::Root,
        ),
        forall|i: int|
            0 <= i < transfer::before_root(tasks).len() ==> !stored::path_is(
                (#[trigger] tasks[i]).key,
                Key::Root,
            ),
        transfer::before_root(tasks).len() < tasks.len() <==> exists|i: int|
            0 <= i < tasks.len() && stored::path_is((#[trigger] tasks[i]).key, Key::Root),
    decreases tasks.len(),
{
    let before = transfer::before_root(tasks);
    if tasks.len() > 0 {
        let init = tasks.drop_last();
        let last = tasks[tasks.len() - 1];
        root_task_is_met(init);
        stored::position_is_read(last.key, Key::Root);
        let earlier = transfer::before_root(init);
        assert forall|i: int| #![trigger tasks[i]] 0 <= i < init.len() implies init[i]
            == tasks[i] by {}
        if earlier.len() < init.len() {
            assert(init[earlier.len() as int] == tasks[earlier.len() as int]);
        }
        assert(before =~= tasks.take(before.len() as int));
        assert forall|i: int| 0 <= i < before.len() implies !stored::path_is(
            (#[trigger] tasks[i]).key,
            Key::Root,
        ) by {
            if i < init.len() {
                assert(!stored::path_is(init[i].key, Key::Root));
            }
        }
        if before.len() < tasks.len() {
            assert(stored::path_is(tasks[before.len() as int].key, Key::Root));
        }
    } else {
        assert(before =~= tasks.take(0));
    }
}

// What is said.

/// A number of a path as it is shown.
pub open spec fn shown(number: Option<u16>) -> Seq<char> {
    match number {
        Some(number) => "Some("@ + text::decimal(number as nat) + ")"@,
        None => "None"@,
    }
}

/// A path is shown with all its numbers, level by level.
pub proof fn paths_are_shown(path: KeySnapshot)
    ensures
        path.text() == "KeySnapshot { a: "@ + shown(path.a) + ", b: "@ + shown(path.b) + ", c: "@
            + shown(path.c) + ", d: "@ + shown(path.d) + ", e: "@ + shown(path.e) + ", f: "@ + shown(
            path.f,
        ) + " }"@,
{
}

/// A snapshot of the right version with an identity of the wrong length is refused with the length.
pub proof fn length_of_identity_is_told(record: Record)
    requires
        record.version == 1,
        record.tree_id.len() != 16,
    ensures
        record.refusal() == Some(
            Refusal::Malformed {
                context: "tree id must be 16 bytes, got "@ + text::decimal(record.tree_id.len()),
            },
        ),
{
}

/// Whether a task can be part of a snapshot: its id has 4 bytes, and its path has no hole.
pub open spec fn is_sound(task: TaskRecord) -> bool {
    task.id.len() == 4 && !is_hollow(task)
}

/// A snapshot of the right version and with an identity of the right length is refused for the first
/// task that has a defect: with its path and the length of its id, if that is wrong, and otherwise
/// with its path, which has a hole then.
pub proof fn first_defect_is_told(record: Record, n: int)
    requires
        record.version == 1,
        record.tree_id.len() == 16,
        0 <= n < record.tasks.len(),
        forall|i: int| 0 <= i < n ==> is_sound(#[trigger] record.tasks[i]),
        !is_sound(record.tasks[n]),
    ensures
        ({
            let task = record.tasks[n];
            record.refusal() == Some(
                Refusal::Malformed {
                    context: if task.id.len() != 4 {
                        "task "@ + task.key.text() + " id must be 4 bytes, got "@ + text::decimal(
                            task.id.len(),
                        )
                    } else {
                        "task key "@ + task.key.text() + " has a hole in its hierarchy path"@
                    },
                },
            )
        }),
{
    first_defect(record.tasks, n);
}

proof fn first_defect(tasks: Seq<TaskRecord>, n: int)
    requires
        0 <= n < tasks.len(),
        forall|i: int| 0 <= i < n ==> is_sound(#[trigger] tasks[i]),
        !is_sound(tasks[n]),
    ensures
        model::first_refusal(tasks) == tasks[n].refusal(),
        tasks[n].refusal() is Some,
        tasks[n].id.len() == 4 ==> tasks[n].key.has_hole(),
    decreases tasks.len(),
{
    let init = tasks.drop_last();
    stored::position_is_read(tasks[n].key, Key::Root);
    model::position_meaning(tasks[n].key);
    if n < init.len() {
        assert(init[n] == tasks[n]);
        assert forall|i: int| 0 <= i < n implies is_sound(#[trigger] init[i]) by {
            assert(init[i] == tasks[i]);
        }
        first_defect(init, n);
    } else {
        no_defect(init);
        assert(tasks.last() == tasks[n]);
    }
}

proof fn no_defect(tasks: Seq<TaskRecord>)
    requires
        forall|i: int| #![trigger tasks[i]] 0 <= i < tasks.len() ==> is_sound(tasks[i]),
    ensures
        model::first_refusal(tasks) is None,
    decreases tasks.len(),
{
    if tasks.len() > 0 {
        let init = tasks.drop_last();
        let last = tasks[tasks.len() - 1];
        assert forall|i: int| #![trigger init[i]] 0 <= i < init.len() implies is_sound(init[i]) by {
            assert(init[i] == tasks[i]);
        }
        no_defect(init);
        assert(is_sound(last));
        stored::position_is_read(last.key, Key::Root);
        model::position_meaning(last.key);
        assert(tasks.last() == last);
    }
}

/// A snapshot of another tree is refused with both identities in hexadecimal, whether to continue
/// from it or to merge it.
pub proof fn identities_are_told(tree_id: Seq<u8>, record: Record)
    requires
        record.refusal() is None,
        record.tree_id != tree_id,
    ensures
        ({
            let refusal = Refusal::TreeIdMismatch {
                snapshot: text::hex(record.tree_id),
                current: text::hex(tree_id),
            };
            &&& transfer::restore_refusal(tree_id, record) == Some(refusal)
            &&& transfer::merge_refusal(tree_id, record) == Some(refusal)
        }),
{
}

/// A snapshot of the tree itself that has a task at the root can be continued from, and is refused
/// by a merge.
pub proof fn root_tasks_are_told(tree_id: Seq<u8>, record: Record)
    requires
        record.refusal() is None,
        record.tree_id == tree_id,
        exists|i: int|
            0 <= i < record.tasks.len() && stored::path_is(
                (#[trigger] record.tasks[i]).key,
                Key::Root,
            ),
    ensures
        transfer::restore_refusal(tree_id, record) is None,
        transfer::merge_refusal(tree_id, record) == Some(
            Refusal::Malformed { context: "snapshot contains a task for the root key"@ },
        ),
{
    root_task_is_met(record.tasks);
}

/// What is shown for a refusal: both versions, the context, or both identities and what was refused.
pub proof fn refusals_are_shown(refusal: Refusal, action: Seq<char>)
    ensures
        refusal matches Refusal::UnsupportedVersion { version, supported } ==> refusal.message(
            action,
        ) == "snapshot version "@ + text::decimal(version as nat)
            + " is not supported (only version "@ + text::decimal(supported as nat) + ")"@,
        refusal matches Refusal::Malformed { context } ==> refusal.message(action)
            == "malformed snapshot: "@ + context,
        refusal matches Refusal::TreeIdMismatch { snapshot, current } ==> refusal.message(action)
            == "snapshot belongs to tree "@ + snapshot + " but this tree is "@ + current
            + "; refusing to "@ + action,
{
}

} // verus!
