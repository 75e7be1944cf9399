//! Resumable snapshots and monotonic tree merges.
//!
//! Every test replays an explicit, deterministic interleaving of events rather than relying on
//! timing, so the evidence is reproducible without sleeps or randomness. The clock used for
//! message timestamps is injected and frozen.

use std::sync::Arc;

use prodash_tree::progress::{Key, State, Task};
use prodash_tree::time::Duration;
use prodash_tree::tree::root::Options;
use prodash_tree::tree::snapshot::model::{
    KeySnapshot, MessageSnapshot, ModeSnapshot, StateSnapshot, TaskSnapshot, UnitSnapshot,
    ValueSnapshot,
};
use prodash_tree::tree::snapshot::{FixedClock, MergeError, RestoreError, SnapshotData};
use prodash_tree::tree::{Root, TreeId};
use prodash_tree::unit;
use serde_json::Value as Json;

const TREE: TreeId = TreeId(*b"fixed-tree-id!!!");
const OTHER: TreeId = TreeId(*b"other-tree-0000!");

fn fixed_tree(clock: FixedClock) -> Arc<Root> {
    Options::default().create_with_tree_id(TREE, clock)
}

fn fixed_tree_for(id: TreeId, clock: FixedClock) -> Arc<Root> {
    Options::default().create_with_tree_id(id, clock)
}

fn entries(root: &Arc<Root>) -> Vec<(Key, Task)> {
    let mut out = Vec::new();
    root.sorted_snapshot(&mut out);
    out
}

fn task_at<'a>(entries: &'a [(Key, Task)], levels: &[u16]) -> &'a Task {
    let key = Key::from_levels(levels);
    let found = entries
        .iter()
        .find(|(candidate, _)| *candidate == key)
        .unwrap_or_else(|| panic!("task at {levels:?} must exist"));
    &found.1
}

fn step_of(entries: &[(Key, Task)], levels: &[u16]) -> usize {
    task_at(entries, levels).progress.as_ref().expect("initialized task").step
}

fn build_interrupted(clock: FixedClock) -> (Arc<Root>, SnapshotData) {
    let root = fixed_tree(clock);
    let parent = root.add_child("parent");
    parent.init(Some(10), Some(unit::label("items")));
    parent.set(7);
    parent.blocked("waiting on lock", None);
    parent.running();

    let child = parent.add_child_with_id("child", *b"CHLD");
    child.init(Some(4), None);
    child.set(4);
    child.done("finished child");

    parent.info("halfway note");
    let snapshot = root.snapshot();
    (root, snapshot)
}

// The JSON form of a snapshot.

fn object(fields: Vec<(&str, Json)>) -> Json {
    Json::Object(fields.into_iter().map(|(name, value)| (name.to_owned(), value)).collect())
}

fn optional<T>(value: Option<T>, encode: impl FnOnce(T) -> Json) -> Json {
    value.map(encode).unwrap_or(Json::Null)
}

fn bytes_to_json(bytes: &[u8]) -> Json {
    Json::Array(bytes.iter().map(|byte| Json::from(*byte)).collect())
}

fn reason_to_json(reason: &str, eta_secs: Option<u64>, eta_nanos: u32) -> Json {
    object(vec![
        ("reason", Json::from(reason)),
        ("eta_secs", optional(eta_secs, Json::from)),
        ("eta_nanos", Json::from(eta_nanos)),
    ])
}

fn state_to_json(state: &StateSnapshot) -> Json {
    match state {
        StateSnapshot::Running => Json::from("Running"),
        StateSnapshot::Blocked { reason, eta_secs, eta_nanos } => {
            object(vec![("Blocked", reason_to_json(reason, *eta_secs, *eta_nanos))])
        }
        StateSnapshot::Halted { reason, eta_secs, eta_nanos } => {
            object(vec![("Halted", reason_to_json(reason, *eta_secs, *eta_nanos))])
        }
        StateSnapshot::Completed => Json::from("Completed"),
    }
}

fn unit_to_json(unit: &UnitSnapshot) -> Json {
    let mode = optional(unit.mode, |mode| {
        object(vec![
            ("location", Json::from(mode.location)),
            ("percent", Json::from(mode.percent)),
            ("throughput", Json::from(mode.throughput)),
        ])
    });
    object(vec![("label", Json::from(unit.label.as_str())), ("mode", mode)])
}

fn value_to_json(value: &ValueSnapshot) -> Json {
    object(vec![
        ("step", Json::from(value.step)),
        ("done_at", optional(value.done_at, Json::from)),
        ("state", state_to_json(&value.state)),
        ("unit", optional(value.unit.as_ref(), unit_to_json)),
    ])
}

fn task_to_json(task: &TaskSnapshot) -> Json {
    let key = object(vec![
        ("a", optional(task.key.a, Json::from)),
        ("b", optional(task.key.b, Json::from)),
        ("c", optional(task.key.c, Json::from)),
        ("d", optional(task.key.d, Json::from)),
        ("e", optional(task.key.e, Json::from)),
        ("f", optional(task.key.f, Json::from)),
    ]);
    object(vec![
        ("key", key),
        ("name", Json::from(task.name.as_str())),
        ("id", bytes_to_json(&task.id)),
        ("progress", optional(task.progress.as_ref(), value_to_json)),
    ])
}

fn message_to_json(message: &MessageSnapshot) -> Json {
    object(vec![
        ("secs", Json::from(message.secs)),
        ("nanos", Json::from(message.nanos)),
        ("level", Json::from(message.level)),
        ("origin", Json::from(message.origin.as_str())),
        ("message", Json::from(message.message.as_str())),
    ])
}

fn to_json(snapshot: &SnapshotData) -> Json {
    object(vec![
        ("version", Json::from(snapshot.version)),
        ("tree_id", bytes_to_json(&snapshot.tree_id)),
        ("message_buffer_capacity", Json::from(snapshot.message_buffer_capacity)),
        ("tasks", Json::Array(snapshot.tasks.iter().map(task_to_json).collect())),
        ("messages", Json::Array(snapshot.messages.iter().map(message_to_json).collect())),
    ])
}

fn to_bytes(snapshot: &SnapshotData) -> Vec<u8> {
    serde_json::to_vec(&to_json(snapshot)).unwrap()
}

fn number(json: &Json) -> u64 {
    json.as_u64().unwrap()
}

fn text(json: &Json) -> String {
    json.as_str().unwrap().to_owned()
}

fn bytes(json: &Json) -> Vec<u8> {
    json.as_array().unwrap().iter().map(|byte| number(byte) as u8).collect()
}

fn level(json: &Json) -> Option<u16> {
    json.as_u64().map(|level| level as u16)
}

fn unit_from_json(json: &Json) -> UnitSnapshot {
    let mode = &json["mode"];
    let mode = if mode.is_null() {
        None
    } else {
        Some(ModeSnapshot {
            location: number(&mode["location"]) as u8,
            percent: mode["percent"].as_bool().unwrap(),
            throughput: mode["throughput"].as_bool().unwrap(),
        })
    };
    UnitSnapshot { label: text(&json["label"]), mode }
}

fn state_from_json(json: &Json) -> StateSnapshot {
    let reason = |json: &Json| {
        (text(&json["reason"]), json["eta_secs"].as_u64(), number(&json["eta_nanos"]) as u32)
    };
    match json {
        Json::String(name) if name == "Running" => StateSnapshot::Running,
        Json::String(name) if name == "Completed" => StateSnapshot::Completed,
        Json::Object(fields) if fields.contains_key("Blocked") => {
            let (reason, eta_secs, eta_nanos) = reason(&fields["Blocked"]);
            StateSnapshot::Blocked { reason, eta_secs, eta_nanos }
        }
        Json::Object(fields) if fields.contains_key("Halted") => {
            let (reason, eta_secs, eta_nanos) = reason(&fields["Halted"]);
            StateSnapshot::Halted { reason, eta_secs, eta_nanos }
        }
        other => panic!("not a state: {other}"),
    }
}

fn value_from_json(json: &Json) -> ValueSnapshot {
    let unit = &json["unit"];
    ValueSnapshot {
        step: number(&json["step"]) as usize,
        done_at: json["done_at"].as_u64().map(|bound| bound as usize),
        state: state_from_json(&json["state"]),
        unit: if unit.is_null() { None } else { Some(unit_from_json(unit)) },
    }
}

fn task_from_json(json: &Json) -> TaskSnapshot {
    let key = &json["key"];
    let progress = &json["progress"];
    TaskSnapshot {
        key: KeySnapshot {
            a: level(&key["a"]),
            b: level(&key["b"]),
            c: level(&key["c"]),
            d: level(&key["d"]),
            e: level(&key["e"]),
            f: level(&key["f"]),
        },
        name: text(&json["name"]),
        id: bytes(&json["id"]),
        progress: if progress.is_null() { None } else { Some(value_from_json(progress)) },
    }
}

fn message_from_json(json: &Json) -> MessageSnapshot {
    MessageSnapshot {
        secs: number(&json["secs"]),
        nanos: number(&json["nanos"]) as u32,
        level: number(&json["level"]) as u8,
        origin: text(&json["origin"]),
        message: text(&json["message"]),
    }
}

fn from_json(json: &Json) -> SnapshotData {
    SnapshotData {
        version: number(&json["version"]) as u32,
        tree_id: bytes(&json["tree_id"]),
        message_buffer_capacity: number(&json["message_buffer_capacity"]) as usize,
        tasks: json["tasks"].as_array().unwrap().iter().map(task_from_json).collect(),
        messages: json["messages"].as_array().unwrap().iter().map(message_from_json).collect(),
    }
}

// --- Restore ---------------------------------------------------------------

#[test]
fn restore_round_trips_every_field() {
    let clock = FixedClock::epoch();
    let (root, snapshot) = build_interrupted(clock);
    let restored = root.restore(&snapshot).expect("same tree id restores");

    let restored_entries = entries(&restored);
    assert_eq!(restored.tree_id(), TREE);

    let parent = task_at(&restored_entries, &[0]);
    assert_eq!(parent.name, "parent");
    let progress = parent.progress.as_ref().unwrap();
    assert_eq!(progress.step, 7);
    assert_eq!(progress.done_at, Some(10));
    assert_eq!(progress.state, State::Running);
    let label = progress.unit.as_ref().unwrap().label_str().unwrap();
    assert_eq!(label, "items");

    let child = task_at(&restored_entries, &[0, 0]);
    assert_eq!(child.name, "child");
    assert_eq!(child.id, *b"CHLD");
    let child_progress = child.progress.as_ref().unwrap();
    assert_eq!(child_progress.step, 4);
    assert_eq!(child_progress.state, State::Completed);

    let mut messages = Vec::new();
    restored.copy_messages(&mut messages);
    let texts: Vec<_> =
        messages.iter().map(|m| (m.origin.as_str(), m.message.as_str())).collect();
    assert!(texts.contains(&("child", "finished child")));
    assert!(texts.contains(&("parent", "halfway note")));
}

#[test]
fn old_handles_cannot_mutate_the_restored_tree() {
    let clock = FixedClock::epoch();
    let root = fixed_tree(clock);
    let parent = root.add_child("persisted");
    parent.init(Some(10), None);
    parent.set(2);
    parent.done("persisted done");
    let snapshot = root.snapshot();

    let stale = root.add_child("stale");
    stale.init(Some(3), None);
    stale.set(1);

    let restored = root.restore(&snapshot).unwrap();

    // Handles predating the restore are detached: every mutator is a no-op against the new tree.
    stale.set(99);
    stale.inc();
    stale.running();
    stale.init(Some(100), None);
    stale.set_name("rewritten");
    stale.info("ghost message");
    let ghost = stale.add_child("ghost child");
    ghost.init(Some(1), None);
    ghost.set(1);

    let restored_entries = entries(&restored);
    // The restored tree predates "stale", so it must not appear at all.
    assert!(
        restored_entries.iter().all(|(key, _)| *key != Key::from_levels(&[1])),
        "detached handles must not create tasks in the restored tree"
    );
    assert!(
        restored_entries.iter().all(|(key, _)| *key != Key::from_levels(&[1, 0])),
        "children of detached handles must stay out of the restored tree"
    );

    let mut messages = Vec::new();
    restored.copy_messages(&mut messages);
    assert!(messages.iter().all(|m| m.message != "ghost message"));
    assert_eq!(restored.num_tasks(), restored_entries.len());

    // Handles of the restored tree keep working and are allocated fresh keys.
    let after = restored.add_child("after");
    after.init(Some(1), None);
    after.set(1);
    // Detached handles must not have consumed the new tree's child-id counters: a second
    // fresh child lands on the very next slot rather than skipping one.
    let after_too = restored.add_child("after too");
    after_too.init(Some(1), None);
    after_too.set(1);
    let restored_entries = entries(&restored);
    assert_eq!(step_of(&restored_entries, &[1]), 1);
    assert_eq!(step_of(&restored_entries, &[2]), 1);
}

#[test]
fn new_children_after_restore_never_reuse_snapshot_keys() {
    let clock = FixedClock::epoch();
    let (root, snapshot) = build_interrupted(clock);
    let restored = root.restore(&snapshot).unwrap();

    let fresh = restored.add_child("after restore");
    fresh.init(Some(1), None);
    fresh.set(1);

    let restored_entries = entries(&restored);
    assert!(restored_entries
        .iter()
        .any(|(key, task)| *key == Key::from_levels(&[1]) && task.name == "after restore"));
}

#[test]
fn restore_rejects_foreign_and_malformed_snapshots() {
    let clock = FixedClock::epoch();
    let root = fixed_tree(clock);
    let foreign = fixed_tree_for(OTHER, FixedClock::epoch());

    let err = root.restore(&foreign.snapshot()).unwrap_err();
    match err {
        RestoreError::TreeIdMismatch { snapshot, current } => {
            assert_eq!(snapshot.len(), 32);
            assert_ne!(snapshot, current);
        }
        other => panic!("expected TreeIdMismatch, got {other:?}"),
    }

    let mut tampered = root.snapshot();
    tampered.version = 999;
    assert!(matches!(
        root.restore(&tampered),
        Err(RestoreError::UnsupportedVersion { version: 999, .. })
    ));

    let mut tampered = root.snapshot();
    tampered.tree_id = vec![1, 2, 3];
    assert!(matches!(root.restore(&tampered), Err(RestoreError::Malformed { .. })));

    let populated = {
        let tree = fixed_tree_for(TREE, FixedClock::epoch());
        let task = tree.add_child("present");
        task.init(Some(1), None);
        tree.snapshot()
    };
    let mut tampered = populated.clone();
    tampered.tasks[0].id = vec![1];
    assert!(matches!(root.restore(&tampered), Err(RestoreError::Malformed { .. })));

    // A key with a hole (level 1 missing while level 2 is present) cannot be produced by the
    // tree, but a hand-crafted payload must be rejected with a malformed error.
    let mut crafted: Json = to_json(&populated);
    crafted["tasks"][0]["key"]["a"] = Json::Null;
    crafted["tasks"][0]["key"]["b"] = Json::from(3);
    let crafted: SnapshotData = from_json(&crafted);
    assert!(matches!(root.restore(&crafted), Err(RestoreError::Malformed { .. })));
    assert!(root.restore(&crafted).unwrap_err().to_string().contains("hole"));
}

// --- Monotonic merge -------------------------------------------------------

#[test]
fn merge_is_idempotent_for_the_same_snapshot() {
    let clock = FixedClock::epoch();
    let root = fixed_tree(clock);
    let (_donor, snapshot) = build_interrupted(FixedClock::epoch());
    let message_count = snapshot.messages.len();

    let first = root.merge(&snapshot).unwrap();
    assert_eq!(first.tasks_inserted, 2);
    assert_eq!(first.tasks_updated, 0);
    assert_eq!(first.messages_appended, message_count);
    assert_eq!(first.messages_skipped, 0);

    let entries_once = entries(&root);
    let messages_once = {
        let mut out = Vec::new();
        root.copy_messages(&mut out);
        out
    };

    let second = root.merge(&snapshot).unwrap();
    assert_eq!(second.tasks_inserted, 0);
    assert_eq!(second.tasks_updated, 2);
    assert_eq!(second.messages_appended, 0);
    assert_eq!(second.messages_skipped, message_count);

    let entries_twice = entries(&root);
    assert_eq!(entries_once.len(), entries_twice.len());
    assert_eq!(step_of(&entries_twice, &[0]), 7);
    assert_eq!(step_of(&entries_twice, &[0, 0]), 4);

    let mut messages_twice = Vec::new();
    root.copy_messages(&mut messages_twice);
    assert_eq!(messages_once, messages_twice);
}

#[test]
fn merge_keeps_per_item_maximum_steps_and_sticky_terminal_state() {
    let root = fixed_tree(FixedClock::epoch());
    let live = root.add_child("task");
    live.init(Some(10), None);
    live.set(8);

    // An older snapshot with fewer steps must not move the counter backwards.
    let older = {
        let donor = fixed_tree_for(TREE, FixedClock::epoch());
        let task = donor.add_child("task");
        task.init(Some(10), None);
        task.set(3);
        donor.snapshot()
    };
    root.merge(&older).unwrap();
    assert_eq!(step_of(&entries(&root), &[0]), 8);

    // A newer snapshot advances the counter.
    let newer = {
        let donor = fixed_tree_for(TREE, FixedClock::epoch());
        let task = donor.add_child("task");
        task.init(Some(10), None);
        task.set(9);
        donor.snapshot()
    };
    root.merge(&newer).unwrap();
    assert_eq!(step_of(&entries(&root), &[0]), 9);

    // Completion is sticky, even if a stale snapshot claims the task is merely running.
    let completion = {
        let donor = fixed_tree_for(TREE, FixedClock::epoch());
        let task = donor.add_child("task");
        task.init(Some(10), None);
        task.set(10);
        task.done("done");
        donor.snapshot()
    };
    root.merge(&completion).unwrap();
    assert_eq!(
        task_at(&entries(&root), &[0]).progress.as_ref().unwrap().state,
        State::Completed
    );

    root.merge(&older).unwrap();
    let after_replay = entries(&root);
    assert_eq!(step_of(&after_replay, &[0]), 10);
    assert_eq!(
        task_at(&after_replay, &[0]).progress.as_ref().unwrap().state,
        State::Completed
    );

    // Direct handle updates cannot reopen the completed item either.
    live.running();
    live.set(1);
    live.blocked("late block", None);
    live.init(Some(20), None);
    let after_handle = entries(&root);
    assert_eq!(
        task_at(&after_handle, &[0]).progress.as_ref().unwrap().state,
        State::Completed
    );
    assert_eq!(step_of(&after_handle, &[0]), 10);
}

#[test]
fn merge_folds_partial_snapshots_without_dropping_other_tasks() {
    let root = fixed_tree(FixedClock::epoch());
    let resident = root.add_child("resident");
    resident.init(Some(2), None);
    resident.set(1);

    let incoming = {
        let donor = fixed_tree_for(TREE, FixedClock::epoch());
        // Occupy slot [0] in the donor with a task that has already gone away; the incoming
        // task therefore lives at slot [1] and must not be conflated with the resident [0].
        donor.add_child("gone").remove();
        let other = donor.add_child("incoming");
        other.init(Some(5), None);
        other.set(5);
        other.done("incoming done");
        donor.snapshot()
    };
    root.merge(&incoming).unwrap();

    let snapshot = entries(&root);
    assert_eq!(step_of(&snapshot, &[0]), 1);
    assert_eq!(step_of(&snapshot, &[1]), 5);
    assert_eq!(task_at(&snapshot, &[1]).progress.as_ref().unwrap().state, State::Completed);

    // A child added after the merge cannot collide with either snapshot key.
    let third = root.add_child("third");
    third.init(Some(1), None);
    third.set(1);
    assert_eq!(step_of(&entries(&root), &[2]), 1);
}

#[test]
fn merge_rejects_foreign_tree_ids() {
    let root = fixed_tree(FixedClock::epoch());
    let foreign = fixed_tree_for(OTHER, FixedClock::epoch());
    let err = root.merge(&foreign.snapshot()).unwrap_err();
    assert!(matches!(err, MergeError::TreeIdMismatch { .. }));
    assert!(err.to_string().contains("refusing to merge"));
    assert_eq!(root.num_tasks(), 0);
}

// --- Deterministic bytes ----------------------------------------------------

fn make_reproducible() -> Vec<u8> {
    let clock = FixedClock::epoch();
    let root = Options::default().create_with_tree_id(TREE, clock.clone());
    let parent = root.add_child("reproducible");
    parent.init(Some(5), Some(unit::label("files")));
    parent.set(2);
    parent.info("note");
    clock.advance(Duration::from_secs(10));
    let child = parent.add_child_with_id("kid", *b"KID0");
    child.init(Some(3), None);
    child.set(3);
    child.done("complete");
    to_bytes(&root.snapshot())
}

#[test]
fn snapshot_bytes_are_reproducible_with_a_fixed_clock() {
    let first = make_reproducible();
    let second = make_reproducible();
    assert_eq!(first, second);
    let parsed: Json = serde_json::from_slice(&first).unwrap();
    let messages = parsed["messages"].as_array().unwrap();
    assert_eq!(messages[0]["secs"].as_u64(), Some(0));
    assert_eq!(messages[1]["secs"].as_u64(), Some(10));
    assert_eq!(parsed["tree_id"].as_array().unwrap().len(), 16);
}

#[test]
fn snapshot_serialization_round_trips_through_json() {
    let (_root, snapshot) = build_interrupted(FixedClock::epoch());
    let bytes = to_bytes(&snapshot);
    let decoded: SnapshotData = from_json(&serde_json::from_slice(&bytes).unwrap());
    assert_eq!(decoded, snapshot);

    let blank = fixed_tree(FixedClock::epoch());
    let restored = blank.restore(&decoded).unwrap();
    assert_eq!(step_of(&entries(&restored), &[0]), 7);
}
