//! Trees, their handles, clocks and positions.

use std::sync::Arc;

use prodash_tree::messages::{Message, MessageLevel};
use prodash_tree::progress::{Key, State, Task, UNKNOWN};
use prodash_tree::time::{Duration, Timestamp};
use prodash_tree::tree::root::Options;
use prodash_tree::tree::snapshot::clock::Clock;
use prodash_tree::tree::snapshot::error::MergeReport;
use prodash_tree::tree::snapshot::model::{
    KeySnapshot, MessageSnapshot, Snapshot, StateSnapshot, TaskSnapshot, ValueSnapshot,
};
use prodash_tree::tree::snapshot::{FixedClock, MergeError, RestoreError};
use prodash_tree::tree::sync::HashMap;
use prodash_tree::tree::{Root, Shared, TreeId, TreeIds};
use prodash_tree::unit;

const TREE: TreeId = TreeId(*b"0123456789abcdef");

fn tree() -> Arc<Root> {
    Options::default().create_with_tree_id(TREE, FixedClock::epoch())
}

fn small_tree(messages: usize) -> Arc<Root> {
    Options { initial_capacity: 1, message_buffer_capacity: messages }
        .create_with_tree_id(TREE, FixedClock::epoch())
}

fn entries(root: &Root) -> Vec<(Key, Task)> {
    let mut out = vec![(
        Key::from_levels(&[9, 9]),
        Task { name: "replaced".into(), id: UNKNOWN, progress: None },
    )];
    root.sorted_snapshot(&mut out);
    out
}

fn paths(root: &Root) -> Vec<Vec<u16>> {
    entries(root).iter().map(|(key, _)| key.levels()).collect()
}

fn messages(root: &Root) -> Vec<Message> {
    let mut out = Vec::new();
    root.copy_messages(&mut out);
    out
}

fn texts(root: &Root) -> Vec<String> {
    messages(root).into_iter().map(|m| m.message).collect()
}

fn step(root: &Root, index: usize) -> usize {
    entries(root)[index].1.progress.as_ref().unwrap().step
}

fn task_snapshot(levels: &[u16], step: usize, state: StateSnapshot) -> TaskSnapshot {
    let level = |i: usize| levels.get(i).copied();
    TaskSnapshot {
        key: KeySnapshot {
            a: level(0),
            b: level(1),
            c: level(2),
            d: level(3),
            e: level(4),
            f: level(5),
        },
        name: format!("task {levels:?}"),
        id: vec![1, 2, 3, 4],
        progress: Some(ValueSnapshot { step, done_at: None, state, unit: None }),
    }
}

fn snapshot(tasks: Vec<TaskSnapshot>) -> Snapshot {
    Snapshot {
        version: 1,
        tree_id: TREE.0.to_vec(),
        message_buffer_capacity: 20,
        tasks,
        messages: Vec::new(),
    }
}

// Positions.

#[test]
fn positions_are_ordered_parents_first() {
    let mut sorted = [
        Key::from_levels(&[1]),
        Key::from_levels(&[0, 1]),
        Key::from_levels(&[]),
        Key::from_levels(&[0]),
        Key::from_levels(&[0, 0, 7]),
        Key::from_levels(&[0, 0]),
    ];
    sorted.sort_by_key(|key| key.code());
    let paths: Vec<_> = sorted.iter().map(|key| key.levels()).collect();
    let expected: Vec<Vec<u16>> =
        vec![vec![], vec![0], vec![0, 0], vec![0, 0, 7], vec![0, 1], vec![1]];
    assert_eq!(paths, expected);
}

#[test]
fn positions_have_at_most_six_levels() {
    let key = Key::from_levels(&[1, 2, 3, 4, 5, 6]);
    assert_eq!(key.level(), 6);
    assert_eq!(key.components(), [Some(1), Some(2), Some(3), Some(4), Some(5), Some(6)]);
    assert_eq!(Key::from_levels(&[1, 2]).child(3), Key::from_levels(&[1, 2, 3]));
    assert_eq!(Key::from_components([Some(1), None, Some(2), None, None, None]), None);
}

#[test]
fn tables_keep_one_value_per_position() {
    let mut table: HashMap<u32> = HashMap::with_capacity(4);
    let first = Key::from_levels(&[1]);
    let second = Key::from_levels(&[1, 0]);
    table.insert(first, 10);
    table.insert(second, 20);
    table.insert(first, 11);
    assert_eq!(table.len(), 2);
    assert!(table.contains_key(&first));
    assert_eq!(table.get(&first, |value| *value + 1), Some(12));
    let doubled = |value: &mut u32| {
        *value *= 2;
        *value
    };
    assert_eq!(table.get_mut(&second, doubled), Some(40));
    let copy = table.clone();
    assert_eq!(table.remove(&second), Some(40));
    assert_eq!(table.remove(&second), None);
    assert_eq!(table.get(&second, |value| *value), None);
    assert_eq!(copy.get(&second, |value| *value), Some(40));
    let mut out = Vec::new();
    copy.extend_to(&mut out);
    out.sort_by_key(|(key, _)| key.code());
    assert_eq!(out, [(first, 11), (second, 40)]);
}

// Identities.

#[test]
fn identities_are_a_marker_and_a_number() {
    let id = TreeId::unique(0x0102_0304_0506_0708);
    assert_eq!(&id.0[..8], b"ephemer!");
    assert_eq!(&id.0[8..], [1, 2, 3, 4, 5, 6, 7, 8]);
    assert_ne!(TreeId::unique(1), TreeId::unique(2));
    assert!(TreeId::unique(255) < TreeId::unique(256));
    assert!(TreeId::unique(0x0100_0000_00ff) < TreeId::unique(0x0200_0000_0000));
    assert_eq!(TreeId::from_slice(&id.to_vec()), id);
}

// Clocks.

#[test]
fn clones_of_a_clock_share_the_time() {
    let clock = FixedClock::at(Timestamp::at(5, 6));
    let other = clock.clone();
    assert_eq!(other.get(), Timestamp::at(5, 6));
    clock.advance(Duration::new(1, 999_999_999));
    assert_eq!(other.get(), Timestamp::at(7, 5));
    other.set(Timestamp::at(1, 0));
    assert_eq!(clock.get(), Timestamp::at(1, 0));
    assert_eq!(FixedClock::epoch().get(), Timestamp::epoch());
    assert_eq!(Clock::Fixed(clock).now(), Timestamp::at(1, 0));
}

#[test]
fn clocks_show_the_last_time_set_and_the_advances_behind_it() {
    let clock = FixedClock::at(Timestamp::at(50, 0));
    let clone = clock.clone();
    let separate = FixedClock::at(Timestamp::at(7, 0));
    clock.advance(Duration::from_secs(5));
    clone.set(Timestamp::at(3, 0));
    assert_eq!(clock.get(), Timestamp::at(3, 0));
    clock.advance(Duration::from_secs(2));
    clone.advance(Duration::new(0, 4));
    assert_eq!(clock.get(), Timestamp::at(5, 4));
    assert_eq!(clone.get(), clock.get());
    assert_eq!(separate.get(), Timestamp::at(7, 0));
}

#[test]
fn clocks_stop_at_the_last_point_in_time() {
    let last = Timestamp::at(u64::MAX, 999_999_999);
    let clock = FixedClock::at(Timestamp::at(u64::MAX, 0));
    clock.advance(Duration::from_secs(1));
    assert_eq!(clock.get(), last);
    assert_eq!(Timestamp::at(u64::MAX, u32::MAX), last);
}

#[test]
fn the_system_clock_is_past_the_epoch() {
    let now = Clock::System.now();
    // The first of January 2020.
    assert!(now.nanos() > 1_577_836_800 * 1_000_000_000);
    assert_eq!(Timestamp::of_reading(Ok((3, 4))).nanos(), 3_000_000_004);
    assert_eq!(Timestamp::of_reading(Err((3, 4))).nanos(), -3_000_000_004);
}

#[test]
fn equal_spans_are_equal() {
    assert_eq!(Duration::new(1, 1_000_000_001), Duration::new(2, 1));
    assert_eq!(Duration::new(3, 0), Duration::from_secs(3));
    assert_ne!(Duration::new(1, 1), Duration::from_secs(1));
}

#[test]
fn advances_of_a_clock_add_up() {
    let clock = FixedClock::at(Timestamp::at(5, 0));
    let other = clock.clone();
    clock.advance(Duration::new(1, 600_000_000));
    other.advance(Duration::new(2, 500_000_000));
    assert_eq!(clock.get(), Timestamp::at(9, 100_000_000));
    assert_eq!(other.get(), clock.get());
}

#[test]
fn points_in_time_split_into_seconds_and_nanoseconds() {
    assert_eq!(Timestamp::at(3, 4).since_epoch(), Some((3, 4)));
    assert_eq!(Timestamp::of_reading(Err((0, 1))).since_epoch(), None);
    let far = Timestamp::at(u64::MAX, 999_999_999);
    assert_eq!(far.since_epoch(), Some((u64::MAX, 999_999_999)));
}

// Trees and handles.

#[test]
fn defaults_leave_room_for_tasks_and_messages() {
    let options = Options::default();
    assert_eq!(options.initial_capacity, 100);
    assert_eq!(options.message_buffer_capacity, 20);
    assert_eq!(tree().messages_capacity(), 20);
}

#[test]
fn trees_of_a_process_have_numbered_identities_and_the_time_of_day() {
    let mut ids = TreeIds::new();
    assert_eq!(ids.unique(), TreeId::unique(1));
    let other = Options::default().create(&mut ids);
    let root = Options::default().create(&mut ids);
    assert_eq!(other.tree_id(), TreeId::unique(2));
    assert_eq!(root.tree_id(), TreeId::unique(3));
    assert!(other.tree_id() < root.tree_id());
    root.add_child("a").info("hello");
    assert!(messages(&root)[0].time.nanos() > 0);
}

#[test]
fn children_are_numbered_in_order() {
    let root = tree();
    let first = root.add_child("first");
    let second = root.add_child_with_id("second", *b"SCND");
    first.add_child("first of first");
    second.add_child("first of second");
    second.add_child("second of second");
    let expected: Vec<Vec<u16>> =
        vec![vec![0], vec![0, 0], vec![1], vec![1, 0], vec![1, 1]];
    assert_eq!(paths(&root), expected);
    assert_eq!(entries(&root)[2].1.id, *b"SCND");
    assert_eq!(entries(&root)[0].1.id, UNKNOWN);
    assert_eq!(root.num_tasks(), 5);
}

#[test]
fn children_beyond_the_last_level_become_siblings() {
    let root = tree();
    let mut item = root.add_child("1");
    for name in ["2", "3", "4", "5", "6", "7"] {
        item = item.add_child(name);
    }
    let paths = paths(&root);
    assert_eq!(paths[5], vec![0, 0, 0, 0, 0, 0]);
    assert_eq!(paths[6], vec![0, 0, 0, 0, 0, 1]);
}

#[test]
fn handles_report_progress() {
    let root = tree();
    let item = root.add_child("item");
    assert!(entries(&root)[0].1.progress.is_none());
    item.set(3);
    item.inc();
    assert!(entries(&root)[0].1.progress.is_none());
    item.init(Some(5), Some(unit::label("bytes")));
    item.set(3);
    item.inc();
    item.inc_by(2);
    item.set_name("renamed");
    item.halted("lunch", Some(Timestamp::at(1, 0)));
    let (_, task) = &entries(&root)[0];
    assert_eq!(task.name, "renamed");
    let value = task.progress.as_ref().unwrap();
    assert_eq!((value.step, value.done_at), (6, Some(5)));
    assert_eq!(value.state, State::Halted("lunch".into(), Some(Timestamp::at(1, 0))));
    item.blocked("lock", None);
    let blocked = State::Blocked("lock".into(), None);
    assert_eq!(entries(&root)[0].1.progress.as_ref().unwrap().state, blocked);
    item.init(None, None);
    assert!(entries(&root)[0].1.progress.is_none());
}

#[test]
fn messages_carry_their_origin_level_and_time() {
    let clock = FixedClock::at(Timestamp::at(4, 0));
    let root = Options::default().create_with_tree_id(TREE, clock.clone());
    let item = root.add_child("origin");
    item.info("a");
    clock.advance(Duration::from_secs(1));
    item.fail("b");
    clock.set(Timestamp::at(9, 9));
    item.init(Some(1), None);
    item.done("c");
    let messages = messages(&root);
    let expected = [
        (Timestamp::at(4, 0), MessageLevel::Info, "a"),
        (Timestamp::at(5, 0), MessageLevel::Failure, "b"),
        (Timestamp::at(9, 9), MessageLevel::Success, "c"),
    ];
    assert_eq!(messages.len(), 3);
    for (message, (time, level, text)) in messages.iter().zip(expected) {
        assert_eq!(message.origin, "origin");
        assert_eq!((message.time, message.level), (time, level));
        assert_eq!(message.message, text);
    }
    assert!(item.is_terminal());
}

#[test]
fn old_messages_make_room_for_new_ones() {
    let root = small_tree(2);
    let item = root.add_child("item");
    for text in ["one", "two", "three"] {
        item.info(text);
    }
    assert_eq!(texts(&root), ["two", "three"]);
}

#[test]
fn completed_items_cannot_move() {
    let root = tree();
    let item = root.add_child("item");
    item.init(Some(5), None);
    item.set(4);
    assert!(!item.is_terminal());
    item.done("done");
    item.set(1);
    item.inc();
    item.running();
    item.init(Some(9), None);
    item.set_name("still named");
    let (_, task) = &entries(&root)[0];
    let value = task.progress.as_ref().unwrap();
    assert_eq!((value.step, value.done_at), (4, Some(5)));
    assert_eq!(value.state, State::Completed);
    assert_eq!(task.name, "still named");
}

#[test]
fn handles_leave_other_items_alone() {
    let root = tree();
    let left = root.add_child("left");
    let right = root.add_child("right");
    left.init(Some(5), None);
    right.init(Some(6), None);
    right.set(2);
    left.set(3);
    left.done("left done");
    assert_eq!(step(&root, 1), 2);
    assert!(!right.is_terminal());
    left.remove();
    assert_eq!(paths(&root), [[1]]);
}

#[test]
fn removed_items_do_not_give_their_number_back() {
    let root = tree();
    root.add_child("a").remove();
    assert_eq!(root.num_tasks(), 0);
    root.add_child("b");
    assert_eq!(paths(&root), [[1]]);
}

#[test]
fn deep_clones_are_independent() {
    let root = tree();
    let item = root.add_child("item");
    item.init(Some(5), None);
    item.set(1);
    item.info("before");
    let copy = root.deep_clone();
    item.set(2);
    item.info("after");
    root.add_child("another");
    assert_eq!(copy.tree_id(), TREE);
    assert_eq!(step(&copy, 0), 1);
    assert_eq!(texts(&copy), ["before"]);
    copy.add_child("of the copy");
    assert_eq!(paths(&copy), [[0], [1]]);
    assert_eq!(entries(&copy)[1].1.name, "of the copy");
    assert_eq!(entries(&root)[1].1.name, "another");
}

#[test]
fn restoring_supersedes_all_handles() {
    let root = tree();
    let item = root.add_child("item");
    item.init(Some(5), None);
    let taken = root.snapshot();
    assert!(item.is_attached());
    let restored = root.restore(&taken).unwrap();
    assert!(!item.is_attached());
    // The handles of the old tree, that of its root among them, change neither tree.
    item.set(4);
    item.fail("late");
    let orphan = root.add_child("orphan");
    assert!(!orphan.is_attached());
    orphan.remove();
    item.remove();
    assert_eq!(paths(&root), [[0]]);
    assert_eq!(step(&root, 0), 0);
    assert!(texts(&root).is_empty());
    assert_eq!(paths(&restored), [[0]]);
    assert_eq!(step(&restored, 0), 0);
    assert!(restored.add_child("new").is_attached());
}

#[test]
fn refused_restores_leave_handles_attached() {
    let root = tree();
    let item = root.add_child("item");
    let mut taken = root.snapshot();
    taken.tree_id[0] = 0;
    assert!(matches!(root.restore(&taken), Err(RestoreError::TreeIdMismatch { .. })));
    assert!(item.is_attached());
}

// Snapshots.

#[test]
fn snapshots_list_tasks_in_order_and_all_messages() {
    let root = small_tree(7);
    let first = root.add_child("first");
    root.add_child_with_id("second", *b"SCND");
    let below = first.add_child("below");
    below.init(Some(3), None);
    below.set(2);
    below.info("note");
    let taken = root.snapshot();
    assert_eq!(taken.version, 1);
    assert_eq!(taken.tree_id, TREE.0);
    assert_eq!(taken.message_buffer_capacity, 7);
    let names: Vec<_> = taken.tasks.iter().map(|task| task.name.as_str()).collect();
    assert_eq!(names, ["first", "below", "second"]);
    assert_eq!((taken.tasks[1].key.a, taken.tasks[1].key.b), (Some(0), Some(0)));
    assert_eq!(taken.tasks[2].id, *b"SCND");
    assert_eq!(taken.tasks[0].progress, None);
    let value = taken.tasks[1].progress.as_ref().unwrap();
    assert_eq!((value.step, value.done_at), (2, Some(3)));
    assert_eq!(value.state, StateSnapshot::Running);
    let expected = MessageSnapshot {
        secs: 0,
        nanos: 0,
        level: 0,
        origin: "below".into(),
        message: "note".into(),
    };
    assert_eq!(taken.messages, [expected]);
}

#[test]
fn restored_trees_have_the_same_snapshot() {
    let clock = FixedClock::at(Timestamp::at(3, 3));
    let root = Options::default().create_with_tree_id(TREE, clock);
    let item = root.add_child("item");
    item.init(Some(5), Some(unit::label("rows")));
    item.blocked("disk", Some(Timestamp::at(10, 20)));
    item.add_child_with_id("below", *b"BELO").fail("no");
    let taken = root.snapshot();
    let restored = root.restore(&taken).unwrap();
    assert_eq!(restored.snapshot(), taken);
    assert_eq!(entries(&restored), entries(&root));
    assert_eq!(messages(&restored), messages(&root));
}

#[test]
fn restored_trees_keep_the_clock() {
    let clock = FixedClock::epoch();
    let root = Options::default().create_with_tree_id(TREE, clock.clone());
    let restored = root.restore(&root.snapshot()).unwrap();
    clock.set(Timestamp::at(8, 0));
    restored.add_child("a").info("timed");
    assert_eq!(messages(&restored)[0].time, Timestamp::at(8, 0));
}

#[test]
fn units_rendered_by_code_are_dropped_on_the_way() {
    let root = tree();
    let item = root.add_child("item");
    item.init(None, Some(unit::dynamic(1)));
    item.halted("early", Some(Timestamp::of_reading(Err((0, 1)))));
    let restored = root.restore(&root.snapshot()).unwrap();
    let value = entries(&restored)[0].1.progress.clone().unwrap();
    assert_eq!(value.unit, None);
    assert_eq!(value.state, State::Halted("early".into(), None));
}

#[test]
fn of_several_tasks_at_one_position_the_last_is_restored() {
    let tasks = vec![
        task_snapshot(&[0], 5, StateSnapshot::Running),
        task_snapshot(&[0], 2, StateSnapshot::Completed),
    ];
    let restored = tree().restore(&snapshot(tasks)).unwrap();
    assert_eq!(step(&restored, 0), 2);
    assert_eq!(restored.num_tasks(), 1);
}

#[test]
fn merges_report_what_they_did() {
    let root = tree();
    root.add_child("resident").init(Some(1), None);
    let tasks = vec![
        task_snapshot(&[0], 5, StateSnapshot::Running),
        task_snapshot(&[0, 3], 2, StateSnapshot::Completed),
        task_snapshot(&[4], 1, StateSnapshot::Running),
    ];
    let mut incoming = snapshot(tasks);
    for (level, text) in [(0, "a"), (2, "b"), (0, "a"), (7, "odd")] {
        incoming.messages.push(MessageSnapshot {
            secs: 1,
            nanos: 2,
            level,
            origin: "o".into(),
            message: text.into(),
        });
    }
    let report = root.merge(&incoming).unwrap();
    let expected = MergeReport {
        tasks_inserted: 2,
        tasks_updated: 1,
        messages_appended: 2,
        messages_skipped: 1,
    };
    assert_eq!(report, expected);
    assert_eq!(paths(&root), [vec![0], vec![0, 3], vec![4]]);
    assert_eq!(entries(&root)[0].1.name, "resident");
    assert_eq!(step(&root, 0), 5);
    assert_eq!(texts(&root), ["a", "b"]);
}

#[test]
fn merged_steps_do_not_depend_on_the_order() {
    let low = snapshot(vec![task_snapshot(&[0], 3, StateSnapshot::Running)]);
    let high = snapshot(vec![task_snapshot(&[0], 8, StateSnapshot::Running)]);
    let (one, other) = (tree(), tree());
    one.merge(&low).unwrap();
    one.merge(&high).unwrap();
    other.merge(&high).unwrap();
    other.merge(&low).unwrap();
    assert_eq!(step(&one, 0), 8);
    assert_eq!(step(&other, 0), 8);
}

#[test]
fn merged_positions_bounds_and_completion_do_not_depend_on_the_order() {
    let bounded = |levels: &[u16], done_at, state| {
        let mut task = task_snapshot(levels, 1, state);
        task.progress.as_mut().unwrap().done_at = done_at;
        task
    };
    let first = snapshot(vec![
        bounded(&[0], Some(4), StateSnapshot::Completed),
        bounded(&[1], None, StateSnapshot::Running),
    ]);
    let second = snapshot(vec![
        bounded(&[0], Some(9), StateSnapshot::Running),
        bounded(&[1, 5], Some(2), StateSnapshot::Running),
    ]);
    let (one, other) = (tree(), tree());
    one.merge(&first).unwrap();
    one.merge(&second).unwrap();
    other.merge(&second).unwrap();
    other.merge(&first).unwrap();
    let summary = |root: &Root| -> Vec<_> {
        entries(root)
            .into_iter()
            .map(|(key, task)| {
                let value = task.progress.unwrap();
                (key, value.done_at, value.state == State::Completed)
            })
            .collect()
    };
    assert_eq!(summary(&one), summary(&other));
    assert_eq!(summary(&one)[0], (Key::from_levels(&[0]), Some(9), true));
    one.add_child("a");
    other.add_child("a");
    assert_eq!(paths(&one), paths(&other));
}

#[test]
fn interleaved_increments_and_merges_lose_nothing() {
    let root = tree();
    let item = root.add_child("race");
    item.init(None, None);
    item.init(Some(100), None);
    let high = snapshot(vec![task_snapshot(&[0], 10, StateSnapshot::Running)]);
    item.inc_by(3);
    root.merge(&high).unwrap();
    assert_eq!(step(&root, 0), 10);
    item.inc();
    root.merge(&high).unwrap();
    item.inc_by(4);
    root.merge(&high).unwrap();
    assert_eq!(step(&root, 0), 15);
}

#[test]
fn replays_leave_shared_trees_as_they_are() {
    let root = small_tree(2);
    root.add_child("origin").info("kept");
    let mut incoming = snapshot(vec![task_snapshot(&[3], 1, StateSnapshot::Running)]);
    for text in ["a", "b", "c"] {
        incoming.messages.push(MessageSnapshot {
            secs: 1,
            nanos: 0,
            level: 1,
            origin: "o".into(),
            message: text.into(),
        });
    }
    let first = root.merge(&incoming).unwrap();
    assert_eq!((first.messages_appended, first.messages_skipped), (2, 1));
    let once = root.snapshot();
    for _ in 0..3 {
        let again = root.merge(&incoming).unwrap();
        assert_eq!((again.tasks_inserted, again.tasks_updated), (0, 1));
        assert_eq!((again.messages_appended, again.messages_skipped), (0, 3));
        assert_eq!(root.snapshot(), once);
    }
    assert_eq!(texts(&root), ["b", "c"]);
}

#[test]
fn children_after_a_merge_are_past_the_snapshot() {
    let root = tree();
    let item = root.add_child("item");
    let tasks = vec![
        task_snapshot(&[0, 6], 1, StateSnapshot::Running),
        task_snapshot(&[2], 1, StateSnapshot::Running),
    ];
    root.merge(&snapshot(tasks)).unwrap();
    item.add_child("below");
    root.add_child("beside");
    assert_eq!(paths(&root), [vec![0], vec![0, 6], vec![0, 7], vec![2], vec![3]]);
}

#[test]
fn numbers_run_out_at_the_largest_one() {
    let root = tree();
    let tasks = vec![task_snapshot(&[u16::MAX], 1, StateSnapshot::Running)];
    root.merge(&snapshot(tasks)).unwrap();
    root.add_child("takes the place");
    assert_eq!(paths(&root), [[u16::MAX]]);
    assert_eq!(entries(&root)[0].1.name, "takes the place");
}

#[test]
fn merging_a_task_at_the_root_is_refused_when_it_is_met() {
    let root = tree();
    let tasks = vec![
        task_snapshot(&[5], 1, StateSnapshot::Running),
        task_snapshot(&[], 1, StateSnapshot::Running),
        task_snapshot(&[6], 1, StateSnapshot::Running),
    ];
    let error = root.merge(&snapshot(tasks)).unwrap_err();
    let context = "snapshot contains a task for the root key".to_owned();
    assert_eq!(error, MergeError::Malformed { context });
    assert_eq!(
        error.to_string(),
        "malformed snapshot: snapshot contains a task for the root key"
    );
    assert_eq!(paths(&root), [[5]]);
    root.add_child("counters are as before");
    assert_eq!(paths(&root), [[0], [5]]);
}

#[test]
fn refused_merges_change_nothing() {
    let root = tree();
    root.add_child("item");
    let before = root.snapshot();
    let good = snapshot(vec![task_snapshot(&[1], 1, StateSnapshot::Running)]);

    let mut versioned = good.clone();
    versioned.version = 0;
    let error = root.merge(&versioned).unwrap_err();
    assert_eq!(error, MergeError::UnsupportedVersion { version: 0, supported: 1 });
    assert_eq!(error.to_string(), "snapshot version 0 is not supported (only version 1)");

    let mut short = good.clone();
    short.tree_id.pop();
    let error = root.merge(&short).unwrap_err();
    assert_eq!(error.to_string(), "malformed snapshot: tree id must be 16 bytes, got 15");

    let mut foreign = good.clone();
    foreign.tree_id = vec![0xab; 16];
    let error = root.merge(&foreign).unwrap_err();
    assert_eq!(
        error.to_string(),
        "snapshot belongs to tree abababababababababababababababab but this tree is \
         30313233343536373839616263646566; refusing to merge"
    );
    let error = root.restore(&foreign).unwrap_err();
    assert_eq!(
        error.to_string(),
        "snapshot belongs to tree abababababababababababababababab but this tree is \
         30313233343536373839616263646566; refusing to restore"
    );

    assert_eq!(root.snapshot(), before);
}

#[test]
fn errors_convert_without_loss() {
    let context = "why".to_owned();
    assert_eq!(
        MergeError::from(RestoreError::Malformed { context: context.clone() }),
        MergeError::Malformed { context }
    );
    assert_eq!(
        MergeError::from(RestoreError::UnsupportedVersion { version: 3, supported: 1 }),
        MergeError::UnsupportedVersion { version: 3, supported: 1 }
    );
    assert_eq!(
        MergeError::from(RestoreError::TreeIdMismatch {
            snapshot: "a".into(),
            current: "b".into()
        }),
        MergeError::TreeIdMismatch { snapshot: "a".into(), current: "b".into() }
    );
}

// Trees that are not shared.

#[test]
fn owned_trees_merge_and_restore_alike() {
    let mut owned = Shared::with_capacity(4, 5, TREE);
    let root = Key::from_levels(&[]);
    let added = owned.add_child(&root, 0, "a".into(), UNKNOWN).unwrap();
    owned.init(&added, 0, Some(3), None);
    owned.set(&added, 0, 2);
    let taken = owned.snapshot();
    assert_eq!(owned.merge(&taken).unwrap().tasks_updated, 1);
    assert_eq!(owned.snapshot(), taken);
    let restored = Shared::from_snapshot(&taken);
    assert_eq!(restored.sorted_entries(), owned.sorted_entries());
    assert_eq!(restored.messages_capacity(), 5);
    let mut foreign = taken.clone();
    foreign.tree_id[0] = 0;
    assert!(matches!(owned.restore(&foreign), Err(RestoreError::TreeIdMismatch { .. })));
    assert!(owned.is_attached(0));
    let continued = owned.restore(&taken).unwrap();
    assert_eq!(continued.sorted_entries(), owned.sorted_entries());
    assert!(continued.is_attached(0));
    assert!(!owned.is_attached(0));
    owned.set(&added, 0, 1);
    assert_eq!(owned.snapshot(), taken);
    assert_eq!(continued.snapshot(), taken);
    assert_eq!(owned.add_child(&root, 0, "b".into(), UNKNOWN), None);
    assert_eq!(owned.num_tasks(), 1);
    owned.supersede();
    assert!(!owned.is_attached(1));
    let mut copy = owned.duplicate();
    assert!(copy.is_attached(0));
    copy.remove(&added, 0);
    assert_eq!((copy.num_tasks(), owned.num_tasks()), (0, 1));
}

#[test]
fn merges_that_are_refused_midway_are_remembered() {
    let mut owned = Shared::with_capacity(4, 5, TREE);
    let at_once = snapshot(vec![task_snapshot(&[], 1, StateSnapshot::Running)]);
    assert!(owned.merge(&at_once).is_err());
    assert!(!owned.was_interrupted());
    let midway = snapshot(vec![
        task_snapshot(&[0], 1, StateSnapshot::Running),
        task_snapshot(&[], 1, StateSnapshot::Running),
    ]);
    assert!(owned.merge(&midway).is_err());
    assert!(owned.was_interrupted());
    // The child numbers take no account of the task that was folded in.
    let added = owned.add_child(&Key::from_levels(&[]), 0, "a".into(), UNKNOWN);
    assert_eq!(added, Some(Key::from_levels(&[0])));
}
