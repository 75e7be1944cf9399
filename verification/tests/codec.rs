//! Snapshot encoding and decoding, and rejection of malformed input.

use prodash_tree::messages::{Message, MessageLevel, MessageRingBuffer};
use prodash_tree::progress::{Key, State, Task, Value, UNKNOWN};
use prodash_tree::time::Timestamp;
use prodash_tree::tree::snapshot::error::MergeReport;
use prodash_tree::tree::snapshot::model::{
    KeySnapshot, MessageSnapshot, ModeSnapshot, Snapshot, StateSnapshot, TaskSnapshot,
    UnitSnapshot, ValueSnapshot, SNAPSHOT_VERSION,
};
use prodash_tree::tree::snapshot::transfer::{merge_messages, next_child_id};
use prodash_tree::tree::snapshot::{
    decode_eta, decode_id, decode_key, decode_level, decode_state, decode_time, decode_unit,
    encode_eta, encode_key, encode_state, encode_time, encode_unit, fold_existing_task, hex_id,
    is_valid_id, merge_value, parent_key, RestoreError,
};
use prodash_tree::unit;
use prodash_tree::unit::{Location, Mode};

#[test]
fn key_codec_round_trips_all_levels() {
    for levels in [
        vec![],
        vec![0],
        vec![1, 7],
        vec![3, 4, 5, 6],
        vec![9, 8, 7, 6, 5],
        vec![1, 2, 3, 4, 5, 6],
    ] {
        let key = Key::from_levels(&levels);
        let encoded = encode_key(key);
        let decoded = decode_key(&encoded).expect("dense path decodes");
        assert_eq!(key, decoded);
        assert_eq!(key.levels(), levels);
    }
}

#[test]
fn decode_rejects_key_paths_with_holes() {
    let hole = KeySnapshot { a: None, b: Some(1), c: None, d: None, e: None, f: None };
    assert!(decode_key(&hole).is_none());
}

#[test]
fn state_codec_round_trips() {
    let eta = Some(Timestamp::at(42, 7));
    for state in [
        State::Running,
        State::Blocked("waiting".into(), eta),
        State::Halted("paused".into(), None),
        State::Completed,
    ] {
        let encoded = encode_state(&state);
        let decoded = decode_state(&encoded).unwrap();
        assert_eq!(state, decoded);
    }
}

#[test]
fn static_unit_codec_round_trips() {
    let unit = unit::label_and_mode("files", Mode::with_percentage().and_throughput());
    let encoded = encode_unit(&Some(unit));
    let decoded = decode_unit(&encoded).expect("static units decode");
    let encoded_again = encode_unit(&Some(decoded));
    assert_eq!(encoded, encoded_again);
}

#[test]
fn dynamic_units_are_omitted_from_snapshots() {
    let dynamic = unit::dynamic(7);
    assert!(encode_unit(&Some(dynamic)).is_none());
}

#[test]
fn merge_value_takes_max_step_without_reordering_terminal_state() {
    let mut current = Value { step: 5, done_at: Some(10), unit: None, state: State::Running };

    merge_value(
        &mut current,
        &ValueSnapshot {
            step: 3,
            done_at: Some(10),
            state: StateSnapshot::Running,
            unit: None,
        },
    );
    assert_eq!(current.step, 5);

    merge_value(
        &mut current,
        &ValueSnapshot {
            step: 9,
            done_at: Some(10),
            state: StateSnapshot::Completed,
            unit: None,
        },
    );
    assert_eq!(current.step, 9);
    assert_eq!(current.state, State::Completed);

    // A stale running snapshot cannot reopen the completed item.
    merge_value(
        &mut current,
        &ValueSnapshot {
            step: 4,
            done_at: Some(10),
            state: StateSnapshot::Running,
            unit: None,
        },
    );
    assert_eq!(current.state, State::Completed);
    assert_eq!(current.step, 9);
}

#[test]
fn message_merge_is_deduplicating_by_full_content() {
    let mut buffer = MessageRingBuffer::with_capacity(4);
    let mut snapshot = Snapshot {
        version: SNAPSHOT_VERSION,
        tree_id: vec![0u8; 16],
        message_buffer_capacity: 4,
        tasks: Vec::new(),
        messages: Vec::new(),
    };
    for index in 0..3 {
        snapshot.messages.push(MessageSnapshot {
            secs: index,
            nanos: 0,
            level: 0,
            origin: "task".into(),
            message: format!("m{index}"),
        });
    }

    let mut report = MergeReport::default();
    merge_messages(&mut buffer, &snapshot, &mut report);
    assert_eq!(report.messages_appended, 3);
    assert_eq!(report.messages_skipped, 0);

    let mut report = MergeReport::default();
    merge_messages(&mut buffer, &snapshot, &mut report);
    assert_eq!(report.messages_appended, 0);
    assert_eq!(report.messages_skipped, 3);
}

fn message(secs: u64, text: &str) -> MessageSnapshot {
    MessageSnapshot { secs, nanos: 0, level: 0, origin: "o".into(), message: text.into() }
}

fn task(levels: &[u16]) -> TaskSnapshot {
    TaskSnapshot {
        key: encode_key(Key::from_levels(levels)),
        name: "t".into(),
        id: vec![0, 0, 0, 0],
        progress: None,
    }
}

fn snapshot_of(tasks: Vec<TaskSnapshot>, messages: Vec<MessageSnapshot>) -> Snapshot {
    Snapshot {
        version: SNAPSHOT_VERSION,
        tree_id: vec![7u8; 16],
        message_buffer_capacity: 3,
        tasks,
        messages,
    }
}

#[test]
fn keys_are_encoded_level_by_level() {
    let encoded = encode_key(Key::from_levels(&[3, 4, 5]));
    let expected =
        KeySnapshot { a: Some(3), b: Some(4), c: Some(5), d: None, e: None, f: None };
    assert_eq!(encoded, expected);
    assert_eq!(decode_key(&KeySnapshot::default()), Some(Key::from_levels(&[])));
    let late_hole =
        KeySnapshot { a: Some(3), b: Some(4), c: None, d: None, e: None, f: Some(0) };
    assert!(decode_key(&late_hole).is_none());
}

#[test]
fn parents_are_one_level_up() {
    assert_eq!(parent_key(&Key::from_levels(&[1, 2, 3])), Some(Key::from_levels(&[1, 2])));
    assert_eq!(parent_key(&Key::from_levels(&[1])), Some(Key::from_levels(&[])));
    assert_eq!(parent_key(&Key::from_levels(&[])), None);
    let deep = Key::from_levels(&[1, 2, 3, 4, 5, 6]);
    assert_eq!(parent_key(&deep), Some(Key::from_levels(&[1, 2, 3, 4, 5])));
}

#[test]
fn ids_are_cut_and_filled_up_to_four_bytes() {
    assert_eq!(decode_id(b"CHLD"), *b"CHLD");
    assert_eq!(decode_id(b"AB"), [65, 66, 0, 0]);
    assert_eq!(decode_id(b"ABCDEF"), *b"ABCD");
    assert_eq!(decode_id(b""), UNKNOWN);
    assert!(is_valid_id(b"CHLD"));
    assert!(!is_valid_id(b"CHL"));
    assert!(!is_valid_id(b"CHILD"));
    assert!(!is_valid_id(&[0, 0, 0, 0]));
    assert!(is_valid_id(&[0, 0, 0, 1]));
}

#[test]
fn ids_are_shown_in_hexadecimal() {
    assert_eq!(hex_id(&[0x00, 0x0f, 0xa0, 0xff]), "000fa0ff");
    assert_eq!(hex_id(&[]), "");
}

#[test]
fn etas_count_from_the_epoch() {
    assert_eq!(encode_eta(Some(Timestamp::at(42, 7))), (Some(42), 7));
    assert_eq!(encode_eta(None), (None, 0));
    // Points before the epoch cannot be counted and are left out.
    assert_eq!(encode_eta(Some(Timestamp::of_reading(Err((0, 1))))), (None, 0));
    assert_eq!(decode_eta(Some(2), 3), Some(Timestamp::at(2, 3)));
    assert_eq!(decode_eta(None, 3), None);
    // A second's worth of nanoseconds is carried over.
    assert_eq!(decode_eta(Some(1), 1_500_000_000), Some(Timestamp::at(2, 500_000_000)));
}

#[test]
fn message_times_count_from_the_epoch() {
    let encoded = encode_time(Timestamp::at(12, 34));
    assert_eq!((encoded.secs, encoded.nanos, encoded.level), (12, 34, 0));
    assert_eq!((encoded.origin.as_str(), encoded.message.as_str()), ("", ""));
    let early = encode_time(Timestamp::of_reading(Err((0, 5))));
    assert_eq!((early.secs, early.nanos), (0, 0));
    assert_eq!(decode_time(&encoded), Some(Timestamp::at(12, 34)));
}

#[test]
fn levels_have_fixed_numbers() {
    assert_eq!(decode_level(0), Some(MessageLevel::Info));
    assert_eq!(decode_level(1), Some(MessageLevel::Failure));
    assert_eq!(decode_level(2), Some(MessageLevel::Success));
    assert_eq!(decode_level(3), None);
}

#[test]
fn states_are_encoded_with_their_reasons() {
    let blocked = encode_state(&State::Blocked("lock".into(), Some(Timestamp::at(1, 2))));
    let expected =
        StateSnapshot::Blocked { reason: "lock".into(), eta_secs: Some(1), eta_nanos: 2 };
    assert_eq!(blocked, expected);
    let halted = encode_state(&State::Halted("pause".into(), None));
    let expected = StateSnapshot::Halted { reason: "pause".into(), eta_secs: None, eta_nanos: 0 };
    assert_eq!(halted, expected);
}

#[test]
fn units_are_encoded_with_their_modes() {
    assert_eq!(encode_unit(&None), None);
    let plain = encode_unit(&Some(unit::label("items")));
    assert_eq!(plain, Some(UnitSnapshot { label: "items".into(), mode: None }));
    let shown = unit::label_and_mode("files", Mode::with_percentage().and_throughput());
    let expected = UnitSnapshot {
        label: "files".into(),
        mode: Some(ModeSnapshot { location: 1, percent: true, throughput: true }),
    };
    assert_eq!(encode_unit(&Some(shown)), Some(expected));
    // Unknown locations are read as the one behind the unit.
    let odd = UnitSnapshot {
        label: "files".into(),
        mode: Some(ModeSnapshot { location: 9, percent: false, throughput: true }),
    };
    let decoded = decode_unit(&Some(odd)).unwrap();
    assert_eq!(decoded.mode(), Some(Mode::from_parts(Location::AfterUnit, false, true)));
    assert_eq!(decoded.label_str().unwrap(), "files");
}

#[test]
fn bounds_only_grow() {
    let bound = |done_at| ValueSnapshot {
        step: 0,
        done_at,
        state: StateSnapshot::Running,
        unit: None,
    };
    let mut value = Value { step: 0, done_at: None, unit: None, state: State::Running };
    merge_value(&mut value, &bound(Some(5)));
    assert_eq!(value.done_at, Some(5));
    merge_value(&mut value, &bound(Some(3)));
    assert_eq!(value.done_at, Some(5));
    merge_value(&mut value, &bound(None));
    assert_eq!(value.done_at, Some(5));
    merge_value(&mut value, &bound(Some(8)));
    assert_eq!(value.done_at, Some(8));
}

#[test]
fn merged_values_take_the_freshest_state_and_keep_their_unit() {
    let mut value = Value {
        step: 2,
        done_at: None,
        unit: Some(unit::label("old")),
        state: State::Running,
    };
    let incoming = ValueSnapshot {
        step: 2,
        done_at: None,
        state: StateSnapshot::Halted { reason: "why".into(), eta_secs: None, eta_nanos: 0 },
        unit: Some(UnitSnapshot { label: "new".into(), mode: None }),
    };
    merge_value(&mut value, &incoming);
    assert_eq!(value.state, State::Halted("why".into(), None));
    assert_eq!(value.unit.unwrap().label_str().unwrap(), "old");
}

#[test]
fn folding_fills_in_what_is_missing() {
    let mut existing = Task { name: String::new(), id: UNKNOWN, progress: None };
    let incoming = TaskSnapshot {
        key: KeySnapshot::default(),
        name: "named".into(),
        id: b"IDNT".to_vec(),
        progress: Some(ValueSnapshot {
            step: 3,
            done_at: Some(4),
            state: StateSnapshot::Running,
            unit: None,
        }),
    };
    fold_existing_task(&mut existing, &incoming);
    assert_eq!(existing.name, "named");
    assert_eq!(existing.id, *b"IDNT");
    let progress = existing.progress.clone().unwrap();
    assert_eq!((progress.step, progress.done_at), (3, Some(4)));

    let mut renamed = incoming.clone();
    renamed.name = "other".into();
    renamed.id = b"OTHR".to_vec();
    renamed.progress = None;
    fold_existing_task(&mut existing, &renamed);
    assert_eq!(existing.name, "named");
    assert_eq!(existing.id, *b"IDNT");
    assert!(existing.progress.is_some());
}

#[test]
fn next_child_numbers_are_past_the_largest_one() {
    let tasks = vec![task(&[0]), task(&[4]), task(&[4, 9]), task(&[2])];
    let snapshot = snapshot_of(tasks, Vec::new());
    assert_eq!(next_child_id(&snapshot, &Key::from_levels(&[])), 5);
    assert_eq!(next_child_id(&snapshot, &Key::from_levels(&[4])), 10);
    assert_eq!(next_child_id(&snapshot, &Key::from_levels(&[0])), 0);
    let full = snapshot_of(vec![task(&[u16::MAX])], Vec::new());
    assert_eq!(next_child_id(&full, &Key::from_levels(&[])), u16::MAX);
}

#[test]
fn messages_of_unknown_severity_are_passed_over() {
    let mut buffer = MessageRingBuffer::with_capacity(4);
    let mut odd = message(1, "odd");
    odd.level = 3;
    let snapshot = snapshot_of(Vec::new(), vec![odd, message(2, "even")]);
    let mut report = MergeReport::default();
    merge_messages(&mut buffer, &snapshot, &mut report);
    assert_eq!((report.messages_appended, report.messages_skipped), (1, 0));
    let mut out = Vec::new();
    buffer.copy_all(&mut out);
    assert_eq!(out.len(), 1);
    assert_eq!(out[0].message, "even");
    assert_eq!(out[0].time, Timestamp::at(2, 0));
}

fn filled(capacity: usize, messages: &[(u64, &str)]) -> MessageRingBuffer {
    let mut buffer = MessageRingBuffer::with_capacity(capacity);
    for (secs, text) in messages {
        buffer.push_overwrite_at(
            Timestamp::at(*secs, 0),
            MessageLevel::Info,
            "o".into(),
            (*text).into(),
        );
    }
    buffer
}

fn texts(buffer: &MessageRingBuffer) -> Vec<String> {
    let mut out = Vec::new();
    buffer.copy_all(&mut out);
    out.into_iter().map(|m| m.message).collect()
}

fn merged(buffer: &mut MessageRingBuffer, incoming: &[(u64, &str)]) -> (usize, usize) {
    let incoming = incoming.iter().map(|(secs, text)| message(*secs, text)).collect();
    let mut report = MergeReport::default();
    merge_messages(buffer, &snapshot_of(Vec::new(), incoming), &mut report);
    (report.messages_appended, report.messages_skipped)
}

#[test]
fn wanted_messages_are_kept_when_others_give_way() {
    let mut buffer = filled(3, &[(3, "c"), (8, "x"), (9, "y")]);
    let incoming = [(3, "c"), (1, "a"), (2, "b")];
    assert_eq!(merged(&mut buffer, &incoming), (2, 1));
    assert_eq!(texts(&buffer), ["c", "a", "b"]);
    assert_eq!(merged(&mut buffer, &incoming), (0, 3));
    assert_eq!(texts(&buffer), ["c", "a", "b"]);
}

#[test]
fn replays_without_room_for_all_messages_change_nothing() {
    let mut buffer = filled(2, &[(2, "b")]);
    let incoming = [(1, "a"), (2, "b"), (3, "c")];
    assert_eq!(merged(&mut buffer, &incoming), (1, 2));
    assert_eq!(texts(&buffer), ["b", "c"]);
    assert_eq!(merged(&mut buffer, &incoming), (0, 3));
    assert_eq!(texts(&buffer), ["b", "c"]);

    // More messages than fit: the last ones are retained.
    let mut buffer = filled(2, &[(9, "x"), (9, "y")]);
    let incoming = [(1, "a"), (2, "b"), (3, "c"), (4, "d")];
    assert_eq!(merged(&mut buffer, &incoming), (2, 2));
    assert_eq!(texts(&buffer), ["c", "d"]);
    assert_eq!(merged(&mut buffer, &incoming), (0, 4));
    assert_eq!(texts(&buffer), ["c", "d"]);
}

#[test]
fn of_messages_that_come_again_the_older_one_gives_way() {
    let mut buffer = filled(3, &[(2, "b"), (1, "a"), (2, "b")]);
    let incoming = [(1, "a"), (2, "b"), (3, "c"), (2, "b")];
    assert_eq!(merged(&mut buffer, &incoming), (1, 3));
    assert_eq!(texts(&buffer), ["a", "b", "c"]);
    assert_eq!(merged(&mut buffer, &incoming), (0, 4));
    assert_eq!(texts(&buffer), ["a", "b", "c"]);
}

#[test]
fn unseen_messages_push_out_the_oldest() {
    let mut buffer = filled(3, &[(7, "x"), (8, "y"), (9, "z")]);
    assert_eq!(merged(&mut buffer, &[(1, "a"), (2, "b")]), (2, 0));
    assert_eq!(texts(&buffer), ["z", "a", "b"]);
    let mut none = filled(0, &[]);
    assert_eq!(merged(&mut none, &[(1, "a")]), (0, 1));
    assert!(texts(&none).is_empty());
}

#[test]
fn buffers_retain_the_last_messages() {
    let mut buffer = MessageRingBuffer::with_capacity(2);
    for text in ["one", "two", "three"] {
        buffer.push_overwrite_at(
            Timestamp::epoch(),
            MessageLevel::Success,
            "o".into(),
            text.into(),
        );
    }
    assert_eq!(buffer.capacity(), 2);
    let mut out = vec![Message {
        time: Timestamp::epoch(),
        level: MessageLevel::Info,
        origin: String::new(),
        message: "replaced".into(),
    }];
    buffer.copy_all(&mut out);
    let texts: Vec<_> = out.iter().map(|m| m.message.as_str()).collect();
    assert_eq!(texts, ["two", "three"]);
    assert!(buffer.contains(&out[0]));
    let mut later = out[0].clone();
    later.time = Timestamp::at(1, 0);
    assert!(!buffer.contains(&later));
}

#[test]
fn validation_names_what_is_wrong() {
    let good = snapshot_of(vec![task(&[0])], Vec::new());
    assert_eq!(good.validate(), Ok(()));

    let mut versioned = good.clone();
    versioned.version = 2;
    let error = versioned.validate().unwrap_err();
    assert_eq!(error, RestoreError::UnsupportedVersion { version: 2, supported: 1 });
    assert_eq!(error.to_string(), "snapshot version 2 is not supported (only version 1)");

    let mut short = good.clone();
    short.tree_id = vec![1, 2, 3];
    let error = short.validate().unwrap_err();
    assert_eq!(error.to_string(), "malformed snapshot: tree id must be 16 bytes, got 3");

    let mut unnamed = good.clone();
    unnamed.tasks[0].id = vec![1];
    let error = unnamed.validate().unwrap_err();
    let key = format!("{:?}", unnamed.tasks[0].key);
    let expected = format!("malformed snapshot: task {key} id must be 4 bytes, got 1");
    assert_eq!(error.to_string(), expected);

    let mut hollow = good.clone();
    hollow.tasks[0].key.a = None;
    hollow.tasks[0].key.b = Some(3);
    let error = hollow.validate().unwrap_err();
    let key = format!("{:?}", hollow.tasks[0].key);
    let expected = format!("malformed snapshot: task key {key} has a hole in its hierarchy path");
    assert_eq!(error.to_string(), expected);
}
