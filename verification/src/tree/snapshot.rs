//! Restorable snapshots of the progress tree, and monotonic merging.
//!
//! A [`model::Snapshot`] captures every task of a tree (names, stable ids, steps, bounds, units
//! and lifecycle state) together with the still-retained messages. Snapshots serve three purposes:
//!
//! * [`Root::snapshot`](super::Root::snapshot) captures an interrupted computation so another
//!   process can pick it up later.
//! * [`Root::restore`](super::Root::restore) continues displaying progress from a snapshot; every
//!   handle of the previous tree is invalidated and can no longer mutate the restored tree.
//! * [`Root::merge`](super::Root::merge) monotonically folds a snapshot into a live tree: step
//!   counters only move forward, terminal states are sticky, and snapshots of other trees are
//!   rejected to prevent id collisions between unrelated progress trees.

use vstd::prelude::*;

use crate::messages::{Message, MessageLevel};
use crate::progress::{Id, Key, State, Task, Value, UNKNOWN};
use crate::text;
use crate::time::Timestamp;
use crate::unit::{Kind, Location, Mode, Unit};

pub mod captured;
pub mod clock;
pub mod error;
pub mod folded;
pub mod interleaving;
pub mod laws;
pub mod model;
pub mod performed;
pub mod persist;
pub mod refusals;
pub mod replayed;
pub mod round_trip;
pub mod stored;
pub mod ticking;
pub mod transfer;

pub use clock::FixedClock;
pub use error::{MergeError, MergeReport, RestoreError};
pub use model::Snapshot as SnapshotData;

use model::{
    KeySnapshot, MessageSnapshot, ModeSnapshot, StateSnapshot, TaskRecord, TaskSnapshot,
    UnitSnapshot, ValueSnapshot,
};

verus! {

// Positions and ids.

/// The snapshot of a position.
pub fn encode_key(key: Key) -> (res: KeySnapshot)
    ensures
        res == KeySnapshot::of_position(key),
{
    let c = key.components();
    KeySnapshot { a: c[0], b: c[1], c: c[2], d: c[3], e: c[4], f: c[5] }
}

/// The position that a snapshot of it describes, unless its path has a hole.
pub fn decode_key(key: &KeySnapshot) -> (res: Option<Key>)
    ensures
        res == key.position(),
        res is None <==> key.has_hole(),
{
    proof {
        model::position_meaning(*key);
    }
    let c = [key.a, key.b, key.c, key.d, key.e, key.f];
    let res = Key::from_components(c);
    proof {
        assert forall|i: int| 0 <= i < 6 implies c@[i] == key.component(i) by {}
        if let Some(found) = res {
            assert(c@[0] == found.component(0));
            assert(c@[1] == found.component(1));
            assert(c@[2] == found.component(2));
            assert(c@[3] == found.component(3));
            assert(c@[4] == found.component(4));
            assert(c@[5] == found.component(5));
            assert(KeySnapshot::of_position(found) == *key);
            model::position_round_trips(found);
        }
    }
    res
}

/// The `i`th of `bytes`, or 0 past their end.
pub open spec fn byte_or_zero(bytes: Seq<u8>, i: int) -> u8 {
    if i < bytes.len() {
        bytes[i]
    } else {
        0
    }
}

/// The first four of `bytes`, with zeros in place of missing ones.
pub open spec fn id_of(bytes: Seq<u8>) -> Id {
    [
        byte_or_zero(bytes, 0),
        byte_or_zero(bytes, 1),
        byte_or_zero(bytes, 2),
        byte_or_zero(bytes, 3),
    ]
}

/// The task id that `id` spells. Missing bytes are zero, and those past the fourth are ignored.
pub fn decode_id(id: &[u8]) -> (res: Id)
    ensures
        res == id_of(id@),
{
    let mut out: Id = UNKNOWN;
    let mut i: usize = 0;
    while i < 4 && i < id.len()
        invariant
            i <= 4,
            i <= id@.len(),
            forall|j: int| 0 <= j < i ==> #[trigger] out@[j] == id@[j],
            forall|j: int| i <= j < 4 ==> #[trigger] out@[j] == 0,
        decreases 4 - i,
    {
        out[i] = id[i];
        i += 1;
    }
    assert forall|j: int| 0 <= j < 4 implies out@[j] == id_of(id@)@[j] by {}
    assert(out =~= id_of(id@));
    out
}

/// Whether `bytes` are a task id other than the unknown one.
pub open spec fn valid_id(bytes: Seq<u8>) -> bool {
    bytes.len() == 4 && bytes != UNKNOWN@
}

/// Whether `id` is a task id other than the unknown one.
pub fn is_valid_id(id: &[u8]) -> (res: bool)
    ensures
        res == valid_id(id@),
{
    let res = id.len() == 4 && !(id[0] == 0 && id[1] == 0 && id[2] == 0 && id[3] == 0);
    proof {
        if id@.len() == 4 {
            if id@[0] == 0 && id@[1] == 0 && id@[2] == 0 && id@[3] == 0 {
                assert(id@ =~= UNKNOWN@);
            } else {
                assert(UNKNOWN@[0] == 0 && UNKNOWN@[1] == 0 && UNKNOWN@[2] == 0 && UNKNOWN@[3] == 0);
            }
        }
    }
    res
}

/// The position one level up; the root has none.
pub fn parent_key(key: &Key) -> (res: Option<Key>)
    ensures
        res == key.spec_parent(),
{
    let mut components = key.components();
    let level = key.level();
    if level < 1 {
        return None;
    }
    components[level as usize - 1] = None;
    let res = Key::from_components(components);
    proof {
        assert forall|i: int| #![trigger components@[i]] 0 <= i < 6 implies components@[i] == (if i
            < key@.len() - 1 {
            Some(key@[i])
        } else {
            None
        }) by {}
        if let Some(found) = res {
            assert forall|i: int| 0 <= i < 6 implies found.component(i) == components@[i] by {}
            assert(found@.len() == key@.len() - 1) by {
                assert(components@[key@.len() - 1] is None);
                if key@.len() >= 2 {
                    assert(components@[key@.len() - 2] is Some);
                }
                if found@.len() > key@.len() - 1 {
                    assert(found.component(key@.len() - 1) is Some);
                }
                if found@.len() < key@.len() - 1 {
                    assert(found.component(key@.len() - 2) is None);
                }
            }
            assert(found@ =~= key@.drop_last()) by {
                assert forall|i: int| 0 <= i < found@.len() implies found@[i] == key@[i] by {
                    assert(found.component(i) == components@[i]);
                }
            }
            crate::progress::key::key_is_its_path(found);
        }
    }
    res
}

// States.

/// The parts that a point in time, where known, is stored as.
pub open spec fn eta_parts(eta: Option<Timestamp>) -> (Option<u64>, u32) {
    match eta {
        Some(time) => match time.spec_since_epoch() {
            Some((secs, nanos)) => (Some(secs), nanos),
            None => (None, 0),
        },
        None => (None, 0),
    }
}

/// The point in time that was stored as these parts.
pub open spec fn eta_of(secs: Option<u64>, nanos: u32) -> Option<Timestamp> {
    match secs {
        Some(secs) => Some(Timestamp::spec_at(secs, nanos)),
        None => None,
    }
}

/// The seconds and nanoseconds since the epoch. A time before it counts as not known.
pub fn encode_eta(eta: Option<Timestamp>) -> (res: (Option<u64>, u32))
    ensures
        res == eta_parts(eta),
{
    match eta {
        Some(time) => match time.since_epoch() {
            Some((secs, nanos)) => (Some(secs), nanos),
            None => (None, 0),
        },
        None => (None, 0),
    }
}

/// The time that many seconds and nanoseconds after the epoch.
pub fn decode_eta(secs: Option<u64>, nanos: u32) -> (res: Option<Timestamp>)
    ensures
        res == eta_of(secs, nanos),
{
    match secs {
        Some(secs) => Some(Timestamp::at(secs, nanos)),
        None => None,
    }
}

/// The snapshot of a state.
pub open spec fn state_snapshot_of(state: State) -> StateSnapshot {
    match state {
        State::Running => StateSnapshot::Running,
        State::Blocked(reason, eta) => StateSnapshot::Blocked {
            reason,
            eta_secs: eta_parts(eta).0,
            eta_nanos: eta_parts(eta).1,
        },
        State::Halted(reason, eta) => StateSnapshot::Halted {
            reason,
            eta_secs: eta_parts(eta).0,
            eta_nanos: eta_parts(eta).1,
        },
        State::Completed => StateSnapshot::Completed,
    }
}

/// The state that a snapshot of it describes.
pub open spec fn state_of(state: StateSnapshot) -> State {
    match state {
        StateSnapshot::Running => State::Running,
        StateSnapshot::Blocked { reason, eta_secs, eta_nanos } => State::Blocked(
            reason,
            eta_of(eta_secs, eta_nanos),
        ),
        StateSnapshot::Halted { reason, eta_secs, eta_nanos } => State::Halted(
            reason,
            eta_of(eta_secs, eta_nanos),
        ),
        StateSnapshot::Completed => State::Completed,
    }
}

/// The snapshot of a state.
pub fn encode_state(state: &State) -> (res: StateSnapshot)
    ensures
        res == state_snapshot_of(*state),
{
    match state {
        State::Running => StateSnapshot::Running,
        State::Blocked(reason, eta) => {
            let (eta_secs, eta_nanos) = encode_eta(*eta);
            StateSnapshot::Blocked { reason: reason.clone(), eta_secs, eta_nanos }
        },
        State::Halted(reason, eta) => {
            let (eta_secs, eta_nanos) = encode_eta(*eta);
            StateSnapshot::Halted { reason: reason.clone(), eta_secs, eta_nanos }
        },
        State::Completed => StateSnapshot::Completed,
    }
}

/// The state that a snapshot of it describes; there always is one.
pub fn decode_state(state: &StateSnapshot) -> (res: Option<State>)
    ensures
        res == Some(state_of(*state)),
{
    Some(
        match state {
            StateSnapshot::Running => State::Running,
            StateSnapshot::Blocked { reason, eta_secs, eta_nanos } => State::Blocked(
                reason.clone(),
                decode_eta(*eta_secs, *eta_nanos),
            ),
            StateSnapshot::Halted { reason, eta_secs, eta_nanos } => State::Halted(
                reason.clone(),
                decode_eta(*eta_secs, *eta_nanos),
            ),
            StateSnapshot::Completed => State::Completed,
        },
    )
}

// Units.

/// The snapshot of a display mode.
pub open spec fn mode_snapshot_of(mode: Mode) -> ModeSnapshot {
    ModeSnapshot {
        location: match mode.location {
            Location::BeforeValue => 0,
            Location::AfterUnit => 1,
        },
        percent: mode.percent,
        throughput: mode.throughput,
    }
}

/// The display mode that a snapshot of it describes.
pub open spec fn mode_of(mode: ModeSnapshot) -> Mode {
    Mode {
        location: if mode.location == 0 {
            Location::BeforeValue
        } else {
            Location::AfterUnit
        },
        percent: mode.percent,
        throughput: mode.throughput,
    }
}

/// The snapshot of a unit. A unit that is rendered by code has none.
pub open spec fn unit_snapshot_of(unit: Option<Unit>) -> Option<UnitSnapshot> {
    match unit {
        Some(Unit { kind: Kind::Label(label), mode }) => Some(
            UnitSnapshot {
                label,
                mode: match mode {
                    Some(mode) => Some(mode_snapshot_of(mode)),
                    None => None,
                },
            },
        ),
        _ => None,
    }
}

/// The unit that a snapshot of it describes.
pub open spec fn unit_of(unit: Option<UnitSnapshot>) -> Option<Unit> {
    match unit {
        Some(unit) => Some(
            Unit {
                kind: Kind::Label(unit.label),
                mode: match unit.mode {
                    Some(mode) => Some(mode_of(mode)),
                    None => None,
                },
            },
        ),
        None => None,
    }
}

/// The snapshot of a unit. A unit that is rendered by code has none.
pub fn encode_unit(unit: &Option<Unit>) -> (res: Option<UnitSnapshot>)
    ensures
        res == unit_snapshot_of(*unit),
{
    let unit = match unit {
        Some(unit) => unit,
        None => return None,
    };
    let label = match unit.label_str() {
        Some(label) => label,
        None => return None,
    };
    let mode = match unit.mode() {
        Some(mode) => {
            let (location, percent, throughput) = mode.parts();
            let location: u8 = match location {
                Location::BeforeValue => 0,
                Location::AfterUnit => 1,
            };
            Some(ModeSnapshot { location, percent, throughput })
        },
        None => None,
    };
    Some(UnitSnapshot { label: label.clone(), mode })
}

/// The unit that a snapshot of it describes.
pub fn decode_unit(unit: &Option<UnitSnapshot>) -> (res: Option<Unit>)
    ensures
        res == unit_of(*unit),
{
    let unit = match unit {
        Some(unit) => unit,
        None => return None,
    };
    let mode = match unit.mode {
        Some(mode) => Some(
            Mode::from_parts(
                match mode.location {
                    0 => Location::BeforeValue,
                    _ => Location::AfterUnit,
                },
                mode.percent,
                mode.throughput,
            ),
        ),
        None => None,
    };
    Some(Unit::from_label(unit.label.clone(), mode))
}

// Messages.

/// The seconds and nanoseconds that the time of a message is stored as: a time before the epoch
/// becomes the epoch.
pub open spec fn time_parts(time: Timestamp) -> (u64, u32) {
    match time.spec_since_epoch() {
        Some(parts) => parts,
        None => (0, 0),
    }
}

/// An otherwise empty message that was left at `time`.
pub fn encode_time(time: Timestamp) -> (res: MessageSnapshot)
    ensures
        (res.secs, res.nanos) == time_parts(time),
        res.level == 0,
        res.origin@ == Seq::<char>::empty(),
        res.message@ == Seq::<char>::empty(),
{
    let (secs, nanos) = match time.since_epoch() {
        Some(parts) => parts,
        None => (0, 0),
    };
    MessageSnapshot { secs, nanos, level: 0, origin: String::new(), message: String::new() }
}

/// When the message was left; this is always known.
pub fn decode_time(message: &MessageSnapshot) -> (res: Option<Timestamp>)
    ensures
        res == Some(Timestamp::spec_at(message.secs, message.nanos)),
{
    Some(Timestamp::at(message.secs, message.nanos))
}

/// The number that a severity is stored as.
pub open spec fn level_code(level: MessageLevel) -> u8 {
    match level {
        MessageLevel::Info => 0,
        MessageLevel::Failure => 1,
        MessageLevel::Success => 2,
    }
}

/// The severity that was stored as this number, if there is one.
pub open spec fn level_of(level: u8) -> Option<MessageLevel> {
    if level == 0 {
        Some(MessageLevel::Info)
    } else if level == 1 {
        Some(MessageLevel::Failure)
    } else if level == 2 {
        Some(MessageLevel::Success)
    } else {
        None
    }
}

/// The severity that was stored as this number, if there is one.
pub fn decode_level(level: u8) -> (res: Option<MessageLevel>)
    ensures
        res == level_of(level),
{
    match level {
        0 => Some(MessageLevel::Info),
        1 => Some(MessageLevel::Failure),
        2 => Some(MessageLevel::Success),
        _ => None,
    }
}

/// The snapshot of a message.
pub open spec fn message_snapshot_of(message: Message) -> MessageSnapshot {
    MessageSnapshot {
        secs: time_parts(message.time).0,
        nanos: time_parts(message.time).1,
        level: level_code(message.level),
        origin: message.origin,
        message: message.message,
    }
}

/// The message that a snapshot of it describes, unless it has no severity.
pub open spec fn message_of(message: MessageSnapshot) -> Option<Message> {
    match level_of(message.level) {
        Some(level) => Some(
            Message {
                time: Timestamp::spec_at(message.secs, message.nanos),
                level,
                origin: message.origin,
                message: message.message,
            },
        ),
        None => None,
    }
}

/// `id` in hexadecimal.
pub fn hex_id(id: &[u8]) -> (res: String)
    ensures
        res@ == text::hex(id@),
{
    let mut out = String::new();
    text::push_hex(&mut out, id);
    assert(out@ =~= text::hex(id@));
    out
}

// Tasks.

/// The progress that a snapshot of it describes.
pub open spec fn value_of(value: ValueSnapshot) -> Value {
    Value {
        step: value.step,
        done_at: value.done_at,
        unit: unit_of(value.unit),
        state: state_of(value.state),
    }
}

/// The snapshot of progress.
pub open spec fn value_snapshot_of(value: Value) -> ValueSnapshot {
    ValueSnapshot {
        step: value.step,
        done_at: value.done_at,
        state: state_snapshot_of(value.state),
        unit: unit_snapshot_of(value.unit),
    }
}

/// The task that a snapshot of it describes.
pub open spec fn task_of(task: TaskRecord) -> Task {
    Task {
        name: task.name,
        id: id_of(task.id),
        progress: match task.progress {
            Some(value) => Some(value_of(value)),
            None => None,
        },
    }
}

/// The snapshot of the task at `key`.
pub open spec fn task_record_of(key: Key, task: Task) -> TaskRecord {
    TaskRecord {
        key: KeySnapshot::of_position(key),
        name: task.name,
        id: task.id@,
        progress: match task.progress {
            Some(value) => Some(value_snapshot_of(value)),
            None => None,
        },
    }
}

/// The progress that a snapshot of it describes.
pub fn decode_value(value: &ValueSnapshot) -> (res: Value)
    ensures
        res == value_of(*value),
{
    let state = match decode_state(&value.state) {
        Some(state) => state,
        None => State::Running,
    };
    Value { step: value.step, done_at: value.done_at, unit: decode_unit(&value.unit), state }
}

/// The task that a snapshot of it describes.
pub fn decode_task(task: &TaskSnapshot) -> (res: Task)
    ensures
        res == task_of(task@),
{
    let progress = match &task.progress {
        Some(value) => Some(decode_value(value)),
        None => None,
    };
    Task { name: task.name.clone(), id: decode_id(task.id.as_slice()), progress }
}

/// The larger of two bounds; an unknown bound gives way to a known one.
pub open spec fn later_bound(current: Option<usize>, incoming: Option<usize>) -> Option<usize> {
    match (current, incoming) {
        (Some(current), Some(incoming)) => Some(
            if incoming > current {
                incoming
            } else {
                current
            },
        ),
        (Some(current), None) => Some(current),
        (None, incoming) => incoming,
    }
}

/// Progress after the snapshot of other progress was merged into it: the larger step, the larger
/// known bound, the first known unit, and the incoming state unless the current one is terminal.
pub open spec fn merged_value(current: Value, incoming: ValueSnapshot) -> Value {
    Value {
        step: if incoming.step > current.step {
            incoming.step
        } else {
            current.step
        },
        done_at: later_bound(current.done_at, incoming.done_at),
        unit: if current.unit is None {
            unit_of(incoming.unit)
        } else {
            current.unit
        },
        state: if current.state.terminal() {
            current.state
        } else {
            state_of(incoming.state)
        },
    }
}

/// A task after the snapshot of a task was folded into it: the first known id, the first name that
/// is not empty, and the merged progress.
pub open spec fn folded_task(existing: Task, incoming: TaskRecord) -> Task {
    Task {
        name: if existing.name@.len() == 0 && incoming.name@.len() != 0 {
            incoming.name
        } else {
            existing.name
        },
        id: if existing.id == UNKNOWN && valid_id(incoming.id) {
            id_of(incoming.id)
        } else {
            existing.id
        },
        progress: match (existing.progress, incoming.progress) {
            (Some(current), Some(incoming)) => Some(merged_value(current, incoming)),
            (None, Some(incoming)) => Some(value_of(incoming)),
            (current, None) => current,
        },
    }
}

/// Monotonically merge the snapshot of progress into live progress.
pub fn merge_value(current: &mut Value, incoming: &ValueSnapshot)
    ensures
        *final(current) == merged_value(*old(current), *incoming),
{
    // Steps only move forward: updates settle at the per-item maximum.
    if incoming.step > current.step {
        current.step = incoming.step;
    }
    // A known bound replaces an unknown one; otherwise keep the larger bound.
    match (current.done_at, incoming.done_at) {
        (Some(existing), Some(incoming)) => {
            if incoming > existing {
                current.done_at = Some(incoming);
            }
        },
        (None, Some(incoming)) => {
            current.done_at = Some(incoming);
        },
        _ => {},
    }
    if current.unit.is_none() {
        current.unit = decode_unit(&incoming.unit);
    }
    // Terminal state is sticky; otherwise take the freshest non-terminal state.
    if !current.state.is_terminal() {
        if let Some(state) = decode_state(&incoming.state) {
            current.state = state;
        }
    }
}

fn is_unknown(id: &Id) -> (res: bool)
    ensures
        res == (*id == UNKNOWN),
{
    let res = id[0] == 0 && id[1] == 0 && id[2] == 0 && id[3] == 0;
    proof {
        assert(UNKNOWN@[0] == 0 && UNKNOWN@[1] == 0 && UNKNOWN@[2] == 0 && UNKNOWN@[3] == 0);
        if res {
            assert(*id =~= UNKNOWN);
        }
    }
    res
}

/// Fold an incoming task into an already-present task, monotonically.
pub fn fold_existing_task(existing: &mut Task, incoming: &TaskSnapshot)
    ensures
        *final(existing) == folded_task(*old(existing), incoming@),
{
    if is_unknown(&existing.id) && is_valid_id(incoming.id.as_slice()) {
        existing.id = decode_id(incoming.id.as_slice());
    }
    if existing.name.as_str().is_empty() && !incoming.name.as_str().is_empty() {
        existing.name = incoming.name.clone();
    }
    let incoming_value = match &incoming.progress {
        Some(value) => value,
        None => return ,
    };
    match existing.progress.as_mut() {
        Some(current) => {
            merge_value(current, incoming_value);
        },
        None => {
            existing.progress = Some(decode_value(incoming_value));
        },
    }
}

} // verus!
