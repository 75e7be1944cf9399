//! What is stored of each part of a tree, and what is read back from it, field by field.

use vstd::prelude::*;

use crate::messages::{Message, MessageLevel};
use crate::progress::key;
use crate::progress::{Key, State, Task, Value};
use crate::time;
use crate::time::{Timestamp, MAX_NANOS};
use crate::tree::snapshot;
use crate::tree::snapshot::model::{
    KeySnapshot, MessageSnapshot, StateSnapshot, TaskRecord, UnitSnapshot, ValueSnapshot,
};
use crate::unit::{Kind, Unit};

verus! {

// Positions.

/// Whether `path` stores the numbers on the way to a position, one per level, and nothing below it.
pub open spec fn path_is(path: KeySnapshot, key: Key) -> bool {
    &&& path.a == (if key@.len() > 0 { Some(key@[0]) } else { None })
    &&& path.b == (if key@.len() > 1 { Some(key@[1]) } else { None })
    &&& path.c == (if key@.len() > 2 { Some(key@[2]) } else { None })
    &&& path.d == (if key@.len() > 3 { Some(key@[3]) } else { None })
    &&& path.e == (if key@.len() > 4 { Some(key@[4]) } else { None })
    &&& path.f == (if key@.len() > 5 { Some(key@[5]) } else { None })
}

/// A position is stored as its path.
pub proof fn position_is_stored(key: Key)
    ensures
        path_is(KeySnapshot::of_position(key), key),
{
}

/// A position is read from a path exactly if that is the path to it, and none is read exactly if a
/// number follows a level without one.
pub proof fn position_is_read(path: KeySnapshot, key: Key)
    ensures
        path.position() == Some(key) <==> path_is(path, key),
        path.position() is None <==> {
            ||| path.a is None && path.b is Some
            ||| path.b is None && path.c is Some
            ||| path.c is None && path.d is Some
            ||| path.d is None && path.e is Some
            ||| path.e is None && path.f is Some
        },
{
    key::key_is_its_path(key);
    if path_is(path, key) {
        match key {
            Key::Root => {},
            Key::L1(a) => {
                assert(key@ =~= seq![a]);
            },
            Key::L2(a, b) => {
                assert(key@ =~= seq![a, b]);
            },
            Key::L3(a, b, c) => {
                assert(key@ =~= seq![a, b, c]);
            },
            Key::L4(a, b, c, d) => {
                assert(key@ =~= seq![a, b, c, d]);
            },
            Key::L5(a, b, c, d, e) => {
                assert(key@ =~= seq![a, b, c, d, e]);
            },
            Key::L6(a, b, c, d, e, f) => {
                assert(key@ =~= seq![a, b, c, d, e, f]);
            },
        }
    }
}

/// The position one level up has the path without its last number; only the root has none.
pub proof fn parent_is_one_level_up(key: Key)
    ensures
        key.spec_parent() is None <==> key@.len() == 0,
        key.spec_parent() matches Some(parent) ==> key@ == parent@.push(key@.last()),
{
    key::key_is_its_path(key);
    if key@.len() > 0 {
        key::path_of_key(key@.drop_last());
        assert(key@.drop_last().push(key@.last()) =~= key@);
    }
}

/// Four bytes are read as the id that they are, and of others the first four, with zeros for those
/// that are missing.
pub proof fn id_is_read(bytes: Seq<u8>)
    ensures
        bytes.len() == 4 ==> snapshot::id_of(bytes)@ == bytes,
        forall|i: int|
            0 <= i < 4 ==> #[trigger] snapshot::id_of(bytes)@[i] == (if i < bytes.len() {
                bytes[i]
            } else {
                0
            }),
        snapshot::valid_id(bytes) <==> bytes.len() == 4 && (bytes[0] != 0 || bytes[1] != 0
            || bytes[2] != 0 || bytes[3] != 0),
{
    if bytes.len() == 4 {
        assert(snapshot::id_of(bytes)@ =~= bytes);
        if bytes[0] == 0 && bytes[1] == 0 && bytes[2] == 0 && bytes[3] == 0 {
            assert(bytes =~= crate::progress::UNKNOWN@);
        } else {
            let unknown = crate::progress::UNKNOWN@;
            assert(unknown[0] == 0 && unknown[1] == 0 && unknown[2] == 0 && unknown[3] == 0);
        }
    }
}

// Times and states.

/// The nanoseconds that so many seconds and nanoseconds come to, or those of the last point in time.
pub open spec fn nanos_from_epoch(secs: u64, nanos: u32) -> int {
    if secs * 1_000_000_000 + nanos > MAX_NANOS {
        MAX_NANOS as int
    } else {
        secs * 1_000_000_000 + nanos
    }
}

/// The point in time so many seconds and nanoseconds after the epoch is that many nanoseconds after
/// it.
pub proof fn time_is_read(secs: u64, nanos: u32)
    ensures
        Timestamp::spec_at(secs, nanos).valid(),
        Timestamp::spec_at(secs, nanos).spec_nanos() == nanos_from_epoch(secs, nanos),
{
    time::nanos_of_point(secs * time::NANOS_PER_SEC + nanos);
}

/// Whether an estimate is stored as these parts: those of the point in time, or none if it is not
/// known or lies before the epoch.
pub open spec fn eta_is_stored(eta: Option<Timestamp>, secs: Option<u64>, nanos: u32) -> bool {
    if eta matches Some(time) && time.spec_nanos() >= 0 {
        &&& secs matches Some(secs)
        &&& secs * 1_000_000_000 + nanos == eta->0.spec_nanos()
        &&& nanos < 1_000_000_000
    } else {
        secs is None && nanos == 0
    }
}

/// Whether an estimate is the one that was stored as these parts.
pub open spec fn eta_is_read(eta: Option<Timestamp>, secs: Option<u64>, nanos: u32) -> bool {
    match secs {
        Some(secs) => eta matches Some(time) && time.valid() && time.spec_nanos()
            == nanos_from_epoch(secs, nanos),
        None => eta is None,
    }
}

/// Whether the point in time of a state, where it has one, is valid.
pub open spec fn valid_eta(state: State) -> bool {
    match state {
        State::Blocked(_, Some(time)) => time.valid(),
        State::Halted(_, Some(time)) => time.valid(),
        _ => true,
    }
}

/// Whether a state is stored as this: the same kind, with the same reason and estimate.
pub open spec fn state_is_stored(state: State, stored: StateSnapshot) -> bool {
    &&& state is Running <==> stored is Running
    &&& state is Completed <==> stored is Completed
    &&& state matches State::Blocked(why, eta) ==> {
        &&& stored matches StateSnapshot::Blocked { reason, eta_secs, eta_nanos }
        &&& reason == why
        &&& eta_is_stored(eta, eta_secs, eta_nanos)
    }
    &&& state matches State::Halted(why, eta) ==> {
        &&& stored matches StateSnapshot::Halted { reason, eta_secs, eta_nanos }
        &&& reason == why
        &&& eta_is_stored(eta, eta_secs, eta_nanos)
    }
}

/// Whether a state is the one that was stored as this: the same kind, with the same reason and
/// estimate.
pub open spec fn state_is_read(state: State, stored: StateSnapshot) -> bool {
    &&& state is Running <==> stored is Running
    &&& state is Completed <==> stored is Completed
    &&& stored matches StateSnapshot::Blocked { reason, eta_secs, eta_nanos } ==> {
        &&& state matches State::Blocked(why, eta)
        &&& why == reason
        &&& eta_is_read(eta, eta_secs, eta_nanos)
    }
    &&& stored matches StateSnapshot::Halted { reason, eta_secs, eta_nanos } ==> {
        &&& state matches State::Halted(why, eta)
        &&& why == reason
        &&& eta_is_read(eta, eta_secs, eta_nanos)
    }
}

proof fn eta_parts_meaning(eta: Option<Timestamp>)
    requires
        eta matches Some(time) ==> time.valid(),
    ensures
        eta_is_stored(eta, snapshot::eta_parts(eta).0, snapshot::eta_parts(eta).1),
{
    if let Some(time) = eta {
        if time.spec_nanos() >= 0 {
            time::timestamp_round_trips(time);
            time::points_are_their_nanos(time, time);
            let (secs, nanos) = time.spec_since_epoch()->0;
            time_is_read(secs, nanos);
        }
    }
}

/// States are stored and read as what they are.
pub proof fn states_keep_their_meaning(state: State, stored: StateSnapshot)
    ensures
        valid_eta(state) ==> state_is_stored(state, snapshot::state_snapshot_of(state)),
        state_is_read(snapshot::state_of(stored), stored),
{
    match state {
        State::Blocked(_, eta) => {
            if valid_eta(state) {
                eta_parts_meaning(eta);
            }
        },
        State::Halted(_, eta) => {
            if valid_eta(state) {
                eta_parts_meaning(eta);
            }
        },
        _ => {},
    }
    match stored {
        StateSnapshot::Blocked { reason, eta_secs: Some(secs), eta_nanos } => {
            time_is_read(secs, eta_nanos);
        },
        StateSnapshot::Halted { reason, eta_secs: Some(secs), eta_nanos } => {
            time_is_read(secs, eta_nanos);
        },
        _ => {},
    }
}

/// Of every state, also one that names no valid time, the kind and the reason are stored.
pub proof fn kinds_and_reasons_are_stored(state: State)
    ensures
        ({
            let stored = snapshot::state_snapshot_of(state);
            &&& state is Running <==> stored is Running
            &&& state is Completed <==> stored is Completed
            &&& state matches State::Blocked(why, _) ==> (
            stored matches StateSnapshot::Blocked { reason, .. } && reason == why)
            &&& state matches State::Halted(why, _) ==> (
            stored matches StateSnapshot::Halted { reason, .. } && reason == why)
        }),
{
}

// Units.

/// Whether a unit, where there is one, is stored as this: the same label and the same way to show
/// values. Units that are rendered by code are not stored.
pub open spec fn unit_is_stored(unit: Option<Unit>, stored: Option<UnitSnapshot>) -> bool {
    match unit {
        Some(unit) => match unit.kind {
            Kind::Label(label) => {
                &&& stored matches Some(stored)
                &&& stored.label == label
                &&& stored.mode is Some <==> unit.mode is Some
                &&& unit.mode matches Some(mode) ==> {
                    &&& stored.mode->0.location == (if mode.location is BeforeValue {
                        0u8
                    } else {
                        1u8
                    })
                    &&& stored.mode->0.percent == mode.percent
                    &&& stored.mode->0.throughput == mode.throughput
                }
            },
            Kind::Dynamic(_) => stored is None,
        },
        None => stored is None,
    }
}

/// Whether a unit, where there is one, is the one that was stored as this: it has exactly that label
/// and shows values in that way.
pub open spec fn unit_is_read(unit: Option<Unit>, stored: Option<UnitSnapshot>) -> bool {
    match stored {
        Some(stored) => {
            &&& unit matches Some(unit)
            &&& unit.kind matches Kind::Label(label)
            &&& label == stored.label
            &&& unit.mode is Some <==> stored.mode is Some
            &&& stored.mode matches Some(mode) ==> {
                &&& unit.mode->0.location is BeforeValue <==> mode.location == 0
                &&& unit.mode->0.location is AfterUnit <==> mode.location != 0
                &&& unit.mode->0.percent == mode.percent
                &&& unit.mode->0.throughput == mode.throughput
            }
        },
        None => unit is None,
    }
}

/// Units are stored and read as what they are.
pub proof fn units_keep_their_meaning(unit: Option<Unit>, stored: Option<UnitSnapshot>)
    ensures
        unit_is_stored(unit, snapshot::unit_snapshot_of(unit)),
        unit_is_read(snapshot::unit_of(stored), stored),
{
}

// Messages.

/// Whether a severity is stored as this number.
pub open spec fn severity_is(level: MessageLevel, number: u8) -> bool {
    match level {
        MessageLevel::Info => number == 0,
        MessageLevel::Failure => number == 1,
        MessageLevel::Success => number == 2,
    }
}

/// Whether a message is stored as this: with its time, or the epoch if it was left before it, its
/// severity, the name of its task and its text.
pub open spec fn message_is_stored(message: Message, stored: MessageSnapshot) -> bool {
    &&& message.time.spec_nanos() >= 0 ==> stored.secs * 1_000_000_000 + stored.nanos
        == message.time.spec_nanos()
    &&& message.time.spec_nanos() < 0 ==> stored.secs == 0 && stored.nanos == 0
    &&& stored.nanos < 1_000_000_000
    &&& severity_is(message.level, stored.level)
    &&& stored.origin == message.origin
    &&& stored.message == message.message
}

/// Whether a message is the one that was stored as this: it was left at that time, with that severity
/// and text, under that name.
pub open spec fn message_is_read(message: Message, stored: MessageSnapshot) -> bool {
    &&& message.time.valid()
    &&& message.time.spec_nanos() == nanos_from_epoch(stored.secs, stored.nanos)
    &&& severity_is(message.level, stored.level)
    &&& message.origin == stored.origin
    &&& message.message == stored.message
}

/// Messages are stored and read as what they are. Those that are stored with a number that stands
/// for no severity are not read.
pub proof fn messages_keep_their_meaning(message: Message, stored: MessageSnapshot)
    ensures
        message.time.valid() ==> message_is_stored(message, snapshot::message_snapshot_of(message)),
        snapshot::message_of(stored) is Some <==> stored.level <= 2,
        snapshot::message_of(stored) matches Some(read) ==> message_is_read(read, stored),
{
    time_is_read(stored.secs, stored.nanos);
    if message.time.valid() && message.time.spec_nanos() >= 0 {
        time::timestamp_round_trips(message.time);
        time::points_are_their_nanos(message.time, message.time);
        let (secs, nanos) = message.time.spec_since_epoch()->0;
        time_is_read(secs, nanos);
    }
}

/// There is one message at most that is read from what is stored, and if it was left at the epoch or
/// later it is the one that was stored.
pub proof fn one_message_is_read(one: Message, other: Message, stored: MessageSnapshot)
    requires
        message_is_read(one, stored),
    ensures
        message_is_read(other, stored) ==> other == one,
        snapshot::message_of(stored) == Some(one),
        other.time.valid() && other.time.spec_nanos() >= 0 && message_is_stored(other, stored)
            ==> other == one,
{
    time::points_are_their_nanos(one.time, other.time);
    messages_keep_their_meaning(one, stored);
    let read = snapshot::message_of(stored)->0;
    time::points_are_their_nanos(one.time, read.time);
    if other.time.valid() {
        time::points_are_their_nanos(other.time, one.time);
    }
}

// Progress and tasks.

/// Whether progress is stored as this.
pub open spec fn value_is_stored(value: Value, stored: ValueSnapshot) -> bool {
    &&& stored.step == value.step
    &&& stored.done_at == value.done_at
    &&& valid_eta(value.state) ==> state_is_stored(value.state, stored.state)
    &&& value.state is Running <==> stored.state is Running
    &&& value.state is Completed <==> stored.state is Completed
    &&& value.state matches State::Blocked(why, _) ==> (
    stored.state matches StateSnapshot::Blocked { reason, .. } && reason == why)
    &&& value.state matches State::Halted(why, _) ==> (
    stored.state matches StateSnapshot::Halted { reason, .. } && reason == why)
    &&& unit_is_stored(value.unit, stored.unit)
}

/// Whether progress is the one that was stored as this.
pub open spec fn value_is_read(value: Value, stored: ValueSnapshot) -> bool {
    &&& value.step == stored.step
    &&& value.done_at == stored.done_at
    &&& state_is_read(value.state, stored.state)
    &&& unit_is_read(value.unit, stored.unit)
}

/// Whether the task at `key` is stored as this. Its step and bound are stored whatever its unit and
/// state.
pub open spec fn task_is_stored(key: Key, task: Task, stored: TaskRecord) -> bool {
    &&& path_is(stored.key, key)
    &&& stored.name == task.name
    &&& stored.id == task.id@
    &&& stored.progress is Some <==> task.progress is Some
    &&& task.progress matches Some(value) ==> value_is_stored(value, stored.progress->0)
}

/// Whether a task is the one that was stored as this.
pub open spec fn task_is_read(task: Task, stored: TaskRecord) -> bool {
    &&& task.name == stored.name
    &&& stored.id.len() == 4 ==> task.id@ == stored.id
    &&& task.progress is Some <==> stored.progress is Some
    &&& stored.progress matches Some(value) ==> value_is_read(task.progress->0, value)
}

/// Tasks are stored and read as what they are.
pub proof fn tasks_keep_their_meaning(key: Key, task: Task, stored: TaskRecord)
    ensures
        task_is_stored(key, task, snapshot::task_record_of(key, task)),
        task_is_read(snapshot::task_of(stored), stored),
{
    position_is_stored(key);
    id_is_read(stored.id);
    if let Some(value) = task.progress {
        states_keep_their_meaning(value.state, snapshot::state_snapshot_of(value.state));
        kinds_and_reasons_are_stored(value.state);
        units_keep_their_meaning(value.unit, snapshot::unit_snapshot_of(value.unit));
    }
    if let Some(value) = stored.progress {
        states_keep_their_meaning(snapshot::state_of(value.state), value.state);
        units_keep_their_meaning(snapshot::unit_of(value.unit), value.unit);
    }
}

} // verus!
