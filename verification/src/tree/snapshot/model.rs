//! The parts of a snapshot.

use vstd::prelude::*;

use crate::progress::Key;
use crate::text;
use crate::tree::snapshot::decode_key;
use crate::tree::snapshot::error::{Refusal, RestoreError};

verus! {

/// Bumped whenever the representation changes incompatibly.
pub const SNAPSHOT_VERSION: u32 = 1;

/// The length of the identity of a tree, in bytes.
pub const TREE_ID_LEN: usize = 16;

/// The length of the id of a task, in bytes.
pub const TASK_ID_LEN: usize = 4;

/// A deterministic snapshot of an entire progress tree.
#[derive(Clone, PartialEq, Eq, Debug)]
pub struct Snapshot {
    /// Version of the snapshot format.
    pub version: u32,
    /// Identity of the tree the snapshot was taken from (16 bytes).
    pub tree_id: Vec<u8>,
    /// Capacity of the message ring buffer to recreate on restore.
    pub message_buffer_capacity: usize,
    /// All tasks ordered by hierarchy key for byte-reproducible output.
    pub tasks: Vec<TaskSnapshot>,
    /// Retained messages ordered from oldest to newest.
    pub messages: Vec<MessageSnapshot>,
}

/// A task in a snapshot.
#[derive(Clone, PartialEq, Eq, Debug)]
pub struct TaskSnapshot {
    /// Position in the hierarchy.
    pub key: KeySnapshot,
    /// The task name.
    pub name: String,
    /// The stable four-byte task id.
    pub id: Vec<u8>,
    /// Progress of the task, unless it is an organizational unit.
    pub progress: Option<ValueSnapshot>,
}

/// Position of a task in the hierarchy as six optional levels.
#[derive(Copy, Clone, PartialEq, Eq, PartialOrd, Ord, Structural, Debug)]
pub struct KeySnapshot {
    /// Level 1 component.
    pub a: Option<u16>,
    /// Level 2 component.
    pub b: Option<u16>,
    /// Level 3 component.
    pub c: Option<u16>,
    /// Level 4 component.
    pub d: Option<u16>,
    /// Level 5 component.
    pub e: Option<u16>,
    /// Level 6 component.
    pub f: Option<u16>,
}

/// Progress in a snapshot.
#[derive(PartialEq, Eq, Debug)]
pub struct ValueSnapshot {
    /// The amount of progress made.
    pub step: usize,
    /// Optional upper bound.
    pub done_at: Option<usize>,
    /// Lifecycle state.
    pub state: StateSnapshot,
    /// Optional statically-known unit.
    pub unit: Option<UnitSnapshot>,
}

/// Lifecycle state of a task.
///
/// The names of the variants form the public snapshot format and must not be changed without
/// bumping [`SNAPSHOT_VERSION`].
#[derive(PartialEq, Eq, Debug)]
pub enum StateSnapshot {
    /// Task is running.
    Running,
    /// Task cannot progress, with a reason and optional epoch time eta.
    Blocked {
        /// Human-readable reason.
        reason: String,
        /// Seconds since the Unix epoch, if known.
        eta_secs: Option<u64>,
        /// Nanosecond part of the eta.
        eta_nanos: u32,
    },
    /// Task is halted (interruptable), with a reason and optional eta.
    Halted {
        /// Human-readable reason.
        reason: String,
        /// Seconds since the Unix epoch, if known.
        eta_secs: Option<u64>,
        /// Nanosecond part of the eta.
        eta_nanos: u32,
    },
    /// Task completed; terminal and sticky.
    Completed,
}

/// A labelled unit in a snapshot.
#[derive(PartialEq, Eq, Debug)]
pub struct UnitSnapshot {
    /// The static unit label.
    pub label: String,
    /// Optional display mode.
    pub mode: Option<ModeSnapshot>,
}

/// A display mode in a snapshot.
#[derive(Copy, Clone, PartialEq, Eq, Structural, Debug)]
pub struct ModeSnapshot {
    /// Where extra information is rendered (`0` = before the value, `1` = after the unit).
    pub location: u8,
    /// Whether the percentage is shown.
    pub percent: bool,
    /// Whether throughput is shown.
    pub throughput: bool,
}

/// A message in a snapshot.
#[derive(PartialEq, Eq, Debug)]
pub struct MessageSnapshot {
    /// Seconds since the Unix epoch.
    pub secs: u64,
    /// Nanosecond part of the timestamp.
    pub nanos: u32,
    /// Severity: `0` = info, `1` = failure, `2` = success.
    pub level: u8,
    /// Name of the originating task.
    pub origin: String,
    /// The message text.
    pub message: String,
}

impl Clone for StateSnapshot {
    fn clone(&self) -> (res: StateSnapshot)
        ensures
            res == *self,
    {
        match self {
            StateSnapshot::Running => StateSnapshot::Running,
            StateSnapshot::Blocked { reason, eta_secs, eta_nanos } => StateSnapshot::Blocked {
                reason: reason.clone(),
                eta_secs: *eta_secs,
                eta_nanos: *eta_nanos,
            },
            StateSnapshot::Halted { reason, eta_secs, eta_nanos } => StateSnapshot::Halted {
                reason: reason.clone(),
                eta_secs: *eta_secs,
                eta_nanos: *eta_nanos,
            },
            StateSnapshot::Completed => StateSnapshot::Completed,
        }
    }
}

impl Clone for UnitSnapshot {
    fn clone(&self) -> (res: UnitSnapshot)
        ensures
            res == *self,
    {
        UnitSnapshot { label: self.label.clone(), mode: self.mode }
    }
}

impl Clone for ValueSnapshot {
    fn clone(&self) -> (res: ValueSnapshot)
        ensures
            res == *self,
    {
        let unit = match &self.unit {
            Some(unit) => Some(unit.clone()),
            None => None,
        };
        ValueSnapshot { step: self.step, done_at: self.done_at, state: self.state.clone(), unit }
    }
}

impl Clone for MessageSnapshot {
    fn clone(&self) -> (res: MessageSnapshot)
        ensures
            res == *self,
    {
        MessageSnapshot {
            secs: self.secs,
            nanos: self.nanos,
            level: self.level,
            origin: self.origin.clone(),
            message: self.message.clone(),
        }
    }
}

impl Default for KeySnapshot {
    fn default() -> (res: KeySnapshot)
        ensures
            forall|i: int| 0 <= i < 6 ==> res.component(i) is None,
    {
        KeySnapshot { a: None, b: None, c: None, d: None, e: None, f: None }
    }
}

/// What a task in a snapshot says, with its id as a sequence of bytes.
pub struct TaskRecord {
    /// Position in the hierarchy.
    pub key: KeySnapshot,
    /// The task name.
    pub name: String,
    /// The task id.
    pub id: Seq<u8>,
    /// Progress of the task, unless it is an organizational unit.
    pub progress: Option<ValueSnapshot>,
}

/// What a snapshot says, with its collections as sequences.
pub struct Record {
    /// Version of the snapshot format.
    pub version: u32,
    /// Identity of the tree the snapshot was taken from.
    pub tree_id: Seq<u8>,
    /// Capacity of the message ring buffer.
    pub message_buffer_capacity: usize,
    /// The tasks.
    pub tasks: Seq<TaskRecord>,
    /// The messages.
    pub messages: Seq<MessageSnapshot>,
}

impl View for TaskSnapshot {
    type V = TaskRecord;

    open spec fn view(&self) -> TaskRecord {
        TaskRecord { key: self.key, name: self.name, id: self.id@, progress: self.progress }
    }
}

impl View for Snapshot {
    type V = Record;

    open spec fn view(&self) -> Record {
        Record {
            version: self.version,
            tree_id: self.tree_id@,
            message_buffer_capacity: self.message_buffer_capacity,
            tasks: self.tasks@.map_values(|task: TaskSnapshot| task@),
            messages: self.messages@,
        }
    }
}

/// What a snapshot says is what it holds.
pub proof fn records_have_the_parts(snapshot: Snapshot)
    ensures
        snapshot@.version == snapshot.version,
        snapshot@.tree_id == snapshot.tree_id@,
        snapshot@.message_buffer_capacity == snapshot.message_buffer_capacity,
        snapshot@.messages == snapshot.messages@,
        snapshot@.tasks.len() == snapshot.tasks@.len(),
        forall|i: int|
            0 <= i < snapshot.tasks@.len() ==> {
                let task = snapshot.tasks@[i];
                let record = #[trigger] snapshot@.tasks[i];
                &&& record.key == task.key
                &&& record.name == task.name
                &&& record.id == task.id@
                &&& record.progress == task.progress
            },
{
}

impl KeySnapshot {
    /// The component of level `i + 1`.
    pub open spec fn component(self, i: int) -> Option<u16> {
        if i == 0 {
            self.a
        } else if i == 1 {
            self.b
        } else if i == 2 {
            self.c
        } else if i == 3 {
            self.d
        } else if i == 4 {
            self.e
        } else {
            self.f
        }
    }

    /// Whether a number follows a `None`.
    pub open spec fn has_hole(self) -> bool {
        exists|i: int, j: int|
            #![trigger self.component(i), self.component(j)]
            0 <= i < j < 6 && self.component(i) is None && self.component(j) is Some
    }

    /// The position in the hierarchy, unless the path has a hole.
    pub open spec fn position(self) -> Option<Key> {
        match (self.a, self.b, self.c, self.d, self.e, self.f) {
            (None, None, None, None, None, None) => Some(Key::Root),
            (Some(a), None, None, None, None, None) => Some(Key::L1(a)),
            (Some(a), Some(b), None, None, None, None) => Some(Key::L2(a, b)),
            (Some(a), Some(b), Some(c), None, None, None) => Some(Key::L3(a, b, c)),
            (Some(a), Some(b), Some(c), Some(d), None, None) => Some(Key::L4(a, b, c, d)),
            (Some(a), Some(b), Some(c), Some(d), Some(e), None) => Some(Key::L5(a, b, c, d, e)),
            (Some(a), Some(b), Some(c), Some(d), Some(e), Some(f)) => Some(
                Key::L6(a, b, c, d, e, f),
            ),
            _ => None,
        }
    }

    /// The snapshot of a position.
    pub open spec fn of_position(key: Key) -> KeySnapshot {
        KeySnapshot {
            a: key.component(0),
            b: key.component(1),
            c: key.component(2),
            d: key.component(3),
            e: key.component(4),
            f: key.component(5),
        }
    }

    /// The debug rendering of an optional number.
    pub open spec fn component_text(component: Option<u16>) -> Seq<char> {
        match component {
            Some(id) => "Some("@ + text::decimal(id as nat) + ")"@,
            None => "None"@,
        }
    }

    /// The debug rendering of the path.
    pub open spec fn text(self) -> Seq<char> {
        "KeySnapshot { a: "@ + KeySnapshot::component_text(self.a) + ", b: "@
            + KeySnapshot::component_text(self.b) + ", c: "@ + KeySnapshot::component_text(self.c)
            + ", d: "@ + KeySnapshot::component_text(self.d) + ", e: "@
            + KeySnapshot::component_text(self.e) + ", f: "@ + KeySnapshot::component_text(self.f)
            + " }"@
    }

    fn push_component(out: &mut String, component: Option<u16>)
        ensures
            final(out)@ == old(out)@ + KeySnapshot::component_text(component),
    {
        match component {
            Some(id) => {
                out.append("Some(");
                text::push_decimal(out, id as u64);
                out.append(")");
            },
            None => {
                out.append("None");
            },
        }
        assert(out@ =~= old(out)@ + KeySnapshot::component_text(component));
    }

    /// Append the debug rendering of the path.
    pub fn push_text(&self, out: &mut String)
        ensures
            final(out)@ == old(out)@ + self.text(),
    {
        out.append("KeySnapshot { a: ");
        KeySnapshot::push_component(out, self.a);
        out.append(", b: ");
        KeySnapshot::push_component(out, self.b);
        out.append(", c: ");
        KeySnapshot::push_component(out, self.c);
        out.append(", d: ");
        KeySnapshot::push_component(out, self.d);
        out.append(", e: ");
        KeySnapshot::push_component(out, self.e);
        out.append(", f: ");
        KeySnapshot::push_component(out, self.f);
        out.append(" }");
        assert(out@ =~= old(out)@ + self.text());
    }
}

/// A path has a position exactly if it has no hole, and the position has the components of the
/// path.
pub proof fn position_meaning(path: KeySnapshot)
    ensures
        path.position() is None <==> path.has_hole(),
        path.position() matches Some(key) ==> KeySnapshot::of_position(key) == path,
{
    if path.position() is None {
        let i: int = if path.a is None {
            0
        } else if path.b is None {
            1
        } else if path.c is None {
            2
        } else if path.d is None {
            3
        } else {
            4
        };
        assert(path.component(i) is None);
        assert(path.component(1) is Some || path.component(2) is Some || path.component(3) is Some
            || path.component(4) is Some || path.component(5) is Some);
    }
}

/// The position of the snapshot of a position is that position.
pub proof fn position_round_trips(key: Key)
    ensures
        KeySnapshot::of_position(key).position() == Some(key),
{
}

impl TaskRecord {
    /// The position of the task.
    pub open spec fn position(self) -> Option<Key> {
        self.key.position()
    }

    /// Why the task cannot be part of a snapshot, if so.
    pub open spec fn refusal(self) -> Option<Refusal> {
        if self.id.len() != TASK_ID_LEN {
            Some(
                Refusal::Malformed {
                    context: "task "@ + self.key.text() + " id must be 4 bytes, got "@
                        + text::decimal(self.id.len()),
                },
            )
        } else if self.key.has_hole() {
            Some(
                Refusal::Malformed {
                    context: "task key "@ + self.key.text() + " has a hole in its hierarchy path"@,
                },
            )
        } else {
            None
        }
    }
}

/// The refusal of the first of `tasks` that cannot be part of a snapshot.
pub open spec fn first_refusal(tasks: Seq<TaskRecord>) -> Option<Refusal>
    decreases tasks.len(),
{
    if tasks.len() == 0 {
        None
    } else if first_refusal(tasks.drop_last()) is Some {
        first_refusal(tasks.drop_last())
    } else {
        tasks.last().refusal()
    }
}

impl Record {
    /// Why the snapshot cannot be used with any tree, if so.
    pub open spec fn refusal(self) -> Option<Refusal> {
        if self.version != SNAPSHOT_VERSION {
            Some(
                Refusal::UnsupportedVersion { version: self.version, supported: SNAPSHOT_VERSION },
            )
        } else if self.tree_id.len() != TREE_ID_LEN {
            Some(
                Refusal::Malformed {
                    context: "tree id must be 16 bytes, got "@ + text::decimal(self.tree_id.len()),
                },
            )
        } else {
            first_refusal(self.tasks)
        }
    }
}

/// A snapshot passes validation exactly if it has the supported version, an identity of the right
/// length, and only tasks with ids of the right length and paths without holes.
pub proof fn validity_meaning(record: Record)
    ensures
        record.refusal() is None <==> {
            &&& record.version == SNAPSHOT_VERSION
            &&& record.tree_id.len() == TREE_ID_LEN
            &&& forall|i: int|
                #![trigger record.tasks[i]]
                0 <= i < record.tasks.len() ==> record.tasks[i].id.len() == TASK_ID_LEN
                    && record.tasks[i].position() is Some
        },
{
    first_refusal_meaning(record.tasks);
}

proof fn first_refusal_meaning(tasks: Seq<TaskRecord>)
    ensures
        first_refusal(tasks) is None <==> forall|i: int|
            #![trigger tasks[i]]
            0 <= i < tasks.len() ==> tasks[i].id.len() == TASK_ID_LEN && tasks[i].position() is Some,
    decreases tasks.len(),
{
    if tasks.len() > 0 {
        let init = tasks.drop_last();
        first_refusal_meaning(init);
        position_meaning(tasks.last().key);
        assert forall|i: int| 0 <= i < init.len() implies init[i] == tasks[i] by {}
        if first_refusal(tasks) is None {
            assert forall|i: int| #![trigger tasks[i]] 0 <= i < tasks.len() implies tasks[i].id.len()
                == TASK_ID_LEN && tasks[i].position() is Some by {
                if i < init.len() {
                    assert(init[i] == tasks[i]);
                }
            }
        } else if first_refusal(init) is Some {
            let i = choose|i: int|
                #![trigger init[i]]
                0 <= i < init.len() && !(init[i].id.len() == TASK_ID_LEN
                    && init[i].position() is Some);
            assert(tasks[i] == init[i]);
        } else {
            assert(tasks[tasks.len() - 1] == tasks.last());
        }
    }
}

impl Snapshot {
    /// Validate format-level invariants that the types alone cannot express.
    pub fn validate(&self) -> (res: Result<(), RestoreError>)
        ensures
            match res {
                Ok(_) => self@.refusal() is None,
                Err(error) => self@.refusal() == Some(error@),
            },
    {
        if self.version != SNAPSHOT_VERSION {
            return Err(
                RestoreError::UnsupportedVersion {
                    version: self.version,
                    supported: SNAPSHOT_VERSION,
                },
            );
        }
        if self.tree_id.len() != TREE_ID_LEN {
            let mut context = "tree id must be 16 bytes, got ".to_owned();
            text::push_decimal(&mut context, self.tree_id.len() as u64);
            return Err(RestoreError::Malformed { context });
        }
        let ghost tasks = self@.tasks;
        for i in 0..self.tasks.len()
            invariant
                tasks == self@.tasks,
                first_refusal(tasks.take(i as int)) is None,
                self.version == SNAPSHOT_VERSION,
                self.tree_id@.len() == TREE_ID_LEN,
        {
            let task = &self.tasks[i];
            proof {
                assert(tasks.take(i + 1).drop_last() =~= tasks.take(i as int));
                assert(tasks.take(i + 1).last() == task@);
                position_meaning(task.key);
                first_refusal_sticks(tasks, i + 1);
            }
            if task.id.len() != TASK_ID_LEN {
                let mut context = "task ".to_owned();
                task.key.push_text(&mut context);
                context.append(" id must be 4 bytes, got ");
                text::push_decimal(&mut context, task.id.len() as u64);
                return Err(RestoreError::Malformed { context });
            }
            if decode_key(&task.key).is_none() {
                let mut context = "task key ".to_owned();
                task.key.push_text(&mut context);
                context.append(" has a hole in its hierarchy path");
                return Err(RestoreError::Malformed { context });
            }
        }
        assert(tasks.take(tasks.len() as int) =~= tasks);
        Ok(())
    }
}

/// Once a task is refused, the tasks behind it change nothing.
proof fn first_refusal_sticks(tasks: Seq<TaskRecord>, n: int)
    requires
        0 <= n <= tasks.len(),
    ensures
        first_refusal(tasks.take(n)) is Some ==> first_refusal(tasks) == first_refusal(
            tasks.take(n),
        ),
    decreases tasks.len() - n,
{
    if n < tasks.len() {
        first_refusal_sticks(tasks, n + 1);
        assert(tasks.take(n + 1).drop_last() =~= tasks.take(n));
    } else {
        assert(tasks.take(n) =~= tasks);
    }
}

} // verus!
