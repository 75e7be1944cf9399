//! Diagnosable errors for snapshot restore and monotonic merge.

use vstd::prelude::*;

use crate::text;

verus! {

/// Failure of restoring a snapshot.
#[derive(Clone, PartialEq, Eq, Debug)]
#[non_exhaustive]
pub enum RestoreError {
    /// The snapshot uses an unknown or unsupported format version.
    UnsupportedVersion {
        /// Version found in the snapshot.
        version: u32,
        /// Only version understood by this build.
        supported: u32,
    },
    /// Structurally invalid snapshot content (bad id lengths, holes in key paths).
    /// The context names the offending field.
    Malformed {
        /// Human-readable description of the invalid data.
        context: String,
    },
    /// The snapshot belongs to a different progress tree and must not be restored here,
    /// as that would mix tasks whose positional ids may collide.
    TreeIdMismatch {
        /// Hex-encoded identity of the snapshot.
        snapshot: String,
        /// Hex-encoded identity of the current tree.
        current: String,
    },
}

/// Failure of merging a snapshot.
#[derive(Clone, PartialEq, Eq, Debug)]
#[non_exhaustive]
pub enum MergeError {
    /// The snapshot uses an unknown or unsupported format version.
    UnsupportedVersion {
        /// Version found in the snapshot.
        version: u32,
        /// Only version understood by this build.
        supported: u32,
    },
    /// Structurally invalid snapshot content. The context names the offending field.
    Malformed {
        /// Human-readable description of the invalid data.
        context: String,
    },
    /// The snapshot belongs to a different progress tree. Merging it would interleave unrelated
    /// tasks whose positional ids can collide, so the merge is refused.
    TreeIdMismatch {
        /// Hex-encoded identity of the snapshot.
        snapshot: String,
        /// Hex-encoded identity of the current tree.
        current: String,
    },
}

/// Why a snapshot is refused, with texts as sequences of characters.
pub enum Refusal {
    /// The snapshot uses an unknown or unsupported format version.
    UnsupportedVersion {
        /// Version found in the snapshot.
        version: u32,
        /// Only version understood by this build.
        supported: u32,
    },
    /// Structurally invalid snapshot content.
    Malformed {
        /// Description of the invalid data.
        context: Seq<char>,
    },
    /// The snapshot belongs to a different progress tree.
    TreeIdMismatch {
        /// Hex-encoded identity of the snapshot.
        snapshot: Seq<char>,
        /// Hex-encoded identity of the current tree.
        current: Seq<char>,
    },
}

impl View for RestoreError {
    type V = Refusal;

    open spec fn view(&self) -> Refusal {
        match *self {
            RestoreError::UnsupportedVersion { version, supported } => {
                Refusal::UnsupportedVersion { version, supported }
            },
            RestoreError::Malformed { context } => Refusal::Malformed { context: context@ },
            RestoreError::TreeIdMismatch { snapshot, current } => {
                Refusal::TreeIdMismatch { snapshot: snapshot@, current: current@ }
            },
        }
    }
}

impl View for MergeError {
    type V = Refusal;

    open spec fn view(&self) -> Refusal {
        match *self {
            MergeError::UnsupportedVersion { version, supported } => {
                Refusal::UnsupportedVersion { version, supported }
            },
            MergeError::Malformed { context } => Refusal::Malformed { context: context@ },
            MergeError::TreeIdMismatch { snapshot, current } => {
                Refusal::TreeIdMismatch { snapshot: snapshot@, current: current@ }
            },
        }
    }
}

impl Refusal {
    /// The message for a refusal to do what `action` names.
    pub open spec fn message(self, action: Seq<char>) -> Seq<char> {
        match self {
            Refusal::UnsupportedVersion { version, supported } => {
                "snapshot version "@ + text::decimal(version as nat)
                    + " is not supported (only version "@ + text::decimal(supported as nat) + ")"@
            },
            Refusal::Malformed { context } => "malformed snapshot: "@ + context,
            Refusal::TreeIdMismatch { snapshot, current } => {
                "snapshot belongs to tree "@ + snapshot + " but this tree is "@ + current
                    + "; refusing to "@ + action
            },
        }
    }
}

fn unsupported_version_message(version: u32, supported: u32) -> (res: String)
    ensures
        res@ == (Refusal::UnsupportedVersion { version, supported }).message(seq![]),
{
    let mut out = "snapshot version ".to_owned();
    text::push_decimal(&mut out, version as u64);
    out.append(" is not supported (only version ");
    text::push_decimal(&mut out, supported as u64);
    out.append(")");
    out
}

fn malformed_message(context: &String) -> (res: String)
    ensures
        res@ == (Refusal::Malformed { context: context@ }).message(seq![]),
{
    let mut out = "malformed snapshot: ".to_owned();
    out.append(context.as_str());
    out
}

fn mismatch_message(snapshot: &String, current: &String, action: &str) -> (res: String)
    ensures
        res@ == (Refusal::TreeIdMismatch { snapshot: snapshot@, current: current@ }).message(
            action@,
        ),
{
    let mut out = "snapshot belongs to tree ".to_owned();
    out.append(snapshot.as_str());
    out.append(" but this tree is ");
    out.append(current.as_str());
    out.append("; refusing to ");
    out.append(action);
    out
}

impl RestoreError {
    /// The message shown for this error.
    pub fn to_string(&self) -> (res: String)
        ensures
            res@ == self@.message("restore"@),
    {
        match self {
            RestoreError::UnsupportedVersion { version, supported } => {
                unsupported_version_message(*version, *supported)
            },
            RestoreError::Malformed { context } => malformed_message(context),
            RestoreError::TreeIdMismatch { snapshot, current } => {
                mismatch_message(snapshot, current, "restore")
            },
        }
    }
}

impl MergeError {
    /// The message shown for this error.
    pub fn to_string(&self) -> (res: String)
        ensures
            res@ == self@.message("merge"@),
    {
        match self {
            MergeError::UnsupportedVersion { version, supported } => {
                unsupported_version_message(*version, *supported)
            },
            MergeError::Malformed { context } => malformed_message(context),
            MergeError::TreeIdMismatch { snapshot, current } => {
                mismatch_message(snapshot, current, "merge")
            },
        }
    }

    /// The same failure, met while merging.
    pub open spec fn of_restore_error(value: RestoreError) -> MergeError {
        match value {
            RestoreError::UnsupportedVersion { version, supported } => {
                MergeError::UnsupportedVersion { version, supported }
            },
            RestoreError::Malformed { context } => MergeError::Malformed { context },
            RestoreError::TreeIdMismatch { snapshot, current } => {
                MergeError::TreeIdMismatch { snapshot, current }
            },
        }
    }
}

impl From<RestoreError> for MergeError {
    fn from(value: RestoreError) -> (res: MergeError) {
        match value {
            RestoreError::UnsupportedVersion { version, supported } => {
                MergeError::UnsupportedVersion { version, supported }
            },
            RestoreError::Malformed { context } => MergeError::Malformed { context },
            RestoreError::TreeIdMismatch { snapshot, current } => {
                MergeError::TreeIdMismatch { snapshot, current }
            },
        }
    }
}

impl vstd::std_specs::convert::FromSpecImpl<RestoreError> for MergeError {
    open spec fn obeys_from_spec() -> bool {
        true
    }

    open spec fn from_spec(value: RestoreError) -> MergeError {
        MergeError::of_restore_error(value)
    }
}

/// A failure to restore says what it holds.
pub proof fn restore_errors_say_what_they_hold(error: RestoreError)
    ensures
        match error {
            RestoreError::UnsupportedVersion { version, supported } => error@
                == (Refusal::UnsupportedVersion { version, supported }),
            RestoreError::Malformed { context } => error@ == (Refusal::Malformed {
                context: context@,
            }),
            RestoreError::TreeIdMismatch { snapshot, current } => error@
                == (Refusal::TreeIdMismatch { snapshot: snapshot@, current: current@ }),
        },
{
}

/// A failure to merge says what it holds.
pub proof fn merge_errors_say_what_they_hold(error: MergeError)
    ensures
        match error {
            MergeError::UnsupportedVersion { version, supported } => error@
                == (Refusal::UnsupportedVersion { version, supported }),
            MergeError::Malformed { context } => error@ == (Refusal::Malformed {
                context: context@,
            }),
            MergeError::TreeIdMismatch { snapshot, current } => error@
                == (Refusal::TreeIdMismatch { snapshot: snapshot@, current: current@ }),
        },
{
}

/// A failure keeps what it says when it is met while merging.
pub proof fn from_keeps_the_refusal(value: RestoreError)
    ensures
        MergeError::of_restore_error(value)@ == value@,
{
}

/// Outcome of a successful monotonic merge.
#[derive(Copy, Clone, PartialEq, Eq, Structural, Debug)]
pub struct MergeReport {
    /// Amount of tasks newly inserted into the tree.
    pub tasks_inserted: usize,
    /// Amount of tasks already present that were folded together.
    pub tasks_updated: usize,
    /// Amount of messages appended to the ring buffer.
    pub messages_appended: usize,
    /// Amount of messages skipped because they were already present (idempotent replay), or because
    /// there is no room for them together with those behind them.
    pub messages_skipped: usize,
}

impl Default for MergeReport {
    fn default() -> (res: MergeReport)
        ensures
            res.tasks_inserted == 0,
            res.tasks_updated == 0,
            res.messages_appended == 0,
            res.messages_skipped == 0,
    {
        MergeReport {
            tasks_inserted: 0,
            tasks_updated: 0,
            messages_appended: 0,
            messages_skipped: 0,
        }
    }
}

} // verus!
