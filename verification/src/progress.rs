//! Tasks and their progress.

use vstd::prelude::*;

use crate::time::Timestamp;
use crate::unit::Unit;

pub mod key;

pub use key::Key;

verus! {

/// The stable four-byte id of a task.
pub type Id = [u8; 4];

/// The id of a task that was given none.
pub const UNKNOWN: Id = [0u8, 0u8, 0u8, 0u8];

/// What a task is doing.
#[derive(PartialEq, Eq, Debug)]
pub enum State {
    /// The task is running.
    Running,
    /// The task cannot progress, with a reason and the time it may go on, if known.
    Blocked(String, Option<Timestamp>),
    /// The task is halted and can be interrupted, with a reason and the time it may go on.
    Halted(String, Option<Timestamp>),
    /// The task is complete and stays so.
    Completed,
}

impl State {
    /// Whether the task can no longer change.
    pub open spec fn terminal(self) -> bool {
        self is Completed
    }

    /// Whether the task can no longer change.
    pub fn is_terminal(&self) -> (res: bool)
        ensures
            res == self.terminal(),
    {
        matches!(self, State::Completed)
    }
}

impl Clone for State {
    fn clone(&self) -> (res: State)
        ensures
            res == *self,
    {
        match self {
            State::Running => State::Running,
            State::Blocked(reason, eta) => State::Blocked(reason.clone(), *eta),
            State::Halted(reason, eta) => State::Halted(reason.clone(), *eta),
            State::Completed => State::Completed,
        }
    }
}

/// How far a task got.
#[derive(PartialEq, Eq, Debug)]
pub struct Value {
    /// The steps made.
    pub step: usize,
    /// The step at which the task is done, if known.
    pub done_at: Option<usize>,
    /// What the steps count.
    pub unit: Option<Unit>,
    /// What the task is doing.
    pub state: State,
}

impl Clone for Value {
    fn clone(&self) -> (res: Value)
        ensures
            res == *self,
    {
        let unit = match &self.unit {
            Some(unit) => Some(unit.clone()),
            None => None,
        };
        Value { step: self.step, done_at: self.done_at, unit, state: self.state.clone() }
    }
}

/// A named part of the computation.
#[derive(PartialEq, Eq, Debug)]
pub struct Task {
    /// The name shown for the task.
    pub name: String,
    /// The stable id, or [`UNKNOWN`].
    pub id: Id,
    /// How far the task got, unless it only groups others.
    pub progress: Option<Value>,
}

impl Clone for Task {
    fn clone(&self) -> (res: Task)
        ensures
            res == *self,
    {
        let progress = match &self.progress {
            Some(value) => Some(value.clone()),
            None => None,
        };
        Task { name: self.name.clone(), id: self.id, progress }
    }
}

impl Task {
    /// Whether the task has progress that can no longer change.
    pub open spec fn terminal(self) -> bool {
        self.progress matches Some(value) && value.state.terminal()
    }

    /// Whether the task has progress that can no longer change.
    pub fn is_terminal(&self) -> (res: bool)
        ensures
            res == self.terminal(),
    {
        match &self.progress {
            Some(value) => value.state.is_terminal(),
            None => false,
        }
    }
}

} // verus!
