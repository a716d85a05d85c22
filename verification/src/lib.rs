//! An undo-redo engine built around the command pattern.
//!
//! A user program owns a *receiver* (any value it wishes to edit). The engine
//! stores a sequence of reversible commands that have been applied to the
//! receiver and can step the receiver backward and forward through that
//! sequence, merge adjacent commands into atomic undo units, branch when the
//! user diverges from a prior point, and report changes to its observable
//! state through signals.
//!
//! * [`Record`](record::Record) is the linear engine: a cursor over a bounded
//!   sequence of applied commands with merge policy, saved-state tracking and
//!   signaling.
//! * [`History`](history::History) is the branching engine: a forest of linear
//!   timelines with a jump operation that replays commands along the path
//!   between two points.
//! * [`Queue`](queue::Queue) and [`Checkpoint`](checkpoint::Checkpoint) are
//!   thin transactional facades over the linear engine.
//! * [`Merged`](merge::Merged) groups several commands into one atomic unit.

use vstd::prelude::*;

pub mod checkpoint;
pub mod history;
pub mod laws;
pub mod merge;
pub mod queue;
pub mod record;
pub mod text;

pub use crate::checkpoint::Checkpoint;
pub use crate::history::History;
pub use crate::merge::Merged;
pub use crate::queue::Queue;
pub use crate::record::{Record, RecordBuilder};
pub use crate::text::TextCmd;

verus! {

/// An error which holds the command that caused it, so the caller can
/// inspect, retry or reinstate it.
#[derive(Debug)]
pub struct Error<T> {
    command: T,
}

impl<T> Error<T> {
    /// The command held by the error.
    pub closed spec fn command_spec(&self) -> T {
        self.command
    }

    pub(crate) fn new(command: T) -> (r: Error<T>)
        ensures
            r.command_spec() == command,
    {
        Error { command }
    }

    /// Returns a reference to the command that caused the error.
    pub fn command(&self) -> (r: &T)
        ensures
            *r == self.command_spec(),
    {
        &self.command
    }

    /// Returns the command that caused the error.
    pub fn into_command(self) -> (r: T)
        ensures
            r == self.command_spec(),
    {
        self.command
    }
}

/// Says if a command should merge with the previous one.
#[derive(Copy, Clone, Debug, PartialEq, Eq, Structural)]
pub enum Merge {
    /// Always merges with the previous command.
    Always,
    /// Merges if the previous command carries the same tag.
    If(u32),
    /// Never merges.
    Never,
}

/// A notification sent to the signal sink when the observable state of the
/// engine changes.
#[derive(Copy, Clone, Debug, PartialEq, Eq, Structural)]
pub enum Signal {
    /// Whether the engine can undo changed.
    Undo(bool),
    /// Whether the engine can redo changed.
    Redo(bool),
    /// Whether the receiver is in its saved state changed.
    Saved(bool),
    /// The cursor moved, or a merge kept it in place (`old == new`).
    Cursor {
        /// The cursor before the operation.
        old: usize,
        /// The cursor after the operation.
        new: usize,
    },
    /// The active branch of a history changed.
    Root {
        /// The active branch before the operation.
        old: usize,
        /// The active branch after the operation.
        new: usize,
    },
}

/// A reversible edit on a receiver of type `R`.
///
/// The spec functions give the mathematical model of the command: each one
/// maps the command and the view of the receiver to the command and the view
/// of the receiver after the operation, or to `None` when the operation
/// fails. The executable methods must behave as that model says; in
/// particular a command must be deterministic over the receiver's view, and
/// a failing operation must leave both the command and the receiver
/// unchanged.
pub trait Command<R: View>: Sized {
    /// What `apply` does: the command and receiver after a successful forward
    /// edit, or `None` when the edit fails.
    spec fn apply_spec(self, receiver: R::V) -> Option<(Self, R::V)>;

    /// What `undo` does: the command and receiver after a successful reverse
    /// edit, or `None` when the edit fails.
    spec fn undo_spec(self, receiver: R::V) -> Option<(Self, R::V)>;

    /// What `redo` does. For most commands this equals `apply_spec`.
    spec fn redo_spec(self, receiver: R::V) -> Option<(Self, R::V)>;

    /// The merge policy of the command.
    spec fn merge_spec(self) -> Merge;

    /// Performs the forward edit.
    fn apply(&mut self, receiver: &mut R) -> (res: Result<(), ()>)
        ensures
            res is Ok ==> old(self).apply_spec(old(receiver)@) == Some(
                (*final(self), final(receiver)@),
            ),
            res is Err ==> old(self).apply_spec(old(receiver)@) is None && *final(self) == *old(
                self,
            ) && final(receiver)@ == old(receiver)@,
    ;

    /// Reverses the forward edit.
    fn undo(&mut self, receiver: &mut R) -> (res: Result<(), ()>)
        ensures
            res is Ok ==> old(self).undo_spec(old(receiver)@) == Some(
                (*final(self), final(receiver)@),
            ),
            res is Err ==> old(self).undo_spec(old(receiver)@) is None && *final(self) == *old(
                self,
            ) && final(receiver)@ == old(receiver)@,
    ;

    /// Reapplies the forward edit after an undo.
    fn redo(&mut self, receiver: &mut R) -> (res: Result<(), ()>)
        ensures
            res is Ok ==> old(self).redo_spec(old(receiver)@) == Some(
                (*final(self), final(receiver)@),
            ),
            res is Err ==> old(self).redo_spec(old(receiver)@) is None && *final(self) == *old(
                self,
            ) && final(receiver)@ == old(receiver)@,
    ;

    /// Queries the merge policy; must agree with the model.
    fn merge(&self) -> (m: Merge)
        ensures
            m == self.merge_spec(),
    ;
}

} // verus!
