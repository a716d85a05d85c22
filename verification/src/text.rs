//! A small text-editing command over a character-vector receiver: the
//! canonical client of the engine, and the one its tests drive.

use vstd::prelude::*;

use crate::{Command, Merge};

verus! {

/// A command editing a `Vec<char>` receiver.
#[derive(Clone, Copy, Debug, PartialEq, Eq, Structural)]
pub enum TextCmd {
    /// Pushes the character onto the receiver; undo pops it back off and
    /// stores the popped character.
    Add {
        /// The character to push.
        ch: char,
        /// The merge policy the command reports.
        policy: Merge,
    },
    /// Fails on apply, undo and redo, leaving the receiver unchanged.
    Fail,
}

impl TextCmd {
    /// A push command that never merges.
    pub fn add(ch: char) -> (r: TextCmd)
        ensures
            r == (TextCmd::Add { ch, policy: Merge::Never }),
    {
        TextCmd::Add { ch, policy: Merge::Never }
    }

    /// A push command that always merges.
    pub fn add_merging(ch: char) -> (r: TextCmd)
        ensures
            r == (TextCmd::Add { ch, policy: Merge::Always }),
    {
        TextCmd::Add { ch, policy: Merge::Always }
    }

    /// A push command that merges with a neighbour carrying the same tag.
    pub fn add_tagged(ch: char, tag: u32) -> (r: TextCmd)
        ensures
            r == (TextCmd::Add { ch, policy: Merge::If(tag) }),
    {
        TextCmd::Add { ch, policy: Merge::If(tag) }
    }
}

impl Command<Vec<char>> for TextCmd {
    open spec fn apply_spec(self, receiver: Seq<char>) -> Option<(Self, Seq<char>)> {
        match self {
            TextCmd::Add { ch, policy } => Some((self, receiver.push(ch))),
            TextCmd::Fail => None,
        }
    }

    open spec fn undo_spec(self, receiver: Seq<char>) -> Option<(Self, Seq<char>)> {
        match self {
            TextCmd::Add { ch, policy } => if receiver.len() > 0 {
                Some(
                    ((TextCmd::Add { ch: receiver.last(), policy }), receiver.drop_last()),
                )
            } else {
                None
            },
            TextCmd::Fail => None,
        }
    }

    open spec fn redo_spec(self, receiver: Seq<char>) -> Option<(Self, Seq<char>)> {
        self.apply_spec(receiver)
    }

    open spec fn merge_spec(self) -> Merge {
        match self {
            TextCmd::Add { ch, policy } => policy,
            TextCmd::Fail => Merge::Never,
        }
    }

    fn apply(&mut self, receiver: &mut Vec<char>) -> (res: Result<(), ()>) {
        match *self {
            TextCmd::Add { ch, policy: _ } => {
                receiver.push(ch);
                Ok(())
            },
            TextCmd::Fail => Err(()),
        }
    }

    fn undo(&mut self, receiver: &mut Vec<char>) -> (res: Result<(), ()>) {
        match *self {
            TextCmd::Add { ch: _, policy } => {
                if receiver.len() == 0 {
                    Err(())
                } else {
                    let c = receiver.pop().unwrap();
                    *self = TextCmd::Add { ch: c, policy };
                    Ok(())
                }
            },
            TextCmd::Fail => Err(()),
        }
    }

    fn redo(&mut self, receiver: &mut Vec<char>) -> (res: Result<(), ()>) {
        match *self {
            TextCmd::Add { ch, policy: _ } => {
                receiver.push(ch);
                Ok(())
            },
            TextCmd::Fail => Err(()),
        }
    }

    fn merge(&self) -> (m: Merge) {
        match *self {
            TextCmd::Add { ch: _, policy } => policy,
            TextCmd::Fail => Merge::Never,
        }
    }
}

} // verus!
