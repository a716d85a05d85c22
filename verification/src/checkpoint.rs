//! A transactional facade that performs operations on the linear engine at
//! once, remembers them, and can roll them back in reverse order.

use vstd::prelude::*;

use crate::record::{apply_one_model, redo_model, undo_model, Meta, Record, RecordView};
use crate::{Command, Error};

verus! {

/// An operation performed through a checkpoint, remembered for rollback.
#[derive(Clone, Copy, Debug, PartialEq, Eq, Structural)]
pub enum Done {
    /// A command was applied; its inverse is an undo.
    Applied,
    /// An entry was undone; its inverse is a redo.
    Undone,
    /// An entry was redone; its inverse is an undo.
    Redone,
}

/// The model of rolling one remembered operation back. Rollback fails when
/// the inverse hits the boundary or its replay fails.
pub open spec fn rollback_step<C: Command<R>, R: View>(
    s: RecordView<C, R::V>,
    d: Done,
) -> Option<RecordView<C, R::V>> {
    match d {
        Done::Applied => if s.cursor > 0 {
            undo_model::<C, R>(s)
        } else {
            None
        },
        Done::Undone => if s.cursor < s.entries.len() {
            redo_model::<C, R>(s)
        } else {
            None
        },
        Done::Redone => if s.cursor > 0 {
            undo_model::<C, R>(s)
        } else {
            None
        },
    }
}

/// The model of rolling a whole checkpoint back, last operation first,
/// stopping at the first failure.
pub open spec fn rollback_model<C: Command<R>, R: View>(
    s: RecordView<C, R::V>,
    ds: Seq<Done>,
) -> Option<RecordView<C, R::V>>
    decreases ds.len(),
{
    if ds.len() == 0 {
        Some(s)
    } else {
        match rollback_step::<C, R>(s, ds.last()) {
            Some(s2) => rollback_model::<C, R>(s2, ds.drop_last()),
            None => None,
        }
    }
}

/// A checkpoint over the linear engine: operations go through it to the
/// engine at once and are remembered, so that `cancel` can issue the inverse
/// of each in reverse order. `commit` simply forgets them.
pub struct Checkpoint {
    done: Vec<Done>,
}

impl View for Checkpoint {
    type V = Seq<Done>;

    closed spec fn view(&self) -> Seq<Done> {
        self.done@
    }
}

impl Checkpoint {
    /// A checkpoint with nothing to roll back.
    pub fn new() -> (r: Checkpoint)
        ensures
            r@ == Seq::<Done>::empty(),
    {
        Checkpoint { done: Vec::new() }
    }

    /// The number of remembered operations.
    pub fn len(&self) -> (n: usize)
        ensures
            n == self@.len(),
    {
        self.done.len()
    }

    /// Applies `command` on `record` and remembers it: as the engine's
    /// `apply`, only failures are not remembered (they changed no cursor).
    pub fn apply<C: Command<R>, R: View>(
        &mut self,
        record: &mut Record<C, R>,
        command: C,
    ) -> (res: Result<Vec<Meta<C>>, Error<C>>)
        requires
            old(record)@.wf(),
        ensures
            final(record)@.wf(),
            command.apply_spec(old(record)@.receiver) is Some <==> res is Ok,
            res is Ok ==> final(record)@ == apply_one_model::<C, R>(old(record)@, command)
                && final(self)@ == old(self)@.push(Done::Applied),
            res is Err ==> final(self)@ == old(self)@,
    {
        let res = record.apply(command);
        match res {
            Ok(tail) => {
                self.done.push(Done::Applied);
                Ok(tail)
            },
            Err(e) => Err(e),
        }
    }

    /// Undoes one entry of `record` and remembers it when something was
    /// undone.
    pub fn undo<C: Command<R>, R: View>(&mut self, record: &mut Record<C, R>) -> (res: Option<
        Result<(), ()>,
    >)
        requires
            old(record)@.wf(),
        ensures
            final(record)@.wf(),
            match res {
                None => old(record)@.cursor == 0 && final(record)@ == old(record)@ && final(self)@
                    == old(self)@,
                Some(Ok(())) => undo_model::<C, R>(old(record)@) == Some(final(record)@) && final(self)@ == old(self)@.push(Done::Undone),
                Some(Err(())) => undo_model::<C, R>(old(record)@) is None && final(self)@ == old(self)@ && final(record)@.cursor == old(record)@.cursor,
            },
    {
        let res = record.undo();
        match res {
            Some(Ok(())) => {
                self.done.push(Done::Undone);
                Some(Ok(()))
            },
            other => other,
        }
    }

    /// Redoes one entry of `record` and remembers it when something was
    /// redone.
    pub fn redo<C: Command<R>, R: View>(&mut self, record: &mut Record<C, R>) -> (res: Option<
        Result<(), ()>,
    >)
        requires
            old(record)@.wf(),
        ensures
            final(record)@.wf(),
            match res {
                None => old(record)@.cursor == old(record)@.entries.len() && final(record)@ == old(record)@ && final(self)@ == old(self)@,
                Some(Ok(())) => redo_model::<C, R>(old(record)@) == Some(final(record)@) && final(self)@ == old(self)@.push(Done::Redone),
                Some(Err(())) => redo_model::<C, R>(old(record)@) is None && final(self)@ == old(self)@ && final(record)@.cursor == old(record)@.cursor,
            },
    {
        let res = record.redo();
        match res {
            Some(Ok(())) => {
                self.done.push(Done::Redone);
                Some(Ok(()))
            },
            other => other,
        }
    }

    /// Keeps everything done through the checkpoint and forgets the rollback
    /// information.
    pub fn commit(self) {
    }

    /// Rolls back everything done through the checkpoint, last operation
    /// first, by issuing the inverse of each. A failure mid-way aborts the
    /// rollback: the error tells the caller the rollback is partial.
    pub fn cancel<C: Command<R>, R: View>(self, record: &mut Record<C, R>) -> (res: Result<
        (),
        (),
    >)
        requires
            old(record)@.wf(),
        ensures
            final(record)@.wf(),
            rollback_model::<C, R>(old(record)@, self@) is Some <==> res is Ok,
            res is Ok ==> rollback_model::<C, R>(old(record)@, self@) == Some(final(record)@),
    {
        let ghost all = self@;
        let mut rest = self.done;
        loop
            invariant
                all == self@,
                record@.wf(),
                rollback_model::<C, R>(old(record)@, all) == rollback_model::<C, R>(
                    record@,
                    rest@,
                ),
            ensures
                all == self@,
                rest@.len() == 0,
                record@.wf(),
                rollback_model::<C, R>(old(record)@, all) == rollback_model::<C, R>(
                    record@,
                    rest@,
                ),
            decreases rest.len(),
        {
            if rest.len() == 0 {
                break;
            }
            let ghost prev = record@;
            let ghost rest0 = rest@;
            let d = rest.pop().unwrap();
            proof {
                assert(rest@ =~= rest0.drop_last());
                assert(d == rest0.last());
            }
            let step: Option<Result<(), ()>> = match d {
                Done::Applied => record.undo(),
                Done::Undone => record.redo(),
                Done::Redone => record.undo(),
            };
            match step {
                Some(Ok(())) => {
                    proof {
                        assert(rollback_model::<C, R>(prev, rest0) == rollback_model::<C, R>(
                            record@,
                            rest@,
                        ));
                    }
                },
                Some(Err(())) => {
                    proof {
                        assert(rollback_model::<C, R>(prev, rest0) is None);
                    }
                    return Err(());
                },
                None => {
                    proof {
                        assert(rollback_step::<C, R>(prev, d) is None);
                        assert(rollback_model::<C, R>(prev, rest0) is None);
                    }
                    return Err(());
                },
            }
        }
        proof {
            assert(rollback_model::<C, R>(record@, rest@) == Some(record@));
        }
        Ok(())
    }
}

impl Default for Checkpoint {
    fn default() -> (r: Checkpoint)
        ensures
            r@ == Seq::<Done>::empty(),
    {
        Checkpoint::new()
    }
}

} // verus!
