//! A transactional facade that buffers apply, undo and redo actions and
//! flushes them to the linear engine in one step.

use vstd::prelude::*;

use crate::record::{apply_one_model, redo_model, undo_model, Record, RecordView};
use crate::Command;

verus! {

/// A buffered action.
pub enum QueueAction<C> {
    /// Apply the held command.
    Apply(C),
    /// Undo one entry; nothing happens when there is nothing to undo.
    Undo,
    /// Redo one entry; nothing happens when there is nothing to redo.
    Redo,
}

/// The model of flushing one buffered action: an apply fails when the
/// command's forward edit fails, an undo or redo at the boundary does
/// nothing, and one that runs fails when the entry's replay fails.
pub open spec fn queue_step<C: Command<R>, R: View>(
    s: RecordView<C, R::V>,
    a: QueueAction<C>,
) -> Option<RecordView<C, R::V>> {
    match a {
        QueueAction::Apply(c) => if c.apply_spec(s.receiver) is Some {
            Some(apply_one_model::<C, R>(s, c))
        } else {
            None
        },
        QueueAction::Undo => if s.cursor == 0 {
            Some(s)
        } else {
            undo_model::<C, R>(s)
        },
        QueueAction::Redo => if s.cursor == s.entries.len() {
            Some(s)
        } else {
            redo_model::<C, R>(s)
        },
    }
}

/// The model of flushing a whole buffer, stopping at the first failure.
pub open spec fn queue_model<C: Command<R>, R: View>(
    s: RecordView<C, R::V>,
    actions: Seq<QueueAction<C>>,
) -> Option<RecordView<C, R::V>>
    decreases actions.len(),
{
    if actions.len() == 0 {
        Some(s)
    } else {
        match queue_step::<C, R>(s, actions[0]) {
            Some(s2) => queue_model::<C, R>(s2, actions.drop_first()),
            None => None,
        }
    }
}

/// A queue of pending actions. The queue never touches an engine until
/// `commit` flushes it; `cancel` discards it.
pub struct Queue<C> {
    actions: Vec<QueueAction<C>>,
}

impl<C> View for Queue<C> {
    type V = Seq<QueueAction<C>>;

    closed spec fn view(&self) -> Seq<QueueAction<C>> {
        self.actions@
    }
}

impl<C> Queue<C> {
    /// An empty queue.
    pub fn new() -> (r: Queue<C>)
        ensures
            r@ == Seq::<QueueAction<C>>::empty(),
    {
        Queue { actions: Vec::new() }
    }

    /// Buffers an apply of `command`.
    pub fn apply(&mut self, command: C)
        ensures
            final(self)@ == old(self)@.push(QueueAction::Apply(command)),
    {
        self.actions.push(QueueAction::Apply(command));
    }

    /// Buffers an undo.
    pub fn undo(&mut self)
        ensures
            final(self)@ == old(self)@.push(QueueAction::Undo),
    {
        self.actions.push(QueueAction::Undo);
    }

    /// Buffers a redo.
    pub fn redo(&mut self)
        ensures
            final(self)@ == old(self)@.push(QueueAction::Redo),
    {
        self.actions.push(QueueAction::Redo);
    }

    /// The number of buffered actions.
    pub fn len(&self) -> (n: usize)
        ensures
            n == self@.len(),
    {
        self.actions.len()
    }

    /// Whether the queue holds no actions.
    pub fn is_empty(&self) -> (b: bool)
        ensures
            b == (self@.len() == 0),
    {
        self.actions.is_empty()
    }

    /// Discards the buffer without touching any engine.
    pub fn cancel(self) {
    }

    /// Flushes the buffered actions to `record` in order, stopping at the
    /// first failure: exactly when a command's forward edit or an entry's
    /// replay fails.
    pub fn commit<R: View>(self, record: &mut Record<C, R>) -> (res: Result<(), ()>) where
        C: Command<R>,

        requires
            old(record)@.wf(),
        ensures
            final(record)@.wf(),
            queue_model::<C, R>(old(record)@, self@) is Some <==> res is Ok,
            res is Ok ==> queue_model::<C, R>(old(record)@, self@) == Some(final(record)@),
    {
        let ghost all = self@;
        let mut rest = self.actions;
        loop
            invariant
                all == self@,
                record@.wf(),
                queue_model::<C, R>(old(record)@, all) == queue_model::<C, R>(record@, rest@),
            ensures
                all == self@,
                rest@.len() == 0,
                record@.wf(),
                queue_model::<C, R>(old(record)@, all) == queue_model::<C, R>(record@, rest@),
            decreases rest.len(),
        {
            if rest.len() == 0 {
                break;
            }
            let ghost prev = record@;
            let ghost rest0 = rest@;
            let a = rest.remove(0);
            proof {
                assert(rest@ =~= rest0.drop_first());
            }
            match a {
                QueueAction::Apply(c) => {
                    proof {
                        assert(rest0[0] == QueueAction::Apply(c));
                    }
                    match record.apply(c) {
                        Ok(_) => {},
                        Err(_) => {
                            proof {
                                assert(queue_step::<C, R>(prev, rest0[0]) is None);
                                assert(queue_model::<C, R>(prev, rest0) is None);
                            }
                            return Err(());
                        },
                    }
                },
                QueueAction::Undo => {
                    match record.undo() {
                        None => {},
                        Some(Ok(())) => {},
                        Some(Err(())) => {
                            proof {
                                assert(queue_model::<C, R>(prev, rest0) is None);
                            }
                            return Err(());
                        },
                    }
                },
                QueueAction::Redo => {
                    match record.redo() {
                        None => {},
                        Some(Ok(())) => {},
                        Some(Err(())) => {
                            proof {
                                assert(queue_model::<C, R>(prev, rest0) is None);
                            }
                            return Err(());
                        },
                    }
                },
            }
            proof {
                assert(queue_model::<C, R>(prev, rest0) == queue_model::<C, R>(record@, rest@));
            }
        }
        proof {
            assert(queue_model::<C, R>(record@, rest@) == Some(record@));
        }
        Ok(())
    }
}

impl<C> Default for Queue<C> {
    fn default() -> (r: Queue<C>)
        ensures
            r@ == Seq::<QueueAction<C>>::empty(),
    {
        Queue::new()
    }
}

} // verus!
