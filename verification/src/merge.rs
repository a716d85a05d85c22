//! Composite commands: an ordered group of commands executed as one.

use vstd::prelude::*;

use crate::{Command, Merge};

verus! {

/// The model of applying a sequence of commands in index order: the updated
/// commands and receiver, or `None` as soon as one command fails.
pub open spec fn seq_apply<C: Command<R>, R: View>(cmds: Seq<C>, receiver: R::V) -> Option<(Seq<C>, R::V)>
    decreases cmds.len(),
{
    if cmds.len() == 0 {
        Some((cmds, receiver))
    } else {
        match cmds[0].apply_spec(receiver) {
            Some((c2, r2)) => match seq_apply::<C, R>(cmds.drop_first(), r2) {
                Some((cs2, r3)) => Some((seq![c2] + cs2, r3)),
                None => None,
            },
            None => None,
        }
    }
}

/// The model of undoing a sequence of commands in reverse index order.
pub open spec fn seq_undo<C: Command<R>, R: View>(cmds: Seq<C>, receiver: R::V) -> Option<(Seq<C>, R::V)>
    decreases cmds.len(),
{
    if cmds.len() == 0 {
        Some((cmds, receiver))
    } else {
        match cmds.last().undo_spec(receiver) {
            Some((c2, r2)) => match seq_undo::<C, R>(cmds.drop_last(), r2) {
                Some((cs2, r3)) => Some((cs2.push(c2), r3)),
                None => None,
            },
            None => None,
        }
    }
}

/// The model of redoing a sequence of commands in index order.
pub open spec fn seq_redo<C: Command<R>, R: View>(cmds: Seq<C>, receiver: R::V) -> Option<(Seq<C>, R::V)>
    decreases cmds.len(),
{
    if cmds.len() == 0 {
        Some((cmds, receiver))
    } else {
        match cmds[0].redo_spec(receiver) {
            Some((c2, r2)) => match seq_redo::<C, R>(cmds.drop_first(), r2) {
                Some((cs2, r3)) => Some((seq![c2] + cs2, r3)),
                None => None,
            },
            None => None,
        }
    }
}


/// The state after *running* a sequence of commands in index order: the
/// commands and receiver after the successful prefix, with the failing
/// command and everything after it untouched. Equals the result of
/// `seq_apply` when every command succeeds.
pub open spec fn seq_apply_run<C: Command<R>, R: View>(cmds: Seq<C>, receiver: R::V) -> (
    Seq<C>,
    R::V,
)
    decreases cmds.len(),
{
    if cmds.len() == 0 {
        (cmds, receiver)
    } else {
        match cmds[0].apply_spec(receiver) {
            Some((c2, r2)) => {
                let pr = seq_apply_run::<C, R>(cmds.drop_first(), r2);
                (seq![c2] + pr.0, pr.1)
            },
            None => (cmds, receiver),
        }
    }
}

/// The state after running the undos of a sequence in reverse index order,
/// stopping at the first failure.
pub open spec fn seq_undo_run<C: Command<R>, R: View>(cmds: Seq<C>, receiver: R::V) -> (
    Seq<C>,
    R::V,
)
    decreases cmds.len(),
{
    if cmds.len() == 0 {
        (cmds, receiver)
    } else {
        match cmds.last().undo_spec(receiver) {
            Some((c2, r2)) => {
                let pr = seq_undo_run::<C, R>(cmds.drop_last(), r2);
                (pr.0.push(c2), pr.1)
            },
            None => (cmds, receiver),
        }
    }
}

/// The state after running the redos of a sequence in index order, stopping
/// at the first failure.
pub open spec fn seq_redo_run<C: Command<R>, R: View>(cmds: Seq<C>, receiver: R::V) -> (
    Seq<C>,
    R::V,
)
    decreases cmds.len(),
{
    if cmds.len() == 0 {
        (cmds, receiver)
    } else {
        match cmds[0].redo_spec(receiver) {
            Some((c2, r2)) => {
                let pr = seq_redo_run::<C, R>(cmds.drop_first(), r2);
                (seq![c2] + pr.0, pr.1)
            },
            None => (cmds, receiver),
        }
    }
}

/// Applying a group of one command applies that command.
pub proof fn lemma_seq_apply_singleton<C: Command<R>, R: View>(c: C, r: R::V)
    ensures
        seq_apply::<C, R>(seq![c], r) == match c.apply_spec(r) {
            Some(pr) => Some((seq![pr.0], pr.1)),
            None => None::<(Seq<C>, R::V)>,
        },
{
    let s = seq![c];
    assert(s[0] == c);
    let rest = s.drop_first();
    assert(rest =~= Seq::<C>::empty());
    match c.apply_spec(r) {
        Some(pr) => {
            assert(seq_apply::<C, R>(rest, pr.1) == Some((rest, pr.1)));
            assert(seq![pr.0] + rest =~= seq![pr.0]);
            assert(seq_apply::<C, R>(s, r) == Some((seq![pr.0] + rest, pr.1)));
        },
        None => {
            assert(seq_apply::<C, R>(s, r) is None);
        },
    }
}

/// Undoing a group of one command undoes that command.
pub proof fn lemma_seq_undo_singleton<C: Command<R>, R: View>(c: C, r: R::V)
    ensures
        seq_undo::<C, R>(seq![c], r) == match c.undo_spec(r) {
            Some(pr) => Some((seq![pr.0], pr.1)),
            None => None::<(Seq<C>, R::V)>,
        },
{
    let s = seq![c];
    assert(s.last() == c);
    let rest = s.drop_last();
    assert(rest =~= Seq::<C>::empty());
    match c.undo_spec(r) {
        Some(pr) => {
            assert(seq_undo::<C, R>(rest, pr.1) == Some((rest, pr.1)));
            assert(rest.push(pr.0) =~= seq![pr.0]);
            assert(seq_undo::<C, R>(s, r) == Some((rest.push(pr.0), pr.1)));
        },
        None => {
            assert(seq_undo::<C, R>(s, r) is None);
        },
    }
}

/// Undoing a group of two commands undoes the second, then the first.
pub proof fn lemma_seq_undo_pair<C: Command<R>, R: View>(a: C, b: C, r: R::V)
    ensures
        seq_undo::<C, R>(seq![a, b], r) == match b.undo_spec(r) {
            Some(pr) => match a.undo_spec(pr.1) {
                Some(qr) => Some((seq![qr.0, pr.0], qr.1)),
                None => None::<(Seq<C>, R::V)>,
            },
            None => None::<(Seq<C>, R::V)>,
        },
{
    let s = seq![a, b];
    assert(s.last() == b);
    let rest = s.drop_last();
    assert(rest =~= seq![a]);
    match b.undo_spec(r) {
        Some(pr) => {
            lemma_seq_undo_singleton::<C, R>(a, pr.1);
            match a.undo_spec(pr.1) {
                Some(qr) => {
                    assert(seq_undo::<C, R>(rest, pr.1) == Some((seq![qr.0], qr.1)));
                    assert(seq![qr.0].push(pr.0) =~= seq![qr.0, pr.0]);
                    assert(seq_undo::<C, R>(s, r) == Some((seq![qr.0].push(pr.0), qr.1)));
                },
                None => {
                    assert(seq_undo::<C, R>(rest, pr.1) is None);
                    assert(seq_undo::<C, R>(s, r) is None);
                },
            }
        },
        None => {
            assert(seq_undo::<C, R>(s, r) is None);
        },
    }
}

/// The merge policy of a group of commands: the policy of its first element,
/// or `Always` when the group is empty.
pub open spec fn group_policy<C: Command<R>, R: View>(cmds: Seq<C>) -> Merge {
    if cmds.len() == 0 {
        Merge::Always
    } else {
        cmds[0].merge_spec()
    }
}

/// Merged commands.
///
/// Commands that have been merged are all executed, as one unit, in the order
/// they were merged in when applied or redone, and in reverse order when
/// undone. The view of a `Merged` is the sequence of its commands.
#[derive(Debug)]
pub struct Merged<C> {
    commands: Vec<C>,
    text: Option<String>,
}

impl<C> View for Merged<C> {
    type V = Seq<C>;

    closed spec fn view(&self) -> Seq<C> {
        self.commands@
    }
}

impl<C> Merged<C> {
    /// The text attached to the group, as a sequence of characters.
    pub closed spec fn text_spec(&self) -> Option<Seq<char>> {
        match self.text {
            Some(t) => Some(t@),
            None => None,
        }
    }

    /// Returns an empty command.
    pub fn new() -> (r: Merged<C>)
        ensures
            r@ == Seq::<C>::empty(),
            r.text_spec() is None,
    {
        Merged { commands: Vec::new(), text: None }
    }

    /// Merges `cmd1` and `cmd2` into a single command.
    pub fn merge(cmd1: C, cmd2: C) -> (r: Merged<C>)
        ensures
            r@ == seq![cmd1, cmd2],
            r.text_spec() is None,
    {
        let mut commands = Vec::new();
        commands.push(cmd1);
        commands.push(cmd2);
        proof {
            assert(commands@ =~= seq![cmd1, cmd2]);
        }
        Merged { commands, text: None }
    }

    /// Creates a new empty command with the provided text.
    pub fn with_text(text: String) -> (r: Merged<C>)
        ensures
            r@ == Seq::<C>::empty(),
            r.text_spec() == Some(text@),
    {
        Merged { commands: Vec::new(), text: Some(text) }
    }

    /// Merges `self` with `command`.
    pub fn push(&mut self, command: C)
        ensures
            final(self)@ == old(self)@.push(command),
            final(self).text_spec() == old(self).text_spec(),
    {
        self.commands.push(command);
    }

    /// Merges `self` with every command of `other`, in order.
    pub fn append(&mut self, other: Merged<C>)
        ensures
            final(self)@ == old(self)@ + other@,
            final(self).text_spec() == old(self).text_spec(),
    {
        let mut v = other.commands;
        self.commands.append(&mut v);
    }

    /// Merges `self` with `command` and returns the merged command.
    pub fn join(self, command: C) -> (r: Merged<C>)
        ensures
            r@ == self@.push(command),
            r.text_spec() == self.text_spec(),
    {
        let mut merged = self;
        merged.push(command);
        merged
    }

    /// Returns the amount of commands that have been merged.
    pub fn len(&self) -> (n: usize)
        ensures
            n == self@.len(),
    {
        self.commands.len()
    }

    /// Returns `true` if no commands have been merged.
    pub fn is_empty(&self) -> (b: bool)
        ensures
            b == (self@.len() == 0),
    {
        self.commands.is_empty()
    }

    /// The commands of the group, by move, in order.
    pub fn into_commands(self) -> (r: Vec<C>)
        ensures
            r@ == self@,
    {
        self.commands
    }

    /// Returns the text for the merged commands.
    pub fn text(&self) -> (r: Option<&String>)
        ensures
            match r {
                Some(t) => self.text_spec() == Some(t@),
                None => self.text_spec() is None,
            },
    {
        self.text.as_ref()
    }

    /// Sets the text for the merged commands.
    pub fn set_text(&mut self, text: String)
        ensures
            final(self)@ == old(self)@,
            final(self).text_spec() == Some(text@),
    {
        self.text = Some(text);
    }
}

impl<C> Default for Merged<C> {
    fn default() -> (r: Merged<C>)
        ensures
            r@ == Seq::<C>::empty(),
            r.text_spec() is None,
    {
        Merged::new()
    }
}

/// Applies `cmds[i..]` in index order, stopping at the first failure.
fn apply_from<C: Command<R>, R: View>(cmds: &mut Vec<C>, i: usize, receiver: &mut R) -> (res: Result<
    (),
    (),
>)
    requires
        i <= old(cmds).len(),
    ensures
        final(cmds).len() == old(cmds).len(),
        forall|j: int| 0 <= j < i ==> final(cmds)@[j] == old(cmds)@[j],
        res is Ok ==> seq_apply::<C, R>(old(cmds)@.skip(i as int), old(receiver)@) == Some(
            (final(cmds)@.skip(i as int), final(receiver)@),
        ),
        res is Err ==> seq_apply::<C, R>(old(cmds)@.skip(i as int), old(receiver)@) is None && (
        final(cmds)@.skip(i as int),
        final(receiver)@,
        ) == seq_apply_run::<C, R>(old(cmds)@.skip(i as int), old(receiver)@),
    decreases cmds.len() - i,
{
    if i == cmds.len() {
        proof {
            assert(old(cmds)@.skip(i as int) =~= Seq::<C>::empty());
        }
        Ok(())
    } else {
        let res = cmds[i].apply(receiver);
        let ghost mid = cmds@;
        let ghost rmid = *receiver;
        match res {
            Ok(()) => {
                let res2 = apply_from(cmds, i + 1, receiver);
                proof {
                    let pre = old(cmds)@.skip(i as int);
                    assert(pre[0] == old(cmds)@[i as int]);
                    assert(pre.drop_first() =~= mid.skip(i + 1));
                    assert(final(cmds)@.skip(i as int) =~= seq![final(cmds)@[i as int]]
                        + final(cmds)@.skip(i + 1));
                    assert(final(cmds)@[i as int] == mid[i as int]);
                }
                res2
            },
            Err(()) => {
                proof {
                    let pre = old(cmds)@.skip(i as int);
                    assert(pre[0] == old(cmds)@[i as int]);
                    assert(final(cmds)@.skip(i as int) =~= pre);
                }
                Err(())
            },
        }
    }
}

/// Undoes `cmds[..n]` in reverse index order, stopping at the first failure.
fn undo_prefix<C: Command<R>, R: View>(cmds: &mut Vec<C>, n: usize, receiver: &mut R) -> (res: Result<
    (),
    (),
>)
    requires
        n <= old(cmds).len(),
    ensures
        final(cmds).len() == old(cmds).len(),
        forall|j: int| n <= j < old(cmds).len() ==> final(cmds)@[j] == old(cmds)@[j],
        res is Ok ==> seq_undo::<C, R>(old(cmds)@.take(n as int), old(receiver)@) == Some(
            (final(cmds)@.take(n as int), final(receiver)@),
        ),
        res is Err ==> seq_undo::<C, R>(old(cmds)@.take(n as int), old(receiver)@) is None && (
        final(cmds)@.take(n as int),
        final(receiver)@,
        ) == seq_undo_run::<C, R>(old(cmds)@.take(n as int), old(receiver)@),
    decreases n,
{
    if n == 0 {
        proof {
            assert(old(cmds)@.take(0) =~= Seq::<C>::empty());
        }
        Ok(())
    } else {
        let res = cmds[n - 1].undo(receiver);
        let ghost mid = cmds@;
        match res {
            Ok(()) => {
                let res2 = undo_prefix(cmds, n - 1, receiver);
                proof {
                    let pre = old(cmds)@.take(n as int);
                    assert(pre.last() == old(cmds)@[n - 1]);
                    assert(pre.drop_last() =~= mid.take(n - 1));
                    assert(final(cmds)@[n - 1] == mid[n - 1]);
                    assert(final(cmds)@.take(n as int) =~= final(cmds)@.take(n - 1).push(
                        final(cmds)@[n - 1],
                    ));
                }
                res2
            },
            Err(()) => {
                proof {
                    let pre = old(cmds)@.take(n as int);
                    assert(pre.last() == old(cmds)@[n - 1]);
                    assert(final(cmds)@.take(n as int) =~= pre);
                }
                Err(())
            },
        }
    }
}

/// Redoes `cmds[i..]` in index order, stopping at the first failure.
fn redo_from<C: Command<R>, R: View>(cmds: &mut Vec<C>, i: usize, receiver: &mut R) -> (res: Result<
    (),
    (),
>)
    requires
        i <= old(cmds).len(),
    ensures
        final(cmds).len() == old(cmds).len(),
        forall|j: int| 0 <= j < i ==> final(cmds)@[j] == old(cmds)@[j],
        res is Ok ==> seq_redo::<C, R>(old(cmds)@.skip(i as int), old(receiver)@) == Some(
            (final(cmds)@.skip(i as int), final(receiver)@),
        ),
        res is Err ==> seq_redo::<C, R>(old(cmds)@.skip(i as int), old(receiver)@) is None && (
        final(cmds)@.skip(i as int),
        final(receiver)@,
        ) == seq_redo_run::<C, R>(old(cmds)@.skip(i as int), old(receiver)@),
    decreases cmds.len() - i,
{
    if i == cmds.len() {
        proof {
            assert(old(cmds)@.skip(i as int) =~= Seq::<C>::empty());
        }
        Ok(())
    } else {
        let res = cmds[i].redo(receiver);
        let ghost mid = cmds@;
        match res {
            Ok(()) => {
                let res2 = redo_from(cmds, i + 1, receiver);
                proof {
                    let pre = old(cmds)@.skip(i as int);
                    assert(pre[0] == old(cmds)@[i as int]);
                    assert(pre.drop_first() =~= mid.skip(i + 1));
                    assert(final(cmds)@.skip(i as int) =~= seq![final(cmds)@[i as int]]
                        + final(cmds)@.skip(i + 1));
                    assert(final(cmds)@[i as int] == mid[i as int]);
                }
                res2
            },
            Err(()) => {
                proof {
                    let pre = old(cmds)@.skip(i as int);
                    assert(pre[0] == old(cmds)@[i as int]);
                    assert(final(cmds)@.skip(i as int) =~= pre);
                }
                Err(())
            },
        }
    }
}

impl<C> Merged<C> {
    /// Applies every command of the group in index order, stopping at the
    /// first failure. When a command fails, the commands before it stay
    /// applied: the receiver keeps their effect.
    pub fn apply<R: View>(&mut self, receiver: &mut R) -> (res: Result<(), ()>) where C: Command<R>
        ensures
            final(self).text_spec() == old(self).text_spec(),
            final(self)@.len() == old(self)@.len(),
            res is Ok ==> seq_apply::<C, R>(old(self)@, old(receiver)@) == Some(
                (final(self)@, final(receiver)@),
            ),
            res is Err ==> seq_apply::<C, R>(old(self)@, old(receiver)@) is None && (
            final(self)@,
            final(receiver)@,
            ) == seq_apply_run::<C, R>(old(self)@, old(receiver)@),
    {
        let res = apply_from(&mut self.commands, 0, receiver);
        proof {
            assert(old(self)@.skip(0) =~= old(self)@);
            assert(final(self)@.skip(0) =~= final(self)@);
        }
        res
    }

    /// Undoes every command of the group in reverse index order, stopping at
    /// the first failure.
    pub fn undo<R: View>(&mut self, receiver: &mut R) -> (res: Result<(), ()>) where C: Command<R>
        ensures
            final(self).text_spec() == old(self).text_spec(),
            final(self)@.len() == old(self)@.len(),
            res is Ok ==> seq_undo::<C, R>(old(self)@, old(receiver)@) == Some(
                (final(self)@, final(receiver)@),
            ),
            res is Err ==> seq_undo::<C, R>(old(self)@, old(receiver)@) is None && (
            final(self)@,
            final(receiver)@,
            ) == seq_undo_run::<C, R>(old(self)@, old(receiver)@),
    {
        let n = self.commands.len();
        let res = undo_prefix(&mut self.commands, n, receiver);
        proof {
            assert(old(self)@.take(n as int) =~= old(self)@);
            assert(final(self)@.take(n as int) =~= final(self)@);
        }
        res
    }

    /// Redoes every command of the group in index order, stopping at the
    /// first failure.
    pub fn redo<R: View>(&mut self, receiver: &mut R) -> (res: Result<(), ()>) where C: Command<R>
        ensures
            final(self).text_spec() == old(self).text_spec(),
            final(self)@.len() == old(self)@.len(),
            res is Ok ==> seq_redo::<C, R>(old(self)@, old(receiver)@) == Some(
                (final(self)@, final(receiver)@),
            ),
            res is Err ==> seq_redo::<C, R>(old(self)@, old(receiver)@) is None && (
            final(self)@,
            final(receiver)@,
            ) == seq_redo_run::<C, R>(old(self)@, old(receiver)@),
    {
        let res = redo_from(&mut self.commands, 0, receiver);
        proof {
            assert(old(self)@.skip(0) =~= old(self)@);
            assert(final(self)@.skip(0) =~= final(self)@);
        }
        res
    }

    /// The merge policy of the group: that of its first command, or `Always`
    /// when the group is empty.
    pub fn merge_policy<R: View>(&self) -> (m: Merge) where C: Command<R>
        ensures
            m == group_policy::<C, R>(self@),
    {
        if self.commands.len() == 0 {
            Merge::Always
        } else {
            self.commands[0].merge()
        }
    }
}

} // verus!
