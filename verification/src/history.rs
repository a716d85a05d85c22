//! The branching undo-redo engine: a forest of linear timelines with a jump
//! operation that replays commands along the path between two points.

use vstd::prelude::*;

use crate::merge::Merged;
use crate::record::{
    apply_one_model, extend_failure, extend_model, extend_run, go_to_model, redo_model,
    truncate_model, undo_model, with_signals, Meta, Record, RecordBuilder, RecordView,
};
use crate::{Command, Error, Signal};

verus! {

/// A position in the branch forest: a branch and a cursor on its timeline.
#[derive(Clone, Copy, Debug, PartialEq, Eq, Structural)]
pub struct At {
    /// The branch identifier.
    pub branch: usize,
    /// The cursor on that branch's timeline.
    pub cursor: usize,
}

/// A stored (inactive) branch: the entries of its timeline past the fork
/// point, and the position of that fork on the parent timeline.
struct StoredBranch<C> {
    id: usize,
    parent: At,
    entries: Vec<Meta<C>>,
}

/// The model of a stored branch.
#[verifier::ext_equal]
pub ghost struct BranchView<C> {
    /// The branch identifier.
    pub id: int,
    /// The branch the fork lies on.
    pub parent_branch: int,
    /// The position of the fork on the parent timeline.
    pub parent_cursor: int,
    /// The entries of the timeline past the fork.
    pub entries: Seq<Seq<C>>,
}

/// The views of a sequence of stored branches, in storage order.
spec fn branch_views<C>(bs: Seq<StoredBranch<C>>) -> Seq<BranchView<C>> {
    bs.map_values(|b: StoredBranch<C>| b.view_branch())
}

impl<C> StoredBranch<C> {
    spec fn view_branch(&self) -> BranchView<C> {
        BranchView {
            id: self.id as int,
            parent_branch: self.parent.branch as int,
            parent_cursor: self.parent.cursor as int,
            entries: self.entries@.map_values(|m: Meta<C>| m@),
        }
    }
}

/// The model of a history: the identifier of the active branch, the next
/// fresh identifier, the stored branches in storage order, the model of the
/// active record, and the saved position when it lies on a stored branch.
#[verifier::ext_equal]
pub ghost struct HistoryView<C, RV> {
    pub active: int,
    pub next: int,
    pub branches: Seq<BranchView<C>>,
    pub record: RecordView<C, RV>,
    pub saved_other: Option<(int, int)>,
}

impl<C, RV> HistoryView<C, RV> {
    /// The well-formedness invariant of a history: the record is a well-formed
    /// unbounded record; branch identifiers are distinct, below the fresh
    /// counter, and none of them is the active identifier; and a rank map
    /// witnesses that the parent links form a forest under the active branch.
    pub open spec fn wf(self) -> bool {
        &&& self.record.wf()
        &&& self.record.limit is None
        &&& 0 <= self.active < self.next
        &&& forall|i: int|
            0 <= i < self.branches.len() ==> (#[trigger] self.branches[i]).id != self.active && 0
                <= self.branches[i].id < self.next
        &&& forall|i: int, j: int|
            0 <= i < j < self.branches.len() ==> (#[trigger] self.branches[i]).id != (
            #[trigger] self.branches[j]).id
        &&& exists|rank: Map<int, int>| ranked(self.branches, self.active, rank)
    }
}

/// The first stored branch with the given identifier, if any.
pub open spec fn find_branch<C>(bs: Seq<BranchView<C>>, id: int) -> Option<BranchView<C>>
    decreases bs.len(),
{
    if bs.len() == 0 {
        None
    } else if bs[0].id == id {
        Some(bs[0])
    } else {
        find_branch(bs.drop_first(), id)
    }
}

/// Whether `rank` witnesses that the stored branches form a forest under the
/// active branch: every stored branch forks either from the active branch or
/// from a stored branch of strictly smaller, non-negative rank. No chain of
/// parent links can then return to its start.
pub open spec fn ranked<C>(bs: Seq<BranchView<C>>, active: int, rank: Map<int, int>) -> bool {
    forall|i: int|
        0 <= i < bs.len() ==> {
            let b = #[trigger] bs[i];
            &&& 0 <= rank[b.id]
            &&& (b.parent_branch == active || (find_branch(bs, b.parent_branch) is Some
                && rank[b.parent_branch] < rank[b.id]))
        }
}

/// A branch is found exactly when some stored branch carries the identifier.
pub proof fn lemma_find_branch_exists<C>(bs: Seq<BranchView<C>>, id: int)
    ensures
        find_branch(bs, id) is Some <==> exists|i: int| 0 <= i < bs.len() && (#[trigger] bs[i]).id
            == id,
        match find_branch(bs, id) {
            Some(b) => b.id == id && exists|i: int| 0 <= i < bs.len() && (#[trigger] bs[i]) == b,
            None => true,
        },
    decreases bs.len(),
{
    if bs.len() == 0 {
    } else if bs[0].id == id {
    } else {
        lemma_find_branch_exists(bs.drop_first(), id);
        assert forall|i: int| 0 <= i < bs.len() && (#[trigger] bs[i]).id == id implies find_branch(
            bs,
            id,
        ) is Some by {
            assert(bs.drop_first()[i - 1] == bs[i]);
        }
        match find_branch(bs.drop_first(), id) {
            Some(b) => {
                let i = choose|i: int|
                    0 <= i < bs.drop_first().len() && (#[trigger] bs.drop_first()[i]) == b;
                assert(bs[i + 1] == b);
            },
            None => {},
        }
    }
}

/// Whether the stored branch with identifier `k` forks from `active` above
/// `fork`, so that a truncation at `fork` moves it to the new branch.
pub open spec fn reparented_id<C>(bs: Seq<BranchView<C>>, active: int, fork: int, k: int) -> bool {
    exists|i: int|
        0 <= i < bs.len() && (#[trigger] bs[i]).id == k && bs[i].parent_branch == active
            && bs[i].parent_cursor > fork
}

/// The identifier reached from `id` by following `k` parent links through the
/// stored branches.
pub open spec fn kth_parent<C>(bs: Seq<BranchView<C>>, id: int, k: nat) -> Option<int>
    decreases k,
{
    if k == 0 {
        Some(id)
    } else {
        match find_branch(bs, id) {
            Some(b) => kth_parent(bs, b.parent_branch, (k - 1) as nat),
            None => None,
        }
    }
}


/// Removes the first stored branch carrying `id` from the storage sequence.
pub open spec fn remove_branch<C>(bs: Seq<BranchView<C>>, id: int) -> Seq<BranchView<C>>
    decreases bs.len(),
{
    if bs.len() == 0 {
        bs
    } else if bs[0].id == id {
        bs.drop_first()
    } else {
        seq![bs[0]] + remove_branch(bs.drop_first(), id)
    }
}

/// When nothing before position `i` carries its identifier, removing by that
/// identifier removes exactly position `i`.
pub proof fn lemma_remove_branch_at<C>(bs: Seq<BranchView<C>>, i: int)
    requires
        0 <= i < bs.len(),
        forall|j: int| 0 <= j < i ==> (#[trigger] bs[j]).id != bs[i].id,
    ensures
        remove_branch(bs, bs[i].id) =~= bs.remove(i),
    decreases i,
{
    if i == 0 {
        assert(bs.remove(0) =~= bs.drop_first());
    } else {
        assert(bs[0].id != bs[i].id);
        let rest = bs.drop_first();
        assert(rest[i - 1] == bs[i]);
        assert forall|j: int| 0 <= j < i - 1 implies (#[trigger] rest[j]).id != rest[i - 1].id by {
            assert(rest[j] == bs[j + 1]);
        }
        lemma_remove_branch_at(rest, i - 1);
        assert(seq![bs[0]] + rest.remove(i - 1) =~= bs.remove(i));
    }
}

/// With distinct identifiers, the branch an identifier finds is the one
/// element carrying it, wherever it stands.
pub proof fn lemma_find_branch_unique<C>(bs: Seq<BranchView<C>>, i: int)
    requires
        0 <= i < bs.len(),
        forall|p: int, q: int|
            0 <= p < q < bs.len() ==> (#[trigger] bs[p]).id != (#[trigger] bs[q]).id,
    ensures
        find_branch(bs, bs[i].id) == Some(bs[i]),
{
    lemma_find_branch_exists(bs, bs[i].id);
    let b = find_branch(bs, bs[i].id)->Some_0;
    let j = choose|j: int| 0 <= j < bs.len() && (#[trigger] bs[j]) == b;
    if j < i {
        assert(bs[j].id != bs[i].id);
    }
    if i < j {
        assert(bs[i].id != bs[j].id);
    }
}

/// The stored branch that forks directly from the active branch and carries
/// `branch`, if there is one.
pub open spec fn direct_child<C, RV>(h: HistoryView<C, RV>, branch: int) -> Option<BranchView<C>> {
    match find_branch(h.branches, branch) {
        Some(b) => if b.parent_branch == h.active {
            Some(b)
        } else {
            None
        },
        None => None,
    }
}

/// Whether a jump onto position `cursor` of a direct child is possible: its
/// fork lies on the trunk, its timeline length is representable, and the
/// cursor lies on its timeline.
pub open spec fn direct_jump_valid<C, RV>(h: HistoryView<C, RV>, branch: int, cursor: int) -> bool {
    match direct_child(h, branch) {
        Some(b) => {
            &&& b.parent_cursor <= h.record.entries.len()
            &&& b.parent_cursor + b.entries.len() <= usize::MAX
            &&& cursor <= b.parent_cursor + b.entries.len()
        },
        None => false,
    }
}

/// The model of one branch switch onto the stored branch `b`: the record
/// replays to the fork, a saved marker above the fork leaves the trunk, the
/// tail above the fork is stored under the old active identifier while `b`'s
/// entries take its place, the switch is announced with a `Root` signal, the
/// branch becomes active, and a marker remembered on it returns to the trunk.
/// `None` exactly when the replay to the fork fails.
pub open spec fn switch_model<C: Command<R>, R: View>(
    h: HistoryView<C, R::V>,
    b: BranchView<C>,
) -> Option<HistoryView<C, R::V>> {
    match go_to_model::<C, R>(h.record, b.parent_cursor) {
        Some(r1) => {
            let migrates = match r1.saved {
                Some(sv) => sv > b.parent_cursor,
                None => false,
            };
            let r2 = if migrates {
                with_signals(r1, (RecordView { saved: None, ..r1 }), false)
            } else {
                r1
            };
            let so2 = if migrates {
                match r1.saved {
                    Some(sv) => Some((h.active, sv)),
                    None => h.saved_other,
                }
            } else {
                h.saved_other
            };
            let stored = BranchView {
                id: h.active,
                parent_branch: b.id,
                parent_cursor: b.parent_cursor,
                entries: r2.entries.skip(b.parent_cursor),
            };
            let swapped = RecordView {
                entries: r2.entries.take(b.parent_cursor) + b.entries,
                ..r2
            };
            let rooted = RecordView {
                sink: match swapped.sink {
                    Some(q) => Some(
                        q.push(Signal::Root { old: h.active as usize, new: b.id as usize }),
                    ),
                    None => None,
                },
                ..swapped
            };
            let r3 = match so2 {
                Some(pr) => if pr.0 == b.id && pr.1 <= rooted.entries.len() {
                    with_signals(rooted, (RecordView { saved: Some(pr.1), ..rooted }), false)
                } else {
                    rooted
                },
                None => rooted,
            };
            let so3 = match so2 {
                Some(pr) => if pr.0 == b.id {
                    None
                } else {
                    so2
                },
                None => None,
            };
            Some(
                HistoryView {
                    active: b.id,
                    next: h.next,
                    branches: remove_branch(h.branches, b.id).push(stored),
                    record: r3,
                    saved_other: so3,
                },
            )
        },
        None => None,
    }
}

/// The result of a sequence of branch switches, each onto a branch that is
/// stored, forks from the then-active branch, and forks within the trunk.
/// `None` when a switch is not of that shape or its replay fails.
pub open spec fn run_switches<C: Command<R>, R: View>(
    h: HistoryView<C, R::V>,
    ch: Seq<BranchView<C>>,
) -> Option<HistoryView<C, R::V>>
    decreases ch.len(),
{
    if ch.len() == 0 {
        Some(h)
    } else if find_branch(h.branches, ch[0].id) == Some(ch[0]) && ch[0].parent_branch == h.active
        && ch[0].parent_cursor <= h.record.entries.len() {
        match switch_model::<C, R>(h, ch[0]) {
            Some(h2) => run_switches::<C, R>(h2, ch.drop_first()),
            None => None,
        }
    } else {
        None
    }
}

/// A run of switches extends by one switch at its end.
pub proof fn lemma_run_switches_snoc<C: Command<R>, R: View>(
    h: HistoryView<C, R::V>,
    ch: Seq<BranchView<C>>,
    hk: HistoryView<C, R::V>,
    b: BranchView<C>,
)
    requires
        run_switches::<C, R>(h, ch) == Some(hk),
        find_branch(hk.branches, b.id) == Some(b),
        b.parent_branch == hk.active,
        b.parent_cursor <= hk.record.entries.len(),
        switch_model::<C, R>(hk, b) is Some,
    ensures
        run_switches::<C, R>(h, ch.push(b)) == switch_model::<C, R>(hk, b),
    decreases ch.len(),
{
    if ch.len() == 0 {
        assert(hk == h);
        assert(ch.push(b)[0] == b);
        let rest = ch.push(b).drop_first();
        assert(rest =~= Seq::<BranchView<C>>::empty());
        let h2 = switch_model::<C, R>(h, b)->Some_0;
        assert(run_switches::<C, R>(h2, rest) == Some(h2));
        assert(run_switches::<C, R>(h, ch.push(b)) == Some(h2));
    } else {
        assert(ch.push(b)[0] == ch[0]);
        let h2 = switch_model::<C, R>(h, ch[0])->Some_0;
        assert(run_switches::<C, R>(h2, ch.drop_first()) == Some(hk));
        assert(ch.push(b).drop_first() =~= ch.drop_first().push(b));
        lemma_run_switches_snoc::<C, R>(h2, ch.drop_first(), hk, b);
        assert(run_switches::<C, R>(h, ch.push(b)) == run_switches::<C, R>(
            h2,
            ch.drop_first().push(b),
        ));
    }
}

/// The branching undo-redo engine. It keeps exactly one active timeline in a
/// linear record; applying a command in the middle of the timeline stores the
/// displaced future as a sibling branch instead of dropping it, and a jump
/// can replay the receiver to any position of any branch.
pub struct History<C, R> {
    active: usize,
    next: usize,
    branches: Vec<StoredBranch<C>>,
    record: Record<C, R>,
    saved_other: Option<At>,
}

impl<C, R: View> View for History<C, R> {
    type V = HistoryView<C, R::V>;

    closed spec fn view(&self) -> HistoryView<C, R::V> {
        HistoryView {
            active: self.active as int,
            next: self.next as int,
            branches: self.branches@.map_values(|b: StoredBranch<C>| b.view_branch()),
            record: self.record@,
            saved_other: match self.saved_other {
                Some(at) => Some((at.branch as int, at.cursor as int)),
                None => None,
            },
        }
    }
}

impl<C, R: View> History<C, R> {
    /// A history owning `receiver`, with no saved state and no sink.
    pub fn new(receiver: R) -> (r: History<C, R>)
        ensures
            r@.wf(),
            r@.active == 0,
            r@.next == 1,
            r@.branches == Seq::<BranchView<C>>::empty(),
            r@.saved_other is None,
            r@.record == (RecordView::<C, R::V> {
                entries: Seq::empty(),
                cursor: 0,
                limit: None,
                saved: None,
                receiver: receiver@,
                sink: None,
            }),
    {
        let r = History {
            active: 0,
            next: 1,
            branches: Vec::new(),
            record: Record::new(receiver),
            saved_other: None,
        };
        proof {
            assert(r@.branches =~= Seq::<BranchView<C>>::empty());
            assert(ranked(r@.branches, r@.active, Map::<int, int>::empty()));
        }
        r
    }

    /// A history built from a record builder's saved state and sink choices.
    /// A history puts no bound on its timeline: the builder's limit is
    /// ignored.
    pub fn with_builder(builder: RecordBuilder, receiver: R) -> (r: History<C, R>)
        ensures
            r@.wf(),
            r@.active == 0,
            r@.next == 1,
            r@.branches == Seq::<BranchView<C>>::empty(),
            r@.saved_other is None,
            r@.record == (RecordView::<C, R::V> {
                entries: Seq::empty(),
                cursor: 0,
                limit: None,
                saved: if builder.saved_spec() {
                    Some(0int)
                } else {
                    None
                },
                receiver: receiver@,
                sink: if builder.sink_spec() {
                    Some(Seq::<Signal>::empty())
                } else {
                    None
                },
            }),
    {
        let r = History {
            active: 0,
            next: 1,
            branches: Vec::new(),
            record: builder.unlimited().build(receiver),
            saved_other: None,
        };
        proof {
            assert(r@.branches =~= Seq::<BranchView<C>>::empty());
            assert(ranked(r@.branches, r@.active, Map::<int, int>::empty()));
        }
        r
    }

    /// The identifier of the active branch.
    pub fn branch(&self) -> (b: usize)
        ensures
            b == self@.active,
    {
        self.active
    }

    /// The identifier of the active branch; the engine announces changes of
    /// it with the `Root` signal.
    pub fn root(&self) -> (b: usize)
        ensures
            b == self@.active,
    {
        self.active
    }

    /// Whether the history can undo.
    pub fn can_undo(&self) -> (b: bool)
        ensures
            b == self@.record.can_undo(),
    {
        self.record.can_undo()
    }

    /// Whether the history can redo.
    pub fn can_redo(&self) -> (b: bool)
        ensures
            b == self@.record.can_redo(),
    {
        self.record.can_redo()
    }

    /// Whether the receiver is in its saved state.
    pub fn is_saved(&self) -> (b: bool)
        ensures
            b == self@.record.is_saved(),
    {
        self.record.is_saved()
    }

    /// The number of entries on the active timeline.
    pub fn len(&self) -> (n: usize)
        ensures
            n == self@.record.entries.len(),
    {
        self.record.len()
    }

    /// The cursor on the active timeline.
    pub fn cursor(&self) -> (c: usize)
        ensures
            c == self@.record.cursor,
    {
        self.record.cursor()
    }

    /// A reference to the receiver.
    pub fn as_receiver(&self) -> (r: &R)
        ensures
            r@ == self@.record.receiver,
    {
        self.record.as_receiver()
    }

    /// The receiver, by move; the retained branches are dropped.
    pub fn into_receiver(self) -> (r: R)
        ensures
            r@ == self@.record.receiver,
    {
        self.record.into_receiver()
    }

    /// Drains and returns the signals recorded since the last call.
    pub fn take_signals(&mut self) -> (sigs: Vec<Signal>)
        ensures
            match old(self)@.record.sink {
                Some(q) => sigs@ == q && final(self)@ == (HistoryView {
                    record: RecordView { sink: Some(Seq::<Signal>::empty()), ..old(self)@.record },
                    ..old(self)@
                }),
                None => sigs@ == Seq::<Signal>::empty() && final(self)@ == old(self)@,
            },
    {
        self.record.take_signals()
    }
}

/// A stored branch after a truncation on branch `active` at `fork`: a branch
/// whose fork lay above the truncation point moves to the new branch `to`,
/// every other branch is unchanged.
pub open spec fn reparent_model<C>(b: BranchView<C>, active: int, fork: int, to: int) -> BranchView<
    C,
> {
    if b.parent_branch == active && b.parent_cursor > fork {
        BranchView { parent_branch: to, ..b }
    } else {
        b
    }
}

impl<C: Command<R>, R: View> History<C, R> {
    /// Applies a command on the active timeline. The displaced redo tail, if
    /// any, becomes a new sibling branch instead of being dropped; branches
    /// that forked above the truncation point move to that new branch, and a
    /// saved position that lay in the displaced tail migrates with it.
    pub fn apply(&mut self, command: C) -> (res: Result<(), Error<C>>)
        requires
            old(self)@.wf(),
            old(self)@.next < usize::MAX,
        ensures
            final(self)@.wf(),
            final(self)@.next <= old(self)@.next + 1,
            command.apply_spec(old(self)@.record.receiver) is Some <==> res is Ok,
            res is Ok ==> final(self)@.record == apply_one_model::<C, R>(
                old(self)@.record,
                command,
            ) && final(self)@.active == old(self)@.active && final(self)@.record.cursor == final(self)@.record.entries.len(),
            res is Ok && old(self)@.record.cursor == old(self)@.record.entries.len() ==> final(self)@ == (HistoryView {
                record: apply_one_model::<C, R>(old(self)@.record, command),
                ..old(self)@
            }),
            res is Ok && old(self)@.record.cursor < old(self)@.record.entries.len() ==> {
                let pre = old(self)@;
                let tail = pre.record.entries.skip(pre.record.cursor);
                &&& final(self)@.next == pre.next + 1
                &&& final(self)@.branches == pre.branches.map_values(
                    |b: BranchView<C>|
                        reparent_model(b, pre.active, pre.record.cursor, pre.next),
                ).push(
                    BranchView {
                        id: pre.next,
                        parent_branch: pre.active,
                        parent_cursor: pre.record.cursor,
                        entries: tail,
                    },
                )
                &&& final(self)@.saved_other == (match pre.record.saved {
                    Some(sv) => if sv > pre.record.cursor {
                        Some((pre.next, sv))
                    } else {
                        pre.saved_other
                    },
                    None => pre.saved_other,
                })
            },
            res matches Err(e) ==> final(self)@ == (HistoryView {
                record: truncate_model(old(self)@.record),
                ..old(self)@
            }) && e.command_spec() == command,
    {
        let ghost pre = self@;
        let sv = self.record.saved_position();
        let cb = self.record.cursor();
        match self.record.apply(command) {
            Err(e) => {
                proof {
                    let r0 = choose|r: Map<int, int>| ranked(pre.branches, pre.active, r);
                    assert(ranked(self@.branches, self@.active, r0));
                }
                Err(e)
            },
            Ok(tail) => {
                proof {
                    crate::merge::lemma_seq_apply_singleton::<C, R>(command, pre.record.receiver);
                    let m = apply_one_model::<C, R>(pre.record, command);
                    assert(self.record@ == m);
                    assert(m.cursor == m.entries.len() && m.limit is None);
                }
                if tail.len() > 0 {
                    proof {
                        assert(tail@.map_values(|m: Meta<C>| m@).len() == tail@.len());
                        assert(pre.record.entries.skip(pre.record.cursor).len() > 0);
                        assert(pre.record.cursor < pre.record.entries.len());
                    }
                    let id = self.next;
                    self.next = self.next + 1;
                    let ghost rec_mid = self.record@;
                    let ghost so_mid = self.saved_other;
                    let mut i: usize = 0;
                    while i < self.branches.len()
                        invariant
                            self.record@ == rec_mid,
                            self.next == id + 1,
                            id == pre.next,
                            cb == pre.record.cursor,
                            self.active as int == pre.active,
                            self.saved_other == so_mid,
                            i <= self.branches@.len(),
                            self.branches@.len() == pre.branches.len(),
                            forall|j: int|
                                0 <= j < i ==> (#[trigger] branch_views(self.branches@)[j])
                                    == reparent_model(
                                    pre.branches[j],
                                    pre.active,
                                    pre.record.cursor,
                                    pre.next,
                                ),
                            forall|j: int|
                                i <= j < pre.branches.len() ==> (#[trigger] branch_views(
                                    self.branches@,
                                )[j]) == pre.branches[j],
                        decreases self.branches@.len() - i,
                    {
                        let ghost before = branch_views(self.branches@);
                        if self.branches[i].parent.branch == self.active
                            && self.branches[i].parent.cursor > cb {
                            let mut b = self.branches.remove(i);
                            b = StoredBranch { parent: At { branch: id, cursor: b.parent.cursor }, ..b };
                            self.branches.insert(i, b);
                            proof {
                                assert(branch_views(self.branches@) =~= before.update(
                                    i as int,
                                    reparent_model(
                                        before[i as int],
                                        pre.active,
                                        pre.record.cursor,
                                        pre.next,
                                    ),
                                ));
                            }
                        } else {
                            proof {
                                assert(before[i as int] == reparent_model(
                                    before[i as int],
                                    pre.active,
                                    pre.record.cursor,
                                    pre.next,
                                ));
                            }
                        }
                        i = i + 1;
                    }
                    proof {
                        assert(branch_views(self.branches@) =~~= pre.branches.map_values(
                            |b: BranchView<C>|
                                reparent_model(b, pre.active, pre.record.cursor, pre.next),
                        ));
                    }
                    let ghost mapped = branch_views(self.branches@);
                    let tail_branch = StoredBranch {
                        id,
                        parent: At { branch: self.active, cursor: cb },
                        entries: tail,
                    };
                    self.branches.push(tail_branch);
                    match sv {
                        Some(v) => if v > cb {
                            self.saved_other = Some(At { branch: id, cursor: v });
                        },
                        None => {},
                    }
                    proof {
                        assert(self@.branches =~~= pre.branches.map_values(
                            |b: BranchView<C>|
                                reparent_model(b, pre.active, pre.record.cursor, pre.next),
                        ).push(
                            BranchView {
                                id: pre.next,
                                parent_branch: pre.active,
                                parent_cursor: pre.record.cursor,
                                entries: pre.record.entries.skip(pre.record.cursor),
                            },
                        ));
                        let r0 = choose|r: Map<int, int>| ranked(pre.branches, pre.active, r);
                        let r1 = Map::<int, int>::new(
                            |k: int| true,
                            |k: int|
                                if k == pre.next {
                                    0
                                } else if reparented_id(
                                    pre.branches,
                                    pre.active,
                                    pre.record.cursor,
                                    k,
                                ) {
                                    1
                                } else {
                                    r0[k] + 2
                                },
                        );
                        assert(ranked(self@.branches, pre.active, r1)) by {
                            let bs = self@.branches;
                            let fork = pre.record.cursor;
                            assert forall|i: int| 0 <= i < bs.len() implies ({
                                let b = #[trigger] bs[i];
                                &&& 0 <= r1[b.id]
                                &&& (b.parent_branch == pre.active || (find_branch(
                                    bs,
                                    b.parent_branch,
                                ) is Some && r1[b.parent_branch] < r1[b.id]))
                            }) by {
                                if i == bs.len() - 1 {
                                    assert(bs[i].id == pre.next && bs[i].parent_branch
                                        == pre.active);
                                } else {
                                    let ob = pre.branches[i];
                                    assert(bs[i] == reparent_model(
                                        ob,
                                        pre.active,
                                        fork,
                                        pre.next,
                                    ));
                                    assert(0 <= r0[ob.id]);
                                    assert(ob.id != pre.next);
                                    if ob.parent_branch == pre.active && ob.parent_cursor
                                        > fork {
                                        lemma_find_branch_exists(bs, pre.next as int);
                                        assert(bs[bs.len() - 1].id == pre.next);
                                        assert(reparented_id(
                                            pre.branches,
                                            pre.active,
                                            fork,
                                            ob.id,
                                        ));
                                        assert(r1[ob.id] == 1);
                                    } else {
                                        if reparented_id(pre.branches, pre.active, fork, ob.id) {
                                            let j = choose|j: int|
                                                0 <= j < pre.branches.len() && (
                                                #[trigger] pre.branches[j]).id == ob.id
                                                    && pre.branches[j].parent_branch == pre.active
                                                    && pre.branches[j].parent_cursor > fork;
                                            assert(j == i);
                                            assert(false);
                                        }
                                        assert(r1[ob.id] == r0[ob.id] + 2);
                                        if ob.parent_branch != pre.active {
                                            lemma_find_branch_exists(
                                                pre.branches,
                                                ob.parent_branch,
                                            );
                                            let pj = choose|pj: int|
                                                0 <= pj < pre.branches.len() && (
                                                #[trigger] pre.branches[pj]).id
                                                    == ob.parent_branch;
                                            assert(bs[pj].id == ob.parent_branch);
                                            lemma_find_branch_exists(bs, ob.parent_branch);
                                            assert(ob.parent_branch != pre.next);
                                        }
                                    }
                                }
                            }
                        }
                        assert(self@.wf()) by {
                            let bs = self@.branches;
                            assert forall|k: int| 0 <= k < bs.len() implies (#[trigger] bs[k]).id
                                != self@.active && 0 <= bs[k].id < self@.next by {
                                if k < bs.len() - 1 {
                                    assert(bs[k] == reparent_model(
                                        pre.branches[k],
                                        pre.active,
                                        pre.record.cursor,
                                        pre.next,
                                    ));
                                }
                            }
                            assert forall|k: int, l: int| 0 <= k < l < bs.len() implies (
                            #[trigger] bs[k]).id != (#[trigger] bs[l]).id by {
                                if k < bs.len() - 1 {
                                    assert(bs[k] == reparent_model(
                                        pre.branches[k],
                                        pre.active,
                                        pre.record.cursor,
                                        pre.next,
                                    ));
                                }
                                if l < bs.len() - 1 {
                                    assert(bs[l] == reparent_model(
                                        pre.branches[l],
                                        pre.active,
                                        pre.record.cursor,
                                        pre.next,
                                    ));
                                }
                            }
                        }
                    }
                } else {
                    proof {
                        assert(pre.record.entries.skip(pre.record.cursor).len() == 0);
                        assert(self@ =~~= (HistoryView {
                            record: apply_one_model::<C, R>(pre.record, command),
                            ..pre
                        }));
                        let r0 = choose|r: Map<int, int>| ranked(pre.branches, pre.active, r);
                        assert(ranked(self@.branches, self@.active, r0));
                    }
                }
                Ok(())
            },
        }
    }

    /// Undoes the top applied entry of the active timeline, as the linear
    /// engine does; the branch forest is untouched.
    pub fn undo(&mut self) -> (res: Option<Result<(), ()>>)
        requires
            old(self)@.wf(),
        ensures
            final(self)@.wf(),
            final(self)@ == (HistoryView { record: final(self)@.record, ..old(self)@ }),
            match res {
                None => old(self)@.record.cursor == 0 && final(self)@.record == old(self)@.record,
                Some(Ok(())) => undo_model::<C, R>(old(self)@.record) == Some(final(self)@.record),
                Some(Err(())) => undo_model::<C, R>(old(self)@.record) is None && final(self)@.record.cursor == old(self)@.record.cursor,
            },
    {
        let res = self.record.undo();
        proof {
            let r0 = choose|r: Map<int, int>|
                ranked(old(self)@.branches, old(self)@.active, r);
            assert(ranked(self@.branches, self@.active, r0));
        }
        res
    }

    /// Redoes the first undone entry of the active timeline, as the linear
    /// engine does; the branch forest is untouched.
    pub fn redo(&mut self) -> (res: Option<Result<(), ()>>)
        requires
            old(self)@.wf(),
        ensures
            final(self)@.wf(),
            final(self)@ == (HistoryView { record: final(self)@.record, ..old(self)@ }),
            match res {
                None => old(self)@.record.cursor == old(self)@.record.entries.len() && final(self)@.record == old(self)@.record,
                Some(Ok(())) => redo_model::<C, R>(old(self)@.record) == Some(final(self)@.record),
                Some(Err(())) => redo_model::<C, R>(old(self)@.record) is None && final(self)@.record.cursor == old(self)@.record.cursor,
            },
    {
        let res = self.record.redo();
        proof {
            let r0 = choose|r: Map<int, int>|
                ranked(old(self)@.branches, old(self)@.active, r);
            assert(ranked(self@.branches, self@.active, r0));
        }
        res
    }

    /// Marks (or unmarks) the current position as the saved state; a marker
    /// remembered on a stored branch is forgotten either way.
    pub fn set_saved(&mut self, saved: bool)
        requires
            old(self)@.wf(),
        ensures
            final(self)@.wf(),
            final(self)@ == (HistoryView {
                record: with_signals(
                    old(self)@.record,
                    (RecordView {
                        saved: if saved {
                            Some(old(self)@.record.cursor)
                        } else {
                            None
                        },
                        ..old(self)@.record
                    }),
                    false,
                ),
                saved_other: None,
                ..old(self)@
            }),
    {
        self.saved_other = None;
        self.record.set_saved(saved);
        proof {
            let r0 = choose|r: Map<int, int>|
                ranked(old(self)@.branches, old(self)@.active, r);
            assert(ranked(self@.branches, self@.active, r0));
        }
    }

    /// Undoes every applied entry of the active timeline, stopping at the
    /// first failure.
    pub fn revert(&mut self) -> (res: Option<Result<(), ()>>)
        requires
            old(self)@.wf(),
        ensures
            final(self)@.wf(),
            final(self)@ == (HistoryView { record: final(self)@.record, ..old(self)@ }),
            match res {
                Some(Ok(())) => go_to_model::<C, R>(old(self)@.record, 0) == Some(
                    final(self)@.record,
                ) && final(self)@.record.cursor == 0,
                Some(Err(())) => go_to_model::<C, R>(old(self)@.record, 0) is None,
                None => false,
            },
    {
        let res = self.record.revert();
        proof {
            let r0 = choose|r: Map<int, int>|
                ranked(old(self)@.branches, old(self)@.active, r);
            assert(ranked(self@.branches, self@.active, r0));
        }
        res
    }

    /// Applies each command in order, stopping at the first failure. At most
    /// one new branch is created: only the first application can displace a
    /// redo tail.
    pub fn extend(&mut self, commands: Vec<C>) -> (res: Result<(), Error<C>>)
        requires
            old(self)@.wf(),
            old(self)@.next + 1 < usize::MAX,
        ensures
            final(self)@.wf(),
            final(self)@.active == old(self)@.active,
            extend_model::<C, R>(old(self)@.record, commands@) is Some <==> res is Ok,
            res is Ok ==> extend_model::<C, R>(old(self)@.record, commands@) == Some(
                final(self)@.record,
            ),
            res matches Err(e) ==> final(self)@.record == extend_run::<C, R>(
                old(self)@.record,
                commands@,
            ) && extend_failure::<C, R>(old(self)@.record, commands@) == Some(e.command_spec()),
    {
        let mut rest = commands;
        loop
            invariant
                old(self)@.next + 1 < usize::MAX,
                self@.wf(),
                rest@.len() <= commands@.len(),
                self@.next <= old(self)@.next + 1,
                rest@.len() == commands@.len() ==> self@.next == old(self)@.next,
                self@.active == old(self)@.active,
                rest@.len() < commands@.len() ==> self@.record.cursor
                    == self@.record.entries.len(),
                extend_model::<C, R>(old(self)@.record, commands@) == extend_model::<C, R>(
                    self@.record,
                    rest@,
                ),
                extend_run::<C, R>(old(self)@.record, commands@) == extend_run::<C, R>(
                    self@.record,
                    rest@,
                ),
                extend_failure::<C, R>(old(self)@.record, commands@) == extend_failure::<C, R>(
                    self@.record,
                    rest@,
                ),
            ensures
                rest@.len() == 0,
                self@.wf(),
                self@.active == old(self)@.active,
                extend_model::<C, R>(old(self)@.record, commands@) == extend_model::<C, R>(
                    self@.record,
                    rest@,
                ),
            decreases rest.len(),
        {
            if rest.len() == 0 {
                break;
            }
            let ghost prev = self@.record;
            let ghost rest0 = rest@;
            let c = rest.remove(0);
            proof {
                assert(rest@ =~= rest0.drop_first());
            }
            match self.apply(c) {
                Ok(_) => {
                    proof {
                        assert(extend_model::<C, R>(prev, rest0) == extend_model::<C, R>(
                            self@.record,
                            rest@,
                        ));
                        assert(extend_run::<C, R>(prev, rest0) == extend_run::<C, R>(
                            self@.record,
                            rest@,
                        ));
                        assert(extend_failure::<C, R>(prev, rest0) == extend_failure::<C, R>(
                            self@.record,
                            rest@,
                        ));
                    }
                },
                Err(e) => {
                    proof {
                        assert(extend_model::<C, R>(prev, rest0) is None);
                        assert(extend_run::<C, R>(prev, rest0) == truncate_model(prev));
                        assert(extend_failure::<C, R>(prev, rest0) == Some(c));
                    }
                    return Err(e);
                },
            }
        }
        proof {
            assert(extend_model::<C, R>(self@.record, rest@) == Some(self@.record));
        }
        Ok(())
    }

    /// Finds the index of the stored branch with identifier `id`.
    fn find_stored(&self, id: usize) -> (r: Option<usize>)
        ensures
            match r {
                Some(i) => i < self@.branches.len() && self@.branches[i as int].id == id,
                None => forall|k: int|
                    0 <= k < self@.branches.len() ==> (#[trigger] self@.branches[k]).id != id,
            },
    {
        let n = self.branches.len();
        let mut i: usize = 0;
        let mut found: bool = false;
        let mut bi: usize = 0;
        while i < n
            invariant
                n == self@.branches.len(),
                i <= n,
                found ==> bi < n && self@.branches[bi as int].id == id,
                !found ==> forall|k: int|
                    0 <= k < i ==> (#[trigger] self@.branches[k]).id != id,
            decreases n - i,
        {
            if !found && self.branches[i].id == id {
                found = true;
                bi = i;
            }
            i = i + 1;
        }
        if found {
            Some(bi)
        } else {
            None
        }
    }

    /// Replays the receiver to position `cursor` of branch `branch`, crossing
    /// branch boundaries: the engine undoes down to each fork, swaps the
    /// stored branch in (the displaced timeline is stored in its place, and
    /// the saved marker migrates between the trunk and the stored branches),
    /// announces each switch with a `Root` signal, and finally steps to the
    /// target cursor. Returns `None`, changing nothing, when the target
    /// branch is unknown, its chain of forks is inconsistent, or the cursor
    /// lies outside the target timeline; returns a failure result when a
    /// command fails along the path, leaving the engine at the last
    /// consistent position. A jump within the active branch is pinned exactly
    /// by `go_to_model`, a jump onto a branch forked directly from it by
    /// `switch_model`; any successful jump ends in a state reached from the
    /// starting one by a chain of such switches (`run_switches`) followed by
    /// a replay to the cursor.
    pub fn go_to(&mut self, branch: usize, cursor: usize) -> (res: Option<Result<(), ()>>)
        requires
            old(self)@.wf(),
        ensures
            final(self)@.wf(),
            res is None ==> final(self)@ == old(self)@,
            branch == old(self)@.active ==> final(self)@ == (HistoryView {
                record: final(self)@.record,
                ..old(self)@
            }) && match res {
                None => cursor > old(self)@.record.entries.len() && final(self)@.record == old(
                    self,
                )@.record,
                Some(Ok(())) => go_to_model::<C, R>(old(self)@.record, cursor as int) == Some(
                    final(self)@.record,
                ) && final(self)@.record.cursor == cursor,
                Some(Err(())) => go_to_model::<C, R>(old(self)@.record, cursor as int) is None,
            },
            branch != old(self)@.active ==> match res {
                None => true,
                Some(Ok(())) => final(self)@.active == branch && final(self)@.record.cursor
                    == cursor && exists|ch: Seq<BranchView<C>>|
                    {
                        &&& (#[trigger] run_switches::<C, R>(old(self)@, ch)) matches Some(hn)
                        &&& hn.active == branch
                        &&& go_to_model::<C, R>(hn.record, cursor as int) == Some(
                            final(self)@.record,
                        )
                        &&& final(self)@ == (HistoryView { record: final(self)@.record, ..hn })
                    },
                Some(Err(())) => true,
            },
            branch != old(self)@.active && find_branch(old(self)@.branches, branch as int)
                is None ==> res is None,
            branch != old(self)@.active ==> (direct_child(old(self)@, branch as int)
                matches Some(b) ==> {
                &&& (res is None <==> !direct_jump_valid(old(self)@, branch as int, cursor as int))
                &&& match res {
                    None => true,
                    Some(Ok(())) => switch_model::<C, R>(old(self)@, b) matches Some(h1)
                        && go_to_model::<C, R>(h1.record, cursor as int) == Some(
                        final(self)@.record,
                    ) && final(self)@ == (HistoryView { record: final(self)@.record, ..h1 }),
                    Some(Err(())) => switch_model::<C, R>(old(self)@, b) matches Some(h1)
                        ==> go_to_model::<C, R>(h1.record, cursor as int) is None,
                }
            }),
    {
        if branch == self.active {
            let res = self.record.go_to(cursor);
            proof {
                let r0 = choose|r: Map<int, int>|
                    ranked(old(self)@.branches, old(self)@.active, r);
                assert(ranked(self@.branches, self@.active, r0));
            }
            return res;
        }
        // collect the chain of branch identifiers from the target up to the
        // active branch, rejecting unknown links
        let mut ids: Vec<usize> = Vec::new();
        let mut cur: usize = branch;
        let mut fuel: usize = self.branches.len();
        loop
            invariant_except_break
                direct_child(old(self)@, branch as int) is Some ==> ids@.len() == 0,
            invariant
                branch as int != old(self)@.active,
                self == old(self),
                self@.wf(),
                ids@.len() == 0 ==> cur == branch,
                ids@.len() > 0 ==> ids@[0] == branch,
                ids@.len() > 0 ==> find_branch(old(self)@.branches, branch as int) is Some,
                cur as int != self@.active,
            ensures
                branch as int != old(self)@.active,
                self == old(self),
                ids@.len() > 0,
                ids@[0] == branch,
                find_branch(old(self)@.branches, branch as int) is Some,
                direct_child(old(self)@, branch as int) is Some ==> ids@ == seq![branch],
            decreases fuel,
        {
            let ghost dc = direct_child(old(self)@, branch as int);
            let bi = match self.find_stored(cur) {
                Some(bi) => bi,
                None => {
                    proof {
                        if ids@.len() == 0 {
                            lemma_find_branch_exists(self@.branches, branch as int);
                        }
                    }
                    return None;
                },
            };
            proof {
                if ids@.len() == 0 {
                    lemma_find_branch_exists(self@.branches, branch as int);
                    lemma_find_branch_unique(self@.branches, bi as int);
                }
            }
            ids.push(cur);
            let pb = self.branches[bi].parent.branch;
            if pb == self.active {
                proof {
                    if dc is Some {
                        assert(ids@ =~= seq![branch]);
                    }
                }
                break;
            }
            if fuel == 0 {
                return None;
            }
            fuel = fuel - 1;
            cur = pb;
        }
        // check every fork along the path against the timeline it forks from
        let mut expected_len: usize = self.record.len();
        let mut k: usize = ids.len();
        loop
            invariant
                branch as int != old(self)@.active,
                self == old(self),
                self@.wf(),
                k <= ids@.len(),
                ids@.len() > 0,
                ids@[0] == branch,
                find_branch(old(self)@.branches, branch as int) is Some,
                direct_child(old(self)@, branch as int) matches Some(b) ==> {
                    &&& ids@ == seq![branch]
                    &&& (k == 1 ==> expected_len == old(self)@.record.entries.len())
                    &&& (k == 0 ==> b.parent_cursor <= old(self)@.record.entries.len()
                        && b.parent_cursor + b.entries.len() <= usize::MAX && expected_len
                        == b.parent_cursor + b.entries.len())
                },
            ensures
                branch as int != old(self)@.active,
                self == old(self),
                k == 0,
                ids@.len() > 0,
                ids@[0] == branch,
                find_branch(old(self)@.branches, branch as int) is Some,
                direct_child(old(self)@, branch as int) matches Some(b) ==> {
                    &&& ids@ == seq![branch]
                    &&& b.parent_cursor <= old(self)@.record.entries.len()
                    &&& b.parent_cursor + b.entries.len() <= usize::MAX
                    &&& expected_len == b.parent_cursor + b.entries.len()
                },
            decreases k,
        {
            if k == 0 {
                break;
            }
            k = k - 1;
            let ghost dc = direct_child(old(self)@, branch as int);
            let bi = match self.find_stored(ids[k]) {
                Some(bi) => bi,
                None => {
                    proof {
                        if dc is Some {
                            lemma_find_branch_exists(self@.branches, ids@[k as int] as int);
                        }
                    }
                    return None;
                },
            };
            proof {
                if dc is Some {
                    lemma_find_branch_unique(self@.branches, bi as int);
                }
            }
            let fork = self.branches[bi].parent.cursor;
            if fork > expected_len {
                return None;
            }
            let blen = self.branches[bi].entries.len();
            if usize::MAX - fork < blen {
                return None;
            }
            expected_len = fork + blen;
        }
        if cursor > expected_len {
            return None;
        }
        // execute the path: switch branches from the top of the chain down to
        // the target
        let mut k: usize = ids.len();
        let ghost mut tr: Seq<BranchView<C>> = Seq::empty();
        loop
            invariant
                branch as int != old(self)@.active,
                self@.wf(),
                k <= ids@.len(),
                ids@.len() > 0,
                ids@[0] == branch,
                find_branch(old(self)@.branches, branch as int) is Some,
                run_switches::<C, R>(old(self)@, tr) == Some(self@),
                k < ids@.len() ==> self@.active == ids@[k as int] as int,
                direct_child(old(self)@, branch as int) matches Some(b) ==> {
                    &&& ids@ == seq![branch]
                    &&& direct_jump_valid(old(self)@, branch as int, cursor as int)
                    &&& (k == 1 ==> self@ == old(self)@)
                    &&& (k == 0 ==> (switch_model::<C, R>(old(self)@, b) matches Some(h1) && self@
                        == h1 && self@.record.entries.len() == b.parent_cursor
                        + b.entries.len()))
                },
            ensures
                branch as int != old(self)@.active,
                self@.wf(),
                k == 0,
                self@.active == ids@[0] as int,
                ids@[0] == branch,
                run_switches::<C, R>(old(self)@, tr) == Some(self@),
                direct_child(old(self)@, branch as int) matches Some(b) ==> {
                    &&& direct_jump_valid(old(self)@, branch as int, cursor as int)
                    &&& (switch_model::<C, R>(old(self)@, b) matches Some(h1) && self@ == h1
                        && self@.record.entries.len() == b.parent_cursor + b.entries.len())
                },
            decreases k,
        {
            if k == 0 {
                break;
            }
            k = k - 1;
            let ghost dc = direct_child(old(self)@, branch as int);
            let ghost h0 = self@;
            let bi = match self.find_stored(ids[k]) {
                Some(bi) => bi,
                None => {
                    proof {
                        if dc is Some {
                            lemma_find_branch_exists(self@.branches, ids@[k as int] as int);
                        }
                    }
                    return Some(Err(()));
                },
            };
            proof {
                lemma_find_branch_unique(self@.branches, bi as int);
            }
            let ghost bv = self@.branches[bi as int];
            if self.branches[bi].parent.branch != self.active {
                proof {
                    if dc is Some {
                        assert(false);
                    }
                }
                return Some(Err(()));
            }
            let fork = self.branches[bi].parent.cursor;
            if fork > self.record.len() {
                proof {
                    if dc is Some {
                        assert(false);
                    }
                }
                return Some(Err(()));
            }
            let ghost at_start = self@;
            match self.record.go_to(fork) {
                Some(Ok(())) => {},
                Some(Err(())) => {
                    proof {
                        let r2 = choose|r: Map<int, int>|
                            ranked(at_start.branches, at_start.active, r);
                        assert(ranked(self@.branches, self@.active, r2));
                        if dc is Some {
                            assert(switch_model::<C, R>(old(self)@, dc->Some_0) is None);
                        }
                    }
                    return Some(Err(()));
                },
                None => {
                    proof {
                        assert(false);
                    }
                },
            }
            // the part of the trunk above the fork leaves with the old
            // branch; a saved marker above the fork leaves with it too
            match self.record.saved_position() {
                Some(v) => if v > fork {
                    self.record.set_saved_at(None);
                    self.saved_other = Some(At { branch: self.active, cursor: v });
                },
                None => {},
            }
            let ghost prev_bs = self@.branches;
            let ghost prev_active = self@.active;
            let ghost r2v = self.record@;
            let br = self.branches.remove(bi);
            let old_active = self.active;
            let old_tail = self.record.swap_tail(br.entries);
            let stored = StoredBranch {
                id: old_active,
                parent: At { branch: br.id, cursor: fork },
                entries: old_tail,
            };
            self.branches.push(stored);
            self.record.emit_root(old_active, br.id);
            self.active = br.id;
            proof {
                let bs = self@.branches;
                assert(bs =~= prev_bs.remove(bi as int).push(
                    BranchView {
                        id: old_active as int,
                        parent_branch: self@.active,
                        parent_cursor: fork as int,
                        entries: old_tail@.map_values(|m: Meta<C>| m@),
                    },
                ));
                assert(self@.active == prev_bs[bi as int].id);
                assert forall|x: int| 0 <= x < bs.len() - 1 implies (#[trigger] bs[x])
                    == (if x < bi as int {
                    prev_bs[x]
                } else {
                    prev_bs[x + 1]
                }) by {}
                assert(prev_active == old_active as int);
                let r0 = choose|r: Map<int, int>| ranked(prev_bs, prev_active, r);
                let r1 = Map::<int, int>::new(
                    |k: int| true,
                    |k: int|
                        if k == old_active as int {
                            0
                        } else {
                            r0[k] + 1
                        },
                );
                assert(ranked(bs, self@.active, r1)) by {
                    assert forall|x: int| 0 <= x < bs.len() implies ({
                        let b = #[trigger] bs[x];
                        &&& 0 <= r1[b.id]
                        &&& (b.parent_branch == self@.active || (find_branch(
                            bs,
                            b.parent_branch,
                        ) is Some && r1[b.parent_branch] < r1[b.id]))
                    }) by {
                        if x == bs.len() - 1 {
                            assert(bs[x].id == old_active as int && bs[x].parent_branch
                                == self@.active);
                        } else {
                            let ob = (if x < bi as int {
                                prev_bs[x]
                            } else {
                                prev_bs[x + 1]
                            });
                            assert(bs[x] == ob);
                            assert(0 <= r0[ob.id]);
                            assert(ob.id != old_active as int);
                            if ob.parent_branch == prev_active {
                                lemma_find_branch_exists(bs, old_active as int);
                                assert(bs[bs.len() - 1].id == old_active as int);
                                assert(r1[ob.parent_branch] == 0);
                            } else if ob.parent_branch == self@.active {
                            } else {
                                lemma_find_branch_exists(prev_bs, ob.parent_branch);
                                let pj = choose|pj: int|
                                    0 <= pj < prev_bs.len() && (#[trigger] prev_bs[pj]).id
                                        == ob.parent_branch;
                                assert(pj != bi as int);
                                let npj: int = if pj < bi as int {
                                    pj
                                } else {
                                    pj - 1
                                };
                                assert(bs[npj].id == ob.parent_branch);
                                lemma_find_branch_exists(bs, ob.parent_branch);
                                assert(ob.parent_branch != old_active as int);
                            }
                        }
                    }
                }
                assert(self@.wf());
            }
            // a saved marker remembered on the branch that just became
            // active returns to the trunk
            let ghost pre_restore = self@;
            match self.saved_other {
                Some(at) => if at.branch == self.active {
                    if at.cursor <= self.record.len() {
                        self.record.set_saved_at(Some(at.cursor));
                    }
                    self.saved_other = None;
                },
                None => {},
            }
            proof {
                let r3 = choose|r: Map<int, int>|
                    ranked(pre_restore.branches, pre_restore.active, r);
                assert(ranked(self@.branches, self@.active, r3));
                let m1 = switch_model::<C, R>(h0, bv);
                let r1m = go_to_model::<C, R>(h0.record, bv.parent_cursor)->Some_0;
                assert(prev_bs == h0.branches);
                assert forall|j: int| 0 <= j < bi implies (#[trigger] prev_bs[j]).id
                    != prev_bs[bi as int].id by {}
                lemma_remove_branch_at(prev_bs, bi as int);
                assert(r2v == (if (match r1m.saved {
                    Some(sv) => sv > bv.parent_cursor,
                    None => false,
                }) {
                    with_signals(r1m, (RecordView { saved: None, ..r1m }), false)
                } else {
                    r1m
                }));
                assert(self@ =~~= m1->Some_0);
                lemma_run_switches_snoc::<C, R>(old(self)@, tr, h0, bv);
                tr = tr.push(bv);
                if dc is Some {
                    assert(self@ =~~= switch_model::<C, R>(old(self)@, dc->Some_0)->Some_0);
                }
            }
        }
        if cursor > self.record.len() {
            proof {
                if direct_child(old(self)@, branch as int) is Some {
                    assert(false);
                }
            }
            return Some(Err(()));
        }
        let ghost before_last = self@;
        let res = match self.record.go_to(cursor) {
            Some(r) => Some(r),
            None => {
                proof {
                    assert(false);
                }
                Some(Err(()))
            },
        };
        proof {
            assert(self@.branches == before_last.branches);
            assert(self@.active == before_last.active);
            assert(self@.next == before_last.next);
            assert(before_last.wf());
            let r4 = choose|r: Map<int, int>|
                ranked(before_last.branches, before_last.active, r);
            assert(ranked(self@.branches, self@.active, r4));
            assert(self@.wf());
            if direct_child(old(self)@, branch as int) is Some && res matches Some(Ok(())) {
                let h1 = switch_model::<C, R>(old(self)@, direct_child(
                    old(self)@,
                    branch as int,
                )->Some_0)->Some_0;
                assert(final(self)@ =~~= (HistoryView { record: final(self)@.record, ..h1 }));
            }
            if res matches Some(Ok(())) {
                assert(run_switches::<C, R>(old(self)@, tr) == Some(before_last));
                assert(final(self)@ =~~= (HistoryView {
                    record: final(self)@.record,
                    ..before_last
                }));
            }
        }
        res
    }
}

} // verus!
