//! The laws of the engine, stated and proved over the record model: every
//! operation's contract says what it does, and these lemmas say what the
//! operations guarantee together.

use vstd::prelude::*;

use crate::history::{
    find_branch, kth_parent, lemma_find_branch_exists, ranked, BranchView, HistoryView,
};
use crate::merge::{lemma_seq_apply_singleton, lemma_seq_undo_pair, lemma_seq_undo_singleton};
use crate::record::{
    apply_one_model, edge_signals, group_merges, merge_applies, undo_model, RecordView,
};
use crate::{Command, Signal};

verus! {

/// Following parent links from a found branch strictly decreases the rank, as
/// long as the identifier reached is itself found among the stored branches.
proof fn lemma_kth_parent_rank<C>(
    bs: Seq<BranchView<C>>,
    active: int,
    rank: Map<int, int>,
    id: int,
    k: nat,
)
    requires
        ranked(bs, active, rank),
        forall|i: int| 0 <= i < bs.len() ==> (#[trigger] bs[i]).id != active,
        k >= 1,
        find_branch(bs, id) is Some,
    ensures
        match kth_parent(bs, id, k) {
            Some(x) => find_branch(bs, x) is Some ==> rank[x] < rank[id],
            None => true,
        },
    decreases k,
{
    lemma_find_branch_exists(bs, id);
    let b = find_branch(bs, id)->Some_0;
    let i = choose|i: int| 0 <= i < bs.len() && (#[trigger] bs[i]) == b;
    let p = b.parent_branch;
    lemma_find_branch_exists(bs, p);
    if k == 1 {
        if find_branch(bs, p) is Some {
            assert(p != active);
        }
    } else {
        if find_branch(bs, p) is None {
            assert(kth_parent(bs, p, (k - 1) as nat) is None);
        } else {
            assert(p != active);
            assert(rank[p] < rank[id]);
            lemma_kth_parent_rank(bs, active, rank, p, (k - 1) as nat);
        }
    }
}

/// History tree property: the parent graph of the stored branches contains no
/// cycle — no branch is a proper ancestor of itself.
pub proof fn lemma_no_parent_cycle<C, RV>(h: HistoryView<C, RV>, id: int, k: nat)
    requires
        h.wf(),
        k >= 1,
    ensures
        kth_parent(h.branches, id, k) != Some(id),
{
    lemma_find_branch_exists(h.branches, id);
    if find_branch(h.branches, id) is Some {
        let rank = choose|r: Map<int, int>| ranked(h.branches, h.active, r);
        lemma_kth_parent_rank(h.branches, h.active, rank, id, k);
        if kth_parent(h.branches, id, k) == Some(id) {
            assert(rank[id] < rank[id]);
        }
    }
}

/// Cursor bound: in every well-formed record the cursor lies between zero and
/// the number of entries. Every operation of the engine ensures
/// well-formedness, so the bound holds after any sequence of operations.
pub proof fn lemma_cursor_in_bounds<C, RV>(s: RecordView<C, RV>)
    requires
        s.wf(),
    ensures
        0 <= s.cursor <= s.entries.len(),
{
}

/// Round trip: applying a command and then undoing it returns the receiver to
/// its state before the apply, for any command whose undo is a true inverse
/// of its apply, provided the command does not merge into the top entry. (A
/// command that merges is undone together with the entry it joined, which
/// rewinds the receiver further than the single apply.)
pub proof fn lemma_apply_undo_round_trip<C: Command<R>, R: View>(
    s: RecordView<C, R::V>,
    c: C,
    c2: C,
    r2: R::V,
    c3: C,
)
    requires
        s.wf(),
        c.apply_spec(s.receiver) == Some((c2, r2)),
        c2.undo_spec(r2) == Some((c3, s.receiver)),
        !group_merges::<C, R>(s, seq![c]),
    ensures
        ({
            let after = apply_one_model::<C, R>(s, c);
            &&& after.can_undo()
            &&& undo_model::<C, R>(after) is Some
            &&& undo_model::<C, R>(after)->Some_0.receiver == s.receiver
        }),
{
    lemma_seq_apply_singleton::<C, R>(c, s.receiver);
    let after = apply_one_model::<C, R>(s, c);
    assert(after.receiver == r2);
    assert(after.cursor >= 1);
    assert(after.entries[after.cursor - 1] == seq![c2]);
    lemma_seq_undo_singleton::<C, R>(c2, r2);
}

/// Merge conservation: when a second command merges into the entry holding
/// the first, a single undo reverses both, returning the receiver to its
/// state before the first apply — for commands whose undo is a true inverse.
pub proof fn lemma_merge_conservation<C: Command<R>, R: View>(
    s: RecordView<C, R::V>,
    c1: C,
    c1a: C,
    r1: R::V,
    c2: C,
    c2a: C,
    r2: R::V,
    c1b: C,
    c2b: C,
)
    requires
        s.wf(),
        c1.apply_spec(s.receiver) == Some((c1a, r1)),
        !group_merges::<C, R>(s, seq![c1]),
        c2.apply_spec(r1) == Some((c2a, r2)),
        merge_applies(c2.merge_spec(), c1a.merge_spec()),
        c2a.undo_spec(r2) == Some((c2b, r1)),
        c1a.undo_spec(r1) == Some((c1b, s.receiver)),
    ensures
        ({
            let s1 = apply_one_model::<C, R>(s, c1);
            let s2 = apply_one_model::<C, R>(s1, c2);
            &&& s2.cursor == s1.cursor
            &&& undo_model::<C, R>(s2) is Some
            &&& undo_model::<C, R>(s2)->Some_0.receiver == s.receiver
        }),
{
    lemma_seq_apply_singleton::<C, R>(c1, s.receiver);
    let s1 = apply_one_model::<C, R>(s, c1);
    assert(s1.receiver == r1);
    assert(s1.cursor >= 1);
    assert(s1.cursor == s1.entries.len());
    assert(s1.entries[s1.cursor - 1] == seq![c1a]);
    lemma_seq_apply_singleton::<C, R>(c2, r1);
    assert(group_merges::<C, R>(s1, seq![c2]));
    let s2 = apply_one_model::<C, R>(s1, c2);
    assert(s1.entries.take(s1.cursor) =~= s1.entries);
    assert(seq![c1a] + seq![c2a] =~= seq![c1a, c2a]);
    assert(s2.entries[s2.cursor - 1] == seq![c1a, c2a]);
    assert(s2.receiver == r2);
    lemma_seq_undo_pair::<C, R>(c1a, c2a, r2);
}

/// Saved-marker migration: when an apply evicts the oldest entry, the saved
/// position steps down by one, or becomes unreachable when it pointed at the
/// evicted entry.
pub proof fn lemma_eviction_migrates_saved<C: Command<R>, R: View>(s: RecordView<C, R::V>, c: C)
    requires
        s.wf(),
        c.apply_spec(s.receiver) is Some,
        !group_merges::<C, R>(s, seq![c]),
        s.cursor == s.entries.len(),
        s.limit == Some(s.entries.len() as int),
    ensures
        ({
            let after = apply_one_model::<C, R>(s, c);
            &&& after.entries.len() == s.entries.len()
            &&& after.saved == (match s.saved {
                Some(sv) => if sv == 0 {
                    None
                } else {
                    Some(sv - 1)
                },
                None => None::<int>,
            })
        }),
{
    lemma_seq_apply_singleton::<C, R>(c, s.receiver);
    let after = apply_one_model::<C, R>(s, c);
    assert(s.entries.take(s.cursor) =~= s.entries);
}

/// Signal law: the signals of a step contain `Undo(x)` exactly when the
/// ability to undo changed, and then `x` is its new value; likewise for
/// `Redo` and `Saved`.
#[verifier::rlimit(60)]
pub proof fn lemma_signal_law<C, RV>(pre: RecordView<C, RV>, post: RecordView<C, RV>, moved: bool)
    ensures
        forall|x: bool| #[trigger]
            edge_signals(pre, post, moved).contains(Signal::Undo(x)) <==> (pre.can_undo()
                != post.can_undo() && x == post.can_undo()),
        forall|x: bool| #[trigger]
            edge_signals(pre, post, moved).contains(Signal::Redo(x)) <==> (pre.can_redo()
                != post.can_redo() && x == post.can_redo()),
        forall|x: bool| #[trigger]
            edge_signals(pre, post, moved).contains(Signal::Saved(x)) <==> (pre.is_saved()
                != post.is_saved() && x == post.is_saved()),
{
    let sigs = edge_signals(pre, post, moved);
    assert forall|x: bool| #[trigger]
        sigs.contains(Signal::Undo(x)) <==> (pre.can_undo() != post.can_undo() && x
            == post.can_undo()) by {
        if pre.can_undo() != post.can_undo() && x == post.can_undo() {
            assert(sigs[0] == Signal::Undo(post.can_undo()));
        }
        if sigs.contains(Signal::Undo(x)) {
            let i = choose|i: int| 0 <= i < sigs.len() && sigs[i] == Signal::Undo(x);
        }
    }
    assert forall|x: bool| #[trigger]
        sigs.contains(Signal::Redo(x)) <==> (pre.can_redo() != post.can_redo() && x
            == post.can_redo()) by {
        if pre.can_redo() != post.can_redo() && x == post.can_redo() {
            let i: int = if pre.can_undo() != post.can_undo() {
                1
            } else {
                0
            };
            assert(sigs[i] == Signal::Redo(post.can_redo()));
        }
        if sigs.contains(Signal::Redo(x)) {
            let i = choose|i: int| 0 <= i < sigs.len() && sigs[i] == Signal::Redo(x);
        }
    }
    assert forall|x: bool| #[trigger]
        sigs.contains(Signal::Saved(x)) <==> (pre.is_saved() != post.is_saved() && x
            == post.is_saved()) by {
        if pre.is_saved() != post.is_saved() && x == post.is_saved() {
            let i: int = (if pre.can_undo() != post.can_undo() {
                1int
            } else {
                0int
            }) + (if pre.can_redo() != post.can_redo() {
                1int
            } else {
                0int
            });
            assert(sigs[i] == Signal::Saved(post.is_saved()));
        }
        if sigs.contains(Signal::Saved(x)) {
            let i = choose|i: int| 0 <= i < sigs.len() && sigs[i] == Signal::Saved(x);
        }
    }
}

} // verus!
