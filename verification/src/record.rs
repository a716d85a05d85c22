//! The linear undo-redo engine: a cursor over a bounded sequence of applied
//! commands with merge policy, saved-state tracking and signaling.

use vstd::prelude::*;

use crate::merge::{
    group_policy, seq_apply, seq_apply_run, seq_redo, seq_redo_run, seq_undo, seq_undo_run, Merged,
};
use crate::{Command, Error, Merge, Signal};

verus! {

/// Relies on `std::time::SystemTime::now` and on chrono's `from_timestamp`
/// and `timestamp`: the current time, read from the system clock, as whole
/// seconds since the epoch. A clock before the epoch or outside chrono's
/// range reads as zero rather than panicking; nothing is promised of the
/// value.
#[verifier::external_body]
pub(crate) fn now_seconds() -> i64 {
    match std::time::SystemTime::now().duration_since(std::time::UNIX_EPOCH) {
        Ok(d) => match chrono::DateTime::<chrono::Utc>::from_timestamp(d.as_secs() as i64, 0) {
            Some(t) => t.timestamp(),
            None => 0,
        },
        Err(_) => 0,
    }
}

/// An entry retained in the engine: a group of merged commands together with
/// the time the entry was created. The view of an entry is the sequence of
/// its commands.
#[derive(Debug)]
pub struct Meta<C> {
    command: Merged<C>,
    timestamp: i64,
}

impl<C> View for Meta<C> {
    type V = Seq<C>;

    closed spec fn view(&self) -> Seq<C> {
        self.command@
    }
}

impl<C> Meta<C> {
    /// Wraps a group of commands, stamping it with the current time.
    pub fn new(command: Merged<C>) -> (r: Meta<C>)
        ensures
            r@ == command@,
    {
        Meta { command, timestamp: now_seconds() }
    }

    /// The creation time of the entry, in seconds since the epoch. The value
    /// comes from the system clock and nothing is promised of it.
    pub fn timestamp(&self) -> i64 {
        self.timestamp
    }

    /// A reference to the commands of the entry.
    pub fn command(&self) -> (r: &Merged<C>)
        ensures
            r@ == self@,
    {
        &self.command
    }

    /// The commands of the entry, by move.
    pub fn into_command(self) -> (r: Merged<C>)
        ensures
            r@ == self@,
    {
        self.command
    }

    /// Merges one more command into the entry.
    pub fn push(&mut self, command: C)
        ensures
            final(self)@ == old(self)@.push(command),
    {
        self.command.push(command);
    }

    /// Merges a whole group of commands into the entry.
    pub fn append(&mut self, group: Merged<C>)
        ensures
            final(self)@ == old(self)@ + group@,
    {
        self.command.append(group);
    }

    /// Applies the entry, as `Merged::apply` does.
    pub fn apply<R: View>(&mut self, receiver: &mut R) -> (res: Result<(), ()>) where C: Command<R>
        ensures
            final(self)@.len() == old(self)@.len(),
            res is Ok ==> seq_apply::<C, R>(old(self)@, old(receiver)@) == Some(
                (final(self)@, final(receiver)@),
            ),
            res is Err ==> seq_apply::<C, R>(old(self)@, old(receiver)@) is None && (
            final(self)@,
            final(receiver)@,
            ) == seq_apply_run::<C, R>(old(self)@, old(receiver)@),
    {
        self.command.apply(receiver)
    }

    /// Undoes the entry, as `Merged::undo` does.
    pub fn undo<R: View>(&mut self, receiver: &mut R) -> (res: Result<(), ()>) where C: Command<R>
        ensures
            final(self)@.len() == old(self)@.len(),
            res is Ok ==> seq_undo::<C, R>(old(self)@, old(receiver)@) == Some(
                (final(self)@, final(receiver)@),
            ),
            res is Err ==> seq_undo::<C, R>(old(self)@, old(receiver)@) is None && (
            final(self)@,
            final(receiver)@,
            ) == seq_undo_run::<C, R>(old(self)@, old(receiver)@),
    {
        self.command.undo(receiver)
    }

    /// Redoes the entry, as `Merged::redo` does.
    pub fn redo<R: View>(&mut self, receiver: &mut R) -> (res: Result<(), ()>) where C: Command<R>
        ensures
            final(self)@.len() == old(self)@.len(),
            res is Ok ==> seq_redo::<C, R>(old(self)@, old(receiver)@) == Some(
                (final(self)@, final(receiver)@),
            ),
            res is Err ==> seq_redo::<C, R>(old(self)@, old(receiver)@) is None && (
            final(self)@,
            final(receiver)@,
            ) == seq_redo_run::<C, R>(old(self)@, old(receiver)@),
    {
        self.command.redo(receiver)
    }

    /// The merge policy of the entry.
    pub fn merge_policy<R: View>(&self) -> (m: Merge) where C: Command<R>
        ensures
            m == group_policy::<C, R>(self@),
    {
        self.command.merge_policy()
    }
}

/// The mathematical model of a record: its entries (each one a group of
/// merged commands), the cursor, the optional bound on the number of entries,
/// the saved position, the receiver, and the signals recorded so far (`None`
/// when no sink is connected).
#[verifier::ext_equal]
pub ghost struct RecordView<C, RV> {
    pub entries: Seq<Seq<C>>,
    pub cursor: int,
    pub limit: Option<int>,
    pub saved: Option<int>,
    pub receiver: RV,
    pub sink: Option<Seq<Signal>>,
}

impl<C, RV> RecordView<C, RV> {
    /// The well-formedness invariant of a record: the cursor lies within the
    /// entries, the entries respect the limit, and the saved position, when
    /// present, lies within the entries.
    pub open spec fn wf(self) -> bool {
        &&& 0 <= self.cursor <= self.entries.len()
        &&& match self.limit {
            Some(l) => 1 <= l && self.entries.len() <= l,
            None => true,
        }
        &&& match self.saved {
            Some(s) => 0 <= s <= self.entries.len(),
            None => true,
        }
    }

    /// Whether the record can undo: at least one entry is applied.
    pub open spec fn can_undo(self) -> bool {
        self.cursor > 0
    }

    /// Whether the record can redo: at least one entry is undone-but-retained.
    pub open spec fn can_redo(self) -> bool {
        self.cursor < self.entries.len()
    }

    /// Whether the receiver is in its saved state.
    pub open spec fn is_saved(self) -> bool {
        self.saved == Some(self.cursor)
    }
}

/// The signals an operation emits, given the observable flags before it, the
/// flags after it, and whether it is an operation that reports the cursor.
pub open spec fn step_signals(
    could_undo: bool,
    could_redo: bool,
    was_saved: bool,
    old_cursor: int,
    now_undo: bool,
    now_redo: bool,
    now_saved: bool,
    new_cursor: int,
    moved: bool,
) -> Seq<Signal> {
    (if now_undo != could_undo {
        seq![Signal::Undo(now_undo)]
    } else {
        Seq::empty()
    }) + (if now_redo != could_redo {
        seq![Signal::Redo(now_redo)]
    } else {
        Seq::empty()
    }) + (if now_saved != was_saved {
        seq![Signal::Saved(now_saved)]
    } else {
        Seq::empty()
    }) + (if moved {
        seq![Signal::Cursor { old: old_cursor as usize, new: new_cursor as usize }]
    } else {
        Seq::empty()
    })
}

/// The signals emitted by an operation that takes the record from `pre` to
/// `post`.
pub open spec fn edge_signals<C, RV>(
    pre: RecordView<C, RV>,
    post: RecordView<C, RV>,
    moved: bool,
) -> Seq<Signal> {
    step_signals(
        pre.can_undo(),
        pre.can_redo(),
        pre.is_saved(),
        pre.cursor,
        post.can_undo(),
        post.can_redo(),
        post.is_saved(),
        post.cursor,
        moved,
    )
}

/// Extends the recorded signals of `post` by the signals of the step from
/// `pre` to `post`. Operations end in this state.
pub open spec fn with_signals<C, RV>(
    pre: RecordView<C, RV>,
    post: RecordView<C, RV>,
    moved: bool,
) -> RecordView<C, RV> {
    RecordView {
        sink: match pre.sink {
            Some(q) => Some(q + edge_signals(pre, post, moved)),
            None => None,
        },
        ..post
    }
}

/// Dropping the redo tail: the entries past the cursor are discarded, and a
/// saved position that pointed into the discarded region becomes unreachable.
pub open spec fn truncate_model<C, RV>(s: RecordView<C, RV>) -> RecordView<C, RV> {
    RecordView {
        entries: s.entries.take(s.cursor),
        saved: match s.saved {
            Some(sv) => if sv > s.cursor {
                None
            } else {
                Some(sv)
            },
            None => None,
        },
        ..s
    }
}

/// The state after a failed `apply`: the redo tail was already dropped (and
/// an unreachable saved position with it), the receiver keeps the effects of
/// the sub-commands that succeeded before the failure, and no signal is
/// emitted.
pub open spec fn apply_fail_model<C: Command<R>, R: View>(
    s: RecordView<C, R::V>,
    g: Seq<C>,
) -> RecordView<C, R::V> {
    RecordView { receiver: seq_apply_run::<C, R>(g, s.receiver).1, ..truncate_model(s) }
}

/// Whether a new group's policy makes it merge with the top applied entry.
pub open spec fn merge_applies(new_policy: Merge, top_policy: Merge) -> bool {
    match new_policy {
        Merge::Always => true,
        Merge::If(tag) => top_policy == Merge::If(tag),
        Merge::Never => false,
    }
}

/// Whether applying the group `g` on `s` merges into the top applied entry.
pub open spec fn group_merges<C: Command<R>, R: View>(s: RecordView<C, R::V>, g: Seq<C>) -> bool {
    s.cursor > 0 && merge_applies(group_policy::<C, R>(g), group_policy::<C, R>(s.entries[s.cursor - 1]))
}

/// The model of a successful `apply` of the group `g`: the redo tail is
/// dropped, the applied group either merges into the top entry or is pushed
/// as a new entry, the oldest entry is evicted when the limit is exceeded
/// (migrating the saved position), and the signals of the step are recorded.
pub open spec fn apply_model<C: Command<R>, R: View>(s: RecordView<C, R::V>, g: Seq<C>) -> RecordView<
    C,
    R::V,
> {
    match seq_apply::<C, R>(g, s.receiver) {
        Some(pr) => {
            let t = truncate_model(s);
            let core = if group_merges::<C, R>(s, g) {
                RecordView {
                    entries: t.entries.update(s.cursor - 1, t.entries[s.cursor - 1] + pr.0),
                    receiver: pr.1,
                    ..t
                }
            } else {
                let pushed = RecordView {
                    entries: t.entries.push(pr.0),
                    cursor: s.cursor + 1,
                    receiver: pr.1,
                    ..t
                };
                match s.limit {
                    Some(l) => if pushed.entries.len() > l {
                        RecordView {
                            entries: pushed.entries.drop_first(),
                            cursor: pushed.cursor - 1,
                            saved: match pushed.saved {
                                Some(sv) => if sv == 0 {
                                    None
                                } else {
                                    Some(sv - 1)
                                },
                                None => None,
                            },
                            ..pushed
                        }
                    } else {
                        pushed
                    },
                    None => pushed,
                }
            };
            with_signals(s, core, true)
        },
        None => s,
    }
}

/// The model of applying one command: the group holding it alone.
pub open spec fn apply_one_model<C: Command<R>, R: View>(s: RecordView<C, R::V>, c: C) -> RecordView<
    C,
    R::V,
> {
    apply_model::<C, R>(s, seq![c])
}

/// The model of a successful `undo`: the top applied entry is undone in
/// reverse order, the cursor steps back, and the signals of the step are
/// recorded. `None` when the entry's undo fails.
pub open spec fn undo_model<C: Command<R>, R: View>(s: RecordView<C, R::V>) -> Option<
    RecordView<C, R::V>,
>
    recommends
        s.can_undo(),
{
    match seq_undo::<C, R>(s.entries[s.cursor - 1], s.receiver) {
        Some(pr) => {
            let core = RecordView {
                entries: s.entries.update(s.cursor - 1, pr.0),
                cursor: s.cursor - 1,
                receiver: pr.1,
                ..s
            };
            Some(with_signals(s, core, true))
        },
        None => None,
    }
}

/// The model of a successful `redo`: the first undone entry is redone in
/// index order, the cursor steps forward, and the signals of the step are
/// recorded. `None` when the entry's redo fails.
pub open spec fn redo_model<C: Command<R>, R: View>(s: RecordView<C, R::V>) -> Option<
    RecordView<C, R::V>,
>
    recommends
        s.can_redo(),
{
    match seq_redo::<C, R>(s.entries[s.cursor], s.receiver) {
        Some(pr) => {
            let core = RecordView {
                entries: s.entries.update(s.cursor, pr.0),
                cursor: s.cursor + 1,
                receiver: pr.1,
                ..s
            };
            Some(with_signals(s, core, true))
        },
        None => None,
    }
}

/// The model of a successful `go_to`: undo or redo steps until the cursor
/// reaches the target. `None` as soon as one step fails.
pub open spec fn go_to_model<C: Command<R>, R: View>(s: RecordView<C, R::V>, target: int) -> Option<
    RecordView<C, R::V>,
>
    recommends
        s.wf(),
        0 <= target <= s.entries.len(),
    decreases
            (if s.cursor >= target {
                s.cursor - target
            } else {
                target - s.cursor
            }),
    when 0 <= target
{
    if s.cursor == target {
        Some(s)
    } else if s.cursor > target {
        match undo_model::<C, R>(s) {
            Some(s2) => go_to_model::<C, R>(s2, target),
            None => None,
        }
    } else {
        match redo_model::<C, R>(s) {
            Some(s2) => go_to_model::<C, R>(s2, target),
            None => None,
        }
    }
}

/// The model of a successful `extend`: each command applied in order. `None`
/// as soon as one application fails.
pub open spec fn extend_model<C: Command<R>, R: View>(s: RecordView<C, R::V>, cmds: Seq<C>) -> Option<
    RecordView<C, R::V>,
>
    decreases cmds.len(),
{
    if cmds.len() == 0 {
        Some(s)
    } else if cmds[0].apply_spec(s.receiver) is Some {
        extend_model::<C, R>(apply_one_model::<C, R>(s, cmds[0]), cmds.drop_first())
    } else {
        None
    }
}

/// The state after running `extend`: each command applied in order until the
/// first failure, whose attempt leaves only the dropped redo tail behind.
pub open spec fn extend_run<C: Command<R>, R: View>(
    s: RecordView<C, R::V>,
    cmds: Seq<C>,
) -> RecordView<C, R::V>
    decreases cmds.len(),
{
    if cmds.len() == 0 {
        s
    } else if cmds[0].apply_spec(s.receiver) is Some {
        extend_run::<C, R>(apply_one_model::<C, R>(s, cmds[0]), cmds.drop_first())
    } else {
        truncate_model(s)
    }
}

/// The first command of an `extend` whose forward edit fails, if any.
pub open spec fn extend_failure<C: Command<R>, R: View>(
    s: RecordView<C, R::V>,
    cmds: Seq<C>,
) -> Option<C>
    decreases cmds.len(),
{
    if cmds.len() == 0 {
        None
    } else if cmds[0].apply_spec(s.receiver) is Some {
        extend_failure::<C, R>(apply_one_model::<C, R>(s, cmds[0]), cmds.drop_first())
    } else {
        Some(cmds[0])
    }
}

/// The linear undo-redo engine. It owns the receiver and a bounded sequence
/// of applied commands, divided by the cursor into the applied prefix and the
/// undone-but-retained tail.
pub struct Record<C, R> {
    entries: Vec<Meta<C>>,
    receiver: R,
    cursor: usize,
    limit: Option<usize>,
    saved: Option<usize>,
    sink: Option<Vec<Signal>>,
}

impl<C, R: View> View for Record<C, R> {
    type V = RecordView<C, R::V>;

    closed spec fn view(&self) -> RecordView<C, R::V> {
        RecordView {
            entries: self.entries@.map_values(|m: Meta<C>| m@),
            cursor: self.cursor as int,
            limit: match self.limit {
                Some(l) => Some(l as int),
                None => None,
            },
            saved: match self.saved {
                Some(s) => Some(s as int),
                None => None,
            },
            receiver: self.receiver@,
            sink: match self.sink {
                Some(q) => Some(q@),
                None => None,
            },
        }
    }
}

/// Builds a record with chosen capacity, limit, saved state and sink.
pub struct RecordBuilder {
    capacity: usize,
    limit: Option<usize>,
    saved: bool,
    sink: bool,
}

impl RecordBuilder {
    /// A configured limit is at least one.
    pub closed spec fn wf(&self) -> bool {
        match self.limit {
            Some(l) => l >= 1,
            None => true,
        }
    }

    /// The configured limit.
    pub closed spec fn limit_spec(&self) -> Option<int> {
        match self.limit {
            Some(l) => Some(l as int),
            None => None,
        }
    }

    /// Whether the record starts in the saved state.
    pub closed spec fn saved_spec(&self) -> bool {
        self.saved
    }

    /// Whether a signal sink is connected.
    pub closed spec fn sink_spec(&self) -> bool {
        self.sink
    }

    /// A builder with no limit, no initial saved state and no sink.
    pub fn new() -> (r: RecordBuilder)
        ensures
            r.wf(),
            r.limit_spec() is None,
            !r.saved_spec(),
            !r.sink_spec(),
    {
        RecordBuilder { capacity: 0, limit: None, saved: false, sink: false }
    }

    /// Sets the initial capacity of the entry buffer. The capacity only
    /// affects allocation, never behaviour.
    pub fn capacity(self, capacity: usize) -> (r: RecordBuilder)
        ensures
            r.wf() == self.wf(),
            r.limit_spec() == self.limit_spec(),
            r.saved_spec() == self.saved_spec(),
            r.sink_spec() == self.sink_spec(),
    {
        RecordBuilder { capacity, ..self }
    }

    /// Bounds the number of retained entries.
    pub fn limit(self, limit: usize) -> (r: RecordBuilder)
        requires
            limit >= 1,
        ensures
            r.wf(),
            r.limit_spec() == Some(limit as int),
            r.saved_spec() == self.saved_spec(),
            r.sink_spec() == self.sink_spec(),
    {
        RecordBuilder { limit: Some(limit), ..self }
    }

    /// Removes any configured limit.
    pub fn unlimited(self) -> (r: RecordBuilder)
        ensures
            r.wf(),
            r.limit_spec() is None,
            r.saved_spec() == self.saved_spec(),
            r.sink_spec() == self.sink_spec(),
    {
        RecordBuilder { limit: None, ..self }
    }

    /// Chooses whether the record starts in the saved state.
    pub fn saved(self, saved: bool) -> (r: RecordBuilder)
        ensures
            r.wf() == self.wf(),
            r.limit_spec() == self.limit_spec(),
            r.saved_spec() == saved,
            r.sink_spec() == self.sink_spec(),
    {
        RecordBuilder { saved, ..self }
    }

    /// Connects a signal sink: the record keeps every emitted signal in order,
    /// and the owner drains them with `take_signals`.
    pub fn signal_sink(self) -> (r: RecordBuilder)
        ensures
            r.wf() == self.wf(),
            r.limit_spec() == self.limit_spec(),
            r.saved_spec() == self.saved_spec(),
            r.sink_spec(),
    {
        RecordBuilder { sink: true, ..self }
    }

    /// Builds a record owning `receiver`.
    pub fn build<C, R: View>(self, receiver: R) -> (r: Record<C, R>)
        requires
            self.wf(),
        ensures
            r@ == (RecordView::<C, R::V> {
                entries: Seq::empty(),
                cursor: 0,
                limit: self.limit_spec(),
                saved: if self.saved_spec() {
                    Some(0int)
                } else {
                    None
                },
                receiver: receiver@,
                sink: if self.sink_spec() {
                    Some(Seq::<Signal>::empty())
                } else {
                    None
                },
            }),
            r@.wf(),
    {
        let r = Record {
            entries: Vec::with_capacity(self.capacity),
            receiver,
            cursor: 0,
            limit: self.limit,
            saved: if self.saved {
                Some(0)
            } else {
                None
            },
            sink: if self.sink {
                Some(Vec::new())
            } else {
                None
            },
        };
        proof {
            assert(r@.entries =~= Seq::<Seq<C>>::empty());
            if self.sink {
                assert(r@.sink == Some(Seq::<Signal>::empty()));
            }
        }
        r
    }
}

impl<C, R: View> Record<C, R> {
    /// A record owning `receiver`, with no limit, no saved state and no sink.
    pub fn new(receiver: R) -> (r: Record<C, R>)
        ensures
            r@ == (RecordView::<C, R::V> {
                entries: Seq::empty(),
                cursor: 0,
                limit: None,
                saved: None,
                receiver: receiver@,
                sink: None,
            }),
            r@.wf(),
    {
        RecordBuilder::new().build(receiver)
    }

    /// Whether the record can undo.
    pub fn can_undo(&self) -> (b: bool)
        ensures
            b == self@.can_undo(),
    {
        self.cursor > 0
    }

    /// Whether the record can redo.
    pub fn can_redo(&self) -> (b: bool)
        ensures
            b == self@.can_redo(),
    {
        self.cursor < self.entries.len()
    }

    /// Whether the receiver is in its saved state.
    pub fn is_saved(&self) -> (b: bool)
        ensures
            b == self@.is_saved(),
    {
        match self.saved {
            Some(s) => s == self.cursor,
            None => false,
        }
    }

    /// The number of retained entries.
    pub fn len(&self) -> (n: usize)
        ensures
            n == self@.entries.len(),
    {
        self.entries.len()
    }

    /// Whether the record holds no entries.
    pub fn is_empty(&self) -> (b: bool)
        ensures
            b == (self@.entries.len() == 0),
    {
        self.entries.is_empty()
    }

    /// The cursor: entries before it are applied, entries after it are
    /// undone-but-retained.
    pub fn cursor(&self) -> (c: usize)
        ensures
            c == self@.cursor,
    {
        self.cursor
    }

    /// The bound on the number of retained entries, if one is set.
    pub fn limit(&self) -> (l: Option<usize>)
        ensures
            match l {
                Some(n) => self@.limit == Some(n as int),
                None => self@.limit is None,
            },
    {
        self.limit
    }

    /// A reference to the receiver.
    pub fn as_receiver(&self) -> (r: &R)
        ensures
            r@ == self@.receiver,
    {
        &self.receiver
    }

    /// The receiver, by move; the retained commands are dropped.
    pub fn into_receiver(self) -> (r: R)
        ensures
            r@ == self@.receiver,
    {
        self.receiver
    }

    /// Mutable access to the receiver. The caller must not change it in ways
    /// that break the reversibility of the retained commands.
    pub fn receiver_mut(&mut self) -> (r: &mut R)
        ensures
            (*r)@ == old(self)@.receiver,
            final(self)@ == (RecordView { receiver: final(r)@, ..old(self)@ }),
    {
        &mut self.receiver
    }

    /// Drains and returns the signals recorded since the last call. Returns
    /// the empty vector when no sink is connected.
    pub fn take_signals(&mut self) -> (sigs: Vec<Signal>)
        ensures
            match old(self)@.sink {
                Some(q) => sigs@ == q && final(self)@ == (RecordView {
                    sink: Some(Seq::<Signal>::empty()),
                    ..old(self)@
                }),
                None => sigs@ == Seq::<Signal>::empty() && final(self)@ == old(self)@,
            },
    {
        match &mut self.sink {
            Some(q) => {
                let mut out: Vec<Signal> = Vec::new();
                std::mem::swap(q, &mut out);
                out
            },
            None => Vec::new(),
        }
    }

    /// Marks (or unmarks) the current cursor position as the saved state of
    /// the receiver, emitting `Saved` when the predicate changes.
    pub fn set_saved(&mut self, saved: bool)
        requires
            old(self)@.wf(),
        ensures
            final(self)@ == with_signals(
                old(self)@,
                (RecordView {
                    saved: if saved {
                        Some(old(self)@.cursor)
                    } else {
                        None
                    },
                    ..old(self)@
                }),
                false,
            ),
            final(self)@.wf(),
    {
        let could_undo = self.can_undo();
        let could_redo = self.can_redo();
        let was_saved = self.is_saved();
        let old_cursor = self.cursor;
        if saved {
            self.saved = Some(self.cursor);
        } else {
            self.saved = None;
        }
        self.emit(could_undo, could_redo, was_saved, old_cursor, false);
    }

    /// Appends to the sink the signals of a step whose observable flags
    /// before the step are given, the state after the step being the current
    /// one.
    fn emit(
        &mut self,
        could_undo: bool,
        could_redo: bool,
        was_saved: bool,
        old_cursor: usize,
        moved: bool,
    )
        ensures
            final(self)@ == (RecordView {
                sink: match old(self)@.sink {
                    Some(q) => Some(
                        q + step_signals(
                            could_undo,
                            could_redo,
                            was_saved,
                            old_cursor as int,
                            old(self)@.can_undo(),
                            old(self)@.can_redo(),
                            old(self)@.is_saved(),
                            old(self)@.cursor,
                            moved,
                        ),
                    ),
                    None => None,
                },
                ..old(self)@
            }),
    {
        let now_undo = self.can_undo();
        let now_redo = self.can_redo();
        let now_saved = self.is_saved();
        let new_cursor = self.cursor;
        match &mut self.sink {
            Some(q) => {
                if now_undo != could_undo {
                    q.push(Signal::Undo(now_undo));
                }
                if now_redo != could_redo {
                    q.push(Signal::Redo(now_redo));
                }
                if now_saved != was_saved {
                    q.push(Signal::Saved(now_saved));
                }
                if moved {
                    q.push(Signal::Cursor { old: old_cursor, new: new_cursor });
                }
                proof {
                    assert(final(self)@.sink.unwrap() =~= old(self)@.sink.unwrap()
                        + step_signals(
                        could_undo,
                        could_redo,
                        was_saved,
                        old_cursor as int,
                        old(self)@.can_undo(),
                        old(self)@.can_redo(),
                        old(self)@.is_saved(),
                        old(self)@.cursor,
                        moved,
                    ));
                }
            },
            None => {},
        }
    }
}

impl<C: Command<R>, R: View> Record<C, R> {
    /// Applies a whole group of commands as one new entry (or merges it into
    /// the top entry), dropping the redo tail first and returning it.
    pub fn apply_merged(&mut self, group: Merged<C>) -> (res: Result<Vec<Meta<C>>, Error<
        Merged<C>,
    >>)
        requires
            old(self)@.wf(),
        ensures
            final(self)@.wf(),
            seq_apply::<C, R>(group@, old(self)@.receiver) is Some <==> res is Ok,
            match res {
                Ok(tail) => final(self)@ == apply_model::<C, R>(old(self)@, group@) && tail@.map_values(
                    |m: Meta<C>| m@,
                ) == old(self)@.entries.skip(old(self)@.cursor),
                Err(e) => {
                    &&& final(self)@ == apply_fail_model::<C, R>(old(self)@, group@)
                    &&& e.command_spec()@ == seq_apply_run::<C, R>(
                        group@,
                        old(self)@.receiver,
                    ).0
                    &&& e.command_spec().text_spec() == group.text_spec()
                },
            },
    {
        let ghost pre = old(self)@;
        let could_undo = self.can_undo();
        let could_redo = self.can_redo();
        let was_saved = self.is_saved();
        let old_cursor = self.cursor;
        let tail = self.entries.split_off(self.cursor);
        proof {
            assert(self.entries@.map_values(|m: Meta<C>| m@) =~= pre.entries.take(pre.cursor));
            assert(tail@.map_values(|m: Meta<C>| m@) =~= pre.entries.skip(pre.cursor));
        }
        match self.saved {
            Some(sv) => if sv > self.cursor {
                self.saved = None;
            },
            None => {},
        }
        let policy = group.merge_policy();
        let mut g = group;
        let res = g.apply(&mut self.receiver);
        match res {
            Err(()) => {
                proof {
                    assert(self@ =~~= apply_fail_model::<C, R>(pre, group@));
                }
                Err(Error::new(g))
            },
            Ok(()) => {
                let ghost g2 = g@;
                let ghost r2 = self.receiver@;
                let merges: bool = if self.cursor > 0 {
                    let top_policy = self.entries[self.cursor - 1].merge_policy::<R>();
                    match policy {
                        Merge::Always => true,
                        Merge::If(tag) => match top_policy {
                            Merge::If(t2) => tag == t2,
                            _ => false,
                        },
                        Merge::Never => false,
                    }
                } else {
                    false
                };
                proof {
                    assert(merges == group_merges::<C, R>(pre, group@));
                }
                if merges {
                    let idx = self.cursor - 1;
                    self.entries[idx].append(g);
                    proof {
                        let t = truncate_model(pre);
                        assert(self.entries@.map_values(|m: Meta<C>| m@) =~~= t.entries.update(
                            pre.cursor - 1,
                            t.entries[pre.cursor - 1] + g2,
                        ));
                    }
                } else {
                    self.entries.push(Meta::new(g));
                    self.cursor = self.entries.len();
                    proof {
                        let t = truncate_model(pre);
                        assert(self.entries@.map_values(|m: Meta<C>| m@) =~~= t.entries.push(g2));
                    }
                    match self.limit {
                        Some(l) => if self.entries.len() > l {
                            let ghost mid = self.entries@.map_values(|m: Meta<C>| m@);
                            let _evicted = self.entries.remove(0);
                            self.cursor = self.cursor - 1;
                            self.saved = match self.saved {
                                Some(sv) => if sv == 0 {
                                    None
                                } else {
                                    Some(sv - 1)
                                },
                                None => None,
                            };
                            proof {
                                assert(self.entries@.map_values(|m: Meta<C>| m@)
                                    =~~= mid.drop_first());
                            }
                        },
                        None => {},
                    }
                }
                let ghost mid_view = self@;
                self.emit(could_undo, could_redo, was_saved, old_cursor, true);
                proof {
                    let m = apply_model::<C, R>(pre, group@);
                    assert(seq_apply::<C, R>(group@, pre.receiver) == Some((g2, r2)));
                    assert(mid_view =~~= (RecordView {
                        sink: pre.sink,
                        ..m
                    }));
                    assert(final(self)@ =~~= m);
                }
                Ok(tail)
            },
        }
    }

    /// Applies a command: drops the redo tail, runs the command's forward
    /// edit, merges it into the top entry or pushes it as a new entry, evicts
    /// the oldest entry when the limit is exceeded, and emits the signals of
    /// the step. Returns the dropped redo tail, or, exactly when the
    /// command's forward edit fails, an error carrying the command back.
    pub fn apply(&mut self, command: C) -> (res: Result<Vec<Meta<C>>, Error<C>>)
        requires
            old(self)@.wf(),
        ensures
            final(self)@.wf(),
            command.apply_spec(old(self)@.receiver) is Some <==> res is Ok,
            match res {
                Ok(tail) => final(self)@ == apply_one_model::<C, R>(old(self)@, command)
                    && tail@.map_values(|m: Meta<C>| m@) == old(self)@.entries.skip(
                    old(self)@.cursor,
                ),
                Err(e) => {
                    &&& final(self)@ == (RecordView {
                        receiver: old(self)@.receiver,
                        ..truncate_model(old(self)@)
                    })
                    &&& e.command_spec() == command
                },
            },
    {
        proof {
            crate::merge::lemma_seq_apply_singleton::<C, R>(command, old(self)@.receiver);
        }
        let mut single = Merged::new();
        single.push(command);
        proof {
            assert(single@ =~= seq![command]);
        }
        match self.apply_merged(single) {
            Ok(tail) => Ok(tail),
            Err(e) => {
                proof {
                    assert(seq_apply_run::<C, R>(seq![command], old(self)@.receiver) == (
                        seq![command],
                        old(self)@.receiver,
                    ));
                    assert(final(self)@ =~~= (RecordView {
                        receiver: old(self)@.receiver,
                        ..truncate_model(old(self)@)
                    }));
                }
                let mut cmds = e.into_command().into_commands();
                let c = cmds.pop().unwrap();
                Err(Error::new(c))
            },
        }
    }

    /// Undoes the top applied entry, stepping the cursor back and emitting
    /// the signals of the step. Returns `None`, changing nothing, exactly
    /// when there is nothing to undo; returns a failure, leaving the cursor
    /// where it was, exactly when the entry's undo fails.
    pub fn undo(&mut self) -> (res: Option<Result<(), ()>>)
        requires
            old(self)@.wf(),
        ensures
            final(self)@.wf(),
            match res {
                None => old(self)@.cursor == 0 && final(self)@ == old(self)@,
                Some(Ok(())) => old(self)@.cursor > 0 && undo_model::<C, R>(old(self)@) == Some(
                    final(self)@,
                ),
                Some(Err(())) => {
                    &&& old(self)@.cursor > 0
                    &&& undo_model::<C, R>(old(self)@) is None
                    &&& final(self)@ == (RecordView {
                        entries: old(self)@.entries.update(
                            old(self)@.cursor - 1,
                            seq_undo_run::<C, R>(
                                old(self)@.entries[old(self)@.cursor - 1],
                                old(self)@.receiver,
                            ).0,
                        ),
                        receiver: seq_undo_run::<C, R>(
                            old(self)@.entries[old(self)@.cursor - 1],
                            old(self)@.receiver,
                        ).1,
                        ..old(self)@
                    })
                },
            },
    {
        let ghost pre = old(self)@;
        if self.cursor == 0 {
            return None;
        }
        let could_undo = self.can_undo();
        let could_redo = self.can_redo();
        let was_saved = self.is_saved();
        let old_cursor = self.cursor;
        let idx = self.cursor - 1;
        let res = self.entries[idx].undo(&mut self.receiver);
        proof {
            assert(pre.entries[idx as int] == old(self).entries@[idx as int]@);
            assert(self.entries@.map_values(|m: Meta<C>| m@) =~~= pre.entries.update(
                idx as int,
                self.entries@[idx as int]@,
            ));
        }
        match res {
            Ok(()) => {
                self.cursor = idx;
                let ghost mid_view = self@;
                self.emit(could_undo, could_redo, was_saved, old_cursor, true);
                proof {
                    let m = undo_model::<C, R>(pre).unwrap();
                    assert(mid_view =~~= (RecordView { sink: pre.sink, ..m }));
                    assert(final(self)@ =~~= m);
                }
                Some(Ok(()))
            },
            Err(()) => {
                proof {
                    assert(final(self)@ =~~= (RecordView {
                        entries: pre.entries.update(
                            pre.cursor - 1,
                            seq_undo_run::<C, R>(pre.entries[pre.cursor - 1], pre.receiver).0,
                        ),
                        receiver: seq_undo_run::<C, R>(
                            pre.entries[pre.cursor - 1],
                            pre.receiver,
                        ).1,
                        ..pre
                    }));
                }
                Some(Err(()))
            },
        }
    }

    /// Redoes the first undone entry, stepping the cursor forward and
    /// emitting the signals of the step. Returns `None`, changing nothing,
    /// exactly when there is nothing to redo; returns a failure, leaving the
    /// cursor where it was, exactly when the entry's redo fails.
    pub fn redo(&mut self) -> (res: Option<Result<(), ()>>)
        requires
            old(self)@.wf(),
        ensures
            final(self)@.wf(),
            match res {
                None => old(self)@.cursor == old(self)@.entries.len() && final(self)@ == old(self)@,
                Some(Ok(())) => old(self)@.cursor < old(self)@.entries.len() && redo_model::<
                    C,
                    R,
                >(old(self)@) == Some(final(self)@),
                Some(Err(())) => {
                    &&& old(self)@.cursor < old(self)@.entries.len()
                    &&& redo_model::<C, R>(old(self)@) is None
                    &&& final(self)@ == (RecordView {
                        entries: old(self)@.entries.update(
                            old(self)@.cursor,
                            seq_redo_run::<C, R>(
                                old(self)@.entries[old(self)@.cursor],
                                old(self)@.receiver,
                            ).0,
                        ),
                        receiver: seq_redo_run::<C, R>(
                            old(self)@.entries[old(self)@.cursor],
                            old(self)@.receiver,
                        ).1,
                        ..old(self)@
                    })
                },
            },
    {
        let ghost pre = old(self)@;
        if self.cursor == self.entries.len() {
            return None;
        }
        let could_undo = self.can_undo();
        let could_redo = self.can_redo();
        let was_saved = self.is_saved();
        let old_cursor = self.cursor;
        let idx = self.cursor;
        let res = self.entries[idx].redo(&mut self.receiver);
        proof {
            assert(pre.entries[idx as int] == old(self).entries@[idx as int]@);
            assert(self.entries@.map_values(|m: Meta<C>| m@) =~~= pre.entries.update(
                idx as int,
                self.entries@[idx as int]@,
            ));
        }
        match res {
            Ok(()) => {
                self.cursor = idx + 1;
                let ghost mid_view = self@;
                self.emit(could_undo, could_redo, was_saved, old_cursor, true);
                proof {
                    let m = redo_model::<C, R>(pre).unwrap();
                    assert(mid_view =~~= (RecordView { sink: pre.sink, ..m }));
                    assert(final(self)@ =~~= m);
                }
                Some(Ok(()))
            },
            Err(()) => {
                proof {
                    assert(final(self)@ =~~= (RecordView {
                        entries: pre.entries.update(
                            pre.cursor,
                            seq_redo_run::<C, R>(pre.entries[pre.cursor], pre.receiver).0,
                        ),
                        receiver: seq_redo_run::<C, R>(pre.entries[pre.cursor], pre.receiver).1,
                        ..pre
                    }));
                }
                Some(Err(()))
            },
        }
    }

    /// Replays undo or redo steps until the cursor reaches `target`, stopping
    /// at the first failure. Returns `None`, changing nothing, exactly when
    /// the target lies outside the entries.
    pub fn go_to(&mut self, target: usize) -> (res: Option<Result<(), ()>>)
        requires
            old(self)@.wf(),
        ensures
            final(self)@.wf(),
            final(self)@.entries.len() == old(self)@.entries.len(),
            final(self)@.saved == old(self)@.saved,
            final(self)@.limit == old(self)@.limit,
            target > old(self)@.entries.len() ==> res is None && final(self)@ == old(self)@,
            target <= old(self)@.entries.len() ==> match res {
                Some(Ok(())) => go_to_model::<C, R>(old(self)@, target as int) == Some(
                    final(self)@,
                ) && final(self)@.cursor == target,
                Some(Err(())) => go_to_model::<C, R>(old(self)@, target as int) is None,
                None => false,
            },
    {
        if target > self.entries.len() {
            return None;
        }
        while self.cursor != target
            invariant
                self@.wf(),
                target <= self@.entries.len(),
                self@.entries.len() == old(self)@.entries.len(),
                self@.saved == old(self)@.saved,
                self@.limit == old(self)@.limit,
                go_to_model::<C, R>(old(self)@, target as int) == go_to_model::<C, R>(
                    self@,
                    target as int,
                ),
            decreases
                    (if self@.cursor >= target {
                        self@.cursor - target
                    } else {
                        target - self@.cursor
                    }),
        {
            let ghost prev = self@;
            if self.cursor > target {
                match self.undo() {
                    Some(Ok(())) => {
                        proof {
                            assert(go_to_model::<C, R>(prev, target as int) == go_to_model::<C, R>(
                                self@,
                                target as int,
                            ));
                        }
                    },
                    Some(Err(())) => {
                        proof {
                            assert(go_to_model::<C, R>(prev, target as int) is None);
                        }
                        return Some(Err(()));
                    },
                    None => {
                        proof {
                            assert(false);
                        }
                    },
                }
            } else {
                match self.redo() {
                    Some(Ok(())) => {
                        proof {
                            assert(go_to_model::<C, R>(prev, target as int) == go_to_model::<C, R>(
                                self@,
                                target as int,
                            ));
                        }
                    },
                    Some(Err(())) => {
                        proof {
                            assert(go_to_model::<C, R>(prev, target as int) is None);
                        }
                        return Some(Err(()));
                    },
                    None => {
                        proof {
                            assert(false);
                        }
                    },
                }
            }
        }
        Some(Ok(()))
    }

    /// Undoes every applied entry: replays undo steps until the cursor
    /// reaches zero, stopping at the first failure.
    pub fn revert(&mut self) -> (res: Option<Result<(), ()>>)
        requires
            old(self)@.wf(),
        ensures
            final(self)@.wf(),
            final(self)@.entries.len() == old(self)@.entries.len(),
            final(self)@.saved == old(self)@.saved,
            final(self)@.limit == old(self)@.limit,
            match res {
                Some(Ok(())) => go_to_model::<C, R>(old(self)@, 0) == Some(final(self)@)
                    && final(self)@.cursor == 0,
                Some(Err(())) => go_to_model::<C, R>(old(self)@, 0) is None,
                None => false,
            },
    {
        self.go_to(0)
    }

    /// Applies each command in order, stopping at the first failure and
    /// returning an error carrying the failed command.
    pub fn extend(&mut self, commands: Vec<C>) -> (res: Result<(), Error<C>>)
        requires
            old(self)@.wf(),
        ensures
            final(self)@.wf(),
            extend_model::<C, R>(old(self)@, commands@) is Some <==> res is Ok,
            res is Ok ==> extend_model::<C, R>(old(self)@, commands@) == Some(final(self)@),
            res matches Err(e) ==> final(self)@ == extend_run::<C, R>(old(self)@, commands@)
                && extend_failure::<C, R>(old(self)@, commands@) == Some(e.command_spec()),
    {
        let mut rest = commands;
        loop
            invariant
                self@.wf(),
                extend_model::<C, R>(old(self)@, commands@) == extend_model::<C, R>(self@, rest@),
                extend_run::<C, R>(old(self)@, commands@) == extend_run::<C, R>(self@, rest@),
                extend_failure::<C, R>(old(self)@, commands@) == extend_failure::<C, R>(
                    self@,
                    rest@,
                ),
            ensures
                rest@.len() == 0,
                self@.wf(),
                extend_model::<C, R>(old(self)@, commands@) == extend_model::<C, R>(self@, rest@),
            decreases rest.len(),
        {
            if rest.len() == 0 {
                break;
            }
            let ghost prev = self@;
            let ghost rest0 = rest@;
            let c = rest.remove(0);
            proof {
                assert(rest@ =~= rest0.drop_first());
            }
            match self.apply(c) {
                Ok(_) => {
                    proof {
                        assert(extend_model::<C, R>(prev, rest0) == extend_model::<C, R>(
                            self@,
                            rest@,
                        ));
                        assert(extend_run::<C, R>(prev, rest0) == extend_run::<C, R>(
                            self@,
                            rest@,
                        ));
                        assert(extend_failure::<C, R>(prev, rest0) == extend_failure::<C, R>(
                            self@,
                            rest@,
                        ));
                    }
                },
                Err(e) => {
                    proof {
                        assert(extend_model::<C, R>(prev, rest0) is None);
                        assert(extend_run::<C, R>(prev, rest0) == truncate_model(prev));
                        assert(extend_failure::<C, R>(prev, rest0) == Some(c));
                    }
                    return Err(e);
                },
            }
        }
        proof {
            assert(extend_model::<C, R>(self@, rest@) == Some(self@));
        }
        Ok(())
    }

    /// The saved position itself, if one is set.
    pub(crate) fn saved_position(&self) -> (s: Option<usize>)
        ensures
            match s {
                Some(v) => self@.saved == Some(v as int),
                None => self@.saved is None,
            },
    {
        self.saved
    }

    /// Moves the saved marker to the given position, emitting `Saved` when
    /// the predicate changes. The history engine migrates markers with it.
    pub(crate) fn set_saved_at(&mut self, position: Option<usize>)
        requires
            old(self)@.wf(),
            match position {
                Some(v) => v <= old(self)@.entries.len(),
                None => true,
            },
        ensures
            final(self)@ == with_signals(
                old(self)@,
                (RecordView {
                    saved: match position {
                        Some(v) => Some(v as int),
                        None => None,
                    },
                    ..old(self)@
                }),
                false,
            ),
            final(self)@.wf(),
    {
        let could_undo = self.can_undo();
        let could_redo = self.can_redo();
        let was_saved = self.is_saved();
        let old_cursor = self.cursor;
        self.saved = position;
        self.emit(could_undo, could_redo, was_saved, old_cursor, false);
    }

    /// Appends a `Root` signal to the sink. The history engine announces a
    /// branch switch with it.
    pub(crate) fn emit_root(&mut self, old_root: usize, new_root: usize)
        ensures
            final(self)@ == (RecordView {
                sink: match old(self)@.sink {
                    Some(q) => Some(q.push(Signal::Root { old: old_root, new: new_root })),
                    None => None,
                },
                ..old(self)@
            }),
    {
        match &mut self.sink {
            Some(q) => {
                q.push(Signal::Root { old: old_root, new: new_root });
            },
            None => {},
        }
    }

    /// Replaces the undone tail past the cursor by `tail`, returning the old
    /// tail. The history engine switches branches with it.
    pub(crate) fn swap_tail(&mut self, tail: Vec<Meta<C>>) -> (old_tail: Vec<Meta<C>>)
        requires
            old(self)@.wf(),
            old(self)@.limit is None,
            match old(self)@.saved {
                Some(sv) => sv <= old(self)@.cursor,
                None => true,
            },
        ensures
            final(self)@.wf(),
            final(self)@ == (RecordView {
                entries: old(self)@.entries.take(old(self)@.cursor) + tail@.map_values(
                    |m: Meta<C>| m@,
                ),
                ..old(self)@
            }),
            old_tail@.map_values(|m: Meta<C>| m@) == old(self)@.entries.skip(old(self)@.cursor),
    {
        let ghost pre = self@;
        let old_tail = self.entries.split_off(self.cursor);
        proof {
            assert(self.entries@.map_values(|m: Meta<C>| m@) =~= pre.entries.take(pre.cursor));
            assert(old_tail@.map_values(|m: Meta<C>| m@) =~= pre.entries.skip(pre.cursor));
        }
        let mut rest = tail;
        let ghost tview = rest@.map_values(|m: Meta<C>| m@);
        self.entries.append(&mut rest);
        proof {
            assert(self.entries@.map_values(|m: Meta<C>| m@) =~~= pre.entries.take(pre.cursor)
                + tview);
            assert(final(self)@ =~~= (RecordView {
                entries: pre.entries.take(pre.cursor) + tview,
                ..pre
            }));
        }
        old_tail
    }
}

} // verus!
