//! End-to-end tests of the linear engine over a character-vector receiver.

use undo::{Merged, Record, RecordBuilder, Signal, TextCmd};

fn new_record() -> Record<TextCmd, Vec<char>> {
    Record::new(Vec::new())
}

#[test]
fn apply_undo_redo() {
    let mut record = new_record();
    record.apply(TextCmd::add('a')).unwrap();
    record.apply(TextCmd::add('b')).unwrap();
    assert_eq!(record.as_receiver(), &vec!['a', 'b']);
    assert_eq!(record.len(), 2);
    assert_eq!(record.cursor(), 2);
    assert!(record.can_undo());
    assert!(!record.can_redo());

    assert!(record.undo().unwrap().is_ok());
    assert_eq!(record.as_receiver(), &vec!['a']);
    assert_eq!(record.cursor(), 1);
    assert!(record.can_redo());

    assert!(record.redo().unwrap().is_ok());
    assert_eq!(record.as_receiver(), &vec!['a', 'b']);
}

#[test]
fn round_trip_restores_receiver() {
    let mut record = new_record();
    record.apply(TextCmd::add('x')).unwrap();
    record.undo().unwrap().unwrap();
    assert_eq!(record.as_receiver(), &Vec::<char>::new());
}

#[test]
fn boundary_is_a_no_op() {
    let mut record: Record<TextCmd, Vec<char>> =
        RecordBuilder::new().signal_sink().build(Vec::new());
    assert!(record.undo().is_none());
    assert!(record.redo().is_none());
    assert_eq!(record.take_signals(), Vec::new());
    assert_eq!(record.cursor(), 0);
    assert_eq!(record.len(), 0);
}

#[test]
fn merge_on_apply() {
    let mut record = new_record();
    record.apply(TextCmd::add_merging('a')).unwrap();
    record.apply(TextCmd::add_merging('b')).unwrap();
    record.apply(TextCmd::add_merging('c')).unwrap();
    assert_eq!(record.as_receiver(), &vec!['a', 'b', 'c']);
    assert_eq!(record.len(), 1);

    record.undo().unwrap().unwrap();
    assert_eq!(record.as_receiver(), &Vec::<char>::new());

    record.redo().unwrap().unwrap();
    assert_eq!(record.as_receiver(), &vec!['a', 'b', 'c']);
    assert_eq!(record.len(), 1);
}

#[test]
fn merge_by_tag() {
    let mut record = new_record();
    record.apply(TextCmd::add_tagged('a', 5)).unwrap();
    record.apply(TextCmd::add_tagged('b', 5)).unwrap();
    assert_eq!(record.len(), 1);
    record.apply(TextCmd::add_tagged('c', 6)).unwrap();
    assert_eq!(record.len(), 2);
    record.undo().unwrap().unwrap();
    assert_eq!(record.as_receiver(), &vec!['a', 'b']);
    record.undo().unwrap().unwrap();
    assert_eq!(record.as_receiver(), &Vec::<char>::new());
}

#[test]
fn merge_conservation() {
    let mut record = new_record();
    record.apply(TextCmd::add('a')).unwrap();
    record.apply(TextCmd::add_merging('b')).unwrap();
    assert_eq!(record.len(), 1);
    record.undo().unwrap().unwrap();
    assert_eq!(record.as_receiver(), &Vec::<char>::new());
}

#[test]
fn limit_eviction() {
    let mut record: Record<TextCmd, Vec<char>> =
        RecordBuilder::new().limit(2).build(Vec::new());
    record.apply(TextCmd::add('a')).unwrap();
    record.apply(TextCmd::add('b')).unwrap();
    record.apply(TextCmd::add('c')).unwrap();
    assert_eq!(record.as_receiver(), &vec!['a', 'b', 'c']);
    assert_eq!(record.len(), 2);
    assert_eq!(record.limit(), Some(2));

    record.undo().unwrap().unwrap();
    record.undo().unwrap().unwrap();
    assert!(record.undo().is_none());
    assert_eq!(record.as_receiver(), &vec!['a']);
}

#[test]
fn limit() {
    let mut record: Record<TextCmd, Vec<char>> =
        RecordBuilder::new().limit(9).build(Vec::new());
    for _ in 0..10 {
        record.apply(TextCmd::add('p')).unwrap();
    }
    assert_eq!(record.len(), 9);
}

#[test]
fn eviction_migrates_saved() {
    let mut record: Record<TextCmd, Vec<char>> =
        RecordBuilder::new().limit(2).build(Vec::new());
    record.apply(TextCmd::add('a')).unwrap();
    record.set_saved(true);
    record.apply(TextCmd::add('b')).unwrap();
    record.apply(TextCmd::add('c')).unwrap();
    // the saved position migrated from one to zero with the evicted entry
    assert!(!record.is_saved());
    record.undo().unwrap().unwrap();
    record.undo().unwrap().unwrap();
    assert!(record.is_saved());
}

#[test]
fn eviction_drops_saved_at_front() {
    let mut record: Record<TextCmd, Vec<char>> =
        RecordBuilder::new().limit(1).saved(true).build(Vec::new());
    assert!(record.is_saved());
    record.apply(TextCmd::add('a')).unwrap();
    record.apply(TextCmd::add('b')).unwrap();
    // the saved position zero pointed at the evicted entry and is gone
    record.undo().unwrap().unwrap();
    assert!(!record.is_saved());
}

#[test]
fn saved_invalidation() {
    let mut record = new_record();
    record.apply(TextCmd::add('a')).unwrap();
    record.set_saved(true);
    assert!(record.is_saved());
    record.undo().unwrap().unwrap();
    record.apply(TextCmd::add('x')).unwrap();
    assert!(!record.is_saved());
    // the saved state sat in the dropped redo tail and stays unreachable
    record.undo().unwrap().unwrap();
    assert!(!record.is_saved());
}

#[test]
fn signal_stream() {
    let mut record: Record<TextCmd, Vec<char>> =
        RecordBuilder::new().signal_sink().build(Vec::new());
    record.apply(TextCmd::add('a')).unwrap();
    assert_eq!(
        record.take_signals(),
        vec![Signal::Undo(true), Signal::Cursor { old: 0, new: 1 }]
    );
    record.undo().unwrap().unwrap();
    assert_eq!(
        record.take_signals(),
        vec![
            Signal::Undo(false),
            Signal::Redo(true),
            Signal::Cursor { old: 1, new: 0 }
        ]
    );
}

#[test]
fn merge_emits_cursor_in_place() {
    let mut record: Record<TextCmd, Vec<char>> =
        RecordBuilder::new().signal_sink().build(Vec::new());
    record.apply(TextCmd::add_merging('a')).unwrap();
    record.take_signals();
    record.apply(TextCmd::add_merging('b')).unwrap();
    assert_eq!(record.take_signals(), vec![Signal::Cursor { old: 1, new: 1 }]);
}

#[test]
fn saved_signal() {
    let mut record: Record<TextCmd, Vec<char>> =
        RecordBuilder::new().signal_sink().build(Vec::new());
    record.apply(TextCmd::add('a')).unwrap();
    record.take_signals();
    record.set_saved(true);
    assert_eq!(record.take_signals(), vec![Signal::Saved(true)]);
    record.set_saved(true);
    assert_eq!(record.take_signals(), Vec::new());
    record.set_saved(false);
    assert_eq!(record.take_signals(), vec![Signal::Saved(false)]);
}

#[test]
fn failed_apply_keeps_cursor_and_returns_command() {
    let mut record = new_record();
    record.apply(TextCmd::add('a')).unwrap();
    let err = record.apply(TextCmd::Fail).unwrap_err();
    assert_eq!(err.command(), &TextCmd::Fail);
    assert_eq!(err.into_command(), TextCmd::Fail);
    assert_eq!(record.cursor(), 1);
    assert_eq!(record.len(), 1);
    assert_eq!(record.as_receiver(), &vec!['a']);
}

#[test]
fn failed_apply_still_drops_redo_tail() {
    let mut record = new_record();
    record.apply(TextCmd::add('a')).unwrap();
    record.apply(TextCmd::add('b')).unwrap();
    record.undo().unwrap().unwrap();
    assert!(record.can_redo());
    let _ = record.apply(TextCmd::Fail).unwrap_err();
    assert!(!record.can_redo());
    assert_eq!(record.len(), 1);
}

#[test]
fn composite_failure() {
    let mut record = new_record();
    let mut merged: Merged<TextCmd> = Merged::new();
    merged.push(TextCmd::add('a'));
    merged.push(TextCmd::Fail);
    merged.push(TextCmd::add('b'));
    let err = record.apply_merged(merged).unwrap_err();
    assert_eq!(record.len(), 0);
    assert_eq!(record.cursor(), 0);
    // the sub-command before the failure ran; the failure and what follows did not
    assert_eq!(record.as_receiver(), &vec!['a']);
    let failed = err.into_command();
    assert_eq!(failed.len(), 3);
    assert_eq!(
        failed.into_commands(),
        vec![TextCmd::add('a'), TextCmd::Fail, TextCmd::add('b')]
    );
}

#[test]
fn apply_merged_as_one_entry() {
    let mut record = new_record();
    let merged = Merged::merge(TextCmd::add('a'), TextCmd::add('b'));
    let displaced = record.apply_merged(merged).unwrap();
    assert!(displaced.is_empty());
    assert_eq!(record.len(), 1);
    assert_eq!(record.as_receiver(), &vec!['a', 'b']);
    record.undo().unwrap().unwrap();
    assert_eq!(record.as_receiver(), &Vec::<char>::new());
}

#[test]
fn apply_returns_displaced_tail() {
    let mut record = new_record();
    record.apply(TextCmd::add('a')).unwrap();
    record.apply(TextCmd::add('b')).unwrap();
    record.undo().unwrap().unwrap();
    let displaced = record.apply(TextCmd::add('x')).unwrap();
    assert_eq!(displaced.len(), 1);
    assert_eq!(displaced[0].command().len(), 1);
    assert_eq!(record.as_receiver(), &vec!['a', 'x']);
}

#[test]
fn go_to_and_revert() {
    let mut record = new_record();
    record.extend(vec![TextCmd::add('a'), TextCmd::add('b'), TextCmd::add('c')]).unwrap();
    assert!(record.go_to(1).unwrap().is_ok());
    assert_eq!(record.as_receiver(), &vec!['a']);
    assert!(record.go_to(3).unwrap().is_ok());
    assert_eq!(record.as_receiver(), &vec!['a', 'b', 'c']);
    assert!(record.go_to(4).is_none());
    assert!(record.revert().unwrap().is_ok());
    assert_eq!(record.as_receiver(), &Vec::<char>::new());
    assert_eq!(record.cursor(), 0);
}

#[test]
fn extend_stops_at_first_failure() {
    let mut record = new_record();
    let err = record
        .extend(vec![TextCmd::add('a'), TextCmd::Fail, TextCmd::add('b')])
        .unwrap_err();
    assert_eq!(err.into_command(), TextCmd::Fail);
    assert_eq!(record.as_receiver(), &vec!['a']);
    assert_eq!(record.len(), 1);
}

#[test]
fn receiver_access() {
    let mut record = new_record();
    record.apply(TextCmd::add('a')).unwrap();
    assert!(!record.is_empty());
    record.receiver_mut().push('!');
    assert_eq!(record.as_receiver(), &vec!['a', '!']);
    let receiver = record.into_receiver();
    assert_eq!(receiver, vec!['a', '!']);
}

#[test]
fn failed_undo_keeps_cursor() {
    let mut record = new_record();
    record.apply(TextCmd::add('a')).unwrap();
    // empty the receiver behind the engine's back: the undo has nothing to pop
    record.receiver_mut().clear();
    assert!(record.undo().unwrap().is_err());
    assert_eq!(record.cursor(), 1);
    assert_eq!(record.len(), 1);
}
