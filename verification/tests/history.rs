//! End-to-end tests of the branching engine.

use undo::{History, RecordBuilder, Signal, TextCmd};

fn new_history() -> History<TextCmd, Vec<char>> {
    History::new(Vec::new())
}

#[test]
fn linear_use_matches_record() {
    let mut history = new_history();
    history.apply(TextCmd::add('a')).unwrap();
    history.apply(TextCmd::add('b')).unwrap();
    assert_eq!(history.as_receiver(), &vec!['a', 'b']);
    assert_eq!(history.len(), 2);
    assert_eq!(history.cursor(), 2);
    assert_eq!(history.branch(), 0);
    assert_eq!(history.root(), 0);

    history.undo().unwrap().unwrap();
    assert_eq!(history.as_receiver(), &vec!['a']);
    history.redo().unwrap().unwrap();
    assert_eq!(history.as_receiver(), &vec!['a', 'b']);
    assert!(history.revert().unwrap().is_ok());
    assert_eq!(history.as_receiver(), &Vec::<char>::new());
}

#[test]
fn branch_jump() {
    let mut history = new_history();
    history.apply(TextCmd::add('a')).unwrap();
    history.apply(TextCmd::add('b')).unwrap();
    history.undo().unwrap().unwrap();
    history.apply(TextCmd::add('x')).unwrap();
    assert_eq!(history.as_receiver(), &vec!['a', 'x']);
    assert_eq!(history.branch(), 0);

    // the displaced future became branch one; jump onto its tip
    assert!(history.go_to(1, 2).unwrap().is_ok());
    assert_eq!(history.as_receiver(), &vec!['a', 'b']);
    assert_eq!(history.branch(), 1);
    assert_eq!(history.cursor(), 2);

    // and back again
    assert!(history.go_to(0, 2).unwrap().is_ok());
    assert_eq!(history.as_receiver(), &vec!['a', 'x']);
    assert_eq!(history.branch(), 0);
}

#[test]
fn go_to_unknown_branch_changes_nothing() {
    let mut history = new_history();
    history.apply(TextCmd::add('a')).unwrap();
    assert!(history.go_to(7, 0).is_none());
    assert_eq!(history.as_receiver(), &vec!['a']);
    assert_eq!(history.branch(), 0);
    assert!(history.go_to(0, 5).is_none());
}

#[test]
fn saved_marker_migrates_to_branch() {
    let mut history = new_history();
    history.apply(TextCmd::add('a')).unwrap();
    history.set_saved(true);
    history.undo().unwrap().unwrap();
    history.apply(TextCmd::add('x')).unwrap();
    assert!(!history.is_saved());

    // the saved state lives on the stored branch; jumping there restores it
    assert!(history.go_to(1, 1).unwrap().is_ok());
    assert_eq!(history.as_receiver(), &vec!['a']);
    assert!(history.is_saved());
}

#[test]
fn root_signal_on_switch() {
    let mut history: History<TextCmd, Vec<char>> =
        History::with_builder(RecordBuilder::new().signal_sink(), Vec::new());
    history.apply(TextCmd::add('a')).unwrap();
    history.undo().unwrap().unwrap();
    history.apply(TextCmd::add('x')).unwrap();
    history.take_signals();
    assert!(history.go_to(1, 1).unwrap().is_ok());
    let signals = history.take_signals();
    assert!(signals.contains(&Signal::Root { old: 0, new: 1 }));
}

#[test]
fn nested_branches() {
    let mut history = new_history();
    history.apply(TextCmd::add('a')).unwrap();
    history.apply(TextCmd::add('b')).unwrap();
    history.undo().unwrap().unwrap();
    history.apply(TextCmd::add('x')).unwrap();
    // branch one holds "b" forked at one
    history.undo().unwrap().unwrap();
    history.apply(TextCmd::add('y')).unwrap();
    // branch two holds "x" forked at one
    assert_eq!(history.as_receiver(), &vec!['a', 'y']);

    assert!(history.go_to(1, 2).unwrap().is_ok());
    assert_eq!(history.as_receiver(), &vec!['a', 'b']);
    assert!(history.go_to(2, 2).unwrap().is_ok());
    assert_eq!(history.as_receiver(), &vec!['a', 'x']);
    assert!(history.go_to(0, 2).unwrap().is_ok());
    assert_eq!(history.as_receiver(), &vec!['a', 'y']);
}

#[test]
fn extend_creates_one_branch() {
    let mut history = new_history();
    history.apply(TextCmd::add('a')).unwrap();
    history.undo().unwrap().unwrap();
    history
        .extend(vec![TextCmd::add('p'), TextCmd::add('q')])
        .unwrap();
    assert_eq!(history.as_receiver(), &vec!['p', 'q']);
    // the displaced "a" lives on branch one
    assert!(history.go_to(1, 1).unwrap().is_ok());
    assert_eq!(history.as_receiver(), &vec!['a']);
}

#[test]
fn history_into_receiver() {
    let mut history = new_history();
    history.apply(TextCmd::add('a')).unwrap();
    assert!(history.can_undo());
    assert!(!history.can_redo());
    let receiver = history.into_receiver();
    assert_eq!(receiver, vec!['a']);
}
