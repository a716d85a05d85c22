//! Tests of the composite command and of the command trait implementation.

use undo::{Command, Merge, Merged, TextCmd};

#[test]
fn new_is_empty() {
    let merged: Merged<TextCmd> = Merged::new();
    assert!(merged.is_empty());
    assert_eq!(merged.len(), 0);
    assert!(merged.text().is_none());
}

#[test]
fn merge_holds_both() {
    let merged = Merged::merge(TextCmd::add('a'), TextCmd::add('b'));
    assert_eq!(merged.len(), 2);
    assert!(!merged.is_empty());
}

#[test]
fn push_and_join() {
    let mut merged: Merged<TextCmd> = Merged::new();
    merged.push(TextCmd::add('a'));
    let merged = merged.join(TextCmd::add('b'));
    assert_eq!(merged.len(), 2);
    let commands = merged.into_commands();
    assert_eq!(commands, vec![TextCmd::add('a'), TextCmd::add('b')]);
}

#[test]
fn text_is_kept() {
    let mut merged: Merged<TextCmd> = Merged::with_text(String::from("insert word"));
    assert_eq!(merged.text().unwrap(), "insert word");
    merged.push(TextCmd::add('w'));
    assert_eq!(merged.text().unwrap(), "insert word");
    merged.set_text(String::from("insert letter"));
    assert_eq!(merged.text().unwrap(), "insert letter");
    assert_eq!(merged.len(), 1);
}

#[test]
fn group_applies_in_order_and_undoes_in_reverse() {
    let mut receiver: Vec<char> = Vec::new();
    let mut merged = Merged::merge(TextCmd::add('a'), TextCmd::add('b'));
    merged.apply(&mut receiver).unwrap();
    assert_eq!(receiver, vec!['a', 'b']);
    merged.undo(&mut receiver).unwrap();
    assert_eq!(receiver, Vec::<char>::new());
    merged.redo(&mut receiver).unwrap();
    assert_eq!(receiver, vec!['a', 'b']);
}

#[test]
fn group_policy_is_first_elements() {
    let empty: Merged<TextCmd> = Merged::new();
    assert_eq!(empty.merge_policy(), Merge::Always);
    let merged = Merged::merge(TextCmd::add_tagged('a', 3), TextCmd::add_merging('b'));
    assert_eq!(merged.merge_policy(), Merge::If(3));
}

#[test]
fn partial_failure_keeps_earlier_effects() {
    let mut receiver: Vec<char> = Vec::new();
    let mut merged: Merged<TextCmd> = Merged::new();
    merged.push(TextCmd::add('a'));
    merged.push(TextCmd::Fail);
    assert!(merged.apply(&mut receiver).is_err());
    assert_eq!(receiver, vec!['a']);
}

#[test]
fn text_command_edits() {
    let mut receiver: Vec<char> = Vec::new();
    let mut cmd = TextCmd::add('z');
    cmd.apply(&mut receiver).unwrap();
    assert_eq!(receiver, vec!['z']);
    cmd.undo(&mut receiver).unwrap();
    assert_eq!(receiver, Vec::<char>::new());
    assert!(cmd.undo(&mut receiver).is_err());
    assert_eq!(cmd.merge(), Merge::Never);
    assert_eq!(TextCmd::add_merging('a').merge(), Merge::Always);
    assert_eq!(TextCmd::add_tagged('a', 9).merge(), Merge::If(9));

    let mut fail = TextCmd::Fail;
    assert!(fail.apply(&mut receiver).is_err());
    assert!(fail.redo(&mut receiver).is_err());
    assert_eq!(receiver, Vec::<char>::new());
}
