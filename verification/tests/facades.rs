//! Tests of the queue and checkpoint facades over the linear engine.

use undo::{Checkpoint, Queue, Record, TextCmd};

fn new_record() -> Record<TextCmd, Vec<char>> {
    Record::new(Vec::new())
}

#[test]
fn queue_commit_flushes_in_order() {
    let mut record = new_record();
    let mut queue: Queue<TextCmd> = Queue::new();
    queue.apply(TextCmd::add('a'));
    queue.apply(TextCmd::add('b'));
    queue.undo();
    assert_eq!(queue.len(), 3);
    assert!(!queue.is_empty());
    assert_eq!(record.len(), 0);

    queue.commit(&mut record).unwrap();
    assert_eq!(record.as_receiver(), &vec!['a']);
    assert_eq!(record.len(), 2);
    assert_eq!(record.cursor(), 1);
}

#[test]
fn queue_commit_stops_at_failure() {
    let mut record = new_record();
    let mut queue: Queue<TextCmd> = Queue::new();
    queue.apply(TextCmd::add('a'));
    queue.apply(TextCmd::Fail);
    queue.apply(TextCmd::add('b'));
    assert!(queue.commit(&mut record).is_err());
    assert_eq!(record.as_receiver(), &vec!['a']);
    assert_eq!(record.len(), 1);
}

#[test]
fn queue_boundary_actions_are_no_ops() {
    let mut record = new_record();
    let mut queue: Queue<TextCmd> = Queue::new();
    queue.undo();
    queue.redo();
    queue.apply(TextCmd::add('a'));
    queue.redo();
    queue.commit(&mut record).unwrap();
    assert_eq!(record.as_receiver(), &vec!['a']);
}

#[test]
fn queue_cancel_touches_nothing() {
    let mut record = new_record();
    let mut queue: Queue<TextCmd> = Queue::new();
    queue.apply(TextCmd::add('a'));
    queue.cancel();
    assert_eq!(record.len(), 0);
    record.apply(TextCmd::add('b')).unwrap();
    assert_eq!(record.as_receiver(), &vec!['b']);
}

#[test]
fn checkpoint_cancel_rolls_back() {
    let mut record = new_record();
    record.apply(TextCmd::add('a')).unwrap();

    let mut cp = Checkpoint::new();
    cp.apply(&mut record, TextCmd::add('b')).unwrap();
    cp.apply(&mut record, TextCmd::add('c')).unwrap();
    cp.undo(&mut record).unwrap().unwrap();
    assert_eq!(cp.len(), 3);
    assert_eq!(record.as_receiver(), &vec!['a', 'b']);

    cp.cancel(&mut record).unwrap();
    assert_eq!(record.as_receiver(), &vec!['a']);
    assert_eq!(record.cursor(), 1);
}

#[test]
fn checkpoint_commit_keeps_changes() {
    let mut record = new_record();
    let mut cp = Checkpoint::new();
    cp.apply(&mut record, TextCmd::add('a')).unwrap();
    cp.redo(&mut record);
    cp.commit();
    assert_eq!(record.as_receiver(), &vec!['a']);
    assert_eq!(record.cursor(), 1);
}

#[test]
fn checkpoint_failed_apply_is_not_remembered() {
    let mut record = new_record();
    let mut cp = Checkpoint::new();
    cp.apply(&mut record, TextCmd::add('a')).unwrap();
    assert!(cp.apply(&mut record, TextCmd::Fail).is_err());
    assert_eq!(cp.len(), 1);
    cp.cancel(&mut record).unwrap();
    assert_eq!(record.as_receiver(), &Vec::<char>::new());
}

#[test]
fn checkpoint_undo_redo_roundtrip() {
    let mut record = new_record();
    record.apply(TextCmd::add('a')).unwrap();
    record.apply(TextCmd::add('b')).unwrap();

    let mut cp = Checkpoint::new();
    cp.undo(&mut record).unwrap().unwrap();
    cp.undo(&mut record).unwrap().unwrap();
    cp.redo(&mut record).unwrap().unwrap();
    assert_eq!(record.as_receiver(), &vec!['a']);

    cp.cancel(&mut record).unwrap();
    assert_eq!(record.as_receiver(), &vec!['a', 'b']);
    assert_eq!(record.cursor(), 2);
}

#[test]
fn checkpoint_cancel_reports_partial_rollback() {
    let mut record = new_record();
    let mut cp = Checkpoint::new();
    cp.apply(&mut record, TextCmd::add('a')).unwrap();
    // empty the receiver behind the engine's back: the rollback's undo fails
    record.receiver_mut().clear();
    assert!(cp.cancel(&mut record).is_err());
    assert_eq!(record.cursor(), 1);
}
