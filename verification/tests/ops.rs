use mermaidman::ops::{make_move_op, OpKind, OpsLog};
use mermaidman::types::UID;

#[test]
fn test_ops_log_undo_redo() {
    let mut log = OpsLog::new();

    let op = make_move_op(UID::from_str("n_001"), 0, 0, 100, 50);

    log.push(op);

    assert!(log.can_undo());
    assert!(!log.can_redo());

    let undone = log.pop_undo().unwrap();
    assert_eq!(undone.kind, OpKind::NodeMove);

    assert!(!log.can_undo());
    assert!(log.can_redo());

    let redone = log.pop_redo().unwrap();
    assert_eq!(redone.kind, OpKind::NodeMove);
}

#[test]
fn test_ops_log_clears_redo_on_new_op() {
    let mut log = OpsLog::new();

    log.push(make_move_op(UID::from_str("n_001"), 0, 0, 100, 50));
    log.pop_undo();

    assert!(log.can_redo());

    // a new operation clears redo
    log.push(make_move_op(UID::from_str("n_002"), 0, 0, 200, 100));

    assert!(!log.can_redo());
}

#[test]
fn test_undo_round_trip_leaves_redo_holding_it() {
    let mut log = OpsLog::new();
    let op = make_move_op(UID::from_str("n_007"), 1, 2, 3, 4);
    let id = op.id.clone();
    log.push(op);

    let undone = log.pop_undo().unwrap();
    assert_eq!(undone.id, id);
    assert_eq!(log.undo_stack.len(), 0);
    assert_eq!(log.redo_stack.len(), 1);
    assert_eq!(log.redo_stack[0].id, id);
}

#[test]
fn test_bounded_eviction() {
    let mut log = OpsLog::with_max_size(2);
    log.push(make_move_op(UID::from_str("n_1"), 0, 0, 1, 1));
    log.push(make_move_op(UID::from_str("n_2"), 0, 0, 2, 2));
    log.push(make_move_op(UID::from_str("n_3"), 0, 0, 3, 3));

    assert_eq!(log.undo_stack.len(), 2);
    // the oldest entry was evicted
    match &log.undo_stack[0].data {
        mermaidman::ops::OpData::NodeMove(m) => assert_eq!(m.uid.0, "n_2"),
        other => panic!("unexpected payload: {:?}", other),
    }
}

#[test]
fn test_pop_on_empty() {
    let mut log = OpsLog::new();
    assert!(log.pop_undo().is_none());
    assert!(log.pop_redo().is_none());
    assert!(!log.can_undo());
    assert!(!log.can_redo());
}

#[test]
fn test_recent() {
    let mut log = OpsLog::new();
    log.push(make_move_op(UID::from_str("n_1"), 0, 0, 1, 1));
    log.push(make_move_op(UID::from_str("n_2"), 0, 0, 2, 2));
    log.push(make_move_op(UID::from_str("n_3"), 0, 0, 3, 3));

    let recent = log.recent(2);
    assert_eq!(recent.len(), 2);
    match &recent[0].data {
        mermaidman::ops::OpData::NodeMove(m) => assert_eq!(m.uid.0, "n_2"),
        other => panic!("unexpected payload: {:?}", other),
    }
}
