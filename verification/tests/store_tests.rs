use workany::store::Store;

#[test]
fn cascade_delete_removes_all_referencing_rows() {
    let mut s = Store::new();
    assert!(s.insert_task(1));
    assert!(s.insert_task(2));
    let m1 = s.add_message(1).unwrap();
    let m2 = s.add_message(1).unwrap();
    let m3 = s.add_message(2).unwrap();
    let f1 = s.add_file(1).unwrap();
    let f2 = s.add_file(2).unwrap();
    assert_eq!((m1, m2, m3), (0, 1, 2));
    assert_eq!((f1, f2), (0, 1));

    assert!(s.delete_task(1));

    assert_eq!(s.tasks, vec![2]);
    assert_eq!(s.messages.len(), 1);
    assert_eq!(s.messages[0].id, m3);
    assert_eq!(s.messages[0].task_id, 2);
    assert_eq!(s.files.len(), 1);
    assert_eq!(s.files[0].id, f2);
    assert_eq!(s.files[0].task_id, 2);
    assert!(s.messages.iter().all(|m| m.task_id != 1));
    assert!(s.files.iter().all(|f| f.task_id != 1));
}

#[test]
fn duplicate_task_key_is_refused() {
    let mut s = Store::new();
    assert!(s.insert_task(7));
    assert!(!s.insert_task(7));
    assert_eq!(s.tasks, vec![7]);
}

#[test]
fn rows_for_a_missing_task_are_refused() {
    let mut s = Store::new();
    assert!(s.insert_task(1));
    assert_eq!(s.add_message(99), None);
    assert_eq!(s.add_file(99), None);
    assert!(s.messages.is_empty());
    assert!(s.files.is_empty());
}

#[test]
fn autoincrement_keys_survive_deletion() {
    let mut s = Store::new();
    assert!(s.insert_task(1));
    assert_eq!(s.add_message(1), Some(0));
    assert!(s.delete_task(1));
    assert!(s.insert_task(1));
    // the counter moves forward only: a key is never reissued
    assert_eq!(s.add_message(1), Some(1));
}

#[test]
fn deleting_a_missing_task_changes_nothing() {
    let mut s = Store::new();
    assert!(s.insert_task(3));
    let m = s.add_message(3).unwrap();
    assert!(!s.delete_task(4));
    assert_eq!(s.tasks, vec![3]);
    assert_eq!(s.messages.len(), 1);
    assert_eq!(s.messages[0].id, m);
}
