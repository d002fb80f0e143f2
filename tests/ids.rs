use peppermint::ids::IdManager;

#[test]
fn next_id_starts_at_one_and_increases() {
    let mut ids = IdManager::new();
    assert_eq!(ids.next_id(), Some(1));
    assert_eq!(ids.next_id(), Some(2));
    assert_eq!(ids.next_id(), Some(3));
}

#[test]
fn next_id_skips_registered() {
    let mut ids = IdManager::default();
    assert_eq!(ids.register_id(1), Some(1));
    assert_eq!(ids.register_id(2), Some(2));
    assert_eq!(ids.next_id(), Some(3));
}

#[test]
fn register_rejects_used_and_zero() {
    let mut ids = IdManager::new();
    assert_eq!(ids.register_id(0), None);
    assert_eq!(ids.register_id(7), Some(7));
    assert_eq!(ids.register_id(7), None);
    let auto = ids.next_id().unwrap();
    assert_eq!(ids.register_id(auto), None);
}

#[test]
fn released_ids_are_not_reused_by_cursor() {
    let mut ids = IdManager::new();
    assert_eq!(ids.next_id(), Some(1));
    ids.release_id(1);
    assert!(!ids.contains(1));
    assert_eq!(ids.next_id(), Some(2));
    assert_eq!(ids.register_id(1), Some(1));
    assert!(ids.contains(1));
}

#[test]
fn largest_ids() {
    let mut ids = IdManager::new();
    assert_eq!(ids.register_id(u64::MAX), Some(u64::MAX));
    assert_eq!(ids.register_id(u64::MAX - 1), Some(u64::MAX - 1));
    assert_eq!(ids.next_id(), Some(1));
}
