use wayland_commons::map::{ObjectMap, Side, SERVER_ID_LIMIT};

#[test]
fn insert_and_find() {
    let mut m = ObjectMap::new();
    assert_eq!(m.insert_at(5, 2, 3, 1), Ok(()));
    let o = m.find(5).unwrap();
    assert_eq!((o.interface, o.version, o.queue), (2, 3, 1));
    assert!(!o.locally_destroyed && !o.remote_destroyed);
    assert!(m.find(6).is_none());
    assert_eq!(m.insert_at(5, 0, 1, 0), Err(()));
    assert_eq!(m.insert_at(0, 0, 1, 0), Err(()));
}

#[test]
fn id_removed_only_after_both_flags() {
    let mut m = ObjectMap::new();
    m.insert_at(5, 0, 1, 0).unwrap();
    m.insert_at(6, 0, 1, 0).unwrap();
    assert!(!m.mark_locally_destroyed(5));
    assert!(m.contains(5));
    assert!(m.find(5).unwrap().locally_destroyed);
    assert!(!m.mark_locally_destroyed(5));
    assert!(m.contains(5));
    assert!(m.mark_remote_destroyed(5));
    assert!(!m.contains(5));
    assert!(!m.mark_remote_destroyed(6));
    assert!(m.contains(6));
    assert!(m.mark_locally_destroyed(6));
    assert!(!m.contains(6));
}

#[test]
fn marking_unknown_id_changes_nothing() {
    let mut m = ObjectMap::new();
    m.insert_at(3, 0, 1, 0).unwrap();
    assert!(!m.mark_remote_destroyed(9));
    assert!(!m.mark_locally_destroyed(9));
    assert!(m.contains(3));
    assert!(!m.contains(9));
}

#[test]
fn allocated_ids_increase_per_side() {
    let mut m = ObjectMap::new();
    assert_eq!(m.allocate_id(Side::Client), Some(2));
    assert_eq!(m.allocate_id(Side::Client), Some(3));
    assert_eq!(m.allocate_id(Side::Server), Some(SERVER_ID_LIMIT));
    assert_eq!(m.allocate_id(Side::Server), Some(SERVER_ID_LIMIT + 1));
    assert_eq!(m.allocate_id(Side::Client), Some(4));
}

#[test]
fn assign_queue_moves_routing() {
    let mut m = ObjectMap::new();
    m.insert_at(4, 0, 1, 0).unwrap();
    assert!(m.assign_queue(4, 3));
    assert_eq!(m.find(4).unwrap().queue, 3);
    assert!(!m.assign_queue(8, 3));
}
