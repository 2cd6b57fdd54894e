use chat_hub::registry::SessionRegistry;

#[test]
fn register_keeps_insertion_order() {
    let mut reg = SessionRegistry::new();
    reg.register(7);
    reg.register(3);
    reg.register(9);
    assert_eq!(reg.snapshot_writers(), vec![7, 3, 9]);
}

#[test]
fn register_twice_is_a_no_op() {
    let mut reg = SessionRegistry::new();
    reg.register(7);
    reg.register(7);
    assert_eq!(reg.snapshot_writers(), vec![7]);
}

#[test]
fn names_come_back_in_registration_order() {
    let mut reg = SessionRegistry::new();
    reg.register(1);
    reg.register(2);
    reg.set_name(1, "alice");
    reg.set_name(2, "bob");
    assert_eq!(reg.snapshot_names(), vec!["alice".to_string(), "bob".to_string()]);
}

#[test]
fn unregister_removes_writer_and_name() {
    let mut reg = SessionRegistry::new();
    reg.register(1);
    reg.register(2);
    reg.set_name(1, "alice");
    reg.set_name(2, "bob");
    reg.unregister(1);
    assert_eq!(reg.snapshot_writers(), vec![2]);
    assert_eq!(reg.snapshot_names(), vec!["bob".to_string()]);
}

#[test]
fn unregister_is_idempotent() {
    let mut reg = SessionRegistry::new();
    reg.register(1);
    reg.unregister(5);
    reg.unregister(1);
    reg.unregister(1);
    assert_eq!(reg.snapshot_writers(), Vec::<u64>::new());
}

#[test]
fn recipients_exclude_the_sender_only() {
    let mut reg = SessionRegistry::new();
    reg.register(1);
    reg.register(2);
    reg.register(3);
    assert_eq!(reg.recipients_excluding(2), vec![1, 3]);
    assert_eq!(reg.recipients_excluding(9), vec![1, 2, 3]);
}

#[test]
fn prune_drops_every_failed_identity() {
    let mut reg = SessionRegistry::new();
    for id in 1..=4 {
        reg.register(id);
        reg.set_name(id, &format!("user{id}"));
    }
    reg.prune(&vec![2, 4]);
    assert_eq!(reg.snapshot_writers(), vec![1, 3]);
    assert_eq!(
        reg.snapshot_names(),
        vec!["user1".to_string(), "user3".to_string()]
    );
}

#[test]
fn has_writer_tracks_registration() {
    let mut reg = SessionRegistry::new();
    assert!(!reg.has_writer(1));
    reg.register(1);
    assert!(reg.has_writer(1));
    reg.unregister(1);
    assert!(!reg.has_writer(1));
}
