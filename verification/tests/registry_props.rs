use edda::registry::Registry;
use edda::registry::RegistryError;

#[test]
fn announced_consumer_is_found() {
    let mut reg = Registry::new();
    reg.register(7).unwrap();
    reg.reclassify(7, String::from("orders"));
    let found = reg.find_consumers(&String::from("orders"));
    assert_eq!(found, vec![7u128]);
}

#[test]
fn register_is_exclusive_per_identity() {
    let mut reg = Registry::new();
    assert!(reg.register(7).is_ok());
    assert_eq!(reg.register(7), Err(RegistryError::IdentityInUse));
    assert_eq!(reg.identities(), vec![7u128]);
}

#[test]
fn membership_follows_register_and_unregister() {
    let mut reg = Registry::new();
    assert!(!reg.contains(7));
    reg.register(7).unwrap();
    assert!(reg.contains(7));
    reg.unregister(7);
    assert!(!reg.contains(7));
}

#[test]
fn fresh_connection_is_not_a_consumer() {
    let mut reg = Registry::new();
    reg.register(7).unwrap();
    let found = reg.find_consumers(&String::from("orders"));
    assert!(found.is_empty());
}

#[test]
fn teardown_removes_identity_from_snapshots() {
    let mut reg = Registry::new();
    reg.register(7).unwrap();
    reg.reclassify(7, String::from("orders"));
    reg.unregister(7);
    assert!(reg.find_consumers(&String::from("orders")).is_empty());
    assert!(reg.identities().is_empty());
}

#[test]
fn unregister_is_idempotent() {
    let mut reg = Registry::new();
    reg.register(7).unwrap();
    reg.unregister(7);
    reg.unregister(7);
    assert!(reg.identities().is_empty());
}

#[test]
fn reclassify_after_close_is_a_noop() {
    let mut reg = Registry::new();
    reg.reclassify(99, String::from("orders"));
    assert!(reg.identities().is_empty());
    assert!(reg.find_consumers(&String::from("orders")).is_empty());
}

#[test]
fn snapshot_filters_by_category() {
    let mut reg = Registry::new();
    reg.register(1).unwrap();
    reg.register(2).unwrap();
    reg.register(3).unwrap();
    reg.reclassify(1, String::from("orders"));
    reg.reclassify(2, String::from("billing"));
    assert_eq!(reg.find_consumers(&String::from("orders")), vec![1u128]);
    assert_eq!(reg.find_consumers(&String::from("billing")), vec![2u128]);
    assert!(reg.find_consumers(&String::from("shipping")).is_empty());
}
