//! Behaviour of the registry and the identity allocator.

use ping_relay::IdAllocator;
use ping_relay::Registry;

#[test]
fn new_registry_is_empty() {
    let reg = Registry::new();
    assert_eq!(reg.len(), 0);
    assert!(reg.read_samples(1).is_none());
    assert!(reg.lookup_port_by_id(1).is_none());
}

#[test]
fn register_creates_fresh_entry() {
    let mut reg = Registry::new();
    reg.register(String::from("54321"), 7);
    assert_eq!(reg.len(), 1);
    assert_eq!(reg.read_samples(7), Some(vec![]));
    assert_eq!(reg.lookup_port_by_id(7), Some(String::from("54321")));
}

#[test]
fn record_before_register_is_noop() {
    let mut reg = Registry::new();
    reg.record_sample("5000", 1);
    assert_eq!(reg.len(), 0);
    assert!(reg.read_samples(1).is_none());
}

#[test]
fn record_appends_in_order() {
    let mut reg = Registry::new();
    reg.register(String::from("4000"), 3);
    reg.record_sample("4000", 10);
    reg.record_sample("4000", -2);
    reg.record_sample("4000", 10);
    assert_eq!(reg.read_samples(3), Some(vec![10, -2, 10]));
}

#[test]
fn record_on_other_port_does_not_touch_entry() {
    let mut reg = Registry::new();
    reg.register(String::from("4000"), 3);
    reg.record_sample("4001", 99);
    assert_eq!(reg.read_samples(3), Some(vec![]));
    assert_eq!(reg.len(), 1);
}

#[test]
fn last_registration_wins_for_same_client() {
    let mut reg = Registry::new();
    reg.register(String::from("1111"), 1);
    reg.register(String::from("2222"), 2);
    reg.register(String::from("3333"), 1);
    assert_eq!(reg.lookup_port_by_id(1), Some(String::from("3333")));
    assert_eq!(reg.lookup_port_by_id(2), Some(String::from("2222")));
    assert_eq!(reg.len(), 2);
    // the abandoned port no longer reaches any entry
    reg.record_sample("1111", 9);
    assert_eq!(reg.read_samples(1), Some(vec![]));
    assert_eq!(reg.read_samples(2), Some(vec![]));
}

#[test]
fn register_supersedes_prior_holder_of_port() {
    let mut reg = Registry::new();
    reg.register(String::from("1111"), 1);
    reg.register(String::from("1111"), 2);
    assert!(reg.read_samples(1).is_none());
    assert_eq!(reg.lookup_port_by_id(2), Some(String::from("1111")));
    assert_eq!(reg.len(), 1);
}

#[test]
fn remove_deletes_entry_and_is_idempotent() {
    let mut reg = Registry::new();
    reg.register(String::from("1111"), 1);
    reg.remove("2222");
    assert_eq!(reg.len(), 1);
    reg.remove("1111");
    assert_eq!(reg.len(), 0);
    assert!(reg.read_samples(1).is_none());
    reg.remove("1111");
    assert_eq!(reg.len(), 0);
}

#[test]
fn deregister_removes_clients_entry() {
    let mut reg = Registry::new();
    reg.register(String::from("1111"), 1);
    reg.register(String::from("2222"), 2);
    reg.record_sample("1111", 5);
    reg.deregister(1);
    assert!(reg.read_samples(1).is_none());
    assert!(reg.lookup_port_by_id(1).is_none());
    assert_eq!(reg.read_samples(2), Some(vec![]));
    assert_eq!(reg.len(), 1);
}

#[test]
fn deregister_without_entry_is_noop() {
    let mut reg = Registry::new();
    reg.deregister(9);
    assert_eq!(reg.len(), 0);
}

#[test]
fn port_can_be_reused_after_removal() {
    let mut reg = Registry::new();
    reg.register(String::from("1111"), 1);
    reg.deregister(1);
    reg.register(String::from("1111"), 2);
    assert_eq!(reg.read_samples(2), Some(vec![]));
    assert!(reg.read_samples(1).is_none());
}

#[test]
fn allocator_counts_up_from_one() {
    let mut ids = IdAllocator::new();
    assert_eq!(ids.next_id(), 1);
    assert_eq!(ids.next_id(), 2);
    assert_eq!(ids.next_id(), 3);
}
