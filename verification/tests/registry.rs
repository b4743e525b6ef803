use lanlink::message::Status;
use lanlink::registry::Registry;

#[test]
fn upsert_inserts_a_new_device() {
    let mut reg = Registry::new();
    reg.upsert_discovered(String::from("phone"), String::from("192.168.0.7"), 1716);
    let devices = reg.snapshot();
    assert_eq!(devices.len(), 1);
    assert_eq!(devices[0].name, "phone");
    assert_eq!(devices[0].address, "192.168.0.7");
    assert_eq!(devices[0].port, 1716);
    assert_eq!(devices[0].status, Status::Discovered);
    assert!(!devices[0].paired);
}

#[test]
fn upsert_twice_keeps_one_entry_first_seen_wins() {
    let mut reg = Registry::new();
    reg.upsert_discovered(String::from("phone"), String::from("192.168.0.7"), 1716);
    reg.upsert_discovered(String::from("renamed"), String::from("192.168.0.7"), 9999);
    let devices = reg.snapshot();
    assert_eq!(devices.len(), 1);
    assert_eq!(devices[0].name, "phone");
    assert_eq!(devices[0].port, 1716);
}

#[test]
fn upsert_distinct_addresses_keeps_order() {
    let mut reg = Registry::new();
    reg.upsert_discovered(String::from("a"), String::from("10.0.0.1"), 1);
    reg.upsert_discovered(String::from("b"), String::from("10.0.0.2"), 2);
    let devices = reg.snapshot();
    assert_eq!(devices.len(), 2);
    assert_eq!(devices[0].address, "10.0.0.1");
    assert_eq!(devices[1].address, "10.0.0.2");
}

#[test]
fn set_status_updates_matching_entry_only() {
    let mut reg = Registry::new();
    reg.upsert_discovered(String::from("a"), String::from("10.0.0.1"), 1);
    reg.upsert_discovered(String::from("b"), String::from("10.0.0.2"), 2);
    reg.set_status(&String::from("10.0.0.2"), Status::Paired, true);
    let devices = reg.snapshot();
    assert_eq!(devices[0].status, Status::Discovered);
    assert!(!devices[0].paired);
    assert_eq!(devices[1].status, Status::Paired);
    assert!(devices[1].paired);
}

#[test]
fn set_status_on_unknown_address_is_a_no_op() {
    let mut reg = Registry::new();
    reg.upsert_discovered(String::from("a"), String::from("10.0.0.1"), 1);
    reg.set_status(&String::from("10.9.9.9"), Status::Paired, true);
    let devices = reg.snapshot();
    assert_eq!(devices.len(), 1);
    assert_eq!(devices[0].status, Status::Discovered);
}

#[test]
fn get_returns_by_position() {
    let mut reg = Registry::new();
    reg.upsert_discovered(String::from("a"), String::from("10.0.0.1"), 1);
    reg.upsert_discovered(String::from("b"), String::from("10.0.0.2"), 2);
    assert_eq!(reg.get(0).unwrap().name, "a");
    assert_eq!(reg.get(1).unwrap().name, "b");
    assert!(reg.get(2).is_none());
}

#[test]
fn get_paired_indexes_only_paired_devices() {
    let mut reg = Registry::new();
    reg.upsert_discovered(String::from("a"), String::from("10.0.0.1"), 1);
    reg.upsert_discovered(String::from("b"), String::from("10.0.0.2"), 2);
    reg.upsert_discovered(String::from("c"), String::from("10.0.0.3"), 3);
    reg.set_status(&String::from("10.0.0.3"), Status::Paired, true);
    assert_eq!(reg.get_paired(0).unwrap().name, "c");
    assert!(reg.get_paired(1).is_none());
}

#[test]
fn snapshot_paired_names_lists_paired_only() {
    let mut reg = Registry::new();
    reg.upsert_discovered(String::from("a"), String::from("10.0.0.1"), 1);
    reg.upsert_discovered(String::from("b"), String::from("10.0.0.2"), 2);
    reg.set_status(&String::from("10.0.0.1"), Status::Paired, true);
    let names = reg.snapshot_paired_names();
    assert_eq!(names, vec![String::from("a")]);
}

#[test]
fn paired_record_preseeds_rediscovered_device() {
    let mut reg = Registry::new();
    reg.record_paired(String::from("10.0.0.5"));
    assert!(reg.has_paired_record(&String::from("10.0.0.5")));
    reg.upsert_discovered(String::from("e"), String::from("10.0.0.5"), 5);
    let devices = reg.snapshot();
    assert_eq!(devices.len(), 1);
    assert!(devices[0].paired);
    assert_eq!(devices[0].status, Status::Paired);
}

#[test]
fn record_paired_is_idempotent() {
    let mut reg = Registry::new();
    reg.record_paired(String::from("10.0.0.5"));
    reg.record_paired(String::from("10.0.0.5"));
    assert!(reg.has_paired_record(&String::from("10.0.0.5")));
    assert!(!reg.has_paired_record(&String::from("10.0.0.6")));
}

#[test]
fn empty_registry_has_empty_views() {
    let reg = Registry::new();
    assert_eq!(reg.snapshot().len(), 0);
    assert_eq!(reg.snapshot_paired_names().len(), 0);
    assert!(reg.get(0).is_none());
    assert!(reg.get_paired(0).is_none());
}

#[test]
fn get_paired_is_none_while_nothing_is_paired() {
    let mut reg = Registry::new();
    reg.upsert_discovered(String::from("a"), String::from("10.0.0.1"), 1);
    assert!(reg.get_paired(0).is_none());
}
