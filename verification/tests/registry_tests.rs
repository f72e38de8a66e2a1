use mqtt_routing::common::{NodeInfo, NodeStatus, NodeType};
use mqtt_routing::registry::{Registry, RegistryError};

fn record(id: &str, capacity: u32, load: u32, heartbeat: u64) -> NodeInfo {
    NodeInfo {
        node_id: id.to_string(),
        node_type: NodeType::Node,
        last_heartbeat: heartbeat,
        status: NodeStatus::Active,
        capacity,
        current_load: load,
        version: "0.1.0".to_string(),
        metadata: Vec::new(),
    }
}

#[test]
fn first_observation_starts_with_no_tracked_load() {
    let mut registry = Registry::new();
    // The heartbeat claims load 7, but the registry tracks load itself.
    registry.upsert(record("W1", 10, 7, 100));
    let w1 = registry.get("W1").expect("W1 was inserted");
    assert_eq!(w1.current_load, 0);
    assert_eq!(w1.capacity, 10);
    assert_eq!(w1.last_heartbeat, 100);
}

#[test]
fn heartbeat_never_resets_tracked_load() {
    let mut registry = Registry::new();
    registry.upsert(record("W1", 10, 0, 100));
    registry.adjust_load("W1", 5).expect("load fits capacity");

    registry.upsert(record("W1", 10, 0, 110));
    assert_eq!(registry.get("W1").unwrap().current_load, 5);
}

#[test]
fn applying_one_heartbeat_twice_changes_nothing() {
    let mut registry = Registry::new();
    registry.upsert(record("W1", 10, 0, 100));
    registry.adjust_load("W1", 3).expect("load fits capacity");

    let heartbeat = record("W1", 10, 1, 140);
    registry.upsert(heartbeat);
    let after_once = registry.get("W1").unwrap();

    let heartbeat_again = record("W1", 10, 1, 140);
    registry.upsert(heartbeat_again);
    let after_twice = registry.get("W1").unwrap();

    assert_eq!(after_twice.current_load, after_once.current_load);
    assert_eq!(after_twice.current_load, 3);
    assert_eq!(after_twice.last_heartbeat, after_once.last_heartbeat);
    assert_eq!(after_twice.status, after_once.status);
}

#[test]
fn out_of_order_heartbeats_keep_the_greater_timestamp() {
    // Both heartbeats carry a timestamp above the registry's current
    // value; whichever arrives first, the greater one sticks.
    let mut forward = Registry::new();
    forward.upsert(record("W1", 10, 0, 100));
    forward.upsert(record("W1", 10, 0, 200));
    forward.upsert(record("W1", 10, 0, 300));
    assert_eq!(forward.get("W1").unwrap().last_heartbeat, 300);

    let mut reversed = Registry::new();
    reversed.upsert(record("W1", 10, 0, 100));
    reversed.upsert(record("W1", 10, 0, 300));
    reversed.upsert(record("W1", 10, 0, 200));
    assert_eq!(reversed.get("W1").unwrap().last_heartbeat, 300);
}

#[test]
fn capacity_is_fixed_at_first_observation() {
    let mut registry = Registry::new();
    registry.upsert(record("W1", 10, 0, 100));
    registry.upsert(record("W1", 99, 0, 110));
    assert_eq!(registry.get("W1").unwrap().capacity, 10);
}

#[test]
fn adjust_load_reports_unknown_nodes() {
    let mut registry = Registry::new();
    assert_eq!(registry.adjust_load("W9", 1), Err(RegistryError::UnknownNode));
}

#[test]
fn adjust_load_never_breaks_the_capacity_invariant() {
    let mut registry = Registry::new();
    registry.upsert(record("W1", 3, 0, 100));

    assert_eq!(registry.adjust_load("W1", 3), Ok(3));
    assert_eq!(registry.adjust_load("W1", 1), Err(RegistryError::CapacityExceeded));
    assert_eq!(registry.get("W1").unwrap().current_load, 3);

    assert_eq!(registry.adjust_load("W1", -3), Ok(0));
    assert_eq!(registry.adjust_load("W1", -1), Err(RegistryError::CapacityExceeded));
    assert_eq!(registry.get("W1").unwrap().current_load, 0);

    // The invariant 0 <= current_load <= capacity held throughout.
    for node in registry.snapshot() {
        assert!(node.current_load <= node.capacity);
    }
}

#[test]
fn snapshot_is_ordered_by_node_id() {
    let mut registry = Registry::new();
    registry.upsert(record("Wb", 10, 0, 100));
    registry.upsert(record("Wa", 10, 0, 100));
    registry.upsert(record("Wc", 10, 0, 100));

    let ids: Vec<String> = registry.snapshot().into_iter().map(|n| n.node_id).collect();
    assert_eq!(ids, vec!["Wa".to_string(), "Wb".to_string(), "Wc".to_string()]);
}

#[test]
fn remove_forgets_exactly_one_node() {
    let mut registry = Registry::new();
    registry.upsert(record("W1", 10, 0, 100));
    registry.upsert(record("W2", 10, 0, 100));

    registry.remove("W1");
    assert!(registry.get("W1").is_none());
    assert!(registry.get("W2").is_some());

    // Removing an unknown node changes nothing.
    registry.remove("W9");
    assert_eq!(registry.snapshot().len(), 1);
}
