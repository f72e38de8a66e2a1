use mqtt_routing::common::{NodeInfo, NodeStatus, NodeType, RoutingRequest, RoutingStatus};
use mqtt_routing::node::Node;

fn own_record(id: &str, capacity: u32) -> NodeInfo {
    NodeInfo {
        node_id: id.to_string(),
        node_type: NodeType::Node,
        last_heartbeat: 100,
        status: NodeStatus::Active,
        capacity,
        current_load: 0,
        version: "0.1.0".to_string(),
        metadata: Vec::new(),
    }
}

fn local_node(id: &str, capacity: u32, load: u32) -> Node {
    Node { node_info: own_record(id, capacity), current_load: load }
}

fn request_from(client: &str, preferred: Option<&str>) -> RoutingRequest {
    RoutingRequest {
        client_id: client.to_string(),
        data_type: vec!["text".to_string()],
        node_info: own_record(client, 10),
        preferred_node: preferred.map(|p| p.to_string()),
        timestamp: 100,
    }
}

#[test]
fn local_admission_accepts_with_pair_scoped_configuration() {
    let node = local_node("W1", 10, 3);
    let response = node.handle_routing_request(&request_from("R9", None), 120);
    assert_eq!(response.status, RoutingStatus::Accepted);
    assert_eq!(response.node_id, "W1");
    assert_eq!(response.client_id, "R9");
    assert_eq!(response.timestamp, 120);
    let config = response.configuration.expect("acceptance carries a configuration");
    assert_eq!(config.subscribe_topics, vec!["data/response/W1/R9".to_string()]);
    assert_eq!(config.publish_topic, "data/request/W1/R9");
    assert_eq!(config.qos, 1);
    assert_eq!(config.max_batch_size, 100);
    assert_eq!(config.processing_timeout_ms, 5000);
}

#[test]
fn local_admission_rejects_at_capacity() {
    let node = local_node("W1", 10, 10);
    let response = node.handle_routing_request(&request_from("R9", None), 120);
    assert_eq!(response.status, RoutingStatus::Rejected);
    assert_eq!(response.rejection_reason.as_deref(), Some("capacity limit reached"));
    assert!(response.configuration.is_none());
}

#[test]
fn local_admission_rejects_when_not_preferred() {
    let node = local_node("W1", 10, 0);
    let response = node.handle_routing_request(&request_from("R9", Some("W2")), 120);
    assert_eq!(response.status, RoutingStatus::Rejected);
    assert_eq!(response.rejection_reason.as_deref(), Some("not preferred target"));
}

#[test]
fn local_admission_accepts_its_own_preference() {
    let node = local_node("W1", 10, 0);
    let response = node.handle_routing_request(&request_from("R9", Some("W1")), 120);
    assert_eq!(response.status, RoutingStatus::Accepted);
}

#[test]
fn capacity_rule_is_checked_before_preference() {
    let node = local_node("W1", 2, 2);
    let response = node.handle_routing_request(&request_from("R9", Some("W2")), 120);
    assert_eq!(response.rejection_reason.as_deref(), Some("capacity limit reached"));
}

#[test]
fn heartbeat_carries_the_live_load() {
    let mut node = local_node("W1", 10, 0);
    node.begin_processing();
    node.begin_processing();
    let (topic, record) = node.heartbeat_message(140);
    assert_eq!(topic, "heartbeat/worker/W1");
    assert_eq!(record.current_load, 2);
    assert_eq!(record.last_heartbeat, 140);
    assert_eq!(record.status, NodeStatus::Active);

    node.finish_processing();
    let (_, record) = node.heartbeat_message(145);
    assert_eq!(record.current_load, 1);
}

#[test]
fn load_never_goes_below_zero() {
    let mut node = local_node("W1", 10, 0);
    node.finish_processing();
    assert_eq!(node.current_load, 0);
}

#[test]
fn shutdown_publishes_a_liveness_down_record() {
    let node = local_node("W1", 10, 1);
    let (topic, record) = node.shutdown_message(150);
    assert_eq!(topic, "heartbeat/worker/W1");
    assert_eq!(record.status, NodeStatus::Inactive);
    assert_eq!(record.last_heartbeat, 150);
}

#[test]
fn fresh_nodes_get_role_prefixed_ids() {
    let node = Node::new(25, 100);
    assert!(node.node_info.node_id.starts_with("node-"));
    // The generated suffix is one role prefix, a hyphen, and 36 id chars.
    assert_eq!(node.node_info.node_id.len(), "node-".len() + 36);
    assert!(!node.node_info.node_id.contains('/'));
    assert_eq!(node.node_info.capacity, 25);
    assert_eq!(node.node_info.current_load, 0);
    assert_eq!(node.node_info.status, NodeStatus::Active);

    // Two nodes never share an id.
    let other = Node::new(25, 100);
    assert_ne!(node.node_info.node_id, other.node_info.node_id);
}
