use mqtt_routing::common::{NodeInfo, NodeStatus, NodeType, RoutingRequest, RoutingStatus};
use mqtt_routing::service::OrchestrationService;

fn worker(id: &str, capacity: u32, heartbeat: u64) -> NodeInfo {
    NodeInfo {
        node_id: id.to_string(),
        node_type: NodeType::Node,
        last_heartbeat: heartbeat,
        status: NodeStatus::Active,
        capacity,
        current_load: 0,
        version: "0.1.0".to_string(),
        metadata: Vec::new(),
    }
}

fn requester_record(id: &str, heartbeat: u64) -> NodeInfo {
    NodeInfo {
        node_id: id.to_string(),
        node_type: NodeType::Client,
        last_heartbeat: heartbeat,
        status: NodeStatus::Active,
        capacity: 10,
        current_load: 0,
        version: "0.1.0".to_string(),
        metadata: Vec::new(),
    }
}

fn placement_request(client: &str, preferred: Option<&str>) -> RoutingRequest {
    RoutingRequest {
        client_id: client.to_string(),
        data_type: vec!["text".to_string(), "sensor".to_string()],
        node_info: requester_record(client, 50),
        preferred_node: preferred.map(|p| p.to_string()),
        timestamp: 50,
    }
}

fn add_worker(service: &mut OrchestrationService, id: &str, capacity: u32, load: u32) {
    service.upsert_heartbeat(worker(id, capacity, 100));
    if load > 0 {
        service.adjust_load(id, load as i32).expect("load fits capacity");
    }
}

#[test]
fn least_loaded_worker_wins() {
    let mut service = OrchestrationService::new();
    add_worker(&mut service, "W1", 10, 9);
    add_worker(&mut service, "W2", 10, 2);

    let response = service.handle_routing_request(&placement_request("R1", None), 120);
    assert_eq!(response.status, RoutingStatus::Accepted);
    assert_eq!(response.node_id, "W2");
    assert_eq!(response.client_id, "R1");
    assert!(response.rejection_reason.is_none());
    assert!(response.configuration.is_some());

    let w2 = service.get_node("W2").expect("W2 is registered");
    assert_eq!(w2.current_load, 3);
    let w1 = service.get_node("W1").expect("W1 is registered");
    assert_eq!(w1.current_load, 9);
}

#[test]
fn full_cluster_rejects_with_reason() {
    let mut service = OrchestrationService::new();
    add_worker(&mut service, "W1", 4, 4);
    add_worker(&mut service, "W2", 7, 7);

    let response = service.handle_routing_request(&placement_request("R1", None), 120);
    assert_eq!(response.status, RoutingStatus::Rejected);
    assert_eq!(response.node_id, "none");
    assert_eq!(response.rejection_reason.as_deref(), Some("no available workers"));
    assert!(response.configuration.is_none());
}

#[test]
fn absent_preferred_worker_rejects_distinctly() {
    let mut service = OrchestrationService::new();
    add_worker(&mut service, "W1", 10, 0);
    add_worker(&mut service, "W2", 10, 0);

    let response = service.handle_routing_request(&placement_request("R1", Some("W5")), 120);
    assert_eq!(response.status, RoutingStatus::Rejected);
    let reason = response.rejection_reason.expect("a rejection carries its reason");
    assert_ne!(reason, "capacity limit reached");
    assert_eq!(reason, "no available workers");
}

#[test]
fn preferred_worker_is_honored_when_present() {
    let mut service = OrchestrationService::new();
    add_worker(&mut service, "W1", 10, 0);
    add_worker(&mut service, "W2", 10, 5);

    let response = service.handle_routing_request(&placement_request("R1", Some("W2")), 120);
    assert_eq!(response.status, RoutingStatus::Accepted);
    assert_eq!(response.node_id, "W2");
}

#[test]
fn selection_is_deterministic() {
    let build = || {
        let mut service = OrchestrationService::new();
        add_worker(&mut service, "W3", 10, 4);
        add_worker(&mut service, "W1", 10, 4);
        add_worker(&mut service, "W2", 5, 2);
        service
    };
    let mut first = build();
    let mut second = build();
    let a = first.handle_routing_request(&placement_request("R1", None), 120);
    let b = second.handle_routing_request(&placement_request("R1", None), 120);
    assert_eq!(a.node_id, b.node_id);
    // Equal load ratios (4/10, 4/10, 2/5): the smallest node id wins.
    assert_eq!(a.node_id, "W1");
}

#[test]
fn acceptance_scopes_configuration_to_the_pair() {
    let mut service = OrchestrationService::new();
    add_worker(&mut service, "W1", 10, 0);

    let response = service.handle_routing_request(&placement_request("R9", None), 120);
    let config = response.configuration.expect("acceptance carries a configuration");
    assert_eq!(config.subscribe_topics, vec!["data/response/W1/R9".to_string()]);
    assert_eq!(config.publish_topic, "data/request/W1/R9");
    assert_eq!(config.qos, 1);
    assert_eq!(config.max_batch_size, 100);
    assert_eq!(config.processing_timeout_ms, 30000);
}

#[test]
fn release_returns_the_accepted_load() {
    let mut service = OrchestrationService::new();
    add_worker(&mut service, "W1", 10, 0);

    let response = service.handle_routing_request(&placement_request("R1", None), 120);
    assert_eq!(response.status, RoutingStatus::Accepted);
    assert_eq!(service.assigned_worker("R1").as_deref(), Some("W1"));
    assert_eq!(service.get_node("W1").unwrap().current_load, 1);

    let released = service.release_assignment("R1").expect("assignment exists");
    assert_eq!(released, 0);
    assert_eq!(service.assigned_worker("R1"), None);
    assert_eq!(service.get_node("W1").unwrap().current_load, 0);
}

#[test]
fn repeated_requests_redirect_the_same_requester() {
    let mut service = OrchestrationService::new();
    add_worker(&mut service, "W1", 10, 0);
    add_worker(&mut service, "W2", 10, 5);

    let first = service.handle_routing_request(&placement_request("R1", None), 120);
    assert_eq!(first.node_id, "W1");
    let second = service.handle_routing_request(&placement_request("R1", Some("W2")), 130);
    assert_eq!(second.node_id, "W2");
    // One requester keeps one routing-table entry.
    assert_eq!(service.routing_entries().len(), 1);
    assert_eq!(service.assigned_worker("R1").as_deref(), Some("W2"));
}
