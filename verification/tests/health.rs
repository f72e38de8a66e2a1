use mqtt_routing::common::{NodeInfo, NodeStatus, NodeType, RoutingRequest, RoutingStatus};
use mqtt_routing::service::OrchestrationService;

fn worker(id: &str, capacity: u32, heartbeat: u64) -> NodeInfo {
    NodeInfo {
        node_id: id.to_string(),
        node_type: NodeType::Node,
        last_heartbeat: heartbeat,
        status: NodeStatus::Active,
        capacity,
        current_load: 0,
        version: "0.1.0".to_string(),
        metadata: Vec::new(),
    }
}

fn placement_request(client: &str) -> RoutingRequest {
    RoutingRequest {
        client_id: client.to_string(),
        data_type: vec!["text".to_string()],
        node_info: worker(client, 50, 100),
        preferred_node: None,
        timestamp: 50,
    }
}

#[test]
fn stale_worker_cascades_into_rejection_notice() {
    let mut service = OrchestrationService::new();
    service.upsert_heartbeat(worker("W3", 10, 100));

    let response = service.handle_routing_request(&placement_request("R9"), 105);
    assert_eq!(response.status, RoutingStatus::Accepted);
    assert_eq!(service.assigned_worker("R9").as_deref(), Some("W3"));

    // W3's heartbeat (100) is older than the liveness deadline (15) at
    // sweep time 120: 120 - 100 > 15.
    let notices = service.cleanup_inactive_nodes(120, 15);

    assert!(service.get_node("W3").is_none());
    assert_eq!(service.assigned_worker("R9"), None);
    assert_eq!(notices.len(), 1);
    assert_eq!(notices[0].client_id, "R9");
    assert_eq!(notices[0].status, RoutingStatus::Rejected);
    assert_eq!(
        notices[0].rejection_reason.as_deref(),
        Some("assigned worker became unreachable")
    );
    assert_eq!(notices[0].node_id, "none");
    assert_eq!(notices[0].timestamp, 120);
}

#[test]
fn fresh_workers_survive_the_sweep() {
    let mut service = OrchestrationService::new();
    service.upsert_heartbeat(worker("W1", 10, 110));
    service.upsert_heartbeat(worker("W2", 10, 112));

    let response = service.handle_routing_request(&placement_request("R1"), 113);
    assert_eq!(response.status, RoutingStatus::Accepted);

    // At time 120 with deadline 15, neither heartbeat is stale.
    let notices = service.cleanup_inactive_nodes(120, 15);
    assert!(notices.is_empty());
    assert!(service.get_node("W1").is_some());
    assert!(service.get_node("W2").is_some());
    assert!(service.assigned_worker("R1").is_some());
    assert_eq!(service.registry_snapshot().len(), 2);
}

#[test]
fn boundary_heartbeat_is_not_stale() {
    let mut service = OrchestrationService::new();
    service.upsert_heartbeat(worker("W1", 10, 105));

    // now - heartbeat == deadline exactly: not older than the deadline.
    let notices = service.cleanup_inactive_nodes(120, 15);
    assert!(notices.is_empty());
    assert!(service.get_node("W1").is_some());

    // One tick later the heartbeat is stale.
    let notices = service.cleanup_inactive_nodes(121, 15);
    assert!(notices.is_empty());
    assert!(service.get_node("W1").is_none());
}

#[test]
fn sweep_notifies_every_orphaned_requester() {
    let mut service = OrchestrationService::new();
    service.upsert_heartbeat(worker("W1", 2, 100));
    let first = service.handle_routing_request(&placement_request("R1"), 101);
    let second = service.handle_routing_request(&placement_request("R2"), 102);
    assert_eq!(first.status, RoutingStatus::Accepted);
    assert_eq!(second.status, RoutingStatus::Accepted);

    let notices = service.cleanup_inactive_nodes(200, 15);
    assert_eq!(notices.len(), 2);
    let mut clients: Vec<String> = notices.iter().map(|n| n.client_id.clone()).collect();
    clients.sort();
    assert_eq!(clients, vec!["R1".to_string(), "R2".to_string()]);
}
