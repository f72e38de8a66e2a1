use mqtt_routing::client::{EmitterAction, RequesterState};
use mqtt_routing::common::{
    ClientConfiguration, NodeInfo, NodeStatus, NodeType, RoutingResponse, RoutingStatus,
};
use mqtt_routing::topics::{parse_topic, ParsedTopic};

fn requester(id: &str) -> RequesterState {
    RequesterState {
        node_info: NodeInfo {
            node_id: id.to_string(),
            node_type: NodeType::Client,
            last_heartbeat: 100,
            status: NodeStatus::Active,
            capacity: 10,
            current_load: 0,
            version: "0.1.0".to_string(),
            metadata: Vec::new(),
        },
        current_load: 0,
        coordinator: None,
        configuration: None,
    }
}

fn acceptance(worker: &str, client: &str) -> RoutingResponse {
    RoutingResponse {
        node_id: worker.to_string(),
        client_id: client.to_string(),
        status: RoutingStatus::Accepted,
        rejection_reason: None,
        configuration: Some(ClientConfiguration {
            subscribe_topics: vec![format!("data/response/{}/{}", worker, client)],
            publish_topic: format!("data/request/{}/{}", worker, client),
            qos: 1,
            max_batch_size: 100,
            processing_timeout_ms: 30000,
        }),
        timestamp: 120,
    }
}

fn rejection(client: &str, reason: &str) -> RoutingResponse {
    RoutingResponse {
        node_id: "none".to_string(),
        client_id: client.to_string(),
        status: RoutingStatus::Rejected,
        rejection_reason: Some(reason.to_string()),
        configuration: None,
        timestamp: 120,
    }
}

#[test]
fn unassigned_requester_asks_for_placement() {
    let state = requester("R9");
    match state.heartbeat_tick(vec!["text".to_string()], 130) {
        EmitterAction::RequestPlacement { topic, request } => {
            assert_eq!(topic, "routing/request");
            assert_eq!(request.client_id, "R9");
            assert_eq!(request.data_type, vec!["text".to_string()]);
            assert!(request.preferred_node.is_none());
            assert_eq!(request.timestamp, 130);
            assert_eq!(request.node_info.last_heartbeat, 130);
        },
        EmitterAction::PublishHeartbeat { .. } => panic!("no coordinator is assigned yet"),
    }
}

#[test]
fn assigned_requester_publishes_its_liveness() {
    let mut state = requester("R9");
    state.apply_routing_response(acceptance("W1", "R9"));
    assert_eq!(state.coordinator.as_deref(), Some("W1"));
    assert!(state.configuration.is_some());

    match state.heartbeat_tick(vec!["text".to_string()], 130) {
        EmitterAction::PublishHeartbeat { topic, record } => {
            assert_eq!(topic, "heartbeat/requester/R9");
            assert_eq!(record.node_id, "R9");
            assert_eq!(record.last_heartbeat, 130);
        },
        EmitterAction::RequestPlacement { .. } => panic!("a coordinator is assigned"),
    }
}

#[test]
fn rejection_clears_the_assignment() {
    let mut state = requester("R9");
    state.apply_routing_response(acceptance("W1", "R9"));
    state.apply_routing_response(rejection("R9", "assigned worker became unreachable"));
    assert!(state.coordinator.is_none());
    assert!(state.configuration.is_none());
}

#[test]
fn pending_changes_nothing() {
    let mut state = requester("R9");
    state.apply_routing_response(acceptance("W1", "R9"));
    let pending = RoutingResponse {
        node_id: "W1".to_string(),
        client_id: "R9".to_string(),
        status: RoutingStatus::Pending,
        rejection_reason: None,
        configuration: None,
        timestamp: 125,
    };
    state.apply_routing_response(pending);
    assert_eq!(state.coordinator.as_deref(), Some("W1"));
    assert!(state.configuration.is_some());
}

#[test]
fn data_requests_need_a_coordinator() {
    let state = requester("R9");
    assert!(state.build_data_request(vec!["text".to_string()]).is_none());
}

#[test]
fn data_requests_travel_on_the_pair_topic_with_a_fresh_id() {
    let mut state = requester("R9");
    state.apply_routing_response(acceptance("W1", "R9"));

    let (topic, request) = state
        .build_data_request(vec!["text".to_string(), "sensor".to_string()])
        .expect("a coordinator is assigned");
    assert_eq!(topic, "data/request/W1/R9");
    assert_eq!(request.client_id, "R9");
    assert_eq!(request.data_types, vec!["text".to_string(), "sensor".to_string()]);
    // The request id comes from the fresh-identifier source: 36
    // characters, never an echo of the inputs.
    assert_eq!(request.request_id.len(), 36);
    assert_ne!(request.request_id, request.client_id);

    let (_, second) = state.build_data_request(vec!["text".to_string()]).unwrap();
    assert_ne!(request.request_id, second.request_id);

    // The pair topic parses back into both ids.
    match parse_topic(&topic) {
        ParsedTopic::DataRequest { worker_id, requester_id } => {
            assert_eq!(worker_id, "W1");
            assert_eq!(requester_id, "R9");
        },
        other => panic!("wrong shape: {:?}", other),
    }
}

#[test]
fn requester_shutdown_goes_offline() {
    let state = requester("R9");
    let (topic, record) = state.shutdown_message(150);
    assert_eq!(topic, "heartbeat/requester/R9");
    assert_eq!(record.status, NodeStatus::Offline);
}

#[test]
fn fresh_requesters_are_unassigned() {
    let state = RequesterState::new(10, 100);
    assert!(state.node_info.node_id.starts_with("client-"));
    assert!(state.coordinator.is_none());
    assert!(state.configuration.is_none());
}
