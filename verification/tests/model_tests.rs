use mqtt_routing::common::{
    ClientConfiguration, DataRequest, DataResponse, NodeInfo, NodeStatus, NodeType,
    ProcessingStatus, RoutingRequest,
};

#[test]
fn role_labels_match_their_variants() {
    assert_eq!(NodeType::Node.label(), "Node");
    assert_eq!(NodeType::Client.label(), "Client");
    assert_eq!(NodeType::Monitor.label(), "Monitor");
    assert_eq!(NodeType::Node.lower_label(), "node");
    assert_eq!(NodeType::Client.lower_label(), "client");
    assert_eq!(NodeType::Monitor.lower_label(), "monitor");
}

#[test]
fn processing_starts_out_successful() {
    assert_eq!(ProcessingStatus::default(), ProcessingStatus::Processed);
}

#[test]
fn clones_carry_every_field() {
    let info = NodeInfo {
        node_id: "W1".to_string(),
        node_type: NodeType::Node,
        last_heartbeat: 42,
        status: NodeStatus::Maintenance,
        capacity: 7,
        current_load: 3,
        version: "0.1.0".to_string(),
        metadata: vec![("zone".to_string(), "a".to_string())],
    };
    let copy = info.clone();
    assert_eq!(copy.node_id, info.node_id);
    assert_eq!(copy.node_type, info.node_type);
    assert_eq!(copy.last_heartbeat, info.last_heartbeat);
    assert_eq!(copy.status, info.status);
    assert_eq!(copy.capacity, info.capacity);
    assert_eq!(copy.current_load, info.current_load);
    assert_eq!(copy.version, info.version);
    assert_eq!(copy.metadata, info.metadata);

    let request = RoutingRequest {
        client_id: "R9".to_string(),
        data_type: vec!["text".to_string()],
        node_info: info,
        preferred_node: Some("W1".to_string()),
        timestamp: 50,
    };
    let request_copy = request.clone();
    assert_eq!(request_copy.client_id, request.client_id);
    assert_eq!(request_copy.data_type, request.data_type);
    assert_eq!(request_copy.preferred_node, request.preferred_node);
    assert_eq!(request_copy.timestamp, request.timestamp);

    let config = ClientConfiguration {
        subscribe_topics: vec!["data/response/W1/R9".to_string()],
        publish_topic: "data/request/W1/R9".to_string(),
        qos: 1,
        max_batch_size: 100,
        processing_timeout_ms: 5000,
    };
    let config_copy = config.clone();
    assert_eq!(config_copy.subscribe_topics, config.subscribe_topics);
    assert_eq!(config_copy.publish_topic, config.publish_topic);
    assert_eq!(config_copy.qos, config.qos);
}

#[test]
fn data_envelopes_hold_their_fields() {
    let request = DataRequest {
        request_id: "req-1".to_string(),
        client_id: "R9".to_string(),
        data_types: vec!["text".to_string(), "sensor".to_string()],
    };
    assert_eq!(request.data_types.len(), 2);

    let response = DataResponse {
        packet_id: "pkt-1".to_string(),
        received_at: "120".to_string(),
        status: ProcessingStatus::Processed,
        processing_time_ms: 35,
        errors: Vec::new(),
        processor_info: NodeInfo {
            node_id: "W1".to_string(),
            node_type: NodeType::Node,
            last_heartbeat: 120,
            status: NodeStatus::Active,
            capacity: 10,
            current_load: 1,
            version: "0.1.0".to_string(),
            metadata: Vec::new(),
        },
    };
    assert_eq!(response.status, ProcessingStatus::Processed);
    assert!(response.errors.is_empty());
    assert_eq!(response.processor_info.node_id, "W1");
}
