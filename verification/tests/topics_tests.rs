use mqtt_routing::topics::{
    build_data_request_topic, build_data_response_topic, build_placement_request_topic,
    build_placement_response_topic, build_requester_heartbeat_topic, build_worker_heartbeat_topic,
    parse_topic, ParsedTopic,
};

#[test]
fn builders_fill_the_documented_templates() {
    assert_eq!(build_worker_heartbeat_topic("W1"), "heartbeat/worker/W1");
    assert_eq!(build_requester_heartbeat_topic("R9"), "heartbeat/requester/R9");
    assert_eq!(build_placement_request_topic(), "routing/request");
    assert_eq!(build_placement_response_topic("R9"), "routing/response/R9");
    assert_eq!(build_data_request_topic("W1", "R9"), "data/request/W1/R9");
    assert_eq!(build_data_response_topic("W1", "R9"), "data/response/W1/R9");
}

#[test]
fn parsing_recovers_what_the_builders_wrote() {
    match parse_topic(&build_worker_heartbeat_topic("W1")) {
        ParsedTopic::WorkerHeartbeat { node_id } => assert_eq!(node_id, "W1"),
        other => panic!("wrong shape: {:?}", other),
    }
    match parse_topic(&build_requester_heartbeat_topic("R9")) {
        ParsedTopic::RequesterHeartbeat { node_id } => assert_eq!(node_id, "R9"),
        other => panic!("wrong shape: {:?}", other),
    }
    assert!(matches!(
        parse_topic(&build_placement_request_topic()),
        ParsedTopic::PlacementRequest
    ));
    match parse_topic(&build_placement_response_topic("R9")) {
        ParsedTopic::PlacementResponse { requester_id } => assert_eq!(requester_id, "R9"),
        other => panic!("wrong shape: {:?}", other),
    }
    match parse_topic(&build_data_request_topic("W1", "R9")) {
        ParsedTopic::DataRequest { worker_id, requester_id } => {
            assert_eq!(worker_id, "W1");
            assert_eq!(requester_id, "R9");
        },
        other => panic!("wrong shape: {:?}", other),
    }
    match parse_topic(&build_data_response_topic("W1", "R9")) {
        ParsedTopic::DataResponse { worker_id, requester_id } => {
            assert_eq!(worker_id, "W1");
            assert_eq!(requester_id, "R9");
        },
        other => panic!("wrong shape: {:?}", other),
    }
}

#[test]
fn malformed_topics_fall_through() {
    assert!(matches!(parse_topic(""), ParsedTopic::Other));
    assert!(matches!(parse_topic("weather/today"), ParsedTopic::Other));
    // An empty id is not a well-formed parameter.
    assert!(matches!(parse_topic("heartbeat/worker/"), ParsedTopic::Other));
    // Ids never contain the separator.
    assert!(matches!(parse_topic("heartbeat/worker/a/b"), ParsedTopic::Other));
    // A pair topic needs both halves.
    assert!(matches!(parse_topic("data/request/W1"), ParsedTopic::Other));
    assert!(matches!(parse_topic("data/request//R9"), ParsedTopic::Other));
    // The placement-request topic is exact, not a prefix.
    assert!(matches!(parse_topic("routing/request/extra"), ParsedTopic::Other));
}

#[test]
fn prefixes_do_not_bleed_into_each_other() {
    assert!(matches!(
        parse_topic("heartbeat/requester/R9"),
        ParsedTopic::RequesterHeartbeat { .. }
    ));
    assert!(matches!(
        parse_topic("data/response/W1/R9"),
        ParsedTopic::DataResponse { .. }
    ));
    assert!(matches!(parse_topic("routing/response/R9"), ParsedTopic::PlacementResponse { .. }));
}
