use mqtt_routing::config::{parse_u16, parse_u32, parse_u64, NodeConfig};

#[test]
fn test_node_config() {
    let config = NodeConfig {
        mqtt_host: "localhost".to_string(),
        mqtt_port: 1883,
        node_capacity: 100,
    };
    assert_eq!(config.mqtt_host, "localhost");
    assert_eq!(config.mqtt_port, 1883);
    assert_eq!(config.node_capacity, 100);
}

#[test]
fn defaults_apply_when_nothing_is_set() {
    let config = NodeConfig::from_overrides(None, None, None);
    assert_eq!(config.mqtt_host, "localhost");
    assert_eq!(config.mqtt_port, 1883);
    assert_eq!(config.node_capacity, 100);
}

#[test]
fn overrides_replace_the_defaults() {
    let config = NodeConfig::from_overrides(
        Some("broker.example".to_string()),
        Some("8883".to_string()),
        Some("250".to_string()),
    );
    assert_eq!(config.mqtt_host, "broker.example");
    assert_eq!(config.mqtt_port, 8883);
    assert_eq!(config.node_capacity, 250);
}

#[test]
fn malformed_overrides_fall_back_to_defaults() {
    let config = NodeConfig::from_overrides(
        None,
        Some("not-a-port".to_string()),
        Some("80000000000".to_string()),
    );
    assert_eq!(config.mqtt_port, 1883);
    assert_eq!(config.node_capacity, 100);
}

#[test]
fn decimal_parsing_is_exact() {
    assert_eq!(parse_u64("0"), Some(0));
    assert_eq!(parse_u64("1883"), Some(1883));
    assert_eq!(parse_u64("007"), Some(7));
    assert_eq!(parse_u64("18446744073709551615"), Some(u64::MAX));
    assert_eq!(parse_u64("18446744073709551616"), None);
    assert_eq!(parse_u64(""), None);
    assert_eq!(parse_u64("12a"), None);
    assert_eq!(parse_u64("-5"), None);
    assert_eq!(parse_u64(" 5"), None);
}

#[test]
fn narrow_parses_respect_their_bounds() {
    assert_eq!(parse_u16("65535"), Some(u16::MAX));
    assert_eq!(parse_u16("65536"), None);
    assert_eq!(parse_u32("4294967295"), Some(u32::MAX));
    assert_eq!(parse_u32("4294967296"), None);
}
