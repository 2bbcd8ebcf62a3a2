use otel_modbus_exporter::config::minimal_yaml;

#[test]
fn minimal_yaml_is_the_documented_minimum() {
    let y = minimal_yaml();
    assert!(y.contains("exporters:\n  prometheus:\n    enabled: true\n"));
    assert!(y.contains("type: tcp"));
    assert!(y.contains("endpoint: \"localhost:502\""));
    assert!(y.contains("slave_id: 1"));
    assert!(y.contains("data_type: u16"));
    let parsed: serde_yaml::Value = serde_yaml::from_str(&y).unwrap();
    assert_eq!(parsed["collectors"][0]["name"].as_str(), Some("test"));
    assert_eq!(parsed["collectors"][0]["metrics"][0]["address"].as_u64(), Some(0));
}
