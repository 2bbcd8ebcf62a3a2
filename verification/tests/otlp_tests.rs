use otel_modbus_exporter::export::otlp::{nanos_from_epoch_offset, system_time_to_nanos};
use otel_modbus_exporter::labels::Labels;
use otel_modbus_exporter::metrics::{MetricStore, MetricType, MetricValue};
use std::time::SystemTime;

fn sample_gauge() -> MetricValue {
    let mut labels = Labels::new();
    labels.insert("device".to_string(), "plc1".to_string());
    MetricValue {
        value_bits: 23.5f64.to_bits(),
        metric_type: MetricType::Gauge,
        labels,
        description: "Temperature reading".to_string(),
        unit: "celsius".to_string(),
        updated_at: SystemTime::UNIX_EPOCH + std::time::Duration::from_secs(1_700_000_000),
    }
}

#[test]
fn system_time_to_nanos_epoch() {
    let nanos = system_time_to_nanos(SystemTime::UNIX_EPOCH);
    assert_eq!(nanos, 0);
}

#[test]
fn system_time_to_nanos_known_value() {
    let t = SystemTime::UNIX_EPOCH + std::time::Duration::from_secs(1_700_000_000);
    let nanos = system_time_to_nanos(t);
    assert_eq!(nanos, 1_700_000_000_000_000_000);
}

#[test]
fn system_time_before_epoch_is_zero() {
    let t = SystemTime::UNIX_EPOCH - std::time::Duration::from_secs(5);
    assert_eq!(system_time_to_nanos(t), 0);
}

#[test]
fn system_time_with_subsecond_part() {
    let t = SystemTime::UNIX_EPOCH + std::time::Duration::new(2, 500);
    assert_eq!(system_time_to_nanos(t), 2_000_000_500);
}

#[test]
fn nanos_from_offsets() {
    assert_eq!(nanos_from_epoch_offset(None), 0);
    assert_eq!(nanos_from_epoch_offset(Some((3, 7))), 3_000_000_007);
    // 18_446_744_074 s is just past 2^64 ns: the count keeps its low 64 bits.
    assert_eq!(
        nanos_from_epoch_offset(Some((18_446_744_074, 0))),
        ((18_446_744_074u128 * 1_000_000_000) % (1u128 << 64)) as u64
    );
}

#[test]
fn otlp_tests_metric_store_integration() {
    let mut store = MetricStore::new();
    let mut global = Labels::new();
    global.insert("env".to_string(), "test".to_string());
    let collector_labels = Labels::new();
    store.publish("c1", vec![sample_gauge()], &global, &collector_labels);
    let flat = store.all_metrics();
    assert_eq!(flat.len(), 1);
    // Should contain merged labels
    assert!(flat[0].labels.contains_key("env"));
    assert!(flat[0].labels.contains_key("device"));
    assert!(flat[0].labels.contains_key("collector"));
}

#[test]
fn mod_tests_metric_store_integration() {
    let mut store = MetricStore::new();
    let mut global = Labels::new();
    global.insert("env".to_string(), "test".to_string());
    let collector_labels = Labels::new();
    store.publish("c1", vec![sample_gauge()], &global, &collector_labels);
    let flat = store.all_metrics();
    assert_eq!(flat.len(), 1);
    assert!(flat[0].labels.contains_key("env"));
    assert!(flat[0].labels.contains_key("device"));
    assert!(flat[0].labels.contains_key("collector"));
}

#[test]
fn stored_time_reaches_nanos() {
    let mut store = MetricStore::new();
    store.publish("c1", vec![sample_gauge()], &Labels::new(), &Labels::new());
    let flat = store.all_metrics();
    assert_eq!(system_time_to_nanos(flat[0].updated_at), 1_700_000_000_000_000_000);
}
