use otel_modbus_exporter::labels::{key_less, Labels};
use otel_modbus_exporter::metrics::{MetricStore, MetricType, MetricValue};
use std::time::SystemTime;

fn make_metric(name: &str, value: f64, metric_type: MetricType) -> MetricValue {
    MetricValue {
        value_bits: value.to_bits(),
        metric_type,
        labels: Labels::new(),
        description: name.to_string(),
        unit: String::new(),
        updated_at: SystemTime::now(),
    }
}

fn value_of(m: &MetricValue) -> f64 {
    f64::from_bits(m.value_bits)
}

#[test]
fn test_publish_and_read() {
    let mut store = MetricStore::new();
    let global = Labels::new();
    let coll_labels = Labels::new();

    store.publish(
        "collector1",
        vec![make_metric("temp", 22.5, MetricType::Gauge)],
        &global,
        &coll_labels,
    );

    let all = store.all_metrics();
    assert_eq!(all.len(), 1);
    assert!((value_of(&all[0]) - 22.5).abs() < f64::EPSILON);
    assert_eq!(all[0].labels.get("collector").unwrap(), "collector1");
}

#[test]
fn test_cache_overwrite() {
    let mut store = MetricStore::new();
    let g = Labels::new();
    let c = Labels::new();

    store.publish("c1", vec![make_metric("a", 1.0, MetricType::Gauge)], &g, &c);
    store.publish("c1", vec![make_metric("b", 2.0, MetricType::Gauge)], &g, &c);

    let all = store.all_metrics();
    assert_eq!(all.len(), 1);
    assert!((value_of(&all[0]) - 2.0).abs() < f64::EPSILON);
}

#[test]
fn test_label_merging_precedence() {
    let mut store = MetricStore::new();

    let mut global = Labels::new();
    global.insert("env".to_string(), "prod".to_string());
    global.insert("region".to_string(), "us-east".to_string());

    let mut coll_labels = Labels::new();
    coll_labels.insert("region".to_string(), "eu-west".to_string());

    let mut metric = make_metric("voltage", 230.0, MetricType::Gauge);
    metric
        .labels
        .insert("region".to_string(), "ap-south".to_string());
    metric.unit = "V".to_string();

    store.publish("plc1", vec![metric], &global, &coll_labels);

    let all = store.all_metrics();
    assert_eq!(all.len(), 1);
    let labels = &all[0].labels;
    assert_eq!(labels.get("region").unwrap(), "ap-south");
    assert_eq!(labels.get("env").unwrap(), "prod");
    assert_eq!(labels.get("collector").unwrap(), "plc1");
    assert_eq!(labels.get("unit").unwrap(), "V");
}

#[test]
fn test_gauge_vs_counter() {
    let mut store = MetricStore::new();
    let g = Labels::new();
    let c = Labels::new();

    store.publish(
        "c1",
        vec![
            make_metric("temperature", 25.0, MetricType::Gauge),
            make_metric("total_energy", 1000.0, MetricType::Counter),
        ],
        &g,
        &c,
    );

    let all = store.all_metrics();
    assert_eq!(all.len(), 2);
    assert_eq!(all[0].metric_type, MetricType::Gauge);
    assert_eq!(all[1].metric_type, MetricType::Counter);
}

#[test]
fn test_multiple_collectors() {
    let mut store = MetricStore::new();
    let g = Labels::new();
    let c = Labels::new();

    store.publish("c1", vec![make_metric("a", 1.0, MetricType::Gauge)], &g, &c);
    store.publish("c2", vec![make_metric("b", 2.0, MetricType::Gauge)], &g, &c);

    assert_eq!(store.collector_count(), 2);
    assert_eq!(store.all_metrics().len(), 2);
    assert_eq!(store.metrics_for("c1").len(), 1);
    assert_eq!(store.metrics_for("c2").len(), 1);
    assert!(store.metrics_for("c3").is_empty());
}

#[test]
fn test_unit_label_omitted_when_empty() {
    let mut store = MetricStore::new();
    let g = Labels::new();
    let c = Labels::new();

    store.publish(
        "c1",
        vec![make_metric("temp", 1.0, MetricType::Gauge)],
        &g,
        &c,
    );
    let all = store.all_metrics();
    let labels = &all[0].labels;
    assert!(!labels.contains_key("unit"));
}

#[test]
fn collector_label_overrides_metric_label() {
    let mut store = MetricStore::new();
    let mut g = Labels::new();
    g.insert("collector".to_string(), "global".to_string());
    let c = Labels::new();
    let mut m = make_metric("x", 3.0, MetricType::Gauge);
    m.labels.insert("collector".to_string(), "own".to_string());
    m.labels.insert("unit".to_string(), "own-unit".to_string());
    m.unit = "kWh".to_string();
    store.publish("meter", vec![m], &g, &c);
    let got = store.metrics_for("meter");
    assert_eq!(got.len(), 1);
    assert_eq!(got[0].labels.get("collector").unwrap(), "meter");
    assert_eq!(got[0].labels.get("unit").unwrap(), "kWh");
    assert_eq!(got[0].labels.len(), 2);
}

#[test]
fn metric_unit_label_kept_when_unit_empty() {
    let mut store = MetricStore::new();
    let g = Labels::new();
    let c = Labels::new();
    let mut m = make_metric("x", 3.0, MetricType::Gauge);
    m.labels.insert("unit".to_string(), "own-unit".to_string());
    store.publish("meter", vec![m], &g, &c);
    let got = store.metrics_for("meter");
    assert_eq!(got[0].labels.get("unit").unwrap(), "own-unit");
}

#[test]
fn publish_keeps_order_and_values() {
    let mut store = MetricStore::new();
    let g = Labels::new();
    let c = Labels::new();
    let mut m2 = make_metric("second", -4.25, MetricType::Counter);
    m2.unit = "A".to_string();
    let ms = vec![make_metric("first", 1.5, MetricType::Gauge), m2];
    store.publish("dev", ms, &g, &c);
    let got = store.metrics_for("dev");
    assert_eq!(got.len(), 2);
    assert_eq!(got[0].description, "first");
    assert_eq!(value_of(&got[0]), 1.5);
    assert_eq!(got[1].description, "second");
    assert_eq!(value_of(&got[1]), -4.25);
    assert_eq!(got[1].unit, "A");
    assert_eq!(got[1].metric_type, MetricType::Counter);
}

#[test]
fn publish_of_one_collector_leaves_others() {
    let mut store = MetricStore::new();
    let g = Labels::new();
    let c = Labels::new();
    store.publish("a", vec![make_metric("x", 1.0, MetricType::Gauge)], &g, &c);
    store.publish(
        "b",
        vec![
            make_metric("y", 2.0, MetricType::Gauge),
            make_metric("z", 3.0, MetricType::Gauge),
        ],
        &g,
        &c,
    );
    store.publish("b", vec![], &g, &c);
    assert_eq!(store.collector_count(), 2);
    assert_eq!(store.metrics_for("a").len(), 1);
    assert!(store.metrics_for("b").is_empty());
    assert_eq!(store.all_metrics().len(), 1);
}

#[test]
fn empty_store() {
    let store = MetricStore::default();
    assert_eq!(store.collector_count(), 0);
    assert!(store.all_metrics().is_empty());
    assert!(store.metrics_for("any").is_empty());
}

#[test]
fn labels_insert_replaces() {
    let mut l = Labels::new();
    assert!(l.is_empty());
    l.insert("k".to_string(), "v1".to_string());
    l.insert("k".to_string(), "v2".to_string());
    l.insert("j".to_string(), "w".to_string());
    assert_eq!(l.len(), 2);
    assert_eq!(l.get("k").unwrap(), "v2");
    assert_eq!(l.get("j").unwrap(), "w");
    assert!(l.get("x").is_none());
    let copy = l.clone();
    assert_eq!(copy.pairs().len(), 2);
    let mut other = Labels::new();
    other.insert("j".to_string(), "override".to_string());
    l.extend_from(&other);
    assert_eq!(l.get("j").unwrap(), "override");
    assert_eq!(copy.get("j").unwrap(), "w");
}

#[test]
fn labels_pairs_in_key_order() {
    let mut l = Labels::new();
    l.insert("zone".to_string(), "1".to_string());
    l.insert("collector".to_string(), "c".to_string());
    l.insert("env".to_string(), "prod".to_string());
    l.insert("Unit".to_string(), "V".to_string());
    l.insert("env".to_string(), "dev".to_string());
    let keys: Vec<&str> = l.pairs().iter().map(|(k, _)| k.as_str()).collect();
    assert_eq!(keys, vec!["Unit", "collector", "env", "zone"]);
    assert_eq!(l.get("env").unwrap(), "dev");
}

#[test]
fn key_order_matches_string_order() {
    let words = ["", "a", "ab", "b", "B", "\u{e9}", "z", "\u{e4}", "aa"];
    for a in words {
        for b in words {
            assert_eq!(key_less(&a.to_string(), &b.to_string()), a < b, "{a} < {b}");
        }
    }
}

#[test]
fn merged_labels_come_out_sorted() {
    let mut store = MetricStore::new();
    let mut g = Labels::new();
    g.insert("zone".to_string(), "north".to_string());
    let c = Labels::new();
    let mut m = make_metric("x", 1.0, MetricType::Gauge);
    m.unit = "V".to_string();
    m.labels.insert("alpha".to_string(), "1".to_string());
    store.publish("plc", vec![m], &g, &c);
    let got = store.metrics_for("plc");
    let keys: Vec<&str> = got[0].labels.pairs().iter().map(|(k, _)| k.as_str()).collect();
    assert_eq!(keys, vec!["alpha", "collector", "unit", "zone"]);
}
