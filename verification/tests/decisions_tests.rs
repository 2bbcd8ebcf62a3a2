use otel_modbus_exporter::commands::no_match_warning;
use otel_modbus_exporter::exporter::{create_exporters, ExporterError, ExporterKind, ExportersConfig, OtlpSection};
use otel_modbus_exporter::modbus::{read_result, ModbusError, ReadReply};

fn otlp(enabled: bool, endpoint: Option<&str>) -> Option<OtlpSection> {
    Some(OtlpSection {
        enabled,
        endpoint: endpoint.map(|e| e.to_string()),
    })
}

#[test]
fn exporters_in_fixed_order() {
    let all = ExportersConfig {
        otlp: otlp(true, Some("http://localhost:4318")),
        prometheus: Some(true),
        mqtt: Some(true),
    };
    assert_eq!(
        create_exporters(&all).unwrap(),
        vec![ExporterKind::Otlp, ExporterKind::Prometheus, ExporterKind::Mqtt]
    );
}

#[test]
fn exporters_skip_absent_and_disabled() {
    let cfg = ExportersConfig {
        otlp: None,
        prometheus: Some(false),
        mqtt: Some(true),
    };
    assert_eq!(create_exporters(&cfg).unwrap(), vec![ExporterKind::Mqtt]);
    let none = ExportersConfig {
        otlp: otlp(false, None),
        prometheus: None,
        mqtt: None,
    };
    assert!(create_exporters(&none).unwrap().is_empty());
    let prom = ExportersConfig {
        otlp: None,
        prometheus: Some(true),
        mqtt: None,
    };
    assert_eq!(create_exporters(&prom).unwrap(), vec![ExporterKind::Prometheus]);
}

#[test]
fn otlp_exporter_new_missing_endpoint() {
    let cfg = ExportersConfig {
        otlp: otlp(true, None),
        prometheus: Some(true),
        mqtt: None,
    };
    assert_eq!(create_exporters(&cfg), Err(ExporterError::MissingOtlpEndpoint));
}

#[test]
fn otlp_exporter_new_with_endpoint() {
    let cfg = ExportersConfig {
        otlp: otlp(true, Some("http://localhost:4318")),
        prometheus: None,
        mqtt: None,
    };
    assert_eq!(create_exporters(&cfg).unwrap(), vec![ExporterKind::Otlp]);
}

#[test]
fn read_without_connection_fails() {
    let r: Result<Vec<u16>, ModbusError> = read_result(ReadReply::NotConnected);
    assert!(matches!(r, Err(ModbusError::NotConnected)));
}

#[test]
fn read_outcomes() {
    let ok = read_result(ReadReply::Data(vec![100u16, 200]));
    assert_eq!(ok.unwrap(), vec![100, 200]);
    let coils = read_result(ReadReply::Data(vec![true, false, true]));
    assert_eq!(coils.unwrap(), vec![true, false, true]);
    let exc: Result<Vec<u16>, ModbusError> = read_result(ReadReply::Exception(2));
    assert!(matches!(exc, Err(ModbusError::Exception(2))));
    let lost: Result<Vec<bool>, ModbusError> =
        read_result(ReadReply::TransportFailed("broken pipe".to_string()));
    match lost {
        Err(ModbusError::Transport(msg)) => assert_eq!(msg, "broken pipe"),
        _ => panic!("expected a transport error"),
    }
}

#[test]
fn show_config_warning() {
    assert!(no_match_warning(true, Some("plc"), None));
    assert!(no_match_warning(true, None, Some("voltage")));
    assert!(!no_match_warning(true, None, None));
    assert!(!no_match_warning(false, Some("plc"), Some("voltage")));
}

#[test]
fn modbus_error_messages() {
    assert_eq!(ModbusError::NotConnected.message(), "not connected");
    assert_eq!(
        ModbusError::Transport("timed out".to_string()).message(),
        "timed out"
    );
    assert_eq!(ModbusError::Exception(2).message(), "empty response");
}
