use otel_modbus_exporter::logging::{
    logging_plan, parse_level, LogLevel, LogOutput, LogWriter, LoggingConfig, LoggingError,
};
use std::str::FromStr;

#[test]
fn test_log_output_from_str() {
    assert_eq!(LogOutput::from_str("stdout").unwrap(), LogOutput::Stdout);
    assert_eq!(LogOutput::from_str("stderr").unwrap(), LogOutput::Stderr);
    assert_eq!(LogOutput::from_str("json").unwrap(), LogOutput::Json);
    assert_eq!(LogOutput::from_str("STDOUT").unwrap(), LogOutput::Stdout);
    assert_eq!(LogOutput::from_str("Stderr").unwrap(), LogOutput::Stderr);
    assert!(LogOutput::from_str("invalid").is_err());
}

#[test]
fn test_parse_level_via_std() {
    assert_eq!(
        "trace".parse::<tracing::Level>().unwrap(),
        tracing::Level::TRACE
    );
    assert_eq!(
        "debug".parse::<tracing::Level>().unwrap(),
        tracing::Level::DEBUG
    );
    assert_eq!(
        "info".parse::<tracing::Level>().unwrap(),
        tracing::Level::INFO
    );
    assert_eq!(
        "warn".parse::<tracing::Level>().unwrap(),
        tracing::Level::WARN
    );
    assert_eq!(
        "error".parse::<tracing::Level>().unwrap(),
        tracing::Level::ERROR
    );
    assert_eq!(
        "INFO".parse::<tracing::Level>().unwrap(),
        tracing::Level::INFO
    );
}

#[test]
fn test_parse_level_invalid() {
    assert!("verbose".parse::<tracing::Level>().is_err());
    assert!("".parse::<tracing::Level>().is_err());
}

#[test]
fn test_default_logging_config() {
    let config = LoggingConfig::default();
    assert_eq!(config.level, "info");
    assert_eq!(config.output, LogOutput::Json);
}

#[test]
fn test_init_logging_invalid_level() {
    let config = LoggingConfig {
        level: "invalid".to_string(),
        output: LogOutput::Stdout,
    };
    assert!(logging_plan(&config).is_err());
}

#[test]
fn log_output_error_holds_lowercased_input() {
    let err = LogOutput::from_str("FiLe").unwrap_err();
    assert_eq!(err.value, "file");
}

#[test]
fn log_output_from_lowercase_is_exact() {
    assert_eq!(LogOutput::from_lowercase("json"), Some(LogOutput::Json));
    assert_eq!(LogOutput::from_lowercase("JSON"), None);
    assert_eq!(LogOutput::from_lowercase(""), None);
    assert_eq!(LogOutput::from_lowercase("stdout "), None);
}

#[test]
fn parse_level_names_any_ascii_case() {
    assert_eq!(parse_level("trace").unwrap(), LogLevel::Trace);
    assert_eq!(parse_level("Debug").unwrap(), LogLevel::Debug);
    assert_eq!(parse_level("INFO").unwrap(), LogLevel::Info);
    assert_eq!(parse_level("wArN").unwrap(), LogLevel::Warn);
    assert_eq!(parse_level("ERROR").unwrap(), LogLevel::Error);
}

#[test]
fn parse_level_numbers() {
    assert_eq!(parse_level("1").unwrap(), LogLevel::Error);
    assert_eq!(parse_level("2").unwrap(), LogLevel::Warn);
    assert_eq!(parse_level("3").unwrap(), LogLevel::Info);
    assert_eq!(parse_level("4").unwrap(), LogLevel::Debug);
    assert_eq!(parse_level("5").unwrap(), LogLevel::Trace);
    assert_eq!(parse_level("+003").unwrap(), LogLevel::Info);
    assert!(parse_level("0").is_err());
    assert!(parse_level("6").is_err());
    assert!(parse_level("-1").is_err());
    assert!(parse_level("+").is_err());
}

#[test]
fn parse_level_rejects_other_text() {
    match parse_level("verbose") {
        Err(LoggingError::InvalidLevel(text)) => assert_eq!(text, "verbose"),
        Ok(_) => panic!("verbose is not a level"),
    }
    assert!(parse_level("").is_err());
    assert!(parse_level("info ").is_err());
}

#[test]
fn logging_plan_per_output() {
    let stdout = logging_plan(&LoggingConfig {
        level: "info".to_string(),
        output: LogOutput::Stdout,
    })
    .unwrap();
    assert_eq!(stdout.writer, LogWriter::Stdout);
    assert!(!stdout.json);
    assert_eq!(stdout.level, LogLevel::Info);
    assert_eq!(stdout.directive, "info");

    let stderr = logging_plan(&LoggingConfig {
        level: "debug".to_string(),
        output: LogOutput::Stderr,
    })
    .unwrap();
    assert_eq!(stderr.writer, LogWriter::Stderr);
    assert!(!stderr.json);
    assert_eq!(stderr.level, LogLevel::Debug);

    let json = logging_plan(&LoggingConfig {
        level: "WARN".to_string(),
        output: LogOutput::Json,
    })
    .unwrap();
    assert_eq!(json.writer, LogWriter::Stderr);
    assert!(json.json);
    assert_eq!(json.level, LogLevel::Warn);
    assert_eq!(json.directive, "WARN");
}

#[test]
fn error_messages() {
    let err = LogOutput::from_str("File").unwrap_err();
    assert_eq!(err.message(), "invalid log output: file");
    let cfg = LoggingConfig {
        level: "banana".to_string(),
        output: LogOutput::Json,
    };
    match logging_plan(&cfg) {
        Err(e) => assert_eq!(e.message(), "invalid log level: banana"),
        Ok(_) => panic!("banana is not a level"),
    }
}

#[test]
fn log_output_ascii_case_insensitive() {
    assert_eq!(LogOutput::parse("JSON").unwrap(), LogOutput::Json);
    assert_eq!(LogOutput::parse("sTdErR").unwrap(), LogOutput::Stderr);
    assert!(LogOutput::parse("STD OUT").is_err());
}
