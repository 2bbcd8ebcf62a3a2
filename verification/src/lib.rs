//! Verified core of a Modbus-to-metrics exporter: logging configuration,
//! label merging and the per-collector metric store, the decisions taken
//! around Modbus reads and exporter selection.

pub mod logging;
pub mod labels;
pub mod metrics;
pub mod modbus;
pub mod exporter;
pub mod export;
pub mod commands;
pub mod config;
