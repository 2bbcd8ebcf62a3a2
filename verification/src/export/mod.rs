pub mod otlp;
