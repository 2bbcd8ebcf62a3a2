# otel_modbus_exporter

Core of a Modbus-to-metrics exporter, written in Verus.

`src/` is the verified library:

- `logging` — log output names (parsed case-insensitively), log levels as
  `tracing` parses them, the default logging configuration and the plan for
  the subscriber (level check, writer, JSON or text).
- `labels` — a string-to-string label map with unique keys kept in
  increasing key order.
- `metrics` — metric values and the per-collector metric store (a `DashMap`
  behind small trusted wrappers): `publish` merges global, collector and
  metric labels and replaces the collector's cache; `all_metrics`,
  `metrics_for` and `collector_count` read it. The laws of the store and of
  label precedence are proof functions in the same file.
- `modbus` — the result of a Modbus read from what the attempt produced.
- `exporter` — which exporters the configuration enables, refusing an
  enabled OTLP exporter without an endpoint.
- `export::otlp` — wall-clock time as nanoseconds since the Unix epoch.
- `commands`, `config` — the `show-config` warning and the minimal
  configuration document.

`app/` is the program around it: configuration types with serde derives,
subscriber installation, the thread-safe store handle and the async Modbus
TCP/RTU clients.
