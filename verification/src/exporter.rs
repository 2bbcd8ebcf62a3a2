use vstd::prelude::*;

verus! {

/// A kind of metric exporter.
#[derive(Debug, Clone, Copy, PartialEq, Eq, Structural)]
pub enum ExporterKind {
    Otlp,
    Prometheus,
    Mqtt,
}

/// The `otlp` section of the configuration, as far as creating the exporter
/// goes: whether it is enabled and the collector endpoint, if one is given.
#[derive(Debug, Clone)]
pub struct OtlpSection {
    pub enabled: bool,
    pub endpoint: Option<String>,
}

/// The `exporters` section of the configuration, as far as choosing the
/// exporters goes: `None` for an absent section, and otherwise what the
/// section says (for Prometheus and MQTT, its `enabled` flag).
#[derive(Debug, Clone)]
pub struct ExportersConfig {
    pub otlp: Option<OtlpSection>,
    pub prometheus: Option<bool>,
    pub mqtt: Option<bool>,
}

/// Why the exporters could not be created.
#[derive(Debug, Clone, Copy, PartialEq, Eq, Structural)]
pub enum ExporterError {
    /// The OTLP exporter is enabled but no endpoint is configured.
    MissingOtlpEndpoint,
}

/// The place of an exporter kind in the fixed creation order.
pub open spec fn kind_rank(k: ExporterKind) -> int {
    match k {
        ExporterKind::Otlp => 0,
        ExporterKind::Prometheus => 1,
        ExporterKind::Mqtt => 2,
    }
}

/// Whether the OTLP section is present and enabled.
pub open spec fn otlp_enabled(config: ExportersConfig) -> bool {
    config.otlp matches Some(section) && section.enabled
}

/// Whether a Prometheus or MQTT section is present and enabled.
pub open spec fn is_enabled(section: Option<bool>) -> bool {
    section == Some(true)
}

/// The exporters to create, in the order OTLP, Prometheus, MQTT.
pub open spec fn enabled_exporters(config: ExportersConfig) -> Seq<ExporterKind> {
    (if otlp_enabled(config) { seq![ExporterKind::Otlp] } else { Seq::empty() })
        + (if is_enabled(config.prometheus) { seq![ExporterKind::Prometheus] } else { Seq::empty() })
        + (if is_enabled(config.mqtt) { seq![ExporterKind::Mqtt] } else { Seq::empty() })
}

/// Each exporter is chosen on its own section alone: OTLP exactly when its
/// section is present and enabled (whatever its endpoint), Prometheus and
/// MQTT exactly when their flag is `Some(true)`. None appears twice, and
/// they come in the order OTLP, Prometheus, MQTT.
pub proof fn lemma_exporters_chosen_independently(config: ExportersConfig)
    ensures
        enabled_exporters(config).contains(ExporterKind::Otlp) <==> (config.otlp matches Some(section)
            && section.enabled),
        enabled_exporters(config).contains(ExporterKind::Prometheus) <==> config.prometheus == Some(true),
        enabled_exporters(config).contains(ExporterKind::Mqtt) <==> config.mqtt == Some(true),
        enabled_exporters(config).no_duplicates(),
        forall|i: int, j: int|
            0 <= i < j < enabled_exporters(config).len() ==> kind_rank(#[trigger] enabled_exporters(config)[i])
                < kind_rank(#[trigger] enabled_exporters(config)[j]),
{
    let e = enabled_exporters(config);
    let o: Seq<ExporterKind> = if otlp_enabled(config) { seq![ExporterKind::Otlp] } else { Seq::empty() };
    let p: Seq<ExporterKind> = if is_enabled(config.prometheus) { seq![ExporterKind::Prometheus] } else { Seq::empty() };
    let m: Seq<ExporterKind> = if is_enabled(config.mqtt) { seq![ExporterKind::Mqtt] } else { Seq::empty() };
    assert(e == o + p + m);
    assert forall|k: ExporterKind| e.contains(k) <==> (o.contains(k) || p.contains(k) || m.contains(k)) by {
        if e.contains(k) {
            let i = choose|i: int| 0 <= i < e.len() && e[i] == k;
            if i < o.len() {
                assert(o[i] == k);
            } else if i < o.len() + p.len() {
                assert(p[i - o.len()] == k);
            } else {
                assert(m[i - o.len() - p.len()] == k);
            }
        }
        if o.contains(k) {
            let i = choose|i: int| 0 <= i < o.len() && o[i] == k;
            assert(e[i] == k);
        }
        if p.contains(k) {
            let i = choose|i: int| 0 <= i < p.len() && p[i] == k;
            assert(e[o.len() + i] == k);
        }
        if m.contains(k) {
            let i = choose|i: int| 0 <= i < m.len() && m[i] == k;
            assert(e[o.len() + p.len() + i] == k);
        }
    }
    assert(o.contains(ExporterKind::Otlp) == otlp_enabled(config)) by {
        if otlp_enabled(config) {
            assert(o[0] == ExporterKind::Otlp);
        }
    }
    assert(p.contains(ExporterKind::Prometheus) == is_enabled(config.prometheus)) by {
        if is_enabled(config.prometheus) {
            assert(p[0] == ExporterKind::Prometheus);
        }
    }
    assert(m.contains(ExporterKind::Mqtt) == is_enabled(config.mqtt)) by {
        if is_enabled(config.mqtt) {
            assert(m[0] == ExporterKind::Mqtt);
        }
    }
    assert forall|i: int, j: int| 0 <= i < j < e.len() implies kind_rank(#[trigger] e[i]) < kind_rank(#[trigger] e[j]) by {
        if i < o.len() {
            assert(e[i] == o[i]);
        } else if i < o.len() + p.len() {
            assert(e[i] == p[i - o.len()]);
        } else {
            assert(e[i] == m[i - o.len() - p.len()]);
        }
        if j < o.len() {
            assert(e[j] == o[j]);
        } else if j < o.len() + p.len() {
            assert(e[j] == p[j - o.len()]);
        } else {
            assert(e[j] == m[j - o.len() - p.len()]);
        }
    }
    assert forall|i: int, j: int| 0 <= i < e.len() && 0 <= j < e.len() && i != j implies e[i] != e[j] by {
        if i < j {
            assert(kind_rank(e[i]) < kind_rank(e[j]));
        } else {
            assert(kind_rank(e[j]) < kind_rank(e[i]));
        }
    }
}

/// Chooses the exporters to create from the top-level exporter config:
/// every exporter whose section is present and enabled, several at once
/// where several are enabled. An enabled OTLP exporter without an endpoint
/// cannot be created, and the whole set is refused. The MQTT exporter is
/// taken to be always constructible: its constructor (which may fail in ways
/// not known here) is not part of this library.
pub fn create_exporters(config: &ExportersConfig) -> (res: Result<Vec<ExporterKind>, ExporterError>)
    ensures
        match res {
            Ok(kinds) => !(otlp_enabled(*config) && config.otlp->0.endpoint is None) && kinds@
                == enabled_exporters(*config),
            Err(e) => e == ExporterError::MissingOtlpEndpoint && otlp_enabled(*config)
                && config.otlp->0.endpoint is None,
        },
        res is Err <==> (config.otlp matches Some(section) && section.enabled && section.endpoint is None),
        res matches Ok(kinds) ==> {
            &&& kinds@.contains(ExporterKind::Otlp) <==> (config.otlp matches Some(section) && section.enabled)
            &&& kinds@.contains(ExporterKind::Prometheus) <==> config.prometheus == Some(true)
            &&& kinds@.contains(ExporterKind::Mqtt) <==> config.mqtt == Some(true)
            &&& kinds@.no_duplicates()
        },
{
    proof {
        lemma_exporters_chosen_independently(*config);
    }
    let mut exporters: Vec<ExporterKind> = Vec::new();
    if let Some(section) = &config.otlp {
        if section.enabled {
            if section.endpoint.is_none() {
                return Err(ExporterError::MissingOtlpEndpoint);
            }
            exporters.push(ExporterKind::Otlp);
        }
    }
    if config.prometheus == Some(true) {
        exporters.push(ExporterKind::Prometheus);
    }
    if config.mqtt == Some(true) {
        exporters.push(ExporterKind::Mqtt);
    }
    assert(exporters@ =~= enabled_exporters(*config));
    Ok(exporters)
}

} // verus!
