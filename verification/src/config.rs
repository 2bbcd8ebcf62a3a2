use vstd::prelude::*;

verus! {

/// The smallest configuration document that the exporter accepts: one
/// enabled Prometheus exporter and one TCP collector with one metric.
pub fn minimal_yaml() -> (res: String)
    ensures
        res@ == "\nexporters:\n  prometheus:\n    enabled: true\ncollectors:\n  - name: test\n    protocol:\n      type: tcp\n      endpoint: \"localhost:502\"\n    slave_id: 1\n    metrics:\n      - name: voltage\n        type: gauge\n        register_type: holding\n        address: 0\n        data_type: u16\n"@,
{
    "\nexporters:\n  prometheus:\n    enabled: true\ncollectors:\n  - name: test\n    protocol:\n      type: tcp\n      endpoint: \"localhost:502\"\n    slave_id: 1\n    metrics:\n      - name: voltage\n        type: gauge\n        register_type: holding\n        address: 0\n        data_type: u16\n".to_string()
}

} // verus!
