//! AC4: a cloud tier with no key yields Keyless without a probe call.

use keel::probe::{FakeProbe, FakeProbeEnv};
use keel::pulse::run_pulse;
use keel::types::TierStatus;

#[test]
fn cloud_tier_with_no_key_yields_keyless_no_socket() {
    let mut probe = FakeProbe::new();
    let env = FakeProbeEnv {
        key: None,
        skip: vec![],
        max: None,
    };

    let results = run_pulse(&mut probe, &env);

    for tier_name in &["haiku", "sonnet", "opus"] {
        let health = results
            .iter()
            .find(|h| h.tier.as_str() == *tier_name)
            .unwrap_or_else(|| panic!("{tier_name} should be in results"));
        assert_eq!(
            health.status,
            TierStatus::Keyless,
            "{tier_name} should be Keyless when no key is set"
        );
    }

    let calls = probe.recorded_calls();
    let cloud_calls: Vec<_> = calls
        .iter()
        .filter(|c| ["haiku", "sonnet", "opus"].contains(&c.tier_name.as_str()))
        .collect();
    assert!(
        cloud_calls.is_empty(),
        "cloud tiers should not be probed when keyless; got calls: {cloud_calls:?}"
    );
}
