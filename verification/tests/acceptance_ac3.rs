//! AC3: one TierHealth per configured tier; a skipped tier appears as
//! Skipped and is not probed.

use keel::probe::{FakeProbe, FakeProbeEnv};
use keel::pulse::run_pulse;
use keel::types::TierStatus;

#[test]
fn skipped_tier_appears_with_skipped_status_and_is_not_probed() {
    let mut probe = FakeProbe::new();
    let env = FakeProbeEnv {
        key: Some("sk-test".to_string()),
        skip: vec!["local-8b".to_string()],
        max: None,
    };

    let results = run_pulse(&mut probe, &env);

    let local_8b = results
        .iter()
        .find(|h| h.tier == "local-8b")
        .expect("local-8b should be in results");
    assert_eq!(local_8b.status, TierStatus::Skipped, "local-8b should be Skipped");

    let calls = probe.recorded_calls();
    assert!(
        !calls.iter().any(|c| c.tier_name == "local-8b"),
        "local-8b should not have been probed; calls: {calls:?}"
    );

    let non_skipped: Vec<_> = results
        .iter()
        .filter(|h| !matches!(h.status, TierStatus::Skipped))
        .collect();
    assert!(!non_skipped.is_empty(), "should have non-skipped tiers");
}

#[test]
fn json_output_one_entry_per_tier() {
    let mut probe = FakeProbe::new();
    let env = FakeProbeEnv {
        key: Some("sk-test".to_string()),
        skip: vec![],
        max: None,
    };

    let results = run_pulse(&mut probe, &env);

    let mut names: Vec<_> = results.iter().map(|h| h.tier.as_str()).collect();
    let orig_len = names.len();
    names.sort_unstable();
    names.dedup();
    assert_eq!(names.len(), orig_len, "duplicate tier entries in results");
}
