//! AC6: the pulse exit code is non-zero when the top configured tier is
//! not Reachable, zero otherwise.

use keel::probe::{FakeProbe, FakeProbeEnv};
use keel::pulse::{exit_code, run_pulse};
use keel::types::TierStatus;

#[test]
fn exit_zero_when_top_tier_reachable() {
    let mut probe = FakeProbe::new();
    let env = FakeProbeEnv {
        key: Some("sk-test".to_string()),
        skip: vec![],
        max: None,
    };

    let results = run_pulse(&mut probe, &env);
    let code = exit_code(&results);
    assert_eq!(code, 0, "exit code should be 0 when top tier is Reachable");
}

#[test]
fn exit_nonzero_when_top_tier_unreachable() {
    let mut probe = FakeProbe::new();
    probe.responses.insert(
        "opus".to_string(),
        TierStatus::Unreachable {
            reason: "test forced".to_string(),
        },
    );
    let env = FakeProbeEnv {
        key: Some("sk-test".to_string()),
        skip: vec![],
        max: None,
    };

    let results = run_pulse(&mut probe, &env);
    let code = exit_code(&results);
    assert_ne!(code, 0, "exit code should be non-zero when top tier is Unreachable");
}
