//! AC1: the probe path runs offline; `FakeProbe` never opens a socket.

use keel::probe::{FakeProbe, FakeProbeEnv};
use keel::pulse::{exit_code, pulse_table, run_pulse};

#[test]
fn probe_makes_zero_real_connections() {
    let mut probe = FakeProbe::new();
    let env = FakeProbeEnv {
        key: Some("sk-test".to_string()),
        ..Default::default()
    };
    let results = run_pulse(&mut probe, &env);
    assert!(!results.is_empty(), "expected at least one tier in results");

    // The table output path also runs without network.
    let lines = pulse_table(&results);
    assert_eq!(lines.len(), results.len() + 2);
    let _code = exit_code(&results);
}
