//! Beacon and status integration tests. Every test uses `RecordingBeacon`
//! (never a live bus); the persisted ceiling is held in memory.

use keel::beacon::{effective_ceiling, run_beacon, BeaconOutcome, CeilingState, RecordingBeacon};
use keel::probe::{FakeProbe, FakeProbeEnv};
use keel::pulse::run_pulse;
use keel::status::{compute_status, StatusFormat};
use keel::types::{TierHealth, TierStatus};

/// Run pulse with a FakeProbe returning the given status map.
fn fake_healths(key: Option<&str>, overrides: &[(&str, TierStatus)]) -> Vec<TierHealth> {
    let mut probe = FakeProbe::new();
    for (name, status) in overrides {
        probe.responses.insert((*name).to_string(), status.clone());
    }
    let env = FakeProbeEnv {
        key: key.map(|k| k.to_string()),
        skip: vec![],
        max: None,
    };
    run_pulse(&mut probe, &env)
}

/// One beacon run against the in-memory state, persisting what it hands back.
fn beacon_run(
    now: i64,
    state: &mut Option<CeilingState>,
    healths: &[TierHealth],
    beacon: &mut RecordingBeacon,
) -> Result<BeaconOutcome, String> {
    let (outcome, save) = run_beacon(now, state.clone(), healths, beacon)?;
    if let Some(s) = save {
        *state = Some(s);
    }
    Ok(outcome)
}

#[test]
fn recording_beacon_makes_zero_live_bus_connections() {
    let mut beacon = RecordingBeacon::new();
    let mut state = None;
    let healths = fake_healths(Some("sk-test"), &[]);

    let outcome = beacon_run(1_000_000, &mut state, &healths, &mut beacon)
        .expect("run_beacon should not fail");

    assert_eq!(outcome, BeaconOutcome::FirstRun);
    assert_eq!(beacon.recorded().len(), 0);
}

#[test]
fn status_nominal_when_all_reachable() {
    let healths = fake_healths(Some("sk-test"), &[]);
    let report = compute_status(&healths, None, 1_000_000);
    assert!(report.nominal, "should be nominal when all reachable");
    assert_eq!(report.ceiling, "opus");
    let text = report.as_text();
    assert!(text.contains("nominal"), "text should contain 'nominal': {text}");
    assert!(text.contains("opus"), "text should name the top tier: {text}");
}

#[test]
fn status_floored_when_cloud_keyless() {
    let healths = fake_healths(None, &[]);
    let report = compute_status(&healths, Some(999_000), 1_000_000);
    assert!(!report.nominal, "should be floored when cloud keyless");
    assert!(
        report.ceiling == "local-3b" || report.ceiling == "local-8b",
        "ceiling should be local: {}",
        report.ceiling
    );
    let text = report.as_text();
    assert!(text.contains("floored"), "text should contain 'floored': {text}");
    assert!(text.contains("keyless"), "text should mention keyless: {text}");
    assert!(
        report.duration_human.is_some(),
        "should have duration when since is provided"
    );
}

#[test]
fn ceiling_drop_emits_degraded_event() {
    let mut beacon = RecordingBeacon::new();
    let mut state = None;

    let healths_up = fake_healths(Some("sk-test"), &[]);
    let _ = beacon_run(1_000, &mut state, &healths_up, &mut beacon).expect("first run should succeed");
    assert_eq!(beacon.recorded().len(), 0, "first run emits nothing");

    let healths_down = fake_healths(None, &[]);
    let outcome = beacon_run(2_000, &mut state, &healths_down, &mut beacon).expect("second run should succeed");

    let recorded = beacon.recorded();
    assert_eq!(recorded.len(), 1, "exactly one event emitted on drop");

    let event = &recorded[0];
    assert_eq!(event.topic, "wm.keel.degraded", "topic should be wm.keel.degraded");
    assert_eq!(event.from, "opus", "from should be opus");
    assert!(
        event.to == "local-3b" || event.to == "local-8b",
        "to should be a local tier: {}",
        event.to
    );
    assert_eq!(event.since, 1_000, "since should be from first run");

    assert!(matches!(outcome, BeaconOutcome::Degraded(_)), "outcome should be Degraded");
}

#[test]
fn ceiling_rise_emits_refloat_event() {
    let mut beacon = RecordingBeacon::new();
    let mut state = None;

    let healths_down = fake_healths(None, &[]);
    let _ = beacon_run(1_000, &mut state, &healths_down, &mut beacon).expect("first run");
    assert_eq!(beacon.recorded().len(), 0, "first run emits nothing");

    let healths_up = fake_healths(Some("sk-test"), &[]);
    let outcome = beacon_run(2_000, &mut state, &healths_up, &mut beacon).expect("second run");

    let recorded = beacon.recorded();
    assert_eq!(recorded.len(), 1, "exactly one event on rise");

    let event = &recorded[0];
    assert_eq!(event.topic, "wm.keel.refloat", "topic should be wm.keel.refloat");
    assert_eq!(event.to, "opus", "to should be opus");

    assert!(matches!(outcome, BeaconOutcome::Refloat(_)), "outcome should be Refloat");
}

#[test]
fn event_topics_match_wm_keel_convention() {
    let mut beacon = RecordingBeacon::new();
    let mut state = None;
    let healths_up = fake_healths(Some("sk-test"), &[]);
    let _ = beacon_run(1_000, &mut state, &healths_up, &mut beacon).unwrap();
    let healths_down = fake_healths(None, &[]);
    let _ = beacon_run(2_000, &mut state, &healths_down, &mut beacon).unwrap();

    for event in beacon.recorded() {
        assert!(
            event.topic.starts_with("wm.keel."),
            "topic must start with wm.keel.: {}",
            event.topic
        );
    }
}

#[test]
fn no_change_emits_zero_events() {
    let mut beacon = RecordingBeacon::new();
    let mut state = None;

    let healths = fake_healths(Some("sk-test"), &[]);

    let _ = beacon_run(1_000, &mut state, &healths, &mut beacon).unwrap();
    assert_eq!(beacon.recorded().len(), 0);

    let outcome = beacon_run(2_000, &mut state, &healths, &mut beacon).unwrap();
    assert_eq!(beacon.recorded().len(), 0, "no event on second run (no change)");
    assert_eq!(outcome, BeaconOutcome::NoChange);

    let outcome3 = beacon_run(3_000, &mut state, &healths, &mut beacon).unwrap();
    assert_eq!(beacon.recorded().len(), 0, "no event on third run either");
    assert_eq!(outcome3, BeaconOutcome::NoChange);
}

#[test]
fn state_file_updated_after_emit_so_next_run_diffs_against_new_ceiling() {
    let mut beacon = RecordingBeacon::new();
    let mut state = None;

    let healths_up = fake_healths(Some("sk-test"), &[]);
    let _ = beacon_run(1_000, &mut state, &healths_up, &mut beacon).unwrap();

    let state1 = state.clone().expect("state should exist after first run");
    assert_eq!(state1.ceiling, "opus");
    assert_eq!(state1.since, 1_000);

    let healths_down = fake_healths(None, &[]);
    let _ = beacon_run(2_000, &mut state, &healths_down, &mut beacon).unwrap();

    let state2 = state.clone().expect("state should exist after second run");
    assert_ne!(state2.ceiling, "opus", "ceiling should have changed");
    assert_eq!(state2.since, 2_000, "since should be the new run's timestamp");

    let mut beacon2 = RecordingBeacon::new();
    let _ = beacon_run(3_000, &mut state, &healths_down, &mut beacon2).unwrap();
    assert_eq!(
        beacon2.recorded().len(),
        0,
        "third run should emit nothing — state correctly reflects new ceiling"
    );
}

#[test]
fn keel_status_head_does_not_panic() {
    let healths = fake_healths(None, &[]);
    let report = compute_status(&healths, None, 1_000_000);
    let text = report.as_text();
    assert!(!text.contains('\n'), "as_text must not embed newlines: {text:?}");
}

#[test]
fn beacon_test_file_is_wired() {
    let _ = StatusFormat::Json;
    assert!(true, "tests/beacon.rs is wired into the test harness");
}

#[test]
fn effective_ceiling_returns_highest_reachable() {
    let healths = fake_healths(Some("sk-test"), &[]);
    let ceiling = effective_ceiling(&healths);
    assert_eq!(ceiling.as_deref(), Some("opus"));
}

#[test]
fn effective_ceiling_fallback_when_all_keyless() {
    let healths = fake_healths(None, &[]);
    let ceiling = effective_ceiling(&healths);
    assert!(
        ceiling.as_deref() == Some("local-3b") || ceiling.as_deref() == Some("local-8b"),
        "ceiling should be a local tier: {ceiling:?}"
    );
}
