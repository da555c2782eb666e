//! The status report, durations, the effective ceiling and beacon decisions.

use keel::beacon::{effective_ceiling, run_beacon, Beacon, BeaconEvent, BeaconOutcome, CeilingState, RecordingBeacon};
use keel::calendar::civil_date;
use keel::status::{compute_status, human_duration, timestamp_of, unix_now, StatusReport};
use keel::types::{TierHealth, TierStatus};

fn health(tier: &str, status: TierStatus) -> TierHealth {
    TierHealth { tier: tier.to_string(), status, checked_at: 0, consecutive_failures: 0 }
}

fn ladder(statuses: [TierStatus; 5]) -> Vec<TierHealth> {
    let names = ["local-3b", "local-8b", "haiku", "sonnet", "opus"];
    names.iter().zip(statuses).map(|(n, s)| health(n, s)).collect()
}

#[test]
fn durations_use_the_two_largest_units() {
    assert_eq!(human_duration(0), "0s");
    assert_eq!(human_duration(45), "45s");
    assert_eq!(human_duration(125), "2m 5s");
    assert_eq!(human_duration(8_100), "2h 15m");
    assert_eq!(human_duration(3_600), "1h 0m");
    assert_eq!(human_duration(86_400), "1d 0h");
    assert_eq!(human_duration(367_200), "4d 6h");
    assert_eq!(human_duration(-30), "0s");
}

#[test]
fn floored_report_text() {
    let hs = ladder([
        TierStatus::Reachable,
        TierStatus::Reachable,
        TierStatus::Keyless,
        TierStatus::Keyless,
        TierStatus::Keyless,
    ]);
    let report = compute_status(&hs, Some(999_000), 1_000_000);
    assert_eq!(report.ceiling, "local-8b");
    assert_eq!(report.reason.as_deref(), Some("cloud keyless"));
    assert_eq!(report.duration_human.as_deref(), Some("16m 40s"));
    assert_eq!(report.as_text(), "floored: local-8b for 16m 40s (cloud keyless since 1970-01-12)");
}

#[test]
fn unreachable_top_tier_reason() {
    let hs = ladder([
        TierStatus::Reachable,
        TierStatus::Reachable,
        TierStatus::Reachable,
        TierStatus::Reachable,
        TierStatus::Unreachable { reason: "test forced".to_string() },
    ]);
    let report = compute_status(&hs, None, 0);
    assert!(!report.nominal);
    assert_eq!(report.ceiling, "sonnet");
    assert_eq!(report.as_text(), "floored: sonnet (cloud unreachable: test forced)");
}

#[test]
fn exhausted_and_other_cloud_reasons() {
    let hs = ladder([
        TierStatus::Reachable,
        TierStatus::Skipped,
        TierStatus::Keyless,
        TierStatus::Exhausted,
        TierStatus::Unconfigured,
    ]);
    let report = compute_status(&hs, None, 0);
    assert_eq!(report.reason.as_deref(), Some("cloud exhausted"));
    assert_eq!(report.ceiling, "local-3b");
}

#[test]
fn nothing_configured_reads_unknown() {
    let hs = vec![health("local-3b", TierStatus::Unconfigured)];
    let report = compute_status(&hs, None, 0);
    assert!(!report.nominal);
    assert_eq!(report.ceiling, "unknown");
    assert_eq!(report.reason, None);
    assert_eq!(report.as_text(), "floored: unknown");
}

#[test]
fn nominal_report_text() {
    let report = StatusReport {
        nominal: true,
        ceiling: "opus".to_string(),
        reason: None,
        since: None,
        duration_human: None,
    };
    assert_eq!(report.as_text(), "nominal: opus reachable");
}

#[test]
fn ceiling_fallback_is_lowest_configured_tier() {
    let hs = vec![
        health("local-3b", TierStatus::Unconfigured),
        health("local-8b", TierStatus::Skipped),
        health("haiku", TierStatus::Keyless),
    ];
    assert_eq!(effective_ceiling(&hs).as_deref(), Some("local-8b"));
    assert_eq!(effective_ceiling(&[]), None);
}

#[test]
fn no_ceiling_means_no_change() {
    let mut beacon = RecordingBeacon::new();
    let prior = Some(CeilingState { ceiling: "opus".to_string(), since: 1 });
    let (outcome, save) = run_beacon(5, prior, &[], &mut beacon).unwrap();
    assert_eq!(outcome, BeaconOutcome::NoChange);
    assert!(save.is_none());
    assert!(beacon.recorded().is_empty());
}

#[test]
fn first_run_stores_ceiling_from_now() {
    let mut beacon = RecordingBeacon::new();
    let hs = vec![health("haiku", TierStatus::Reachable)];
    let (outcome, save) = run_beacon(42, None, &hs, &mut beacon).unwrap();
    assert_eq!(outcome, BeaconOutcome::FirstRun);
    assert_eq!(save, Some(CeilingState { ceiling: "haiku".to_string(), since: 42 }));
}

#[test]
fn direction_follows_ladder_position() {
    let mut beacon = RecordingBeacon::new();
    let hs = vec![health("a", TierStatus::Reachable), health("b", TierStatus::Keyless)];
    let prior = Some(CeilingState { ceiling: "b".to_string(), since: 7 });
    let (outcome, save) = run_beacon(9, prior, &hs, &mut beacon).unwrap();
    let expected = BeaconEvent {
        topic: "wm.keel.degraded".to_string(),
        from: "b".to_string(),
        to: "a".to_string(),
        since: 7,
    };
    assert_eq!(outcome, BeaconOutcome::Degraded(expected.clone()));
    assert_eq!(save, Some(CeilingState { ceiling: "a".to_string(), since: 9 }));
    assert_eq!(beacon.recorded(), vec![expected]);
}

#[test]
fn unknown_prior_tier_direction_by_cloud_names() {
    let mut beacon = RecordingBeacon::new();
    let hs = vec![health("local-3b", TierStatus::Reachable)];
    let prior = Some(CeilingState { ceiling: "opus".to_string(), since: 1 });
    let (outcome, _) = run_beacon(2, prior, &hs, &mut beacon).unwrap();
    assert!(matches!(outcome, BeaconOutcome::Degraded(_)));

    let prior = Some(CeilingState { ceiling: "gone".to_string(), since: 1 });
    let (outcome, _) = run_beacon(2, prior, &hs, &mut beacon).unwrap();
    assert!(matches!(outcome, BeaconOutcome::Refloat(_)));
}

#[test]
fn recording_beacon_keeps_events_in_order() {
    let mut beacon = RecordingBeacon::new();
    let e1 = BeaconEvent { topic: "wm.keel.refloat".to_string(), from: "a".to_string(), to: "b".to_string(), since: 1 };
    let e2 = BeaconEvent { topic: "wm.keel.degraded".to_string(), from: "b".to_string(), to: "a".to_string(), since: 2 };
    beacon.publish(&e1).unwrap();
    beacon.publish(&e2).unwrap();
    assert_eq!(beacon.recorded(), vec![e1, e2]);
}

#[test]
fn clock_is_after_epoch() {
    assert!(unix_now() > 1_600_000_000);
}

#[test]
fn clock_readings_become_timestamps() {
    assert_eq!(timestamp_of(None), 0);
    assert_eq!(timestamp_of(Some(1_700_000_000)), 1_700_000_000);
    assert_eq!(timestamp_of(Some(i64::MAX as u64)), i64::MAX);
    assert_eq!(timestamp_of(Some(u64::MAX)), i64::MAX);
}

#[test]
fn floored_line_shows_since_date() {
    let report = StatusReport {
        nominal: false,
        ceiling: "local-3b".to_string(),
        reason: Some("cloud keyless".to_string()),
        since: Some(1_780_099_200),
        duration_human: Some("4d 6h".to_string()),
    };
    assert_eq!(report.as_text(), "floored: local-3b for 4d 6h (cloud keyless since 2026-05-30)");
    let no_since = StatusReport { since: None, duration_human: None, ..report };
    assert_eq!(no_since.as_text(), "floored: local-3b (cloud keyless)");
}

#[test]
fn timestamps_fall_on_calendar_dates() {
    assert_eq!(civil_date(0), (1970, 1, 1));
    assert_eq!(civil_date(86_399), (1970, 1, 1));
    assert_eq!(civil_date(86_400), (1970, 1, 2));
    assert_eq!(civil_date(-1), (1969, 12, 31));
    assert_eq!(civil_date(951_782_400), (2000, 2, 29));
    assert_eq!(civil_date(1_780_099_200), (2026, 5, 30));
    assert_eq!(civil_date(4_107_542_400), (2100, 3, 1));
    assert_eq!(civil_date(-62_135_596_800), (1, 1, 1));
}

struct DownBus {
    tries: usize,
}

impl Beacon for DownBus {
    fn publish(&mut self, _event: &BeaconEvent) -> Result<(), String> {
        self.tries += 1;
        Err("bus down".to_string())
    }
}

#[test]
fn publish_error_is_returned_and_state_kept() {
    let hs = ladder([
        TierStatus::Reachable,
        TierStatus::Reachable,
        TierStatus::Keyless,
        TierStatus::Keyless,
        TierStatus::Keyless,
    ]);
    let mut bus = DownBus { tries: 0 };
    let prior = CeilingState { ceiling: "opus".to_string(), since: 1_000 };
    let r = run_beacon(2_000, Some(prior), &hs, &mut bus);
    assert_eq!(r, Err("bus down".to_string()));
    assert_eq!(bus.tries, 1);
    let mut quiet = DownBus { tries: 0 };
    let same = CeilingState { ceiling: "local-8b".to_string(), since: 1_000 };
    let r = run_beacon(2_000, Some(same), &hs, &mut quiet);
    assert_eq!(r, Ok((BeaconOutcome::NoChange, None)));
    assert_eq!(quiet.tries, 0);
}
