//! Cordon decisions, reasons and their table text.

use keel::cordon::{format_decision, Cordon, CordonConfig, Decision};
use keel::types::{TierHealth, TierStatus};

fn cfg(base: i64, max: i64, keyless: bool) -> CordonConfig {
    CordonConfig { base_secs: base, max_secs: max, keyless_via_cooldown: keyless }
}

#[test]
fn unknown_tier_is_attempted() {
    let cordon = Cordon::empty(CordonConfig::default());
    assert_eq!(cordon.should_attempt("anything", 0), Decision::Attempt);
    assert_eq!(cordon.config(), &cfg(60, 3_600, false));
}

#[test]
fn static_statuses_skip_without_retry() {
    let hs = vec![
        TierHealth { tier: "a".to_string(), status: TierStatus::Skipped, checked_at: 0, consecutive_failures: 0 },
        TierHealth { tier: "b".to_string(), status: TierStatus::Unconfigured, checked_at: 0, consecutive_failures: 0 },
    ];
    let cordon = Cordon::from_health(&hs, &CordonConfig::default());
    assert_eq!(
        cordon.should_attempt("a", 0),
        Decision::Skip { reason: "tier is statically skipped".to_string(), retry_after: None }
    );
    assert_eq!(
        cordon.should_attempt("b", 0),
        Decision::Skip { reason: "tier is not configured".to_string(), retry_after: None }
    );
}

#[test]
fn unreachable_reason_and_retry_time() {
    let mut cordon = Cordon::empty(cfg(60, 3_600, false));
    cordon.record_failure("opus", 1_000, TierStatus::Unreachable { reason: "boom".to_string() });
    let d = cordon.should_attempt("opus", 1_010);
    assert_eq!(d, Decision::Skip { reason: "unreachable: boom".to_string(), retry_after: Some(1_060) });
    assert_eq!(format_decision(&d), "skip (unreachable: boom) retry_after=1060");
}

#[test]
fn keyless_with_cooldown_follows_backoff() {
    let mut cordon = Cordon::from_health(
        &[TierHealth { tier: "haiku".to_string(), status: TierStatus::Keyless, checked_at: 0, consecutive_failures: 0 }],
        &cfg(10, 100, true),
    );
    assert_eq!(cordon.should_attempt("haiku", 0), Decision::Attempt);
    cordon.record_failure("haiku", 0, TierStatus::Keyless);
    assert_eq!(
        cordon.should_attempt("haiku", 5),
        Decision::Skip { reason: "keyless — no API key".to_string(), retry_after: Some(10) }
    );
    assert_eq!(cordon.should_attempt("haiku", 10), Decision::Attempt);
}

#[test]
fn huge_base_saturates_then_caps() {
    let mut cordon = Cordon::empty(cfg(i64::MAX, 500, false));
    cordon.record_failure("t", 0, TierStatus::Exhausted);
    cordon.record_failure("t", 0, TierStatus::Exhausted);
    assert_eq!(
        cordon.should_attempt("t", 0),
        Decision::Skip { reason: "quota exhausted".to_string(), retry_after: Some(500) }
    );
}

#[test]
fn retry_time_saturates_at_i64_max() {
    let mut cordon = Cordon::empty(cfg(60, 3_600, false));
    cordon.record_failure("t", i64::MAX - 1, TierStatus::Exhausted);
    let states = cordon.states();
    assert_eq!(states[0].cooldown_until, Some(i64::MAX));
}

#[test]
fn states_are_sorted_by_name() {
    let mut cordon = Cordon::empty(CordonConfig::default());
    cordon.record_failure("sonnet", 0, TierStatus::Exhausted);
    cordon.record_failure("haiku", 0, TierStatus::Exhausted);
    cordon.record_failure("local-3b", 0, TierStatus::Exhausted);
    let names: Vec<&str> = cordon.states().iter().map(|s| s.tier.as_str()).collect();
    assert_eq!(names, vec!["haiku", "local-3b", "sonnet"]);
}

#[test]
fn success_on_unknown_tier_adds_nothing() {
    let mut cordon = Cordon::empty(CordonConfig::default());
    cordon.record_success("ghost");
    assert!(cordon.states().is_empty());
}

#[test]
fn later_health_entry_wins() {
    let hs = vec![
        TierHealth { tier: "haiku".to_string(), status: TierStatus::Exhausted, checked_at: 0, consecutive_failures: 0 },
        TierHealth { tier: "haiku".to_string(), status: TierStatus::Reachable, checked_at: 0, consecutive_failures: 0 },
    ];
    let cordon = Cordon::from_health(&hs, &CordonConfig::default());
    assert_eq!(cordon.states().len(), 1);
    assert_eq!(cordon.states()[0].status, TierStatus::Reachable);
}

#[test]
fn decision_text() {
    assert_eq!(format_decision(&Decision::Attempt), "attempt");
    assert_eq!(
        format_decision(&Decision::Skip { reason: "keyless — no API key".to_string(), retry_after: None }),
        "skip (keyless — no API key)"
    );
    assert_eq!(
        format_decision(&Decision::Skip { reason: "r".to_string(), retry_after: Some(-3) }),
        "skip (r) retry_after=-3"
    );
}

#[test]
fn seeding_keeps_the_last_health_per_tier() {
    let hs = vec![
        TierHealth { tier: "haiku".to_string(), status: TierStatus::Exhausted, checked_at: 0, consecutive_failures: 3 },
        TierHealth { tier: "opus".to_string(), status: TierStatus::Keyless, checked_at: 0, consecutive_failures: 0 },
        TierHealth { tier: "haiku".to_string(), status: TierStatus::Reachable, checked_at: 0, consecutive_failures: 0 },
    ];
    let c = Cordon::from_health(&hs, &CordonConfig::default());
    let states = c.states();
    assert_eq!(states.len(), 2);
    assert_eq!(states[0].tier, "haiku");
    assert_eq!(states[0].status, TierStatus::Reachable);
    assert_eq!(states[0].consecutive_failures, 0);
    assert_eq!(states[0].cooldown_until, None);
    assert_eq!(states[1].tier, "opus");
    assert_eq!(states[1].status, TierStatus::Keyless);
}
