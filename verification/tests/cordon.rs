//! Cordon integration tests: cooldowns, half-open probes, resets, keyless.

use keel::cordon::{Cordon, CordonConfig, Decision};
use keel::types::{TierHealth, TierStatus};

#[test]
fn cordon_builds_offline_no_network() {
    let cfg = CordonConfig::default();
    let health = vec![TierHealth {
        tier: "haiku".to_string(),
        status: TierStatus::Keyless,
        checked_at: 0,
        consecutive_failures: 0,
    }];
    let cordon = Cordon::from_health(&health, &cfg);
    let _ = cordon.should_attempt("haiku", 1_000);
}

#[test]
fn exhausted_skip_then_halfopen_attempt() {
    let cfg = CordonConfig {
        base_secs: 60,
        max_secs: 3_600,
        keyless_via_cooldown: false,
    };
    let mut cordon = Cordon::empty(cfg);
    let t0: i64 = 1_000_000;

    cordon.record_failure("haiku", t0, TierStatus::Exhausted);

    let d = cordon.should_attempt("haiku", t0 + 30);
    assert!(matches!(d, Decision::Skip { .. }), "expected Skip before cooldown expires; got {d:?}");

    let d = cordon.should_attempt("haiku", t0 + 60);
    assert!(matches!(d, Decision::Attempt), "expected Attempt at cooldown boundary; got {d:?}");

    let d = cordon.should_attempt("haiku", t0 + 120);
    assert!(matches!(d, Decision::Attempt), "expected Attempt after cooldown expires; got {d:?}");
}

#[test]
fn exponential_cooldown_table_n1_to_6() {
    let base: i64 = 60;
    let ceiling: i64 = 3_600;
    let cfg = CordonConfig {
        base_secs: base,
        max_secs: ceiling,
        keyless_via_cooldown: false,
    };
    let mut cordon = Cordon::empty(cfg);
    let t0: i64 = 0;

    let expected_cooldowns: [i64; 6] = [60, 120, 240, 480, 960, 1_920];

    for (i, &expected_cd) in expected_cooldowns.iter().enumerate() {
        let n = i + 1;
        let now = t0 + (i as i64) * 10_000;
        cordon.record_failure("haiku", now, TierStatus::Exhausted);
        let d = cordon.should_attempt("haiku", now + expected_cd - 1);
        assert!(
            matches!(d, Decision::Skip { .. }),
            "n={n}: expected Skip at t={}, got {d:?}",
            now + expected_cd - 1
        );
        let d = cordon.should_attempt("haiku", now + expected_cd);
        assert!(
            matches!(d, Decision::Attempt),
            "n={n}: expected Attempt at cooldown boundary t={}, got {d:?}",
            now + expected_cd
        );
    }
}

#[test]
fn cooldown_is_capped_at_ceiling() {
    let base: i64 = 3_600;
    let ceiling: i64 = 3_600;
    let cfg = CordonConfig {
        base_secs: base,
        max_secs: ceiling,
        keyless_via_cooldown: false,
    };
    let mut cordon = Cordon::empty(cfg);

    for i in 0_i64..20 {
        let now = i * 100_000;
        cordon.record_failure("opus", now, TierStatus::Exhausted);
        let d_before = cordon.should_attempt("opus", now + 1);
        assert!(
            matches!(d_before, Decision::Skip { .. }),
            "failure {}: expected Skip immediately after record_failure",
            i + 1
        );
        if let Decision::Skip { retry_after: Some(ra), .. } = d_before {
            let cd = ra - now;
            assert!(cd <= ceiling, "failure {}: cooldown {cd} exceeds ceiling {ceiling}", i + 1);
        }
    }
}

#[test]
fn record_success_resets_failures_and_clears_cooldown() {
    let cfg = CordonConfig::default();
    let mut cordon = Cordon::empty(cfg);
    let t0: i64 = 1_000_000;

    cordon.record_failure("haiku", t0, TierStatus::Exhausted);
    cordon.record_failure("haiku", t0 + 1, TierStatus::Exhausted);
    cordon.record_failure("haiku", t0 + 2, TierStatus::Exhausted);

    let d = cordon.should_attempt("haiku", t0 + 3);
    assert!(matches!(d, Decision::Skip { .. }), "expected Skip after 3 failures");

    cordon.record_success("haiku");

    let d = cordon.should_attempt("haiku", t0 + 3);
    assert!(matches!(d, Decision::Attempt), "expected Attempt after record_success; got {d:?}");

    let states = cordon.states();
    let state = states.iter().find(|s| s.tier == "haiku").expect("haiku state");
    assert_eq!(state.consecutive_failures, 0, "consecutive_failures should be 0");
    assert!(state.cooldown_until.is_none(), "cooldown_until should be None");
}

#[test]
fn keyless_returns_skip_without_cooldown() {
    let cfg = CordonConfig {
        keyless_via_cooldown: false,
        ..Default::default()
    };
    let health = vec![TierHealth {
        tier: "haiku".to_string(),
        status: TierStatus::Keyless,
        checked_at: 0,
        consecutive_failures: 0,
    }];
    let cordon = Cordon::from_health(&health, &cfg);

    let d = cordon.should_attempt("haiku", 9_999_999);
    assert!(
        matches!(d, Decision::Skip { ref reason, retry_after: None } if reason.contains("keyless")),
        "expected Skip with keyless reason and no retry_after; got {d:?}"
    );
}

#[test]
fn keyless_flip_to_reachable_returns_attempt() {
    let cfg = CordonConfig {
        keyless_via_cooldown: false,
        ..Default::default()
    };

    let health_keyless = vec![TierHealth {
        tier: "haiku".to_string(),
        status: TierStatus::Keyless,
        checked_at: 0,
        consecutive_failures: 0,
    }];
    let cordon_keyless = Cordon::from_health(&health_keyless, &cfg);
    let d = cordon_keyless.should_attempt("haiku", 0);
    assert!(matches!(d, Decision::Skip { .. }), "keyless → Skip");

    let health_reachable = vec![TierHealth {
        tier: "haiku".to_string(),
        status: TierStatus::Reachable,
        checked_at: 1,
        consecutive_failures: 0,
    }];
    let cordon_reachable = Cordon::from_health(&health_reachable, &cfg);
    let d = cordon_reachable.should_attempt("haiku", 1);
    assert!(matches!(d, Decision::Attempt), "reachable → Attempt after key appears; got {d:?}");
}

#[test]
fn cordon_from_health_and_status_stamps_merged_view() {
    let cfg = CordonConfig::default();

    let healths = vec![
        TierHealth {
            tier: "local-3b".to_string(),
            status: TierStatus::Reachable,
            checked_at: 1_000,
            consecutive_failures: 0,
        },
        TierHealth {
            tier: "haiku".to_string(),
            status: TierStatus::Exhausted,
            checked_at: 1_000,
            consecutive_failures: 2,
        },
    ];

    let cordon = Cordon::from_health(&healths, &cfg);

    let states = cordon.states();
    let local = states.iter().find(|s| s.tier == "local-3b").expect("local-3b");
    let haiku = states.iter().find(|s| s.tier == "haiku").expect("haiku");

    assert_eq!(local.status, TierStatus::Reachable);
    assert_eq!(haiku.status, TierStatus::Exhausted);

    assert!(matches!(cordon.should_attempt("local-3b", 2_000), Decision::Attempt));
    assert!(matches!(cordon.should_attempt("haiku", 2_000), Decision::Attempt));
}
