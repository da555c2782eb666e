//! Ledger-side tests: status stamps, spend windows and the SIGPIPE note.

use keel::mark::{mark_tier, tier_status, MarkStamp, StatusFile};
use keel::spend::{parse_duration_secs, tally, SpendRow};
use keel::types::TierStatus;

#[test]
fn ac4_spend_aggregates_within_window() {
    let now = 1_700_000_000_i64;
    let window_secs = parse_duration_secs("7d").expect("parse 7d");
    let cutoff = now - window_secs;

    let rows = vec![
        SpendRow { tier: "haiku".to_string(), tokens_in: 1_000_000, tokens_out: 500_000, priced: true, ts: cutoff },
        SpendRow { tier: "haiku".to_string(), tokens_in: 1_000, tokens_out: 1_000, priced: true, ts: cutoff - 1 },
    ];

    let report = tally(&rows, Some(window_secs), now);

    assert_eq!(report.total_calls, 1, "only 1 call within window");
    assert_eq!(report.total_tokens_in, 1_000_000);
    assert_eq!(report.total_tokens_out, 500_000);

    assert_eq!(report.tiers.len(), 1);
    assert_eq!(report.tiers[0].tier, "haiku");
    assert_eq!(report.tiers[0].rows, vec![0]);
    assert!(report.all_priced);
}

#[test]
fn ac5_mark_exhausted_is_durable() {
    let mut store = StatusFile::new();
    let now = 1_700_000_000_i64;

    mark_tier(&mut store, "sonnet", MarkStamp::Exhausted, now);

    let health = tier_status(&store, "sonnet").expect("must have entry after mark");

    assert_eq!(health.tier, "sonnet");
    assert_eq!(health.status, TierStatus::Exhausted, "status must be Exhausted after mark");
    assert_eq!(health.checked_at, now);
}

#[test]
fn ac5_mark_keyless_is_durable() {
    let mut store = StatusFile::new();
    let now = 1_700_000_001_i64;

    mark_tier(&mut store, "opus", MarkStamp::Keyless, now);

    let health = tier_status(&store, "opus").expect("must have entry after mark");

    assert_eq!(health.status, TierStatus::Keyless);
}

#[test]
fn ac5_mark_overrides_previous_entry() {
    let mut store = StatusFile::new();

    mark_tier(&mut store, "haiku", MarkStamp::Keyless, 1_700_000_000);
    mark_tier(&mut store, "haiku", MarkStamp::Exhausted, 1_700_000_001);

    let health = tier_status(&store, "haiku").expect("entry");
    assert_eq!(health.status, TierStatus::Exhausted, "second mark must override first");
    assert_eq!(health.checked_at, 1_700_000_001);
}

#[test]
fn ac5_mark_preserves_other_tiers() {
    let mut store = StatusFile::new();

    mark_tier(&mut store, "haiku", MarkStamp::Exhausted, 100);
    mark_tier(&mut store, "sonnet", MarkStamp::Keyless, 101);

    let haiku = tier_status(&store, "haiku").expect("entry");
    let sonnet = tier_status(&store, "sonnet").expect("entry");

    assert_eq!(haiku.status, TierStatus::Exhausted);
    assert_eq!(sonnet.status, TierStatus::Keyless);
}

#[test]
fn ac7_sigpipe_note() {
    // The SIGPIPE reset happens in the binary's entry point before any
    // output; the library's report builders return text instead of printing.
}
