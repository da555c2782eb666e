//! Duration parsing, spend aggregation, pricing classes and status stamps.

use keel::ledger::{price_tier, PriceTier};
use keel::mark::{mark_tier, tier_status, MarkStamp, StatusFile};
use keel::spend::{duration_fits, parse_duration_secs, spend_table, tally, SpendLine, SpendRow};

fn row(tier: &str, tokens_in: u64, tokens_out: u64, priced: bool, ts: i64) -> SpendRow {
    SpendRow { tier: tier.to_string(), tokens_in, tokens_out, priced, ts }
}

#[test]
fn durations_parse_by_unit() {
    assert_eq!(parse_duration_secs("7d"), Ok(604_800));
    assert_eq!(parse_duration_secs(" 24h "), Ok(86_400));
    assert_eq!(parse_duration_secs("30m"), Ok(1_800));
    assert_eq!(parse_duration_secs("60s"), Ok(60));
    assert_eq!(parse_duration_secs("+5s"), Ok(5));
    assert_eq!(parse_duration_secs("-0s"), Ok(0));
}

#[test]
fn duration_errors_quote_the_trimmed_input() {
    assert_eq!(
        parse_duration_secs(" 7w "),
        Err("unrecognised duration '7w'; expected <N>d|h|m|s (e.g. '7d', '24h')".to_string())
    );
    assert_eq!(
        parse_duration_secs(""),
        Err("unrecognised duration ''; expected <N>d|h|m|s (e.g. '7d', '24h')".to_string())
    );
    assert_eq!(parse_duration_secs("xd"), Err("invalid number in duration 'xd'".to_string()));
    assert_eq!(parse_duration_secs("d"), Err("invalid number in duration 'd'".to_string()));
    assert_eq!(parse_duration_secs("1.5h"), Err("invalid number in duration '1.5h'".to_string()));
    assert_eq!(parse_duration_secs("-1d"), Err("duration must be positive, got '-1d'".to_string()));
    assert_eq!(
        parse_duration_secs("99999999999999999999s"),
        Err("invalid number in duration '99999999999999999999s'".to_string())
    );
}

#[test]
fn oversized_durations_are_flagged() {
    assert!(duration_fits("7d"));
    assert!(duration_fits("bad"));
    assert!(!duration_fits("999999999999999d"));
    assert!(duration_fits("9223372036854775807s"));
}

#[test]
fn tally_groups_sorts_and_lists_rows() {
    let rows = vec![
        row("sonnet", 10, 1, true, 100),
        row("haiku", 5, 2, true, 50),
        row("sonnet", 20, 3, false, 300),
        row("haiku", 1, 1, true, 10),
    ];
    let t = tally(&rows, Some(60), 110);
    assert_eq!(t.tiers.len(), 2);
    assert_eq!(t.tiers[0].tier, "haiku");
    assert_eq!(t.tiers[0].rows, vec![1]);
    assert_eq!(t.tiers[0].calls, 1);
    assert!(t.tiers[0].priced);
    assert_eq!(t.tiers[1].tier, "sonnet");
    assert_eq!(t.tiers[1].rows, vec![0, 2]);
    assert_eq!(t.tiers[1].tokens_in, 30);
    assert!(!t.tiers[1].priced);
    assert_eq!(t.total_tokens_in, 35);
    assert_eq!(t.total_tokens_out, 6);
    assert_eq!(t.total_calls, 3);
    assert!(!t.all_priced);
    assert_eq!(t.window_start, Some(50));
    assert_eq!(t.window_end, Some(300));
}

#[test]
fn tally_of_nothing() {
    let t = tally(&[], None, 0);
    assert!(t.tiers.is_empty());
    assert_eq!(t.total_calls, 0);
    assert!(t.all_priced);
    assert_eq!(t.window_start, None);
}

#[test]
fn token_sums_saturate() {
    let rows = vec![row("opus", u64::MAX, 0, true, 0), row("opus", 1, 0, true, 0)];
    let t = tally(&rows, None, 0);
    assert_eq!(t.total_tokens_in, u64::MAX);
    assert_eq!(t.tiers[0].tokens_in, u64::MAX);
}

#[test]
fn price_classes() {
    assert_eq!(price_tier("local-3b"), PriceTier::Local);
    assert_eq!(price_tier("local"), PriceTier::Local);
    assert_eq!(price_tier("localhost"), PriceTier::Unpriced);
    assert_eq!(price_tier("haiku"), PriceTier::Haiku);
    assert_eq!(price_tier("sonnet"), PriceTier::Sonnet);
    assert_eq!(price_tier("opus"), PriceTier::Opus);
    assert_eq!(price_tier("gpt-4"), PriceTier::Unpriced);
    assert_eq!(price_tier(""), PriceTier::Unpriced);
}

#[test]
fn stamp_labels_and_missing_tier() {
    assert_eq!(MarkStamp::Exhausted.label(), "exhausted");
    assert_eq!(MarkStamp::Keyless.label(), "keyless");
    let mut sf = StatusFile::default();
    assert!(tier_status(&sf, "haiku").is_none());
    mark_tier(&mut sf, "haiku", MarkStamp::Keyless, 3);
    assert!(tier_status(&sf, "sonnet").is_none());
    assert_eq!(sf.tiers.names(), vec!["haiku".to_string()]);
}

#[test]
fn spend_table_lines_match_the_printed_layout() {
    let rows = vec![SpendLine {
        tier: "haiku".to_string(),
        tokens_in: 1000,
        tokens_out: 200,
        cost: "0.001800".to_string(),
        calls: 2,
    }];
    let total = SpendLine { tier: String::new(), tokens_in: 1000, tokens_out: 200, cost: "null".to_string(), calls: 2 };
    let lines = spend_table(&rows, &total);
    assert_eq!(lines.len(), 5);
    assert_eq!(lines[0], format!("{:<15} {:>10} {:>11} {:>12} {:>8}", "TIER", "TOKENS_IN", "TOKENS_OUT", "COST_USD", "CALLS"));
    assert_eq!(lines[1], "-".repeat(60));
    assert_eq!(lines[2], format!("{:<15} {:>10} {:>11} {:>12} {:>8}", "haiku", 1000, 200, "0.001800", 2));
    assert_eq!(lines[3], "-".repeat(60));
    assert_eq!(lines[4], format!("{:<15} {:>10} {:>11} {:>12} {:>8}", "TOTAL", 1000, 200, "null", 2));
}
