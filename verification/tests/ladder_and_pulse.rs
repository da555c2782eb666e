//! Ladder resolution, the pulse table and exit code, and the probe rules.

use keel::ladder::{all_default_tiers, resolve_ladder, resolve_ladder_from};
use keel::probe::{
    cloud_status, http_health, keyless_short_circuit, local_status, models_url, nonempty_value, parse_skip_list, FakeProbe,
    FakeProbeEnv, HttpOutcome, TierProbe,
};
use keel::pulse::{exit_code, pulse_table, run_pulse, status_label};
use keel::types::{Ladder, TierConfig, TierHealth, TierKind, TierStatus};

fn names(l: &Ladder) -> Vec<String> {
    l.tiers.iter().map(|t| t.name.clone()).collect()
}

fn health(tier: &str, status: TierStatus) -> TierHealth {
    TierHealth { tier: tier.to_string(), status, checked_at: 0, consecutive_failures: 0 }
}

#[test]
fn default_ladder_is_five_rungs_in_order() {
    let tiers = all_default_tiers();
    let names: Vec<&str> = tiers.iter().map(|t| t.name.as_str()).collect();
    assert_eq!(names, vec!["local-3b", "local-8b", "haiku", "sonnet", "opus"]);
    assert_eq!(tiers[0].kind, TierKind::Local);
    assert_eq!(tiers[0].endpoint, "http://localhost:11434");
    assert_eq!(tiers[4].kind, TierKind::Cloud);
    assert_eq!(tiers[4].endpoint, "https://api.anthropic.com");
}

#[test]
fn skip_and_max_cut_the_ladder() {
    let l = resolve_ladder_from(&vec!["local-8b".to_string()], &Some("sonnet".to_string()));
    assert_eq!(names(&l), vec!["local-3b", "haiku", "sonnet"]);
    assert_eq!(l.top().map(|t| t.name.as_str()), Some("sonnet"));
}

#[test]
fn skipped_max_tier_still_cuts_above_it() {
    let l = resolve_ladder_from(&vec!["haiku".to_string()], &Some("haiku".to_string()));
    assert_eq!(names(&l), vec!["local-3b", "local-8b"]);
}

#[test]
fn unknown_max_tier_cuts_nothing() {
    let l = resolve_ladder_from(&vec![], &Some("gpt".to_string()));
    assert_eq!(names(&l).len(), 5);
}

#[test]
fn resolve_ladder_reads_the_env() {
    let env = FakeProbeEnv { key: None, skip: vec!["opus".to_string()], max: Some("local-8b".to_string()) };
    let l = resolve_ladder(&env);
    assert_eq!(names(&l), vec!["local-3b", "local-8b"]);
}

#[test]
fn empty_ladder_has_no_top() {
    let l = Ladder { tiers: vec![] };
    assert!(l.top().is_none());
}

#[test]
fn tiers_above_max_are_unconfigured_and_not_probed() {
    let mut probe = FakeProbe::new();
    let env = FakeProbeEnv { key: Some("k".to_string()), skip: vec![], max: Some("haiku".to_string()) };
    let results = run_pulse(&mut probe, &env);
    assert_eq!(results[3].status, TierStatus::Unconfigured);
    assert_eq!(results[4].status, TierStatus::Unconfigured);
    let probed: Vec<String> = probe.recorded_calls().iter().map(|c| c.tier_name.clone()).collect();
    assert_eq!(probed, vec!["local-3b", "local-8b", "haiku"]);
    assert_eq!(exit_code(&results), 0);
}

#[test]
fn exit_code_without_active_tiers_is_one() {
    assert_eq!(exit_code(&vec![]), 1);
    let all_skipped = vec![health("local-3b", TierStatus::Skipped), health("opus", TierStatus::Unconfigured)];
    assert_eq!(exit_code(&all_skipped), 1);
}

#[test]
fn exit_code_looks_at_top_active_tier_only() {
    let hs = vec![
        health("local-3b", TierStatus::Unreachable { reason: "down".to_string() }),
        health("haiku", TierStatus::Reachable),
        health("opus", TierStatus::Skipped),
    ];
    assert_eq!(exit_code(&hs), 0);
}

#[test]
fn pulse_table_lines() {
    let hs = vec![
        TierHealth {
            tier: "local-3b".to_string(),
            status: TierStatus::Unreachable { reason: "x".to_string() },
            checked_at: -5,
            consecutive_failures: 3,
        },
        health("haiku", TierStatus::Keyless),
    ];
    let lines = pulse_table(&hs);
    assert_eq!(lines.len(), 4);
    assert_eq!(lines[0], format!("{:<15} {:<15} {:<12} {}", "TIER", "STATUS", "CHECKED", "FAILS"));
    assert_eq!(lines[1], "-".repeat(55));
    assert_eq!(lines[2], format!("{:<15} {:<15} {:<12} {}", "local-3b", "unreachable(x)", -5, 3));
    assert_eq!(lines[3], format!("{:<15} {:<15} {:<12} {}", "haiku", "keyless", 0, 0));
}

#[test]
fn status_labels() {
    assert_eq!(status_label(&TierStatus::Reachable), "reachable");
    assert_eq!(status_label(&TierStatus::Unreachable { reason: "timeout".to_string() }), "unreachable(timeout)");
    assert_eq!(status_label(&TierStatus::Keyless), "keyless");
    assert_eq!(status_label(&TierStatus::Exhausted), "exhausted");
    assert_eq!(status_label(&TierStatus::Unconfigured), "unconfigured");
    assert_eq!(status_label(&TierStatus::Skipped), "skipped");
}

#[test]
fn models_url_drops_trailing_slashes() {
    assert_eq!(models_url("http://localhost:11434"), "http://localhost:11434/v1/models");
    assert_eq!(models_url("https://api.anthropic.com//"), "https://api.anthropic.com/v1/models");
    assert_eq!(models_url(""), "/v1/models");
}

#[test]
fn cloud_responses_map_to_statuses() {
    assert_eq!(cloud_status(HttpOutcome::Success), TierStatus::Reachable);
    let auth = TierStatus::Unreachable { reason: "auth rejected (401/403)".to_string() };
    assert_eq!(cloud_status(HttpOutcome::Status(401)), auth);
    assert_eq!(cloud_status(HttpOutcome::Status(403)), auth);
    assert_eq!(cloud_status(HttpOutcome::Status(429)), TierStatus::Exhausted);
    assert_eq!(cloud_status(HttpOutcome::Status(402)), TierStatus::Exhausted);
    assert_eq!(
        cloud_status(HttpOutcome::Status(500)),
        TierStatus::Unreachable { reason: "HTTP 500".to_string() }
    );
    assert_eq!(
        cloud_status(HttpOutcome::Transport("timed out".to_string())),
        TierStatus::Unreachable { reason: "timed out".to_string() }
    );
}

#[test]
fn local_responses_map_to_statuses() {
    assert_eq!(local_status(HttpOutcome::Success), TierStatus::Reachable);
    assert_eq!(local_status(HttpOutcome::Status(429)), TierStatus::Exhausted);
    assert_eq!(local_status(HttpOutcome::Status(402)), TierStatus::Exhausted);
    assert_eq!(
        local_status(HttpOutcome::Status(401)),
        TierStatus::Unreachable { reason: "HTTP 401".to_string() }
    );
}

#[test]
fn only_keyless_cloud_tiers_short_circuit() {
    assert!(keyless_short_circuit(TierKind::Cloud, &None));
    assert!(!keyless_short_circuit(TierKind::Cloud, &Some("k".to_string())));
    assert!(!keyless_short_circuit(TierKind::Local, &None));
}

#[test]
fn skip_list_parsing() {
    assert_eq!(parse_skip_list(" local-8b , ,haiku,"), vec!["local-8b", "haiku"]);
    assert!(parse_skip_list("").is_empty());
    assert_eq!(parse_skip_list("opus"), vec!["opus"]);
}

#[test]
fn empty_values_read_as_unset() {
    assert_eq!(nonempty_value(String::new()), None);
    assert_eq!(nonempty_value("sk".to_string()), Some("sk".to_string()));
}

#[test]
fn fake_probe_answers_configured_status_and_records_call() {
    let mut probe = FakeProbe::default();
    probe.responses.insert("haiku".to_string(), TierStatus::Exhausted);
    let old = probe.responses.insert("haiku".to_string(), TierStatus::Keyless);
    assert_eq!(old, Some(TierStatus::Exhausted));
    let env = FakeProbeEnv { key: Some("k".to_string()), skip: vec![], max: None };
    let tier = TierConfig {
        name: "haiku".to_string(),
        kind: TierKind::Cloud,
        endpoint: "https://api.anthropic.com".to_string(),
    };
    let h = probe.probe(&tier, &env);
    assert_eq!(h.status, TierStatus::Keyless);
    assert_eq!(probe.recorded_calls().len(), 1);
    assert_eq!(probe.recorded_calls()[0].path, "/v1/models");
}

#[test]
fn skipped_max_tier_leaves_tiers_above_unconfigured() {
    let mut probe = FakeProbe::new();
    let env = FakeProbeEnv {
        key: Some("k".to_string()),
        skip: vec!["haiku".to_string()],
        max: Some("haiku".to_string()),
    };
    let results = run_pulse(&mut probe, &env);
    assert_eq!(results[2].status, TierStatus::Skipped);
    assert_eq!(results[3].status, TierStatus::Unconfigured);
    assert_eq!(results[4].status, TierStatus::Unconfigured);
    let probed: Vec<String> = probe.recorded_calls().iter().map(|c| c.tier_name.clone()).collect();
    assert_eq!(probed, vec!["local-3b", "local-8b"]);
}

#[test]
fn http_health_follows_tier_kind() {
    let cloud = TierConfig { name: "opus".to_string(), kind: TierKind::Cloud, endpoint: "https://api.anthropic.com".to_string() };
    let local = TierConfig { name: "local-3b".to_string(), kind: TierKind::Local, endpoint: "http://localhost:11434".to_string() };
    let h = http_health(&cloud, None, 7);
    assert_eq!(h, TierHealth { tier: "opus".to_string(), status: TierStatus::Keyless, checked_at: 7, consecutive_failures: 0 });
    assert_eq!(
        http_health(&cloud, Some(HttpOutcome::Status(401)), 7).status,
        TierStatus::Unreachable { reason: "auth rejected (401/403)".to_string() }
    );
    assert_eq!(
        http_health(&local, Some(HttpOutcome::Status(401)), 7).status,
        TierStatus::Unreachable { reason: "HTTP 401".to_string() }
    );
    assert_eq!(http_health(&local, Some(HttpOutcome::Success), 9).checked_at, 9);
}

#[test]
fn fake_probe_keeps_every_answer_it_gave() {
    let mut probe = FakeProbe::new();
    let env = FakeProbeEnv { key: None, skip: vec!["local-8b".to_string()], max: Some("sonnet".to_string()) };
    let results = run_pulse(&mut probe, &env);
    assert_eq!(probe.answered, vec![results[0].clone(), results[2].clone(), results[3].clone()]);
    assert_eq!(probe.answered[1].status, TierStatus::Keyless);
}
