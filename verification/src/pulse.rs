//! The `keel pulse` subcommand: one health entry per default tier, the
//! table it prints, and its exit code.

use vstd::prelude::*;
use crate::ladder::{all_default_tiers, default_ladder, default_names, lemma_default_names_distinct, resolve_ladder, resolved};
use crate::probe::{ProbeEnv, TierProbe};
use crate::text::{int_text, nat_text, owned, padded, push_i64, push_padded, push_str, push_u64, push_char};
use crate::types::{
    configs_view, contains_name, healths_view, last_match, lemma_last_match, lemma_last_match_unique, names_view,
    unprobed, ConfigView, HealthView, Ladder, StatusView, TierHealth, TierStatus,
};

verus! {

broadcast use vstd::string::group_string_axioms;

/// Output format for `keel pulse`.
#[derive(Debug, Clone, Copy, PartialEq, Eq)]
pub enum OutputFormat {
    /// Human-readable table.
    Table,
    /// Machine-readable JSON (one TierHealth per configured tier).
    Json,
}

/// The names a run added to a probe's log are tiers of the resolved ladder
/// that are not skipped, each at most once; the earlier log is kept.
pub open spec fn probes_within(
    before: Seq<Seq<char>>,
    after: Seq<Seq<char>>,
    skip: Seq<Seq<char>>,
    ladder: Seq<ConfigView>,
) -> bool {
    &&& before.len() <= after.len()
    &&& after.take(before.len() as int) == before
    &&& forall|j: int| before.len() <= j < after.len() ==> !skip.contains(#[trigger] after[j]) && ladder_has(ladder, after[j])
    &&& forall|j: int, k: int| before.len() <= j < k < after.len() ==> #[trigger] after[j] != #[trigger] after[k]
}

/// Whether some tier of `ladder` is named `name`.
pub open spec fn ladder_has(ladder: Seq<ConfigView>, name: Seq<char>) -> bool {
    exists|i: int| 0 <= i < ladder.len() && #[trigger] ladder[i].name == name
}

/// The entry for default tier `t`, given the skip list and resolved ladder:
/// skipped tiers are `Skipped`, tiers outside the ladder are `Unconfigured`
/// (neither is probed), and every entry carries its tier's name.
pub open spec fn pulse_entry_ok(h: HealthView, t: ConfigView, skip: Seq<Seq<char>>, ladder: Seq<ConfigView>) -> bool {
    &&& h.tier == t.name
    &&& skip.contains(t.name) ==> h == unprobed(t.name, StatusView::Skipped)
    &&& !skip.contains(t.name) && !ladder_has(ladder, t.name) ==> h == unprobed(
        t.name,
        StatusView::Unconfigured,
    )
}

/// One entry per default tier, in ladder order, each as `pulse_entry_ok` says.
pub open spec fn pulse_consistent(r: Seq<HealthView>, skip: Seq<Seq<char>>, ladder: Seq<ConfigView>) -> bool {
    &&& r.len() == default_ladder().len()
    &&& forall|i: int| 0 <= i < r.len() ==> pulse_entry_ok(#[trigger] r[i], default_ladder()[i], skip, ladder)
}

/// The entry a probe with fixed answers yields for default tier `t` in a
/// pulse run: skipped and unconfigured tiers as `pulse_entry_ok` says, every
/// other tier the probe's answer for it under the key `key`.
pub open spec fn pulse_answer<P: TierProbe>(
    p: P,
    t: ConfigView,
    skip: Seq<Seq<char>>,
    ladder: Seq<ConfigView>,
    key: Option<Seq<char>>,
) -> HealthView {
    if skip.contains(t.name) {
        unprobed(t.name, StatusView::Skipped)
    } else if ladder_has(ladder, t.name) {
        p.answer_spec(t, key)
    } else {
        unprobed(t.name, StatusView::Unconfigured)
    }
}

/// The tier names a probe with fixed answers logs requests for over the
/// first `n` default tiers of a pulse run, in ladder order: each tier of the
/// resolved ladder that is not skipped and for which the probe sends.
pub open spec fn pulse_requests<P: TierProbe>(
    p: P,
    skip: Seq<Seq<char>>,
    ladder: Seq<ConfigView>,
    key: Option<Seq<char>>,
    n: nat,
) -> Seq<Seq<char>>
    decreases n,
{
    if n == 0 {
        Seq::empty()
    } else {
        let prev = pulse_requests(p, skip, ladder, key, (n - 1) as nat);
        let t = default_ladder()[n - 1];
        if !skip.contains(t.name) && ladder_has(ladder, t.name) && p.sends(t, key) {
            prev.push(t.name)
        } else {
            prev
        }
    }
}

/// The entries among the first `n` of `hs` whose default tier is probed in a
/// pulse run (not skipped, on the ladder), in order.
pub open spec fn probed_entries(hs: Seq<HealthView>, skip: Seq<Seq<char>>, ladder: Seq<ConfigView>, n: nat) -> Seq<
    HealthView,
>
    decreases n,
{
    if n == 0 {
        Seq::empty()
    } else {
        let prev = probed_entries(hs, skip, ladder, (n - 1) as nat);
        let t = default_ladder()[n - 1];
        if !skip.contains(t.name) && ladder_has(ladder, t.name) {
            prev.push(hs[n - 1])
        } else {
            prev
        }
    }
}

proof fn lemma_probed_entries_prefix(
    a: Seq<HealthView>,
    b: Seq<HealthView>,
    skip: Seq<Seq<char>>,
    ladder: Seq<ConfigView>,
    n: nat,
)
    requires
        n <= a.len(),
        n <= b.len(),
        forall|j: int| 0 <= j < n ==> a[j] == b[j],
    ensures
        probed_entries(a, skip, ladder, n) == probed_entries(b, skip, ladder, n),
    decreases n,
{
    if n > 0 {
        lemma_probed_entries_prefix(a, b, skip, ladder, (n - 1) as nat);
    }
}

fn ladder_contains(ladder: &Ladder, name: &str) -> (r: bool)
    ensures
        r == ladder_has(ladder@, name@),
{
    let mut i: usize = 0;
    while i < ladder.tiers.len()
        invariant
            i <= ladder.tiers@.len(),
            forall|j: int| 0 <= j < i ==> ladder@[j].name != name@,
        decreases ladder.tiers.len() - i,
    {
        assert(ladder@[i as int] == ladder.tiers@[i as int]@);
        if crate::text::str_eq(ladder.tiers[i].name.as_str(), name) {
            assert(ladder@[i as int].name == name@);
            return true;
        }
        i += 1;
    }
    false
}

/// Run the pulse check against the ladder.
///
/// Returns one `TierHealth` per default tier, in ladder order. Tiers named
/// in the skip list are `Skipped` and tiers above the max cut are
/// `Unconfigured`; neither is probed. Every other tier gets the probe's answer.
/// With a fixture environment and a probe whose answers are fixed, each entry
/// is that answer and the probe's log grows by exactly the tiers it sends a
/// request for, in ladder order.
pub fn run_pulse<P: TierProbe, E: ProbeEnv>(probe: &mut P, env: &E) -> (r: Vec<TierHealth>)
    ensures
        r@.len() == 5,
        forall|i: int| 0 <= i < 5 ==> #[trigger] r@[i].tier@ == default_names()[i],
        final(probe).keeps_log() == old(probe).keeps_log(),
        env.is_fixture() ==> pulse_consistent(healths_view(r@), env.skip_spec(), resolved(env.skip_spec(), env.max_spec())),
        env.is_fixture() && old(probe).keeps_log() ==> probes_within(
            old(probe).probed(),
            final(probe).probed(),
            env.skip_spec(),
            resolved(env.skip_spec(), env.max_spec()),
        ),
        final(probe).keeps_answers() == old(probe).keeps_answers(),
        exists|skip: Seq<Seq<char>>, skip2: Seq<Seq<char>>, max: Option<Seq<char>>|
            #[trigger] pulse_consistent(healths_view(r@), skip, resolved(skip2, max)) && (old(probe).keeps_log()
                ==> probes_within(old(probe).probed(), final(probe).probed(), skip, resolved(skip2, max))) && (old(
                probe,
            ).keeps_answers() ==> final(probe).answered() == old(probe).answered() + probed_entries(
                healths_view(r@),
                skip,
                resolved(skip2, max),
                5,
            )),
        env.is_fixture() && old(probe).keeps_answers() ==> final(probe).answered() == old(probe).answered()
            + probed_entries(healths_view(r@), env.skip_spec(), resolved(env.skip_spec(), env.max_spec()), 5),
        env.is_fixture() && old(probe).answers() ==> forall|i: int| 0 <= i < 5 ==> #[trigger] healths_view(r@)[i] == pulse_answer(
            *old(probe),
            default_ladder()[i],
            env.skip_spec(),
            resolved(env.skip_spec(), env.max_spec()),
            env.key_spec(),
        ),
        env.is_fixture() && old(probe).answers() && old(probe).keeps_log() ==> final(probe).probed() == old(probe).probed()
            + pulse_requests(*old(probe), env.skip_spec(), resolved(env.skip_spec(), env.max_spec()), env.key_spec(), 5),
{
    let skip = env.skip_tiers();
    let ladder = resolve_ladder(env);
    let ghost (skip2, max) = if env.is_fixture() {
        (env.skip_spec(), env.max_spec())
    } else {
        choose|skip2: Seq<Seq<char>>, max: Option<Seq<char>>| ladder@ == resolved(skip2, max)
    };
    let all_tiers = all_default_tiers();
    let ghost sk = names_view(skip@);
    proof {
        lemma_default_names_distinct();
    }
    let mut results: Vec<TierHealth> = Vec::new();
    assert(old(probe).probed().take(old(probe).probed().len() as int) =~= old(probe).probed());
    assert(old(probe).probed() + pulse_requests(*old(probe), sk, ladder@, env.key_spec(), 0) =~= old(probe).probed());
    assert(old(probe).answered() + probed_entries(healths_view(results@), sk, ladder@, 0) =~= old(probe).answered());
    let mut i: usize = 0;
    while i < all_tiers.len()
        invariant
            i <= all_tiers@.len(),
            configs_view(all_tiers@) == default_ladder(),
            sk == names_view(skip@),
            ladder@ == resolved(skip2, max),
            results@.len() == i,
            forall|j: int| 0 <= j < i ==> pulse_entry_ok(#[trigger] healths_view(results@)[j], default_ladder()[j], sk, ladder@),
            probe.keeps_log() == old(probe).keeps_log(),
            old(probe).keeps_log() ==> probes_within(old(probe).probed(), probe.probed(), sk, ladder@),
            old(probe).keeps_log() ==> forall|q: int| old(probe).probed().len() <= q < probe.probed().len() ==> exists|j: int|
                0 <= j < i && #[trigger] probe.probed()[q] == default_names()[j],
            forall|a: int, b: int| 0 <= a < 5 && 0 <= b < 5 && a != b ==> #[trigger] default_names()[a] != #[trigger] default_names()[b],
            forall|a: int| 0 <= a < 5 ==> #[trigger] default_ladder()[a].name == default_names()[a],
            probe.answers() == old(probe).answers(),
            probe.keeps_answers() == old(probe).keeps_answers(),
            old(probe).keeps_answers() ==> probe.answered() == old(probe).answered() + probed_entries(
                healths_view(results@),
                sk,
                ladder@,
                i as nat,
            ),
            old(probe).answers() ==> forall|t: ConfigView, k: Option<Seq<char>>| #[trigger] probe.answer_spec(t, k)
                == old(probe).answer_spec(t, k),
            old(probe).answers() ==> forall|t: ConfigView, k: Option<Seq<char>>| #[trigger] probe.sends(t, k)
                == old(probe).sends(t, k),
            env.is_fixture() ==> sk == env.skip_spec() && ladder@ == resolved(env.skip_spec(), env.max_spec()),
            env.is_fixture() && old(probe).answers() ==> forall|j: int| 0 <= j < i ==> #[trigger] healths_view(results@)[j]
                == pulse_answer(*old(probe), default_ladder()[j], sk, ladder@, env.key_spec()),
            env.is_fixture() && old(probe).answers() && old(probe).keeps_log() ==> probe.probed() == old(probe).probed()
                + pulse_requests(*old(probe), sk, ladder@, env.key_spec(), i as nat),
        decreases all_tiers.len() - i,
    {
        let ghost log_before = probe.probed();
        let ghost pb = *probe;
        let tier = &all_tiers[i];
        assert(default_ladder()[i as int] == tier@);
        let skipped = contains_name(&skip, tier.name.as_str());
        let in_ladder = ladder_contains(&ladder, tier.name.as_str());
        let health = if skipped {
            TierHealth { tier: tier.name.clone(), status: TierStatus::Skipped, checked_at: 0, consecutive_failures: 0 }
        } else if in_ladder {
            probe.probe(tier, env)
        } else {
            TierHealth {
                tier: tier.name.clone(),
                status: TierStatus::Unconfigured,
                checked_at: 0,
                consecutive_failures: 0,
            }
        };
        assert(pulse_entry_ok(health@, tier@, sk, ladder@));
        proof {
            if env.is_fixture() && old(probe).answers() {
                assert(health@ == pulse_answer(*old(probe), tier@, sk, ladder@, env.key_spec()));
                if old(probe).keeps_log() {
                    let prev = pulse_requests(*old(probe), sk, ladder@, env.key_spec(), i as nat);
                    let next = pulse_requests(*old(probe), sk, ladder@, env.key_spec(), (i + 1) as nat);
                    assert(next == if !sk.contains(tier.name@) && ladder_has(ladder@, tier.name@) && old(probe).sends(
                        tier@,
                        env.key_spec(),
                    ) {
                        prev.push(tier.name@)
                    } else {
                        prev
                    });
                    assert((old(probe).probed() + prev).push(tier.name@) =~= old(probe).probed() + prev.push(tier.name@));
                    assert(probe.probed() == old(probe).probed() + next);
                }
            }
        }
        proof {
            if old(probe).keeps_log() && probe.probed() != log_before {
                let ol = old(probe).probed();
                let nl = probe.probed();
                assert(nl == log_before.push(tier.name@));
                assert(nl.take(ol.len() as int) =~= log_before.take(ol.len() as int));
                assert forall|q: int| ol.len() <= q < nl.len() implies exists|j: int|
                    0 <= j < i + 1 && #[trigger] nl[q] == default_names()[j] by {
                    if q < log_before.len() {
                        assert(nl[q] == log_before[q]);
                    } else {
                        assert(nl[q] == default_names()[i as int]);
                    }
                }
                assert forall|j: int, k: int| ol.len() <= j < k < nl.len() implies #[trigger] nl[j] != #[trigger] nl[k] by {
                    if k == nl.len() - 1 {
                        assert(nl[k] == default_names()[i as int]);
                        assert(nl[j] == log_before[j]);
                        let jj = choose|jj: int| 0 <= jj < i && #[trigger] log_before[j] == default_names()[jj];
                    } else {
                        assert(nl[j] == log_before[j]);
                        assert(nl[k] == log_before[k]);
                    }
                }
                assert forall|j: int| ol.len() <= j < nl.len() implies !sk.contains(#[trigger] nl[j]) && ladder_has(ladder@, nl[j]) by {
                    if j < log_before.len() {
                        assert(nl[j] == log_before[j]);
                    } else {
                        assert(nl[j] == tier.name@);
                    }
                }
            }
            if old(probe).keeps_log() && probe.probed() == log_before {
                let ol = old(probe).probed();
                let nl = probe.probed();
                assert forall|q: int| ol.len() <= q < nl.len() implies exists|j: int|
                    0 <= j < i + 1 && #[trigger] nl[q] == default_names()[j] by {
                    let jj = choose|jj: int| 0 <= jj < i && #[trigger] nl[q] == default_names()[jj];
                }
            }
        }
        let ghost old_results = results@;
        results.push(health);
        assert(healths_view(results@)[i as int] == health@);
        assert forall|j: int| 0 <= j < i + 1 implies pulse_entry_ok(
            #[trigger] healths_view(results@)[j],
            default_ladder()[j],
            sk,
            ladder@,
        ) by {
            if j < i {
                assert(healths_view(results@)[j] == results@[j]@);
                assert(results@[j] == old_results[j]);
                assert(healths_view(old_results)[j] == old_results[j]@);
            }
        }
        proof {
            if old(probe).keeps_answers() {
                let ov = healths_view(old_results);
                let nv = healths_view(results@);
                assert forall|j: int| 0 <= j < i implies ov[j] == nv[j] by {
                    assert(ov[j] == old_results[j]@);
                    assert(nv[j] == results@[j]@);
                    assert(results@[j] == old_results[j]);
                }
                lemma_probed_entries_prefix(ov, nv, sk, ladder@, i as nat);
                let prev = probed_entries(nv, sk, ladder@, i as nat);
                if !sk.contains(tier.name@) && ladder_has(ladder@, tier.name@) {
                    assert((old(probe).answered() + prev).push(health@) =~= old(probe).answered() + prev.push(health@));
                }
                assert(probe.answered() == old(probe).answered() + probed_entries(nv, sk, ladder@, (i + 1) as nat));
            }
        }
        proof {
            if env.is_fixture() && old(probe).answers() {
                assert forall|j: int| 0 <= j < i + 1 implies #[trigger] healths_view(results@)[j] == pulse_answer(
                    *old(probe),
                    default_ladder()[j],
                    sk,
                    ladder@,
                    env.key_spec(),
                ) by {
                    if j < i {
                        assert(healths_view(results@)[j] == results@[j]@);
                        assert(results@[j] == old_results[j]);
                        assert(healths_view(old_results)[j] == old_results[j]@);
                    }
                }
            }
        }
        i += 1;
    }
    assert(pulse_consistent(healths_view(results@), sk, resolved(skip2, max)));
    assert(old(probe).keeps_log() ==> probes_within(old(probe).probed(), probe.probed(), sk, resolved(skip2, max)));
    assert forall|j: int| 0 <= j < 5 implies #[trigger] results@[j].tier@ == default_names()[j] by {
        assert(healths_view(results@)[j] == results@[j]@);
    }
    results
}

// ---------------------------------------------------------------------------
// Exit code
// ---------------------------------------------------------------------------

/// The entry is part of the active ladder (neither `Skipped` nor `Unconfigured`).
pub open spec fn is_active(h: HealthView) -> bool {
    !h.status.inactive()
}

/// 0 when the highest active entry is `Reachable`, 1 otherwise (also when
/// there is no active entry).
pub open spec fn exit_code_spec(hs: Seq<HealthView>) -> i32 {
    let a = last_match(hs, |h: HealthView| is_active(h));
    if a >= 0 && hs[a].status is Reachable {
        0
    } else {
        1
    }
}

/// Compute exit code: 0 if top active tier is Reachable, 1 otherwise.
pub fn exit_code(results: &Vec<TierHealth>) -> (code: i32)
    ensures
        code == exit_code_spec(healths_view(results@)),
{
    let ghost hs = healths_view(results@);
    let ghost p = |h: HealthView| is_active(h);
    let mut i: usize = results.len();
    while i > 0
        invariant
            i <= results@.len(),
            hs == healths_view(results@),
            p == (|h: HealthView| is_active(h)),
            forall|j: int| i <= j < results@.len() ==> !p(#[trigger] hs[j]),
        decreases i,
    {
        i -= 1;
        assert(hs[i as int] == results@[i as int]@);
        if !results[i].status.is_inactive_status() {
            proof {
                lemma_last_match_unique(hs, p, i as int);
            }
            if results[i].status.is_reachable() {
                return 0;
            } else {
                return 1;
            }
        }
    }
    proof {
        lemma_last_match_unique(hs, p, -1);
    }
    1
}

// ---------------------------------------------------------------------------
// Table rendering
// ---------------------------------------------------------------------------

/// The status column's text.
pub open spec fn status_label_spec(s: StatusView) -> Seq<char> {
    match s {
        StatusView::Reachable => "reachable"@,
        StatusView::Unreachable { reason } => "unreachable("@ + reason + ")"@,
        StatusView::Keyless => "keyless"@,
        StatusView::Exhausted => "exhausted"@,
        StatusView::Unconfigured => "unconfigured"@,
        StatusView::Skipped => "skipped"@,
    }
}

/// The status column's text for `s`.
pub fn status_label(s: &TierStatus) -> (r: String)
    ensures
        r@ == status_label_spec(s@),
{
    match s {
        TierStatus::Reachable => owned("reachable"),
        TierStatus::Unreachable { reason } => {
            let mut t = owned("unreachable(");
            push_str(&mut t, reason.as_str());
            push_str(&mut t, ")");
            t
        },
        TierStatus::Keyless => owned("keyless"),
        TierStatus::Exhausted => owned("exhausted"),
        TierStatus::Unconfigured => owned("unconfigured"),
        TierStatus::Skipped => owned("skipped"),
    }
}

/// The table's header line.
pub open spec fn pulse_header() -> Seq<char> {
    padded("TIER"@, 15) + " "@ + padded("STATUS"@, 15) + " "@ + padded("CHECKED"@, 12) + " "@ + "FAILS"@
}

/// The rule under the header: 55 dashes.
pub open spec fn pulse_rule() -> Seq<char> {
    Seq::new(55, |i: int| '-')
}

/// One table row: tier, status, check time, failure count.
pub open spec fn pulse_row(h: HealthView) -> Seq<char> {
    padded(h.tier, 15) + " "@ + padded(status_label_spec(h.status), 15) + " "@ + padded(int_text(h.checked_at as int), 12)
        + " "@ + nat_text(h.consecutive_failures as nat)
}

fn row_text(h: &TierHealth) -> (r: String)
    ensures
        r@ == pulse_row(h@),
{
    let mut r = String::new();
    push_padded(&mut r, h.tier.as_str(), 15);
    push_str(&mut r, " ");
    let label = status_label(&h.status);
    push_padded(&mut r, label.as_str(), 15);
    push_str(&mut r, " ");
    let mut when = String::new();
    push_i64(&mut when, h.checked_at);
    push_padded(&mut r, when.as_str(), 12);
    push_str(&mut r, " ");
    push_u64(&mut r, h.consecutive_failures as u64);
    assert(r@ =~= pulse_row(h@));
    r
}

/// The lines `keel pulse` prints as a table: header, rule, one row per entry.
pub fn pulse_table(results: &Vec<TierHealth>) -> (lines: Vec<String>)
    ensures
        lines@.len() == results@.len() + 2,
        lines@[0]@ == pulse_header(),
        lines@[1]@ == pulse_rule(),
        forall|i: int| 0 <= i < results@.len() ==> #[trigger] lines@[i + 2]@ == pulse_row(results@[i]@),
{
    let mut lines: Vec<String> = Vec::new();
    let mut head = String::new();
    push_padded(&mut head, "TIER", 15);
    push_str(&mut head, " ");
    push_padded(&mut head, "STATUS", 15);
    push_str(&mut head, " ");
    push_padded(&mut head, "CHECKED", 12);
    push_str(&mut head, " ");
    push_str(&mut head, "FAILS");
    assert(head@ =~= pulse_header());
    lines.push(head);
    let mut rule = String::new();
    let mut k: usize = 0;
    while k < 55
        invariant
            k <= 55,
            rule@ == Seq::new(k as nat, |i: int| '-'),
        decreases 55 - k,
    {
        push_char(&mut rule, '-');
        assert(rule@ =~= Seq::new((k + 1) as nat, |i: int| '-'));
        k += 1;
    }
    lines.push(rule);
    let mut i: usize = 0;
    while i < results.len()
        invariant
            i <= results@.len(),
            lines@.len() == i + 2,
            lines@[0]@ == pulse_header(),
            lines@[1]@ == pulse_rule(),
            forall|j: int| 0 <= j < i ==> #[trigger] lines@[j + 2]@ == pulse_row(results@[j]@),
        decreases results.len() - i,
    {
        let row = row_text(&results[i]);
        lines.push(row);
        i += 1;
    }
    lines
}


} // verus!
