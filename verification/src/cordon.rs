//! Cordon — skip re-discovering a known-dead tier every turn.
//!
//! A [`Cordon`] holds per-tier cooldown state so that a known-dead rung is
//! *skipped* until its cooldown expires (half-open probe), rather than
//! attempted blindly every turn. `now` is always a parameter, so every
//! decision is a function of the state and the time.

use vstd::prelude::*;
use vstd::arithmetic::power2::{pow2, lemma2_to64_rest, lemma_pow2_strictly_increases};
use crate::names::{sorted_keys, NameMap};
use crate::text::{int_text, lex_lt, owned, push_i64, push_str};
use crate::types::{healths_view, HealthView, StatusView, TierHealth, TierStatus};

verus! {

broadcast use vstd::string::group_string_axioms;

// ---------------------------------------------------------------------------
// Configuration
// ---------------------------------------------------------------------------

/// Cooldown configuration for the [`Cordon`].
///
/// `base_secs` is the base cooldown for the first failure (2^0 * base).
/// `max_secs` caps the exponential growth.
/// `keyless_via_cooldown` controls whether a `Keyless` tier is skipped via
/// cooldown or rechecked each call (default: recheck each call since it's free).
#[derive(Debug, Clone, Copy, PartialEq, Eq)]
pub struct CordonConfig {
    /// Base cooldown in seconds (first failure → this many seconds).
    pub base_secs: i64,
    /// Maximum cooldown ceiling in seconds.
    pub max_secs: i64,
    /// If true, `Keyless` tiers skip via cooldown like other failures.
    /// If false (default), `Keyless` is rechecked each call.
    pub keyless_via_cooldown: bool,
}

impl Default for CordonConfig {
    fn default() -> (c: Self)
        ensures
            c.base_secs == 60,
            c.max_secs == 3600,
            !c.keyless_via_cooldown,
    {
        CordonConfig { base_secs: 60, max_secs: 3_600, keyless_via_cooldown: false }
    }
}

// ---------------------------------------------------------------------------
// Decision
// ---------------------------------------------------------------------------

/// The result of [`Cordon::should_attempt`].
#[derive(Debug, PartialEq, Eq)]
pub enum Decision {
    /// Go ahead and attempt this tier.
    Attempt,
    /// Skip this tier; cooldown not yet expired.
    Skip {
        /// Human-readable reason for the skip.
        reason: String,
        /// Unix timestamp (seconds) after which a re-probe is allowed.
        /// `None` means "recheck each call" (e.g., keyless without cooldown).
        retry_after: Option<i64>,
    },
}

/// The model of a [`Decision`].
pub enum DecisionView {
    /// Attempt.
    Attempt,
    /// Skip, with the reason's chars.
    Skip { reason: Seq<char>, retry_after: Option<i64> },
}

impl View for Decision {
    type V = DecisionView;

    open spec fn view(&self) -> DecisionView {
        match self {
            Decision::Attempt => DecisionView::Attempt,
            Decision::Skip { reason, retry_after } => DecisionView::Skip { reason: reason@, retry_after: *retry_after },
        }
    }
}

// ---------------------------------------------------------------------------
// Per-tier entry
// ---------------------------------------------------------------------------

/// Per-tier cordon state.
#[derive(Debug, PartialEq, Eq)]
pub struct TierCordonState {
    /// Tier name.
    pub tier: String,
    /// Number of consecutive failures recorded since the last success.
    pub consecutive_failures: u32,
    /// Unix timestamp (seconds) before which this tier is cordoned.
    /// `None` means no active cooldown.
    pub cooldown_until: Option<i64>,
    /// The underlying tier status that triggered the cordon (if any).
    pub status: TierStatus,
}

/// The model of a [`TierCordonState`].
pub struct CordonStateView {
    /// Tier name.
    pub tier: Seq<char>,
    /// Consecutive failures.
    pub consecutive_failures: u32,
    /// End of the cooldown.
    pub cooldown_until: Option<i64>,
    /// Status.
    pub status: StatusView,
}

impl View for TierCordonState {
    type V = CordonStateView;

    open spec fn view(&self) -> CordonStateView {
        CordonStateView {
            tier: self.tier@,
            consecutive_failures: self.consecutive_failures,
            cooldown_until: self.cooldown_until,
            status: self.status@,
        }
    }
}

impl Clone for TierCordonState {
    fn clone(&self) -> (r: Self)
        ensures
            r == *self,
    {
        TierCordonState {
            tier: self.tier.clone(),
            consecutive_failures: self.consecutive_failures,
            cooldown_until: self.cooldown_until,
            status: self.status.clone(),
        }
    }
}

/// A fresh entry: no failures, no cooldown.
pub open spec fn fresh_view(tier: Seq<char>, status: StatusView) -> CordonStateView {
    CordonStateView { tier, consecutive_failures: 0, cooldown_until: None, status }
}

impl TierCordonState {
    /// Create a fresh (no failures) entry for a tier.
    fn fresh(tier: String, status: TierStatus) -> (s: Self)
        ensures
            s@ == fresh_view(tier@, status@),
    {
        Self { tier, consecutive_failures: 0, cooldown_until: None, status }
    }
}

// ---------------------------------------------------------------------------
// The rules
// ---------------------------------------------------------------------------

/// `x` clamped to the `i64` range (saturating arithmetic).
pub open spec fn sat_i64(x: int) -> int {
    if x > i64::MAX {
        i64::MAX as int
    } else if x < i64::MIN {
        i64::MIN as int
    } else {
        x
    }
}

/// Cooldown after the `n`-th consecutive failure: `base * 2^(n-1)` (exponent
/// at most 62, product saturating), capped at `max_secs`.
pub open spec fn cooldown_secs(cfg: CordonConfig, n: u32) -> int {
    let e: nat = if n == 0 {
        0
    } else if n - 1 > 62 {
        62
    } else {
        (n - 1) as nat
    };
    let raw = sat_i64(cfg.base_secs * pow2(e));
    if raw <= cfg.max_secs {
        raw
    } else {
        cfg.max_secs as int
    }
}

/// Skip while a recorded cooldown runs; attempt once it has expired
/// (half-open) or when none is recorded yet.
pub open spec fn cooldown_decision_spec(st: CordonStateView, now: i64, reason: Seq<char>) -> DecisionView {
    match st.cooldown_until {
        None => DecisionView::Attempt,
        Some(until) => if now >= until {
            DecisionView::Attempt
        } else {
            DecisionView::Skip { reason, retry_after: Some(until) }
        },
    }
}

/// The decision for a tier with state `st` (if any) at time `now`.
pub open spec fn decide(cfg: CordonConfig, st: Option<CordonStateView>, now: i64) -> DecisionView {
    match st {
        None => DecisionView::Attempt,
        Some(s) => match s.status {
            StatusView::Reachable => DecisionView::Attempt,
            StatusView::Skipped => DecisionView::Skip { reason: "tier is statically skipped"@, retry_after: None },
            StatusView::Unconfigured => DecisionView::Skip { reason: "tier is not configured"@, retry_after: None },
            StatusView::Keyless => if cfg.keyless_via_cooldown {
                cooldown_decision_spec(s, now, "keyless — no API key"@)
            } else {
                DecisionView::Skip { reason: "keyless — no API key"@, retry_after: None }
            },
            StatusView::Exhausted => cooldown_decision_spec(s, now, "quota exhausted"@),
            StatusView::Unreachable { reason } => cooldown_decision_spec(s, now, "unreachable: "@ + reason),
        },
    }
}

/// The entry after one more failure at `now` with `status`.
pub open spec fn after_failure(
    cfg: CordonConfig,
    tier: Seq<char>,
    prev_failures: u32,
    now: i64,
    status: StatusView,
) -> CordonStateView {
    let n: u32 = if prev_failures == u32::MAX {
        u32::MAX
    } else {
        (prev_failures + 1) as u32
    };
    CordonStateView {
        tier,
        consecutive_failures: n,
        cooldown_until: Some(sat_i64(now + cooldown_secs(cfg, n)) as i64),
        status,
    }
}

/// The state map a health snapshot seeds: each entry fresh with its status;
/// a later entry for the same tier replaces an earlier one.
pub open spec fn seeded(hs: Seq<HealthView>) -> Map<Seq<char>, CordonStateView>
    decreases hs.len(),
{
    if hs.len() == 0 {
        Map::empty()
    } else {
        seeded(hs.drop_last()).insert(hs.last().tier, fresh_view(hs.last().tier, hs.last().status))
    }
}

/// Seeding from health results keeps one fresh entry per tier name that
/// occurs, holding the status of the last result with that name.
pub proof fn lemma_seeded_is_last_health(hs: Seq<HealthView>, k: Seq<char>)
    ensures
        seeded(hs).contains_key(k) <==> crate::types::last_match(hs, |h: HealthView| h.tier == k) >= 0,
        crate::types::last_match(hs, |h: HealthView| h.tier == k) >= 0 ==> seeded(hs)[k] == fresh_view(
            k,
            hs[crate::types::last_match(hs, |h: HealthView| h.tier == k)].status,
        ),
    decreases hs.len(),
{
    if hs.len() > 0 {
        lemma_seeded_is_last_health(hs.drop_last(), k);
        let p = |h: HealthView| h.tier == k;
        let j = crate::types::last_match(hs.drop_last(), p);
        if !p(hs.last()) {
            assert(crate::types::last_match(hs, p) == j);
            if j >= 0 {
                crate::types::lemma_last_match(hs.drop_last(), p);
                assert(hs[j] == hs.drop_last()[j]);
            }
        }
    }
}

// ---------------------------------------------------------------------------
// Cordon
// ---------------------------------------------------------------------------

/// Holds per-tier cordon state and evaluates skip/attempt decisions.
#[derive(Debug)]
pub struct Cordon {
    /// Per-tier state indexed by tier name.
    tiers: NameMap<TierCordonState>,
    /// Cooldown configuration.
    cfg: CordonConfig,
}

/// The model of a [`Cordon`]: per-tier states and the configuration.
pub struct CordonView {
    /// State per tier name.
    pub states: Map<Seq<char>, CordonStateView>,
    /// Configuration.
    pub cfg: CordonConfig,
}

impl View for Cordon {
    type V = CordonView;

    closed spec fn view(&self) -> CordonView {
        CordonView { states: self.tiers.as_map().map_values(|s: TierCordonState| s@), cfg: self.cfg }
    }
}

/// The state recorded for `tier`, if any.
pub open spec fn state_of(c: CordonView, tier: Seq<char>) -> Option<CordonStateView> {
    if c.states.contains_key(tier) {
        Some(c.states[tier])
    } else {
        None
    }
}

/// Every state is stored under its own tier name.
pub open spec fn keyed_by_tier(m: Map<Seq<char>, CordonStateView>) -> bool {
    forall|k: Seq<char>| #[trigger] m.contains_key(k) ==> m[k].tier == k
}

impl Cordon {
    #[verifier::type_invariant]
    closed spec fn inv(&self) -> bool {
        forall|k: Seq<char>| #[trigger] self.tiers.as_map().contains_key(k) ==> self.tiers.as_map()[k].tier@ == k
    }

    /// Create a `Cordon` from health snapshots and a config: each tier gets a
    /// fresh entry (no failures, no cooldown) holding its reported status.
    pub fn from_health(healths: &[TierHealth], cfg: &CordonConfig) -> (c: Self)
        ensures
            c@.states == seeded(healths_view(healths@)),
            c@.cfg == *cfg,
    {
        let mut tiers: NameMap<TierCordonState> = NameMap::new();
        let ghost hs = healths_view(healths@);
        let mut i: usize = 0;
        while i < healths.len()
            invariant
                i <= healths@.len(),
                hs == healths_view(healths@),
                tiers.as_map().map_values(|s: TierCordonState| s@) == seeded(hs.take(i as int)),
                forall|k: Seq<char>| #[trigger] tiers.as_map().contains_key(k) ==> tiers.as_map()[k].tier@ == k,
            decreases healths.len() - i,
        {
            let h = &healths[i];
            assert(hs[i as int] == h@);
            let entry = TierCordonState::fresh(h.tier.clone(), h.status.clone());
            let ghost before = tiers.as_map();
            tiers.insert(h.tier.clone(), entry);
            assert(hs.take(i + 1).drop_last() =~= hs.take(i as int));
            assert(tiers.as_map().map_values(|s: TierCordonState| s@) =~= seeded(hs.take(i + 1)));
            i += 1;
        }
        assert(hs.take(healths@.len() as int) =~= hs);
        Self { tiers, cfg: *cfg }
    }

    /// Create an empty `Cordon` with the given config (no tier state loaded).
    pub fn empty(cfg: CordonConfig) -> (c: Self)
        ensures
            c@.states == Map::<Seq<char>, CordonStateView>::empty(),
            c@.cfg == cfg,
    {
        let c = Self { tiers: NameMap::new(), cfg };
        assert(c@.states =~= Map::<Seq<char>, CordonStateView>::empty());
        c
    }

    /// Returns the cordon config.
    pub fn config(&self) -> (r: &CordonConfig)
        ensures
            *r == self@.cfg,
    {
        &self.cfg
    }

    /// Returns the current state for all tiers, sorted by tier name.
    pub fn states(&self) -> (r: Vec<&TierCordonState>)
        ensures
            forall|i: int| 0 <= i < r@.len() ==> #[trigger] self@.states.contains_key(r@[i].tier@) && self@.states[r@[i].tier@] == r@[i]@,
            forall|k: Seq<char>| #[trigger] self@.states.contains_key(k) ==> exists|i: int| 0 <= i < r@.len() && r@[i].tier@ == k,
            forall|i: int, j: int| 0 <= i < j < r@.len() ==> lex_lt(#[trigger] r@[i].tier@, #[trigger] r@[j].tier@),
    {
        proof {
            use_type_invariant(self);
        }
        let r = self.tiers.values();
        let ghost ks = self.tiers.key_seq();
        let ghost vs = self.tiers.value_seq();
        let ghost m = self.tiers.as_map();
        assert forall|i: int| 0 <= i < r@.len() implies r@[i].tier@ == ks[i] by {
            assert(m.contains_key(ks[i]));
        }
        assert forall|i: int| 0 <= i < r@.len() implies #[trigger] self@.states.contains_key(r@[i].tier@) && self@.states[r@[i].tier@] == r@[i]@ by {
            assert(m.contains_key(ks[i]));
        }
        assert forall|k: Seq<char>| #[trigger] self@.states.contains_key(k) implies exists|i: int| 0 <= i < r@.len() && r@[i].tier@ == k by {
            assert(m.contains_key(k));
            assert(ks.contains(k));
            let i = choose|i: int| 0 <= i < ks.len() && ks[i] == k;
            assert(r@[i].tier@ == k);
        }
        assert forall|i: int, j: int| 0 <= i < j < r@.len() implies lex_lt(#[trigger] r@[i].tier@, #[trigger] r@[j].tier@) by {
            assert(r@[i].tier@ == ks[i]);
            assert(r@[j].tier@ == ks[j]);
        }
        r
    }

    /// Evaluate whether `tier` should be attempted at time `now` (Unix seconds).
    ///
    /// - unknown tier → `Attempt` (no recorded failures);
    /// - `Reachable` → `Attempt`; `Skipped` / `Unconfigured` → `Skip` without retry time;
    /// - `Keyless` without `keyless_via_cooldown` → `Skip { retry_after: None }`;
    /// - otherwise: `Skip` while `now < cooldown_until`, `Attempt` once
    ///   `now >= cooldown_until` (half-open) or when no cooldown is recorded.
    pub fn should_attempt(&self, tier: &str, now: i64) -> (d: Decision)
        ensures
            d@ == decide(self@.cfg, state_of(self@, tier@), now),
    {
        let state = match self.tiers.get(tier) {
            None => {
                return Decision::Attempt;
            },
            Some(s) => s,
        };
        match &state.status {
            TierStatus::Reachable => Decision::Attempt,
            TierStatus::Skipped => Decision::Skip { reason: owned("tier is statically skipped"), retry_after: None },
            TierStatus::Unconfigured => Decision::Skip { reason: owned("tier is not configured"), retry_after: None },
            TierStatus::Keyless => {
                if self.cfg.keyless_via_cooldown {
                    Self::cooldown_decision(state, now, "keyless — no API key")
                } else {
                    Decision::Skip { reason: owned("keyless — no API key"), retry_after: None }
                }
            },
            TierStatus::Exhausted => Self::cooldown_decision(state, now, "quota exhausted"),
            TierStatus::Unreachable { reason } => {
                let mut msg = owned("unreachable: ");
                push_str(&mut msg, reason.as_str());
                Self::cooldown_decision(state, now, msg.as_str())
            },
        }
    }

    /// Record a failure for `tier` at time `now`, advancing the exponential
    /// cooldown. An unknown tier gets a new entry first.
    pub fn record_failure(&mut self, tier: &str, now: i64, status: TierStatus)
        ensures
            final(self)@.cfg == old(self)@.cfg,
            final(self)@.states == old(self)@.states.insert(
                tier@,
                after_failure(
                    old(self)@.cfg,
                    tier@,
                    match state_of(old(self)@, tier@) {
                        Some(s) => s.consecutive_failures,
                        None => 0,
                    },
                    now,
                    status@,
                ),
            ),
    {
        proof {
            use_type_invariant(&*self);
        }
        let mut entry = match self.tiers.get(tier) {
            Some(s) => s.clone(),
            None => TierCordonState::fresh(owned(tier), status.clone()),
        };
        entry.status = status;
        entry.consecutive_failures = if entry.consecutive_failures == u32::MAX {
            u32::MAX
        } else {
            entry.consecutive_failures + 1
        };
        let n = entry.consecutive_failures;
        let cooldown = cooldown_for(&self.cfg, n);
        entry.cooldown_until = Some(sat_add_i64(now, cooldown));
        let mut tiers: NameMap<TierCordonState> = NameMap::new();
        std::mem::swap(&mut tiers, &mut self.tiers);
        let ghost before = tiers.as_map();
        tiers.insert(owned(tier), entry);
        assert(tiers.as_map().map_values(|s: TierCordonState| s@) =~= before.map_values(|s: TierCordonState| s@).insert(
            tier@,
            entry@,
        ));
        self.tiers = tiers;
    }

    /// Record a success for `tier`, clearing all failure state and cooldown;
    /// an unknown tier stays unknown.
    pub fn record_success(&mut self, tier: &str)
        ensures
            final(self)@.cfg == old(self)@.cfg,
            final(self)@.states == (if old(self)@.states.contains_key(tier@) {
                old(self)@.states.insert(tier@, fresh_view(tier@, StatusView::Reachable))
            } else {
                old(self)@.states
            }),
    {
        proof {
            use_type_invariant(&*self);
        }
        let current = match self.tiers.get(tier) {
            Some(s) => s.clone(),
            None => {
                return;
            },
        };
        let entry = TierCordonState {
            tier: current.tier,
            consecutive_failures: 0,
            cooldown_until: None,
            status: TierStatus::Reachable,
        };
        let mut tiers: NameMap<TierCordonState> = NameMap::new();
        std::mem::swap(&mut tiers, &mut self.tiers);
        let ghost before = tiers.as_map();
        tiers.insert(owned(tier), entry);
        assert(tiers.as_map().map_values(|s: TierCordonState| s@) =~= before.map_values(|s: TierCordonState| s@).insert(
            tier@,
            fresh_view(tier@, StatusView::Reachable),
        ));
        self.tiers = tiers;
    }

    fn cooldown_decision(state: &TierCordonState, now: i64, reason: &str) -> (d: Decision)
        ensures
            d@ == cooldown_decision_spec(state@, now, reason@),
    {
        match state.cooldown_until {
            None => Decision::Attempt,
            Some(until) => {
                if now >= until {
                    Decision::Attempt
                } else {
                    Decision::Skip { reason: owned(reason), retry_after: Some(until) }
                }
            },
        }
    }
}

/// `a + b`, saturating at the `i64` bounds.
fn sat_add_i64(a: i64, b: i64) -> (r: i64)
    ensures
        r == sat_i64(a + b),
{
    match a.checked_add(b) {
        Some(s) => s,
        None => {
            if b > 0 {
                i64::MAX
            } else {
                i64::MIN
            }
        },
    }
}

/// `a * b` for `b > 0`, saturating at the `i64` bounds.
fn sat_mul_pos_i64(a: i64, b: i64) -> (r: i64)
    requires
        b > 0,
    ensures
        r == sat_i64(a * b),
{
    match a.checked_mul(b) {
        Some(p) => p,
        None => {
            if a > 0 {
                assert(a * b >= b) by (nonlinear_arith)
                    requires
                        a > 0,
                        b > 0,
                ;
                i64::MAX
            } else {
                assert(a * b <= 0) by (nonlinear_arith)
                    requires
                        a <= 0,
                        b > 0,
                ;
                i64::MIN
            }
        },
    }
}

/// The cooldown (seconds) after the `n`-th consecutive failure.
fn cooldown_for(cfg: &CordonConfig, n: u32) -> (c: i64)
    ensures
        c == cooldown_secs(*cfg, n),
{
    let exp: u32 = if n == 0 {
        0
    } else if n - 1 > 62 {
        62
    } else {
        n - 1
    };
    proof {
        lemma2_to64_rest();
        if exp < 62 {
            lemma_pow2_strictly_increases(exp as nat, 62);
        }
        vstd::bits::lemma_u64_pow2_no_overflow(exp as nat);
        vstd::bits::lemma_u64_shl_is_mul(1u64, exp as u64);
    }
    let factor: u64 = 1u64 << (exp as u64);
    assert(factor == pow2(exp as nat));
    assert(pow2(62) == 0x4000000000000000);
    assert(0 < factor <= 0x4000000000000000);
    assert((factor as i64) as int == pow2(exp as nat));
    let raw = sat_mul_pos_i64(cfg.base_secs, factor as i64);
    if raw <= cfg.max_secs {
        raw
    } else {
        cfg.max_secs
    }
}

// ---------------------------------------------------------------------------
// Display helpers for the CLI
// ---------------------------------------------------------------------------

/// The cordon table's text for a decision.
pub open spec fn decision_text(d: DecisionView) -> Seq<char> {
    match d {
        DecisionView::Attempt => "attempt"@,
        DecisionView::Skip { reason, retry_after } => match retry_after {
            None => "skip ("@ + reason + ")"@,
            Some(t) => "skip ("@ + reason + ") retry_after="@ + int_text(t as int),
        },
    }
}

/// Format a [`Decision`] for the cordon table output.
pub fn format_decision(d: &Decision) -> (s: String)
    ensures
        s@ == decision_text(d@),
{
    match d {
        Decision::Attempt => owned("attempt"),
        Decision::Skip { reason, retry_after } => {
            let mut s = owned("skip (");
            push_str(&mut s, reason.as_str());
            match retry_after {
                None => {
                    push_str(&mut s, ")");
                },
                Some(t) => {
                    push_str(&mut s, ") retry_after=");
                    push_i64(&mut s, *t);
                },
            }
            s
        },
    }
}

// ---------------------------------------------------------------------------
// Laws
// ---------------------------------------------------------------------------

/// The cooldown never exceeds `max_secs`.
pub proof fn lemma_cooldown_capped(cfg: CordonConfig, n: u32)
    ensures
        cooldown_secs(cfg, n) <= cfg.max_secs,
{
}

/// Without saturation or cap, the `n`-th consecutive failure (1 ≤ n ≤ 63)
/// cools down for `base * 2^(n-1)` seconds; the cap applies otherwise.
pub proof fn lemma_cooldown_formula(cfg: CordonConfig, n: u32)
    requires
        1 <= n <= 63,
        0 <= cfg.base_secs * pow2((n - 1) as nat) <= i64::MAX,
    ensures
        cooldown_secs(cfg, n) == if cfg.base_secs * pow2((n - 1) as nat) <= cfg.max_secs {
            cfg.base_secs * pow2((n - 1) as nat)
        } else {
            cfg.max_secs as int
        },
{
}

/// With a non-negative base, each further failure cools down at least as long.
pub proof fn lemma_cooldown_monotone(cfg: CordonConfig, n: u32)
    requires
        cfg.base_secs >= 0,
        n < u32::MAX,
    ensures
        cooldown_secs(cfg, n) <= cooldown_secs(cfg, (n + 1) as u32),
{
    let e1: nat = if n == 0 {
        0
    } else if n - 1 > 62 {
        62
    } else {
        (n - 1) as nat
    };
    let m = (n + 1) as u32;
    let e2: nat = if m - 1 > 62 {
        62
    } else {
        (m - 1) as nat
    };
    assert(e1 <= e2);
    if e1 < e2 {
        lemma_pow2_strictly_increases(e1, e2);
    }
    assert(cfg.base_secs * pow2(e1) <= cfg.base_secs * pow2(e2)) by (nonlinear_arith)
        requires
            cfg.base_secs >= 0,
            pow2(e1) <= pow2(e2),
    ;
}

/// A failure that is not `Reachable`, `Skipped`, `Unconfigured` or a
/// recheck-each-call `Keyless` cordons the tier: from the failure until the
/// cooldown ends the tier is skipped with that end as its retry time, and
/// from then on it is attempted again (half-open).
pub proof fn lemma_failure_cordons(cfg: CordonConfig, tier: Seq<char>, prev: u32, now: i64, status: StatusView, t: i64)
    requires
        status is Exhausted || status is Unreachable || (status is Keyless && cfg.keyless_via_cooldown),
    ensures
        ({
            let st = after_failure(cfg, tier, prev, now, status);
            let until = st.cooldown_until->0;
            &&& t < until ==> (decide(cfg, Some(st), t) is Skip && decide(cfg, Some(st), t)->retry_after == Some(until))
            &&& t >= until ==> decide(cfg, Some(st), t) == DecisionView::Attempt
        }),
{
}

/// After a success the tier is attempted, whatever the time.
pub proof fn lemma_success_attempts(cfg: CordonConfig, tier: Seq<char>, t: i64)
    ensures
        decide(cfg, Some(fresh_view(tier, StatusView::Reachable)), t) == DecisionView::Attempt,
{
}

/// A tier with no recorded state is attempted.
pub proof fn lemma_unknown_attempts(cfg: CordonConfig, t: i64)
    ensures
        decide(cfg, None, t) == DecisionView::Attempt,
{
}

/// A success resets the failure count, so the next failure cools down for
/// the base interval again (capped).
pub proof fn lemma_success_resets_backoff(cfg: CordonConfig, tier: Seq<char>, now: i64, status: StatusView)
    ensures
        after_failure(cfg, tier, fresh_view(tier, StatusView::Reachable).consecutive_failures, now, status).cooldown_until
            == Some(sat_i64(now + cooldown_secs(cfg, 1)) as i64),
        after_failure(cfg, tier, 0, now, status).consecutive_failures == 1,
{
}

/// An `Exhausted` or `Unreachable` tier is skipped exactly while a recorded
/// cooldown is running, with the cooldown's end as its retry time; with no
/// cooldown recorded (first contact) it is attempted at any time.
pub proof fn lemma_bad_status_waits_only_for_cooldown(cfg: CordonConfig, s: CordonStateView, t: i64)
    requires
        s.status is Exhausted || s.status is Unreachable,
    ensures
        s.cooldown_until is None ==> decide(cfg, Some(s), t) == DecisionView::Attempt,
        s.cooldown_until matches Some(u) ==> (t >= u ==> decide(cfg, Some(s), t) == DecisionView::Attempt),
        s.cooldown_until matches Some(u) ==> (t < u ==> (decide(cfg, Some(s), t) matches DecisionView::Skip {
            retry_after,
            ..
        } && retry_after == Some(u))),
{
}

} // verus!
