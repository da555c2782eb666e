//! Core shared types for the keel fleet.

use vstd::prelude::*;

verus! {

/// The health status of a single tier in the brain's ladder.
#[derive(Debug, PartialEq, Eq)]
pub enum TierStatus {
    /// Tier endpoint is reachable and (for cloud tiers) authed.
    Reachable,
    /// Tier endpoint could not be contacted.
    Unreachable {
        /// Human-readable reason (e.g. "connection refused", "timeout").
        reason: String,
    },
    /// A cloud tier that has no API key configured.
    Keyless,
    /// Tier reported quota exhaustion (HTTP 429 / 402).
    Exhausted,
    /// Tier is not present in the resolved ladder (missing from config).
    Unconfigured,
    /// Tier is explicitly excluded via `WM_BRAIN_SKIP_TIERS`.
    Skipped,
}

impl Clone for TierStatus {
    fn clone(&self) -> (r: Self)
        ensures
            r == *self,
    {
        match self {
            TierStatus::Reachable => TierStatus::Reachable,
            TierStatus::Unreachable { reason } => TierStatus::Unreachable { reason: reason.clone() },
            TierStatus::Keyless => TierStatus::Keyless,
            TierStatus::Exhausted => TierStatus::Exhausted,
            TierStatus::Unconfigured => TierStatus::Unconfigured,
            TierStatus::Skipped => TierStatus::Skipped,
        }
    }
}

/// The mathematical model of a [`TierStatus`]: the reason as chars.
pub enum StatusView {
    /// See [`TierStatus::Reachable`].
    Reachable,
    /// See [`TierStatus::Unreachable`].
    Unreachable {
        /// The reason's chars.
        reason: Seq<char>,
    },
    /// See [`TierStatus::Keyless`].
    Keyless,
    /// See [`TierStatus::Exhausted`].
    Exhausted,
    /// See [`TierStatus::Unconfigured`].
    Unconfigured,
    /// See [`TierStatus::Skipped`].
    Skipped,
}

impl StatusView {
    /// `Skipped` and `Unconfigured` mean "not part of the active ladder".
    pub open spec fn inactive(self) -> bool {
        self is Unconfigured || self is Skipped
    }
}

impl View for TierStatus {
    type V = StatusView;

    open spec fn view(&self) -> StatusView {
        match self {
            TierStatus::Reachable => StatusView::Reachable,
            TierStatus::Unreachable { reason } => StatusView::Unreachable { reason: reason@ },
            TierStatus::Keyless => StatusView::Keyless,
            TierStatus::Exhausted => StatusView::Exhausted,
            TierStatus::Unconfigured => StatusView::Unconfigured,
            TierStatus::Skipped => StatusView::Skipped,
        }
    }
}

impl TierStatus {
    /// True for the two statuses that mean "not part of the active ladder".
    pub open spec fn is_inactive(self) -> bool {
        self is Unconfigured || self is Skipped
    }

    /// Whether this status is `Reachable`.
    pub fn is_reachable(&self) -> (r: bool)
        ensures
            r == (*self is Reachable),
    {
        matches!(self, TierStatus::Reachable)
    }

    /// Whether this status is `Skipped` or `Unconfigured`.
    pub fn is_inactive_status(&self) -> (r: bool)
        ensures
            r == self.is_inactive(),
    {
        matches!(self, TierStatus::Unconfigured | TierStatus::Skipped)
    }

    /// Whether this status is `Unconfigured`.
    pub fn is_unconfigured(&self) -> (r: bool)
        ensures
            r == (*self is Unconfigured),
    {
        matches!(self, TierStatus::Unconfigured)
    }
}

/// A point-in-time health snapshot for one ladder tier.
#[derive(Debug, PartialEq, Eq)]
pub struct TierHealth {
    /// Name of the tier (e.g. `"local-3b"`, `"haiku"`, `"opus"`).
    pub tier: String,
    /// The health status of this tier.
    pub status: TierStatus,
    /// Unix timestamp (seconds) when this check was performed.
    pub checked_at: i64,
    /// How many consecutive probe failures this tier has accumulated.
    pub consecutive_failures: u32,
}

/// The mathematical model of a [`TierHealth`].
pub struct HealthView {
    /// The tier name's chars.
    pub tier: Seq<char>,
    /// The status.
    pub status: StatusView,
    /// When checked.
    pub checked_at: i64,
    /// Consecutive failures.
    pub consecutive_failures: u32,
}

impl View for TierHealth {
    type V = HealthView;

    open spec fn view(&self) -> HealthView {
        HealthView {
            tier: self.tier@,
            status: self.status@,
            checked_at: self.checked_at,
            consecutive_failures: self.consecutive_failures,
        }
    }
}

/// The models of a sequence of health values.
pub open spec fn healths_view(hs: Seq<TierHealth>) -> Seq<HealthView> {
    hs.map_values(|h: TierHealth| h@)
}

/// The chars of an optional string.
pub open spec fn opt_view(o: Option<String>) -> Option<Seq<char>> {
    match o {
        Some(s) => Some(s@),
        None => None,
    }
}

/// The models of a sequence of strings.
pub open spec fn names_view(v: Seq<String>) -> Seq<Seq<char>> {
    v.map_values(|s: String| s@)
}

/// A health entry that records a status without a probe (`checked_at` 0, no failures).
pub open spec fn unprobed(tier: Seq<char>, status: StatusView) -> HealthView {
    HealthView { tier, status, checked_at: 0, consecutive_failures: 0 }
}

/// Whether `v` holds a string with the chars of `s`.
pub fn contains_name(v: &Vec<String>, s: &str) -> (r: bool)
    ensures
        r == names_view(v@).contains(s@),
{
    let mut i: usize = 0;
    while i < v.len()
        invariant
            i <= v@.len(),
            forall|j: int| 0 <= j < i ==> v@[j]@ != s@,
        decreases v.len() - i,
    {
        if crate::text::str_eq(v[i].as_str(), s) {
            assert(names_view(v@)[i as int] == s@);
            return true;
        }
        i += 1;
    }
    assert(!names_view(v@).contains(s@)) by {
        if names_view(v@).contains(s@) {
            let j = choose|j: int| 0 <= j < names_view(v@).len() && names_view(v@)[j] == s@;
            assert(v@[j]@ == s@);
        }
    }
    false
}

impl Clone for TierHealth {
    fn clone(&self) -> (r: Self)
        ensures
            r == *self,
    {
        TierHealth {
            tier: self.tier.clone(),
            status: self.status.clone(),
            checked_at: self.checked_at,
            consecutive_failures: self.consecutive_failures,
        }
    }
}

/// The kind of a tier — determines what the probe checks.
#[derive(Debug, Clone, Copy, PartialEq, Eq)]
pub enum TierKind {
    /// A local model served via an OpenAI-compatible HTTP API.
    Local,
    /// A cloud provider (Anthropic).
    Cloud,
}

/// Configuration for a single rung in the brain's tier ladder.
#[derive(Debug, PartialEq, Eq)]
pub struct TierConfig {
    /// Tier name matching `WM_BRAIN_SKIP_TIERS` / `WM_BRAIN_MAX_TIER` values.
    pub name: String,
    /// Kind of tier.
    pub kind: TierKind,
    /// For local tiers: the base URL of the OpenAI-compatible endpoint.
    /// For cloud tiers: the Anthropic API base URL.
    pub endpoint: String,
}

/// The mathematical model of a [`TierConfig`].
pub struct ConfigView {
    /// The name's chars.
    pub name: Seq<char>,
    /// The kind.
    pub kind: TierKind,
    /// The endpoint's chars.
    pub endpoint: Seq<char>,
}

impl View for TierConfig {
    type V = ConfigView;

    open spec fn view(&self) -> ConfigView {
        ConfigView { name: self.name@, kind: self.kind, endpoint: self.endpoint@ }
    }
}

/// The models of a sequence of tier configs.
pub open spec fn configs_view(v: Seq<TierConfig>) -> Seq<ConfigView> {
    v.map_values(|t: TierConfig| t@)
}

impl Clone for TierConfig {
    fn clone(&self) -> (r: Self)
        ensures
            r == *self,
    {
        TierConfig { name: self.name.clone(), kind: self.kind, endpoint: self.endpoint.clone() }
    }
}

/// The resolved list of configured tiers after applying skip/max config.
///
/// Every keel subcommand uses this type to agree on what the rungs are.
#[derive(Debug, PartialEq, Eq)]
pub struct Ladder {
    /// Ordered tiers from lowest (local-3b) to highest (opus).
    pub tiers: Vec<TierConfig>,
}

impl View for Ladder {
    type V = Seq<ConfigView>;

    open spec fn view(&self) -> Seq<ConfigView> {
        configs_view(self.tiers@)
    }
}

// ---------------------------------------------------------------------------
// First and last positions matching a predicate
// ---------------------------------------------------------------------------

/// Index of the last element satisfying `p`, or -1.
pub open spec fn last_match<A>(s: Seq<A>, p: spec_fn(A) -> bool) -> int
    decreases s.len(),
{
    if s.len() == 0 {
        -1
    } else if p(s.last()) {
        s.len() - 1
    } else {
        last_match(s.drop_last(), p)
    }
}

/// Index of the first element satisfying `p`, or -1.
pub open spec fn first_match<A>(s: Seq<A>, p: spec_fn(A) -> bool) -> int
    decreases s.len(),
{
    if s.len() == 0 {
        -1
    } else if p(s[0]) {
        0
    } else if first_match(s.drop_first(), p) < 0 {
        -1
    } else {
        first_match(s.drop_first(), p) + 1
    }
}

/// `last_match` is the greatest index satisfying `p`.
pub proof fn lemma_last_match<A>(s: Seq<A>, p: spec_fn(A) -> bool)
    ensures
        -1 <= last_match(s, p) < s.len(),
        last_match(s, p) >= 0 ==> p(s[last_match(s, p)]),
        forall|j: int| last_match(s, p) < j < s.len() ==> !p(#[trigger] s[j]),
    decreases s.len(),
{
    if s.len() > 0 && !p(s.last()) {
        lemma_last_match(s.drop_last(), p);
        assert forall|j: int| last_match(s, p) < j < s.len() implies !p(#[trigger] s[j]) by {
            if j < s.len() - 1 {
                assert(s[j] == s.drop_last()[j]);
            }
        }
    }
}

/// `first_match` is the least index satisfying `p`.
pub proof fn lemma_first_match<A>(s: Seq<A>, p: spec_fn(A) -> bool)
    ensures
        -1 <= first_match(s, p) < s.len(),
        first_match(s, p) >= 0 ==> p(s[first_match(s, p)]),
        first_match(s, p) < 0 ==> forall|j: int| 0 <= j < s.len() ==> !p(#[trigger] s[j]),
        first_match(s, p) >= 0 ==> forall|j: int| 0 <= j < first_match(s, p) ==> !p(#[trigger] s[j]),
    decreases s.len(),
{
    if s.len() > 0 && !p(s[0]) {
        lemma_first_match(s.drop_first(), p);
        assert forall|j: int| 0 < j < s.len() implies s[j] == s.drop_first()[j - 1] by {}
    }
}

/// A greatest index satisfying `p` is `last_match`.
pub proof fn lemma_last_match_unique<A>(s: Seq<A>, p: spec_fn(A) -> bool, i: int)
    requires
        -1 <= i < s.len(),
        i >= 0 ==> p(s[i]),
        forall|j: int| i < j < s.len() ==> !p(#[trigger] s[j]),
    ensures
        last_match(s, p) == i,
{
    lemma_last_match(s, p);
    if last_match(s, p) > i {
        assert(!p(s[last_match(s, p)]));
    } else if last_match(s, p) < i {
        assert(!p(s[i]));
    }
}

/// A least index satisfying `p` is `first_match`.
pub proof fn lemma_first_match_unique<A>(s: Seq<A>, p: spec_fn(A) -> bool, i: int)
    requires
        -1 <= i < s.len(),
        i >= 0 ==> p(s[i]) && forall|j: int| 0 <= j < i ==> !p(#[trigger] s[j]),
        i < 0 ==> forall|j: int| 0 <= j < s.len() ==> !p(#[trigger] s[j]),
    ensures
        first_match(s, p) == i,
{
    lemma_first_match(s, p);
    let f = first_match(s, p);
    if i >= 0 && f >= 0 {
        if f < i {
            assert(!p(s[f]));
        } else if f > i {
            assert(!p(s[i]));
        }
    } else if i >= 0 {
        assert(!p(s[i]));
    } else if f >= 0 {
        assert(!p(s[f]));
    }
}

impl Ladder {
    /// Returns the top (highest-priority) tier, if any.
    pub fn top(&self) -> (r: Option<&TierConfig>)
        ensures
            r == (if self.tiers@.len() == 0 {
                None
            } else {
                Some(&self.tiers@.last())
            }),
    {
        let n = self.tiers.len();
        if n == 0 {
            None
        } else {
            Some(&self.tiers[n - 1])
        }
    }
}

} // verus!
