//! `keel mark` — stamp a tier's health status as Exhausted or Keyless.
//!
//! The brain stamps a tier when it sees a 402/401 response, so the event
//! becomes durable state that the cordon and beacon can read on the next
//! tick. The stamps live in a [`StatusFile`]: one `TierHealth` per tier name.
//! A stamp replaces any previous entry for the same tier; other tiers are
//! preserved. Reading and writing the file is the caller's part.

use vstd::prelude::*;
use crate::names::NameMap;
use crate::text::owned;
use crate::types::{HealthView, StatusView, TierHealth, TierStatus};

verus! {

broadcast use vstd::string::group_string_axioms;

/// The full status file: a map from tier name to `TierHealth`.
#[derive(Debug)]
pub struct StatusFile {
    /// Per-tier health overrides.
    pub tiers: NameMap<TierHealth>,
}

impl View for StatusFile {
    type V = Map<Seq<char>, HealthView>;

    open spec fn view(&self) -> Map<Seq<char>, HealthView> {
        self.tiers.as_map().map_values(|h: TierHealth| h@)
    }
}

impl StatusFile {
    /// An empty status file.
    pub fn new() -> (sf: Self)
        ensures
            sf@ == Map::<Seq<char>, HealthView>::empty(),
    {
        let sf = StatusFile { tiers: NameMap::new() };
        assert(sf@ =~= Map::<Seq<char>, HealthView>::empty());
        sf
    }
}

impl Default for StatusFile {
    fn default() -> (sf: Self)
        ensures
            sf@ == Map::<Seq<char>, HealthView>::empty(),
    {
        Self::new()
    }
}

/// The kind of health stamp to write.
#[derive(Debug, Clone, Copy, PartialEq, Eq)]
pub enum MarkStamp {
    /// Tier reported quota exhaustion (HTTP 402/429).
    Exhausted,
    /// Tier has no API key configured.
    Keyless,
}

/// The status a stamp records.
pub open spec fn stamp_status(stamp: MarkStamp) -> StatusView {
    match stamp {
        MarkStamp::Exhausted => StatusView::Exhausted,
        MarkStamp::Keyless => StatusView::Keyless,
    }
}

/// The entry a stamp writes.
pub open spec fn stamped(tier: Seq<char>, stamp: MarkStamp, now: i64) -> HealthView {
    HealthView { tier, status: stamp_status(stamp), checked_at: now, consecutive_failures: 0 }
}

impl MarkStamp {
    /// The stamp's name as the CLI shows it.
    pub open spec fn label_spec(self) -> Seq<char> {
        match self {
            MarkStamp::Exhausted => "exhausted"@,
            MarkStamp::Keyless => "keyless"@,
        }
    }

    /// The stamp's name as the CLI shows it (`exhausted` / `keyless`).
    pub fn label(&self) -> (s: String)
        ensures
            s@ == self.label_spec(),
    {
        match self {
            MarkStamp::Exhausted => owned("exhausted"),
            MarkStamp::Keyless => owned("keyless"),
        }
    }
}

/// Stamp a tier's status as `Exhausted` or `Keyless` at `now`: the entry for
/// `tier` is replaced (or added); no other entry changes.
pub fn mark_tier(sf: &mut StatusFile, tier: &str, stamp: MarkStamp, now: i64)
    ensures
        final(sf)@ == old(sf)@.insert(tier@, stamped(tier@, stamp, now)),
{
    let status = match stamp {
        MarkStamp::Exhausted => TierStatus::Exhausted,
        MarkStamp::Keyless => TierStatus::Keyless,
    };
    let entry = TierHealth { tier: owned(tier), status, checked_at: now, consecutive_failures: 0 };
    let ghost before = sf.tiers.as_map();
    sf.tiers.insert(owned(tier), entry);
    assert(sf@ =~= before.map_values(|h: TierHealth| h@).insert(tier@, stamped(tier@, stamp, now)));
}

/// Read the current status override for a tier, if any.
pub fn tier_status(sf: &StatusFile, tier: &str) -> (r: Option<TierHealth>)
    ensures
        match r {
            Some(h) => sf@.contains_key(tier@) && h@ == sf@[tier@],
            None => !sf@.contains_key(tier@),
        },
{
    match sf.tiers.get(tier) {
        Some(h) => Some(h.clone()),
        None => None,
    }
}

/// A stamp is read back as written.
pub proof fn lemma_mark_then_read(m: Map<Seq<char>, HealthView>, tier: Seq<char>, stamp: MarkStamp, now: i64)
    ensures
        m.insert(tier, stamped(tier, stamp, now)).contains_key(tier),
        m.insert(tier, stamped(tier, stamp, now))[tier] == stamped(tier, stamp, now),
{
}

/// A stamp leaves every other tier's entry as it was.
pub proof fn lemma_mark_preserves_others(
    m: Map<Seq<char>, HealthView>,
    tier: Seq<char>,
    stamp: MarkStamp,
    now: i64,
    other: Seq<char>,
)
    requires
        other != tier,
    ensures
        m.insert(tier, stamped(tier, stamp, now)).contains_key(other) == m.contains_key(other),
        m.contains_key(other) ==> m.insert(tier, stamped(tier, stamp, now))[other] == m[other],
{
}

/// Of two stamps on one tier, the later one is what remains.
pub proof fn lemma_later_mark_wins(
    m: Map<Seq<char>, HealthView>,
    tier: Seq<char>,
    first: MarkStamp,
    t1: i64,
    second: MarkStamp,
    t2: i64,
)
    ensures
        m.insert(tier, stamped(tier, first, t1)).insert(tier, stamped(tier, second, t2)) == m.insert(
            tier,
            stamped(tier, second, t2),
        ),
{
    assert(m.insert(tier, stamped(tier, first, t1)).insert(tier, stamped(tier, second, t2)) =~= m.insert(
        tier,
        stamped(tier, second, t2),
    ));
}

} // verus!
