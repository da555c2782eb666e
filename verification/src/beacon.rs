//! `keel beacon` — ceiling-change detection and event emission.
//!
//! - [`BeaconEvent`]: the events emitted when the effective ceiling changes.
//! - [`Beacon`] trait: a `publish` method, with the [`RecordingBeacon`] double.
//! - [`CeilingState`]: the persisted last-emitted ceiling.
//! - [`effective_ceiling`]: the highest reachable tier of a health list.
//! - [`run_beacon`]: diff the current ceiling against the stored one and emit
//!   the right event; the caller persists the state it hands back.

use vstd::prelude::*;
use crate::status::is_cloud_name;
use crate::text::{owned, str_eq};
use crate::types::{first_match, healths_view, last_match, lemma_first_match_unique, lemma_last_match_unique, HealthView, TierHealth};

verus! {

broadcast use vstd::string::group_string_axioms;

// ── Event types ─────────────────────────────────────────────────────────────

/// A ceiling-change event ready to publish on `wm.keel.*`.
#[derive(Debug, PartialEq, Eq)]
pub struct BeaconEvent {
    /// `"wm.keel.degraded"` or `"wm.keel.refloat"`.
    pub topic: String,
    /// The previous effective ceiling tier name.
    pub from: String,
    /// The new effective ceiling tier name.
    pub to: String,
    /// Unix timestamp (seconds) since when the previous ceiling had held.
    pub since: i64,
}

impl Clone for BeaconEvent {
    fn clone(&self) -> (r: Self)
        ensures
            r == *self,
    {
        BeaconEvent { topic: self.topic.clone(), from: self.from.clone(), to: self.to.clone(), since: self.since }
    }
}

/// The model of a [`BeaconEvent`].
pub struct EventView {
    /// Topic chars.
    pub topic: Seq<char>,
    /// Previous ceiling.
    pub from: Seq<char>,
    /// New ceiling.
    pub to: Seq<char>,
    /// Since when the previous ceiling held.
    pub since: i64,
}

impl View for BeaconEvent {
    type V = EventView;

    open spec fn view(&self) -> EventView {
        EventView { topic: self.topic@, from: self.from@, to: self.to@, since: self.since }
    }
}

// ── Beacon trait ─────────────────────────────────────────────────────────────

/// Publishes a [`BeaconEvent`] on the bus.
///
/// Tests inject a [`RecordingBeacon`] that never touches the real bus.
pub trait Beacon {
    /// Whether this beacon keeps a log of its `publish` calls (see `calls`).
    open spec fn keeps_log(&self) -> bool {
        false
    }

    /// Every `publish` call so far, with what it returned, for a beacon that
    /// keeps a log.
    open spec fn calls(&self) -> Seq<(BeaconEvent, Result<(), String>)> {
        Seq::empty()
    }

    /// Whether `publish` always succeeds on this beacon.
    open spec fn never_fails(&self) -> bool {
        false
    }

    /// Publish `event`. May silently discard if the bus is unavailable;
    /// `Err` only on hard internal failures. A beacon that keeps a log
    /// appends the call and its result.
    fn publish(&mut self, event: &BeaconEvent) -> (r: Result<(), String>)
        ensures
            final(self).keeps_log() == old(self).keeps_log(),
            final(self).never_fails() == old(self).never_fails(),
            old(self).never_fails() ==> r is Ok,
            old(self).keeps_log() ==> final(self).calls() == old(self).calls().push((*event, r)),
    ;
}

// ── RecordingBeacon (test double) ────────────────────────────────────────────

/// A [`Beacon`] that records published events instead of touching the bus.
#[derive(Debug, Default)]
pub struct RecordingBeacon {
    events: Vec<BeaconEvent>,
}

impl RecordingBeacon {
    /// The events published so far, in order.
    pub closed spec fn published(&self) -> Seq<BeaconEvent> {
        self.events@
    }

    /// Create a new empty recording beacon.
    pub fn new() -> (b: Self)
        ensures
            b.published().len() == 0,
    {
        RecordingBeacon { events: Vec::new() }
    }

    /// Return all recorded events.
    pub fn recorded(&self) -> (r: Vec<BeaconEvent>)
        ensures
            r@ == self.published(),
    {
        let mut r: Vec<BeaconEvent> = Vec::new();
        let mut i: usize = 0;
        while i < self.events.len()
            invariant
                i <= self.events@.len(),
                r@ == self.events@.take(i as int),
            decreases self.events.len() - i,
        {
            r.push(self.events[i].clone());
            assert(self.events@.take(i + 1) =~= self.events@.take(i as int).push(self.events@[i as int]));
            i += 1;
        }
        assert(self.events@.take(self.events@.len() as int) =~= self.events@);
        r
    }
}

/// A published event together with its (successful) result.
pub open spec fn ok_call(e: BeaconEvent) -> (BeaconEvent, Result<(), String>) {
    (e, Ok(()))
}

impl Beacon for RecordingBeacon {
    open spec fn keeps_log(&self) -> bool {
        true
    }

    open spec fn calls(&self) -> Seq<(BeaconEvent, Result<(), String>)> {
        self.published().map_values(|e: BeaconEvent| ok_call(e))
    }

    open spec fn never_fails(&self) -> bool {
        true
    }

    /// Appends the event to the record; never fails.
    fn publish(&mut self, event: &BeaconEvent) -> (r: Result<(), String>)
        ensures
            r is Ok,
            final(self).published() == old(self).published().push(*event),
    {
        let ghost before = self.events@;
        self.events.push(event.clone());
        assert(self.events@.map_values(|e: BeaconEvent| ok_call(e)) =~= before.map_values(|e: BeaconEvent| ok_call(e)).push(
            ok_call(*event),
        ));
        Ok(())
    }
}

// ── CeilingState — persisted last-ceiling ───────────────────────────────────

/// The persisted last-emitted ceiling.
#[derive(Debug, PartialEq, Eq)]
pub struct CeilingState {
    /// The effective ceiling tier name at last emit.
    pub ceiling: String,
    /// Unix timestamp (seconds) when this ceiling first became effective.
    pub since: i64,
}

impl Clone for CeilingState {
    fn clone(&self) -> (r: Self)
        ensures
            r == *self,
    {
        CeilingState { ceiling: self.ceiling.clone(), since: self.since }
    }
}

/// The model of a [`CeilingState`].
pub struct CeilingView {
    /// Ceiling tier name.
    pub ceiling: Seq<char>,
    /// Since when.
    pub since: i64,
}

impl View for CeilingState {
    type V = CeilingView;

    open spec fn view(&self) -> CeilingView {
        CeilingView { ceiling: self.ceiling@, since: self.since }
    }
}

// ── Ceiling computation ──────────────────────────────────────────────────────

/// The effective ceiling: the name of the highest `Reachable` entry; else the
/// lowest entry that is not `Unconfigured` (the fallback floor); else none.
pub open spec fn effective_ceiling_spec(hs: Seq<HealthView>) -> Option<Seq<char>> {
    let r = last_match(hs, |h: HealthView| crate::status::is_reachable(h));
    if r >= 0 {
        Some(hs[r].tier)
    } else {
        let f = first_match(hs, |h: HealthView| !(h.status is Unconfigured));
        if f >= 0 {
            Some(hs[f].tier)
        } else {
            None
        }
    }
}

/// Compute the effective ceiling from a list of tier health values, ordered
/// lowest → highest (as returned by `run_pulse`).
pub fn effective_ceiling(healths: &[TierHealth]) -> (r: Option<String>)
    ensures
        match r {
            Some(s) => effective_ceiling_spec(healths_view(healths@)) == Some(s@),
            None => effective_ceiling_spec(healths_view(healths@)) is None,
        },
{
    let ghost hs = healths_view(healths@);
    let ghost pr = |h: HealthView| crate::status::is_reachable(h);
    let ghost pc = |h: HealthView| !(h.status is Unconfigured);
    let mut i: usize = healths.len();
    while i > 0
        invariant
            i <= healths@.len(),
            hs == healths_view(healths@),
            pr == (|h: HealthView| crate::status::is_reachable(h)),
            forall|j: int| i <= j < healths@.len() ==> !pr(#[trigger] hs[j]),
        decreases i,
    {
        i -= 1;
        assert(hs[i as int] == healths@[i as int]@);
        if healths[i].status.is_reachable() {
            proof {
                lemma_last_match_unique(hs, pr, i as int);
            }
            return Some(healths[i].tier.clone());
        }
    }
    proof {
        lemma_last_match_unique(hs, pr, -1);
    }
    let mut k: usize = 0;
    while k < healths.len()
        invariant
            k <= healths@.len(),
            hs == healths_view(healths@),
            pc == (|h: HealthView| !(h.status is Unconfigured)),
            pr == (|h: HealthView| crate::status::is_reachable(h)),
            last_match(hs, pr) == -1,
            forall|j: int| 0 <= j < k ==> !pc(#[trigger] hs[j]),
        decreases healths.len() - k,
    {
        assert(hs[k as int] == healths@[k as int]@);
        if !healths[k].status.is_unconfigured() {
            proof {
                lemma_first_match_unique(hs, pc, k as int);
            }
            return Some(healths[k].tier.clone());
        }
        k += 1;
    }
    proof {
        lemma_first_match_unique(hs, pc, -1);
    }
    None
}

// ── run_beacon ───────────────────────────────────────────────────────────────

/// Output of a single `keel beacon` run.
#[derive(Debug, PartialEq, Eq)]
pub enum BeaconOutcome {
    /// No change; nothing emitted.
    NoChange,
    /// Ceiling dropped; `wm.keel.degraded` emitted.
    Degraded(BeaconEvent),
    /// Ceiling rose; `wm.keel.refloat` emitted.
    Refloat(BeaconEvent),
    /// First run (no prior state); state written but no event emitted.
    FirstRun,
}

/// The model of a [`BeaconOutcome`].
pub enum OutcomeView {
    /// No change.
    NoChange,
    /// Dropped.
    Degraded(EventView),
    /// Rose.
    Refloat(EventView),
    /// First run.
    FirstRun,
}

impl View for BeaconOutcome {
    type V = OutcomeView;

    open spec fn view(&self) -> OutcomeView {
        match self {
            BeaconOutcome::NoChange => OutcomeView::NoChange,
            BeaconOutcome::Degraded(e) => OutcomeView::Degraded(e@),
            BeaconOutcome::Refloat(e) => OutcomeView::Refloat(e@),
            BeaconOutcome::FirstRun => OutcomeView::FirstRun,
        }
    }
}

/// A move from `from` to `to` is a drop when `to` sits below `from` in the
/// health list; when either is missing there, when it goes from a cloud tier
/// to a non-cloud one.
pub open spec fn is_drop(from: Seq<char>, to: Seq<char>, hs: Seq<HealthView>) -> bool {
    let f = first_match(hs, |h: HealthView| h.tier == from);
    let t = first_match(hs, |h: HealthView| h.tier == to);
    if f >= 0 && t >= 0 {
        t < f
    } else {
        is_cloud_name(from) && !is_cloud_name(to)
    }
}

/// The event a change from `prior` to `cur` emits.
pub open spec fn change_event(prior: CeilingView, cur: Seq<char>, hs: Seq<HealthView>) -> EventView {
    EventView {
        topic: if is_drop(prior.ceiling, cur, hs) {
            "wm.keel.degraded"@
        } else {
            "wm.keel.refloat"@
        },
        from: prior.ceiling,
        to: cur,
        since: prior.since,
    }
}

/// Whether a run publishes an event: there is a ceiling, a prior state, and they differ.
pub open spec fn beacon_publishes(prior: Option<CeilingView>, hs: Seq<HealthView>) -> bool {
    match (effective_ceiling_spec(hs), prior) {
        (Some(cur), Some(p)) => p.ceiling != cur,
        _ => false,
    }
}

/// What a run yields when publishing succeeds: the outcome, and the state
/// to persist (`None`: leave the stored state as it is).
pub open spec fn beacon_plan(now: i64, prior: Option<CeilingView>, hs: Seq<HealthView>) -> (
    OutcomeView,
    Option<CeilingView>,
) {
    match effective_ceiling_spec(hs) {
        None => (OutcomeView::NoChange, None),
        Some(cur) => match prior {
            None => (OutcomeView::FirstRun, Some(CeilingView { ceiling: cur, since: now })),
            Some(p) => if p.ceiling == cur {
                (OutcomeView::NoChange, None)
            } else {
                let ev = change_event(p, cur, hs);
                (
                    if is_drop(p.ceiling, cur, hs) {
                        OutcomeView::Degraded(ev)
                    } else {
                        OutcomeView::Refloat(ev)
                    },
                    Some(CeilingView { ceiling: cur, since: now }),
                )
            },
        },
    }
}

/// The model of an optional state.
pub open spec fn state_view(s: Option<CeilingState>) -> Option<CeilingView> {
    match s {
        Some(c) => Some(c@),
        None => None,
    }
}

fn position_of_tier(healths: &[TierHealth], name: &str) -> (r: Option<usize>)
    ensures
        ({
            let m = first_match(healths_view(healths@), |h: HealthView| h.tier == name@);
            match r {
                Some(i) => m == i,
                None => m < 0,
            }
        }),
{
    let ghost hs = healths_view(healths@);
    let ghost p = |h: HealthView| h.tier == name@;
    let mut k: usize = 0;
    while k < healths.len()
        invariant
            k <= healths@.len(),
            hs == healths_view(healths@),
            p == (|h: HealthView| h.tier == name@),
            forall|j: int| 0 <= j < k ==> !p(#[trigger] hs[j]),
        decreases healths.len() - k,
    {
        assert(hs[k as int] == healths@[k as int]@);
        if str_eq(healths[k].tier.as_str(), name) {
            proof {
                lemma_first_match_unique(hs, p, k as int);
            }
            return Some(k);
        }
        k += 1;
    }
    proof {
        lemma_first_match_unique(hs, p, -1);
    }
    None
}

fn is_cloud_tier(name: &str) -> (r: bool)
    ensures
        r == is_cloud_name(name@),
{
    str_eq(name, "haiku") || str_eq(name, "sonnet") || str_eq(name, "opus")
}

/// Whether moving the ceiling from `from` to `to` is a drop.
fn tier_rank(from: &str, to: &str, healths: &[TierHealth]) -> (drop: bool)
    ensures
        drop == is_drop(from@, to@, healths_view(healths@)),
{
    let pos_from = position_of_tier(healths, from);
    let pos_to = position_of_tier(healths, to);
    match (pos_from, pos_to) {
        (Some(f), Some(t)) => t < f,
        _ => is_cloud_tier(from) && !is_cloud_tier(to),
    }
}

/// The log grew by exactly one `publish` call, of an event modelled by `ev`,
/// and that call's result is the run's: `Ok` for an `Ok` run, the very same
/// error for an `Err` run.
pub open spec fn published_once<T>(
    before: Seq<(BeaconEvent, Result<(), String>)>,
    after: Seq<(BeaconEvent, Result<(), String>)>,
    ev: EventView,
    r: Result<T, String>,
) -> bool {
    &&& after.len() == before.len() + 1
    &&& after.take(before.len() as int) == before
    &&& after.last().0@ == ev
    &&& match r {
        Ok(_) => after.last().1 is Ok,
        Err(e) => after.last().1 == Err::<(), String>(e),
    }
}

/// Run the beacon: diff the current ceiling against the stored one and emit
/// the right event.
///
/// - `now`: injectable unix timestamp (seconds).
/// - `prior`: the stored state, if a previous run left one.
/// - `healths`: current tier health values (from `run_pulse`).
/// - `beacon`: event publisher.
///
/// On success, returns the outcome and the state to persist (`None`: keep
/// the stored one). No ceiling → `NoChange`; no prior state → `FirstRun`
/// and the current ceiling is stored from `now`; same ceiling → `NoChange`;
/// a different one → one event is published (`Degraded` when the ceiling
/// dropped, else `Refloat`) and the new ceiling is stored from `now`.
/// A publish error is returned as is, with nothing to persist.
pub fn run_beacon<B: Beacon>(
    now: i64,
    prior: Option<CeilingState>,
    healths: &[TierHealth],
    beacon: &mut B,
) -> (r: Result<(BeaconOutcome, Option<CeilingState>), String>)
    ensures
        !beacon_publishes(state_view(prior), healths_view(healths@)) ==> r is Ok && *final(beacon) == *old(beacon),
        r matches Ok(x) ==> (x.0@, state_view(x.1)) == beacon_plan(now, state_view(prior), healths_view(healths@)),
        r is Err ==> beacon_publishes(state_view(prior), healths_view(healths@)),
        old(beacon).never_fails() ==> r is Ok,
        final(beacon).keeps_log() == old(beacon).keeps_log(),
        final(beacon).never_fails() == old(beacon).never_fails(),
        old(beacon).keeps_log() && beacon_publishes(state_view(prior), healths_view(healths@)) ==> published_once(
            old(beacon).calls(),
            final(beacon).calls(),
            change_event(state_view(prior)->0, effective_ceiling_spec(healths_view(healths@))->0, healths_view(healths@)),
            r,
        ),
{
    let ghost hs = healths_view(healths@);
    let current = match effective_ceiling(healths) {
        Some(c) => c,
        None => return Ok((BeaconOutcome::NoChange, None)),
    };
    match prior {
        None => {
            let state = CeilingState { ceiling: current, since: now };
            Ok((BeaconOutcome::FirstRun, Some(state)))
        },
        Some(prior_state) => {
            if str_eq(prior_state.ceiling.as_str(), current.as_str()) {
                return Ok((BeaconOutcome::NoChange, None));
            }
            let drop = tier_rank(prior_state.ceiling.as_str(), current.as_str(), healths);
            let topic = if drop {
                owned("wm.keel.degraded")
            } else {
                owned("wm.keel.refloat")
            };
            let event = BeaconEvent {
                topic,
                from: prior_state.ceiling.clone(),
                to: current.clone(),
                since: prior_state.since,
            };
            let ghost before = beacon.calls();
            let sent = beacon.publish(&event);
            proof {
                if old(beacon).keeps_log() {
                    assert(beacon.calls().take(before.len() as int) =~= before);
                }
            }
            match sent {
                Ok(()) => {},
                Err(e) => {
                    return Err(e);
                },
            }
            let new_state = CeilingState { ceiling: current, since: now };
            if drop {
                Ok((BeaconOutcome::Degraded(event), Some(new_state)))
            } else {
                Ok((BeaconOutcome::Refloat(event), Some(new_state)))
            }
        },
    }
}

/// Edge-triggering: once a run's state is persisted, a rerun on the same
/// health list emits nothing and changes nothing.
pub proof fn lemma_rerun_is_quiet(now: i64, later: i64, prior: Option<CeilingView>, hs: Seq<HealthView>)
    requires
        beacon_plan(now, prior, hs).1 is Some,
    ensures
        !beacon_publishes(beacon_plan(now, prior, hs).1, hs),
        beacon_plan(later, beacon_plan(now, prior, hs).1, hs) == (OutcomeView::NoChange, None::<CeilingView>),
{
}

/// A published change always names the stored ceiling as `from`, the current
/// one as `to`, and carries the stored `since`.
pub proof fn lemma_event_links_states(now: i64, p: CeilingView, hs: Seq<HealthView>)
    requires
        beacon_publishes(Some(p), hs),
    ensures
        ({
            let cur = effective_ceiling_spec(hs)->0;
            let ev = change_event(p, cur, hs);
            &&& ev.from == p.ceiling
            &&& ev.to == cur
            &&& ev.since == p.since
            &&& beacon_plan(now, Some(p), hs).1 == Some(CeilingView { ceiling: cur, since: now })
            &&& (beacon_plan(now, Some(p), hs).0 == OutcomeView::Degraded(ev) || beacon_plan(now, Some(p), hs).0
                == OutcomeView::Refloat(ev))
        }),
{
}

/// If some entry is `Reachable`, the effective ceiling is the tier of a
/// `Reachable` entry with no `Reachable` entry after it in the list.
pub proof fn lemma_ceiling_is_highest_reachable(hs: Seq<HealthView>)
    requires
        exists|i: int| 0 <= i < hs.len() && #[trigger] hs[i].status is Reachable,
    ensures
        exists|i: int|
            0 <= i < hs.len() && #[trigger] hs[i].status is Reachable && (forall|j: int| i < j < hs.len() ==> !(
            #[trigger] hs[j].status is Reachable)) && effective_ceiling_spec(hs) == Some(hs[i].tier),
{
    let p = |h: HealthView| crate::status::is_reachable(h);
    crate::types::lemma_last_match(hs, p);
    let w = choose|i: int| 0 <= i < hs.len() && #[trigger] hs[i].status is Reachable;
    assert(p(hs[w]));
    let r = last_match(hs, p);
    assert(r >= 0);
    assert forall|j: int| r < j < hs.len() implies !(#[trigger] hs[j].status is Reachable) by {
        assert(!p(hs[j]));
    }
}

/// With no `Reachable` entry, the effective ceiling is the tier of the first
/// entry that is not `Unconfigured`, or none when every entry is.
pub proof fn lemma_ceiling_fallback_is_lowest_configured(hs: Seq<HealthView>)
    requires
        forall|i: int| 0 <= i < hs.len() ==> !(#[trigger] hs[i].status is Reachable),
    ensures
        (forall|i: int| 0 <= i < hs.len() ==> #[trigger] hs[i].status is Unconfigured) ==> effective_ceiling_spec(hs)
            is None,
        forall|i: int|
            0 <= i < hs.len() && !(#[trigger] hs[i].status is Unconfigured) && (forall|j: int|
                0 <= j < i ==> #[trigger] hs[j].status is Unconfigured) ==> effective_ceiling_spec(hs) == Some(
                hs[i].tier,
            ),
{
    let p = |h: HealthView| crate::status::is_reachable(h);
    let q = |h: HealthView| !(h.status is Unconfigured);
    crate::types::lemma_last_match(hs, p);
    crate::types::lemma_first_match(hs, q);
    if last_match(hs, p) >= 0 {
        assert(p(hs[last_match(hs, p)]));
    }
    assert forall|i: int|
        0 <= i < hs.len() && !(#[trigger] hs[i].status is Unconfigured) && (forall|j: int|
            0 <= j < i ==> #[trigger] hs[j].status is Unconfigured) implies effective_ceiling_spec(hs) == Some(
        hs[i].tier,
    ) by {
        crate::types::lemma_first_match_unique(hs, q, i);
    }
    if forall|i: int| 0 <= i < hs.len() ==> #[trigger] hs[i].status is Unconfigured {
        if first_match(hs, q) >= 0 {
            assert(q(hs[first_match(hs, q)]));
        }
    }
}

/// When the stored and the current ceiling both occur in the health list
/// (at their first occurrences `i` and `j`), a change is a drop — outcome
/// `Degraded`, topic `wm.keel.degraded` — exactly when the current ceiling
/// sits lower (`j < i`), and otherwise a rise — `Refloat`, `wm.keel.refloat` —
/// whatever the tiers' names.
pub proof fn lemma_direction_follows_position(now: i64, p: CeilingView, hs: Seq<HealthView>, i: int, j: int)
    requires
        effective_ceiling_spec(hs) matches Some(cur) && cur != p.ceiling && 0 <= j < hs.len() && hs[j].tier == cur,
        0 <= i < hs.len(),
        hs[i].tier == p.ceiling,
        forall|k: int| 0 <= k < i ==> #[trigger] hs[k].tier != p.ceiling,
        forall|k: int| 0 <= k < j ==> #[trigger] hs[k].tier != hs[j].tier,
    ensures
        ({
            let out = beacon_plan(now, Some(p), hs).0;
            &&& j < i ==> (out matches OutcomeView::Degraded(e) && e.topic == "wm.keel.degraded"@)
            &&& i < j ==> (out matches OutcomeView::Refloat(e) && e.topic == "wm.keel.refloat"@)
        }),
{
    let cur = hs[j].tier;
    let pf = |h: HealthView| h.tier == p.ceiling;
    let pt = |h: HealthView| h.tier == cur;
    lemma_first_match_unique(hs, pf, i);
    lemma_first_match_unique(hs, pt, j);
    assert(first_match(hs, |h: HealthView| h.tier == p.ceiling) == i);
    assert(first_match(hs, |h: HealthView| h.tier == cur) == j);
}

} // verus!
