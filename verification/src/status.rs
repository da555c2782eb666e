//! `keel status` — one-line human-readable summary of the current tier ceiling.
//!
//! Answers: "what tier is the brain standing on, and for how long?"
//! - Degraded: `floored: local-3b for 4d 6h (cloud keyless since 2026-05-30)`
//! - Nominal:  `nominal: opus reachable`

use vstd::prelude::*;
use crate::beacon::{effective_ceiling, effective_ceiling_spec};
use crate::calendar::{date_text, lemma_date_text_single_line, push_date};
use crate::pulse::is_active;
use crate::text::{nat_text, owned, push_str, push_u64, str_eq, lemma_nat_text_no_newline};
use crate::types::{opt_view, healths_view, first_match, last_match, lemma_last_match_unique, HealthView, StatusView, TierHealth, TierStatus};

verus! {

broadcast use vstd::string::group_string_axioms;

/// Output format for `keel status`.
#[derive(Debug, Clone, Copy, PartialEq, Eq)]
pub enum StatusFormat {
    /// One-line human-readable text.
    Text,
    /// Machine-readable JSON.
    Json,
}

/// The computed status for `keel status` output.
#[derive(Debug, PartialEq)]
pub struct StatusReport {
    /// Whether the ladder is at full capacity.
    pub nominal: bool,
    /// The effective ceiling tier name (highest reachable).
    pub ceiling: String,
    /// Why the ceiling is where it is (e.g. `"cloud keyless"`).
    pub reason: Option<String>,
    /// Unix timestamp (seconds) since when the current ceiling has been in effect.
    /// `None` if the first run or ceiling state is not persisted.
    pub since: Option<i64>,
    /// Human-readable "for N days M hours" duration string.
    pub duration_human: Option<String>,
}

/// The parenthesised reason of a floored report, with the date the ceiling
/// has held since when that is known.
pub open spec fn reason_part(reason: Option<Seq<char>>, since: Option<i64>) -> Seq<char> {
    match reason {
        Some(r) => " ("@ + r + (match since {
            Some(t) => " since "@ + date_text(t as int),
            None => Seq::empty(),
        }) + ")"@,
        None => Seq::empty(),
    }
}

/// The one-line text of a report.
pub open spec fn status_text(
    nominal: bool,
    ceiling: Seq<char>,
    dur: Option<Seq<char>>,
    reason: Option<Seq<char>>,
    since: Option<i64>,
) -> Seq<char> {
    if nominal {
        "nominal: "@ + ceiling + " reachable"@
    } else {
        "floored: "@ + ceiling + (match dur {
            Some(d) => " for "@ + d,
            None => Seq::empty(),
        }) + reason_part(reason, since)
    }
}

impl StatusReport {
    /// Format as a single human-readable line.
    pub fn as_text(&self) -> (t: String)
        ensures
            t@ == status_text(
                self.nominal,
                self.ceiling@,
                opt_view(self.duration_human),
                opt_view(self.reason),
                self.since,
            ),
    {
        if self.nominal {
            let mut t = owned("nominal: ");
            push_str(&mut t, self.ceiling.as_str());
            push_str(&mut t, " reachable");
            return t;
        }
        let mut t = owned("floored: ");
        push_str(&mut t, self.ceiling.as_str());
        let ghost head = t@;
        match &self.duration_human {
            Some(dur) => {
                push_str(&mut t, " for ");
                push_str(&mut t, dur.as_str());
                assert(t@ =~= head + (" for "@ + dur@));
            },
            None => {
                assert(t@ =~= head + Seq::<char>::empty());
            },
        }
        let ghost mid = t@;
        match &self.reason {
            Some(why) => {
                push_str(&mut t, " (");
                push_str(&mut t, why.as_str());
                let ghost with_why = t@;
                match self.since {
                    Some(when) => {
                        push_str(&mut t, " since ");
                        push_date(&mut t, when);
                        assert(t@ =~= with_why + (" since "@ + date_text(when as int)));
                    },
                    None => {
                        assert(t@ =~= with_why + Seq::<char>::empty());
                    },
                }
                push_str(&mut t, ")");
                assert(t@ =~= mid + reason_part(opt_view(self.reason), self.since));
            },
            None => {
                assert(t@ =~= mid + Seq::<char>::empty());
            },
        }
        t
    }
}

/// The text holds no line break when its parts hold none (so `keel status | head`
/// gets exactly one line).
pub proof fn lemma_status_text_single_line(
    nominal: bool,
    ceiling: Seq<char>,
    dur: Option<Seq<char>>,
    reason: Option<Seq<char>>,
    since: Option<i64>,
)
    requires
        !ceiling.contains('\n'),
        dur matches Some(d) ==> !d.contains('\n'),
        reason matches Some(r) ==> !r.contains('\n'),
    ensures
        !status_text(nominal, ceiling, dur, reason, since).contains('\n'),
{
    lemma_literals_single_line();
    if nominal {
        lemma_concat_no_newline("nominal: "@, ceiling);
        lemma_concat_no_newline("nominal: "@ + ceiling, " reachable"@);
    } else {
        let a = "floored: "@ + ceiling;
        lemma_concat_no_newline("floored: "@, ceiling);
        let d = match dur {
            Some(d) => " for "@ + d,
            None => Seq::empty(),
        };
        if let Some(dd) = dur {
            lemma_concat_no_newline(" for "@, dd);
        }
        assert(!d.contains('\n'));
        lemma_concat_no_newline(a, d);
        let r = reason_part(reason, since);
        if let Some(rr) = reason {
            let w = match since {
                Some(t) => " since "@ + date_text(t as int),
                None => Seq::empty(),
            };
            if let Some(t) = since {
                lemma_date_text_single_line(t as int);
                lemma_concat_no_newline(" since "@, date_text(t as int));
            }
            assert(!w.contains('\n'));
            lemma_concat_no_newline(" ("@, rr);
            lemma_concat_no_newline(" ("@ + rr, w);
            lemma_concat_no_newline(" ("@ + rr + w, ")"@);
        }
        assert(!r.contains('\n'));
        lemma_concat_no_newline(a + d, r);
    }
}

proof fn lemma_literals_single_line()
    ensures
        !"nominal: "@.contains('\n'),
        !" reachable"@.contains('\n'),
        !"floored: "@.contains('\n'),
        !" for "@.contains('\n'),
        !" ("@.contains('\n'),
        !" since "@.contains('\n'),
        !")"@.contains('\n'),
{
    reveal_strlit("nominal: ");
    reveal_strlit(" reachable");
    reveal_strlit("floored: ");
    reveal_strlit(" for ");
    reveal_strlit(" (");
    reveal_strlit(" since ");
    reveal_strlit(")");
}

// ---------------------------------------------------------------------------
// compute_status
// ---------------------------------------------------------------------------

/// Entry whose status is `Reachable`.
pub open spec fn is_reachable(h: HealthView) -> bool {
    h.status is Reachable
}

/// The three cloud tiers.
pub open spec fn is_cloud_name(n: Seq<char>) -> bool {
    n == "haiku"@ || n == "sonnet"@ || n == "opus"@
}

/// An active cloud-tier entry.
pub open spec fn is_active_cloud(h: HealthView) -> bool {
    is_cloud_name(h.tier) && is_active(h)
}

/// Full capacity: the highest reachable entry is the highest active entry.
pub open spec fn nominal_spec(hs: Seq<HealthView>) -> bool {
    let r = last_match(hs, |h: HealthView| is_reachable(h));
    let a = last_match(hs, |h: HealthView| is_active(h));
    if r >= 0 && a >= 0 {
        hs[r].tier == hs[a].tier
    } else {
        r >= 0
    }
}

/// The report's ceiling: the effective ceiling, else `"unknown"`.
pub open spec fn ceiling_spec(hs: Seq<HealthView>) -> Seq<char> {
    match effective_ceiling_spec(hs) {
        Some(c) => c,
        None => "unknown"@,
    }
}

/// How a cloud tier's status reads as the reason for a floor.
pub open spec fn cloud_reason(s: StatusView) -> Seq<char> {
    match s {
        StatusView::Keyless => "cloud keyless"@,
        StatusView::Unreachable { reason } => "cloud unreachable: "@ + reason,
        StatusView::Exhausted => "cloud exhausted"@,
        _ => "cloud degraded"@,
    }
}

/// No reason when nominal; otherwise that of the highest active cloud entry, if any.
pub open spec fn reason_spec(hs: Seq<HealthView>) -> Option<Seq<char>> {
    if nominal_spec(hs) {
        None
    } else {
        let c = last_match(hs, |h: HealthView| is_active_cloud(h));
        if c >= 0 {
            Some(cloud_reason(hs[c].status))
        } else {
            None
        }
    }
}

fn is_cloud_tier_name(n: &str) -> (r: bool)
    ensures
        r == is_cloud_name(n@),
{
    str_eq(n, "haiku") || str_eq(n, "sonnet") || str_eq(n, "opus")
}

fn last_index_of<'a>(healths: &'a [TierHealth], which: u8) -> (r: Option<usize>)
    requires
        which < 3,
    ensures
        ({
            let hs = healths_view(healths@);
            let m = if which == 0 {
                last_match(hs, |h: HealthView| is_reachable(h))
            } else if which == 1 {
                last_match(hs, |h: HealthView| is_active(h))
            } else {
                last_match(hs, |h: HealthView| is_active_cloud(h))
            };
            match r {
                Some(i) => i < healths@.len() && m == i,
                None => m < 0,
            }
        }),
{
    let ghost hs = healths_view(healths@);
    let ghost p = if which == 0 {
        |h: HealthView| is_reachable(h)
    } else if which == 1 {
        |h: HealthView| is_active(h)
    } else {
        |h: HealthView| is_active_cloud(h)
    };
    let mut i: usize = healths.len();
    while i > 0
        invariant
            i <= healths@.len(),
            hs == healths_view(healths@),
            which < 3,
            p == (if which == 0 {
                |h: HealthView| is_reachable(h)
            } else if which == 1 {
                |h: HealthView| is_active(h)
            } else {
                |h: HealthView| is_active_cloud(h)
            }),
            forall|j: int| i <= j < healths@.len() ==> !p(#[trigger] hs[j]),
        decreases i,
    {
        i -= 1;
        let h = &healths[i];
        assert(hs[i as int] == h@);
        let hit = if which == 0 {
            h.status.is_reachable()
        } else if which == 1 {
            !h.status.is_inactive_status()
        } else {
            is_cloud_tier_name(h.tier.as_str()) && !h.status.is_inactive_status()
        };
        if hit {
            proof {
                lemma_last_match_unique(hs, p, i as int);
            }
            return Some(i);
        }
    }
    proof {
        lemma_last_match_unique(hs, p, -1);
    }
    None
}

fn reason_text(s: &TierStatus) -> (r: String)
    ensures
        r@ == cloud_reason(s@),
{
    match s {
        TierStatus::Keyless => owned("cloud keyless"),
        TierStatus::Unreachable { reason } => {
            let mut t = owned("cloud unreachable: ");
            push_str(&mut t, reason.as_str());
            t
        },
        TierStatus::Exhausted => owned("cloud exhausted"),
        _ => owned("cloud degraded"),
    }
}

/// Compute a [`StatusReport`] from tier health values and an optional `since`
/// timestamp from the persisted ceiling state.
///
/// `now` is injected for determinism; `now - since` must fit in an `i64`.
pub fn compute_status(healths: &[TierHealth], since: Option<i64>, now: i64) -> (rep: StatusReport)
    requires
        since matches Some(s) ==> i64::MIN <= now - s <= i64::MAX,
    ensures
        rep.nominal == nominal_spec(healths_view(healths@)),
        rep.ceiling@ == ceiling_spec(healths_view(healths@)),
        opt_view(rep.reason) == reason_spec(healths_view(healths@)),
        rep.since == since,
        opt_view(rep.duration_human) == (match since {
            Some(s) => Some(duration_text(now - s)),
            None => None,
        }),
{
    let ghost hs = healths_view(healths@);
    let top_reachable = last_index_of(healths, 0);
    let top_active = last_index_of(healths, 1);
    let nominal = match (top_reachable, top_active) {
        (Some(r), Some(a)) => str_eq(healths[r].tier.as_str(), healths[a].tier.as_str()),
        (Some(_), None) => true,
        _ => false,
    };
    proof {
        match (top_reachable, top_active) {
            (Some(r), Some(a)) => {
                assert(hs[r as int] == healths@[r as int]@);
                assert(hs[a as int] == healths@[a as int]@);
            },
            _ => {},
        }
    }
    let ceiling = match effective_ceiling(healths) {
        Some(c) => c,
        None => owned("unknown"),
    };
    let reason = if nominal {
        None
    } else {
        match last_index_of(healths, 2) {
            Some(c) => {
                assert(hs[c as int] == healths@[c as int]@);
                Some(reason_text(&healths[c].status))
            },
            None => None,
        }
    };
    let duration_human = match since {
        Some(s) => Some(human_duration(now - s)),
        None => None,
    };
    StatusReport { nominal, ceiling, reason, since, duration_human }
}

/// The status ceiling is the beacon's effective ceiling (or `"unknown"`
/// when there is none), so `keel status` and `keel beacon` agree on the rung.
pub proof fn lemma_status_ceiling_is_effective_ceiling(hs: Seq<HealthView>)
    ensures
        effective_ceiling_spec(hs) matches Some(c) ==> ceiling_spec(hs) == c,
        effective_ceiling_spec(hs) is None ==> ceiling_spec(hs) == "unknown"@,
{
}

/// A nominal report names no reason; a floored one names the highest active
/// cloud tier's trouble when there is an active cloud tier.
pub proof fn lemma_reason_only_when_floored(hs: Seq<HealthView>)
    ensures
        nominal_spec(hs) ==> reason_spec(hs) is None,
        !nominal_spec(hs) && last_match(hs, |h: HealthView| is_active_cloud(h)) >= 0 ==> reason_spec(hs) is Some,
{
}

/// `keel pulse` exits 0 only when `keel status` is nominal; with distinct
/// tier names (as `run_pulse` yields) the converse holds too.
pub proof fn lemma_pulse_exit_agrees_with_status(hs: Seq<HealthView>)
    ensures
        crate::pulse::exit_code_spec(hs) == 0 ==> nominal_spec(hs),
        (forall|i: int, j: int| 0 <= i < hs.len() && 0 <= j < hs.len() && i != j ==> #[trigger] hs[i].tier != #[trigger] hs[j].tier)
            ==> (nominal_spec(hs) ==> crate::pulse::exit_code_spec(hs) == 0),
{
    let pr = |h: HealthView| is_reachable(h);
    let pa = |h: HealthView| is_active(h);
    crate::types::lemma_last_match(hs, pr);
    crate::types::lemma_last_match(hs, pa);
    let r = last_match(hs, pr);
    let a = last_match(hs, pa);
    if r >= 0 {
        assert(pa(hs[r]));
        assert(r <= a);
    }
    if a >= 0 && hs[a].status is Reachable {
        assert(pr(hs[a]));
        assert(a <= r);
    }
}

// ---------------------------------------------------------------------------
// Durations
// ---------------------------------------------------------------------------

/// The largest unit pair of a duration: `"4d 6h"`, `"2h 15m"`, `"3m 5s"`, `"45s"`;
/// negative durations read as zero.
pub open spec fn duration_text(secs: int) -> Seq<char> {
    let t: nat = if secs < 0 {
        0
    } else {
        secs as nat
    };
    let days = t / 86400;
    let hours = (t % 86400) / 3600;
    let mins = (t % 3600) / 60;
    let s = t % 60;
    if days > 0 {
        nat_text(days) + "d "@ + nat_text(hours) + "h"@
    } else if hours > 0 {
        nat_text(hours) + "h "@ + nat_text(mins) + "m"@
    } else if mins > 0 {
        nat_text(mins) + "m "@ + nat_text(s) + "s"@
    } else {
        nat_text(s) + "s"@
    }
}

/// Format a duration in seconds as a human-readable string.
///
/// Examples: `"4d 6h"`, `"2h 15m"`, `"45s"`.
pub fn human_duration(secs: i64) -> (r: String)
    ensures
        r@ == duration_text(secs as int),
{
    let total: u64 = if secs < 0 {
        0
    } else {
        secs as u64
    };
    let days = total / 86400;
    let hours = (total % 86400) / 3600;
    let mins = (total % 3600) / 60;
    let s = total % 60;
    let mut r = String::new();
    if days > 0 {
        push_u64(&mut r, days);
        push_str(&mut r, "d ");
        push_u64(&mut r, hours);
        push_str(&mut r, "h");
    } else if hours > 0 {
        push_u64(&mut r, hours);
        push_str(&mut r, "h ");
        push_u64(&mut r, mins);
        push_str(&mut r, "m");
    } else if mins > 0 {
        push_u64(&mut r, mins);
        push_str(&mut r, "m ");
        push_u64(&mut r, s);
        push_str(&mut r, "s");
    } else {
        push_u64(&mut r, s);
        push_str(&mut r, "s");
    }
    assert(r@ =~= duration_text(secs as int));
    r
}

/// Durations are one line.
pub proof fn lemma_duration_text_single_line(secs: int)
    ensures
        !duration_text(secs).contains('\n'),
{
    reveal_strlit("d ");
    reveal_strlit("h ");
    reveal_strlit("m ");
    reveal_strlit("h");
    reveal_strlit("m");
    reveal_strlit("s");
    let t: nat = if secs < 0 {
        0
    } else {
        secs as nat
    };
    lemma_nat_text_no_newline(t / 86400);
    lemma_nat_text_no_newline((t % 86400) / 3600);
    lemma_nat_text_no_newline((t % 3600) / 60);
    lemma_nat_text_no_newline(t % 60);
    let d = duration_text(secs);
    assert forall|i: int| 0 <= i < d.len() implies d[i] != '\n' by {
        let parts = if t / 86400 > 0 {
            seq![nat_text(t / 86400), "d "@, nat_text((t % 86400) / 3600), "h"@]
        } else if (t % 86400) / 3600 > 0 {
            seq![nat_text((t % 86400) / 3600), "h "@, nat_text((t % 3600) / 60), "m"@]
        } else if (t % 3600) / 60 > 0 {
            seq![nat_text((t % 3600) / 60), "m "@, nat_text(t % 60), "s"@]
        } else {
            seq![nat_text(t % 60), "s"@, Seq::empty(), Seq::empty()]
        };
        assert(d =~= parts[0] + parts[1] + parts[2] + parts[3]);
        if i < parts[0].len() {
            assert(d[i] == parts[0][i]);
        } else if i < parts[0].len() + parts[1].len() {
            assert(d[i] == parts[1][i - parts[0].len()]);
        } else if i < parts[0].len() + parts[1].len() + parts[2].len() {
            assert(d[i] == parts[2][i - parts[0].len() - parts[1].len()]);
        } else {
            assert(d[i] == parts[3][i - parts[0].len() - parts[1].len() - parts[2].len()]);
        }
    }
}

/// No tier name and no unreachable reason holds a line break.
pub open spec fn single_line_names(hs: Seq<HealthView>) -> bool {
    forall|i: int| 0 <= i < hs.len() ==> !(#[trigger] hs[i]).tier.contains('\n') && (hs[i].status matches StatusView::Unreachable { reason } ==> !reason.contains('\n'))
}

proof fn lemma_concat_no_newline(a: Seq<char>, b: Seq<char>)
    requires
        !a.contains('\n'),
        !b.contains('\n'),
    ensures
        !(a + b).contains('\n'),
{
    if (a + b).contains('\n') {
        let i = choose|i: int| 0 <= i < (a + b).len() && (a + b)[i] == '\n';
        if i < a.len() {
            assert(a[i] == '\n');
        } else {
            assert(b[i - a.len()] == '\n');
        }
    }
}

/// When no tier name or reason holds a line break, the status report's
/// text is a single line (so `keel status | head` sees one complete line).
pub proof fn lemma_report_single_line(hs: Seq<HealthView>, since: Option<i64>, now: i64)
    requires
        single_line_names(hs),
    ensures
        !status_text(
            nominal_spec(hs),
            ceiling_spec(hs),
            match since {
                Some(s) => Some(duration_text(now - s)),
                None => None,
            },
            reason_spec(hs),
            since,
        ).contains('\n'),
{
    reveal_strlit("unknown");
    reveal_strlit("cloud keyless");
    reveal_strlit("cloud unreachable: ");
    reveal_strlit("cloud exhausted");
    reveal_strlit("cloud degraded");
    let pr = |h: HealthView| is_reachable(h);
    let pc = |h: HealthView| !(h.status is Unconfigured);
    crate::types::lemma_last_match(hs, pr);
    crate::types::lemma_first_match(hs, pc);
    assert(!ceiling_spec(hs).contains('\n')) by {
        let r = last_match(hs, pr);
        let f = first_match(hs, pc);
        if r < 0 && f < 0 {
            assert(ceiling_spec(hs) == "unknown"@);
        }
    }
    let d = match since {
        Some(s) => Some(duration_text(now - s)),
        None => None,
    };
    if let Some(s) = since {
        lemma_duration_text_single_line(now - s);
    }
    let pa = |h: HealthView| is_active_cloud(h);
    crate::types::lemma_last_match(hs, pa);
    if let Some(r) = reason_spec(hs) {
        let c = last_match(hs, pa);
        assert(0 <= c < hs.len());
        match hs[c].status {
            StatusView::Unreachable { reason } => {
                lemma_concat_no_newline("cloud unreachable: "@, reason);
            },
            _ => {},
        }
    }
    lemma_status_text_single_line(nominal_spec(hs), ceiling_spec(hs), d, reason_spec(hs), since);
}

// ---------------------------------------------------------------------------
// Clock
// ---------------------------------------------------------------------------

/// `std::time::SystemTime`, carried opaquely.
#[verifier::external_type_specification]
#[verifier::external_body]
pub struct ExSystemTime(std::time::SystemTime);

/// `SystemTime::now`: the current wall-clock time (nothing is promised of it).
#[verifier::external_body]
fn system_now() -> std::time::SystemTime {
    std::time::SystemTime::now()
}

/// `std::time::SystemTimeError`, carried opaquely.
#[verifier::external_type_specification]
#[verifier::external_body]
pub struct ExSystemTimeError(std::time::SystemTimeError);

/// `SystemTime::duration_since(UNIX_EPOCH)`: the time elapsed since the
/// epoch, or an error when `t` lies before it (nothing is promised of either).
#[verifier::external_body]
fn since_epoch(t: &std::time::SystemTime) -> Result<std::time::Duration, std::time::SystemTimeError> {
    t.duration_since(std::time::UNIX_EPOCH)
}

/// `Duration::as_secs`: the whole seconds of `d` (nothing is promised of them).
#[verifier::external_body]
fn whole_secs(d: &std::time::Duration) -> u64 {
    d.as_secs()
}

/// A clock reading in whole seconds since the epoch (`None`: before the
/// epoch) as a timestamp: before the epoch reads 0, beyond `i64::MAX` reads
/// `i64::MAX`.
pub open spec fn epoch_reading(secs: Option<u64>) -> i64 {
    match secs {
        Some(s) => if s > i64::MAX {
            i64::MAX
        } else {
            s as i64
        },
        None => 0,
    }
}

/// Turn a clock reading into a timestamp, as `epoch_reading` says.
pub fn timestamp_of(secs: Option<u64>) -> (t: i64)
    ensures
        t == epoch_reading(secs),
{
    match secs {
        Some(s) => {
            if s > i64::MAX as u64 {
                i64::MAX
            } else {
                s as i64
            }
        },
        None => 0,
    }
}

/// Get the current unix timestamp in seconds (fallback to 0).
///
/// The clock's reading is turned into a timestamp by `timestamp_of`: seconds
/// beyond `i64::MAX` read as `i64::MAX`; a clock before the epoch reads 0.
/// Which reading the clock gives is not stated.
pub fn unix_now() -> (t: i64)
    ensures
        t >= 0,
        exists|secs: Option<u64>| t == epoch_reading(secs),
{
    let now = system_now();
    let secs: Option<u64> = match since_epoch(&now) {
        Ok(d) => Some(whole_secs(&d)),
        Err(_) => None,
    };
    let t = timestamp_of(secs);
    assert(t == epoch_reading(secs));
    t
}

/// A floored line shows its duration whenever there is one, whatever the
/// reason: it starts with `floored: <ceiling> for <duration>`, and with no
/// reason that is the whole line.
pub proof fn lemma_floored_line_shows_duration(
    ceiling: Seq<char>,
    d: Seq<char>,
    reason: Option<Seq<char>>,
    since: Option<i64>,
)
    ensures
        ({
            let t = status_text(false, ceiling, Some(d), reason, since);
            let head = "floored: "@ + ceiling + " for "@ + d;
            &&& head.len() <= t.len()
            &&& t.take(head.len() as int) == head
            &&& reason is None ==> t == head
        }),
{
    let t = status_text(false, ceiling, Some(d), reason, since);
    let head = "floored: "@ + ceiling + " for "@ + d;
    assert(t == head + reason_part(reason, since));
    assert(t.take(head.len() as int) =~= head);
    if reason is None {
        assert(t =~= head);
    }
}

/// A nominal line names the ceiling as reachable, and nothing else; a
/// floored line with a reason ends with that reason in parentheses, followed
/// by the date the ceiling has held since when that is known.
pub proof fn lemma_line_ends(
    ceiling: Seq<char>,
    dur: Option<Seq<char>>,
    reason: Option<Seq<char>>,
    since: Option<i64>,
)
    ensures
        status_text(true, ceiling, dur, reason, since) == "nominal: "@ + ceiling + " reachable"@,
        reason matches Some(r) ==> ({
            let t = status_text(false, ceiling, dur, reason, since);
            let tail = " ("@ + r + (match since {
                Some(s) => " since "@ + date_text(s as int),
                None => Seq::empty(),
            }) + ")"@;
            &&& tail.len() <= t.len()
            &&& t.skip(t.len() - tail.len()) == tail
        }),
{
    if let Some(r) = reason {
        let t = status_text(false, ceiling, dur, reason, since);
        let d = match dur {
            Some(d) => " for "@ + d,
            None => Seq::empty(),
        };
        let tail = reason_part(reason, since);
        assert(t == ("floored: "@ + ceiling + d) + tail);
        assert(t.skip(t.len() - tail.len()) =~= tail);
    }
}

} // verus!
