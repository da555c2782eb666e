//! `keel spend` — window durations and the per-tier aggregation of the
//! spend ledger.
//!
//! Duration format: `<N>d`, `<N>h`, `<N>m`, `<N>s`. The aggregation counts
//! tokens, calls and the time window per tier and overall; the dollar
//! amounts are summed by the caller, in the order of the row lists handed back.

use vstd::prelude::*;
use crate::names::{sorted_keys, NameMap};
use crate::text::{
    aligned_right, chars_of, lex_lt, nat_text, owned, padded, push_aligned_right, push_char, push_padded, push_str, push_u64,
    string_of, trim_chars, trimmed,
};

verus! {

broadcast use vstd::string::group_string_axioms;

// ---------------------------------------------------------------------------
// Integer parsing (`str::parse::<i64>`)
// ---------------------------------------------------------------------------

/// Whether every char is an ASCII digit.
pub open spec fn all_digits(d: Seq<char>) -> bool {
    forall|i: int| 0 <= i < d.len() ==> 48 <= #[trigger] (d[i] as u32) <= 57
}

/// The value of a run of decimal digits.
pub open spec fn digits_value(d: Seq<char>) -> nat
    decreases d.len(),
{
    if d.len() == 0 {
        0
    } else {
        digits_value(d.drop_last()) * 10 + ((d.last() as u32) - 48) as nat
    }
}

/// `str::parse::<i64>`: an optional `+` or `-`, then one or more ASCII
/// digits, whose value fits in an `i64`.
pub open spec fn parse_i64_spec(t: Seq<char>) -> Option<int> {
    let neg = t.len() > 0 && t[0] == '-';
    let d = if t.len() > 0 && (t[0] == '-' || t[0] == '+') {
        t.drop_first()
    } else {
        t
    };
    if d.len() == 0 || !all_digits(d) {
        None
    } else {
        let v = if neg {
            -digits_value(d)
        } else {
            digits_value(d) as int
        };
        if i64::MIN <= v <= i64::MAX {
            Some(v)
        } else {
            None
        }
    }
}

proof fn lemma_digits_value_grows(d: Seq<char>, k: int)
    requires
        0 <= k <= d.len(),
        all_digits(d),
    ensures
        digits_value(d.take(k)) <= digits_value(d),
    decreases d.len() - k,
{
    if k < d.len() {
        lemma_digits_value_grows(d, k + 1);
        assert(d.take(k + 1).drop_last() =~= d.take(k));
    } else {
        assert(d.take(k) =~= d);
    }
}

/// Parses `t` as an `i64` the way `str::parse` does.
pub fn parse_i64(t: &Vec<char>) -> (r: Option<i64>)
    ensures
        match r {
            Some(v) => parse_i64_spec(t@) == Some(v as int),
            None => parse_i64_spec(t@) is None,
        },
{
    let n = t.len();
    let mut start: usize = 0;
    let mut neg = false;
    if n > 0 && (t[0] == '-' || t[0] == '+') {
        neg = t[0] == '-';
        start = 1;
    }
    assert(neg == (t@.len() > 0 && t@[0] == '-'));
    let ghost d = if t@.len() > 0 && (t@[0] == '-' || t@[0] == '+') {
        t@.drop_first()
    } else {
        t@
    };
    assert(d =~= t@.subrange(start as int, n as int));
    if start == n {
        return None;
    }
    let limit: u64 = 9_223_372_036_854_775_808;
    let mut acc: u64 = 0;
    let mut i: usize = start;
    while i < n
        invariant
            start <= i <= n == t@.len(),
            start < n,
            d == t@.subrange(start as int, n as int),
            d == (if t@.len() > 0 && (t@[0] == '-' || t@[0] == '+') {
                t@.drop_first()
            } else {
                t@
            }),
            neg == (t@.len() > 0 && t@[0] == '-'),
            all_digits(d.take(i - start)),
            acc as nat == digits_value(d.take(i - start)),
            limit == 9_223_372_036_854_775_808u64,
            acc <= limit,
        decreases n - i,
    {
        let c = t[i];
        let cu = c as u32;
        if !(48 <= cu && cu <= 57) {
            assert(d[i - start] == c);
            assert(!all_digits(d));
            return None;
        }
        let dv: u64 = (cu - 48) as u64;
        assert(d.take(i - start + 1).drop_last() =~= d.take(i - start));
        assert(d.take(i - start + 1).last() == c);
        if acc > (limit - dv) / 10 {
            assert(acc * 10 + dv > limit) by (nonlinear_arith)
                requires
                    acc > (limit - dv) / 10,
                    dv <= 9,
                    limit == 9_223_372_036_854_775_808u64,
            ;
            assert(digits_value(d.take(i - start + 1)) > limit);
            proof {
                if all_digits(d) {
                    lemma_digits_value_grows(d, i - start + 1);
                }
            }
            return None;
        }
        acc = acc * 10 + dv;
        i += 1;
    }
    assert(d.take(n - start) =~= d);
    if neg {
        Some((0 - (acc as i128)) as i64)
    } else {
        if acc > 9_223_372_036_854_775_807 {
            None
        } else {
            Some(acc as i64)
        }
    }
}

// ---------------------------------------------------------------------------
// Duration parsing
// ---------------------------------------------------------------------------

/// Seconds per unit for a duration suffix, or 0 for an unknown suffix.
pub open spec fn unit_secs(c: char) -> int {
    if c == 'd' {
        86_400
    } else if c == 'h' {
        3_600
    } else if c == 'm' {
        60
    } else if c == 's' {
        1
    } else {
        0
    }
}

/// What `parse_duration_secs` computes, before the product is fit into an
/// `i64`: the seconds, or the error message.
pub open spec fn duration_spec(s: Seq<char>) -> Result<int, Seq<char>> {
    let t = trimmed(s);
    if t.len() == 0 || unit_secs(t.last()) == 0 {
        Err("unrecognised duration '"@ + t + "'; expected <N>d|h|m|s (e.g. '7d', '24h')"@)
    } else {
        match parse_i64_spec(t.drop_last()) {
            None => Err("invalid number in duration '"@ + t + "'"@),
            Some(n) => if n < 0 {
                Err("duration must be positive, got '"@ + t + "'"@)
            } else {
                Ok(n * unit_secs(t.last()))
            },
        }
    }
}

/// The seconds of a well-formed duration fit in an `i64` (the product
/// `N * unit` does not overflow).
pub open spec fn duration_fits_spec(s: Seq<char>) -> bool {
    duration_spec(s) matches Ok(v) ==> v <= i64::MAX
}

fn quoted_error(prefix: &str, t: &Vec<char>, suffix: &str) -> (e: String)
    ensures
        e@ == prefix@ + t@ + suffix@,
{
    let mut e = owned(prefix);
    let body = string_of(t);
    push_str(&mut e, body.as_str());
    push_str(&mut e, suffix);
    e
}

/// The parsed pieces: `(N, seconds per unit)`, or the error message.
fn duration_parts(s: &str) -> (r: Result<(i64, i64), String>)
    ensures
        match r {
            Ok((n, u)) => duration_spec(s@) == Ok::<int, Seq<char>>(n * u) && n >= 0 && 1 <= u <= 86_400,
            Err(e) => duration_spec(s@) == Err::<int, Seq<char>>(e@),
        },
{
    let cs = chars_of(s);
    let t = trim_chars(&cs);
    let n = t.len();
    let unit: i64 = if n == 0 {
        0
    } else if t[n - 1] == 'd' {
        86_400
    } else if t[n - 1] == 'h' {
        3_600
    } else if t[n - 1] == 'm' {
        60
    } else if t[n - 1] == 's' {
        1
    } else {
        0
    };
    if unit == 0 {
        return Err(quoted_error("unrecognised duration '", &t, "'; expected <N>d|h|m|s (e.g. '7d', '24h')"));
    }
    let mut num: Vec<char> = Vec::new();
    let mut i: usize = 0;
    while i < n - 1
        invariant
            n == t@.len(),
            n >= 1,
            i <= n - 1,
            num@ == t@.take(i as int),
        decreases n - 1 - i,
    {
        num.push(t[i]);
        assert(t@.take(i + 1) =~= t@.take(i as int).push(t@[i as int]));
        i += 1;
    }
    assert(num@ =~= t@.drop_last());
    match parse_i64(&num) {
        None => Err(quoted_error("invalid number in duration '", &t, "'")),
        Some(v) => {
            if v < 0 {
                Err(quoted_error("duration must be positive, got '", &t, "'"))
            } else {
                Ok((v, unit))
            }
        },
    }
}

/// Whether the duration's seconds fit in an `i64` (`parse_duration_secs`
/// asks this of its input).
pub fn duration_fits(s: &str) -> (b: bool)
    ensures
        b == duration_fits_spec(s@),
{
    match duration_parts(s) {
        Ok((n, u)) => n.checked_mul(u).is_some(),
        Err(_) => true,
    }
}

/// Parse a human duration string like `"7d"`, `"24h"`, `"30m"`, `"60s"`
/// into seconds; surrounding whitespace is ignored.
///
/// Returns an error string for unrecognised formats, bad numbers and
/// negative amounts.
pub fn parse_duration_secs(s: &str) -> (r: Result<i64, String>)
    requires
        duration_fits_spec(s@),
    ensures
        match r {
            Ok(v) => duration_spec(s@) == Ok::<int, Seq<char>>(v as int),
            Err(e) => duration_spec(s@) == Err::<int, Seq<char>>(e@),
        },
{
    match duration_parts(s) {
        Ok((n, u)) => {
            assert(n * u >= 0) by (nonlinear_arith)
                requires
                    n >= 0,
                    u >= 1,
            ;
            Ok(n * u)
        },
        Err(e) => Err(e),
    }
}

// ---------------------------------------------------------------------------
// Aggregation
// ---------------------------------------------------------------------------

/// One ledger record, as the aggregation sees it: whether it carries a cost,
/// not the cost itself.
#[derive(Debug, PartialEq, Eq)]
pub struct SpendRow {
    /// Tier name.
    pub tier: String,
    /// Input tokens.
    pub tokens_in: u64,
    /// Output tokens.
    pub tokens_out: u64,
    /// Whether the record has an estimated cost (`false`: unpriced tier).
    pub priced: bool,
    /// Unix timestamp (seconds).
    pub ts: i64,
}

/// Per-tier totals of the rows in the window.
#[derive(Debug, PartialEq, Eq)]
pub struct TierTally {
    /// Tier name.
    pub tier: String,
    /// Total input tokens (saturating).
    pub tokens_in: u64,
    /// Total output tokens (saturating).
    pub tokens_out: u64,
    /// Number of rows.
    pub calls: u64,
    /// Whether every row had a cost.
    pub priced: bool,
    /// Positions of the rows in the input, in input order.
    pub rows: Vec<usize>,
}

/// Totals for the whole window.
#[derive(Debug, PartialEq, Eq)]
pub struct SpendTally {
    /// Per-tier totals, sorted by tier name.
    pub tiers: Vec<TierTally>,
    /// Total input tokens (saturating).
    pub total_tokens_in: u64,
    /// Total output tokens (saturating).
    pub total_tokens_out: u64,
    /// Total rows.
    pub total_calls: u64,
    /// Whether every row had a cost.
    pub all_priced: bool,
    /// Earliest timestamp included.
    pub window_start: Option<i64>,
    /// Latest timestamp included.
    pub window_end: Option<i64>,
}

/// Exact (unsaturated) totals over some rows.
pub struct TallyView {
    /// Input tokens.
    pub tokens_in: nat,
    /// Output tokens.
    pub tokens_out: nat,
    /// Rows counted.
    pub calls: nat,
    /// All rows priced.
    pub priced: bool,
    /// Positions of the rows.
    pub rows: Seq<int>,
    /// Least timestamp.
    pub first_ts: Option<i64>,
    /// Greatest timestamp.
    pub last_ts: Option<i64>,
}

/// Totals over no rows.
pub open spec fn no_rows() -> TallyView {
    TallyView { tokens_in: 0, tokens_out: 0, calls: 0, priced: true, rows: Seq::empty(), first_ts: None, last_ts: None }
}

/// Totals after counting row `r` found at position `i`.
pub open spec fn count_row(t: TallyView, r: SpendRow, i: int) -> TallyView {
    TallyView {
        tokens_in: t.tokens_in + r.tokens_in as nat,
        tokens_out: t.tokens_out + r.tokens_out as nat,
        calls: t.calls + 1,
        priced: t.priced && r.priced,
        rows: t.rows.push(i),
        first_ts: match t.first_ts {
            Some(a) => Some(if r.ts < a {
                r.ts
            } else {
                a
            }),
            None => Some(r.ts),
        },
        last_ts: match t.last_ts {
            Some(a) => Some(if r.ts > a {
                r.ts
            } else {
                a
            }),
            None => Some(r.ts),
        },
    }
}

/// Whether a row falls in the window starting at `cutoff` (no cutoff: all rows).
pub open spec fn in_window(r: SpendRow, cutoff: Option<i64>) -> bool {
    match cutoff {
        Some(c) => r.ts >= c,
        None => true,
    }
}

/// Exact totals of the rows in the window.
pub open spec fn window_totals(rows: Seq<SpendRow>, cutoff: Option<i64>) -> TallyView
    decreases rows.len(),
{
    if rows.len() == 0 {
        no_rows()
    } else {
        let t = window_totals(rows.drop_last(), cutoff);
        if in_window(rows.last(), cutoff) {
            count_row(t, rows.last(), rows.len() - 1)
        } else {
            t
        }
    }
}

/// Exact totals of the rows in the window, per tier name.
pub open spec fn tier_totals(rows: Seq<SpendRow>, cutoff: Option<i64>) -> Map<Seq<char>, TallyView>
    decreases rows.len(),
{
    if rows.len() == 0 {
        Map::empty()
    } else {
        let m = tier_totals(rows.drop_last(), cutoff);
        let r = rows.last();
        if in_window(r, cutoff) {
            let t = if m.contains_key(r.tier@) {
                m[r.tier@]
            } else {
                no_rows()
            };
            m.insert(r.tier@, count_row(t, r, rows.len() - 1))
        } else {
            m
        }
    }
}

/// `x` capped at `u64::MAX`.
pub open spec fn sat_u64(x: nat) -> nat {
    if x > u64::MAX {
        u64::MAX as nat
    } else {
        x
    }
}

/// An exec tally agrees with exact totals (token sums saturate).
pub open spec fn tally_matches(t: TierTally, v: TallyView) -> bool {
    &&& t.tokens_in as nat == sat_u64(v.tokens_in)
    &&& t.tokens_out as nat == sat_u64(v.tokens_out)
    &&& t.calls as nat == sat_u64(v.calls)
    &&& t.priced == v.priced
    &&& t.rows@.map_values(|i: usize| i as int) == v.rows
}

fn sat_add_u64(a: u64, b: u64) -> (r: u64)
    ensures
        r as nat == sat_u64(a as nat + b as nat),
{
    match a.checked_add(b) {
        Some(s) => s,
        None => u64::MAX,
    }
}

fn copy_rows(v: &Vec<usize>) -> (r: Vec<usize>)
    ensures
        r@ == v@,
{
    let mut r: Vec<usize> = Vec::new();
    let mut i: usize = 0;
    while i < v.len()
        invariant
            i <= v@.len(),
            r@ == v@.take(i as int),
        decreases v.len() - i,
    {
        r.push(v[i]);
        assert(v@.take(i + 1) =~= v@.take(i as int).push(v@[i as int]));
        i += 1;
    }
    assert(v@.take(v@.len() as int) =~= v@);
    r
}

/// Same tier, counts and row list.
pub open spec fn same_tally(a: TierTally, b: TierTally) -> bool {
    a.tier == b.tier && a.tokens_in == b.tokens_in && a.tokens_out == b.tokens_out && a.calls == b.calls && a.priced
        == b.priced && a.rows@ == b.rows@
}

impl Clone for TierTally {
    fn clone(&self) -> (r: Self)
        ensures
            same_tally(r, *self),
    {
        TierTally {
            tier: self.tier.clone(),
            tokens_in: self.tokens_in,
            tokens_out: self.tokens_out,
            calls: self.calls,
            priced: self.priced,
            rows: copy_rows(&self.rows),
        }
    }
}

proof fn lemma_sat_step(a: nat, b: nat)
    ensures
        sat_u64(sat_u64(a) + b) == sat_u64(a + b),
{
}

/// The earliest timestamp a tally counts: `now - since` seconds, or none.
pub open spec fn window_cutoff(since_secs: Option<i64>, now: i64) -> Option<i64> {
    match since_secs {
        Some(s) => Some((now - s) as i64),
        None => None,
    }
}

/// Aggregate rows into per-tier and overall totals.
///
/// - `since_secs`: if `Some(s)`, only rows with `ts >= now - s` count.
/// - Token sums saturate at `u64::MAX`; per tier, the rows are listed by
///   position so that the caller can sum costs in input order.
pub fn tally(rows: &[SpendRow], since_secs: Option<i64>, now: i64) -> (t: SpendTally)
    requires
        since_secs matches Some(s) ==> i64::MIN <= now - s <= i64::MAX,
    ensures
        ({
            let w = window_totals(rows@, window_cutoff(since_secs, now));
            let m = tier_totals(rows@, window_cutoff(since_secs, now));
            &&& t.total_tokens_in as nat == sat_u64(w.tokens_in)
            &&& t.total_tokens_out as nat == sat_u64(w.tokens_out)
            &&& t.total_calls as nat == sat_u64(w.calls)
            &&& t.all_priced == w.priced
            &&& t.window_start == w.first_ts
            &&& t.window_end == w.last_ts
            &&& forall|i: int| 0 <= i < t.tiers@.len() ==> m.contains_key(#[trigger] t.tiers@[i].tier@)
                && tally_matches(t.tiers@[i], m[t.tiers@[i].tier@])
            &&& forall|k: Seq<char>| #[trigger] m.contains_key(k) ==> exists|i: int|
                0 <= i < t.tiers@.len() && t.tiers@[i].tier@ == k
            &&& forall|i: int, j: int| 0 <= i < j < t.tiers@.len() ==> lex_lt(
                #[trigger] t.tiers@[i].tier@,
                #[trigger] t.tiers@[j].tier@,
            )
        }),
{
    let cutoff: Option<i64> = match since_secs {
        Some(s) => Some(now - s),
        None => None,
    };
    assert(cutoff == window_cutoff(since_secs, now));
    let mut acc: NameMap<TierTally> = NameMap::new();
    let mut total_in: u64 = 0;
    let mut total_out: u64 = 0;
    let mut total_calls: u64 = 0;
    let mut all_priced = true;
    let mut window_start: Option<i64> = None;
    let mut window_end: Option<i64> = None;
    let mut i: usize = 0;
    while i < rows.len()
        invariant
            i <= rows@.len(),
            ({
                let w = window_totals(rows@.take(i as int), cutoff);
                &&& total_in as nat == sat_u64(w.tokens_in)
                &&& total_out as nat == sat_u64(w.tokens_out)
                &&& total_calls as nat == w.calls
                &&& w.calls <= i
                &&& all_priced == w.priced
                &&& window_start == w.first_ts
                &&& window_end == w.last_ts
            }),
            forall|k: Seq<char>| #[trigger] acc.as_map().contains_key(k) <==> tier_totals(rows@.take(i as int), cutoff).contains_key(k),
            forall|k: Seq<char>| #[trigger] acc.as_map().contains_key(k) ==> acc.as_map()[k].tier@ == k
                && tally_matches(acc.as_map()[k], tier_totals(rows@.take(i as int), cutoff)[k])
                && tier_totals(rows@.take(i as int), cutoff)[k].calls <= i,
        decreases rows.len() - i,
    {
        let r = &rows[i];
        let ghost pre = rows@.take(i as int);
        let ghost post = rows@.take(i + 1);
        assert(post.drop_last() =~= pre);
        assert(post.last() == *r);
        let inside = match cutoff {
            Some(c) => r.ts >= c,
            None => true,
        };
        if inside {
            proof {
                lemma_sat_step(window_totals(pre, cutoff).tokens_in, r.tokens_in as nat);
                lemma_sat_step(window_totals(pre, cutoff).tokens_out, r.tokens_out as nat);
            }
            total_in = sat_add_u64(total_in, r.tokens_in);
            total_out = sat_add_u64(total_out, r.tokens_out);
            total_calls = total_calls + 1;
            all_priced = all_priced && r.priced;
            window_start = match window_start {
                Some(a) => Some(if r.ts < a { r.ts } else { a }),
                None => Some(r.ts),
            };
            window_end = match window_end {
                Some(a) => Some(if r.ts > a { r.ts } else { a }),
                None => Some(r.ts),
            };
            let ghost m_pre = tier_totals(pre, cutoff);
            let ghost old_map = acc.as_map();
            let mut entry = match acc.get(r.tier.as_str()) {
                Some(e) => {
                    let c = e.clone();
                    assert(c.rows@.map_values(|i: usize| i as int) =~= e.rows@.map_values(|i: usize| i as int));
                    c
                },
                None => TierTally {
                    tier: r.tier.clone(),
                    tokens_in: 0,
                    tokens_out: 0,
                    calls: 0,
                    priced: true,
                    rows: Vec::new(),
                },
            };
            let ghost prev_view = if m_pre.contains_key(r.tier@) {
                m_pre[r.tier@]
            } else {
                no_rows()
            };
            assert(tally_matches(entry, prev_view)) by {
                if !m_pre.contains_key(r.tier@) {
                    assert(entry.rows@.map_values(|i: usize| i as int) =~= Seq::<int>::empty());
                }
            }
            proof {
                lemma_sat_step(prev_view.tokens_in, r.tokens_in as nat);
                lemma_sat_step(prev_view.tokens_out, r.tokens_out as nat);
            }
            entry.tokens_in = sat_add_u64(entry.tokens_in, r.tokens_in);
            entry.tokens_out = sat_add_u64(entry.tokens_out, r.tokens_out);
            entry.calls = entry.calls + 1;
            entry.priced = entry.priced && r.priced;
            let ghost old_rows = entry.rows@;
            entry.rows.push(i);
            assert(entry.rows@.map_values(|j: usize| j as int) =~= old_rows.map_values(|j: usize| j as int).push(
                i as int,
            ));
            let ghost new_view = count_row(prev_view, *r, i as int);
            assert(tally_matches(entry, new_view));
            acc.insert(r.tier.clone(), entry);
            assert(tier_totals(post, cutoff) == m_pre.insert(r.tier@, new_view));
            assert forall|k: Seq<char>| #[trigger] acc.as_map().contains_key(k) implies acc.as_map()[k].tier@ == k
                && tally_matches(acc.as_map()[k], tier_totals(post, cutoff)[k]) && tier_totals(post, cutoff)[k].calls
                <= i + 1 by {
                if k != r.tier@ {
                    assert(old_map.contains_key(k));
                }
            }
        } else {
            assert(window_totals(post, cutoff) == window_totals(pre, cutoff));
            assert(tier_totals(post, cutoff) == tier_totals(pre, cutoff));
        }
        i += 1;
    }
    assert(rows@.take(rows@.len() as int) =~= rows@);
    let ghost m = tier_totals(rows@, cutoff);
    let refs = acc.values();
    let mut tiers: Vec<TierTally> = Vec::new();
    let mut j: usize = 0;
    while j < refs.len()
        invariant
            j <= refs@.len(),
            tiers@.len() == j,
            forall|q: int| 0 <= q < j ==> same_tally(tiers@[q], *refs@[q]),
        decreases refs.len() - j,
    {
        tiers.push(refs[j].clone());
        j += 1;
    }
    let ghost ks = acc.key_seq();
    let ghost am = acc.as_map();
    assert forall|q: int| 0 <= q < tiers@.len() implies tiers@[q].tier@ == ks[q] by {
        assert(am.contains_key(ks[q]));
    }
    assert forall|q: int| 0 <= q < tiers@.len() implies #[trigger] m.contains_key(tiers@[q].tier@) && tally_matches(
        tiers@[q],
        m[tiers@[q].tier@],
    ) by {
        assert(am.contains_key(ks[q]));
    }
    assert forall|a: int, b: int| 0 <= a < b < tiers@.len() implies lex_lt(
        #[trigger] tiers@[a].tier@,
        #[trigger] tiers@[b].tier@,
    ) by {
        assert(tiers@[a].tier@ == ks[a]);
        assert(tiers@[b].tier@ == ks[b]);
    }
    let t = SpendTally {
        tiers,
        total_tokens_in: total_in,
        total_tokens_out: total_out,
        total_calls: total_calls,
        all_priced,
        window_start,
        window_end,
    };
    assert forall|k: Seq<char>| #[trigger] m.contains_key(k) implies exists|i: int|
        0 <= i < t.tiers@.len() && t.tiers@[i].tier@ == k by {
        assert(am.contains_key(k));
        assert(ks.contains(k));
        let q = choose|q: int| 0 <= q < ks.len() && ks[q] == k;
        assert(t.tiers@[q].tier@ == k);
    }
    t
}

// ---------------------------------------------------------------------------
// Laws of the tally
// ---------------------------------------------------------------------------

/// The rows in the window, in input order.
pub open spec fn window_rows(rows: Seq<SpendRow>, cutoff: Option<i64>) -> Seq<SpendRow> {
    rows.filter(|r: SpendRow| in_window(r, cutoff))
}

/// Plain sum of the input tokens of `rows`.
pub open spec fn sum_in(rows: Seq<SpendRow>) -> nat
    decreases rows.len(),
{
    if rows.len() == 0 {
        0
    } else {
        sum_in(rows.drop_last()) + rows.last().tokens_in as nat
    }
}

/// Plain sum of the output tokens of `rows`.
pub open spec fn sum_out(rows: Seq<SpendRow>) -> nat
    decreases rows.len(),
{
    if rows.len() == 0 {
        0
    } else {
        sum_out(rows.drop_last()) + rows.last().tokens_out as nat
    }
}

/// The window totals are those of the rows in the window: as many calls as
/// rows, the plain token sums, priced exactly when every such row is, and
/// the least and greatest timestamp of those rows (none when there are none).
pub proof fn lemma_window_totals(rows: Seq<SpendRow>, cutoff: Option<i64>)
    ensures
        ({
            let w = window_totals(rows, cutoff);
            let f = window_rows(rows, cutoff);
            &&& w.calls == f.len()
            &&& w.tokens_in == sum_in(f)
            &&& w.tokens_out == sum_out(f)
            &&& w.priced <==> (forall|i: int| 0 <= i < f.len() ==> #[trigger] f[i].priced)
            &&& (w.first_ts is None <==> f.len() == 0)
            &&& (w.last_ts is None <==> f.len() == 0)
            &&& (w.first_ts matches Some(a) ==> (exists|i: int| 0 <= i < f.len() && #[trigger] f[i].ts == a) && (forall|
                i: int,
            | 0 <= i < f.len() ==> a <= #[trigger] f[i].ts))
            &&& (w.last_ts matches Some(a) ==> (exists|i: int| 0 <= i < f.len() && #[trigger] f[i].ts == a) && (forall|
                i: int,
            | 0 <= i < f.len() ==> #[trigger] f[i].ts <= a))
        }),
    decreases rows.len(),
{
    reveal(Seq::filter);
    if rows.len() > 0 {
        lemma_window_totals(rows.drop_last(), cutoff);
        let f0 = window_rows(rows.drop_last(), cutoff);
        let f = window_rows(rows, cutoff);
        let r = rows.last();
        if in_window(r, cutoff) {
            assert(f == f0.push(r));
            assert(f.drop_last() =~= f0);
            let w0 = window_totals(rows.drop_last(), cutoff);
            let w = window_totals(rows, cutoff);
            assert forall|i: int| 0 <= i < f0.len() implies #[trigger] f[i] == f0[i] by {}
            assert(f[f0.len() as int] == r);
            if w.priced {
                assert forall|i: int| 0 <= i < f.len() implies #[trigger] f[i].priced by {
                    if i < f0.len() {
                        assert(f0[i].priced);
                    }
                }
            }
            if !w.priced {
                if !r.priced {
                    assert(!f[f0.len() as int].priced);
                } else {
                    assert(!w0.priced);
                    let j = choose|j: int| 0 <= j < f0.len() && !#[trigger] f0[j].priced;
                    assert(!f[j].priced);
                }
            }
            match w.first_ts {
                Some(a) => {
                    if w0.first_ts is None || r.ts < w0.first_ts->0 {
                        assert(f[f0.len() as int].ts == a);
                    } else {
                        let j = choose|j: int| 0 <= j < f0.len() && #[trigger] f0[j].ts == a;
                        assert(f[j].ts == a);
                    }
                    assert forall|i: int| 0 <= i < f.len() implies a <= #[trigger] f[i].ts by {
                        if i < f0.len() {
                            assert(f[i] == f0[i]);
                        }
                    }
                },
                None => {},
            }
            match w.last_ts {
                Some(a) => {
                    if w0.last_ts is None || r.ts > w0.last_ts->0 {
                        assert(f[f0.len() as int].ts == a);
                    } else {
                        let j = choose|j: int| 0 <= j < f0.len() && #[trigger] f0[j].ts == a;
                        assert(f[j].ts == a);
                    }
                    assert forall|i: int| 0 <= i < f.len() implies #[trigger] f[i].ts <= a by {
                        if i < f0.len() {
                            assert(f[i] == f0[i]);
                        }
                    }
                },
                None => {},
            }
        } else {
            assert(f == f0);
        }
    }
}

/// The rows of tier `k`, in order.
pub open spec fn tier_rows(rows: Seq<SpendRow>, k: Seq<char>) -> Seq<SpendRow> {
    rows.filter(|r: SpendRow| r.tier@ == k)
}

/// Per tier, the totals are those of the tier's rows in the window: a tier
/// has totals exactly when it has such rows, with as many calls as rows,
/// the plain token sums, and priced exactly when every such row is.
pub proof fn lemma_tier_totals(rows: Seq<SpendRow>, cutoff: Option<i64>, k: Seq<char>)
    ensures
        ({
            let m = tier_totals(rows, cutoff);
            let g = tier_rows(window_rows(rows, cutoff), k);
            &&& m.contains_key(k) <==> g.len() > 0
            &&& m.contains_key(k) ==> {
                &&& m[k].calls == g.len()
                &&& m[k].tokens_in == sum_in(g)
                &&& m[k].tokens_out == sum_out(g)
                &&& m[k].priced <==> (forall|i: int| 0 <= i < g.len() ==> #[trigger] g[i].priced)
            }
        }),
    decreases rows.len(),
{
    reveal(Seq::filter);
    if rows.len() > 0 {
        lemma_tier_totals(rows.drop_last(), cutoff, k);
        let r = rows.last();
        let f0 = window_rows(rows.drop_last(), cutoff);
        let f = window_rows(rows, cutoff);
        let g0 = tier_rows(f0, k);
        let g = tier_rows(f, k);
        let m0 = tier_totals(rows.drop_last(), cutoff);
        let m = tier_totals(rows, cutoff);
        if in_window(r, cutoff) {
            assert(f == f0.push(r));
            assert(f.drop_last() =~= f0);
            if r.tier@ == k {
                assert(g == g0.push(r));
                assert(g.drop_last() =~= g0);
                assert(m[k] == count_row(if m0.contains_key(k) { m0[k] } else { no_rows() }, r, rows.len() - 1));
                assert forall|i: int| 0 <= i < g0.len() implies #[trigger] g[i] == g0[i] by {}
                assert(g.last() == r);
                assert(sum_in(g) == sum_in(g0) + r.tokens_in as nat);
                assert(sum_out(g) == sum_out(g0) + r.tokens_out as nat);
                if !m0.contains_key(k) {
                    assert(g0.len() == 0);
                    assert(sum_in(g0) == 0);
                    assert(sum_out(g0) == 0);
                }
                if m[k].priced {
                    assert forall|i: int| 0 <= i < g.len() implies #[trigger] g[i].priced by {
                        if i < g0.len() {
                            assert(g0[i].priced);
                        }
                    }
                } else {
                    if !r.priced {
                        assert(!g[g0.len() as int].priced);
                    } else {
                        let j = choose|j: int| 0 <= j < g0.len() && !#[trigger] g0[j].priced;
                        assert(!g[j].priced);
                    }
                }
            } else {
                assert(g == g0);
            }
        } else {
            assert(f == f0);
        }
    }
}

// ---------------------------------------------------------------------------
// The spend table
// ---------------------------------------------------------------------------

/// One row of the spend table as printed: tier, input and output tokens,
/// cost (already rendered) and calls.
pub struct SpendLine {
    /// Tier name.
    pub tier: String,
    /// Input tokens.
    pub tokens_in: u64,
    /// Output tokens.
    pub tokens_out: u64,
    /// Cost text (`null` when unknown).
    pub cost: String,
    /// Number of calls.
    pub calls: u64,
}

/// A table line: the first column left-aligned in 15 chars, then four columns
/// right-aligned in 10, 11, 12 and 8 chars, separated by single spaces.
pub open spec fn spend_columns(a: Seq<char>, b: Seq<char>, c: Seq<char>, d: Seq<char>, e: Seq<char>) -> Seq<char> {
    padded(a, 15) + seq![' '] + aligned_right(b, 10) + seq![' '] + aligned_right(c, 11) + seq![' '] + aligned_right(d, 12)
        + seq![' '] + aligned_right(e, 8)
}

/// The line of a row.
pub open spec fn spend_row(l: SpendLine) -> Seq<char> {
    spend_columns(
        l.tier@,
        nat_text(l.tokens_in as nat),
        nat_text(l.tokens_out as nat),
        l.cost@,
        nat_text(l.calls as nat),
    )
}

/// The rule around the rows: 60 dashes.
pub open spec fn spend_rule() -> Seq<char> {
    Seq::new(60, |i: int| '-')
}

fn columns_text(a: &str, b: &str, c: &str, d: &str, e: &str) -> (r: String)
    ensures
        r@ == spend_columns(a@, b@, c@, d@, e@),
{
    let mut r = String::new();
    push_padded(&mut r, a, 15);
    push_char(&mut r, ' ');
    push_aligned_right(&mut r, b, 10);
    push_char(&mut r, ' ');
    push_aligned_right(&mut r, c, 11);
    push_char(&mut r, ' ');
    push_aligned_right(&mut r, d, 12);
    push_char(&mut r, ' ');
    push_aligned_right(&mut r, e, 8);
    assert(r@ =~= spend_columns(a@, b@, c@, d@, e@));
    r
}

fn number_text(n: u64) -> (r: String)
    ensures
        r@ == nat_text(n as nat),
{
    let mut r = String::new();
    push_u64(&mut r, n);
    assert(r@ =~= nat_text(n as nat));
    r
}

fn row_text(l: &SpendLine) -> (r: String)
    ensures
        r@ == spend_row(*l),
{
    let tin = number_text(l.tokens_in);
    let tout = number_text(l.tokens_out);
    let calls = number_text(l.calls);
    columns_text(l.tier.as_str(), tin.as_str(), tout.as_str(), l.cost.as_str(), calls.as_str())
}

fn rule_text() -> (r: String)
    ensures
        r@ == spend_rule(),
{
    let mut r = String::new();
    let mut k: usize = 0;
    while k < 60
        invariant
            k <= 60,
            r@ == Seq::new(k as nat, |i: int| '-'),
        decreases 60 - k,
    {
        push_char(&mut r, '-');
        assert(r@ =~= Seq::new((k + 1) as nat, |i: int| '-'));
        k += 1;
    }
    r
}

/// The lines `keel spend` prints as a table: header, rule, one line per
/// row, rule, and the `TOTAL` line (labelled `TOTAL`; `total.tier` is not shown).
pub fn spend_table(rows: &Vec<SpendLine>, total: &SpendLine) -> (lines: Vec<String>)
    ensures
        lines@.len() == rows@.len() + 4,
        lines@[0]@ == spend_columns("TIER"@, "TOKENS_IN"@, "TOKENS_OUT"@, "COST_USD"@, "CALLS"@),
        lines@[1]@ == spend_rule(),
        forall|i: int| 0 <= i < rows@.len() ==> #[trigger] lines@[i + 2]@ == spend_row(rows@[i]),
        lines@[rows@.len() + 2int]@ == spend_rule(),
        lines@[rows@.len() + 3int]@ == spend_columns(
            "TOTAL"@,
            nat_text(total.tokens_in as nat),
            nat_text(total.tokens_out as nat),
            total.cost@,
            nat_text(total.calls as nat),
        ),
{
    let mut lines: Vec<String> = Vec::new();
    lines.push(columns_text("TIER", "TOKENS_IN", "TOKENS_OUT", "COST_USD", "CALLS"));
    lines.push(rule_text());
    let mut i: usize = 0;
    while i < rows.len()
        invariant
            i <= rows@.len(),
            lines@.len() == i + 2,
            lines@[0]@ == spend_columns("TIER"@, "TOKENS_IN"@, "TOKENS_OUT"@, "COST_USD"@, "CALLS"@),
            lines@[1]@ == spend_rule(),
            forall|j: int| 0 <= j < i ==> #[trigger] lines@[j + 2]@ == spend_row(rows@[j]),
        decreases rows.len() - i,
    {
        lines.push(row_text(&rows[i]));
        i += 1;
    }
    lines.push(rule_text());
    let tin = number_text(total.tokens_in);
    let tout = number_text(total.tokens_out);
    let calls = number_text(total.calls);
    lines.push(columns_text("TOTAL", tin.as_str(), tout.as_str(), total.cost.as_str(), calls.as_str()));
    lines
}

/// Output format for `keel spend`.
#[derive(Debug, Clone, Copy, PartialEq, Eq)]
pub enum SpendFormat {
    /// Human-readable table.
    Table,
    /// Machine-readable JSON.
    Json,
}

} // verus!
