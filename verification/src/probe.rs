//! The `TierProbe` and `ProbeEnv` traits, their test doubles, and the rules
//! by which a real HTTP probe turns a response into a `TierStatus`.

use vstd::prelude::*;
use crate::names::NameMap;
use crate::text::{chars_of, owned, push_str, push_u64, string_of, nat_text, trim_chars, trimmed};
use crate::types::{names_view, opt_view, ConfigView, TierConfig, TierHealth, TierKind, TierStatus, StatusView, HealthView};

verus! {

broadcast use vstd::string::group_string_axioms;

/// Reads the probe's configuration from the environment or a fixture.
///
/// All real environment reads go through this trait so tests can inject
/// a `FakeProbeEnv` that never touches the process environment.
pub trait ProbeEnv: Send + Sync {
    /// Whether the answers are fixed values, given by `key_spec`,
    /// `skip_spec` and `max_spec` (a fixture, as opposed to the live environment).
    open spec fn is_fixture(&self) -> bool {
        false
    }

    /// The fixed API key of a fixture.
    open spec fn key_spec(&self) -> Option<Seq<char>> {
        None
    }

    /// The fixed skip list of a fixture.
    open spec fn skip_spec(&self) -> Seq<Seq<char>> {
        Seq::empty()
    }

    /// The fixed max tier of a fixture.
    open spec fn max_spec(&self) -> Option<Seq<char>> {
        None
    }

    /// Returns the Anthropic API key, or `None` if unset or empty.
    fn anthropic_key(&self) -> (r: Option<String>)
        ensures
            self.is_fixture() ==> opt_view(r) == self.key_spec(),
    ;

    /// Returns the set of tier names in `WM_BRAIN_SKIP_TIERS` (comma-separated).
    fn skip_tiers(&self) -> (r: Vec<String>)
        ensures
            self.is_fixture() ==> names_view(r@) == self.skip_spec(),
    ;

    /// Returns the max tier name from `WM_BRAIN_MAX_TIER`, or `None`.
    fn max_tier(&self) -> (r: Option<String>)
        ensures
            self.is_fixture() ==> opt_view(r) == self.max_spec(),
    ;
}

/// Probes one tier and returns its health.
///
/// A local tier probes its OpenAI-compatible endpoint with a non-generating
/// GET (`/v1/models`) — never `/v1/chat/completions`.
/// A cloud tier checks key presence first; with a key it calls a minimal
/// authed endpoint (models list) that returns 401/200 without a completion.
pub trait TierProbe: Send + Sync {
    /// Whether this probe keeps a log of the tiers it sent a request for (see `probed`).
    open spec fn keeps_log(&self) -> bool {
        false
    }

    /// Names of the tiers a request was sent for so far, for a probe that keeps a log.
    open spec fn probed(&self) -> Seq<Seq<char>> {
        Seq::empty()
    }

    /// Whether this probe keeps a log of every health it returned (see `answered`).
    open spec fn keeps_answers(&self) -> bool {
        false
    }

    /// Every health returned by `probe` so far, in order, for a probe that
    /// keeps that log.
    open spec fn answered(&self) -> Seq<HealthView> {
        Seq::empty()
    }

    /// Whether this probe's answers are fixed in advance (a test double):
    /// the health it gives is `answer_spec`, and it sends a request exactly
    /// when `sends` says so, for a fixture environment.
    open spec fn answers(&self) -> bool {
        false
    }

    /// The health an answering probe gives `tier` when the key reads `key`.
    open spec fn answer_spec(&self, tier: ConfigView, key: Option<Seq<char>>) -> HealthView {
        HealthView { tier: tier.name, status: StatusView::Reachable, checked_at: 0, consecutive_failures: 0 }
    }

    /// Whether an answering probe sends a request for `tier` when the key reads `key`.
    open spec fn sends(&self, tier: ConfigView, key: Option<Seq<char>>) -> bool {
        true
    }

    /// Probe `tier` and return its current health; the health is that of
    /// `tier`. A probe that keeps a log adds at most this tier to it. An
    /// answering probe keeps its answers, and for a fixture environment
    /// gives exactly its fixed answer and logs exactly when it sends.
    fn probe<E: ProbeEnv>(&mut self, tier: &TierConfig, env: &E) -> (h: TierHealth)
        ensures
            h.tier@ == tier.name@,
            final(self).keeps_log() == old(self).keeps_log(),
            old(self).keeps_log() ==> final(self).probed() == old(self).probed() || final(self).probed()
                == old(self).probed().push(tier.name@),
            final(self).keeps_answers() == old(self).keeps_answers(),
            old(self).keeps_answers() ==> final(self).answered() == old(self).answered().push(h@),
            final(self).answers() == old(self).answers(),
            old(self).answers() ==> forall|t: ConfigView, k: Option<Seq<char>>| #[trigger] final(self).answer_spec(t, k)
                == old(self).answer_spec(t, k),
            old(self).answers() ==> forall|t: ConfigView, k: Option<Seq<char>>| #[trigger] final(self).sends(t, k)
                == old(self).sends(t, k),
            old(self).answers() && env.is_fixture() ==> h@ == old(self).answer_spec(tier@, env.key_spec()),
            old(self).answers() && old(self).keeps_log() && env.is_fixture() ==> final(self).probed() == if old(
                self,
            ).sends(tier@, env.key_spec()) {
                old(self).probed().push(tier.name@)
            } else {
                old(self).probed()
            },
    ;
}

// ---------------------------------------------------------------------------
// Reading the environment's values
// ---------------------------------------------------------------------------

/// An empty value means unset: `None`; anything else is kept as is.
pub fn nonempty_value(v: String) -> (r: Option<String>)
    ensures
        match r {
            Some(s) => s == v && v@.len() > 0,
            None => v@.len() == 0,
        },
{
    if v.as_str().is_empty() {
        None
    } else {
        Some(v)
    }
}

/// The comma-separated fields of `s` (one field when there is no comma).
pub open spec fn comma_fields(s: Seq<char>) -> Seq<Seq<char>>
    decreases s.len(),
{
    if s.len() == 0 {
        seq![Seq::empty()]
    } else if s.last() == ',' {
        comma_fields(s.drop_last()).push(Seq::empty())
    } else {
        let f = comma_fields(s.drop_last());
        f.update(f.len() - 1, f.last().push(s.last()))
    }
}

proof fn lemma_comma_fields_nonempty(s: Seq<char>)
    ensures
        comma_fields(s).len() >= 1,
    decreases s.len(),
{
    if s.len() > 0 {
        lemma_comma_fields_nonempty(s.drop_last());
    }
}

/// A skip list as written: split at commas, each name trimmed, empty names dropped.
pub open spec fn skip_list_spec(s: Seq<char>) -> Seq<Seq<char>> {
    comma_fields(s).map_values(|f: Seq<char>| trimmed(f)).filter(|t: Seq<char>| t.len() > 0)
}

proof fn lemma_trimmed_filter_push(fields: Seq<Seq<char>>, f: Seq<char>)
    ensures
        fields.push(f).map_values(|x: Seq<char>| trimmed(x)).filter(|t: Seq<char>| t.len() > 0) == if trimmed(f).len()
            > 0 {
            fields.map_values(|x: Seq<char>| trimmed(x)).filter(|t: Seq<char>| t.len() > 0).push(trimmed(f))
        } else {
            fields.map_values(|x: Seq<char>| trimmed(x)).filter(|t: Seq<char>| t.len() > 0)
        },
{
    reveal(Seq::filter);
    let m = fields.push(f).map_values(|x: Seq<char>| trimmed(x));
    assert(m.drop_last() =~= fields.map_values(|x: Seq<char>| trimmed(x)));
    assert(m.last() == trimmed(f));
}

/// Parses a comma-separated skip list (`WM_BRAIN_SKIP_TIERS`): names are
/// trimmed and empty ones dropped.
pub fn parse_skip_list(raw: &str) -> (r: Vec<String>)
    ensures
        names_view(r@) == skip_list_spec(raw@),
{
    let cs = chars_of(raw);
    let mut out: Vec<String> = Vec::new();
    let mut field: Vec<char> = Vec::new();
    let mut i: usize = 0;
    proof {
        lemma_comma_fields_nonempty(cs@.take(0));
        assert(cs@.take(0) =~= Seq::<char>::empty());
        assert(comma_fields(Seq::<char>::empty()).drop_last() =~= Seq::<Seq<char>>::empty());
        assert(names_view(out@) =~= Seq::<Seq<char>>::empty());
        reveal(Seq::filter);
        assert(Seq::<Seq<char>>::empty().map_values(|x: Seq<char>| trimmed(x)) =~= Seq::<Seq<char>>::empty());
    }
    while i < cs.len()
        invariant
            i <= cs@.len(),
            cs@ == raw@,
            comma_fields(cs@.take(i as int)).len() >= 1,
            field@ == comma_fields(cs@.take(i as int)).last(),
            names_view(out@) == comma_fields(cs@.take(i as int)).drop_last().map_values(|x: Seq<char>| trimmed(x)).filter(
                |t: Seq<char>| t.len() > 0,
            ),
        decreases cs.len() - i,
    {
        let c = cs[i];
        let ghost pre = cs@.take(i as int);
        let ghost post = cs@.take(i + 1);
        assert(post.drop_last() =~= pre);
        assert(post.last() == c);
        let ghost fs = comma_fields(pre);
        proof {
            lemma_comma_fields_nonempty(post);
        }
        if c == ',' {
            let t = trim_chars(&field);
            proof {
                lemma_trimmed_filter_push(fs.drop_last(), fs.last());
                assert(fs.drop_last().push(fs.last()) =~= fs);
                assert(comma_fields(post).drop_last() =~= fs);
            }
            if t.len() > 0 {
                let ghost before = out@;
                out.push(string_of(&t));
                assert(names_view(out@) =~= names_view(before).push(t@));
            }
            field = Vec::new();
            assert(field@ =~= comma_fields(post).last());
        } else {
            field.push(c);
            assert(comma_fields(post).drop_last() =~= fs.drop_last());
            assert(field@ =~= comma_fields(post).last());
        }
        i += 1;
    }
    assert(cs@.take(cs@.len() as int) =~= cs@);
    let ghost fs = comma_fields(cs@);
    let t = trim_chars(&field);
    proof {
        lemma_trimmed_filter_push(fs.drop_last(), fs.last());
        assert(fs.drop_last().push(fs.last()) =~= fs);
    }
    if t.len() > 0 {
        let ghost before = out@;
        out.push(string_of(&t));
        assert(names_view(out@) =~= names_view(before).push(t@));
    }
    out
}

/// Whether a probe of this tier ends before any request: a cloud tier with
/// no API key is `Keyless` without touching the socket.
pub fn keyless_short_circuit(kind: TierKind, key: &Option<String>) -> (r: bool)
    ensures
        r == (kind == TierKind::Cloud && key is None),
{
    match (kind, key) {
        (TierKind::Cloud, None) => true,
        _ => false,
    }
}

// ---------------------------------------------------------------------------
// The HTTP probe's rules
// ---------------------------------------------------------------------------

/// What a GET to a tier's models endpoint came back with.
#[derive(Debug, PartialEq, Eq)]
pub enum HttpOutcome {
    /// A 2xx response.
    Success,
    /// A non-2xx HTTP status code.
    Status(u16),
    /// The request never got a response; the transport's message.
    Transport(String),
}

/// `s` without its trailing `'/'` chars (`str::trim_end_matches('/')`).
pub open spec fn without_trailing_slashes(s: Seq<char>) -> Seq<char>
    decreases s.len(),
{
    if s.len() > 0 && s.last() == '/' {
        without_trailing_slashes(s.drop_last())
    } else {
        s
    }
}

/// The non-generating URL a probe requests: the endpoint, trailing slashes
/// removed, followed by `/v1/models`.
pub fn models_url(endpoint: &str) -> (url: String)
    ensures
        url@ == without_trailing_slashes(endpoint@) + "/v1/models"@,
{
    let cs = chars_of(endpoint);
    let mut n: usize = cs.len();
    assert(cs@.take(n as int) =~= cs@);
    while n > 0 && cs[n - 1] == '/'
        invariant
            n <= cs@.len(),
            cs@ == endpoint@,
            without_trailing_slashes(cs@.take(n as int)) == without_trailing_slashes(endpoint@),
        decreases n,
    {
        assert(cs@.take(n as int).drop_last() =~= cs@.take(n - 1));
        n -= 1;
    }
    assert(without_trailing_slashes(cs@.take(n as int)) == cs@.take(n as int));
    let mut kept: Vec<char> = Vec::new();
    let mut i: usize = 0;
    while i < n
        invariant
            i <= n <= cs@.len(),
            kept@ == cs@.take(i as int),
        decreases n - i,
    {
        kept.push(cs[i]);
        assert(cs@.take(i + 1) =~= cs@.take(i as int).push(cs@[i as int]));
        i += 1;
    }
    let mut url = string_of(&kept);
    push_str(&mut url, "/v1/models");
    url
}

/// The status text for an HTTP status code the probe does not single out.
pub open spec fn http_code_reason(code: u16) -> Seq<char> {
    "HTTP "@ + nat_text(code as nat)
}

fn http_code_text(code: u16) -> (s: String)
    ensures
        s@ == http_code_reason(code),
{
    let mut s = owned("HTTP ");
    push_u64(&mut s, code as u64);
    s
}

/// How a cloud tier's response maps to a status.
pub open spec fn cloud_status_spec(o: HttpOutcome) -> StatusView {
    match o {
        HttpOutcome::Success => StatusView::Reachable,
        HttpOutcome::Status(c) => if c == 401 || c == 403 {
            StatusView::Unreachable { reason: "auth rejected (401/403)"@ }
        } else if c == 429 || c == 402 {
            StatusView::Exhausted
        } else {
            StatusView::Unreachable { reason: http_code_reason(c) }
        },
        HttpOutcome::Transport(m) => StatusView::Unreachable { reason: m@ },
    }
}

/// How a local tier's response maps to a status.
pub open spec fn local_status_spec(o: HttpOutcome) -> StatusView {
    match o {
        HttpOutcome::Success => StatusView::Reachable,
        HttpOutcome::Status(c) => if c == 429 || c == 402 {
            StatusView::Exhausted
        } else {
            StatusView::Unreachable { reason: http_code_reason(c) }
        },
        HttpOutcome::Transport(m) => StatusView::Unreachable { reason: m@ },
    }
}

/// Status of a cloud tier from its authed models-list response.
pub fn cloud_status(o: HttpOutcome) -> (s: TierStatus)
    ensures
        s@ == cloud_status_spec(o),
{
    match o {
        HttpOutcome::Success => TierStatus::Reachable,
        HttpOutcome::Status(c) => {
            if c == 401 || c == 403 {
                TierStatus::Unreachable { reason: owned("auth rejected (401/403)") }
            } else if c == 429 || c == 402 {
                TierStatus::Exhausted
            } else {
                TierStatus::Unreachable { reason: http_code_text(c) }
            }
        },
        HttpOutcome::Transport(m) => TierStatus::Unreachable { reason: m },
    }
}

/// Status of a local tier from its models-list response.
pub fn local_status(o: HttpOutcome) -> (s: TierStatus)
    ensures
        s@ == local_status_spec(o),
{
    match o {
        HttpOutcome::Success => TierStatus::Reachable,
        HttpOutcome::Status(c) => {
            if c == 429 || c == 402 {
                TierStatus::Exhausted
            } else {
                TierStatus::Unreachable { reason: http_code_text(c) }
            }
        },
        HttpOutcome::Transport(m) => TierStatus::Unreachable { reason: m },
    }
}

/// The health an HTTP probe reports for `tier` at time `now`: `Keyless`
/// when it sent no request (see `keyless_short_circuit`), else the status
/// its response maps to (cloud or local rules); never a failure count.
pub open spec fn http_health_spec(tier: ConfigView, outcome: Option<HttpOutcome>, now: i64) -> HealthView {
    HealthView {
        tier: tier.name,
        status: match outcome {
            None => StatusView::Keyless,
            Some(o) => if tier.kind == TierKind::Cloud {
                cloud_status_spec(o)
            } else {
                local_status_spec(o)
            },
        },
        checked_at: now,
        consecutive_failures: 0,
    }
}

/// Build the health an HTTP probe reports: `outcome` is `None` when the
/// probe short-circuited without a request, else what the request came back with.
pub fn http_health(tier: &TierConfig, outcome: Option<HttpOutcome>, now: i64) -> (h: TierHealth)
    ensures
        h@ == http_health_spec(tier@, outcome, now),
{
    let status = match outcome {
        None => TierStatus::Keyless,
        Some(o) => match tier.kind {
            TierKind::Cloud => cloud_status(o),
            TierKind::Local => local_status(o),
        },
    };
    TierHealth { tier: tier.name.clone(), status, checked_at: now, consecutive_failures: 0 }
}

// ---------------------------------------------------------------------------
// Fake (test) doubles
// ---------------------------------------------------------------------------

/// A recorded probe call.
#[derive(Debug, PartialEq, Eq)]
pub struct ProbeCall {
    /// The tier name that was probed.
    pub tier_name: String,
    /// The URL path that would have been requested (e.g. "/v1/models").
    pub path: String,
}

impl Clone for ProbeCall {
    fn clone(&self) -> (r: Self)
        ensures
            r == *self,
    {
        ProbeCall { tier_name: self.tier_name.clone(), path: self.path.clone() }
    }
}

/// The model of a recorded call: (tier name, path).
pub open spec fn call_view(c: ProbeCall) -> (Seq<char>, Seq<char>) {
    (c.tier_name@, c.path@)
}

/// A probe that never opens a socket; returns pre-configured statuses.
///
/// Used in tests to verify call patterns without network access.
pub struct FakeProbe {
    /// Responses keyed by tier name. Tiers not in this map return `Reachable`.
    pub responses: NameMap<TierStatus>,
    /// Records every call made.
    pub calls: Vec<ProbeCall>,
    /// Every health this probe returned, in order.
    pub answered: Vec<TierHealth>,
}

impl FakeProbe {
    /// Create a new `FakeProbe` with no pre-configured responses (all → `Reachable`).
    pub fn new() -> (p: Self)
        ensures
            p.responses.as_map() == Map::<Seq<char>, TierStatus>::empty(),
            p.calls@.len() == 0,
    {
        FakeProbe { responses: NameMap::new(), calls: Vec::new(), answered: Vec::new() }
    }

    fn record_answer(&mut self, h: &TierHealth)
        ensures
            final(self).answered@ == old(self).answered@.push(*h),
            final(self).calls == old(self).calls,
            final(self).responses == old(self).responses,
    {
        self.answered.push(h.clone());
    }

    /// Returns the recorded calls.
    pub fn recorded_calls(&self) -> (r: Vec<ProbeCall>)
        ensures
            r@ == self.calls@,
    {
        let mut r: Vec<ProbeCall> = Vec::new();
        let mut i: usize = 0;
        while i < self.calls.len()
            invariant
                i <= self.calls@.len(),
                r@ == self.calls@.take(i as int),
            decreases self.calls.len() - i,
        {
            r.push(self.calls[i].clone());
            assert(self.calls@.take(i + 1) =~= self.calls@.take(i as int).push(self.calls@[i as int]));
            i += 1;
        }
        assert(self.calls@.take(self.calls@.len() as int) =~= self.calls@);
        r
    }

    /// The status the fake answers for `name`: its configured response, else `Reachable`.
    pub open spec fn answer(&self, name: Seq<char>) -> TierStatus {
        if self.responses.as_map().contains_key(name) {
            self.responses.as_map()[name]
        } else {
            TierStatus::Reachable
        }
    }
}

impl Default for FakeProbe {
    fn default() -> (p: Self)
        ensures
            p.responses.as_map() == Map::<Seq<char>, TierStatus>::empty(),
            p.calls@.len() == 0,
    {
        Self::new()
    }
}

/// The tier names of recorded calls.
pub open spec fn call_names(calls: Seq<ProbeCall>) -> Seq<Seq<char>> {
    calls.map_values(|c: ProbeCall| c.tier_name@)
}

impl TierProbe for FakeProbe {
    open spec fn keeps_log(&self) -> bool {
        true
    }

    open spec fn probed(&self) -> Seq<Seq<char>> {
        call_names(self.calls@)
    }

    open spec fn keeps_answers(&self) -> bool {
        true
    }

    open spec fn answered(&self) -> Seq<HealthView> {
        crate::types::healths_view(self.answered@)
    }

    open spec fn answers(&self) -> bool {
        true
    }

    open spec fn answer_spec(&self, tier: ConfigView, key: Option<Seq<char>>) -> HealthView {
        HealthView {
            tier: tier.name,
            status: if tier.kind == TierKind::Cloud && key is None {
                StatusView::Keyless
            } else {
                self.answer(tier.name)@
            },
            checked_at: 0,
            consecutive_failures: 0,
        }
    }

    open spec fn sends(&self, tier: ConfigView, key: Option<Seq<char>>) -> bool {
        !(tier.kind == TierKind::Cloud && key is None)
    }

    /// A keyless cloud tier answers `Keyless` and records nothing; any
    /// other tier records a `/v1/models` call and answers its configured
    /// response (else `Reachable`). `checked_at` and failures are 0.
    fn probe<E: ProbeEnv>(&mut self, tier: &TierConfig, env: &E) -> (h: TierHealth)
        ensures
            h.tier@ == tier.name@,
            h.checked_at == 0,
            h.consecutive_failures == 0,
            ({
                ||| tier.kind == TierKind::Cloud && h.status is Keyless && final(self).calls@ == old(self).calls@
                ||| {
                    &&& h.status == old(self).answer(tier.name@)
                    &&& final(self).calls@.len() == old(self).calls@.len() + 1
                    &&& final(self).calls@.take(old(self).calls@.len() as int) == old(self).calls@
                    &&& call_view(final(self).calls@.last()) == (tier.name@, "/v1/models"@)
                }
            }),
            tier.kind == TierKind::Local ==> final(self).calls@.len() == old(self).calls@.len() + 1,
            env.is_fixture() && tier.kind == TierKind::Cloud && env.key_spec() is None ==> h.status is Keyless
                && final(self).calls@ == old(self).calls@,
            env.is_fixture() && !(tier.kind == TierKind::Cloud && env.key_spec() is None) ==> h.status == old(self).answer(tier.name@)
                && final(self).calls@.len() == old(self).calls@.len() + 1,
            final(self).responses == old(self).responses,
    {
        let key = env.anthropic_key();
        if keyless_short_circuit(tier.kind, &key) {
            let h = TierHealth {
                tier: tier.name.clone(),
                status: TierStatus::Keyless,
                checked_at: 0,
                consecutive_failures: 0,
            };
            self.record_answer(&h);
            return h;
        }
        let call = ProbeCall { tier_name: tier.name.clone(), path: owned("/v1/models") };
        self.calls.push(call);
        let status = match self.responses.get(tier.name.as_str()) {
            Some(s) => s.clone(),
            None => TierStatus::Reachable,
        };
        assert(self.calls@.take(old(self).calls@.len() as int) =~= old(self).calls@);
        assert(call_names(self.calls@) =~= call_names(old(self).calls@).push(tier.name@));
        let h = TierHealth { tier: tier.name.clone(), status, checked_at: 0, consecutive_failures: 0 };
        self.record_answer(&h);
        h
    }
}

/// A `ProbeEnv` that returns fixture values — never reads the environment.
#[derive(Debug, Default)]
pub struct FakeProbeEnv {
    /// Returned by `anthropic_key()`. `None` simulates an unset/empty key.
    pub key: Option<String>,
    /// Returned by `skip_tiers()`.
    pub skip: Vec<String>,
    /// Returned by `max_tier()`.
    pub max: Option<String>,
}

fn copy_opt(o: &Option<String>) -> (r: Option<String>)
    ensures
        r == *o,
{
    match o {
        Some(s) => Some(s.clone()),
        None => None,
    }
}

fn copy_names(v: &Vec<String>) -> (r: Vec<String>)
    ensures
        r@ == v@,
{
    let mut r: Vec<String> = Vec::new();
    let mut i: usize = 0;
    while i < v.len()
        invariant
            i <= v@.len(),
            r@ == v@.take(i as int),
        decreases v.len() - i,
    {
        r.push(v[i].clone());
        assert(v@.take(i + 1) =~= v@.take(i as int).push(v@[i as int]));
        i += 1;
    }
    assert(v@.take(v@.len() as int) =~= v@);
    r
}

impl ProbeEnv for FakeProbeEnv {
    open spec fn is_fixture(&self) -> bool {
        true
    }

    open spec fn key_spec(&self) -> Option<Seq<char>> {
        opt_view(self.key)
    }

    open spec fn skip_spec(&self) -> Seq<Seq<char>> {
        names_view(self.skip@)
    }

    open spec fn max_spec(&self) -> Option<Seq<char>> {
        opt_view(self.max)
    }

    fn anthropic_key(&self) -> (r: Option<String>)
        ensures
            r == self.key,
    {
        copy_opt(&self.key)
    }

    fn skip_tiers(&self) -> (r: Vec<String>)
        ensures
            r@ == self.skip@,
    {
        copy_names(&self.skip)
    }

    fn max_tier(&self) -> (r: Option<String>)
        ensures
            r == self.max,
    {
        copy_opt(&self.max)
    }
}

/// A response counts as `Reachable` only when it succeeded (2xx), for cloud
/// and local tiers alike. A cloud code other than 401/403 (auth rejected)
/// and 402/429 (exhausted) is `Unreachable` with reason `HTTP <code>`; a
/// local code other than 402/429 likewise.
pub proof fn lemma_only_success_is_reachable(o: HttpOutcome)
    ensures
        cloud_status_spec(o) is Reachable <==> o is Success,
        local_status_spec(o) is Reachable <==> o is Success,
        o matches HttpOutcome::Status(c) ==> (c != 401 && c != 403 && c != 402 && c != 429 ==> cloud_status_spec(o)
            == (StatusView::Unreachable { reason: "HTTP "@ + nat_text(c as nat) })),
        o matches HttpOutcome::Status(c) ==> (c == 402 || c == 429 ==> (cloud_status_spec(o) is Exhausted)
            && (local_status_spec(o) is Exhausted)),
        o matches HttpOutcome::Status(c) ==> (c != 402 && c != 429 ==> local_status_spec(o) == (
        StatusView::Unreachable { reason: "HTTP "@ + nat_text(c as nat) })),
        o matches HttpOutcome::Status(c) ==> (c == 401 || c == 403 ==> cloud_status_spec(o) == (
        StatusView::Unreachable { reason: "auth rejected (401/403)"@ })),
        o matches HttpOutcome::Transport(m) ==> cloud_status_spec(o) == (StatusView::Unreachable { reason: m@ })
            && local_status_spec(o) == (StatusView::Unreachable { reason: m@ }),
{
}

} // verus!
