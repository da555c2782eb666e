//! Resolves the configured tier ladder from the environment.
//!
//! Reads `WM_BRAIN_SKIP_TIERS` and `WM_BRAIN_MAX_TIER` via a `ProbeEnv`
//! and returns the subset of tiers actually active in this runtime.

use vstd::prelude::*;
use crate::probe::ProbeEnv;
use crate::text::{owned, str_eq};
use crate::types::{configs_view, contains_name, names_view, ConfigView, Ladder, TierConfig, TierKind};

verus! {

broadcast use vstd::string::group_string_axioms;

/// The default ladder, lowest → highest priority.
pub open spec fn default_ladder() -> Seq<ConfigView> {
    seq![
        ConfigView { name: "local-3b"@, kind: TierKind::Local, endpoint: "http://localhost:11434"@ },
        ConfigView { name: "local-8b"@, kind: TierKind::Local, endpoint: "http://localhost:11434"@ },
        ConfigView { name: "haiku"@, kind: TierKind::Cloud, endpoint: "https://api.anthropic.com"@ },
        ConfigView { name: "sonnet"@, kind: TierKind::Cloud, endpoint: "https://api.anthropic.com"@ },
        ConfigView { name: "opus"@, kind: TierKind::Cloud, endpoint: "https://api.anthropic.com"@ },
    ]
}

/// The default tier names, in ladder order.
pub open spec fn default_names() -> Seq<Seq<char>> {
    seq!["local-3b"@, "local-8b"@, "haiku"@, "sonnet"@, "opus"@]
}

/// The default tier names are pairwise distinct.
pub proof fn lemma_default_names_distinct()
    ensures
        forall|i: int, j: int|
            0 <= i < 5 && 0 <= j < 5 && i != j ==> #[trigger] default_names()[i] != #[trigger] default_names()[j],
        forall|i: int| 0 <= i < 5 ==> #[trigger] default_ladder()[i].name == default_names()[i],
{
    reveal_strlit("local-3b");
    reveal_strlit("local-8b");
    reveal_strlit("haiku");
    reveal_strlit("sonnet");
    reveal_strlit("opus");
    assert("local-3b"@[6] != "local-8b"@[6]);
    assert("local-3b"@.len() != "haiku"@.len());
    assert("local-3b"@.len() != "sonnet"@.len());
    assert("local-3b"@.len() != "opus"@.len());
    assert("local-8b"@.len() != "haiku"@.len());
    assert("local-8b"@.len() != "sonnet"@.len());
    assert("local-8b"@.len() != "opus"@.len());
    assert("haiku"@.len() != "sonnet"@.len());
    assert("haiku"@[0] != "opus"@[0]);
    assert("sonnet"@.len() != "opus"@.len());
}

/// The tiers of `tiers` whose name is not in `skip`, in order.
pub open spec fn without_skipped(tiers: Seq<ConfigView>, skip: Seq<Seq<char>>) -> Seq<ConfigView> {
    tiers.filter(|t: ConfigView| !skip.contains(t.name))
}

/// Everything above the first tier named `max` removed (no change when no
/// tier has that name).
pub open spec fn cut_at_max(tiers: Seq<ConfigView>, max: Option<Seq<char>>) -> Seq<ConfigView> {
    match max {
        Some(m) => {
            let p = crate::types::first_match(tiers, |t: ConfigView| t.name == m);
            if p >= 0 {
                tiers.take(p + 1)
            } else {
                tiers
            }
        },
        None => tiers,
    }
}

/// The resolved ladder for a skip list and an optional max tier: the
/// default tiers up to and including the max tier (all of them when there is
/// none, or it names no default tier), less the skipped ones. A skipped max
/// tier still marks where the ladder ends.
pub open spec fn resolved(skip: Seq<Seq<char>>, max: Option<Seq<char>>) -> Seq<ConfigView> {
    without_skipped(cut_at_max(default_ladder(), max), skip)
}

fn tier(name: &str, kind: TierKind, endpoint: &str) -> (t: TierConfig)
    ensures
        t@ == (ConfigView { name: name@, kind, endpoint: endpoint@ }),
{
    TierConfig { name: owned(name), kind, endpoint: owned(endpoint) }
}

/// Returns all default tiers in ladder order (lowest → highest priority).
///
/// This is the full list before skip/max filtering is applied.
pub fn all_default_tiers() -> (r: Vec<TierConfig>)
    ensures
        configs_view(r@) == default_ladder(),
{
    default_tiers()
}

/// Default tier order (lowest → highest priority).
fn default_tiers() -> (r: Vec<TierConfig>)
    ensures
        configs_view(r@) == default_ladder(),
{
    let mut v: Vec<TierConfig> = Vec::new();
    v.push(tier("local-3b", TierKind::Local, "http://localhost:11434"));
    v.push(tier("local-8b", TierKind::Local, "http://localhost:11434"));
    v.push(tier("haiku", TierKind::Cloud, "https://api.anthropic.com"));
    v.push(tier("sonnet", TierKind::Cloud, "https://api.anthropic.com"));
    v.push(tier("opus", TierKind::Cloud, "https://api.anthropic.com"));
    assert(configs_view(v@) =~= default_ladder());
    v
}

/// Applies a skip list and a max tier to the default ladder.
///
/// Removes everything above the default tier named `max` (when there is
/// one, whether or not it is skipped), then the skipped tiers.
pub fn resolve_ladder_from(skip: &Vec<String>, max: &Option<String>) -> (l: Ladder)
    ensures
        l@ == resolved(names_view(skip@), match max {
            Some(m) => Some(m@),
            None => None,
        }),
{
    let ghost sk = names_view(skip@);
    let ghost pred = |t: ConfigView| !sk.contains(t.name);
    let ghost mx = match max {
        Some(m) => Some(m@),
        None => None::<Seq<char>>,
    };
    let mut all = default_tiers();
    match max {
        Some(max_name) => {
            match position_of_name(&all, max_name.as_str()) {
                Some(j) => {
                    let ghost before = configs_view(all@);
                    all.truncate(j + 1);
                    assert(configs_view(all@) =~= before.take(j + 1));
                },
                None => {},
            }
        },
        None => {},
    }
    let ghost cut = configs_view(all@);
    assert(cut == cut_at_max(default_ladder(), mx));
    let mut tiers: Vec<TierConfig> = Vec::new();
    let mut i: usize = 0;
    while i < all.len()
        invariant
            i <= all@.len(),
            sk == names_view(skip@),
            pred == (|t: ConfigView| !sk.contains(t.name)),
            configs_view(tiers@) == configs_view(all@).take(i as int).filter(pred),
        decreases all.len() - i,
    {
        let ghost before = configs_view(all@).take(i as int);
        let ghost after = configs_view(all@).take(i + 1);
        assert(after.drop_last() =~= before);
        assert(after.last() == all@[i as int]@);
        proof {
            reveal(Seq::filter);
        }
        if !contains_name(skip, all[i].name.as_str()) {
            tiers.push(all[i].clone());
            assert(configs_view(tiers@) =~= before.filter(pred).push(all@[i as int]@));
        } else {
            assert(configs_view(tiers@) =~= before.filter(pred));
        }
        i += 1;
    }
    assert(configs_view(all@).take(all@.len() as int) =~= configs_view(all@));
    Ladder { tiers }
}

/// Index of the first tier named `name`.
fn position_of_name(tiers: &Vec<TierConfig>, name: &str) -> (r: Option<usize>)
    ensures
        match r {
            Some(j) => j < tiers@.len() && crate::types::first_match(configs_view(tiers@), |t: ConfigView| t.name == name@) == j,
            None => crate::types::first_match(configs_view(tiers@), |t: ConfigView| t.name == name@) < 0,
        },
{
    let ghost p = |t: ConfigView| t.name == name@;
    let ghost cv = configs_view(tiers@);
    let mut j: usize = 0;
    while j < tiers.len()
        invariant
            j <= tiers@.len(),
            cv == configs_view(tiers@),
            p == (|t: ConfigView| t.name == name@),
            forall|q: int| 0 <= q < j ==> !p(#[trigger] cv[q]),
        decreases tiers.len() - j,
    {
        assert(cv[j as int] == tiers@[j as int]@);
        if str_eq(tiers[j].name.as_str(), name) {
            proof {
                crate::types::lemma_first_match_unique(cv, p, j as int);
            }
            return Some(j);
        }
        j += 1;
    }
    proof {
        crate::types::lemma_first_match_unique(cv, p, -1);
    }
    None
}

/// Resolves the active tier ladder given the probe environment.
///
/// Applies `WM_BRAIN_SKIP_TIERS` (removes named tiers) and
/// `WM_BRAIN_MAX_TIER` (removes everything above the named tier).
/// The environment is asked once for each; whatever it answers, the
/// result is the default ladder resolved against those answers.
pub fn resolve_ladder<E: ProbeEnv>(env: &E) -> (l: Ladder)
    ensures
        exists|skip: Seq<Seq<char>>, max: Option<Seq<char>>| l@ == #[trigger] resolved(skip, max),
        env.is_fixture() ==> l@ == resolved(env.skip_spec(), env.max_spec()),
{
    let skip = env.skip_tiers();
    let max = env.max_tier();
    let l = resolve_ladder_from(&skip, &max);
    let ghost m = match max {
        Some(m) => Some(m@),
        None => None::<Seq<char>>,
    };
    assert(l@ == resolved(names_view(skip@), m));
    l
}

// ---------------------------------------------------------------------------
// Laws
// ---------------------------------------------------------------------------

proof fn lemma_filter_from<A>(s: Seq<A>, p: spec_fn(A) -> bool)
    ensures
        forall|i: int| 0 <= i < s.filter(p).len() ==> s.contains(#[trigger] s.filter(p)[i]) && p(s.filter(p)[i]),
    decreases s.len(),
{
    reveal(Seq::filter);
    if s.len() > 0 {
        lemma_filter_from(s.drop_last(), p);
        let f = s.filter(p);
        let g = s.drop_last().filter(p);
        assert forall|i: int| 0 <= i < f.len() implies s.contains(#[trigger] f[i]) && p(f[i]) by {
            if i < g.len() {
                assert(f[i] == g[i]);
                let j = choose|j: int| 0 <= j < s.drop_last().len() && s.drop_last()[j] == g[i];
                assert(s[j] == g[i]);
            } else {
                assert(f[i] == s.last());
                assert(s[s.len() - 1] == s.last());
            }
        }
    }
}

/// A default tier whose name is not skipped.
pub open spec fn allowed_rung(skip: Seq<Seq<char>>, t: ConfigView) -> bool {
    !skip.contains(t.name) && default_ladder().contains(t)
}

/// Every rung of a resolved ladder is a default tier whose name is not
/// skipped and that is not above the max tier.
pub proof fn lemma_resolved_excludes_skipped(skip: Seq<Seq<char>>, max: Option<Seq<char>>)
    ensures
        forall|i: int| 0 <= i < resolved(skip, max).len() ==> allowed_rung(skip, #[trigger] resolved(skip, max)[i])
            && cut_at_max(default_ladder(), max).contains(resolved(skip, max)[i]),
{
    let p = |t: ConfigView| !skip.contains(t.name);
    let c = cut_at_max(default_ladder(), max);
    lemma_filter_from(c, p);
    assert forall|i: int| 0 <= i < resolved(skip, max).len() implies allowed_rung(
        skip,
        #[trigger] resolved(skip, max)[i],
    ) && c.contains(resolved(skip, max)[i]) by {
        let r = resolved(skip, max)[i];
        assert(c.contains(r) && p(r));
        let j = choose|j: int| 0 <= j < c.len() && c[j] == r;
        match max {
            Some(m) => {
                let q = crate::types::first_match(default_ladder(), |t: ConfigView| t.name == m);
                crate::types::lemma_first_match(default_ladder(), |t: ConfigView| t.name == m);
                if q >= 0 {
                    assert(c[j] == default_ladder()[j]);
                }
            },
            None => {},
        }
        assert(c[j] == default_ladder()[j]);
    }
}

/// Nothing above the max tier is a rung, whether or not the max tier itself
/// is skipped: with the max tier at position `p` of the default ladder, no
/// default tier past `p` is in the resolved ladder.
pub proof fn lemma_nothing_above_max(skip: Seq<Seq<char>>, p: int, i: int)
    requires
        0 <= p < i < default_ladder().len(),
    ensures
        !resolved(skip, Some(default_names()[p])).contains(default_ladder()[i]),
{
    lemma_default_names_distinct();
    let m = default_names()[p];
    let pr = |t: ConfigView| t.name == m;
    crate::types::lemma_first_match(default_ladder(), pr);
    assert(pr(default_ladder()[p]));
    let q = crate::types::first_match(default_ladder(), pr);
    assert(q == p) by {
        if q < p {
            assert(default_ladder()[q].name == m);
        }
    }
    lemma_resolved_excludes_skipped(skip, Some(m));
    let r = resolved(skip, Some(m));
    if r.contains(default_ladder()[i]) {
        let k = choose|k: int| 0 <= k < r.len() && r[k] == default_ladder()[i];
        assert(cut_at_max(default_ladder(), Some(m)).contains(r[k]));
        let c = default_ladder().take(p + 1);
        let j = choose|j: int| 0 <= j < c.len() && #[trigger] c[j] == r[k];
        assert(default_ladder()[j] == default_ladder()[i]);
        assert(default_ladder()[j].name == default_names()[j]);
    }
}

/// Without a max tier, every default tier that is not skipped is a rung.
pub proof fn lemma_unskipped_tiers_kept(skip: Seq<Seq<char>>)
    ensures
        forall|i: int| 0 <= i < default_ladder().len() && !skip.contains(#[trigger] default_ladder()[i].name)
            ==> resolved(skip, None).contains(default_ladder()[i]),
{
    broadcast use vstd::seq_lib::group_filter_ensures;
    let p = |t: ConfigView| !skip.contains(t.name);
    assert forall|i: int| 0 <= i < default_ladder().len() && !skip.contains(#[trigger] default_ladder()[i].name)
        implies resolved(skip, None).contains(default_ladder()[i]) by {
        assert(p(default_ladder()[i]));
        default_ladder().lemma_filter_contains(p, i);
    }
}

/// A max tier that names a default tier and is not skipped is the top rung.
pub proof fn lemma_max_tier_is_top(skip: Seq<Seq<char>>, m: Seq<char>)
    requires
        default_names().contains(m),
        !skip.contains(m),
    ensures
        resolved(skip, Some(m)).len() > 0,
        resolved(skip, Some(m)).last().name == m,
{
    lemma_default_names_distinct();
    let pr = |t: ConfigView| t.name == m;
    crate::types::lemma_first_match(default_ladder(), pr);
    let i = choose|i: int| 0 <= i < 5 && default_names()[i] == m;
    assert(pr(default_ladder()[i]));
    let q = crate::types::first_match(default_ladder(), pr);
    assert(q >= 0);
    let c = default_ladder().take(q + 1);
    assert(cut_at_max(default_ladder(), Some(m)) == c);
    let f = |t: ConfigView| !skip.contains(t.name);
    reveal(Seq::filter);
    assert(c.last() == default_ladder()[q]);
    assert(f(c.last()));
    assert(c.filter(f) == c.drop_last().filter(f).push(c.last()));
}

} // verus!
