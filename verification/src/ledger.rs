//! Which price applies to a tier's usage in the append-only spend ledger.
//!
//! Local tiers (`local` or `local-*`) are free; `haiku`, `sonnet` and `opus`
//! have list prices; any other tier is unpriced (its cost is recorded as
//! `null`). The dollar arithmetic on those prices is the caller's part.

use vstd::prelude::*;
use crate::text::{has_prefix, starts_with, str_eq};

verus! {

/// The price row that applies to a tier.
#[derive(Debug, Clone, Copy, PartialEq, Eq)]
pub enum PriceTier {
    /// A local tier: cost zero.
    Local,
    /// The haiku tier's list price.
    Haiku,
    /// The sonnet tier's list price.
    Sonnet,
    /// The opus tier's list price.
    Opus,
    /// Not in the price table: no cost estimate.
    Unpriced,
}

/// The price row for a tier name: the local check comes first, then the table.
pub open spec fn price_tier_spec(tier: Seq<char>) -> PriceTier {
    if has_prefix(tier, "local-"@) || tier == "local"@ {
        PriceTier::Local
    } else if tier == "haiku"@ {
        PriceTier::Haiku
    } else if tier == "sonnet"@ {
        PriceTier::Sonnet
    } else if tier == "opus"@ {
        PriceTier::Opus
    } else {
        PriceTier::Unpriced
    }
}

/// Classify a tier name for pricing.
pub fn price_tier(tier: &str) -> (p: PriceTier)
    ensures
        p == price_tier_spec(tier@),
{
    if starts_with(tier, "local-") || str_eq(tier, "local") {
        PriceTier::Local
    } else if str_eq(tier, "haiku") {
        PriceTier::Haiku
    } else if str_eq(tier, "sonnet") {
        PriceTier::Sonnet
    } else if str_eq(tier, "opus") {
        PriceTier::Opus
    } else {
        PriceTier::Unpriced
    }
}

} // verus!
