//! Shared domain types.
use vstd::prelude::*;

verus! {

/// Criticality tier for re-injection frequency.
///
/// Controls how aggressively a consumer hook re-injects its context.
#[derive(Debug, Clone, Copy, PartialEq, Eq, Structural)]
pub enum Tier {
    /// Credentials, security rules: about 15K tokens (52 000 bytes).
    High,
    /// Workflow guides, coding conventions: about 30K tokens (105 000 bytes).
    Medium,
    /// Nice-to-have reminders: about 50K tokens (175 000 bytes).
    Low,
}

/// The growth threshold, in bytes of non-thinking text, of each tier.
pub open spec fn tier_growth_bytes(tier: Tier) -> u64 {
    match tier {
        Tier::High => 52_000,
        Tier::Medium => 105_000,
        Tier::Low => 175_000,
    }
}

impl Tier {
    /// Growth-byte threshold for this tier.
    pub fn growth_bytes(self) -> (bytes: u64)
        ensures
            bytes == tier_growth_bytes(self),
            self == Tier::High ==> bytes == 52_000,
            self == Tier::Medium ==> bytes == 105_000,
            self == Tier::Low ==> bytes == 175_000,
    {
        match self {
            Tier::High => 52_000,
            Tier::Medium => 105_000,
            Tier::Low => 175_000,
        }
    }
}

/// A more critical tier re-injects sooner: its growth threshold is strictly
/// smaller than that of every less critical tier.
pub proof fn lemma_tier_thresholds_ordered()
    ensures
        tier_growth_bytes(Tier::High) < tier_growth_bytes(Tier::Medium),
        tier_growth_bytes(Tier::Medium) < tier_growth_bytes(Tier::Low),
{
}

/// Configuration for the throttle decision.
#[derive(Debug, Clone)]
pub struct ThrottleConfig {
    /// Minimum non-thinking-text growth (bytes) since last injection to trigger re-inject.
    pub growth_bytes: u64,
    /// Upper boundary of the dead zone (%). Injections at positions below this and
    /// above `primacy_threshold` are considered "lost" and will be re-injected.
    pub recency_threshold: u64,
    /// Lower boundary of the dead zone (%).
    pub primacy_threshold: u64,
    /// Minimum total context bytes before the dead-zone position check activates.
    pub min_context_bytes: u64,
}

impl Default for ThrottleConfig {
    /// The documented defaults: 105 000 growth bytes (the Medium tier), a dead
    /// zone from 15% to 85% of the context, active from 21 000 context bytes on.
    fn default() -> (config: Self)
        ensures
            config.growth_bytes == 105_000,
            config.recency_threshold == 85,
            config.primacy_threshold == 15,
            config.min_context_bytes == 21_000,
            config.growth_bytes == tier_growth_bytes(Tier::Medium),
            config.primacy_threshold < config.recency_threshold <= 100,
    {
        ThrottleConfig {
            growth_bytes: 105_000,
            recency_threshold: 85,
            primacy_threshold: 15,
            min_context_bytes: 21_000,
        }
    }
}

/// Why a re-injection was requested.
#[derive(Debug, Clone, PartialEq, Eq, Structural)]
pub enum InjectReason {
    /// No prior injection has ever been recorded for this hook.
    FirstRun,
    /// Monitor byte count went backwards: compaction occurred.
    CompactionDetected,
    /// Non-thinking text growth since last injection exceeded the threshold.
    GrowthExceeded {
        /// Bytes grown since last injection.
        delta: u64,
        /// Configured threshold.
        threshold: u64,
    },
    /// The saved injection position falls in the context dead zone.
    DeadZone {
        /// Position as a percentage of total context bytes (0 to 100).
        position_pct: u64,
    },
}

/// Decision of the throttle.
#[derive(Debug, Clone, PartialEq, Eq, Structural)]
pub enum ThrottleDecision {
    /// Inject context. Contains the reason for auditing/logging.
    Inject(InjectReason),
    /// Do not inject.
    Skip,
}

} // verus!
