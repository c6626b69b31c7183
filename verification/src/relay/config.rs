//! Bulk cover-flow policy of a relay and the spawn-time check that refuses to run
//! when cover is required but cannot run.
use vstd::prelude::*;

use crate::relay::cover_flow::{
    CoverMultihopDefense, SecurityDial, DEFAULT_COVER_ONION_FLOWS, DEFAULT_MATCHED_COVER_FLOWS,
};
use crate::text::owned;

verus! {

/// Default bulk-round rotation interval when cover is enabled (seconds).
pub const DEFAULT_COVER_ROUND_SECS: u64 = 30;

/// Why a required bulk cover policy cannot be satisfied.
#[derive(Debug, Clone, PartialEq, Eq)]
pub enum CoverPolicyError {
    /// Cover is required but the cover outbound channel is absent.
    CoverChannelRequired,
    /// Cover is required but cover flow is disabled.
    CoverDisabledWhileRequired,
    /// Cover is required but the dial does not call for relay cover.
    DialDoesNotRequireCover(SecurityDial),
}

/// Name of a dial as its debug form writes it.
pub open spec fn dial_name(d: SecurityDial) -> Seq<char> {
    match d {
        SecurityDial::L0Raw => "L0Raw"@,
        SecurityDial::L1Bucketed => "L1Bucketed"@,
        SecurityDial::L2UniformBatched => "L2UniformBatched"@,
    }
}

/// Text of a cover policy error.
pub open spec fn cover_policy_message(e: CoverPolicyError) -> Seq<char> {
    match e {
        CoverPolicyError::CoverChannelRequired => "bulk cover is required by config but the cover outbound channel is absent"@,
        CoverPolicyError::CoverDisabledWhileRequired => "bulk cover is required by config but cover flow is disabled"@,
        CoverPolicyError::DialDoesNotRequireCover(d) => "bulk cover dial "@ + dial_name(d)
            + " does not require relay cover \u{2014} misconfigured policy"@,
    }
}

impl CoverPolicyError {
    /// Human-readable text of the error.
    pub fn message(&self) -> (r: String)
        ensures
            r@ == cover_policy_message(*self),
    {
        match self {
            CoverPolicyError::CoverChannelRequired => owned(
                "bulk cover is required by config but the cover outbound channel is absent",
            ),
            CoverPolicyError::CoverDisabledWhileRequired => owned(
                "bulk cover is required by config but cover flow is disabled",
            ),
            CoverPolicyError::DialDoesNotRequireCover(d) => {
                let mut s = owned("bulk cover dial ");
                let name = match d {
                    SecurityDial::L0Raw => "L0Raw",
                    SecurityDial::L1Bucketed => "L1Bucketed",
                    SecurityDial::L2UniformBatched => "L2UniformBatched",
                };
                s.append(name);
                s.append(" does not require relay cover \u{2014} misconfigured policy");
                s
            },
        }
    }
}

/// Only the uniform batched (L2) dial calls for relay cover.
pub open spec fn spec_dial_requires_relay_cover(d: SecurityDial) -> bool {
    d == SecurityDial::L2UniformBatched
}

/// Whether `dial` calls for relay cover (only the uniform batched dial does).
pub fn dial_requires_relay_cover(dial: SecurityDial) -> (r: bool)
    ensures
        r == spec_dial_requires_relay_cover(dial),
{
    match dial {
        SecurityDial::L2UniformBatched => true,
        _ => false,
    }
}

/// Bulk cover-flow policy of a mix relay.
#[derive(Clone, Copy, Debug, PartialEq, Eq)]
pub struct BulkCoverConfig {
    /// Open bulk rounds and emit cover padding at round close.
    pub enabled: bool,
    /// Refuse to run without a cover channel and an enabled cover policy.
    pub require: bool,
    /// Security dial of auto-started rounds (must be L2 when cover is required).
    pub dial: SecurityDial,
    /// How often to close and re-open the bulk round (seconds).
    pub round_secs: u64,
    /// Multi-hop cover defense mode.
    pub multihop_defense: CoverMultihopDefense,
    /// Fixed cover flows per round under matched local discard.
    pub matched_cover_flows: u32,
    /// Cover-onion flow count under the onion scaffold.
    pub cover_onion_flows: u32,
}

/// The default policy: cover off and not required, L2 dial, baseline defense.
pub open spec fn spec_default_bulk_cover() -> BulkCoverConfig {
    BulkCoverConfig {
        enabled: false,
        require: false,
        dial: SecurityDial::L2UniformBatched,
        round_secs: DEFAULT_COVER_ROUND_SECS,
        multihop_defense: CoverMultihopDefense::BaselineLocalDiscard,
        matched_cover_flows: DEFAULT_MATCHED_COVER_FLOWS,
        cover_onion_flows: DEFAULT_COVER_ONION_FLOWS,
    }
}

impl Default for BulkCoverConfig {
    fn default() -> (r: Self)
        ensures
            r == spec_default_bulk_cover(),
    {
        BulkCoverConfig {
            enabled: false,
            require: false,
            dial: SecurityDial::L2UniformBatched,
            round_secs: DEFAULT_COVER_ROUND_SECS,
            multihop_defense: CoverMultihopDefense::BaselineLocalDiscard,
            matched_cover_flows: DEFAULT_MATCHED_COVER_FLOWS,
            cover_onion_flows: DEFAULT_COVER_ONION_FLOWS,
        }
    }
}

/// What the spawn-time check answers.
pub open spec fn spec_validate_spawn(c: BulkCoverConfig, cover_channel_present: bool) -> Result<(), CoverPolicyError> {
    if !c.require {
        Ok(())
    } else if !c.enabled {
        Err(CoverPolicyError::CoverDisabledWhileRequired)
    } else if !cover_channel_present {
        Err(CoverPolicyError::CoverChannelRequired)
    } else if !spec_dial_requires_relay_cover(c.dial) {
        Err(CoverPolicyError::DialDoesNotRequireCover(c.dial))
    } else {
        Ok(())
    }
}

impl BulkCoverConfig {
    /// Production defaults: cover enabled and required.
    pub fn production() -> (r: Self)
        ensures
            r == (BulkCoverConfig { enabled: true, require: true, ..spec_default_bulk_cover() }),
    {
        BulkCoverConfig { enabled: true, require: true, ..BulkCoverConfig::default() }
    }

    /// Fail closed when cover is required but cannot run at spawn time: it must be
    /// enabled, the cover channel present, and the dial one that calls for cover.
    pub fn validate_spawn(&self, cover_channel_present: bool) -> (r: Result<(), CoverPolicyError>)
        ensures
            r == spec_validate_spawn(*self, cover_channel_present),
    {
        if !self.require {
            return Ok(());
        }
        if !self.enabled {
            return Err(CoverPolicyError::CoverDisabledWhileRequired);
        }
        if !cover_channel_present {
            return Err(CoverPolicyError::CoverChannelRequired);
        }
        if !dial_requires_relay_cover(self.dial) {
            return Err(CoverPolicyError::DialDoesNotRequireCover(self.dial));
        }
        Ok(())
    }
}

/// A policy that passes the spawn check with cover required runs cover: it is
/// enabled, has its channel, and its dial is L2.
pub proof fn lemma_required_cover_runs(c: BulkCoverConfig, cover_channel_present: bool)
    requires
        c.require,
        spec_validate_spawn(c, cover_channel_present) is Ok,
    ensures
        c.enabled,
        cover_channel_present,
        c.dial == SecurityDial::L2UniformBatched,
{
}

} // verus!
