//! Topology and roster error types.
use vstd::prelude::*;

use crate::topology::types::RelayId;

verus! {

#[derive(Debug, Clone, PartialEq, Eq)]
pub enum TopologyError {
    /// No admitted relays on the roster.
    EmptyRoster,
    /// Layer count must be at least 1.
    InvalidLayerCount(usize),
    /// A layer is empty in the epoch.
    EmptyLayer { layer: usize, epoch: u64 },
    /// The relay is not admitted.
    NotAdmitted { relay: RelayId },
    /// Not enough layer-1 relays for the guard set.
    InsufficientGuards { available: usize, needed: usize },
    /// Fewer layer-1 relays at or above the reputation floor than guards needed.
    InsufficientReputation { available: usize, needed: usize },
    /// The relay is not on the roster.
    RelayNotFound { relay: RelayId },
    /// No compliant path after the given number of attempts.
    ReputationPathExhausted { attempts: usize },
}

/// Errors from signed admission and roster persistence.
#[derive(Debug, Clone, PartialEq, Eq)]
pub enum RosterError {
    InvalidSignature { relay: RelayId },
    AuthorityMismatch,
    Deserialize(String),
    AdmissionRateLimitExceeded { attempted: usize, max_per_window: usize, window_secs: u64 },
    InsufficientSignatures { got: usize, need: usize },
    DuplicateAuthority,
    UnknownAuthority,
    AnomalyBlockedAdmission { relay: RelayId },
    RelayIdCommitmentMismatch { relay: RelayId },
    UnverifiedRosterNotAllowed,
    InvalidAuthorityPubkey,
}

} // verus!
