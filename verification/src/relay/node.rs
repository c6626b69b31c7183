//! Relay counters: coarse (export-safe) and debug (internal) views, and the
//! bookkeeping decisions of the relay's processing loop. Peeling packets,
//! sleeping the mixing delay and the channels run outside the library.
use vstd::prelude::*;

use crate::relay::cover_flow::{BulkRoundTracker, RoundClose, sat_add_u32};

verus! {

/// Aggregate counters safe for external-facing surfaces (metrics, health checks).
#[derive(Debug, Clone, Copy, PartialEq, Eq)]
pub struct RelayCoarseStats {
    /// Successfully processed ingress packets (forwarded, loop-returned, or dropped cover).
    pub processed_ok: u64,
    /// Failed peel/decrypt (integrity, replay and other errors aggregated).
    pub processed_fail: u64,
    /// Synthetic cover flows emitted on the wire during bulk rounds.
    pub cover_emitted: u64,
    /// Outbound queue drops (full bounded channel).
    pub queue_dropped: u64,
}

/// Fine-grained relay counters: internal and test use only.
#[derive(Debug, Clone, Copy, PartialEq, Eq)]
pub struct RelayDebugStats {
    pub loop_return_count: u64,
    pub dropped_count: u64,
    pub cover_flow_count: u64,
    pub cover_cell_count: u64,
    pub integrity_error_count: u64,
    pub replay_error_count: u64,
    pub other_error_count: u64,
    pub forwarded_count: u64,
}

/// Error returned when the relay's processing task has already stopped.
#[derive(Debug, Clone, Copy, PartialEq, Eq)]
pub struct RelayStoppedError;

/// Observability counters kept by one relay.
#[derive(Debug, Clone, Copy, PartialEq, Eq)]
pub struct RelayStats {
    pub loop_return_count: u64,
    pub dropped_count: u64,
    pub cover_flow_count: u64,
    pub cover_cell_count: u64,
    pub integrity_error_count: u64,
    pub replay_error_count: u64,
    pub other_error_count: u64,
    pub forwarded_count: u64,
    pub queue_dropped: u64,
}

impl RelayStats {
    /// All counters at zero.
    pub fn new() -> (r: Self)
        ensures
            r.loop_return_count == 0,
            r.dropped_count == 0,
            r.cover_flow_count == 0,
            r.cover_cell_count == 0,
            r.integrity_error_count == 0,
            r.replay_error_count == 0,
            r.other_error_count == 0,
            r.forwarded_count == 0,
            r.queue_dropped == 0,
    {
        RelayStats {
            loop_return_count: 0,
            dropped_count: 0,
            cover_flow_count: 0,
            cover_cell_count: 0,
            integrity_error_count: 0,
            replay_error_count: 0,
            other_error_count: 0,
            forwarded_count: 0,
            queue_dropped: 0,
        }
    }

    /// Coarse aggregate: successes and failures summed without an error breakdown
    /// (the sums wrap, as the counters do).
    pub fn coarse(&self) -> (r: RelayCoarseStats)
        ensures
            r.processed_ok == vstd::wrapping::u64_specs::wrapping_add(
                vstd::wrapping::u64_specs::wrapping_add(self.forwarded_count, self.loop_return_count),
                self.dropped_count,
            ),
            r.processed_fail == vstd::wrapping::u64_specs::wrapping_add(
                vstd::wrapping::u64_specs::wrapping_add(self.integrity_error_count, self.replay_error_count),
                self.other_error_count,
            ),
            r.cover_emitted == self.cover_flow_count,
            r.queue_dropped == self.queue_dropped,
    {
        RelayCoarseStats {
            processed_ok: self.forwarded_count.wrapping_add(self.loop_return_count).wrapping_add(self.dropped_count),
            processed_fail: self.integrity_error_count.wrapping_add(self.replay_error_count).wrapping_add(self.other_error_count),
            cover_emitted: self.cover_flow_count,
            queue_dropped: self.queue_dropped,
        }
    }

    /// Full per-counter snapshot (internal use only).
    pub fn debug(&self) -> (r: RelayDebugStats)
        ensures
            r.loop_return_count == self.loop_return_count,
            r.dropped_count == self.dropped_count,
            r.cover_flow_count == self.cover_flow_count,
            r.cover_cell_count == self.cover_cell_count,
            r.integrity_error_count == self.integrity_error_count,
            r.replay_error_count == self.replay_error_count,
            r.other_error_count == self.other_error_count,
            r.forwarded_count == self.forwarded_count,
    {
        RelayDebugStats {
            loop_return_count: self.loop_return_count,
            dropped_count: self.dropped_count,
            cover_flow_count: self.cover_flow_count,
            cover_cell_count: self.cover_cell_count,
            integrity_error_count: self.integrity_error_count,
            replay_error_count: self.replay_error_count,
            other_error_count: self.other_error_count,
            forwarded_count: self.forwarded_count,
        }
    }
}

/// What peeling one Sphinx packet gave.
#[derive(Debug, Clone, Copy, PartialEq, Eq)]
pub enum PacketOutcome {
    /// A packet for the next hop.
    Forward,
    /// The relay's own loop packet came back.
    LoopReturned,
    /// A packet to drop (cover).
    Drop,
    /// Authentication of the packet failed.
    IntegrityFailure,
    /// The packet's tag was seen before.
    Replay,
    /// Any other processing error.
    OtherError,
}

/// The counters after one processed packet: the counter of its outcome goes up by
/// one (wrapping), every other counter is kept.
pub open spec fn counted(s: RelayStats, outcome: PacketOutcome) -> RelayStats {
    match outcome {
        PacketOutcome::Forward => RelayStats { forwarded_count: s.forwarded_count.wrapping_add(1), ..s },
        PacketOutcome::LoopReturned => RelayStats { loop_return_count: s.loop_return_count.wrapping_add(1), ..s },
        PacketOutcome::Drop => RelayStats { dropped_count: s.dropped_count.wrapping_add(1), ..s },
        PacketOutcome::IntegrityFailure => RelayStats { integrity_error_count: s.integrity_error_count.wrapping_add(1), ..s },
        PacketOutcome::Replay => RelayStats { replay_error_count: s.replay_error_count.wrapping_add(1), ..s },
        PacketOutcome::OtherError => RelayStats { other_error_count: s.other_error_count.wrapping_add(1), ..s },
    }
}

impl RelayStats {
    /// Count one processed packet (counters wrap like atomic adds); answers
    /// whether the packet is to be forwarded after its mixing delay.
    pub fn record_packet(&mut self, outcome: PacketOutcome) -> (forward: bool)
        ensures
            forward == (outcome == PacketOutcome::Forward),
            final(self).forwarded_count == if outcome == PacketOutcome::Forward {
                old(self).forwarded_count.wrapping_add(1)
            } else {
                old(self).forwarded_count
            },
            final(self).loop_return_count == if outcome == PacketOutcome::LoopReturned {
                old(self).loop_return_count.wrapping_add(1)
            } else {
                old(self).loop_return_count
            },
            final(self).dropped_count == if outcome == PacketOutcome::Drop {
                old(self).dropped_count.wrapping_add(1)
            } else {
                old(self).dropped_count
            },
            final(self).integrity_error_count == if outcome == PacketOutcome::IntegrityFailure {
                old(self).integrity_error_count.wrapping_add(1)
            } else {
                old(self).integrity_error_count
            },
            final(self).replay_error_count == if outcome == PacketOutcome::Replay {
                old(self).replay_error_count.wrapping_add(1)
            } else {
                old(self).replay_error_count
            },
            final(self).other_error_count == if outcome == PacketOutcome::OtherError {
                old(self).other_error_count.wrapping_add(1)
            } else {
                old(self).other_error_count
            },
            final(self).cover_flow_count == old(self).cover_flow_count,
            final(self).cover_cell_count == old(self).cover_cell_count,
            final(self).queue_dropped == old(self).queue_dropped,
            *final(self) == counted(*old(self), outcome),
    {
        match outcome {
            PacketOutcome::Forward => {
                self.forwarded_count = self.forwarded_count.wrapping_add(1);
                true
            },
            PacketOutcome::LoopReturned => {
                self.loop_return_count = self.loop_return_count.wrapping_add(1);
                false
            },
            PacketOutcome::Drop => {
                self.dropped_count = self.dropped_count.wrapping_add(1);
                false
            },
            PacketOutcome::IntegrityFailure => {
                self.integrity_error_count = self.integrity_error_count.wrapping_add(1);
                false
            },
            PacketOutcome::Replay => {
                self.replay_error_count = self.replay_error_count.wrapping_add(1);
                false
            },
            PacketOutcome::OtherError => {
                self.other_error_count = self.other_error_count.wrapping_add(1);
                false
            },
        }
    }

    /// Count one forwarded packet dropped because the outbound queue was full.
    pub fn record_queue_drop(&mut self)
        ensures
            *final(self) == (RelayStats { queue_dropped: old(self).queue_dropped.wrapping_add(1), ..*old(self) }),
    {
        self.queue_dropped = self.queue_dropped.wrapping_add(1);
    }

    /// Count the cover emitted when a bulk round closed: its flows and cells.
    pub fn record_cover_round(&mut self, flows: u64, cells: u64)
        ensures
            *final(self) == (RelayStats {
                cover_flow_count: old(self).cover_flow_count.wrapping_add(flows),
                cover_cell_count: old(self).cover_cell_count.wrapping_add(cells),
                ..*old(self)
            }),
    {
        self.cover_flow_count = self.cover_flow_count.wrapping_add(flows);
        self.cover_cell_count = self.cover_cell_count.wrapping_add(cells);
    }
}

/// The relay loop's step for one peeled packet: count it, let a forwarded packet
/// count as a real flow of the open bulk round, and answer whether to forward it.
pub fn on_packet(stats: &mut RelayStats, round: &mut BulkRoundTracker, outcome: PacketOutcome) -> (forward: bool)
    ensures
        forward == (outcome == PacketOutcome::Forward),
        forward ==> final(round).real_spec() == if old(round).active_spec() && old(round).real_spec() < usize::MAX {
            (old(round).real_spec() + 1) as usize
        } else {
            old(round).real_spec()
        },
        !forward ==> *final(round) == *old(round),
        final(round).active_spec() == old(round).active_spec(),
        *final(stats) == counted(*old(stats), outcome),
{
    let forward = stats.record_packet(outcome);
    if forward {
        round.observe_real_flow();
    }
    forward
}

/// Flows and cells of the cover a closed round emits, `cells_per_flow` cells each.
pub fn cover_round_counts(close: &RoundClose, cells_per_flow: usize) -> (r: (u64, u64))
    requires
        sat_add_u32(close.plan.local_discard_flows, close.plan.onion_scaffold_flows) * cells_per_flow <= u64::MAX,
    ensures
        r.0 == sat_add_u32(close.plan.local_discard_flows, close.plan.onion_scaffold_flows),
        r.1 == sat_add_u32(close.plan.local_discard_flows, close.plan.onion_scaffold_flows) * cells_per_flow,
{
    let flows = close.plan.total_flows();
    (flows as u64, close.plan.total_cells(cells_per_flow))
}

} // verus!
