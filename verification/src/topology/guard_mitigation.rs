//! Adaptive guard mitigation: when anomaly or peer-health signals (or a sticky-age
//! cap) should force a guard re-sample and rotating pin mode.
use vstd::prelude::*;

use crate::topology::guards::{GuardConfig, GuardPinMode};

verus! {

/// When to force a guard-set re-sample or pin rotation.
#[derive(Clone, Copy, Debug, PartialEq, Eq)]
pub struct GuardMitigationPolicy {
    /// Re-sample after this many epochs on the same held set (`u64::MAX`: never).
    pub max_sticky_epochs: u64,
    /// Re-sample and rotate when an anomaly demotion flag is observed.
    pub rotate_on_anomaly: bool,
    /// Re-sample and rotate when the peer anomaly count reaches the threshold.
    pub rotate_on_peer_health_spike: bool,
    /// Distinct peer anomaly flags in the epoch window that trigger rotation.
    pub peer_health_spike_threshold: u32,
}

/// Whether the held guard set is to be re-sampled.
pub open spec fn spec_should_resample(p: GuardMitigationPolicy, epoch_age: u64, anomaly: bool, peer_count: u32) -> bool {
    (p.max_sticky_epochs != u64::MAX && epoch_age >= p.max_sticky_epochs)
        || (p.rotate_on_anomaly && anomaly)
        || (p.rotate_on_peer_health_spike && peer_count >= p.peer_health_spike_threshold)
}

impl Default for GuardMitigationPolicy {
    /// Production-safe: no forced rotation.
    fn default() -> (r: Self)
        ensures
            r == GuardMitigationPolicy::spec_disabled(),
    {
        Self::disabled()
    }
}

impl GuardMitigationPolicy {
    pub open spec fn spec_disabled() -> Self {
        GuardMitigationPolicy {
            max_sticky_epochs: u64::MAX,
            rotate_on_anomaly: false,
            rotate_on_peer_health_spike: false,
            peer_health_spike_threshold: 3,
        }
    }

    /// Disabled mitigation (identical to the unmitigated behavior).
    pub fn disabled() -> (r: Self)
        ensures
            r == Self::spec_disabled(),
    {
        GuardMitigationPolicy {
            max_sticky_epochs: u64::MAX,
            rotate_on_anomaly: false,
            rotate_on_peer_health_spike: false,
            peer_health_spike_threshold: 3,
        }
    }

    /// First mitigation preset: cap the sticky lifetime at 12 epochs and rotate on
    /// anomaly or a peer spike of 2.
    pub fn adaptive_first() -> (r: Self)
        ensures
            r.max_sticky_epochs == 12,
            r.rotate_on_anomaly,
            r.rotate_on_peer_health_spike,
            r.peer_health_spike_threshold == 2,
    {
        GuardMitigationPolicy {
            max_sticky_epochs: 12,
            rotate_on_anomaly: true,
            rotate_on_peer_health_spike: true,
            peer_health_spike_threshold: 2,
        }
    }

    /// Whether the held guard set should be re-sampled for the next epoch.
    pub fn should_resample_guards(&self, epoch_age: u64, anomaly_demotion_flag: bool, peer_anomaly_count: u32) -> (r: bool)
        ensures
            r == spec_should_resample(*self, epoch_age, anomaly_demotion_flag, peer_anomaly_count),
    {
        if self.max_sticky_epochs != u64::MAX && epoch_age >= self.max_sticky_epochs {
            return true;
        }
        if self.rotate_on_anomaly && anomaly_demotion_flag {
            return true;
        }
        if self.rotate_on_peer_health_spike && peer_anomaly_count >= self.peer_health_spike_threshold {
            return true;
        }
        false
    }

    /// Pin mode after mitigation: rotate when a signal fires, else `base`.
    pub fn pin_mode_for_epoch(&self, base: GuardPinMode, epoch_age: u64, anomaly_demotion_flag: bool, peer_anomaly_count: u32) -> (r: GuardPinMode)
        ensures
            r == if spec_should_resample(*self, epoch_age, anomaly_demotion_flag, peer_anomaly_count) {
                GuardPinMode::Rotate
            } else {
                base
            },
    {
        if self.should_resample_guards(epoch_age, anomaly_demotion_flag, peer_anomaly_count) {
            GuardPinMode::Rotate
        } else {
            base
        }
    }

    /// `base` with the mitigated pin mode; the guard count is kept.
    pub fn apply_to_config(&self, base: &GuardConfig, epoch_age: u64, anomaly_demotion_flag: bool, peer_anomaly_count: u32) -> (r: GuardConfig)
        ensures
            r.guard_count == base.guard_count,
            r.pin_mode == if spec_should_resample(*self, epoch_age, anomaly_demotion_flag, peer_anomaly_count) {
                GuardPinMode::Rotate
            } else {
                base.pin_mode
            },
    {
        let mut cfg = *base;
        cfg.pin_mode = self.pin_mode_for_epoch(base.pin_mode, epoch_age, anomaly_demotion_flag, peer_anomaly_count);
        cfg
    }
}

/// The disabled policy never re-samples (so never changes the pin mode), whatever
/// the epoch age and the anomaly and peer signals.
pub proof fn lemma_disabled_never_rotates(epoch_age: u64, anomaly: bool, peer_count: u32)
    ensures
        !spec_should_resample(GuardMitigationPolicy::spec_disabled(), epoch_age, anomaly, peer_count),
{
}

/// With peer-spike rotation on, any peer anomaly count at or above the threshold
/// re-samples, whatever the age and the anomaly flag.
pub proof fn lemma_spike_at_or_above_threshold_resamples(p: GuardMitigationPolicy, epoch_age: u64, anomaly: bool, peer_count: u32)
    requires
        p.rotate_on_peer_health_spike,
        peer_count >= p.peer_health_spike_threshold,
    ensures
        spec_should_resample(p, epoch_age, anomaly, peer_count),
{
}

/// The decision is monotone in every signal: a larger peer anomaly count, an older
/// held set, or a raised anomaly flag never turns a re-sample into a keep.
pub proof fn lemma_resample_monotone(
    p: GuardMitigationPolicy,
    epoch_age: u64,
    anomaly: bool,
    peer_count: u32,
    older: u64,
    anomaly2: bool,
    more: u32,
)
    requires
        spec_should_resample(p, epoch_age, anomaly, peer_count),
        epoch_age <= older,
        anomaly ==> anomaly2,
        peer_count <= more,
    ensures
        spec_should_resample(p, older, anomaly2, more),
{
}

/// Below every trigger nothing re-samples: an age under the cap, no flagged anomaly
/// (or rotation on anomalies off) and a count under the threshold (or spike rotation
/// off) keep the guard set.
pub proof fn lemma_no_signal_keeps(p: GuardMitigationPolicy, epoch_age: u64, anomaly: bool, peer_count: u32)
    requires
        epoch_age < p.max_sticky_epochs,
        !(p.rotate_on_anomaly && anomaly),
        !p.rotate_on_peer_health_spike || peer_count < p.peer_health_spike_threshold,
    ensures
        !spec_should_resample(p, epoch_age, anomaly, peer_count),
{
}

} // verus!
