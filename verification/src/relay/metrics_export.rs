//! Export gate for coarse relay / ingress counters seen by external scrapers.
//!
//! Production defaults enforce a minimum scrape cadence, quantize counters to a
//! bucket, and suppress the ingress drop count. The lab high-resolution preset
//! turns all three off. Times are monotonic nanosecond readings supplied by the
//! caller.
use vstd::prelude::*;

use crate::relay::node::RelayCoarseStats;

verus! {

/// Production default: poll external coarse metrics at most once per 30s.
pub const DEFAULT_MIN_SCRAPE_INTERVAL_SECS: u64 = 30;

/// Production default quantization bucket for exported counters.
pub const DEFAULT_QUANTIZE_BUCKET: u64 = 16;

/// Nanoseconds in one second.
pub const NANOS_PER_SEC: u64 = 1_000_000_000;

/// Export policy for external-facing coarse metrics.
#[derive(Debug, Clone, Copy, PartialEq, Eq)]
pub struct MetricsExportConfig {
    /// Minimum time between successful external exports, in nanoseconds
    /// (ignored when `allow_high_resolution`; `0` disables the cadence check).
    pub min_scrape_interval_nanos: u64,
    /// Floor counters to multiples of this bucket (`0` or `1` = no quantization).
    pub quantize_bucket: u64,
    /// When true, skip cadence / quantize / drop suppression (lab / privileged).
    pub allow_high_resolution: bool,
    /// When true (and not high-res), omit ingress `dropped_frames` from export.
    pub suppress_ingress_drop_detail: bool,
}

/// Snapshot safe for external scrapers after policy application.
#[derive(Debug, Clone, Copy, PartialEq, Eq)]
pub struct ExportedRelayStats {
    pub coarse: RelayCoarseStats,
    /// `None` when ingress drop detail is suppressed by policy.
    pub ingress_dropped_frames: Option<u64>,
}

/// Why an external export was denied.
#[derive(Debug, Clone, Copy, PartialEq, Eq)]
pub enum MetricsExportError {
    /// The caller scraped faster than the minimum interval; retry after this many nanoseconds.
    TooSoon { retry_after_nanos: u64 },
}

/// `v` floored to a multiple of `bucket` (identity for buckets `0` and `1`).
pub open spec fn spec_quantize(v: u64, bucket: u64) -> u64 {
    if bucket <= 1 {
        v
    } else {
        (v / bucket * bucket) as u64
    }
}

pub open spec fn spec_quantize_coarse(s: RelayCoarseStats, bucket: u64) -> RelayCoarseStats {
    RelayCoarseStats {
        processed_ok: spec_quantize(s.processed_ok, bucket),
        processed_fail: spec_quantize(s.processed_fail, bucket),
        cover_emitted: spec_quantize(s.cover_emitted, bucket),
        queue_dropped: spec_quantize(s.queue_dropped, bucket),
    }
}

impl MetricsExportConfig {
    /// Whether the cadence check applies under this configuration.
    pub open spec fn enforces_cadence(self) -> bool {
        !self.allow_high_resolution && self.min_scrape_interval_nanos > 0
    }

    /// Safer production defaults (cadence + quantize + suppressed drop detail).
    pub fn production() -> (r: Self)
        ensures
            r.min_scrape_interval_nanos == DEFAULT_MIN_SCRAPE_INTERVAL_SECS * NANOS_PER_SEC,
            r.quantize_bucket == DEFAULT_QUANTIZE_BUCKET,
            !r.allow_high_resolution,
            r.suppress_ingress_drop_detail,
    {
        MetricsExportConfig {
            min_scrape_interval_nanos: DEFAULT_MIN_SCRAPE_INTERVAL_SECS * NANOS_PER_SEC,
            quantize_bucket: DEFAULT_QUANTIZE_BUCKET,
            allow_high_resolution: false,
            suppress_ingress_drop_detail: true,
        }
    }

    /// Lab / privileged high-resolution export (opt-in).
    pub fn lab_high_resolution() -> (r: Self)
        ensures
            r.min_scrape_interval_nanos == 0,
            r.quantize_bucket == 0,
            r.allow_high_resolution,
            !r.suppress_ingress_drop_detail,
    {
        MetricsExportConfig {
            min_scrape_interval_nanos: 0,
            quantize_bucket: 0,
            allow_high_resolution: true,
            suppress_ingress_drop_detail: false,
        }
    }

    /// True when at least one of cadence, quantization or drop suppression is active
    /// and high resolution is off.
    pub fn is_hardened(&self) -> (r: bool)
        ensures
            r == (!self.allow_high_resolution && (self.min_scrape_interval_nanos > 0
                || self.quantize_bucket > 1 || self.suppress_ingress_drop_detail)),
    {
        !self.allow_high_resolution && (self.min_scrape_interval_nanos > 0
            || self.quantize_bucket > 1 || self.suppress_ingress_drop_detail)
    }
}

/// Stateful gate: enforces cadence across scrapes; applies quantize / suppress.
#[derive(Debug)]
pub struct MetricsExportGate {
    config: MetricsExportConfig,
    /// Time of the last export that passed the cadence check.
    last_ok: Option<u64>,
}

/// The outcome of one export call: the new `last_ok` of the exporter and the result.
pub open spec fn export_outcome(
    cfg: MetricsExportConfig,
    last_ok: Option<u64>,
    coarse: RelayCoarseStats,
    dropped: u64,
    now: u64,
) -> (Option<u64>, Result<ExportedRelayStats, MetricsExportError>) {
    let elapsed: int = match last_ok {
        Some(prev) => if now >= prev { now - prev } else { 0 },
        None => 0,
    };
    if cfg.enforces_cadence() && last_ok is Some && elapsed < cfg.min_scrape_interval_nanos {
        (
            last_ok,
            Err(
                MetricsExportError::TooSoon {
                    retry_after_nanos: (cfg.min_scrape_interval_nanos - elapsed) as u64,
                },
            ),
        )
    } else {
        let new_last = if cfg.enforces_cadence() { Some(now) } else { last_ok };
        let out_coarse = if cfg.allow_high_resolution {
            coarse
        } else {
            spec_quantize_coarse(coarse, cfg.quantize_bucket)
        };
        let out_dropped = if cfg.allow_high_resolution {
            Some(dropped)
        } else if cfg.suppress_ingress_drop_detail {
            None
        } else {
            Some(spec_quantize(dropped, cfg.quantize_bucket))
        };
        (new_last, Ok(ExportedRelayStats { coarse: out_coarse, ingress_dropped_frames: out_dropped }))
    }
}

impl MetricsExportGate {
    /// The export configuration in force.
    pub closed spec fn cfg(&self) -> MetricsExportConfig {
        self.config
    }

    /// Time of the last export that passed the cadence check.
    pub closed spec fn last_export(&self) -> Option<u64> {
        self.last_ok
    }

    pub fn new(config: MetricsExportConfig) -> (r: Self)
        ensures
            r.cfg() == config,
            r.last_export() is None,
    {
        MetricsExportGate { config, last_ok: None }
    }

    pub fn config(&self) -> (r: &MetricsExportConfig)
        ensures
            *r == self.cfg(),
    {
        &self.config
    }

    /// Time of the last export that passed the cadence check.
    pub fn last_ok(&self) -> (r: Option<u64>)
        ensures
            r == self.last_export(),
    {
        self.last_ok
    }

    /// Export at monotonic time `now` (nanoseconds).
    pub fn export_at(&mut self, coarse: RelayCoarseStats, ingress_dropped_frames: u64, now: u64)
        -> (r: Result<ExportedRelayStats, MetricsExportError>)
        ensures
            final(self).cfg() == old(self).cfg(),
            (final(self).last_export(), r) == export_outcome(
                old(self).cfg(),
                old(self).last_export(),
                coarse,
                ingress_dropped_frames,
                now,
            ),
    {
        let cfg = self.config;
        if !cfg.allow_high_resolution && cfg.min_scrape_interval_nanos > 0 {
            match self.last_ok {
                Some(prev) => {
                    let elapsed = if now >= prev { now - prev } else { 0 };
                    if elapsed < cfg.min_scrape_interval_nanos {
                        return Err(MetricsExportError::TooSoon {
                            retry_after_nanos: cfg.min_scrape_interval_nanos - elapsed,
                        });
                    }
                },
                None => {},
            }
            self.last_ok = Some(now);
        }
        let out_coarse = if cfg.allow_high_resolution {
            coarse
        } else {
            quantize_coarse(coarse, cfg.quantize_bucket)
        };
        let out_dropped = if cfg.allow_high_resolution {
            Some(ingress_dropped_frames)
        } else if cfg.suppress_ingress_drop_detail {
            None
        } else {
            Some(quantize_u64(ingress_dropped_frames, cfg.quantize_bucket))
        };
        Ok(ExportedRelayStats { coarse: out_coarse, ingress_dropped_frames: out_dropped })
    }
}

/// Floor `v` to a multiple of `bucket` (`0`/`1` is the identity).
pub fn quantize_u64(v: u64, bucket: u64) -> (r: u64)
    ensures
        r == spec_quantize(v, bucket),
{
    if bucket <= 1 {
        v
    } else {
        proof {
            vstd::arithmetic::div_mod::lemma_fundamental_div_mod(v as int, bucket as int);
            vstd::arithmetic::div_mod::lemma_mod_pos_bound(v as int, bucket as int);
            let q = v / bucket;
            assert(q * bucket == bucket * q) by (nonlinear_arith);
        }
        v / bucket * bucket
    }
}

/// Quantize every coarse counter to `bucket`.
pub fn quantize_coarse(stats: RelayCoarseStats, bucket: u64) -> (r: RelayCoarseStats)
    ensures
        r == spec_quantize_coarse(stats, bucket),
{
    RelayCoarseStats {
        processed_ok: quantize_u64(stats.processed_ok, bucket),
        processed_fail: quantize_u64(stats.processed_fail, bucket),
        cover_emitted: quantize_u64(stats.cover_emitted, bucket),
        queue_dropped: quantize_u64(stats.queue_dropped, bucket),
    }
}

/// Quantization floors: the result is a multiple of the bucket, never exceeds the
/// input, and lies less than one bucket below it; quantizing twice changes nothing.
pub proof fn lemma_quantize_floor(v: u64, bucket: u64)
    requires
        bucket > 1,
    ensures
        spec_quantize(v, bucket) <= v,
        v - spec_quantize(v, bucket) < bucket,
        spec_quantize(v, bucket) % bucket == 0,
        spec_quantize(spec_quantize(v, bucket), bucket) == spec_quantize(v, bucket),
{
    let q = v / bucket;
    vstd::arithmetic::div_mod::lemma_fundamental_div_mod(v as int, bucket as int);
    vstd::arithmetic::div_mod::lemma_mod_pos_bound(v as int, bucket as int);
    vstd::arithmetic::div_mod::lemma_mod_multiples_basic(q as int, bucket as int);
    vstd::arithmetic::div_mod::lemma_div_multiples_vanish(q as int, bucket as int);
    assert(q * bucket == bucket * q) by (nonlinear_arith);
}

/// Cadence: under a configuration that enforces it, once an export succeeds at
/// `t1`, every export requested before `t1 + min_scrape_interval` is refused, and
/// the refusal leaves the exporter's clock unchanged.
pub proof fn lemma_cadence_enforced(
    cfg: MetricsExportConfig,
    last_ok: Option<u64>,
    c1: RelayCoarseStats,
    d1: u64,
    t1: u64,
    c2: RelayCoarseStats,
    d2: u64,
    t2: u64,
)
    requires
        cfg.enforces_cadence(),
        export_outcome(cfg, last_ok, c1, d1, t1).1 is Ok,
        t1 <= t2,
        t2 < t1 + cfg.min_scrape_interval_nanos,
    ensures
        export_outcome(cfg, export_outcome(cfg, last_ok, c1, d1, t1).0, c2, d2, t2).1 is Err,
        export_outcome(cfg, export_outcome(cfg, last_ok, c1, d1, t1).0, c2, d2, t2).0 == Some(t1),
{
}

} // verus!
