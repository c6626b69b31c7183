use aegis::relay::config::{dial_requires_relay_cover, BulkCoverConfig, CoverPolicyError, DEFAULT_COVER_ROUND_SECS};
use aegis::relay::cover_flow::{
    plan_cover_emit, required_cover_flow_count, BulkRoundTracker, CoverEmitPlan, CoverFlowConfig, CoverMultihopDefense, CoverRequirement,
    SecurityDial,
};
use aegis::relay::health_gossip::{accept_advert, HealthGossipError, PeerHealthAdvert, DEFAULT_MAX_ADVERT_AGE_SECS};
use aegis::relay::health_quorum_log::{
    advert_epoch, canonical_checkpoint_bytes, HealthEpochMedianSummary, HealthQuorumLog, HealthQuorumLogEntry,
    QuorumAppendOutcome, QuorumLogError, QUORUM_LOG_RECORD_LEN,
};
use aegis::relay::metrics_export::{
    quantize_u64, MetricsExportConfig, MetricsExportError, MetricsExportGate, DEFAULT_MIN_SCRAPE_INTERVAL_SECS,
    DEFAULT_QUANTIZE_BUCKET, NANOS_PER_SEC,
};
use aegis::relay::node::{cover_round_counts, on_packet, PacketOutcome, RelayCoarseStats, RelayStats};
use aegis::relay::peer_health::{
    count_distinct_strings, gossip_diversity_key, normalize_diversity_key, GossipIngest, GossipMergeOutcome, PeerHealthTracker,
};
use aegis::relay::relay_id::RelayId;
use aegis::relay::trace::trace_timestamp_field;
use ed25519_dalek::SigningKey;

fn sample_coarse() -> RelayCoarseStats {
    RelayCoarseStats { processed_ok: 37, processed_fail: 9, cover_emitted: 21, queue_dropped: 5 }
}

fn secs(s: u64) -> u64 {
    s * NANOS_PER_SEC
}

// ---------- metrics export ----------

#[test]
fn production_defaults_are_hardened() {
    let cfg = MetricsExportConfig::production();
    assert_eq!(cfg.min_scrape_interval_nanos, secs(DEFAULT_MIN_SCRAPE_INTERVAL_SECS));
    assert_eq!(cfg.quantize_bucket, DEFAULT_QUANTIZE_BUCKET);
    assert!(!cfg.allow_high_resolution);
    assert!(cfg.suppress_ingress_drop_detail);
    assert!(cfg.is_hardened());
}

#[test]
fn lab_high_res_passes_raw_and_drops() {
    let mut gate = MetricsExportGate::new(MetricsExportConfig::lab_high_resolution());
    let t0 = 5_000_000_000u64;
    let a = gate.export_at(sample_coarse(), 123, t0).unwrap();
    assert_eq!(a.coarse, sample_coarse());
    assert_eq!(a.ingress_dropped_frames, Some(123));
    let b = gate.export_at(sample_coarse(), 124, t0 + 1_000_000).unwrap();
    assert_eq!(b.ingress_dropped_frames, Some(124));
}

#[test]
fn production_enforces_min_cadence() {
    let mut gate = MetricsExportGate::new(MetricsExportConfig::production());
    let t0 = 7_000_000_000u64;
    assert!(gate.export_at(sample_coarse(), 50, t0).is_ok());
    let err = gate.export_at(sample_coarse(), 50, t0 + secs(5)).unwrap_err();
    match err {
        MetricsExportError::TooSoon { retry_after_nanos } => {
            assert!(retry_after_nanos > secs(20));
            assert!(retry_after_nanos <= secs(DEFAULT_MIN_SCRAPE_INTERVAL_SECS));
        },
    }
    assert!(gate.export_at(sample_coarse(), 50, t0 + secs(DEFAULT_MIN_SCRAPE_INTERVAL_SECS)).is_ok());
}

#[test]
fn production_quantizes_and_suppresses_drops() {
    let mut gate = MetricsExportGate::new(MetricsExportConfig::production());
    let out = gate.export_at(sample_coarse(), 99, 1).unwrap();
    assert_eq!(out.coarse.processed_ok, 32);
    assert_eq!(out.coarse.processed_fail, 0);
    assert_eq!(out.coarse.cover_emitted, 16);
    assert_eq!(out.coarse.queue_dropped, 0);
    assert_eq!(out.ingress_dropped_frames, None);
}

#[test]
fn quantize_without_suppress_keeps_bucketed_drops() {
    let cfg = MetricsExportConfig {
        min_scrape_interval_nanos: 0,
        quantize_bucket: 10,
        allow_high_resolution: false,
        suppress_ingress_drop_detail: false,
    };
    let mut gate = MetricsExportGate::new(cfg);
    let out = gate.export_at(sample_coarse(), 99, 1).unwrap();
    assert_eq!(out.coarse.processed_ok, 30);
    assert_eq!(out.ingress_dropped_frames, Some(90));
}

#[test]
fn quantize_u64_identity_for_bucket_0_or_1() {
    assert_eq!(quantize_u64(42, 0), 42);
    assert_eq!(quantize_u64(42, 1), 42);
    assert_eq!(quantize_u64(42, 16), 32);
}

#[test]
fn refused_scrape_keeps_last_export_time() {
    let mut gate = MetricsExportGate::new(MetricsExportConfig::production());
    assert!(gate.export_at(sample_coarse(), 0, secs(100)).is_ok());
    assert_eq!(
        gate.export_at(sample_coarse(), 0, secs(110)),
        Err(MetricsExportError::TooSoon { retry_after_nanos: secs(20) })
    );
    assert_eq!(gate.last_ok(), Some(secs(100)));
}

// ---------- cover flow ----------

#[test]
fn parse_multihop_defense_tokens() {
    assert_eq!(CoverMultihopDefense::parse("matched_local_discard"), Some(CoverMultihopDefense::MatchedLocalDiscard));
    assert_eq!(CoverMultihopDefense::parse("cover_onions"), Some(CoverMultihopDefense::CoverOnionsScaffold));
    assert_eq!(CoverMultihopDefense::parse("baseline"), Some(CoverMultihopDefense::BaselineLocalDiscard));
    assert_eq!(CoverMultihopDefense::parse("nope"), None);
}

#[test]
fn parse_is_trimmed_and_case_insensitive() {
    assert_eq!(CoverMultihopDefense::parse("  MATCHED \n"), Some(CoverMultihopDefense::MatchedLocalDiscard));
    assert_eq!(CoverMultihopDefense::parse("Onions_Scaffold"), Some(CoverMultihopDefense::CoverOnionsScaffold));
    for d in [
        CoverMultihopDefense::BaselineLocalDiscard,
        CoverMultihopDefense::MatchedLocalDiscard,
        CoverMultihopDefense::CoverOnionsScaffold,
    ] {
        assert_eq!(CoverMultihopDefense::parse(d.as_str()), Some(d));
    }
}

#[test]
fn plan_matched_independent_of_real() {
    let p0 = plan_cover_emit(CoverMultihopDefense::MatchedLocalDiscard, SecurityDial::L2UniformBatched, 0, 8, 3, 0);
    let p7 = plan_cover_emit(CoverMultihopDefense::MatchedLocalDiscard, SecurityDial::L2UniformBatched, 7, 8, 3, 0);
    assert_eq!(p0, p7);
    assert_eq!(p0.local_discard_flows, 3);
}

#[test]
fn plan_baseline_pads_and_scaffold_adds_onions() {
    let base = plan_cover_emit(CoverMultihopDefense::BaselineLocalDiscard, SecurityDial::L2UniformBatched, 2, 5, 9, 9);
    assert_eq!(base, CoverEmitPlan { local_discard_flows: 3, onion_scaffold_flows: 0 });
    let over = plan_cover_emit(CoverMultihopDefense::BaselineLocalDiscard, SecurityDial::L2UniformBatched, 7, 5, 9, 9);
    assert!(over.is_empty());
    let scaf = plan_cover_emit(CoverMultihopDefense::CoverOnionsScaffold, SecurityDial::L2UniformBatched, 1, 3, 9, 2);
    assert_eq!(scaf, CoverEmitPlan { local_discard_flows: 2, onion_scaffold_flows: 2 });
    assert_eq!(scaf.total_flows(), 4);
    assert_eq!(scaf.total_cells(5), 20);
    let raw = plan_cover_emit(CoverMultihopDefense::MatchedLocalDiscard, SecurityDial::L1Bucketed, 0, 8, 3, 1);
    assert!(raw.is_empty());
}

#[test]
fn bulk_round_tracker_closes_with_plan() {
    let mut t = BulkRoundTracker::new();
    assert!(!t.is_active());
    let cfg = CoverFlowConfig::baseline(4);
    assert!(t.close_round(&cfg).is_none());
    t.begin(SecurityDial::L2UniformBatched, CoverRequirement { target_flow_count: 3 });
    t.observe_real_flow();
    assert_eq!(t.real_flow_count(), 1);
    let close = t.close_round(&cfg).expect("pads to target");
    assert_eq!(close.plan.local_discard_flows, 2);
    assert!(!t.is_active());
    assert_eq!(t.real_flow_count(), 0);
    t.begin(SecurityDial::L2UniformBatched, CoverRequirement { target_flow_count: 1 });
    t.observe_real_flow();
    assert!(t.close_round(&cfg).is_none());
    let matched = CoverFlowConfig::matched_local_discard(4, 2);
    assert_eq!(matched.matched_discard_cell_count(), 8);
    t.begin(SecurityDial::L2UniformBatched, CoverRequirement { target_flow_count: 1 });
    t.observe_real_flow();
    assert_eq!(t.close_round(&matched).unwrap().plan.local_discard_flows, 2);
}

// ---------- peer health ----------

fn peer(n: u8) -> [u8; 32] {
    let mut id = [0u8; 32];
    id[0] = n;
    id
}

#[test]
fn diversity_key_prefers_org_then_jurisdiction() {
    let r = peer(9);
    assert_eq!(gossip_diversity_key(Some("acme"), Some("US"), &r), "org:acme");
    assert_eq!(gossip_diversity_key(None, Some("DE"), &r), "jur:DE");
    let rid = gossip_diversity_key(None, None, &r);
    assert!(rid.starts_with("rid:"));
    assert!(rid.contains("09"));
}

#[test]
fn normalize_blank_key_uses_reporter() {
    let r = peer(0xab);
    assert_eq!(normalize_diversity_key("  org:x  ", &r), "org:x");
    let k = normalize_diversity_key("   ", &r);
    assert_eq!(k, format!("rid:ab{}", "00".repeat(31)));
    assert_eq!(gossip_diversity_key(Some("  "), Some(" FR "), &r), "jur:FR");
}

#[test]
fn windows_count_successes_and_failures() {
    let mut tracker = PeerHealthTracker::new();
    assert!(tracker.window(peer(1)).is_none());
    for _ in 0..7 {
        tracker.record_success(peer(1));
    }
    for _ in 0..3 {
        tracker.record_failure(peer(1));
    }
    assert_eq!(tracker.window(peer(1)), Some((7, 3)));
    tracker.apply_gossip_outcomes(peer(1), 8, 2, 1, 2);
    assert_eq!(tracker.window(peer(1)), Some((11, 4)));
    tracker.apply_gossip_outcomes(peer(2), 1, 1, 1, 2);
    assert!(tracker.window(peer(2)).is_none());
    tracker.apply_gossip_outcomes(peer(2), 4, 4, 1, 0);
    assert!(tracker.window(peer(2)).is_none());
    let drained = tracker.drain_windows(4);
    assert_eq!(drained, vec![(peer(1), 11, 4)]);
    assert_eq!(tracker.window(peer(1)), Some((0, 0)));
    assert_eq!(tracker.snapshot().len(), 1);
}

#[test]
fn stacked_defaults() {
    let tracker = PeerHealthTracker::new();
    assert_eq!(tracker.gossip_majority_k(), 4);
    assert_eq!(tracker.gossip_min_orgs(), 2);
    assert!(tracker.eclipse_detect_enabled());
}

#[test]
fn gossip_quorum_waits_for_reporters_and_diversity() {
    let mut tracker = PeerHealthTracker::with_policy(2, 2, false);
    let subject = peer(11);
    let out = tracker.ingest_gossip_observation(peer(1), subject, 0, 100, "org:evil");
    assert_eq!(out, GossipIngest::Buffered { have: 1, need: 2 });
    let out = tracker.ingest_gossip_observation(peer(2), subject, 0, 100, "org:evil");
    assert_eq!(out, GossipIngest::WaitingDiversity { have: 2, distinct_orgs: 1, need_orgs: 2 });
    assert_eq!(tracker.pending_gossip_reporters(subject), 2);
    assert_eq!(tracker.pending_gossip_orgs(subject), 1);
    let out = tracker.ingest_gossip_observation(peer(3), subject, 90, 10, "org:honest");
    match out {
        GossipIngest::QuorumReady { observations, reporters, distinct_orgs } => {
            assert_eq!(reporters, 3);
            assert_eq!(distinct_orgs, 2);
            assert_eq!(observations, vec![(0, 100), (0, 100), (90, 10)]);
        },
        other => panic!("unexpected {other:?}"),
    }
    assert_eq!(tracker.pending_gossip_reporters(subject), 0);
}

#[test]
fn same_reporter_replaces_its_observation() {
    let mut tracker = PeerHealthTracker::with_gossip_majority_k(3);
    let subject = peer(5);
    tracker.ingest_gossip_observation(peer(1), subject, 1, 1, "");
    let out = tracker.ingest_gossip_observation(peer(1), subject, 2, 2, "");
    assert_eq!(out, GossipIngest::Buffered { have: 1, need: 3 });
}

// ---------- gossip adverts ----------

fn sk(seed: u8) -> [u8; 32] {
    [seed; 32]
}

fn vk(seed: u8) -> [u8; 32] {
    SigningKey::from_bytes(&[seed; 32]).verifying_key().to_bytes()
}

#[test]
fn sign_verify_roundtrip() {
    let advert = PeerHealthAdvert::sign(&sk(7), peer(1), peer(2), 10, 2, 1_700_000_000);
    advert.verify(&vk(7)).unwrap();
    let body = advert.signable_bytes();
    assert_eq!(&body[0..32], &peer(1));
    assert_eq!(&body[64..72], &10u64.to_le_bytes());
    assert_eq!(advert.verify(&vk(8)), Err(HealthGossipError::BadSignature));
}

#[test]
fn reject_bad_signature() {
    let mut advert = PeerHealthAdvert::sign(&sk(1), peer(1), peer(2), 1, 0, 100);
    advert.signature[0] ^= 0xff;
    assert_eq!(advert.verify(&vk(1)), Err(HealthGossipError::BadSignature));
}

#[test]
fn accept_from_peer_table_neighbor_applies_decay() {
    let reporter = peer(9);
    let subject = peer(3);
    let advert = PeerHealthAdvert::sign(&sk(9), reporter, subject, 8, 2, 1_000);
    let mut tracker = PeerHealthTracker::new();
    accept_advert(&advert, RelayId(reporter), Some(Some(vk(9))), 1_000, DEFAULT_MAX_ADVERT_AGE_SECS, &mut tracker).unwrap();
    assert_eq!(tracker.window(subject), Some((4, 1)));
}

#[test]
fn reject_unknown_reporter() {
    let advert = PeerHealthAdvert::sign(&sk(2), peer(2), peer(3), 1, 0, 50);
    let mut tracker = PeerHealthTracker::new();
    let err = accept_advert(&advert, RelayId(peer(2)), None, 50, DEFAULT_MAX_ADVERT_AGE_SECS, &mut tracker).unwrap_err();
    assert_eq!(err, HealthGossipError::UnknownReporter);
}

#[test]
fn reject_stale_timestamp() {
    let reporter = peer(4);
    let advert = PeerHealthAdvert::sign(&sk(4), reporter, peer(5), 1, 0, 10);
    let mut tracker = PeerHealthTracker::new();
    let err = accept_advert(
        &advert,
        RelayId(reporter),
        Some(Some(vk(4))),
        10 + DEFAULT_MAX_ADVERT_AGE_SECS + 1,
        DEFAULT_MAX_ADVERT_AGE_SECS,
        &mut tracker,
    )
    .unwrap_err();
    assert_eq!(err, HealthGossipError::StaleTimestamp);
}

#[test]
fn accept_refusals_for_each_error() {
    let reporter = peer(4);
    let advert = PeerHealthAdvert::sign(&sk(4), reporter, peer(5), 1, 0, 1_000);
    let mut tracker = PeerHealthTracker::new();
    let e = |r: Result<(), HealthGossipError>| r.unwrap_err();
    assert_eq!(e(accept_advert(&advert, RelayId(peer(5)), Some(Some(vk(4))), 1_000, 60, &mut tracker)), HealthGossipError::ReporterMismatch);
    assert_eq!(e(accept_advert(&advert, RelayId(reporter), Some(None), 1_000, 60, &mut tracker)), HealthGossipError::MissingVerifyingKey);
    assert_eq!(e(accept_advert(&advert, RelayId(reporter), Some(Some(vk(6))), 1_000, 60, &mut tracker)), HealthGossipError::BadSignature);
    assert_eq!(e(accept_advert(&advert, RelayId(reporter), Some(Some(vk(4))), 879, 60, &mut tracker)), HealthGossipError::StaleTimestamp);
    assert!(accept_advert(&advert, RelayId(reporter), Some(Some(vk(4))), 880, 60, &mut tracker).is_ok());
    assert!(tracker.window(peer(5)).is_none());
}

// ---------- quorum log ----------

fn id(n: u8) -> [u8; 32] {
    peer(n)
}

fn authorities(reporters: &[u8]) -> Vec<[u8; 32]> {
    reporters.iter().map(|n| id(*n)).collect()
}

#[test]
fn honest_quorum_releases_observations() {
    let subject = id(50);
    let epoch = 100;
    let mut log = HealthQuorumLog::new(2, authorities(&[1, 2, 3]));
    let a1 = PeerHealthAdvert::sign(&sk(1), id(1), subject, 90, 10, 1_000);
    let a2 = PeerHealthAdvert::sign(&sk(2), id(2), subject, 88, 12, 1_000);
    let a3 = PeerHealthAdvert::sign(&sk(3), id(3), subject, 92, 8, 1_000);
    let out1 = log.append_verified(epoch, &a1, &vk(1)).unwrap();
    assert_eq!(out1.0, QuorumAppendOutcome::Buffered { have: 1, need: 2 });
    let out2 = log.append_verified(epoch, &a2, &vk(2)).unwrap();
    assert_eq!(out2.0, QuorumAppendOutcome::Applied { reporters: 2 });
    assert_eq!(out2.1, vec![(90, 10), (88, 12)]);
    assert!(log.epoch_subject_applied(epoch, subject));
    let out3 = log.append_verified(epoch, &a3, &vk(3)).unwrap();
    assert_eq!(out3.0, QuorumAppendOutcome::Duplicate);
    assert_eq!(log.entry_count(), 3);
}

#[test]
fn single_byzantine_advert_buffered_not_applied() {
    let subject = id(7);
    let mut log = HealthQuorumLog::new(2, authorities(&[9, 10]));
    let evil = PeerHealthAdvert::sign(&sk(9), id(9), subject, 0, 100, 500);
    let out = log.append_verified(5, &evil, &vk(9)).unwrap();
    assert_eq!(out.0, QuorumAppendOutcome::Buffered { have: 1, need: 2 });
    assert!(!log.epoch_subject_applied(5, subject));
}

#[test]
fn equivocation_rejected() {
    let subject = id(3);
    let mut log = HealthQuorumLog::new(1, authorities(&[4]));
    let a1 = PeerHealthAdvert::sign(&sk(4), id(4), subject, 10, 0, 100);
    log.append_verified(1, &a1, &vk(4)).unwrap();
    let a2 = PeerHealthAdvert::sign(&sk(4), id(4), subject, 0, 10, 100);
    let err = log.append_verified(1, &a2, &vk(4)).unwrap_err();
    assert_eq!(err, QuorumLogError::Equivocation);
}

#[test]
fn non_authority_reporter_rejected() {
    let mut log = HealthQuorumLog::new(1, authorities(&[1]));
    let advert = PeerHealthAdvert::sign(&sk(99), id(99), id(11), 5, 5, 100);
    let err = log.append_verified(2, &advert, &vk(99)).unwrap_err();
    assert_eq!(err, QuorumLogError::NotAuthority);
    let bad = log.append_verified(2, &advert, &vk(1)).unwrap_err();
    assert_eq!(bad, QuorumLogError::BadSignature);
}

#[test]
fn epoch_checkpoint_signs_accepted_medians() {
    let subject = id(20);
    let epoch = 9;
    let mut log = HealthQuorumLog::new(2, authorities(&[1, 2]));
    let a1 = PeerHealthAdvert::sign(&sk(1), id(1), subject, 90, 10, 500);
    let a2 = PeerHealthAdvert::sign(&sk(2), id(2), subject, 88, 12, 500);
    log.append_verified(epoch, &a1, &vk(1)).unwrap();
    let (outcome, _obs) = log.append_verified(epoch, &a2, &vk(2)).unwrap();
    assert_eq!(outcome, QuorumAppendOutcome::Applied { reporters: 2 });
    log.record_applied_median(epoch, subject, 89, 11);
    let checkpoint = log.sign_epoch_checkpoint(epoch, &sk(77));
    assert_eq!(checkpoint.summaries.len(), 1);
    assert_eq!(checkpoint.summaries[0].subject, subject);
    checkpoint.verify(&vk(77)).expect("checkpoint signature must verify");
    let mut tampered = checkpoint.clone();
    tampered.summaries[0].failures += 1;
    assert!(tampered.verify(&vk(77)).is_err());
}

#[test]
fn record_roundtrip() {
    let advert = PeerHealthAdvert::sign(&sk(1), id(1), id(2), 3, 1, 999);
    let entry = HealthQuorumLogEntry { epoch: 7, advert };
    let bytes = entry.record_bytes();
    let parsed = HealthQuorumLogEntry::from_record_bytes(&bytes).unwrap();
    assert_eq!(parsed.epoch, 7);
    assert_eq!(parsed.advert.reporter, entry.advert.reporter);
    assert_eq!(parsed.advert.successes, entry.advert.successes);
    assert_eq!(parsed.advert.signature, entry.advert.signature);
    assert_eq!(parsed.advert.timestamp_secs, 0);
    assert_eq!(HealthQuorumLogEntry::from_record_bytes(&bytes[..QUORUM_LOG_RECORD_LEN - 1]), Err(QuorumLogError::Malformed));
}

#[test]
fn replay_rebuilds_quorum_state() {
    let subject = id(8);
    let epoch = 42;
    let mut log = HealthQuorumLog::new(2, authorities(&[1, 2]));
    let a1 = PeerHealthAdvert::sign(&sk(1), id(1), subject, 9, 1, 200);
    let a2 = PeerHealthAdvert::sign(&sk(2), id(2), subject, 8, 2, 200);
    log.replay_entry(HealthQuorumLogEntry { epoch, advert: a1 }).unwrap();
    log.replay_entry(HealthQuorumLogEntry { epoch, advert: a2 }).unwrap();
    assert_eq!(log.entry_count(), 2);
    assert!(!log.epoch_subject_applied(epoch, subject));
    let ready = log.finalize_replayed_quorums();
    assert_eq!(ready.len(), 1);
    assert_eq!(ready[0].2.len(), 2);
    assert!(log.epoch_subject_applied(epoch, subject));
    let mut conflict = a1;
    conflict.successes = 0;
    assert_eq!(log.replay_entry(HealthQuorumLogEntry { epoch, advert: conflict }), Err(QuorumLogError::Equivocation));
}

#[test]
fn summaries_sorted_by_subject_and_epoch_bucket() {
    let mut log = HealthQuorumLog::new(1, vec![]);
    log.record_applied_median(1, id(9), 1, 1);
    log.record_applied_median(1, id(3), 2, 2);
    log.record_applied_median(2, id(5), 3, 3);
    let s = log.applied_summaries_for_epoch(1);
    assert_eq!(s.len(), 2);
    assert_eq!(s[0].subject, id(3));
    assert_eq!(s[1].subject, id(9));
    let bytes = canonical_checkpoint_bytes(1, &[HealthEpochMedianSummary { subject: id(3), successes: 2, failures: 2 }]);
    assert_eq!(bytes.len(), 32 + 8 + 48);
    assert_eq!(advert_epoch(3_600, 600), 6);
    assert_eq!(advert_epoch(5, 0), 5);
}

#[test]
fn link_bridge_config_defaults() {
    let cfg = aegis::relay::net::LinkBridgeConfig::default();
    assert_eq!(cfg.read_timeout, std::time::Duration::from_secs(30));
    assert_eq!(cfg.max_inbound_connections, aegis::relay::net::DEFAULT_MAX_INBOUND_CONNECTIONS);
    assert_eq!(cfg.max_inbound_connections, 256);
}

#[test]
fn relay_stats_count_each_packet_outcome() {
    let mut stats = RelayStats::new();
    let mut round = BulkRoundTracker::new();
    round.begin(SecurityDial::L2UniformBatched, CoverRequirement { target_flow_count: 8 });
    assert!(on_packet(&mut stats, &mut round, PacketOutcome::Forward));
    assert!(on_packet(&mut stats, &mut round, PacketOutcome::Forward));
    assert!(!on_packet(&mut stats, &mut round, PacketOutcome::LoopReturned));
    assert!(!on_packet(&mut stats, &mut round, PacketOutcome::Drop));
    assert!(!on_packet(&mut stats, &mut round, PacketOutcome::IntegrityFailure));
    assert!(!on_packet(&mut stats, &mut round, PacketOutcome::Replay));
    assert!(!on_packet(&mut stats, &mut round, PacketOutcome::OtherError));
    assert_eq!(round.real_flow_count(), 2);
    stats.record_queue_drop();
    let coarse = stats.coarse();
    assert_eq!(coarse.processed_ok, 4);
    assert_eq!(coarse.processed_fail, 3);
    assert_eq!(coarse.queue_dropped, 1);
    let close = round.close_round(&CoverFlowConfig::baseline(4)).expect("under target pads");
    let (flows, cells) = cover_round_counts(&close, 4);
    assert_eq!((flows, cells), (6, 24));
    stats.record_cover_round(flows, cells);
    assert_eq!(stats.cover_flow_count, 6);
    assert_eq!(stats.cover_cell_count, 24);
    assert_eq!(stats.coarse().cover_emitted, 6);
}

#[test]
fn relay_stats_counters_wrap() {
    let mut stats = RelayStats::new();
    stats.forwarded_count = u64::MAX;
    assert!(stats.record_packet(PacketOutcome::Forward));
    assert_eq!(stats.forwarded_count, 0);
}

const CELLS_PER_FLOW: usize = 4;

#[test]
fn generator_produces_zero_when_at_or_over_target() {
    for real in [8usize, 9, 100] {
        assert_eq!(required_cover_flow_count(real, 8), 0, "real={real}");
    }
    for real in [0usize, 3, 7] {
        assert_eq!(required_cover_flow_count(real, 8), 8 - real as u32, "real={real}");
    }
}

#[test]
fn dial_gates_cover_generation() {
    let mut tracker = BulkRoundTracker::new();
    let config = CoverFlowConfig::baseline(CELLS_PER_FLOW);

    tracker.begin(SecurityDial::L0Raw, CoverRequirement { target_flow_count: 8 });
    tracker.observe_real_flow();
    assert!(tracker.close_round(&config).is_none());

    tracker.begin(SecurityDial::L1Bucketed, CoverRequirement { target_flow_count: 8 });
    tracker.observe_real_flow();
    assert!(tracker.close_round(&config).is_none());

    tracker.begin(SecurityDial::L2UniformBatched, CoverRequirement { target_flow_count: 8 });
    for _ in 0..3 {
        tracker.observe_real_flow();
    }
    let close = tracker.close_round(&config).expect("L2 under target should pad");
    let (flows, cells) = cover_round_counts(&close, CELLS_PER_FLOW);
    assert_eq!(flows, 5);
    assert_eq!(cells, 5 * CELLS_PER_FLOW as u64);
    assert_eq!(config.multihop_defense, CoverMultihopDefense::BaselineLocalDiscard);
}

#[test]
fn matched_local_discard_aligns_volume_across_unequal_real() {
    let config = CoverFlowConfig::matched_local_discard(CELLS_PER_FLOW, 2);

    let mut low = BulkRoundTracker::new();
    low.begin(SecurityDial::L2UniformBatched, CoverRequirement { target_flow_count: 8 });
    low.observe_real_flow();
    let a = low.close_round(&config).expect("matched emits fixed volume");

    let mut high = BulkRoundTracker::new();
    high.begin(SecurityDial::L2UniformBatched, CoverRequirement { target_flow_count: 8 });
    for _ in 0..8 {
        high.observe_real_flow();
    }
    let b = high.close_round(&config).expect("matched ignores real>=target");

    let (a_flows, a_cells) = cover_round_counts(&a, CELLS_PER_FLOW);
    let (b_flows, b_cells) = cover_round_counts(&b, CELLS_PER_FLOW);
    assert_eq!(a_flows, 2);
    assert_eq!(b_flows, 2);
    assert_eq!(a_cells, b_cells);
    assert_eq!(a_cells, config.matched_discard_cell_count());
    assert_eq!(a.plan.local_discard_flows, 2);
    assert_eq!(a.plan.onion_scaffold_flows, 0);
    assert_eq!(config.multihop_defense, CoverMultihopDefense::MatchedLocalDiscard);
}

#[test]
fn cover_onions_scaffold_tags_distinct_reserved_still_discard() {
    let config = CoverFlowConfig::cover_onions_scaffold(CELLS_PER_FLOW, 2);
    let mut tracker = BulkRoundTracker::new();
    tracker.begin(SecurityDial::L2UniformBatched, CoverRequirement { target_flow_count: 8 });
    for _ in 0..8 {
        tracker.observe_real_flow();
    }
    let close = tracker.close_round(&config).expect("scaffold emits onion flows even when pad is zero");
    assert_eq!(close.plan.local_discard_flows, 0);
    assert_eq!(close.plan.onion_scaffold_flows, 2);
    assert_eq!(cover_round_counts(&close, CELLS_PER_FLOW).0, 2);
    assert_eq!(config.multihop_defense, CoverMultihopDefense::CoverOnionsScaffold);
}

#[test]
fn cover_onions_scaffold_plus_baseline_pad() {
    let config = CoverFlowConfig::cover_onions_scaffold(CELLS_PER_FLOW, 1);
    let mut tracker = BulkRoundTracker::new();
    tracker.begin(SecurityDial::L2UniformBatched, CoverRequirement { target_flow_count: 8 });
    for _ in 0..3 {
        tracker.observe_real_flow();
    }
    let close = tracker.close_round(&config).unwrap();
    assert_eq!(close.plan.local_discard_flows, 5);
    assert_eq!(close.plan.onion_scaffold_flows, 1);
    assert_eq!(cover_round_counts(&close, CELLS_PER_FLOW).0, 6);
}

#[test]
fn recorded_median_replaces_and_keeps_other_epochs() {
    let mut log = HealthQuorumLog::new(1, vec![]);
    log.record_applied_median(1, id(4), 1, 1);
    log.record_applied_median(2, id(4), 7, 7);
    log.record_applied_median(1, id(4), 9, 0);
    let one = log.applied_summaries_for_epoch(1);
    assert_eq!(one, vec![HealthEpochMedianSummary { subject: id(4), successes: 9, failures: 0 }]);
    let two = log.applied_summaries_for_epoch(2);
    assert_eq!(two, vec![HealthEpochMedianSummary { subject: id(4), successes: 7, failures: 7 }]);
}

// ---------- median merge (median and eclipse verdict supplied) ----------

#[test]
fn quorum_median_applies_at_half_weight() {
    let mut tracker = PeerHealthTracker::with_gossip_majority_k(2);
    let subject = peer(7);
    assert_eq!(
        tracker.ingest_gossip_observation(peer(1), subject, 0, 100, "org:a"),
        GossipIngest::Buffered { have: 1, need: 2 }
    );
    let observations = match tracker.ingest_gossip_observation(peer(2), subject, 90, 10, "org:b") {
        GossipIngest::QuorumReady { observations, reporters: 2, distinct_orgs: 2 } => observations,
        other => panic!("unexpected {other:?}"),
    };
    assert_eq!(observations, vec![(0, 100), (90, 10)]);
    // median failure rate 0.55 over a mean of 100 samples
    let out = tracker.finish_median_merge(subject, Some((45, 55)), false, 2, 2);
    assert_eq!(out, GossipMergeOutcome::Applied { reporters: 2, distinct_orgs: 2 });
    assert_eq!(tracker.window(subject), Some((22, 27)));
}

#[test]
fn quarantined_median_leaves_window_unchanged() {
    let mut tracker = PeerHealthTracker::with_policy(2, 1, true);
    let subject = peer(22);
    for _ in 0..9 {
        tracker.record_success(subject);
    }
    tracker.record_failure(subject);
    let out = tracker.finish_median_merge(subject, Some((0, 100)), true, 2, 2);
    assert_eq!(out, GossipMergeOutcome::Quarantined { reporters: 2, distinct_orgs: 2 });
    assert_eq!(tracker.window(subject), Some((9, 1)));
    let out = tracker.finish_median_merge(subject, Some((89, 11)), false, 2, 2);
    assert_eq!(out, GossipMergeOutcome::Applied { reporters: 2, distinct_orgs: 2 });
    assert_eq!(tracker.window(subject), Some((9 + 44, 1 + 5)));
}

#[test]
fn eclipse_verdict_ignored_when_detection_off() {
    let mut tracker = PeerHealthTracker::with_policy(2, 1, false);
    let subject = peer(3);
    let out = tracker.finish_median_merge(subject, Some((0, 100)), true, 2, 1);
    assert_eq!(out, GossipMergeOutcome::Applied { reporters: 2, distinct_orgs: 1 });
    assert_eq!(tracker.window(subject), Some((0, 50)));
}

#[test]
fn no_median_applies_nothing() {
    let mut tracker = PeerHealthTracker::new();
    let out = tracker.finish_median_merge(peer(4), None, true, 4, 2);
    assert_eq!(out, GossipMergeOutcome::Applied { reporters: 4, distinct_orgs: 2 });
    assert!(tracker.window(peer(4)).is_none());
}

#[test]
fn preformed_quorum_waits_for_diversity() {
    let mut tracker = PeerHealthTracker::new();
    let subject = peer(9);
    let obs = vec![(0, 100), (0, 100), (0, 100), (0, 100)];
    let same = vec!["org:x".to_string(), "org:x".to_string(), "org:x".to_string(), "org:x".to_string()];
    let out = tracker.apply_quorum_median(subject, &obs, &same, Some((0, 100)), false);
    assert_eq!(out, GossipMergeOutcome::WaitingDiversity { have: 4, distinct_orgs: 1, need_orgs: 2 });
    assert!(tracker.window(subject).is_none());
    let mixed = vec!["org:x".to_string(), "org:y".to_string(), "org:x".to_string(), "org:z".to_string()];
    let out = tracker.apply_quorum_median(subject, &obs, &mixed, Some((0, 100)), false);
    assert_eq!(out, GossipMergeOutcome::Applied { reporters: 4, distinct_orgs: 3 });
    assert_eq!(tracker.window(subject), Some((0, 50)));
    assert_eq!(count_distinct_strings(&mixed), 3);
}

// ---------- forward traces ----------

#[test]
fn parse_trace_timestamps_skips_header_and_comments() {
    let text = "\
timestamp,cell_count,event_type
# vantage=relay_post_forward
1000.5,18,forward
1001.0,3,cover
";
    let fields: Vec<&str> = text.lines().filter_map(trace_timestamp_field).collect();
    assert_eq!(fields, vec!["1000.5", "1001.0"]);
    let parsed: Vec<f64> = fields.iter().filter_map(|f| f.parse().ok()).collect();
    assert_eq!(parsed, vec![1000.5, 1001.0]);
}

#[test]
fn trace_field_trims_and_keeps_comma_free_lines() {
    assert_eq!(trace_timestamp_field("  12.5 ,3,exit  "), Some("12.5 "));
    assert_eq!(trace_timestamp_field("\t7\r"), Some("7"));
    assert_eq!(trace_timestamp_field("   "), None);
    assert_eq!(trace_timestamp_field("  # note"), None);
    assert_eq!(trace_timestamp_field("timestamp,x"), None);
    assert_eq!(trace_timestamp_field("timestamp"), Some("timestamp"));
    assert_eq!(trace_timestamp_field(",5"), Some(""));
}

#[test]
fn canonical_defense_tokens_parse_back() {
    for d in [
        CoverMultihopDefense::BaselineLocalDiscard,
        CoverMultihopDefense::MatchedLocalDiscard,
        CoverMultihopDefense::CoverOnionsScaffold,
    ] {
        assert_eq!(CoverMultihopDefense::parse(d.as_str()), Some(d));
    }
}

// ---------- bulk cover policy ----------

#[test]
fn production_policy_requires_cover_channel() {
    let policy = BulkCoverConfig::production();
    assert!(policy.enabled && policy.require);
    assert_eq!(policy.validate_spawn(false), Err(CoverPolicyError::CoverChannelRequired));
    assert!(policy.validate_spawn(true).is_ok());
}

#[test]
fn require_with_disabled_cover_fails() {
    let policy = BulkCoverConfig { enabled: false, require: true, ..BulkCoverConfig::default() };
    assert_eq!(policy.validate_spawn(true), Err(CoverPolicyError::CoverDisabledWhileRequired));
}

#[test]
fn non_l2_dial_rejected_when_required() {
    let policy = BulkCoverConfig { enabled: true, require: true, dial: SecurityDial::L0Raw, ..BulkCoverConfig::default() };
    assert_eq!(policy.validate_spawn(true), Err(CoverPolicyError::DialDoesNotRequireCover(SecurityDial::L0Raw)));
}

#[test]
fn default_cover_policy_is_off_and_never_refuses() {
    let policy = BulkCoverConfig::default();
    assert!(!policy.enabled && !policy.require);
    assert_eq!(policy.dial, SecurityDial::L2UniformBatched);
    assert_eq!(policy.round_secs, DEFAULT_COVER_ROUND_SECS);
    assert_eq!(policy.multihop_defense, CoverMultihopDefense::BaselineLocalDiscard);
    assert!(policy.validate_spawn(false).is_ok());
    let bucketed = BulkCoverConfig { dial: SecurityDial::L1Bucketed, ..BulkCoverConfig::default() };
    assert!(bucketed.validate_spawn(false).is_ok());
    assert!(dial_requires_relay_cover(SecurityDial::L2UniformBatched));
    assert!(!dial_requires_relay_cover(SecurityDial::L1Bucketed));
}

#[test]
fn cover_policy_error_texts() {
    assert_eq!(
        CoverPolicyError::CoverChannelRequired.message(),
        "bulk cover is required by config but the cover outbound channel is absent"
    );
    assert_eq!(
        CoverPolicyError::CoverDisabledWhileRequired.message(),
        "bulk cover is required by config but cover flow is disabled"
    );
    assert_eq!(
        CoverPolicyError::DialDoesNotRequireCover(SecurityDial::L1Bucketed).message(),
        "bulk cover dial L1Bucketed does not require relay cover \u{2014} misconfigured policy"
    );
}
