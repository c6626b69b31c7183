use aegis::rng::ByteSource;
use aegis::topology::pilot::{
    edge_link_tag, kem_seeds, link_key, parse_ports, pilot_domain_seed, pilot_node_role, PilotLink, PATH_LEN,
};
use sha3::Digest;
use aegis::topology::beacon::{committee_for_round, Beacon, HashChainBeacon};
use aegis::topology::ceremony::{
    ceremony_from_seeds, check_ceremony_config, roster_authority_snippet, run_ceremony_with, sign_sample_admission,
    CeremonyConfig, CeremonyFailure,
};
use aegis::topology::custody::{
    select_ceremony_custody, CeremonyCustodyMode, CeremonyError, HsmCustodyProvider, Pkcs11CustodyOps,
    SoftwareCustodyProvider, SOFTWARE_CUSTODY_PROVIDER_ID,
};
use aegis::topology::error::{RosterError, TopologyError};
use aegis::topology::guard_mitigation::GuardMitigationPolicy;
use aegis::topology::guards::{GuardConfig, GuardPinMode, GuardSelector, GUARD_SET_SIZE};
use aegis::topology::layers::{build_topology, build_topology_reputation_filtered};
use aegis::topology::path::{
    build_bound_path_diverse_pruned, build_bound_path_pruned, build_bound_path_pruned_with_guards,
    path_satisfies_jurisdiction, path_satisfies_reputation, relay_records_for_path, select_diverse_path,
    select_diverse_reputation_path, select_path, select_path_indexed, select_path_reputation_weighted,
    JurisdictionPolicy,
};
use aegis::topology::roster::{
    canonical_record_bytes, ConsortiumKey, RelayRoster, RosterAdmissionPolicy, ThresholdConsortium,
    ThresholdSignedRelayRecord,
};
use aegis::topology::shamir::{
    decode_share_hex, encode_share_hex, gf_inv, gf_mul, reconstruct_seed, split_seed, SeedShare, ShamirError,
};
use aegis::topology::types::{
    test_kem_commitment_for_id, test_relay_id, test_relay_record, JurisdictionId, KemPublicCommitment, RelayId, RelayRecord,
    TopologyConfig,
};
use rand::rngs::{OsRng, StdRng};
use rand::{RngCore, SeedableRng};
use std::collections::{HashMap, HashSet};

fn sample_roster(n: u64, jurisdictions: &[&str]) -> RelayRoster {
    let mut roster = RelayRoster::new();
    for i in 0..n {
        let j = jurisdictions[i as usize % jurisdictions.len()];
        roster.admit_for_tests(test_relay_record(i + 1, j));
    }
    roster
}

fn threshold_sign(record: &RelayRecord, keys: &[ConsortiumKey]) -> ThresholdSignedRelayRecord {
    let mut signed = ThresholdSignedRelayRecord::new(record.clone());
    for key in keys {
        signed = signed.with_signature(key.sign_authority(record));
    }
    signed
}

fn make_consortium(threshold: usize, keys: &[ConsortiumKey]) -> ThresholdConsortium {
    ThresholdConsortium::new(threshold, keys.iter().map(|k| k.verifying_key()).collect()).expect("consortium")
}

// ---------- guard mitigation ----------

#[test]
fn disabled_never_resamples_or_rotates() {
    let p = GuardMitigationPolicy::disabled();
    assert!(!p.should_resample_guards(1000, true, 99));
    assert_eq!(p.pin_mode_for_epoch(GuardPinMode::StickyPrimary, 1000, true, 99), GuardPinMode::StickyPrimary);
}

#[test]
fn adaptive_first_rotates_on_anomaly_and_sticky_cap() {
    let p = GuardMitigationPolicy::adaptive_first();
    assert!(p.should_resample_guards(12, false, 0));
    assert!(p.should_resample_guards(1, true, 0));
    assert!(p.should_resample_guards(0, false, 2));
    assert_eq!(p.pin_mode_for_epoch(GuardPinMode::StickyPrimary, 1, true, 0), GuardPinMode::Rotate);
}

#[test]
fn apply_to_config_preserves_guard_count() {
    let base = GuardConfig::default();
    let p = GuardMitigationPolicy::adaptive_first();
    let out = p.apply_to_config(&base, 0, false, 0);
    assert_eq!(out.guard_count, base.guard_count);
    assert_eq!(out.pin_mode, GuardPinMode::StickyPrimary);
    let out2 = p.apply_to_config(&base, 0, true, 0);
    assert_eq!(out2.pin_mode, GuardPinMode::Rotate);
}

#[test]
fn disabled_policy_never_rotates_even_at_max_age() {
    let p = GuardMitigationPolicy::disabled();
    assert!(!p.should_resample_guards(u64::MAX - 1, true, u32::MAX));
    assert!(!p.should_resample_guards(u64::MAX, true, u32::MAX));
    assert_eq!(
        p.pin_mode_for_epoch(GuardPinMode::StickyPrimary, u64::MAX, true, u32::MAX),
        GuardPinMode::StickyPrimary
    );
    assert_eq!(GuardMitigationPolicy::default(), p);
}

// ---------- jurisdiction ----------

#[test]
fn jurisdiction_check_rejects_concentrated_path() {
    let mut roster = RelayRoster::new();
    for i in 0..4 {
        roster.admit_for_tests(test_relay_record(i, "US"));
    }
    let path: Vec<_> = (0..4).map(test_relay_id).collect();
    let policy = JurisdictionPolicy::default();
    let ok = path_satisfies_jurisdiction(&path, &roster, &policy).unwrap();
    assert!(!ok, "all-US path should fail max_per_jurisdiction=1");
}

#[test]
fn jurisdiction_check_passes_diverse_path() {
    let mut roster = RelayRoster::new();
    let jurisdictions = ["US", "DE", "FR", "UK"];
    for (i, j) in jurisdictions.iter().enumerate() {
        roster.admit_for_tests(test_relay_record(i as u64, j));
    }
    let path: Vec<_> = (0..4).map(test_relay_id).collect();
    let policy = JurisdictionPolicy::default();
    let ok = path_satisfies_jurisdiction(&path, &roster, &policy).unwrap();
    assert!(ok);
}

#[test]
fn jurisdiction_check_reports_unknown_relay() {
    let roster = sample_roster(2, &["US", "DE"]);
    let missing = test_relay_id(99);
    let err = path_satisfies_jurisdiction(&[missing], &roster, &JurisdictionPolicy::default()).unwrap_err();
    assert_eq!(err, TopologyError::RelayNotFound { relay: missing });
    let policy = JurisdictionPolicy { max_per_jurisdiction: 2 };
    let path = vec![test_relay_id(1), test_relay_id(2)];
    assert!(path_satisfies_jurisdiction(&path, &roster, &policy).unwrap());
}

#[test]
fn relay_records_resolve_commitments() {
    let roster = sample_roster(3, &["US", "DE", "FR"]);
    let path = vec![test_relay_id(2), test_relay_id(1)];
    let recs = relay_records_for_path(&path, &roster).unwrap();
    assert_eq!(recs.len(), 2);
    assert_eq!(recs[0].id, test_relay_id(2));
    assert_eq!(recs[0].jurisdiction, JurisdictionId::new("DE".to_string()));
    assert!(recs[1].id_matches_kem_commitment());
    assert_eq!(
        relay_records_for_path(&[test_relay_id(7)], &roster).unwrap_err(),
        TopologyError::RelayNotFound { relay: test_relay_id(7) }
    );
}

// ---------- shamir ----------

#[test]
fn gf_mul_matches_aes_examples() {
    assert_eq!(gf_mul(0x57, 0x83), 0xc1);
    assert_eq!(gf_mul(0x00, 0xff), 0x00);
    assert_eq!(gf_mul(0x01, 0xab), 0xab);
}

#[test]
fn gf_inv_roundtrip() {
    for a in 1..=255u8 {
        assert_eq!(gf_mul(a, gf_inv(a)), 1, "inv({a})");
    }
}

#[test]
fn split_reconstruct_2_of_3() {
    let mut rng = StdRng::seed_from_u64(42);
    let secret = [0xABu8; 32];
    let shares = split_seed(&secret, 2, 3, &mut rng).unwrap();
    assert_eq!(shares.len(), 3);
    let rec = reconstruct_seed(&shares[0..2]).unwrap();
    assert_eq!(rec, secret);
    let rec2 = reconstruct_seed(&[shares[0].clone(), shares[2].clone()]).unwrap();
    assert_eq!(rec2, secret);
}

#[test]
fn split_reconstruct_3_of_5_random_secret() {
    let mut rng = StdRng::seed_from_u64(7);
    let mut secret = [0u8; 32];
    rng.fill_bytes(&mut secret);
    let shares = split_seed(&secret, 3, 5, &mut rng).unwrap();
    let subset = vec![shares[1].clone(), shares[3].clone(), shares[4].clone()];
    assert_eq!(reconstruct_seed(&subset).unwrap(), secret);
}

#[test]
fn one_of_one() {
    let mut rng = StdRng::seed_from_u64(1);
    let secret = [9u8; 32];
    let shares = split_seed(&secret, 1, 1, &mut rng).unwrap();
    assert_eq!(reconstruct_seed(&shares).unwrap(), secret);
}

#[test]
fn hex_roundtrip() {
    let share = SeedShare { x: 3, y: [0x11; 32] };
    let hex = encode_share_hex(&share);
    assert_eq!(hex.len(), 66);
    assert_eq!(decode_share_hex(&hex).unwrap(), share);
}

#[test]
fn rejects_duplicate_x() {
    let s = SeedShare { x: 1, y: [0; 32] };
    assert_eq!(reconstruct_seed(&[s.clone(), s]), Err(ShamirError::DuplicateX));
}

#[test]
fn shamir_errors_for_each_case() {
    let mut rng = StdRng::seed_from_u64(3);
    let secret = [1u8; 32];
    assert_eq!(split_seed(&secret, 0, 3, &mut rng), Err(ShamirError::BadParams("threshold must be in 1..=n")));
    assert_eq!(split_seed(&secret, 4, 3, &mut rng), Err(ShamirError::BadParams("threshold must be in 1..=n")));
    assert_eq!(split_seed(&secret, 2, 256, &mut rng), Err(ShamirError::BadParams("n must be in 1..=255")));
    assert_eq!(reconstruct_seed(&[]), Err(ShamirError::TooFewShares));
    assert_eq!(reconstruct_seed(&[SeedShare { x: 0, y: [0; 32] }]), Err(ShamirError::InvalidX));
    assert_eq!(ShamirError::DuplicateX.message(), "duplicate share x-coordinate");
    assert_eq!(ShamirError::BadParams("x").message(), "shamir params: x");
}

#[test]
fn share_hex_decoding_errors() {
    assert_eq!(
        decode_share_hex("abcd").unwrap_err(),
        "share hex must be 66 chars (1-byte x + 32-byte y), got 4"
    );
    let zero_x = format!("00{}", "11".repeat(32));
    assert_eq!(decode_share_hex(&zero_x).unwrap_err(), "share x must be in 1..=255");
    let bad = format!("zz{}", "11".repeat(32));
    assert_eq!(decode_share_hex(&bad).unwrap_err(), "invalid digit found in string");
    let signed = format!("+1{}", "11".repeat(32));
    assert_eq!(decode_share_hex(&signed).unwrap_err(), "invalid digit found in string");
    let signed_y = format!("01+1{}", "11".repeat(31));
    assert_eq!(decode_share_hex(&signed_y).unwrap_err(), "invalid digit found in string");
    let upper = format!("  0A{}\n", "FF".repeat(32));
    let s = decode_share_hex(&upper).unwrap();
    assert_eq!(s.x, 10);
    assert_eq!(s.y, [0xFF; 32]);
    assert_eq!(encode_share_hex(&SeedShare { x: 0xab, y: [0; 32] }), format!("ab{}", "00".repeat(32)));
}

#[test]
fn split_shares_carry_x_one_to_n() {
    let mut rng = StdRng::seed_from_u64(11);
    let shares = split_seed(&[5u8; 32], 3, 4, &mut rng).unwrap();
    let xs: Vec<u8> = shares.iter().map(|s| s.x).collect();
    assert_eq!(xs, vec![1, 2, 3, 4]);
}

// ---------- custody ----------

#[test]
fn hsm_provider_fails_closed_on_this_host() {
    assert!(matches!(HsmCustodyProvider::try_new(), Err(CeremonyError::HsmUnavailable(_))));
}

#[test]
fn hsm_pkcs11_ops_fail_closed_with_hint() {
    let provider = HsmCustodyProvider;
    assert!(matches!(
        Pkcs11CustodyOps::list_slots(&provider),
        Err(CeremonyError::HsmUnavailable(ref m)) if m.contains("PKCS#11")
    ));
    assert!(matches!(
        provider.generate_wrap_seed_share(0, 1, "custodian-a"),
        Err(CeremonyError::HsmUnavailable(_))
    ));
}

#[test]
fn select_ceremony_custody_hardware_fails_closed() {
    assert!(matches!(
        select_ceremony_custody(CeremonyCustodyMode::Hardware),
        Err(CeremonyError::HsmUnavailable(_))
    ));
}

#[test]
fn select_ceremony_custody_software_path() {
    let provider = select_ceremony_custody(CeremonyCustodyMode::Software).expect("software");
    assert_eq!(provider.provider_id(), SOFTWARE_CUSTODY_PROVIDER_ID);
    let seed = [0x11u8; 32];
    let shares = provider.split_seed_shares(&seed, 2, 3, &mut OsRng).expect("shamir split");
    assert_eq!(shares.len(), 3);
    assert!(!provider.encode_share_hex(&shares[0]).is_empty());
}

#[test]
fn hsm_sign_admission_fails_closed() {
    let record = test_relay_record(3, "US");
    assert!(matches!(
        Pkcs11CustodyOps::sign_admission(&HsmCustodyProvider, "authority-0", &record),
        Err(CeremonyError::HsmUnavailable(_))
    ));
}

#[test]
fn software_custody_signs_verifiable_admission() {
    let provider = SoftwareCustodyProvider::new();
    let key = ConsortiumKey::generate();
    let record = test_relay_record(21, "US");
    let sig = provider.sign_admission(&key, &record);
    let signed = ThresholdSignedRelayRecord::new(record.clone()).with_signature(sig);
    let consortium = ThresholdConsortium::single(key.verifying_key());
    signed.verify_threshold(&consortium).expect("verify admission");
    assert_eq!(provider.verifying_key_from_seed(&[7u8; 32]), ConsortiumKey::from_seed([7u8; 32]).verifying_key());
}

// ---------- ceremony ----------

#[test]
fn ceremony_rejects_invalid_threshold() {
    let cfg = CeremonyConfig { n: 2, threshold: 3, ..CeremonyConfig::default() };
    assert_eq!(check_ceremony_config(&cfg).unwrap_err(), "threshold must be in 1..=2 (got 3)");
    let cfg0 = CeremonyConfig { n: 0, ..CeremonyConfig::default() };
    assert_eq!(check_ceremony_config(&cfg0).unwrap_err(), "n must be >= 1");
    assert!(check_ceremony_config(&CeremonyConfig::default()).is_ok());
}

#[test]
fn ceremony_sample_admission_verifies() {
    let keys: Vec<ConsortiumKey> = (1..=3u8).map(|i| ConsortiumKey::from_seed([i; 32])).collect();
    let consortium = make_consortium(2, &keys);
    let record = test_relay_record(5, "DE");
    let signed = sign_sample_admission(&keys, 2, &record);
    assert_eq!(signed.signatures.len(), 2);
    signed.verify_threshold(&consortium).expect("verify");
}

// ---------- roster ----------

#[test]
fn valid_signed_admission_succeeds() {
    let authority = ConsortiumKey::generate();
    let pk = authority.verifying_key();
    let record = test_relay_record(1, "US");
    let signed = authority.sign_record(&record);
    let mut roster = RelayRoster::new();
    let is_new = roster.admit_signed(signed.clone(), &pk).expect("admit");
    assert!(is_new);
    assert!(roster.is_admitted(record.id));
    assert_eq!(roster.get_signed(record.id), Some(signed));
}

#[test]
fn threshold_admission_succeeds_with_m_valid_signatures() {
    let keys: Vec<_> = (0..3).map(|_| ConsortiumKey::generate()).collect();
    let consortium = make_consortium(2, &keys);
    let record = test_relay_record(42, "DE");
    let signed = threshold_sign(&record, &keys[..2]);
    let mut roster = RelayRoster::new();
    roster.admit_threshold_signed(signed, &consortium).expect("admit");
    assert!(roster.is_admitted(record.id));
}

#[test]
fn threshold_admission_fails_with_m_minus_one_signatures() {
    let keys: Vec<_> = (0..3).map(|_| ConsortiumKey::generate()).collect();
    let consortium = make_consortium(2, &keys);
    let record = test_relay_record(43, "FR");
    let signed = threshold_sign(&record, &keys[..1]);
    let mut roster = RelayRoster::new();
    let err = roster.admit_threshold_signed(signed, &consortium).unwrap_err();
    assert!(matches!(err, RosterError::InsufficientSignatures { got: 1, need: 2 }));
}

#[test]
fn duplicate_signer_does_not_count_twice_toward_threshold() {
    let keys: Vec<_> = (0..2).map(|_| ConsortiumKey::generate()).collect();
    let consortium = make_consortium(2, &keys);
    let record = test_relay_record(44, "UK");
    let mut signed = threshold_sign(&record, &keys[..1]);
    signed = signed.with_signature(keys[0].sign_authority(&record));
    let mut roster = RelayRoster::new();
    let err = roster.admit_threshold_signed(signed, &consortium).unwrap_err();
    assert!(matches!(err, RosterError::InsufficientSignatures { got: 1, need: 2 }));
}

#[test]
fn threshold_admission_fails_with_wrong_authority_set() {
    let keys: Vec<_> = (0..2).map(|_| ConsortiumKey::generate()).collect();
    let outsider = ConsortiumKey::generate();
    let consortium = make_consortium(2, &keys);
    let record = test_relay_record(45, "JP");
    let signed = threshold_sign(&record, &[keys[0].clone(), outsider]);
    let mut roster = RelayRoster::new();
    let err = roster.admit_threshold_signed(signed, &consortium).unwrap_err();
    assert!(matches!(err, RosterError::UnknownAuthority));
}

#[test]
fn tampered_kem_commitment_fails_verification() {
    let authority = ConsortiumKey::generate();
    let pk = authority.verifying_key();
    let record = test_relay_record(1, "US");
    let mut signed = authority.sign_record(&record);
    signed.record.kem_public_commitment = KemPublicCommitment([1u8; 32]);
    let mut roster = RelayRoster::new();
    let err = roster.admit_signed(signed, &pk).unwrap_err();
    assert!(matches!(err, RosterError::InvalidSignature { .. }));
}

#[test]
fn tampered_record_fails_verification() {
    let authority = ConsortiumKey::generate();
    let pk = authority.verifying_key();
    let record = test_relay_record(1, "US");
    let mut signed = authority.sign_record(&record);
    signed.record.jurisdiction = JurisdictionId::new("DE".to_string());
    let mut roster = RelayRoster::new();
    let err = roster.admit_signed(signed, &pk).unwrap_err();
    assert!(matches!(err, RosterError::InvalidSignature { .. }));
}

#[test]
fn wrong_authority_key_is_rejected() {
    let authority = ConsortiumKey::generate();
    let other = ConsortiumKey::generate();
    let record = test_relay_record(2, "FR");
    let signed = authority.sign_record(&record);
    let mut roster = RelayRoster::new();
    let err = roster.admit_signed(signed, &other.verifying_key()).unwrap_err();
    assert!(matches!(err, RosterError::AuthorityMismatch | RosterError::InvalidSignature { .. }));
}

#[test]
fn truncated_signature_bytes_rejected_on_admit() {
    let authority = ConsortiumKey::generate();
    let pk = authority.verifying_key();
    let record = test_relay_record(9, "US");
    let mut signed = authority.sign_record(&record);
    signed.signature.truncate(16);
    let mut roster = RelayRoster::new();
    let err = roster.admit_signed(signed, &pk).unwrap_err();
    assert!(matches!(err, RosterError::InvalidSignature { .. }));
}

#[test]
fn admission_rate_limit_blocks_excess_new_admissions() {
    let authority = ConsortiumKey::generate();
    let pk = authority.verifying_key();
    let policy = RosterAdmissionPolicy { max_admissions_per_window: 5, window_secs: 3600 };
    let mut roster = RelayRoster::with_admission_policy(policy);
    for id in 1..=5u64 {
        roster.admit_signed(authority.sign_record(&test_relay_record(id, "US")), &pk).expect("first five admit");
    }
    let err = roster.admit_signed(authority.sign_record(&test_relay_record(6, "US")), &pk).unwrap_err();
    assert!(matches!(err, RosterError::AdmissionRateLimitExceeded { max_per_window: 5, .. }));
}

#[test]
fn threshold_admission_rate_limit_still_applies() {
    let keys: Vec<_> = (0..3).map(|_| ConsortiumKey::generate()).collect();
    let consortium = make_consortium(2, &keys);
    let policy = RosterAdmissionPolicy { max_admissions_per_window: 2, window_secs: 3600 };
    let mut roster = RelayRoster::with_admission_policy(policy);
    for id in 1..=2u64 {
        let record = test_relay_record(id, "US");
        roster.admit_threshold_signed(threshold_sign(&record, &keys[..2]), &consortium).expect("first two admit");
    }
    let record = test_relay_record(3, "US");
    let err = roster.admit_threshold_signed(threshold_sign(&record, &keys[..2]), &consortium).unwrap_err();
    assert!(matches!(err, RosterError::AdmissionRateLimitExceeded { max_per_window: 2, .. }));
}

#[test]
fn re_admit_same_relay_does_not_consume_rate_limit() {
    let authority = ConsortiumKey::generate();
    let pk = authority.verifying_key();
    let policy = RosterAdmissionPolicy { max_admissions_per_window: 1, window_secs: 3600 };
    let mut roster = RelayRoster::with_admission_policy(policy);
    let record = test_relay_record(1, "US");
    let signed = authority.sign_record(&record);
    assert!(roster.admit_signed(signed.clone(), &pk).expect("first admit"));
    assert!(!roster.admit_signed(signed, &pk).expect("re-admit same id"));
}

#[test]
fn rate_limit_window_expires_at_exact_times() {
    let mut roster = RelayRoster::with_admission_policy(RosterAdmissionPolicy { max_admissions_per_window: 1, window_secs: 100 });
    let key = ConsortiumKey::from_seed([3u8; 32]);
    let a = threshold_sign(&test_relay_record(1, "US"), &[key.clone()]);
    let b = threshold_sign(&test_relay_record(2, "US"), &[key.clone()]);
    assert_eq!(roster.admit_verified_at(a, 1_000), Ok(true));
    assert_eq!(
        roster.check_admission_rate_limit(1_100),
        Err(RosterError::AdmissionRateLimitExceeded { attempted: 2, max_per_window: 1, window_secs: 100 })
    );
    assert!(roster.admit_verified_at(b.clone(), 1_050).is_err());
    assert_eq!(roster.admit_verified_at(b, 1_101), Ok(true));
    assert_eq!(roster.len(), 2);
}

#[test]
fn consortium_rejects_bad_parameters() {
    let keys: Vec<_> = (1..=2u8).map(|i| ConsortiumKey::from_seed([i; 32]).verifying_key()).collect();
    assert_eq!(ThresholdConsortium::new(2, vec![]), Err(RosterError::InsufficientSignatures { got: 0, need: 2 }));
    assert_eq!(ThresholdConsortium::new(0, vec![]), Err(RosterError::InsufficientSignatures { got: 0, need: 1 }));
    assert_eq!(ThresholdConsortium::new(3, keys.clone()), Err(RosterError::InsufficientSignatures { got: 2, need: 3 }));
    assert_eq!(ThresholdConsortium::new(1, vec![keys[0], keys[0]]), Err(RosterError::DuplicateAuthority));
    let mut bad = [0u8; 32];
    bad[0] = 2;
    bad[31] = 0x80;
    let ok_or_invalid = ThresholdConsortium::new(1, vec![keys[0], bad]);
    assert!(matches!(ok_or_invalid, Err(RosterError::InvalidAuthorityPubkey) | Ok(_)));
    let c = ThresholdConsortium::new(2, keys.clone()).unwrap();
    assert_eq!(c.authority_for_pubkey(&keys[1]), Some(keys[1]));
    assert_eq!(c.authority_for_pubkey(&[9u8; 32]), None);
}

#[test]
fn roster_remove_and_sorted_listing() {
    let roster0 = sample_roster(8, &["US", "DE", "FR", "UK"]);
    let sorted = roster0.admitted_sorted();
    assert_eq!(sorted.len(), 8);
    for w in sorted.windows(2) {
        assert!(w[0].id < w[1].id);
    }
    let admitted_id = sorted[0].id;
    assert!(roster0.is_admitted(admitted_id));
    let mut pruned = roster0.clone();
    assert!(pruned.remove(admitted_id));
    assert!(!pruned.remove(admitted_id));
    assert!(!pruned.is_admitted(admitted_id));
    assert_eq!(pruned.len(), 7);
    assert!(RelayRoster::new().is_empty());
}

#[test]
fn roster_persisted_entries_reload_verified() {
    let authority = ConsortiumKey::from_seed([0x31; 32]);
    let pk = authority.verifying_key();
    let consortium = ThresholdConsortium::single(pk);
    let mut roster = RelayRoster::new();
    for (id, j) in [(1, "US"), (2, "DE"), (3, "FR")] {
        roster.admit_signed(authority.sign_record(&test_relay_record(id, j)), &pk).expect("admit");
    }
    let entries = roster.persisted_entries();
    let loaded = RelayRoster::from_entries(entries.clone(), Some(&consortium)).expect("load verified");
    assert_eq!(loaded.admitted_sorted(), roster.admitted_sorted());
    for id in [1, 2, 3] {
        let signed = loaded.get_threshold_signed(test_relay_id(id)).expect("signed entry");
        signed.verify_threshold(&consortium).expect("still valid");
    }
    let mut tampered = entries;
    if let Some(t) = tampered[0].threshold_admission.as_mut() {
        t.signatures[0].signature[0] ^= 0xff;
    }
    assert!(RelayRoster::from_entries(tampered, Some(&consortium)).is_err());
    let mut unsigned = RelayRoster::new();
    unsigned.admit_for_tests(test_relay_record(4, "US"));
    let err = RelayRoster::from_entries(unsigned.persisted_entries(), Some(&consortium)).unwrap_err();
    assert_eq!(err, RosterError::Deserialize("unsigned roster entry in verified load".to_string()));
}

#[test]
fn canonical_record_bytes_layout() {
    let record = RelayRecord {
        id: RelayId([1u8; 32]),
        jurisdiction: JurisdictionId::new("DE".to_string()),
        kem_public_commitment: KemPublicCommitment([2u8; 32]),
    };
    let b = canonical_record_bytes(&record);
    assert_eq!(b.len(), 66);
    assert_eq!(&b[32..34], b"DE");
    assert_eq!(b[65], 2);
}

// ---------- types ----------

#[test]
fn from_kem_commitment_is_stable_and_domain_separated() {
    let commitment = KemPublicCommitment([0xAB; 32]);
    let a = RelayId::from_kem_commitment(commitment);
    let b = RelayId::from_kem_commitment(commitment);
    assert_eq!(a, b);
    assert_ne!(a, RelayId(commitment.0), "id must not equal raw commitment bytes");
    assert_ne!(a, RelayId::from_u64(0));
}

#[test]
fn test_relay_record_binds_id_to_commitment() {
    let record = test_relay_record(7, "US");
    assert!(record.id_matches_kem_commitment());
    assert_eq!(record.id, test_relay_id(7));
    assert!(!test_relay_record(8, "US").binds_kem_commitment(&record.kem_public_commitment));
}

#[test]
fn relay_id_from_u64_is_little_endian() {
    let id = RelayId::from_u64(0x0102);
    assert_eq!(id.0[0], 2);
    assert_eq!(id.0[1], 1);
    assert_eq!(id.0[8..], [0u8; 24]);
    assert_eq!(TopologyConfig::standard().layer_count, 3);
    assert_eq!(TopologyConfig::high_threat().layer_count, 4);
}

// ---------- layers / guards / paths ----------

#[test]
fn layer_assignment_produces_l_layers_with_even_sizes() {
    let roster = sample_roster(24, &["US", "DE", "FR", "UK", "JP", "CA"]);
    let config = TopologyConfig::high_threat();
    let topo = build_topology(&roster, 42, &config, 99).expect("build");
    assert_eq!(topo.layer_count, 4);
    assert_eq!(topo.layers.len(), 4);
    for layer in &topo.layers {
        assert_eq!(layer.len(), 6, "24 relays / L=4 => 6 per layer");
    }
    let all: HashSet<_> = topo.layers.iter().flatten().copied().collect();
    assert_eq!(all.len(), 24);
}

#[test]
fn epoch_membership_is_stable_for_same_epoch() {
    let roster = sample_roster(12, &["US", "DE"]);
    let config = TopologyConfig::standard();
    let a = build_topology(&roster, 7, &config, 1).unwrap();
    let b = build_topology(&roster, 7, &config, 1).unwrap();
    assert_eq!(a.layers, b.layers);
    let c = build_topology(&roster, 8, &config, 1).unwrap();
    assert_ne!(a.layers, c.layers, "different epoch should reshuffle");
}

#[test]
fn path_selection_one_per_layer_and_non_degenerate() {
    let roster = sample_roster(24, &["US", "DE", "FR", "UK", "JP", "CA"]);
    let topo = build_topology(&roster, 1, &TopologyConfig::high_threat(), 0).unwrap();
    const N: usize = 500;
    let mut full_paths: HashSet<Vec<RelayId>> = HashSet::new();
    let mut layer1_counts: HashMap<RelayId, usize> = HashMap::new();
    for _ in 0..N {
        let path = select_path(&topo, None).unwrap();
        assert_eq!(path.len(), 4);
        for (layer_idx, relay) in path.iter().enumerate() {
            assert!(topo.layers[layer_idx].contains(relay), "relay must belong to its layer");
        }
        full_paths.insert(path.clone());
        *layer1_counts.entry(path[0]).or_insert(0) += 1;
    }
    assert!(full_paths.len() >= 20, "expected diverse full paths, got {}", full_paths.len());
    let max_layer1 = layer1_counts.values().copied().max().unwrap_or(0);
    assert!(max_layer1 < N * 60 / 100, "no single layer-1 relay should dominate (>60%): max={max_layer1}/{N}");
}

#[test]
fn path_selection_with_stable_guard_fixes_layer_one() {
    let roster = sample_roster(24, &["US", "DE", "FR", "UK", "JP", "CA"]);
    let topo = build_topology(&roster, 5, &TopologyConfig::high_threat(), 0).unwrap();
    let guards = GuardSelector::new(&topo, &GuardConfig::default(), 123).unwrap();
    assert_eq!(guards.guard_set().len(), GUARD_SET_SIZE as usize);
    let (primary, backups) = guards.primary_and_backups();
    assert_eq!(primary, guards.primary_guard());
    assert_eq!(backups.len(), GUARD_SET_SIZE as usize - 1);
    for _ in 0..50 {
        let path = select_path(&topo, Some(&guards)).unwrap();
        assert_eq!(path[0], primary, "sticky primary pins layer 1");
        assert_eq!(path.len(), 4);
    }
}

#[test]
fn path_selection_rotate_cycles_guard_set() {
    let roster = sample_roster(24, &["US", "DE", "FR", "UK", "JP", "CA"]);
    let topo = build_topology(&roster, 5, &TopologyConfig::high_threat(), 0).unwrap();
    let config = GuardConfig { guard_count: GUARD_SET_SIZE, pin_mode: GuardPinMode::Rotate };
    let guards = GuardSelector::new(&topo, &config, 123).unwrap();
    let set = guards.guard_set().to_vec();
    for i in 0..9u64 {
        let path = select_path_indexed(&topo, Some(&guards), i).unwrap();
        assert_eq!(path[0], set[(i as usize) % set.len()]);
    }
}

#[test]
fn admission_roster_controls_eligibility() {
    let roster = sample_roster(8, &["US", "DE", "FR", "UK"]);
    let admitted_id = roster.admitted_sorted()[0].id;
    assert!(roster.is_admitted(admitted_id));
    let mut pruned = roster.clone();
    assert!(pruned.remove(admitted_id));
    assert!(!pruned.is_admitted(admitted_id));
    let topo = build_topology(&pruned, 0, &TopologyConfig::high_threat(), 0).unwrap();
    assert!(!topo.layers.iter().flatten().any(|id| *id == admitted_id));
    let path = select_path(&topo, None).unwrap();
    for id in &path {
        assert!(pruned.is_admitted(*id));
    }
}

#[test]
fn empty_roster_rejected() {
    let roster = RelayRoster::new();
    let err = build_topology(&roster, 0, &TopologyConfig::default(), 0).unwrap_err();
    assert_eq!(err, TopologyError::EmptyRoster);
    let zero = TopologyConfig { layer_count: 0 };
    assert_eq!(build_topology(&sample_roster(2, &["US"]), 0, &zero, 0).unwrap_err(), TopologyError::InvalidLayerCount(0));
}

#[test]
fn guard_selector_requires_enough_layer_one_relays() {
    let roster = sample_roster(2, &["US", "DE"]);
    let topo = build_topology(&roster, 0, &TopologyConfig::standard(), 0).unwrap();
    let err = GuardSelector::new(&topo, &GuardConfig::default(), 0).unwrap_err();
    assert!(matches!(err, TopologyError::InsufficientGuards { needed: 3, .. }));
}

#[test]
fn diverse_path_exhausts_and_empty_layer_errors() {
    let mut roster = RelayRoster::new();
    for i in 0..4 {
        roster.admit_for_tests(test_relay_record(i, "US"));
    }
    let topo = build_topology(&roster, 0, &TopologyConfig::high_threat(), 0).unwrap();
    let err = select_diverse_path(&topo, &roster, None, &JurisdictionPolicy::default(), 3).unwrap_err();
    assert_eq!(err, TopologyError::EmptyLayer { layer: 0, epoch: 0 });
    let lax = JurisdictionPolicy { max_per_jurisdiction: 4 };
    assert_eq!(select_diverse_path(&topo, &roster, None, &lax, 1).unwrap().len(), 4);
    let small = build_topology(&sample_roster(2, &["US"]), 3, &TopologyConfig::high_threat(), 0).unwrap();
    assert_eq!(select_path(&small, None).unwrap_err(), TopologyError::EmptyLayer { layer: 3, epoch: 3 });
}

#[test]
fn guard_any_compromised_checks_membership() {
    let roster = sample_roster(12, &["US"]);
    let topo = build_topology(&roster, 2, &TopologyConfig::standard(), 9).unwrap();
    let guards = GuardSelector::new_for_tests(&topo, &GuardConfig::default(), 5).unwrap();
    assert!(guards.any_guard_compromised(&[guards.guards[1]]));
    assert!(!guards.any_guard_compromised(&[RelayId::from_u64(999)]));
    let distinct: HashSet<_> = guards.guards.iter().collect();
    assert_eq!(distinct.len(), 3);
    for g in &guards.guards {
        assert!(topo.layers[0].contains(g));
    }
}

// ---------- beacon ----------

fn pool(n: u64) -> Vec<RelayId> {
    (1..=n).map(RelayId::from_u64).collect()
}

#[test]
fn randomness_is_deterministic_per_round() {
    let b = HashChainBeacon::new([1u8; 32]);
    assert_eq!(b.randomness(10), b.randomness(10));
}

#[test]
fn randomness_differs_across_rounds() {
    let b = HashChainBeacon::new([1u8; 32]);
    assert_ne!(b.randomness(10), b.randomness(11));
}

#[test]
fn randomness_differs_across_seeds() {
    let a = HashChainBeacon::new([1u8; 32]);
    let b = HashChainBeacon::new([2u8; 32]);
    assert_ne!(a.randomness(10), b.randomness(10));
}

#[test]
fn committee_is_deterministic_and_correct_size() {
    let b = HashChainBeacon::new([7u8; 32]);
    let relays = pool(20);
    let c1 = committee_for_round(&b, &relays, 5, 6);
    let c2 = committee_for_round(&b, &relays, 5, 6);
    assert_eq!(c1, c2, "same (beacon, round) must give same committee");
    assert_eq!(c1.len(), 6);
    let unique: HashSet<_> = c1.iter().collect();
    assert_eq!(unique.len(), c1.len());
}

#[test]
fn committee_changes_across_rounds() {
    let b = HashChainBeacon::new([7u8; 32]);
    let relays = pool(20);
    let c_r5 = committee_for_round(&b, &relays, 5, 6);
    let c_r6 = committee_for_round(&b, &relays, 6, 6);
    assert_ne!(c_r5, c_r6, "committee should reshuffle across beacon rounds");
}

#[test]
fn committee_size_clamped_to_pool_size() {
    let b = HashChainBeacon::new([3u8; 32]);
    let relays = pool(4);
    let c = committee_for_round(&b, &relays, 0, 10);
    assert_eq!(c.len(), 4);
    assert!(committee_for_round(&b, &[], 0, 3).is_empty());
    assert!(committee_for_round(&b, &relays, 0, 0).is_empty());
}

#[test]
fn ceremony_core_builds_verified_m_of_n_admission() {
    let cfg = CeremonyConfig { n: 3, threshold: 2, jurisdiction: "DE".into(), write_seeds: true };
    let (out, seeds) = run_ceremony_with(&cfg, &mut OsRng, KemPublicCommitment([5u8; 32])).expect("ceremony");
    assert_eq!(seeds.len(), 3);
    assert_eq!(out.authority_pubkeys_hex.len(), 3);
    out.sample_admission.verify_threshold(&out.consortium).expect("verify");
    assert_eq!(out.sample_admission.signatures.len(), 2);
    assert_eq!(out.sample_admission.record.jurisdiction, JurisdictionId::new("DE".to_string()));
    for (seed, hex) in seeds.iter().zip(out.authority_pubkeys_hex.iter()) {
        let pk = ConsortiumKey::from_seed(*seed).verifying_key();
        let expect: String = pk.iter().map(|b| format!("{b:02x}")).collect();
        assert_eq!(hex, &expect);
    }
}

#[test]
fn ceremony_core_rejects_invalid_threshold() {
    let cfg = CeremonyConfig { n: 2, threshold: 3, ..CeremonyConfig::default() };
    let r = run_ceremony_with(&cfg, &mut OsRng, KemPublicCommitment([5u8; 32]));
    assert_eq!(r.err(), Some(CeremonyFailure::Config("threshold must be in 1..=2 (got 3)".to_string())));
    let cfg0 = CeremonyConfig { n: 0, threshold: 1, ..CeremonyConfig::default() };
    assert_eq!(
        ceremony_from_seeds(&cfg0, &vec![], KemPublicCommitment([5u8; 32])).err(),
        Some(CeremonyFailure::Config("n must be >= 1".to_string()))
    );
}

#[test]
fn ceremony_core_refuses_duplicate_authority_seeds() {
    let cfg = CeremonyConfig { n: 2, threshold: 1, jurisdiction: "US".into(), write_seeds: false };
    let r = ceremony_from_seeds(&cfg, &vec![[7u8; 32], [7u8; 32]], KemPublicCommitment([1u8; 32]));
    assert_eq!(r.err(), Some(CeremonyFailure::Consortium(RosterError::DuplicateAuthority)));
}

#[test]
fn roster_snippet_lists_threshold_and_keys() {
    let s = roster_authority_snippet(2, &vec!["aa".to_string(), "bb".to_string()]);
    assert_eq!(
        s,
        "# Paste into node/client [roster] section\nthreshold = 2\nauthority_pubkeys = [\n  \"aa\",\n  \"bb\",\n]\n"
    );
}

#[test]
fn pilot_ports_parse_exactly_four() {
    assert_eq!(parse_ports("17419,17420,17421,17422"), Ok(vec![17419, 17420, 17421, 17422]));
    assert_eq!(parse_ports(" 1, 2 ,+3,4"), Ok(vec![1, 2, 3, 4]));
    assert_eq!(parse_ports("1,2,3"), Err("expected 4 ports, got 3".to_string()));
    assert_eq!(parse_ports("1,x,3,4"), Err("invalid --ports".to_string()));
    assert_eq!(parse_ports("1,2,3,70000"), Err("invalid --ports".to_string()));
    assert_eq!(parse_ports(""), Err("invalid --ports".to_string()));
    assert_eq!(parse_ports("1,2,3,4,5"), Err("expected 4 ports, got 5".to_string()));
}

#[test]
fn pilot_seeds_and_link_keys() {
    let (x, d, z) = kem_seeds(2);
    assert_eq!((x[0], x[1], d[0], d[1], z[0], z[1]), (0xA2, 0xB2, 0xC2, 0xD2, 0xE2, 0xF2));
    assert!(x[2..].iter().all(|b| *b == 0));
    let k = link_key(0xD0);
    assert_eq!((k[0], k[1]), (0xD0, 0xA5));
    assert!(k[2..].iter().all(|b| *b == 0));
    let mut h = sha3::Sha3_256::new();
    h.update(b"aegis-pilot-v1");
    h.update(b"consortium");
    let expect: [u8; 32] = h.finalize().into();
    assert_eq!(pilot_domain_seed(b"consortium"), expect);
}

// ---------- reputation-filtered selection (eligible = relays at or above the floor) ----------

fn all_but(topo_ids: &[RelayId], excluded: &[RelayId]) -> Vec<RelayId> {
    topo_ids.iter().copied().filter(|id| !excluded.contains(id)).collect()
}

fn roster_ids(roster: &RelayRoster) -> Vec<RelayId> {
    roster.admitted_sorted().iter().map(|r| r.id).collect()
}

#[test]
fn reputation_weighted_guard_excludes_sub_floor_relay() {
    let roster = sample_roster(12, &["US"]);
    let topo = build_topology(&roster, 1, &TopologyConfig::high_threat(), 0).unwrap();
    let bad = test_relay_id(1);
    let eligible = all_but(&roster_ids(&roster), &[bad]);
    let config = GuardConfig::default();
    for seed in 0..100u64 {
        let guards = GuardSelector::new_reputation_weighted(&topo, &config, seed, &eligible).unwrap();
        assert!(!guards.guards.contains(&bad), "sub-floor relay must never be selected as guard");
    }
}

#[test]
fn reputation_weighted_guard_errors_when_too_few_candidates() {
    let roster = sample_roster(6, &["US"]);
    let topo = build_topology(&roster, 0, &TopologyConfig::standard(), 0).unwrap();
    let eligible = all_but(&roster_ids(&roster), &topo.layers[0]);
    let err = GuardSelector::new_reputation_weighted(&topo, &GuardConfig::default(), 0, &eligible).unwrap_err();
    assert!(matches!(err, TopologyError::InsufficientReputation { needed: 3, .. }));
    assert_eq!(err, TopologyError::InsufficientReputation { available: 0, needed: 3 });
}

#[test]
fn reputation_unaware_guard_selector_unchanged() {
    let roster = sample_roster(12, &["US"]);
    let topo = build_topology(&roster, 5, &TopologyConfig::high_threat(), 0).unwrap();
    let guards = GuardSelector::new(&topo, &GuardConfig::default(), 123).unwrap();
    assert_eq!(guards.guards.len(), 3);
    assert_eq!(guards.epoch, 5);
}

#[test]
fn pruned_guard_excludes_anomaly_demoted_relay() {
    let roster = sample_roster(12, &["US"]);
    let topo = build_topology(&roster, 1, &TopologyConfig::high_threat(), 0).unwrap();
    let bad = test_relay_id(1);
    let eligible = all_but(&roster_ids(&roster), &[bad]);
    for seed in 0..100u64 {
        let guards = GuardSelector::new_reputation_weighted(&topo, &GuardConfig::default(), seed, &eligible).unwrap();
        assert!(!guards.guards.contains(&bad), "demoted relay must never be selected as guard");
    }
}

#[test]
fn pruned_guard_errors_when_too_few_eligible_candidates() {
    let roster = sample_roster(6, &["US"]);
    let topo = build_topology(&roster, 0, &TopologyConfig::standard(), 0).unwrap();
    let eligible = all_but(&roster_ids(&roster), &topo.layers[0]);
    let err = GuardSelector::new_reputation_weighted(&topo, &GuardConfig::default(), 0, &eligible).unwrap_err();
    assert!(matches!(err, TopologyError::InsufficientReputation { needed: 3, .. }));
}

#[test]
fn reputation_filtered_topology_excludes_sub_floor_relay() {
    let roster = sample_roster(12, &["US"]);
    let bad = test_relay_id(1);
    let eligible = all_but(&roster_ids(&roster), &[bad]);
    let topo = build_topology_reputation_filtered(&roster, 0, &TopologyConfig::high_threat(), 0, &eligible).unwrap();
    assert!(!topo.layers.iter().flatten().any(|id| *id == bad));
    assert_eq!(topo.layers.iter().map(|l| l.len()).sum::<usize>(), 11);
}

#[test]
fn reputation_filtered_topology_with_nobody_eligible_is_empty_roster() {
    let roster = sample_roster(12, &["US"]);
    let err = build_topology_reputation_filtered(&roster, 0, &TopologyConfig::high_threat(), 0, &[]).unwrap_err();
    assert_eq!(err, TopologyError::EmptyRoster);
}

#[test]
fn unfiltered_build_topology_unchanged() {
    let roster = sample_roster(12, &["US"]);
    let config = TopologyConfig::high_threat();
    let a = build_topology(&roster, 42, &config, 99).unwrap();
    let b = build_topology(&roster, 42, &config, 99).unwrap();
    assert_eq!(a, b);
}

#[test]
fn filtered_topology_with_everyone_eligible_matches_unfiltered() {
    let roster = sample_roster(12, &["US"]);
    let config = TopologyConfig::high_threat();
    let a = build_topology(&roster, 42, &config, 99).unwrap();
    let b = build_topology_reputation_filtered(&roster, 42, &config, 99, &roster_ids(&roster)).unwrap();
    assert_eq!(a, b);
}

#[test]
fn reputation_weighted_path_excludes_sub_floor_relay() {
    let roster = sample_roster(24, &["US", "DE", "FR", "UK", "JP", "CA"]);
    let topo = build_topology(&roster, 1, &TopologyConfig::high_threat(), 0).unwrap();
    let bad = test_relay_id(1);
    let eligible = all_but(&roster_ids(&roster), &[bad]);
    for _ in 0..200 {
        let path = select_path_reputation_weighted(&topo, &roster, None, &eligible, 50).unwrap();
        assert!(!path.contains(&bad), "sub-floor relay must never appear on path");
        assert!(path_satisfies_reputation(&path, &eligible));
    }
}

#[test]
fn reputation_unaware_path_selection_unchanged() {
    let roster = sample_roster(24, &["US", "DE", "FR", "UK", "JP", "CA"]);
    let topo = build_topology(&roster, 1, &TopologyConfig::high_threat(), 0).unwrap();
    let path = select_path(&topo, None).unwrap();
    assert_eq!(path.len(), 4);
}

#[test]
fn pruned_path_excludes_anomaly_demoted_relay() {
    let roster = sample_roster(24, &["US", "DE", "FR", "UK", "JP", "CA"]);
    let topo = build_topology(&roster, 1, &TopologyConfig::high_threat(), 0).unwrap();
    let bad = test_relay_id(1);
    let eligible = all_but(&roster_ids(&roster), &[bad]);
    for _ in 0..200 {
        let path = select_path_reputation_weighted(&topo, &roster, None, &eligible, 50).unwrap();
        assert!(!path.contains(&bad), "demoted relay must never appear on pruned path");
    }
}

#[test]
fn build_bound_path_pruned_excludes_demoted_and_returns_commitments() {
    let roster = sample_roster(24, &["US", "DE", "FR", "UK", "JP", "CA"]);
    let topo = build_topology(&roster, 1, &TopologyConfig::high_threat(), 0).unwrap();
    let bad = test_relay_id(1);
    let eligible = all_but(&roster_ids(&roster), &[bad]);
    for _ in 0..200 {
        let records = build_bound_path_pruned(&topo, &roster, None, &eligible, 50).unwrap();
        assert_eq!(records.len(), topo.layer_count);
        assert!(!records.iter().any(|r| r.id == bad), "demoted relay must never appear on bound path");
        for record in &records {
            assert_eq!(
                record.kem_public_commitment,
                roster.get(record.id).unwrap().kem_public_commitment,
                "bound path must carry roster KEM commitments"
            );
        }
    }
}

#[test]
fn pruned_path_exhausts_when_only_demoted_relays_remain() {
    let mut roster = RelayRoster::new();
    let jurisdictions = ["US", "DE", "FR", "UK"];
    for i in 0..4 {
        roster.admit_for_tests(test_relay_record(i, jurisdictions[i as usize]));
    }
    let topo = build_topology(&roster, 0, &TopologyConfig::high_threat(), 0).unwrap();
    let err = select_path_reputation_weighted(&topo, &roster, None, &[], 20).unwrap_err();
    assert!(matches!(err, TopologyError::ReputationPathExhausted { attempts: 20 }));
}

#[test]
fn pruned_selection_excludes_anomaly_demoted_relay_end_to_end() {
    let roster = sample_roster(24, &["US"]);
    let topo = build_topology(&roster, 0, &TopologyConfig::high_threat(), 0).unwrap();
    let target = test_relay_id(1);
    let eligible = all_but(&roster_ids(&roster), &[target]);
    for _ in 0..200 {
        let path = select_path_reputation_weighted(&topo, &roster, None, &eligible, 50).unwrap();
        assert!(!path.contains(&target), "demoted relay must never appear on pruned path");
    }
    for seed in 0..100u64 {
        let guards = GuardSelector::new_reputation_weighted(&topo, &GuardConfig::default(), seed, &eligible).unwrap();
        assert!(!guards.guards.contains(&target), "demoted relay must never be selected as guard");
    }
}

#[test]
fn zero_attempts_exhaust_at_once() {
    let roster = sample_roster(24, &["US"]);
    let topo = build_topology(&roster, 0, &TopologyConfig::high_threat(), 0).unwrap();
    let ids = roster_ids(&roster);
    assert_eq!(
        select_path_reputation_weighted(&topo, &roster, None, &ids, 0).unwrap_err(),
        TopologyError::ReputationPathExhausted { attempts: 0 }
    );
    assert_eq!(
        build_bound_path_pruned(&topo, &roster, None, &ids, 0).unwrap_err(),
        TopologyError::ReputationPathExhausted { attempts: 0 }
    );
}

#[test]
fn bound_path_with_guards_pins_entry_to_primary() {
    let roster = sample_roster(24, &["US", "DE", "FR", "UK", "JP", "CA"]);
    let topo = build_topology(&roster, 3, &TopologyConfig::high_threat(), 0).unwrap();
    let bad = test_relay_id(2);
    let eligible = all_but(&roster_ids(&roster), &[bad]);
    let (guards, records) = build_bound_path_pruned_with_guards(&topo, &roster, 7, &eligible, 50).unwrap();
    assert_eq!(guards.guards.len(), GUARD_SET_SIZE as usize);
    assert_eq!(guards.epoch, 3);
    assert!(!guards.guards.contains(&bad));
    assert_eq!(records[0].id, guards.guards[0]);
    assert!(!records.iter().any(|r| r.id == bad));
}

#[test]
fn diverse_reputation_path_passes_both_checks() {
    let roster = sample_roster(24, &["US", "DE", "FR", "UK", "JP", "CA"]);
    let topo = build_topology(&roster, 1, &TopologyConfig::high_threat(), 0).unwrap();
    let bad = test_relay_id(5);
    let eligible = all_but(&roster_ids(&roster), &[bad]);
    let policy = JurisdictionPolicy { max_per_jurisdiction: 2 };
    for _ in 0..50 {
        let path = select_diverse_reputation_path(&topo, &roster, None, &policy, &eligible, 200).unwrap();
        assert!(!path.contains(&bad));
        assert!(path_satisfies_jurisdiction(&path, &roster, &policy).unwrap());
        let records = build_bound_path_diverse_pruned(&topo, &roster, None, &policy, &eligible, 200).unwrap();
        assert!(!records.iter().any(|r| r.id == bad));
        assert_eq!(records.len(), 4);
    }
    let none_pass = JurisdictionPolicy { max_per_jurisdiction: 0 };
    assert_eq!(
        select_diverse_reputation_path(&topo, &roster, None, &none_pass, &eligible, 5).unwrap_err(),
        TopologyError::ReputationPathExhausted { attempts: 5 }
    );
}

#[test]
fn admitted_sorted_above_reputation_keeps_id_order() {
    let roster = sample_roster(6, &["US"]);
    let ids = roster_ids(&roster);
    let eligible = vec![ids[4], ids[1], ids[3]];
    let kept = roster.admitted_sorted_above_reputation(&eligible);
    let kept_ids: Vec<RelayId> = kept.iter().map(|r| r.id).collect();
    assert_eq!(kept_ids, vec![ids[1], ids[3], ids[4]]);
}

// ---------- Sybil admission floods against the real roster and selection ----------

const SYBIL_HONEST_COUNT: u64 = 24;
const SYBIL_JURISDICTIONS: &[&str] = &["US", "DE", "FR", "UK", "JP", "CA"];
const SYBIL_CLIENT_SEEDS: u64 = 2_000;
const SYBIL_PATH_TRIALS: usize = 2_000;
/// Pre-probation reputation-filtered path capture under a 50% flood.
const FLOOD_50_REP_PATH_SYBIL_BEFORE: f64 = 0.45;

fn honest_record(id: u64) -> RelayRecord {
    test_relay_record(id, SYBIL_JURISDICTIONS[id as usize % SYBIL_JURISDICTIONS.len()])
}

fn sybil_record(id: u64) -> RelayRecord {
    test_relay_record(id, "SY")
}

/// Guard exposure plateau `1 - (1 - c)^g`.
fn plateau(c: f64, g: u32) -> f64 {
    1.0 - (1.0 - c).powi(g as i32)
}

/// Honest relays are vetted (at or above the floor); Sybils enter probationary
/// (below it), so only the honest ones are eligible.
fn build_mixed_roster(sybil_count: u64, authority: &ConsortiumKey) -> (RelayRoster, HashSet<RelayId>, Vec<RelayId>) {
    let mut roster = RelayRoster::with_admission_policy(RosterAdmissionPolicy::permissive_for_tests());
    let pk = authority.verifying_key();
    let mut eligible = Vec::new();
    for id in 1..=SYBIL_HONEST_COUNT {
        roster.admit_signed(authority.sign_record(&honest_record(id)), &pk).expect("honest admit");
        eligible.push(test_relay_id(id));
    }
    let mut sybil_ids = HashSet::new();
    for i in 0..sybil_count {
        let id = 10_000 + i;
        roster.admit_signed(authority.sign_record(&sybil_record(id)), &pk).expect("sybil admit");
        sybil_ids.insert(test_relay_id(id));
    }
    (roster, sybil_ids, eligible)
}

struct ExposureMetrics {
    layer1_sybil_fraction: f64,
    primary_guard_sybil_rate: f64,
    path_any_sybil_rate: f64,
    path_any_sybil_reputation_filtered: f64,
}

fn measure_exposure(roster: &RelayRoster, sybil_ids: &HashSet<RelayId>, eligible: &[RelayId]) -> ExposureMetrics {
    let topo = build_topology(roster, 7, &TopologyConfig::high_threat(), 99).expect("topology");
    let layer1 = topo.layer(0).expect("layer 1");
    let layer1_sybil = layer1.iter().filter(|id| sybil_ids.contains(id)).count();
    let layer1_sybil_fraction = layer1_sybil as f64 / layer1.len() as f64;

    let guard_config = GuardConfig::default();
    let mut primary_hits = 0u64;
    for seed in 0..SYBIL_CLIENT_SEEDS {
        let guards = GuardSelector::new(&topo, &guard_config, seed).expect("guards");
        if sybil_ids.contains(&guards.primary_guard()) {
            primary_hits += 1;
        }
    }
    let primary_guard_sybil_rate = primary_hits as f64 / SYBIL_CLIENT_SEEDS as f64;

    let mut path_hits = 0usize;
    for _ in 0..SYBIL_PATH_TRIALS {
        let path = select_path(&topo, None).expect("path");
        if path.iter().any(|id| sybil_ids.contains(id)) {
            path_hits += 1;
        }
    }
    let path_any_sybil_rate = path_hits as f64 / SYBIL_PATH_TRIALS as f64;

    let mut rep_hits = 0usize;
    for _ in 0..SYBIL_PATH_TRIALS {
        if let Ok(path) = select_path_reputation_weighted(&topo, roster, None, eligible, 50) {
            if path.iter().any(|id| sybil_ids.contains(id)) {
                rep_hits += 1;
            }
        }
    }
    let path_any_sybil_reputation_filtered = rep_hits as f64 / SYBIL_PATH_TRIALS as f64;

    ExposureMetrics { layer1_sybil_fraction, primary_guard_sybil_rate, path_any_sybil_rate, path_any_sybil_reputation_filtered }
}

#[test]
fn sybil_flood_reputation_filter_blocks_probationary_sybils() {
    let authority = ConsortiumKey::generate();
    let (honest_roster, empty, eligible) = build_mixed_roster(0, &authority);
    let baseline = measure_exposure(&honest_roster, &empty, &eligible);
    assert!(baseline.primary_guard_sybil_rate < 0.01, "baseline guard sybil rate {}", baseline.primary_guard_sybil_rate);

    let paper_plateau = plateau(0.01, GuardConfig::default().guard_count);
    assert!((paper_plateau - 0.03).abs() < 0.005, "paper control plateau ~3%: {paper_plateau}");

    let (mixed_roster, sybil_ids, eligible) = build_mixed_roster(24, &authority);
    assert_eq!(mixed_roster.len(), 48);
    let half = measure_exposure(&mixed_roster, &sybil_ids, &eligible);
    assert!(half.layer1_sybil_fraction > 0.35, "layer1 sybil fraction {}", half.layer1_sybil_fraction);
    assert!(
        (half.primary_guard_sybil_rate - half.layer1_sybil_fraction).abs() < 0.08,
        "primary guard rate {} vs layer1 fraction {}",
        half.primary_guard_sybil_rate,
        half.layer1_sybil_fraction
    );
    assert!(half.primary_guard_sybil_rate > paper_plateau * 5.0);
    assert!(half.path_any_sybil_reputation_filtered < FLOOD_50_REP_PATH_SYBIL_BEFORE * 0.25);
    assert!(half.path_any_sybil_reputation_filtered < half.path_any_sybil_rate * 0.15);
}

#[test]
fn sybil_majority_flood_approaches_saturation_without_reputation_guard() {
    let authority = ConsortiumKey::generate();
    let (roster, sybil_ids, eligible) = build_mixed_roster(96, &authority);
    let m = measure_exposure(&roster, &sybil_ids, &eligible);
    assert!(m.layer1_sybil_fraction > 0.55, "layer1 dominated: {}", m.layer1_sybil_fraction);
    assert!(m.primary_guard_sybil_rate > 0.55, "guard capture: {}", m.primary_guard_sybil_rate);
    assert!((m.primary_guard_sybil_rate - m.layer1_sybil_fraction).abs() < 0.08);
    assert!(m.path_any_sybil_rate > 0.90, "path capture: {}", m.path_any_sybil_rate);
    assert!(m.path_any_sybil_reputation_filtered < 0.05, "filtered capture: {}", m.path_any_sybil_reputation_filtered);
}

#[test]
fn vetted_one_percent_roster_matches_paper_plateau_assumption() {
    let authority = ConsortiumKey::generate();
    let pk = authority.verifying_key();
    let mut roster = RelayRoster::with_admission_policy(RosterAdmissionPolicy::permissive_for_tests());
    let mut eligible = Vec::new();
    for id in 1..=99 {
        roster.admit_signed(authority.sign_record(&honest_record(id)), &pk).unwrap();
        eligible.push(test_relay_id(id));
    }
    roster.admit_signed(authority.sign_record(&sybil_record(10_000)), &pk).unwrap();
    let sybil_ids = HashSet::from([test_relay_id(10_000)]);
    let m = measure_exposure(&roster, &sybil_ids, &eligible);
    let paper = plateau(0.01, 3);
    assert!((m.layer1_sybil_fraction - 0.01).abs() < 0.05, "layer1 c: {}", m.layer1_sybil_fraction);
    assert!((m.primary_guard_sybil_rate - m.layer1_sybil_fraction).abs() < 0.04);
    assert!(m.primary_guard_sybil_rate < paper, "primary {} vs plateau {paper}", m.primary_guard_sybil_rate);
    assert!(m.path_any_sybil_reputation_filtered < 0.02);
}

#[test]
fn reputation_weighted_guard_excludes_probationary_and_sub_floor_sybils() {
    let authority = ConsortiumKey::generate();
    let (roster, sybil_ids, eligible) = build_mixed_roster(12, &authority);
    let topo = build_topology(&roster, 0, &TopologyConfig::high_threat(), 0).unwrap();
    let guard_config = GuardConfig::default();
    for seed in 0..200u64 {
        let guards = GuardSelector::new_reputation_weighted(&topo, &guard_config, seed, &eligible).expect("rep guards");
        for id in &sybil_ids {
            assert!(!guards.guards.contains(id));
        }
    }
}

#[test]
fn sybil_flood_capped_by_admission_rate_limit() {
    let authority = ConsortiumKey::generate();
    let pk = authority.verifying_key();
    let policy = RosterAdmissionPolicy { max_admissions_per_window: 5, window_secs: 24 * 60 * 60 };
    let mut roster = RelayRoster::with_admission_policy(policy);
    let mut eligible = Vec::new();
    for id in 1..=SYBIL_HONEST_COUNT {
        roster.admit_for_tests(honest_record(id));
        eligible.push(test_relay_id(id));
    }
    let mut admitted_sybils = 0u64;
    for i in 0..500u64 {
        let signed = authority.sign_record(&sybil_record(20_000 + i));
        match roster.admit_signed(signed, &pk) {
            Ok(_) => admitted_sybils += 1,
            Err(RosterError::AdmissionRateLimitExceeded { .. }) => break,
            Err(e) => panic!("unexpected error: {e:?}"),
        }
    }
    assert_eq!(admitted_sybils, 5, "the policy caps the attacker to 5 admissions per 24h window");
    assert_eq!(roster.len(), SYBIL_HONEST_COUNT as usize + 5, "roster growth bounded by rate limit");

    let sybil_ids: HashSet<RelayId> = (0..admitted_sybils).map(|i| test_relay_id(20_000 + i)).collect();
    let m = measure_exposure(&roster, &sybil_ids, &eligible);
    assert!(m.layer1_sybil_fraction <= 5.0 / 7.0, "at most the 5 admitted Sybils: {}", m.layer1_sybil_fraction);
    assert!((m.primary_guard_sybil_rate - m.layer1_sybil_fraction).abs() < 0.08);
    assert!(m.path_any_sybil_reputation_filtered < 0.05);
}

// ---------- pilot layout, seeded determinism, ceremony byte source ----------

#[test]
fn pilot_roles_follow_the_line() {
    assert_eq!(edge_link_tag(2, 1), 2);
    assert_eq!(edge_link_tag(1, 2), 2);
    assert_eq!(edge_link_tag(300, 2), 44);
    let first = pilot_node_role(0);
    assert!(first.ingress && !first.exit);
    assert_eq!(first.peers, vec![PilotLink { peer: 1, link_tag: 1 }]);
    let mid = pilot_node_role(2);
    assert!(!mid.ingress && !mid.exit);
    assert_eq!(mid.peers, vec![PilotLink { peer: 1, link_tag: 2 }, PilotLink { peer: 3, link_tag: 3 }]);
    let last = pilot_node_role(PATH_LEN - 1);
    assert!(last.exit && !last.ingress);
    assert_eq!(last.peers, vec![PilotLink { peer: 2, link_tag: 3 }]);
}

#[test]
fn equal_arguments_give_equal_guards_and_layers() {
    let roster = sample_roster(24, &["US", "DE"]);
    let a = build_topology(&roster, 9, &TopologyConfig::high_threat(), 5).unwrap();
    let b = build_topology(&roster, 9, &TopologyConfig::high_threat(), 5).unwrap();
    assert_eq!(a, b);
    let g1 = GuardSelector::new(&a, &GuardConfig::default(), 77).unwrap();
    let g2 = GuardSelector::new(&b, &GuardConfig::default(), 77).unwrap();
    assert_eq!(g1, g2);
}

struct CountingSource {
    draws: usize,
}

impl ByteSource for CountingSource {
    fn next_byte(&mut self) -> u8 {
        self.draws += 1;
        self.draws as u8
    }

    fn next_32(&mut self) -> [u8; 32] {
        self.draws += 32;
        [self.draws as u8; 32]
    }
}

#[test]
fn refused_ceremony_draws_nothing() {
    let cfg = CeremonyConfig { n: 2, threshold: 3, ..CeremonyConfig::default_config() };
    let mut src = CountingSource { draws: 0 };
    let kem = test_kem_commitment_for_id(1);
    let err = run_ceremony_with(&cfg, &mut src, kem).unwrap_err();
    assert!(matches!(err, CeremonyFailure::Config(_)));
    assert_eq!(src.draws, 0);
    let ok_cfg = CeremonyConfig { n: 2, threshold: 2, ..CeremonyConfig::default_config() };
    let (_, seeds) = run_ceremony_with(&ok_cfg, &mut src, kem).unwrap();
    assert_eq!(seeds.len(), 2);
    assert_eq!(src.draws, 64);
}

#[test]
fn share_text_roundtrip_for_every_x() {
    for x in 1..=255u8 {
        let share = SeedShare { x, y: [x ^ 0x5a; 32] };
        assert_eq!(decode_share_hex(&encode_share_hex(&share)).unwrap(), share);
    }
}

#[test]
fn seeded_ceremony_draws_each_seed_in_one_fill() {
    let cfg = CeremonyConfig { n: 2, threshold: 2, jurisdiction: "DE".into(), write_seeds: false };
    let (_, seeds) = run_ceremony_with(&cfg, &mut StdRng::seed_from_u64(7), KemPublicCommitment([5u8; 32])).expect("ceremony");
    let mut reference = StdRng::seed_from_u64(7);
    let mut first = [0u8; 32];
    let mut second = [0u8; 32];
    reference.fill_bytes(&mut first);
    reference.fill_bytes(&mut second);
    assert_eq!(seeds, vec![first, second]);
}

#[test]
fn jurisdiction_failure_before_a_missing_hop_is_a_plain_failure() {
    let roster = sample_roster(2, &["US", "US"]);
    let missing = test_relay_id(99);
    let repeated = vec![test_relay_id(1), test_relay_id(2), missing];
    assert_eq!(path_satisfies_jurisdiction(&repeated, &roster, &JurisdictionPolicy::default()), Ok(false));
    let early_missing = vec![test_relay_id(1), missing, test_relay_id(2)];
    assert_eq!(
        path_satisfies_jurisdiction(&early_missing, &roster, &JurisdictionPolicy::default()),
        Err(TopologyError::RelayNotFound { relay: missing })
    );
}

#[test]
fn relay_records_name_the_first_missing_hop() {
    let roster = sample_roster(2, &["US", "DE"]);
    let a = test_relay_id(98);
    let b = test_relay_id(99);
    let path = vec![test_relay_id(1), a, b];
    assert_eq!(relay_records_for_path(&path, &roster).unwrap_err(), TopologyError::RelayNotFound { relay: a });
}

#[test]
fn any_threshold_subset_in_any_order_reconstructs() {
    let secret = [0x5au8; 32];
    let shares = split_seed(&secret, 3, 5, &mut StdRng::seed_from_u64(11)).unwrap();
    let picks = [[4usize, 0, 2], [1, 3, 4], [2, 1, 0]];
    for p in picks.iter() {
        let sub: Vec<SeedShare> = p.iter().map(|&i| shares[i].clone()).collect();
        assert_eq!(reconstruct_seed(&sub).unwrap(), secret);
    }
    let all_reversed: Vec<SeedShare> = shares.iter().rev().cloned().collect();
    assert_eq!(reconstruct_seed(&all_reversed).unwrap(), secret);
}

#[test]
fn gf_field_laws_on_samples() {
    for a in [1u8, 2, 3, 0x53, 0xca, 0xff] {
        for b in [0u8, 1, 7, 0x80, 0xfe] {
            assert_eq!(gf_mul(a, b), gf_mul(b, a));
            for c in [0u8, 5, 0x1b, 0xff] {
                assert_eq!(gf_mul(gf_mul(a, b), c), gf_mul(a, gf_mul(b, c)));
                assert_eq!(gf_mul(a, b ^ c), gf_mul(a, b) ^ gf_mul(a, c));
            }
        }
    }
}

#[test]
fn decoded_share_text_encodes_back_in_lower_case() {
    let text = format!("  0A{}\t", "Fe".repeat(32));
    let share = decode_share_hex(&text).unwrap();
    assert_eq!(encode_share_hex(&share), text.trim().to_ascii_lowercase());
}
