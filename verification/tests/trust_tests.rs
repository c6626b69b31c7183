use aegis::trust::nullifier::{NullifierError, NullifierRegistry};
use aegis::trust::tee::{
    core_gates_hold_under, core_gates_hold_under_attested, encode_hardware_quote_envelope,
    parse_hardware_quote_envelope, phase7_gate_report_data, select_attestation_provider, AttestationError,
    AttestationMode, AttestationProvider, DcapQuoteRequest, HardwareQuoteFields, HardwareTeeProvider,
    SevQuoteRequest, SoftwareAttestationProvider, TeeAssumption, TeeError, TeePlatform, SOFTWARE_PROVIDER_ID,
};
use aegis::trust::zk::{
    derive_reputation_nullifier, present_anonymous_scaled, verify_anonymous_scaled, BulletproofsProof,
    BulletproofsReputationProof, RANGE_BITS, SCORE_SCALE,
};

fn test_provider() -> SoftwareAttestationProvider {
    SoftwareAttestationProvider::from_seed([0x42; 32])
}

#[test]
fn software_issue_and_verify_success() {
    let provider = test_provider();
    let report_data = b"gate-checkpoint-v1";
    let quote = provider.issue_quote(report_data);
    assert_eq!(quote.provider, SOFTWARE_PROVIDER_ID);
    provider.verify_quote(&quote, report_data).expect("valid quote");
}

#[test]
fn software_verify_fails_on_tampered_report_data() {
    let provider = test_provider();
    let quote = provider.issue_quote(b"original");
    assert_eq!(provider.verify_quote(&quote, b"tampered"), Err(AttestationError::ReportDataMismatch));
}

#[test]
fn software_verify_fails_on_tampered_signature() {
    let provider = test_provider();
    let mut quote = provider.issue_quote(b"payload");
    quote.signature[0] ^= 0xFF;
    assert_eq!(provider.verify_quote(&quote, b"payload"), Err(AttestationError::InvalidSignature));
}

#[test]
fn broken_enclave_without_quote_fails() {
    assert!(!core_gates_hold_under(TeeAssumption::BrokenEnclave));
}

#[test]
fn trusted_assumption_lab_path_still_passes() {
    assert!(core_gates_hold_under(TeeAssumption::Trusted));
}

#[test]
fn broken_enclave_with_verified_quote_passes_attested_gate() {
    let provider = test_provider();
    let report_data = phase7_gate_report_data();
    let quote = provider.issue_quote(&report_data);
    assert!(core_gates_hold_under_attested(TeeAssumption::BrokenEnclave, &provider, &quote, &report_data));
}

#[test]
fn attested_gate_fails_on_bad_quote() {
    let provider = test_provider();
    let report_data = phase7_gate_report_data();
    let mut quote = provider.issue_quote(&report_data);
    quote.signature[1] ^= 0x01;
    assert!(!core_gates_hold_under_attested(TeeAssumption::BrokenEnclave, &provider, &quote, &report_data));
}

#[test]
fn hardware_provider_fails_closed_on_this_host() {
    assert!(matches!(HardwareTeeProvider::try_new(), Err(TeeError::HardwareUnavailable(_))));
}

#[test]
fn hardware_dcap_request_fails_with_actionable_hint() {
    let req = DcapQuoteRequest { report_data: b"bind".to_vec(), expected_mrenclave: None, expected_mrsigner: None };
    let err = HardwareTeeProvider.request_dcap_quote(&req);
    assert!(matches!(err, Err(TeeError::HardwareUnavailable(ref m)) if m.contains("DCAP")));
}

#[test]
fn hardware_sev_request_fails_with_actionable_hint() {
    let req = SevQuoteRequest { report_data: b"bind".to_vec(), expected_measurement: None, expected_author_key: None };
    let err = HardwareTeeProvider.request_sev_quote(&req);
    assert!(matches!(err, Err(TeeError::HardwareUnavailable(ref m)) if m.contains("SEV-SNP")));
}

#[test]
fn hardware_quote_fields_report_data_binding() {
    let fields = HardwareQuoteFields {
        enclave_measurement: [1; 32],
        signer_measurement: [2; 32],
        report_data: b"expected".to_vec(),
        tcb_version: None,
    };
    assert!(fields.report_data_matches(b"expected"));
    assert!(!fields.report_data_matches(b"other"));
}

#[test]
fn hardware_quote_envelope_roundtrip() {
    let report = b"phase7-bind";
    let blob = b"opaque-dcap-quote-bytes";
    let encoded = encode_hardware_quote_envelope(TeePlatform::IntelDcap, report, blob).expect("encode");
    let parsed = parse_hardware_quote_envelope(&encoded).expect("parse");
    assert_eq!(parsed.platform, TeePlatform::IntelDcap);
    assert_eq!(parsed.report_data, report);
    assert_eq!(parsed.quote_blob, blob);
}

#[test]
fn hardware_quote_envelope_rejects_bad_magic() {
    let mut bad = encode_hardware_quote_envelope(TeePlatform::AmdSevSnp, b"x", b"y").unwrap();
    bad[0] ^= 0xFF;
    assert!(matches!(parse_hardware_quote_envelope(&bad), Err(AttestationError::EnvelopeError(_))));
}

#[test]
fn hardware_quote_envelope_rejects_truncated() {
    let encoded = encode_hardware_quote_envelope(TeePlatform::IntelDcap, b"a", b"b").unwrap();
    assert!(matches!(
        parse_hardware_quote_envelope(&encoded[..encoded.len() - 1]),
        Err(AttestationError::EnvelopeError(_))
    ));
}

#[test]
fn hardware_quote_envelope_layout_is_exact() {
    let encoded = encode_hardware_quote_envelope(TeePlatform::AmdSevSnp, b"ab", b"xyz").unwrap();
    assert_eq!(
        encoded,
        vec![0x41, 0x54, 0x51, 0x31, 1, 1, 2, 0, 0, 0, 3, 0, 0, 0, b'a', b'b', b'x', b'y', b'z']
    );
    let mut trailing = encoded.clone();
    trailing.push(0);
    assert!(matches!(parse_hardware_quote_envelope(&trailing), Err(AttestationError::EnvelopeError(_))));
    let mut bad_platform = encoded.clone();
    bad_platform[5] = 7;
    assert!(matches!(parse_hardware_quote_envelope(&bad_platform), Err(AttestationError::EnvelopeError(_))));
}

#[test]
fn select_attestation_provider_software_path() {
    let provider = select_attestation_provider(AttestationMode::Software, [0x42; 32]).expect("software");
    let report_data = b"select-test";
    let quote = provider.issue_quote(report_data);
    provider.verify_quote(&quote, report_data).expect("software verify");
}

#[test]
fn select_attestation_provider_hardware_fails_closed() {
    assert!(matches!(
        select_attestation_provider(AttestationMode::Hardware, [0; 32]),
        Err(TeeError::HardwareUnavailable(_))
    ));
}

#[test]
fn software_quote_from_other_key_is_refused() {
    let provider = test_provider();
    let other = SoftwareAttestationProvider::from_seed([0x43; 32]);
    let quote = other.issue_quote(b"payload");
    assert!(provider.verify_quote(&quote, b"payload").is_err());
    assert_ne!(provider.verifying_key(), other.verifying_key());
}

#[test]
fn register_rejects_replay_same_epoch() {
    let mut reg = NullifierRegistry::new();
    let n = derive_reputation_nullifier(&[1u8; 32], 7, &[2u8; 32]);
    assert!(reg.try_register(7, n).is_ok());
    assert!(reg.is_spent(7, &n));
    assert!(matches!(reg.try_register(7, n), Err(NullifierError::AlreadyUsed { epoch: 7 })));
}

#[test]
fn same_nullifier_allowed_in_different_epoch() {
    let mut reg = NullifierRegistry::new();
    let n = derive_reputation_nullifier(&[1u8; 32], 1, &[2u8; 32]);
    assert!(reg.try_register(1, n).is_ok());
    assert!(reg.try_register(2, n).is_ok());
    assert_eq!(reg.epoch_len(1), 1);
    assert_eq!(reg.epoch_len(2), 1);
}

#[test]
fn forget_epoch_clears_spend_set() {
    let mut reg = NullifierRegistry::new();
    let n = [9u8; 32];
    reg.try_register(3, n).unwrap();
    reg.forget_epoch(3);
    assert!(!reg.is_spent(3, &n));
    assert!(reg.try_register(3, n).is_ok());
}

#[test]
fn partition_allows_double_accept_until_merge() {
    let n = derive_reputation_nullifier(&[0x44u8; 32], 99, &[0x55u8; 32]);
    let mut a = NullifierRegistry::new();
    let mut b = NullifierRegistry::new();
    assert!(a.try_register(99, n).is_ok());
    assert!(b.try_register(99, n).is_ok());
    let report = a.merge(&b).unwrap();
    assert_eq!(report.added, 0);
    assert_eq!(report.already_present, 1);
    assert_eq!(a.epoch_len(99), 1);
    assert!(a.is_spent(99, &n));
}

#[test]
fn merge_adds_new_spends_and_counts() {
    let mut a = NullifierRegistry::new();
    let mut b = NullifierRegistry::new();
    a.try_register(1, [1u8; 32]).unwrap();
    b.try_register(1, [1u8; 32]).unwrap();
    b.try_register(1, [2u8; 32]).unwrap();
    b.try_register(5, [3u8; 32]).unwrap();
    let report = a.merge(&b).unwrap();
    assert_eq!(report.added, 2);
    assert_eq!(report.already_present, 1);
    assert_eq!(a.len(), 3);
    assert!(a.is_spent(5, &[3u8; 32]));
    let again = a.merge(&b).unwrap();
    assert_eq!(again.added, 0);
    assert_eq!(again.already_present, 3);
}

#[test]
fn registry_load_from_file_entries() {
    let hex = "09".repeat(32);
    let ok = NullifierRegistry::from_file_entries(1, &vec![("7".to_string(), vec![hex.clone()])]).unwrap();
    assert!(ok.is_spent(7, &[9u8; 32]));
    assert_eq!(ok.len(), 1);
    assert!(matches!(
        NullifierRegistry::from_file_entries(99, &vec![]),
        Err(NullifierError::UnsupportedVersion(99))
    ));
    assert!(matches!(
        NullifierRegistry::from_file_entries(1, &vec![("7".to_string(), vec![hex.clone(), hex.clone()])]),
        Err(NullifierError::MergeConflict { epoch: 7, .. })
    ));
    assert!(matches!(
        NullifierRegistry::from_file_entries(1, &vec![("x".to_string(), vec![])]),
        Err(NullifierError::InvalidNullifierHex(_))
    ));
    assert!(matches!(
        NullifierRegistry::from_file_entries(1, &vec![("7".to_string(), vec!["zz".to_string()])]),
        Err(NullifierError::InvalidNullifierHex(_))
    ));
}

#[test]
fn nullifier_deterministic_and_domain_separated() {
    let id = [7u8; 32];
    let blind = [9u8; 32];
    let a = derive_reputation_nullifier(&id, 1, &blind);
    let b = derive_reputation_nullifier(&id, 1, &blind);
    assert_eq!(a, b);
    let c = derive_reputation_nullifier(&id, 2, &blind);
    assert_ne!(a, c);
    let other_id = [8u8; 32];
    let d = derive_reputation_nullifier(&other_id, 1, &blind);
    assert_ne!(a, d);
}

#[test]
fn bulletproofs_proof_verifies_above_threshold() {
    let proof = BulletproofsReputationProof::prove_scaled(8000, 5000);
    assert!(BulletproofsReputationProof::verify_scaled(&proof, 5000));
}

#[test]
fn bulletproofs_proof_fails_below_threshold() {
    let proof = BulletproofsReputationProof::prove_scaled(2000, 5000);
    assert_eq!(proof.commitment, [0u8; 32]);
    assert!(proof.range_proof.is_empty());
    assert!(!BulletproofsReputationProof::verify_scaled(&proof, 5000));
}

#[test]
fn bulletproofs_truncated_commitment_rejects_without_panic() {
    let proof = BulletproofsProof { commitment: [0u8; 32], range_proof: vec![0u8; 64] };
    assert!(!BulletproofsReputationProof::verify_scaled(&proof, 5000));
}

#[test]
fn bulletproofs_empty_range_proof_rejects_without_panic() {
    let proof = BulletproofsProof { commitment: [0u8; 32], range_proof: Vec::new() };
    assert!(!BulletproofsReputationProof::verify_scaled(&proof, 5000));
}

#[test]
fn bulletproofs_garbage_range_proof_bytes_reject_without_panic() {
    let proof = BulletproofsProof { commitment: [0u8; 32], range_proof: vec![0xFF; 8] };
    assert!(!BulletproofsReputationProof::verify_scaled(&proof, 5000));
}

#[test]
fn bulletproofs_tampered_proof_fails() {
    let mut proof = BulletproofsReputationProof::prove_scaled(8000, 5000);
    assert!(BulletproofsReputationProof::verify_scaled(&proof, 5000));
    if !proof.range_proof.is_empty() {
        proof.range_proof[0] ^= 0xff;
    } else {
        panic!("expected non-empty range proof for valid score");
    }
    assert!(!BulletproofsReputationProof::verify_scaled(&proof, 5000));
}

#[test]
fn bulletproofs_tampered_commitment_fails() {
    let mut proof = BulletproofsReputationProof::prove_scaled(8000, 5000);
    proof.commitment[0] ^= 0xff;
    assert!(!BulletproofsReputationProof::verify_scaled(&proof, 5000));
}

#[test]
fn bulletproofs_wrong_threshold_fails() {
    let proof = BulletproofsReputationProof::prove_scaled(8000, 5000);
    assert!(!BulletproofsReputationProof::verify_scaled(&proof, 6000));
}

#[test]
fn bulletproofs_proof_carries_no_plaintext_score() {
    let proof = BulletproofsReputationProof::prove_scaled(8123, 5000);
    assert!(BulletproofsReputationProof::verify_scaled(&proof, 5000));
    let score_bytes = 8123u64.to_le_bytes();
    assert!(
        !proof.range_proof.windows(8).any(|w| w == score_bytes),
        "range proof must not embed the plaintext scaled score"
    );
    assert!(
        !proof.commitment.windows(8).any(|w| w == score_bytes),
        "commitment must not embed the plaintext scaled score"
    );
}

#[test]
fn bulletproofs_range_proof_size_and_edges() {
    assert_eq!(SCORE_SCALE, 10_000);
    assert_eq!(RANGE_BITS, 16);
    let proof = BulletproofsReputationProof::prove_scaled(SCORE_SCALE, 0);
    assert_eq!(proof.range_proof.len(), 544);
    assert!(BulletproofsReputationProof::verify_scaled(&proof, 0));
    let equal = BulletproofsReputationProof::prove_scaled(5000, 5000);
    assert!(BulletproofsReputationProof::verify_scaled(&equal, 5000));
    let too_wide = BulletproofsReputationProof::prove_scaled(70_000, 0);
    assert!(!BulletproofsReputationProof::verify_scaled(&too_wide, 0));
}

#[test]
fn anonymous_presentation_verifies_without_relay_id() {
    let presentation = present_anonymous_scaled(8000, 5000);
    assert!(verify_anonymous_scaled(&presentation, 5000));
    assert_eq!(
        presentation.score_commitment, presentation.proof.commitment,
        "score_commitment must match Pedersen commitment in proof"
    );
    assert!(!verify_anonymous_scaled(&presentation, 9000));
}

#[test]
fn anonymous_presentation_bytes_contain_no_relay_id() {
    let relay_id = [0xABu8; 32];
    let presentation = present_anonymous_scaled(7500, 4000);
    assert!(verify_anonymous_scaled(&presentation, 4000));
    assert!(
        !presentation.proof.range_proof.windows(32).any(|w| w == relay_id),
        "range proof must not embed RelayId"
    );
    assert_ne!(presentation.score_commitment, relay_id);
    assert_ne!(presentation.proof.commitment, relay_id);
}

#[test]
fn anonymous_mismatched_score_commitment_rejects() {
    let mut presentation = present_anonymous_scaled(8000, 5000);
    presentation.score_commitment[0] ^= 0xff;
    assert!(!verify_anonymous_scaled(&presentation, 5000));
}

#[test]
fn proofs_of_one_score_use_fresh_blindings() {
    let a = BulletproofsReputationProof::prove_scaled(8000, 5000);
    let b = BulletproofsReputationProof::prove_scaled(8000, 5000);
    assert_ne!(a.commitment, [0u8; 32]);
    assert_ne!(a.commitment, b.commitment);
    assert_eq!(a.range_proof.len(), 544);
    assert_eq!(b.range_proof.len(), 544);
}

#[test]
fn checked_len_counts_every_epoch() {
    let mut reg = NullifierRegistry::new();
    assert_eq!(reg.checked_len(), Some(0));
    reg.try_register(1, [1u8; 32]).unwrap();
    reg.try_register(1, [2u8; 32]).unwrap();
    reg.try_register(2, [1u8; 32]).unwrap();
    assert_eq!(reg.checked_len(), Some(3));
    assert_eq!(reg.len(), 3);
}
