//! Threshold reputation proofs and presentation nullifiers.
//!
//! A relay proves that its scaled reputation score (`score * SCORE_SCALE`,
//! rounded) is at least a public scaled threshold with a Bulletproofs range
//! proof over `score_scaled - threshold_scaled` in `[0, 2^RANGE_BITS)`; the proof
//! carries a Pedersen commitment and the serialized range proof, never the
//! score. Scaling the `f64` score into integers happens before this module.
use vstd::prelude::*;

use crate::crypto::{sha3_256, sha3_256_of};
use crate::wire::{bytes_eq, extend_bytes, push_u64_le};
use vstd::arithmetic::power2::pow2;
use vstd::bytes::spec_u64_to_le_bytes;

verus! {

/// Scale factor mapping `[0.0, 1.0]` reputation scores to integers.
pub const SCORE_SCALE: u64 = 10_000;

/// Bit-length of the range proved for `score_scaled - threshold_scaled`.
pub const RANGE_BITS: usize = 16;

/// Generator capacity of the Bulletproofs generators (bits per proof).
pub const GENS_CAPACITY: usize = 64;

/// Transcript domain label (`aegis-trust/reputation-range-proof/v1`).
pub const TRANSCRIPT_LABEL: [u8; 37] = [
    97, 101, 103, 105, 115, 45, 116, 114, 117, 115, 116, 47, 114, 101, 112, 117, 116, 97, 116, 105,
    111, 110, 45, 114, 97, 110, 103, 101, 45, 112, 114, 111, 111, 102, 47, 118, 49,
];

/// Transcript label of the bound threshold (`threshold_scaled`).
pub const THRESHOLD_LABEL: [u8; 16] = [
    116, 104, 114, 101, 115, 104, 111, 108, 100, 95, 115, 99, 97, 108, 101, 100,
];

#[verifier::external_type_specification]
#[verifier::external_body]
pub struct ExTranscript(merlin::Transcript);

/// Label under which `merlin::Transcript::new` absorbs its domain label (`dom-sep`).
pub const DOM_SEP_LABEL: [u8; 7] = [100, 111, 109, 45, 115, 101, 112];

/// Calls `merlin::Transcript::new` with the domain label. Nothing is claimed of the
/// opaque state; `LoggedTranscript` records what it absorbed.
#[verifier::external_body]
fn merlin_transcript_new(label: &'static [u8]) -> merlin::Transcript {
    merlin::Transcript::new(label)
}

/// Calls `merlin::Transcript::append_message`, which panics on a message longer
/// than `u32::MAX` bytes (left out by `requires`). Nothing is claimed of the
/// opaque state; `LoggedTranscript` records what it absorbed.
#[verifier::external_body]
fn merlin_append(t: &mut merlin::Transcript, label: &'static [u8], message: &[u8])
    requires
        message@.len() <= u32::MAX,
{
    t.append_message(label, message)
}

/// A merlin transcript with the messages it has absorbed, in order, as
/// `(label, message)` pairs; the first is the `("dom-sep", label)` pair that
/// `Transcript::new` appends.
pub struct LoggedTranscript {
    t: merlin::Transcript,
    log: Ghost<Seq<(Seq<u8>, Seq<u8>)>>,
}

impl LoggedTranscript {
    /// The `(label, message)` pairs absorbed so far.
    pub closed spec fn log(&self) -> Seq<(Seq<u8>, Seq<u8>)> {
        self.log@
    }

    /// A fresh transcript with domain label `label`.
    fn new(label: &'static [u8]) -> (r: Self)
        ensures
            r.log() == seq![(DOM_SEP_LABEL@, label@)],
    {
        let ghost first: Seq<(Seq<u8>, Seq<u8>)> = seq![(DOM_SEP_LABEL@, label@)];
        LoggedTranscript { t: merlin_transcript_new(label), log: Ghost(first) }
    }

    /// Absorb `message` under `label`.
    fn append(&mut self, label: &'static [u8], message: &[u8])
        requires
            message@.len() <= u32::MAX,
        ensures
            final(self).log() == old(self).log().push((label@, message@)),
    {
        merlin_append(&mut self.t, label, message);
        self.log = Ghost(self.log@.push((label@, message@)));
    }
}

/// Calls `curve25519_dalek::scalar::Scalar::random(&mut rand::thread_rng())` and
/// returns the scalar's canonical bytes. The scalar is random: nothing is claimed.
#[verifier::external_body]
fn random_blinding() -> (r: [u8; 32]) {
    curve25519_dalek::scalar::Scalar::random(&mut rand::thread_rng()).to_bytes()
}

/// The compressed Pedersen commitment `PedersenGens::default().commit(value, b)`,
/// with `b = Scalar::from_bytes_mod_order(blinding)`, as 32 bytes.
pub uninterp spec fn pedersen_commitment_of(value: u64, blinding: Seq<u8>) -> Seq<u8>;

/// Whether `proof` is `RangeProof::to_bytes` of a proof that
/// `RangeProof::prove_single` can return for `value`, blinding
/// `Scalar::from_bytes_mod_order(blinding)`, `bits` bits, generators
/// `BulletproofGens::new(gens_capacity, 1)` and `PedersenGens::default()`, on a
/// transcript that has absorbed exactly the pairs of `log`.
pub uninterp spec fn range_proof_made(
    log: Seq<(Seq<u8>, Seq<u8>)>,
    value: u64,
    blinding: Seq<u8>,
    bits: usize,
    gens_capacity: usize,
    proof: Seq<u8>,
) -> bool;

/// Whether the verifier's Fiat-Shamir replay of `proof` and `commitment` on a
/// transcript that has absorbed `log` (`bits` bits, one party) meets no degenerate
/// case: the challenges `y`, `z`, `x` and the inner-product challenges are all
/// non-zero, and none of the points `A`, `S`, `T_1`, `T_2`, `L_i`, `R_i` in the
/// proof bytes is the identity. The prover does not refuse these cases (it only
/// refuses a zero `x`), while `verify_single` refuses an identity point
/// (`validate_and_append_point`) and its equations need the challenges' inverses.
pub uninterp spec fn range_proof_nondegenerate(
    log: Seq<(Seq<u8>, Seq<u8>)>,
    commitment: Seq<u8>,
    proof: Seq<u8>,
    bits: usize,
) -> bool;

/// Calls `bulletproofs::RangeProof::prove_single` on the transcript with generators
/// `BulletproofGens::new(gens_capacity, 1)`, `PedersenGens::default()` and the
/// blinding `Scalar::from_bytes_mod_order(blinding)`, and returns the compressed
/// commitment bytes and `RangeProof::to_bytes`, or `None` when proving fails.
/// Claimed, as the source shows: the commitment is `PedersenGens::commit` of the
/// value and blinding (`Party::new`); the bytes are a proof `prove_single` can
/// return on these arguments and this transcript (named by `range_proof_made`);
/// a 16-bit proof serializes to 544 bytes (7 elements, then an inner-product proof
/// of 4 rounds: 2 points each, and 2 scalars); a bit size other than 8, 16, 32 or
/// 64, or fewer generators than bits, fails (`Dealer::new`, `Party::new`). The
/// proof's own random draws, and whether a zero challenge makes proving fail,
/// are not claimed. The transcript is consumed.
#[verifier::external_body]
fn range_proof_prove(t: LoggedTranscript, value: u64, blinding: [u8; 32], bits: usize, gens_capacity: usize)
    -> (r: Option<([u8; 32], Vec<u8>)>)
    ensures
        r matches Some((c, p)) ==> c@ == pedersen_commitment_of(value, blinding@)
            && range_proof_made(t.log(), value, blinding@, bits, gens_capacity, p@)
            && (bits == 16 ==> p@.len() == 544),
        !(bits == 8 || bits == 16 || bits == 32 || bits == 64) || gens_capacity < bits ==> r is None,
{
    let mut tr = t.t;
    let b = curve25519_dalek::scalar::Scalar::from_bytes_mod_order(blinding);
    let bp_gens = bulletproofs::BulletproofGens::new(gens_capacity, 1);
    let pc_gens = bulletproofs::PedersenGens::default();
    match bulletproofs::RangeProof::prove_single(&bp_gens, &pc_gens, &mut tr, value, &b, bits) {
        Ok((proof, commitment)) => Some((commitment.to_bytes(), proof.to_bytes())),
        Err(_) => None,
    }
}

/// Whether range-proof bytes have the shape `RangeProof::from_bytes` requires:
/// a multiple of 32 bytes, with the 7 fixed elements and at least the two
/// final scalars of the inner-product proof.
pub open spec fn range_proof_shape_ok(bytes: Seq<u8>) -> bool {
    bytes.len() % 32 == 0 && bytes.len() >= 9 * 32
}

/// Decodes `proof` with `bulletproofs::RangeProof::from_bytes` and the commitment
/// as `CompressedRistretto`, then calls `RangeProof::verify_single` on the
/// transcript with generators `BulletproofGens::new(gens_capacity, 1)` and
/// `PedersenGens::default()`. Claimed, as the source shows: bytes without the shape
/// `range_proof_shape_ok` are refused (`from_bytes`); and a proof made by
/// `prove_single` on a transcript that absorbed the same pairs, for a value below
/// `2^bits` whose commitment is `commitment`, is accepted unless its replay is
/// degenerate (the verification equations hold for every random batching weight,
/// so the weight does not decide). The transcript is consumed.
#[verifier::external_body]
fn range_proof_verify(
    t: LoggedTranscript,
    commitment: &[u8; 32],
    proof: &[u8],
    bits: usize,
    gens_capacity: usize,
) -> (r: bool)
    ensures
        r ==> range_proof_shape_ok(proof@),
        (exists|v: u64, b: Seq<u8>| #[trigger] range_proof_made(t.log(), v, b, bits, gens_capacity, proof@)
            && commitment@ == pedersen_commitment_of(v, b) && (v as int) < pow2(bits as nat))
            && range_proof_nondegenerate(t.log(), commitment@, proof@, bits) ==> r,
{
    let mut tr = t.t;
    let bp_gens = bulletproofs::BulletproofGens::new(gens_capacity, 1);
    let pc_gens = bulletproofs::PedersenGens::default();
    let point = curve25519_dalek::ristretto::CompressedRistretto(*commitment);
    match bulletproofs::RangeProof::from_bytes(proof) {
        Ok(p) => p.verify_single(&bp_gens, &pc_gens, &mut tr, &point, bits).is_ok(),
        Err(_) => false,
    }
}

/// Genuine zero-knowledge range proof via Bulletproofs (transparent setup).
pub struct BulletproofsReputationProof;

/// A threshold proof: the Pedersen commitment to `score_scaled - threshold_scaled`
/// and the serialized range proof. Neither holds the score.
#[derive(Debug, Clone, PartialEq, Eq)]
pub struct BulletproofsProof {
    /// Pedersen commitment to `(score_scaled - threshold_scaled)` at prove time.
    pub commitment: [u8; 32],
    /// Serialized range proof bytes.
    pub range_proof: Vec<u8>,
}

/// The structurally invalid proof returned when no honest proof exists: an
/// all-zero commitment and no range-proof bytes.
pub open spec fn is_void_proof(p: BulletproofsProof) -> bool {
    p.commitment@ == Seq::new(32, |i: int| 0u8) && p.range_proof@.len() == 0
}

/// What the transcript shared by prover and verifier absorbs: the domain label,
/// then the scaled threshold (little-endian).
pub open spec fn threshold_log(threshold_scaled: u64) -> Seq<(Seq<u8>, Seq<u8>)> {
    seq![(DOM_SEP_LABEL@, TRANSCRIPT_LABEL@), (THRESHOLD_LABEL@, spec_u64_to_le_bytes(threshold_scaled))]
}

/// Start the transcript shared by prover and verifier.
fn threshold_transcript(threshold_scaled: u64) -> (t: LoggedTranscript)
    ensures
        t.log() == threshold_log(threshold_scaled),
{
    let mut t = LoggedTranscript::new(&TRANSCRIPT_LABEL);
    let mut msg: Vec<u8> = Vec::new();
    push_u64_le(&mut msg, threshold_scaled);
    proof {
        vstd::bytes::lemma_auto_spec_u64_to_from_le_bytes();
        assert(msg@ =~= spec_u64_to_le_bytes(threshold_scaled));
    }
    t.append(&THRESHOLD_LABEL, msg.as_slice());
    t
}

/// `p` is a proof that `prove_scaled` can make at `threshold_scaled` for the
/// difference `delta`: commitment and range proof made with one blinding.
pub open spec fn made_for(p: BulletproofsProof, threshold_scaled: u64, delta: u64) -> bool {
    exists|b: Seq<u8>|
        #[trigger] range_proof_made(threshold_log(threshold_scaled), delta, b, RANGE_BITS, GENS_CAPACITY, p.range_proof@)
            && p.commitment@ == pedersen_commitment_of(delta, b)
}

/// Verification at `threshold_scaled` owes acceptance to `p`: it was made at that
/// threshold for a difference within `RANGE_BITS` bits, and its replay is not degenerate.
pub open spec fn acceptance_owed(p: BulletproofsProof, threshold_scaled: u64) -> bool {
    &&& exists|d: u64| d < 65536 && #[trigger] made_for(p, threshold_scaled, d)
    &&& range_proof_nondegenerate(threshold_log(threshold_scaled), p.commitment@, p.range_proof@, RANGE_BITS)
}

impl BulletproofsReputationProof {
    /// Prove `score_scaled >= threshold_scaled`. Below the threshold no honest
    /// proof exists and the void proof is returned, which verification
    /// refuses; it is returned too if the prover reports an error. A difference
    /// that does not fit in `RANGE_BITS` bits yields a proof that does not verify.
    pub fn prove_scaled(score_scaled: u64, threshold_scaled: u64) -> (r: BulletproofsProof)
        ensures
            score_scaled < threshold_scaled ==> is_void_proof(r),
            score_scaled >= threshold_scaled ==> is_void_proof(r) || ({
                &&& range_proof_shape_ok(r.range_proof@)
                &&& r.range_proof@.len() == 544
                &&& made_for(r, threshold_scaled, (score_scaled - threshold_scaled) as u64)
            }),
    {
        if score_scaled < threshold_scaled {
            return void_proof();
        }
        let delta = score_scaled - threshold_scaled;
        let blinding = random_blinding();
        let t = threshold_transcript(threshold_scaled);
        match range_proof_prove(t, delta, blinding, RANGE_BITS, GENS_CAPACITY) {
            Some((commitment, range_proof)) => {
                let p = BulletproofsProof { commitment, range_proof };
                assert(range_proof_made(threshold_log(threshold_scaled), delta, blinding@, RANGE_BITS, GENS_CAPACITY,
                    p.range_proof@));
                p
            },
            None => void_proof(),
        }
    }

    /// Verify a threshold proof against the public scaled threshold. A proof whose
    /// range-proof bytes lack the decodable shape is refused.
    pub fn verify_scaled(proof: &BulletproofsProof, threshold_scaled: u64) -> (r: bool)
        ensures
            r ==> range_proof_shape_ok(proof.range_proof@),
            acceptance_owed(*proof, threshold_scaled) ==> r,
    {
        let t = threshold_transcript(threshold_scaled);
        proof {
            if acceptance_owed(*proof, threshold_scaled) {
                vstd::arithmetic::power2::lemma2_to64();
                let d = choose|d: u64| d < 65536 && #[trigger] made_for(*proof, threshold_scaled, d);
                let b = choose|b: Seq<u8>|
                    #[trigger] range_proof_made(threshold_log(threshold_scaled), d, b, RANGE_BITS, GENS_CAPACITY,
                        proof.range_proof@) && proof.commitment@ == pedersen_commitment_of(d, b);
                assert(range_proof_made(t.log(), d, b, RANGE_BITS, GENS_CAPACITY, proof.range_proof@));
            }
        }
        range_proof_verify(t, &proof.commitment, proof.range_proof.as_slice(), RANGE_BITS, GENS_CAPACITY)
    }
}

fn void_proof() -> (r: BulletproofsProof)
    ensures
        is_void_proof(r),
{
    let p = BulletproofsProof { commitment: [0u8; 32], range_proof: Vec::new() };
    assert(p.commitment@ =~= Seq::new(32, |i: int| 0u8));
    p
}

/// A proof made for a score below its threshold is refused by verification,
/// whatever threshold the verifier uses.
pub proof fn lemma_below_threshold_refused(p: BulletproofsProof)
    requires
        is_void_proof(p),
    ensures
        !range_proof_shape_ok(p.range_proof@),
{
}

/// A proof made at a threshold for a score at most `2^16 - 1` above it is owed
/// acceptance by verification at that same threshold, unless its replay is degenerate.
pub proof fn lemma_made_proof_owed_acceptance(p: BulletproofsProof, threshold_scaled: u64, score_scaled: u64)
    requires
        score_scaled >= threshold_scaled,
        score_scaled - threshold_scaled < 65536,
        made_for(p, threshold_scaled, (score_scaled - threshold_scaled) as u64),
        range_proof_nondegenerate(threshold_log(threshold_scaled), p.commitment@, p.range_proof@, RANGE_BITS),
    ensures
        acceptance_owed(p, threshold_scaled),
{
    let d = (score_scaled - threshold_scaled) as u64;
    assert(d < 65536 && made_for(p, threshold_scaled, d));
}

/// Anonymous threshold presentation: a Bulletproofs proof with no relay
/// identity in its bytes, and the score-delta commitment exposed for
/// out-of-band binding.
#[derive(Debug, Clone, PartialEq, Eq)]
pub struct AnonymousReputationPresentation {
    /// Threshold range proof (commitment + range proof). Contains no RelayId.
    pub proof: BulletproofsProof,
    /// Pedersen score-delta commitment for out-of-band binding checks.
    pub score_commitment: [u8; 32],
}

/// Build an anonymous presentation that `score_scaled >= threshold_scaled`.
pub fn present_anonymous_scaled(score_scaled: u64, threshold_scaled: u64) -> (r: AnonymousReputationPresentation)
    ensures
        r.score_commitment == r.proof.commitment,
        score_scaled < threshold_scaled ==> is_void_proof(r.proof),
        score_scaled >= threshold_scaled ==> is_void_proof(r.proof) || ({
            &&& range_proof_shape_ok(r.proof.range_proof@)
            &&& r.proof.range_proof@.len() == 544
            &&& made_for(r.proof, threshold_scaled, (score_scaled - threshold_scaled) as u64)
        }),
{
    let proof = BulletproofsReputationProof::prove_scaled(score_scaled, threshold_scaled);
    AnonymousReputationPresentation { score_commitment: proof.commitment, proof }
}

/// Verify the threshold statement of an anonymous presentation: the exposed
/// commitment must be the proof's own, and the range proof must verify.
pub fn verify_anonymous_scaled(presentation: &AnonymousReputationPresentation, threshold_scaled: u64) -> (r: bool)
    ensures
        presentation.score_commitment@ != presentation.proof.commitment@ ==> !r,
        r ==> range_proof_shape_ok(presentation.proof.range_proof@),
        presentation.score_commitment@ == presentation.proof.commitment@
            && acceptance_owed(presentation.proof, threshold_scaled) ==> r,
{
    if !bytes_eq(presentation.score_commitment.as_slice(), presentation.proof.commitment.as_slice()) {
        return false;
    }
    BulletproofsReputationProof::verify_scaled(&presentation.proof, threshold_scaled)
}

/// Nullifier bound out-of-band to an anonymous presentation (32 bytes).
pub type ReputationNullifier = [u8; 32];

/// Domain separator of nullifier derivation (`aegis-anon-rep-nullifier-v1`).
pub const NULLIFIER_DOMAIN: [u8; 27] = [
    97, 101, 103, 105, 115, 45, 97, 110, 111, 110, 45, 114, 101, 112, 45, 110, 117, 108, 108, 105,
    102, 105, 101, 114, 45, 118, 49,
];

/// The bytes hashed for a nullifier: domain, relay id, epoch (little-endian), blinding.
pub open spec fn nullifier_preimage(relay_id: Seq<u8>, epoch: u64, blinding: Seq<u8>) -> Seq<u8> {
    NULLIFIER_DOMAIN@ + relay_id + vstd::bytes::spec_u64_to_le_bytes(epoch) + blinding
}

/// `SHA3-256(domain || relay_id || epoch_le || blinding)`.
pub fn derive_reputation_nullifier(relay_id: &[u8; 32], epoch: u64, blinding: &[u8; 32]) -> (r:
    ReputationNullifier)
    ensures
        r@ == sha3_256_of(nullifier_preimage(relay_id@, epoch, blinding@)),
{
    let mut msg: Vec<u8> = Vec::new();
    extend_bytes(&mut msg, NULLIFIER_DOMAIN.as_slice());
    extend_bytes(&mut msg, relay_id.as_slice());
    push_u64_le(&mut msg, epoch);
    extend_bytes(&mut msg, blinding.as_slice());
    sha3_256(msg.as_slice())
}

} // verus!
