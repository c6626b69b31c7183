//! Trusted boundary to the outside hash and signature crates (`sha3`,
//! `ed25519-dalek`). Keys, signatures and digests cross it as plain bytes.
use vstd::prelude::*;
use sha3::Digest;
use ed25519_dalek::{Signer, Verifier};

verus! {

/// Name for the SHA3-256 digest of a byte string.
pub uninterp spec fn sha3_256_of(data: Seq<u8>) -> Seq<u8>;

/// Name for the Ed25519 verifying key (compressed point bytes) derived from a 32-byte secret seed.
pub uninterp spec fn ed25519_public_of(seed: Seq<u8>) -> Seq<u8>;

/// Name for the Ed25519 signature (64 bytes) by secret seed `seed` over `msg`.
pub uninterp spec fn ed25519_signature_of(seed: Seq<u8>, msg: Seq<u8>) -> Seq<u8>;

/// Name for whether 32 bytes decode to an Ed25519 verifying key.
pub uninterp spec fn ed25519_key_decodes(pubkey: Seq<u8>) -> bool;

/// Name for whether `sig` is an accepted Ed25519 signature on `msg` under `pubkey`.
pub uninterp spec fn ed25519_accepts(pubkey: Seq<u8>, msg: Seq<u8>, sig: Seq<u8>) -> bool;

/// Calls `sha3::Sha3_256::digest`. Claims only that the 32-byte result is the
/// value named `sha3_256_of` for the input bytes (hashing is deterministic).
#[verifier::external_body]
pub(crate) fn sha3_256(data: &[u8]) -> (r: [u8; 32])
    ensures
        r@ == sha3_256_of(data@),
{
    sha3::Sha3_256::digest(data).into()
}

/// Calls `ed25519_dalek::SigningKey::verifying_key` on the key built from `seed`
/// (`SigningKey::from_bytes`) and returns its bytes (`VerifyingKey::to_bytes`).
/// Claims: the result is the name `ed25519_public_of(seed)`, and a key derived
/// from a secret always decodes again (it is a valid curve point).
#[verifier::external_body]
pub(crate) fn ed25519_public_key(seed: &[u8; 32]) -> (r: [u8; 32])
    ensures
        r@ == ed25519_public_of(seed@),
        ed25519_key_decodes(r@),
{
    ed25519_dalek::SigningKey::from_bytes(seed).verifying_key().to_bytes()
}

/// Calls `Signer::sign` of `ed25519_dalek::SigningKey` (built from `seed`) and returns
/// `Signature::to_bytes`. Claims: the result is the name `ed25519_signature_of(seed, msg)`
/// (Ed25519 signing is deterministic), and verification of it under the key
/// derived from the same seed accepts (the correctness of the scheme).
#[verifier::external_body]
pub(crate) fn ed25519_sign(seed: &[u8; 32], msg: &[u8]) -> (r: [u8; 64])
    ensures
        r@ == ed25519_signature_of(seed@, msg@),
        ed25519_accepts(ed25519_public_of(seed@), msg@, r@),
{
    ed25519_dalek::SigningKey::from_bytes(seed).sign(msg).to_bytes()
}

/// Calls `ed25519_dalek::VerifyingKey::from_bytes` and reports whether it succeeded.
/// Claims only that the answer is the name `ed25519_key_decodes(pubkey)`.
#[verifier::external_body]
pub(crate) fn ed25519_decodes(pubkey: &[u8; 32]) -> (r: bool)
    ensures
        r == ed25519_key_decodes(pubkey@),
{
    ed25519_dalek::VerifyingKey::from_bytes(pubkey).is_ok()
}

/// Calls `Verifier::verify` of `ed25519_dalek::VerifyingKey` (decoded from `pubkey`
/// with `VerifyingKey::from_bytes`; a key that does not decode yields `false`) on
/// `Signature::from_bytes(sig)`. Claims: the answer is the name
/// `ed25519_accepts(pubkey, msg, sig)`, and it is `false` when the key does not decode.
#[verifier::external_body]
pub(crate) fn ed25519_verify(pubkey: &[u8; 32], msg: &[u8], sig: &[u8; 64]) -> (r: bool)
    ensures
        r == ed25519_accepts(pubkey@, msg@, sig@),
        !ed25519_key_decodes(pubkey@) ==> !r,
{
    match ed25519_dalek::VerifyingKey::from_bytes(pubkey) {
        Ok(vk) => vk.verify(msg, &ed25519_dalek::Signature::from_bytes(sig)).is_ok(),
        Err(_) => false,
    }
}

} // verus!
