//! Consortium key-ceremony custody boundary: the software (Shamir + in-process
//! signing) provider, the fail-closed hardware provider, and the PKCS#11-shaped
//! operations a hardware provider implements.
use vstd::prelude::*;

use crate::rng::ByteSource;
use crate::text::owned;
use crate::topology::roster::{AuthorityAdmissionSignature, ConsortiumKey, sig_valid};
use crate::topology::shamir::{SeedShare, ShamirError, encode_share_hex, split_seed};
use crate::topology::types::RelayRecord;
use crate::crypto::ed25519_public_of;

verus! {

/// Provider id for software/lab custody (Shamir + file ceremony).
pub const SOFTWARE_CUSTODY_PROVIDER_ID: &'static str = "software-custody-v1";

/// Provider id for HSM-backed custody (PKCS#11 / vendor SDK).
pub const HSM_CUSTODY_PROVIDER_ID: &'static str = "hsm-custody-v1";

/// Provider id for the lab-only simulated HSM (in-memory keys, not hardware).
pub const SIMULATED_HSM_PROVIDER_ID: &'static str = "simulated-hsm-lab-v1";

/// Required fields of an HSM-wrapped authority seed share export.
#[derive(Debug, Clone, PartialEq, Eq)]
pub struct HsmWrappedShareFields {
    pub key_label: String,
    pub wrapped_blob: Vec<u8>,
    pub shamir_x: u8,
    pub authority_pubkey: [u8; 32],
}

/// PKCS#11 token slot summary.
#[derive(Debug, Clone, PartialEq, Eq)]
pub struct HsmSlotInfo {
    pub slot_id: u64,
    pub label: String,
    pub token_present: bool,
}

/// Custody backend selection.
#[derive(Debug, Clone, Copy, PartialEq, Eq)]
pub enum CeremonyCustodyMode {
    Software,
    Hardware,
}

#[derive(Debug, Clone, PartialEq, Eq)]
pub enum CeremonyError {
    HsmUnavailable(String),
    Shamir(ShamirError),
    UnknownKeyLabel(String),
}

/// PKCS#11-shaped custody operations a hardware provider implements.
pub trait Pkcs11CustodyOps {
    fn provider_id(&self) -> &'static str;

    /// Enumerate slots / tokens.
    fn list_slots(&self) -> Result<Vec<HsmSlotInfo>, CeremonyError>;

    /// Generate an authority key in the HSM and export a wrapped Shamir share.
    fn generate_wrap_seed_share(&self, authority_index: usize, shamir_x: u8, custodian_label: &str) -> Result<HsmWrappedShareFields, CeremonyError>;

    /// Sign a relay admission with an HSM-held authority key.
    fn sign_admission(&self, key_label: &str, record: &RelayRecord) -> Result<AuthorityAdmissionSignature, CeremonyError>;

    /// Verify a wrapped share blob against expected pubkey metadata.
    fn verify_wrapped_share(&self, fields: &HsmWrappedShareFields) -> Result<(), CeremonyError>;
}

/// Operator hint for linking a PKCS#11 / vendor HSM SDK.
pub const HSM_UNAVAILABLE_HINT: &'static str = "PKCS#11 HSM unavailable: install vendor module (SoftHSM2, Luna, YubiHSM, etc.), set AEGIS_PKCS11_MODULE path, link cryptoki/pkcs11 crate, and implement HsmCustodyProvider + Pkcs11CustodyOps. See docs/ops/consortium_key_ceremony.md.";

/// Actionable operator hint for linking a PKCS#11 / vendor HSM SDK.
pub fn hsm_unavailable_hint() -> (r: &'static str)
    ensures
        r == HSM_UNAVAILABLE_HINT,
{
    HSM_UNAVAILABLE_HINT
}

/// The error every hardware entry point answers on this build.
pub open spec fn is_hsm_unavailable(e: CeremonyError) -> bool {
    e matches CeremonyError::HsmUnavailable(m) && m@ == HSM_UNAVAILABLE_HINT@
}

/// Lab/software custody: Shamir split and in-process signing.
pub struct SoftwareCustodyProvider;

impl SoftwareCustodyProvider {
    pub fn new() -> (r: Self) {
        SoftwareCustodyProvider
    }

    pub fn provider_id(&self) -> (r: &'static str)
        ensures
            r == SOFTWARE_CUSTODY_PROVIDER_ID,
    {
        SOFTWARE_CUSTODY_PROVIDER_ID
    }

    /// Split a 32-byte authority seed into Shamir shares.
    pub fn split_seed_shares<R: ByteSource>(&self, seed: &[u8; 32], threshold: usize, share_count: usize, rng: &mut R) -> (r: Result<Vec<SeedShare>, CeremonyError>)
        ensures
            (threshold == 0 || threshold > share_count || share_count > 255) ==> r is Err,
            1 <= threshold <= share_count <= 255 ==> (r matches Ok(v) && v@.len() == share_count),
            r matches Err(e) ==> e is Shamir,
    {
        match split_seed(seed, threshold, share_count, rng) {
            Ok(v) => Ok(v),
            Err(e) => Err(CeremonyError::Shamir(e)),
        }
    }

    /// The ceremony hex text of a share.
    pub fn encode_share_hex(&self, share: &SeedShare) -> (r: String)
        ensures
            r@ == crate::wire::ascii_chars(crate::wire::spec_hex(seq![share.x] + share.y@)),
    {
        encode_share_hex(share)
    }

    /// Sign a relay admission with an in-memory authority key.
    pub fn sign_admission(&self, key: &ConsortiumKey, record: &RelayRecord) -> (r: AuthorityAdmissionSignature)
        ensures
            r.authority_pubkey@ == ed25519_public_of(key.secret()),
            sig_valid(r.authority_pubkey@, *record, r.signature@),
    {
        key.sign_authority(record)
    }

    /// The authority key held as a 32-byte seed.
    pub fn key_from_seed(&self, seed: &[u8; 32]) -> (r: ConsortiumKey)
        ensures
            r.secret() == seed@,
    {
        ConsortiumKey::from_seed(*seed)
    }

    /// Verifying key for a lab-held seed.
    pub fn verifying_key_from_seed(&self, seed: &[u8; 32]) -> (r: [u8; 32])
        ensures
            r@ == ed25519_public_of(seed@),
    {
        self.key_from_seed(seed).verifying_key()
    }
}

impl Default for SoftwareCustodyProvider {
    fn default() -> (r: Self) {
        Self::new()
    }
}

/// HSM custody stub: fails closed until a PKCS#11 / vendor SDK is linked.
pub struct HsmCustodyProvider;

fn hsm_unavailable() -> (e: CeremonyError)
    ensures
        is_hsm_unavailable(e),
{
    CeremonyError::HsmUnavailable(owned(HSM_UNAVAILABLE_HINT))
}

impl HsmCustodyProvider {
    /// Probe for HSM availability; always fails on this build.
    pub fn try_new() -> (r: Result<Self, CeremonyError>)
        ensures
            r matches Err(e) && is_hsm_unavailable(e),
    {
        Err(hsm_unavailable())
    }
}

impl Pkcs11CustodyOps for HsmCustodyProvider {
    fn provider_id(&self) -> (r: &'static str)
        ensures
            r == HSM_CUSTODY_PROVIDER_ID,
    {
        HSM_CUSTODY_PROVIDER_ID
    }

    fn list_slots(&self) -> (r: Result<Vec<HsmSlotInfo>, CeremonyError>)
        ensures
            r matches Err(e) && is_hsm_unavailable(e),
    {
        Err(hsm_unavailable())
    }

    fn generate_wrap_seed_share(&self, authority_index: usize, shamir_x: u8, custodian_label: &str) -> (r: Result<HsmWrappedShareFields, CeremonyError>)
        ensures
            r matches Err(e) && is_hsm_unavailable(e),
    {
        Err(hsm_unavailable())
    }

    fn sign_admission(&self, key_label: &str, record: &RelayRecord) -> (r: Result<AuthorityAdmissionSignature, CeremonyError>)
        ensures
            r matches Err(e) && is_hsm_unavailable(e),
    {
        Err(hsm_unavailable())
    }

    fn verify_wrapped_share(&self, fields: &HsmWrappedShareFields) -> (r: Result<(), CeremonyError>)
        ensures
            r matches Err(e) && is_hsm_unavailable(e),
    {
        Err(hsm_unavailable())
    }
}

/// Pick a ceremony custody backend: software, or the hardware probe (which fails
/// closed on this build).
pub fn select_ceremony_custody(mode: CeremonyCustodyMode) -> (r: Result<SoftwareCustodyProvider, CeremonyError>)
    ensures
        mode == CeremonyCustodyMode::Software ==> r is Ok,
        mode == CeremonyCustodyMode::Hardware ==> (r matches Err(e) && is_hsm_unavailable(e)),
{
    match mode {
        CeremonyCustodyMode::Software => Ok(SoftwareCustodyProvider::new()),
        CeremonyCustodyMode::Hardware => {
            match HsmCustodyProvider::try_new() {
                Err(e) => Err(e),
                Ok(_) => Err(hsm_unavailable()),
            }
        },
    }
}

} // verus!
