//! Core identity and configuration types of the topology: relay ids, jurisdiction
//! labels, KEM commitments and relay records.
use vstd::prelude::*;

use crate::crypto::{sha3_256, sha3_256_of};
use crate::wire::{bytes_eq, extend_bytes};

verus! {

/// Domain separation tag for `RelayId::from_kem_commitment` (`aegis-relay-id-v1`).
pub const RELAY_ID_DOMAIN: [u8; 17] = [
    97, 101, 103, 105, 115, 45, 114, 101, 108, 97, 121, 45, 105, 100, 45, 118, 49,
];

/// The relay id bound to a KEM commitment: `SHA3-256(RELAY_ID_DOMAIN || commitment)`.
pub open spec fn relay_id_of(commitment: Seq<u8>) -> Seq<u8> {
    sha3_256_of(RELAY_ID_DOMAIN@ + commitment)
}

/// Stable relay identity (32 bytes).
#[derive(Clone, Copy, PartialEq, Eq, Hash, PartialOrd, Ord, Debug)]
pub struct RelayId(pub [u8; 32]);

impl RelayId {
    /// Fixture identity: the little-endian bytes of `n`, then zeros (not KEM-bound).
    pub fn from_u64(n: u64) -> (r: Self)
        ensures
            r.0@ == vstd::bytes::spec_u64_to_le_bytes(n) + Seq::new(24, |i: int| 0u8),
    {
        let le = vstd::bytes::u64_to_le_bytes(n);
        let mut bytes = [0u8; 32];
        let mut i: usize = 0;
        while i < 8
            invariant
                le@.len() == 8,
                i <= 8,
                forall|j: int| 0 <= j < i ==> bytes@[j] == le@[j],
                forall|j: int| 8 <= j < 32 ==> bytes@[j] == 0u8,
            decreases 8 - i,
        {
            bytes[i] = le[i];
            i = i + 1;
        }
        proof {
            vstd::bytes::lemma_auto_spec_u64_to_from_le_bytes();
            assert(bytes@ =~= vstd::bytes::spec_u64_to_le_bytes(n) + Seq::new(24, |i: int| 0u8));
        }
        RelayId(bytes)
    }

    /// Id derived from a KEM commitment: `SHA3-256(RELAY_ID_DOMAIN || commitment)`.
    pub fn from_kem_commitment(commitment: KemPublicCommitment) -> (r: Self)
        ensures
            r.0@ == relay_id_of(commitment.0@),
    {
        let mut msg: Vec<u8> = Vec::new();
        extend_bytes(&mut msg, RELAY_ID_DOMAIN.as_slice());
        extend_bytes(&mut msg, commitment.0.as_slice());
        RelayId(sha3_256(msg.as_slice()))
    }

    /// Raw 32-byte identity.
    pub fn as_bytes(&self) -> (r: &[u8; 32])
        ensures
            *r == self.0,
    {
        &self.0
    }
}

/// Byte equality of two relay ids.
pub fn same_id(a: &RelayId, b: &RelayId) -> (r: bool)
    ensures
        r == (a.0@ == b.0@),
{
    bytes_eq(a.0.as_slice(), b.0.as_slice())
}

/// `id` occurs (by its bytes) in `ids`.
pub open spec fn listed(ids: Seq<RelayId>, id: Seq<u8>) -> bool {
    exists|i: int| 0 <= i < ids.len() && (#[trigger] ids[i]).0@ == id
}

/// Whether `id` occurs in `ids`.
pub fn is_listed(ids: &[RelayId], id: &RelayId) -> (r: bool)
    ensures
        r == listed(ids@, id.0@),
{
    let mut i: usize = 0;
    while i < ids.len()
        invariant
            i <= ids@.len(),
            forall|k: int| 0 <= k < i ==> (#[trigger] ids@[k]).0@ != id.0@,
        decreases ids@.len() - i,
    {
        if same_id(&ids[i], id) {
            return true;
        }
        i = i + 1;
    }
    false
}

/// ISO-style jurisdiction label for diversity checks (e.g. `"US"`, `"DE"`).
#[derive(Clone, PartialEq, Eq, Hash, Debug)]
pub struct JurisdictionId(pub String);

impl JurisdictionId {
    pub fn new(id: String) -> (r: Self)
        ensures
            r.0@ == id@,
    {
        JurisdictionId(id)
    }

    /// An equal copy of this label.
    pub fn duplicate(&self) -> (r: Self)
        ensures
            r.0@ == self.0@,
    {
        JurisdictionId(self.0.clone())
    }
}

/// SHA3-256 commitment to a relay's KEM public key at admission time.
#[derive(Clone, Copy, PartialEq, Eq, Hash, Debug)]
pub struct KemPublicCommitment(pub [u8; 32]);

/// Metadata for a permissioned relay on the admission roster.
#[derive(Clone, Debug, PartialEq, Eq)]
pub struct RelayRecord {
    pub id: RelayId,
    pub jurisdiction: JurisdictionId,
    /// SHA3-256 commitment to the relay's long-term KEM public key.
    pub kem_public_commitment: KemPublicCommitment,
}

/// Field-wise equality of two records as plain values.
pub open spec fn same_record(a: RelayRecord, b: RelayRecord) -> bool {
    &&& a.id == b.id
    &&& a.jurisdiction.0@ == b.jurisdiction.0@
    &&& a.kem_public_commitment == b.kem_public_commitment
}

impl RelayRecord {
    /// Production-shaped record: the id is derived from the commitment.
    pub fn from_kem_commitment(jurisdiction: JurisdictionId, commitment: KemPublicCommitment) -> (r: Self)
        ensures
            r.id.0@ == relay_id_of(commitment.0@),
            r.jurisdiction.0@ == jurisdiction.0@,
            r.kem_public_commitment == commitment,
    {
        RelayRecord {
            id: RelayId::from_kem_commitment(commitment),
            jurisdiction,
            kem_public_commitment: commitment,
        }
    }

    /// True when `id` equals the id derived from the record's commitment.
    pub fn id_matches_kem_commitment(&self) -> (r: bool)
        ensures
            r == (self.id.0@ == relay_id_of(self.kem_public_commitment.0@)),
    {
        let derived = RelayId::from_kem_commitment(self.kem_public_commitment);
        same_id(&self.id, &derived)
    }

    /// True when `commitment` is the one committed at admission.
    pub fn binds_kem_commitment(&self, commitment: &KemPublicCommitment) -> (r: bool)
        ensures
            r == (self.kem_public_commitment.0@ == commitment.0@),
    {
        bytes_eq(self.kem_public_commitment.0.as_slice(), commitment.0.as_slice())
    }

    /// An equal copy of this record.
    pub fn duplicate(&self) -> (r: Self)
        ensures
            same_record(r, *self),
    {
        RelayRecord {
            id: self.id,
            jurisdiction: self.jurisdiction.duplicate(),
            kem_public_commitment: self.kem_public_commitment,
        }
    }
}

/// Fixture seed of test relay `id`: its little-endian bytes, then zeros.
pub open spec fn fixture_seed(id: u64) -> Seq<u8> {
    vstd::bytes::spec_u64_to_le_bytes(id) + Seq::new(24, |i: int| 0u8)
}

/// Deterministic fixture KEM commitment for test relay `id`: SHA3-256 of its fixture seed.
pub fn test_kem_commitment_for_id(id: u64) -> (r: KemPublicCommitment)
    ensures
        r.0@ == sha3_256_of(fixture_seed(id)),
{
    let seed = RelayId::from_u64(id);
    KemPublicCommitment(sha3_256(seed.0.as_slice()))
}

/// Commitment-derived `RelayId` of fixture relay `id`.
pub fn test_relay_id(id: u64) -> (r: RelayId)
    ensures
        r.0@ == relay_id_of(sha3_256_of(fixture_seed(id))),
{
    RelayId::from_kem_commitment(test_kem_commitment_for_id(id))
}

/// Fixture record with a commitment-derived id.
pub fn test_relay_record(id: u64, jurisdiction: &str) -> (r: RelayRecord)
    ensures
        r.id.0@ == relay_id_of(sha3_256_of(fixture_seed(id))),
        r.jurisdiction.0@ == jurisdiction@,
        r.kem_public_commitment.0@ == sha3_256_of(fixture_seed(id)),
{
    RelayRecord::from_kem_commitment(
        JurisdictionId::new(crate::text::owned(jurisdiction)),
        test_kem_commitment_for_id(id),
    )
}

/// Stratified layer count (hops per path).
#[derive(Clone, Copy, Debug, PartialEq, Eq)]
pub struct TopologyConfig {
    pub layer_count: usize,
}

impl TopologyConfig {
    /// Default: 4 layers (high threat).
    pub fn default_config() -> (r: Self)
        ensures
            r.layer_count == 4,
    {
        TopologyConfig { layer_count: 4 }
    }

    pub fn high_threat() -> (r: Self)
        ensures
            r.layer_count == 4,
    {
        Self::default_config()
    }

    pub fn standard() -> (r: Self)
        ensures
            r.layer_count == 3,
    {
        TopologyConfig { layer_count: 3 }
    }
}

impl Default for TopologyConfig {
    fn default() -> (r: Self)
        ensures
            r.layer_count == 4,
    {
        Self::default_config()
    }
}

} // verus!
