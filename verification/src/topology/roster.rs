//! Permissioned relay admission: M-of-N consortium authority signatures over each
//! relay record (including the KEM commitment), and the admission roster with its
//! rate limit.
use vstd::prelude::*;
use vstd::utf8::encode_utf8;

use crate::crypto::{
    ed25519_accepts, ed25519_decodes, ed25519_key_decodes, ed25519_public_key, ed25519_public_of,
    ed25519_sign, ed25519_verify,
};
use crate::clock::unix_now_secs;
use crate::rng::os_random_32;
use crate::topology::error::RosterError;
use crate::topology::types::{RelayId, RelayRecord, is_listed, listed, same_record};
use crate::wire::{bytes_eq, compare_32, copy_64, extend_bytes, lemma_lex_lt_asym, lemma_lex_lt_trans, lemma_lex_total, lex_lt};

verus! {

/// Canonical bytes signed by the authorities: id, jurisdiction text, commitment.
pub open spec fn spec_canonical_record(record: RelayRecord) -> Seq<u8> {
    record.id.0@ + encode_utf8(record.jurisdiction.0@) + record.kem_public_commitment.0@
}

/// Canonical byte encoding signed by consortium admission authorities.
pub fn canonical_record_bytes(record: &RelayRecord) -> (r: Vec<u8>)
    ensures
        r@ == spec_canonical_record(*record),
{
    let mut bytes: Vec<u8> = Vec::new();
    extend_bytes(&mut bytes, record.id.0.as_slice());
    extend_bytes(&mut bytes, record.jurisdiction.0.as_str().as_bytes());
    extend_bytes(&mut bytes, record.kem_public_commitment.0.as_slice());
    bytes
}

/// Whether `sig` is a well-formed (64-byte) Ed25519 signature by `pubkey` over the record.
pub open spec fn sig_valid(pubkey: Seq<u8>, record: RelayRecord, sig: Seq<u8>) -> bool {
    sig.len() == 64 && ed25519_accepts(pubkey, spec_canonical_record(record), sig)
}

/// Consortium admission authority: holds the Ed25519 secret seed and signs admissions.
#[derive(Clone)]
pub struct ConsortiumKey {
    seed: [u8; 32],
}

impl ConsortiumKey {
    /// The secret seed (for contracts).
    pub closed spec fn secret(&self) -> Seq<u8> {
        self.seed@
    }

    /// A fresh key from operating-system randomness.
    pub fn generate() -> (r: Self) {
        ConsortiumKey { seed: os_random_32() }
    }

    /// Key from an existing 32-byte secret seed.
    pub fn from_seed(seed: [u8; 32]) -> (r: Self)
        ensures
            r.secret() == seed@,
    {
        ConsortiumKey { seed }
    }

    /// Verifying key bytes.
    pub fn verifying_key(&self) -> (r: [u8; 32])
        ensures
            r@ == ed25519_public_of(self.secret()),
            ed25519_key_decodes(r@),
    {
        ed25519_public_key(&self.seed)
    }

    /// One authority signature over `record`; it verifies under this key.
    pub fn sign_authority(&self, record: &RelayRecord) -> (r: AuthorityAdmissionSignature)
        ensures
            r.authority_pubkey@ == ed25519_public_of(self.secret()),
            sig_valid(r.authority_pubkey@, *record, r.signature@),
    {
        let msg = canonical_record_bytes(record);
        let sig = ed25519_sign(&self.seed, msg.as_slice());
        let mut signature: Vec<u8> = Vec::new();
        extend_bytes(&mut signature, sig.as_slice());
        AuthorityAdmissionSignature { authority_pubkey: self.verifying_key(), signature }
    }

    /// Single-authority (1-of-1) signed record.
    pub fn sign_record(&self, record: &RelayRecord) -> (r: SignedRelayRecord)
        ensures
            same_record(r.record, *record),
            r.authority_pubkey@ == ed25519_public_of(self.secret()),
            sig_valid(r.authority_pubkey@, *record, r.signature@),
    {
        let authority = self.sign_authority(record);
        SignedRelayRecord {
            record: record.duplicate(),
            signature: authority.signature,
            authority_pubkey: authority.authority_pubkey,
        }
    }
}

/// One consortium authority's Ed25519 signature over a relay admission record.
#[derive(Clone, Debug, PartialEq, Eq)]
pub struct AuthorityAdmissionSignature {
    pub authority_pubkey: [u8; 32],
    pub signature: Vec<u8>,
}

/// Check of one signature against an authority key: the key must be the embedded
/// one, the signature 64 bytes and valid over the record.
pub open spec fn spec_check_sig(pubkey: Seq<u8>, sig: Seq<u8>, record: RelayRecord, authority: Seq<u8>) -> Result<(), RosterError> {
    if pubkey != authority {
        Err(RosterError::AuthorityMismatch)
    } else if !sig_valid(authority, record, sig) {
        Err(RosterError::InvalidSignature { relay: record.id })
    } else {
        Ok(())
    }
}

fn check_sig(pubkey: &[u8; 32], sig: &Vec<u8>, record: &RelayRecord, authority: &[u8; 32]) -> (r: Result<(), RosterError>)
    ensures
        r == spec_check_sig(pubkey@, sig@, *record, authority@),
{
    if !bytes_eq(pubkey.as_slice(), authority.as_slice()) {
        return Err(RosterError::AuthorityMismatch);
    }
    if sig.len() != 64 {
        return Err(RosterError::InvalidSignature { relay: record.id });
    }
    let s = copy_64(sig.as_slice());
    let msg = canonical_record_bytes(record);
    if ed25519_verify(authority, msg.as_slice(), &s) {
        Ok(())
    } else {
        Err(RosterError::InvalidSignature { relay: record.id })
    }
}

impl AuthorityAdmissionSignature {
    /// Verify against `authority` (must equal the embedded key).
    pub fn verify(&self, record: &RelayRecord, authority: &[u8; 32]) -> (r: Result<(), RosterError>)
        ensures
            r == spec_check_sig(self.authority_pubkey@, self.signature@, *record, authority@),
    {
        check_sig(&self.authority_pubkey, &self.signature, record, authority)
    }
}

/// A relay admission record plus its single consortium authority signature (1-of-1).
#[derive(Clone, Debug, PartialEq, Eq)]
pub struct SignedRelayRecord {
    pub record: RelayRecord,
    pub signature: Vec<u8>,
    pub authority_pubkey: [u8; 32],
}

impl SignedRelayRecord {
    /// Verify the signature against `authority_pubkey` (must match the embedded key).
    pub fn verify(&self, authority_pubkey: &[u8; 32]) -> (r: Result<(), RosterError>)
        ensures
            r == spec_check_sig(self.authority_pubkey@, self.signature@, self.record, authority_pubkey@),
    {
        check_sig(&self.authority_pubkey, &self.signature, &self.record, authority_pubkey)
    }

    /// Lift to threshold form: the one signature becomes the list.
    pub fn into_threshold(self) -> (r: ThresholdSignedRelayRecord)
        ensures
            r.record == self.record,
            r.signatures@.len() == 1,
            r.signatures@[0].authority_pubkey == self.authority_pubkey,
            r.signatures@[0].signature@ == self.signature@,
    {
        let mut signatures: Vec<AuthorityAdmissionSignature> = Vec::new();
        signatures.push(AuthorityAdmissionSignature {
            authority_pubkey: self.authority_pubkey,
            signature: self.signature,
        });
        ThresholdSignedRelayRecord { record: self.record, signatures }
    }
}

/// A relay admission record plus M-of-N consortium authority signatures.
#[derive(Clone, Debug, PartialEq, Eq)]
pub struct ThresholdSignedRelayRecord {
    pub record: RelayRecord,
    pub signatures: Vec<AuthorityAdmissionSignature>,
}

/// Configured M-of-N consortium admission authorities.
#[derive(Clone, Debug, PartialEq, Eq)]
pub struct ThresholdConsortium {
    pub threshold: usize,
    authorities: Vec<[u8; 32]>,
}

/// The keys of a list of authorities.
pub open spec fn key_seq(v: Seq<[u8; 32]>) -> Seq<Seq<u8>> {
    v.map_values(|k: [u8; 32]| k@)
}

/// No key occurs twice.
pub open spec fn distinct_keys(ks: Seq<Seq<u8>>) -> bool {
    forall|i: int, j: int| 0 <= i < j < ks.len() ==> ks[i] != ks[j]
}

impl ThresholdConsortium {
    /// Signatures needed.
    pub closed spec fn need(&self) -> usize {
        self.threshold
    }

    /// The configured authority keys, in order.
    pub closed spec fn keys(&self) -> Seq<Seq<u8>> {
        key_seq(self.authorities@)
    }

    /// Well-formed: distinct decodable keys, `1 <= threshold <= n`.
    pub closed spec fn wf(&self) -> bool {
        &&& distinct_keys(self.keys())
        &&& forall|i: int| 0 <= i < self.keys().len() ==> ed25519_key_decodes(#[trigger] self.keys()[i])
        &&& 1 <= self.threshold <= self.keys().len()
    }

    /// Build an M-of-N consortium (non-empty, `1 <= m <= n`, distinct decodable keys).
    pub fn new(threshold: usize, authorities: Vec<[u8; 32]>) -> (r: Result<Self, RosterError>)
        ensures
            authorities@.len() == 0 ==> r == Err::<Self, RosterError>(RosterError::InsufficientSignatures {
                got: 0,
                need: if threshold > 1 { threshold } else { 1 },
            }),
            authorities@.len() > 0 && (threshold == 0 || threshold > authorities@.len()) ==> r == Err::<Self, RosterError>(
                RosterError::InsufficientSignatures { got: authorities@.len() as usize, need: threshold }),
            authorities@.len() > 0 && 1 <= threshold <= authorities@.len() ==> {
                if exists|i: int| 0 <= i < authorities@.len() && !ed25519_key_decodes(#[trigger] authorities@[i]@) {
                    r == Err::<Self, RosterError>(RosterError::InvalidAuthorityPubkey)
                } else if !distinct_keys(key_seq(authorities@)) {
                    r == Err::<Self, RosterError>(RosterError::DuplicateAuthority)
                } else {
                    r matches Ok(c) && c.wf() && c.need() == threshold && c.keys() == key_seq(authorities@)
                }
            },
    {
        let n = authorities.len();
        if n == 0 {
            let need = if threshold > 1 { threshold } else { 1 };
            return Err(RosterError::InsufficientSignatures { got: 0, need });
        }
        if threshold == 0 || threshold > n {
            return Err(RosterError::InsufficientSignatures { got: n, need: threshold });
        }
        let mut i: usize = 0;
        while i < n
            invariant
                n == authorities@.len(),
                1 <= threshold <= n,
                i <= n,
                forall|k: int| 0 <= k < i ==> ed25519_key_decodes(#[trigger] authorities@[k]@),
            decreases n - i,
        {
            if !ed25519_decodes(&authorities[i]) {
                return Err(RosterError::InvalidAuthorityPubkey);
            }
            i = i + 1;
        }
        let mut a: usize = 0;
        while a < n
            invariant
                n == authorities@.len(),
                1 <= threshold <= n,
                forall|k: int| 0 <= k < n ==> ed25519_key_decodes(#[trigger] authorities@[k]@),
                a <= n,
                forall|p: int, q: int| 0 <= p < q < n && p < a ==> authorities@[p]@ != authorities@[q]@,
            decreases n - a,
        {
            let mut b: usize = a + 1;
            while b < n
                invariant
                    n == authorities@.len(),
                    1 <= threshold <= n,
                    forall|k: int| 0 <= k < n ==> ed25519_key_decodes(#[trigger] authorities@[k]@),
                    a < n,
                    a < b <= n,
                    forall|q: int| a < q < b ==> authorities@[a as int]@ != authorities@[q]@,
                decreases n - b,
            {
                if bytes_eq(authorities[a].as_slice(), authorities[b].as_slice()) {
                    proof {
                        let ks = key_seq(authorities@);
                        assert(ks[a as int] == ks[b as int]);
                    }
                    return Err(RosterError::DuplicateAuthority);
                }
                b = b + 1;
            }
            a = a + 1;
        }
        let c = ThresholdConsortium { threshold, authorities };
        proof {
            let ks = key_seq(c.authorities@);
            assert forall|p: int, q: int| 0 <= p < q < ks.len() implies ks[p] != ks[q] by {
                assert(ks[p] == c.authorities@[p]@);
            }
            assert forall|k: int| 0 <= k < ks.len() implies ed25519_key_decodes(#[trigger] ks[k]) by {
                assert(ks[k] == c.authorities@[k]@);
            }
        }
        Ok(c)
    }

    /// 1-of-1 consortium for dev / single-key admission.
    pub fn single(authority: [u8; 32]) -> (r: Self)
        requires
            ed25519_key_decodes(authority@),
        ensures
            r.wf(),
            r.need() == 1,
            r.keys() == seq![authority@],
    {
        let mut authorities: Vec<[u8; 32]> = Vec::new();
        authorities.push(authority);
        let c = ThresholdConsortium { threshold: 1, authorities };
        proof {
            assert(key_seq(c.authorities@) =~= seq![authority@]);
        }
        c
    }

    /// All configured verifying keys (insertion order).
    pub fn authorities(&self) -> (r: &[[u8; 32]])
        ensures
            key_seq(r@) == self.keys(),
    {
        self.authorities.as_slice()
    }

    /// The configured key equal to `pubkey`, if any.
    pub fn authority_for_pubkey(&self, pubkey: &[u8; 32]) -> (r: Option<[u8; 32]>)
        ensures
            r is Some <==> self.keys().contains(pubkey@),
            r matches Some(k) ==> k@ == pubkey@,
    {
        let mut i: usize = 0;
        while i < self.authorities.len()
            invariant
                i <= self.authorities@.len(),
                forall|k: int| 0 <= k < i ==> self.authorities@[k]@ != pubkey@,
            decreases self.authorities@.len() - i,
        {
            if bytes_eq(self.authorities[i].as_slice(), pubkey.as_slice()) {
                proof {
                    assert(self.keys()[i as int] == pubkey@);
                }
                return Some(self.authorities[i]);
            }
            i = i + 1;
        }
        proof {
            if self.keys().contains(pubkey@) {
                let k = choose|k: int| 0 <= k < self.keys().len() && self.keys()[k] == pubkey@;
                assert(self.authorities@[k]@ == pubkey@);
            }
        }
        None
    }
}


/// The signatures of a list as plain values (authority key, signature bytes).
pub open spec fn sig_views(s: Seq<AuthorityAdmissionSignature>) -> Seq<(Seq<u8>, Seq<u8>)> {
    s.map_values(|x: AuthorityAdmissionSignature| sig_view(x))
}

/// Whether `sig` is a well-formed (64-byte) Ed25519 signature by `pubkey` over `msg`.
pub open spec fn sig_valid_msg(pubkey: Seq<u8>, msg: Seq<u8>, sig: Seq<u8>) -> bool {
    sig.len() == 64 && ed25519_accepts(pubkey, msg, sig)
}

/// Authority keys counted while scanning the first `k` signatures over `msg`: a key
/// already counted is skipped, an unknown key or an invalid signature stops the scan.
pub open spec fn threshold_scan(
    sigs: Seq<(Seq<u8>, Seq<u8>)>,
    msg: Seq<u8>,
    relay: RelayId,
    keys: Seq<Seq<u8>>,
    k: nat,
) -> Result<Seq<Seq<u8>>, RosterError>
    decreases k,
{
    if k == 0 {
        Ok(Seq::empty())
    } else {
        match threshold_scan(sigs, msg, relay, keys, (k - 1) as nat) {
            Err(e) => Err(e),
            Ok(seen) => {
                let pk = sigs[k - 1].0;
                if seen.contains(pk) {
                    Ok(seen)
                } else if !keys.contains(pk) {
                    Err(RosterError::UnknownAuthority)
                } else if !sig_valid_msg(pk, msg, sigs[k - 1].1) {
                    Err(RosterError::InvalidSignature { relay })
                } else {
                    Ok(seen.push(pk))
                }
            },
        }
    }
}

/// What threshold verification answers for signatures over `msg` (the canonical
/// bytes of the record of relay `relay`).
pub open spec fn spec_verify_threshold(
    sigs: Seq<(Seq<u8>, Seq<u8>)>,
    msg: Seq<u8>,
    relay: RelayId,
    keys: Seq<Seq<u8>>,
    need: usize,
) -> Result<(), RosterError> {
    match threshold_scan(sigs, msg, relay, keys, sigs.len()) {
        Err(e) => Err(e),
        Ok(seen) => if seen.len() < need {
            Err(RosterError::InsufficientSignatures { got: seen.len() as usize, need })
        } else {
            Ok(())
        },
    }
}

/// `sigs` holds a valid signature over `msg` by authority `key`.
pub open spec fn signed_by(sigs: Seq<(Seq<u8>, Seq<u8>)>, msg: Seq<u8>, key: Seq<u8>) -> bool {
    exists|i: int| 0 <= i < sigs.len() && (#[trigger] sigs[i]).0 == key && sig_valid_msg(key, msg, sigs[i].1)
}

/// A quorum: `need` distinct configured authorities that each signed `msg`.
pub open spec fn quorum_signed(sigs: Seq<(Seq<u8>, Seq<u8>)>, msg: Seq<u8>, keys: Seq<Seq<u8>>, need: nat) -> bool {
    exists|ks: Seq<Seq<u8>>| ks.len() >= need && distinct_keys(ks)
        && forall|i: int| 0 <= i < ks.len() ==> keys.contains(#[trigger] ks[i]) && signed_by(sigs, msg, ks[i])
}

/// The keys the scan counted are distinct configured authorities that signed.
proof fn lemma_scan_counts_signers(sigs: Seq<(Seq<u8>, Seq<u8>)>, msg: Seq<u8>, relay: RelayId, keys: Seq<Seq<u8>>, k: nat)
    requires
        k <= sigs.len(),
        threshold_scan(sigs, msg, relay, keys, k) is Ok,
    ensures
        ({
            let seen = threshold_scan(sigs, msg, relay, keys, k)->Ok_0;
            &&& distinct_keys(seen)
            &&& forall|i: int| 0 <= i < seen.len() ==> keys.contains(#[trigger] seen[i]) && signed_by(sigs, msg, seen[i])
        }),
    decreases k,
{
    if k > 0 {
        lemma_scan_counts_signers(sigs, msg, relay, keys, (k - 1) as nat);
        let prev = threshold_scan(sigs, msg, relay, keys, (k - 1) as nat)->Ok_0;
        let pk = sigs[k - 1].0;
        if !prev.contains(pk) {
            let seen = prev.push(pk);
            assert forall|i: int| 0 <= i < seen.len() implies keys.contains(#[trigger] seen[i]) && signed_by(sigs, msg, seen[i]) by {
                if i < prev.len() {
                    assert(seen[i] == prev[i]);
                } else {
                    assert(sigs[k - 1].0 == seen[i]);
                }
            }
            assert forall|a: int, b: int| 0 <= a < b < seen.len() implies seen[a] != seen[b] by {
                if b == prev.len() {
                    assert(seen[a] == prev[a]);
                }
            }
        }
    }
}

proof fn lemma_scan_stays_err(sigs: Seq<(Seq<u8>, Seq<u8>)>, msg: Seq<u8>, relay: RelayId, keys: Seq<Seq<u8>>, k: nat)
    requires
        k <= sigs.len(),
        threshold_scan(sigs, msg, relay, keys, k) is Err,
    ensures
        threshold_scan(sigs, msg, relay, keys, sigs.len()) == threshold_scan(sigs, msg, relay, keys, k),
    decreases sigs.len() - k,
{
    if k < sigs.len() {
        lemma_scan_stays_err(sigs, msg, relay, keys, k + 1);
    }
}

fn list_has_key(list: &Vec<[u8; 32]>, key: &[u8; 32]) -> (r: bool)
    ensures
        r == key_seq(list@).contains(key@),
{
    let mut i: usize = 0;
    while i < list.len()
        invariant
            i <= list@.len(),
            forall|k: int| 0 <= k < i ==> list@[k]@ != key@,
        decreases list@.len() - i,
    {
        if bytes_eq(list[i].as_slice(), key.as_slice()) {
            proof { assert(key_seq(list@)[i as int] == key@); }
            return true;
        }
        i = i + 1;
    }
    proof {
        if key_seq(list@).contains(key@) {
            let k = choose|k: int| 0 <= k < key_seq(list@).len() && key_seq(list@)[k] == key@;
            assert(list@[k]@ == key@);
        }
    }
    false
}

impl ThresholdSignedRelayRecord {
    pub fn new(record: RelayRecord) -> (r: Self)
        ensures
            r.record == record,
            r.signatures@.len() == 0,
    {
        ThresholdSignedRelayRecord { record, signatures: Vec::new() }
    }

    /// The same record with `signature` appended.
    pub fn with_signature(self, signature: AuthorityAdmissionSignature) -> (r: Self)
        ensures
            r.record == self.record,
            r.signatures@ == self.signatures@.push(signature),
    {
        let mut s = self;
        s.signatures.push(signature);
        s
    }

    /// Verify at least `threshold` distinct valid signatures from configured
    /// authorities; success means such a quorum signed the record.
    pub fn verify_threshold(&self, consortium: &ThresholdConsortium) -> (r: Result<(), RosterError>)
        ensures
            r == spec_verify_threshold(sig_views(self.signatures@), spec_canonical_record(self.record), self.record.id,
                consortium.keys(), consortium.need()),
            r is Ok ==> quorum_signed(sig_views(self.signatures@), spec_canonical_record(self.record), consortium.keys(),
                consortium.need() as nat),
    {
        let ghost sv = sig_views(self.signatures@);
        let ghost msg = spec_canonical_record(self.record);
        let ghost relay = self.record.id;
        let mut seen: Vec<[u8; 32]> = Vec::new();
        proof { assert(key_seq(seen@) =~= Seq::<Seq<u8>>::empty()); }
        let n = self.signatures.len();
        let mut k: usize = 0;
        while k < n
            invariant
                n == self.signatures@.len(),
                sv == sig_views(self.signatures@),
                msg == spec_canonical_record(self.record),
                relay == self.record.id,
                k <= n,
                threshold_scan(sv, msg, relay, consortium.keys(), k as nat) == Ok::<Seq<Seq<u8>>, RosterError>(key_seq(seen@)),
                seen@.len() <= k,
            decreases n - k,
        {
            let sig = &self.signatures[k];
            proof {
                assert(sv[k as int] == sig_view(*sig));
            }
            if list_has_key(&seen, &sig.authority_pubkey) {
                proof {
                    assert(threshold_scan(sv, msg, relay, consortium.keys(), (k + 1) as nat)
                        == Ok::<Seq<Seq<u8>>, RosterError>(key_seq(seen@)));
                }
                k = k + 1;
                continue;
            }
            let authority = match consortium.authority_for_pubkey(&sig.authority_pubkey) {
                Some(a) => a,
                None => {
                    proof { lemma_scan_stays_err(sv, msg, relay, consortium.keys(), (k + 1) as nat); }
                    return Err(RosterError::UnknownAuthority);
                },
            };
            match sig.verify(&self.record, &authority) {
                Ok(()) => {},
                Err(e) => {
                    proof { lemma_scan_stays_err(sv, msg, relay, consortium.keys(), (k + 1) as nat); }
                    return Err(e);
                },
            }
            let ghost old_seen = key_seq(seen@);
            seen.push(sig.authority_pubkey);
            proof {
                assert(key_seq(seen@) =~= old_seen.push(sig.authority_pubkey@));
                assert(threshold_scan(sv, msg, relay, consortium.keys(), (k + 1) as nat)
                    == Ok::<Seq<Seq<u8>>, RosterError>(old_seen.push(sig.authority_pubkey@)));
            }
            k = k + 1;
        }
        proof {
            lemma_scan_counts_signers(sv, msg, relay, consortium.keys(), n as nat);
        }
        if seen.len() < consortium.threshold {
            return Err(RosterError::InsufficientSignatures { got: seen.len(), need: consortium.threshold });
        }
        proof {
            let ks = key_seq(seen@);
            assert(ks.len() >= consortium.need());
        }
        Ok(())
    }
}

/// A record as plain values: id bytes, jurisdiction text, commitment bytes.
pub open spec fn record_view(r: RelayRecord) -> (Seq<u8>, Seq<char>, Seq<u8>) {
    (r.id.0@, r.jurisdiction.0@, r.kem_public_commitment.0@)
}

/// A signature as plain values: authority key, signature bytes.
pub open spec fn sig_view(s: AuthorityAdmissionSignature) -> (Seq<u8>, Seq<u8>) {
    (s.authority_pubkey@, s.signature@)
}

/// A threshold admission as plain values.
pub open spec fn threshold_view(t: ThresholdSignedRelayRecord) -> ((Seq<u8>, Seq<char>, Seq<u8>), Seq<(Seq<u8>, Seq<u8>)>) {
    (record_view(t.record), sig_views(t.signatures@))
}

/// A single-signature admission as plain values.
pub open spec fn signed_view(t: SignedRelayRecord) -> ((Seq<u8>, Seq<char>, Seq<u8>), Seq<u8>, Seq<u8>) {
    (record_view(t.record), t.signature@, t.authority_pubkey@)
}

impl AuthorityAdmissionSignature {
    /// An equal copy.
    pub fn duplicate(&self) -> (r: Self)
        ensures
            sig_view(r) == sig_view(*self),
    {
        let mut signature: Vec<u8> = Vec::new();
        extend_bytes(&mut signature, self.signature.as_slice());
        AuthorityAdmissionSignature { authority_pubkey: self.authority_pubkey, signature }
    }
}

impl ThresholdSignedRelayRecord {
    /// An equal copy.
    pub fn duplicate(&self) -> (r: Self)
        ensures
            threshold_view(r) == threshold_view(*self),
            same_record(r.record, self.record),
    {
        let mut signatures: Vec<AuthorityAdmissionSignature> = Vec::new();
        let mut i: usize = 0;
        while i < self.signatures.len()
            invariant
                i <= self.signatures@.len(),
                signatures@.len() == i,
                forall|k: int| 0 <= k < i ==> sig_view(#[trigger] signatures@[k]) == sig_view(self.signatures@[k]),
            decreases self.signatures@.len() - i,
        {
            signatures.push(self.signatures[i].duplicate());
            i = i + 1;
        }
        let r = ThresholdSignedRelayRecord { record: self.record.duplicate(), signatures };
        proof {
            assert(r.signatures@.map_values(|s: AuthorityAdmissionSignature| sig_view(s))
                =~= self.signatures@.map_values(|s: AuthorityAdmissionSignature| sig_view(s)));
        }
        r
    }
}

impl SignedRelayRecord {
    /// An equal copy.
    pub fn duplicate(&self) -> (r: Self)
        ensures
            signed_view(r) == signed_view(*self),
            same_record(r.record, self.record),
    {
        let mut signature: Vec<u8> = Vec::new();
        extend_bytes(&mut signature, self.signature.as_slice());
        SignedRelayRecord { record: self.record.duplicate(), signature, authority_pubkey: self.authority_pubkey }
    }
}

/// Rate limit for signed relay admissions on one roster (local bookkeeping).
#[derive(Clone, Copy, Debug, PartialEq, Eq)]
pub struct RosterAdmissionPolicy {
    pub max_admissions_per_window: usize,
    /// Window length in seconds.
    pub window_secs: u64,
}

impl RosterAdmissionPolicy {
    /// Default: 5 new admissions per 24 hours.
    pub fn default_policy() -> (r: Self)
        ensures
            r.max_admissions_per_window == 5,
            r.window_secs == 86400,
    {
        RosterAdmissionPolicy { max_admissions_per_window: 5, window_secs: 24 * 60 * 60 }
    }

    /// No practical limit (for tests admitting large honest pools in one batch).
    pub fn permissive_for_tests() -> (r: Self)
        ensures
            r.max_admissions_per_window == usize::MAX,
            r.window_secs == 1,
    {
        RosterAdmissionPolicy { max_admissions_per_window: usize::MAX, window_secs: 1 }
    }
}

impl Default for RosterAdmissionPolicy {
    fn default() -> (r: Self)
        ensures
            r.max_admissions_per_window == 5,
            r.window_secs == 86400,
    {
        Self::default_policy()
    }
}

/// One roster entry: the record and how it was admitted (persisted form).
#[derive(Clone, Debug, PartialEq, Eq)]
pub struct RosterEntry {
    pub record: RelayRecord,
    /// Legacy single-signature admission.
    pub signed_admission: Option<SignedRelayRecord>,
    /// M-of-N threshold admission (preferred persisted form).
    pub threshold_admission: Option<ThresholdSignedRelayRecord>,
}

/// An entry as plain values.
pub open spec fn entry_view(e: RosterEntry) -> (
    (Seq<u8>, Seq<char>, Seq<u8>),
    Option<((Seq<u8>, Seq<char>, Seq<u8>), Seq<u8>, Seq<u8>)>,
    Option<((Seq<u8>, Seq<char>, Seq<u8>), Seq<(Seq<u8>, Seq<u8>)>)>,
) {
    (
        record_view(e.record),
        match e.signed_admission { Some(s) => Some(signed_view(s)), None => None },
        match e.threshold_admission { Some(t) => Some(threshold_view(t)), None => None },
    )
}

/// The admission of an entry in threshold form, as plain values.
pub open spec fn admission_view(e: RosterEntry) -> Option<((Seq<u8>, Seq<char>, Seq<u8>), Seq<(Seq<u8>, Seq<u8>)>)> {
    match e.threshold_admission {
        Some(t) => Some(threshold_view(t)),
        None => match e.signed_admission {
            Some(s) => Some((record_view(s.record), seq![(s.authority_pubkey@, s.signature@)])),
            None => None,
        },
    }
}

impl RosterEntry {
    /// The admission in threshold form (a single signature lifted to a list of one).
    pub fn admission(&self) -> (r: Option<ThresholdSignedRelayRecord>)
        ensures
            match r {
                Some(t) => admission_view(*self) == Some(threshold_view(t)),
                None => admission_view(*self) is None,
            },
            r matches Some(t) ==> (self.threshold_admission matches Some(u) ==> same_record(t.record, u.record)),
            r matches Some(t) ==> (self.threshold_admission is None ==> (self.signed_admission matches Some(u)
                ==> same_record(t.record, u.record))),
    {
        match &self.threshold_admission {
            Some(t) => Some(t.duplicate()),
            None => match &self.signed_admission {
                Some(s) => {
                    let t = s.duplicate().into_threshold();
                    proof {
                        assert(t.signatures@.map_values(|x: AuthorityAdmissionSignature| sig_view(x))
                            =~= seq![(s.authority_pubkey@, s.signature@)]);
                    }
                    Some(t)
                },
                None => None,
            },
        }
    }

    /// An equal copy.
    pub fn duplicate(&self) -> (r: Self)
        ensures
            entry_view(r) == entry_view(*self),
    {
        RosterEntry {
            record: self.record.duplicate(),
            signed_admission: match &self.signed_admission {
                Some(s) => Some(s.duplicate()),
                None => None,
            },
            threshold_admission: match &self.threshold_admission {
                Some(t) => Some(t.duplicate()),
                None => None,
            },
        }
    }
}

/// The entries whose ids are in `eligible`, in order.
pub open spec fn eligible_entries(s: Seq<RosterEntry>, eligible: Seq<RelayId>) -> Seq<RosterEntry> {
    s.filter(|e: RosterEntry| listed(eligible, e.record.id.0@))
}

/// Filtering a sequence grown by one element.
pub proof fn lemma_filter_push<A>(s: Seq<A>, x: A, p: spec_fn(A) -> bool)
    ensures
        s.push(x).filter(p) == if p(x) { s.filter(p).push(x) } else { s.filter(p) },
{
    reveal(Seq::filter);
    assert(s.push(x).drop_last() =~= s);
}

/// The id key of an entry.
pub open spec fn key_of(e: RosterEntry) -> Seq<u8> {
    e.record.id.0@
}

/// Entries in strictly increasing id order.
pub open spec fn sorted_entries(s: Seq<RosterEntry>) -> bool {
    forall|i: int, j: int| 0 <= i < j < s.len() ==> lex_lt(key_of(#[trigger] s[i]), key_of(#[trigger] s[j]))
}

/// Whether some entry has id `k`.
pub open spec fn has_key(s: Seq<RosterEntry>, k: Seq<u8>) -> bool {
    exists|i: int| 0 <= i < s.len() && key_of(#[trigger] s[i]) == k
}

/// The position of the entry with id `k` (meaningful when `has_key`).
pub open spec fn index_of(s: Seq<RosterEntry>, k: Seq<u8>) -> int {
    choose|i: int| 0 <= i < s.len() && key_of(#[trigger] s[i]) == k
}

/// The roster as a map from id to entry (plain values).
pub open spec fn entry_map(s: Seq<RosterEntry>) -> Map<Seq<u8>, (
    (Seq<u8>, Seq<char>, Seq<u8>),
    Option<((Seq<u8>, Seq<char>, Seq<u8>), Seq<u8>, Seq<u8>)>,
    Option<((Seq<u8>, Seq<char>, Seq<u8>), Seq<(Seq<u8>, Seq<u8>)>)>,
)> {
    Map::new(|k: Seq<u8>| has_key(s, k), |k: Seq<u8>| entry_view(s[index_of(s, k)]))
}

/// In a sorted list an id occurs at one position only.
/// What a successful `admit_signed` stores for the relay, `get_signed` reads back:
/// the entry's admission is the one signature the relay was admitted with.
pub proof fn lemma_admitted_signature_read_back(roster: RelayRoster, signed: SignedRelayRecord)
    requires
        entry_map(roster.entries()).contains_key(signed.record.id.0@),
        entry_map(roster.entries())[signed.record.id.0@] == (
            record_view(signed.record),
            None::<((Seq<u8>, Seq<char>, Seq<u8>), Seq<u8>, Seq<u8>)>,
            Some((record_view(signed.record), seq![(signed.authority_pubkey@, signed.signature@)])),
        ),
    ensures
        has_key(roster.entries(), signed.record.id.0@),
        admission_view(roster.entries()[index_of(roster.entries(), signed.record.id.0@)])
            == Some((record_view(signed.record), seq![(signed.authority_pubkey@, signed.signature@)])),
{
}

/// A sorted roster holds one entry per id: its length is the number of ids it maps.
pub proof fn lemma_roster_size(s: Seq<RosterEntry>)
    requires
        sorted_entries(s),
    ensures
        entry_map(s).dom().finite(),
        entry_map(s).dom().len() == s.len(),
{
    let keys = s.map_values(|e: RosterEntry| key_of(e));
    assert forall|i: int, j: int| 0 <= i < keys.len() && 0 <= j < keys.len() && i != j implies keys[i] != keys[j] by {
        if keys[i] == keys[j] {
            lemma_sorted_unique(s, i, j);
        }
    }
    assert(keys.no_duplicates());
    keys.unique_seq_to_set();
    assert forall|k: Seq<u8>| keys.to_set().contains(k) <==> entry_map(s).dom().contains(k) by {
        if keys.to_set().contains(k) {
            let i = choose|i: int| 0 <= i < keys.len() && keys[i] == k;
            assert(key_of(s[i]) == k);
        }
        if has_key(s, k) {
            let i = choose|i: int| 0 <= i < s.len() && key_of(#[trigger] s[i]) == k;
            assert(keys[i] == k);
        }
    }
    assert(keys.to_set() =~= entry_map(s).dom());
    vstd::seq_lib::seq_to_set_is_finite(keys);
}

pub proof fn lemma_sorted_unique(s: Seq<RosterEntry>, i: int, j: int)
    requires
        sorted_entries(s),
        0 <= i < s.len(),
        0 <= j < s.len(),
        key_of(s[i]) == key_of(s[j]),
    ensures
        i == j,
{
    if i < j {
        lemma_lex_lt_asym(key_of(s[i]), key_of(s[j]));
    } else if j < i {
        lemma_lex_lt_asym(key_of(s[j]), key_of(s[i]));
    }
}

/// Admission timestamps at or after `cutoff`.
pub open spec fn recent(ts: Seq<u64>, cutoff: u64) -> Seq<u64> {
    ts.filter(|t: u64| t >= cutoff)
}

/// Start of the rate-limit window ending at `now` (saturating at zero).
pub open spec fn window_start(now: u64, window_secs: u64) -> u64 {
    if now >= window_secs { (now - window_secs) as u64 } else { 0 }
}

/// What the rate-limit check answers at `now`.
pub open spec fn spec_rate_check(ts: Seq<u64>, policy: RosterAdmissionPolicy, now: u64) -> Result<(), RosterError> {
    let n = recent(ts, window_start(now, policy.window_secs)).len();
    if n >= policy.max_admissions_per_window {
        Err(RosterError::AdmissionRateLimitExceeded {
            attempted: if n < usize::MAX { (n + 1) as usize } else { usize::MAX },
            max_per_window: policy.max_admissions_per_window,
            window_secs: policy.window_secs,
        })
    } else {
        Ok(())
    }
}

/// Quota: an admission that passes the rate check at `now` leaves at most
/// `max_admissions_per_window` admissions recorded in the window that ends at `now`.
pub proof fn lemma_admission_within_quota(ts: Seq<u64>, policy: RosterAdmissionPolicy, now: u64)
    requires
        spec_rate_check(ts, policy, now) is Ok,
    ensures
        recent(recent(ts, window_start(now, policy.window_secs)).push(now), window_start(now, policy.window_secs)).len()
            <= policy.max_admissions_per_window,
{
    broadcast use Seq::lemma_filter_len_push, Seq::lemma_filter_len;
    let ws = window_start(now, policy.window_secs);
    let kept = recent(ts, ws);
    let p = |t: u64| t >= ws;
    assert(kept.push(now).filter(p).len() == kept.filter(p).len() + 1);
    assert(kept.filter(p).len() <= kept.len());
}

/// In-memory admission list, kept sorted by id: only rostered relays are eligible
/// for layer assignment.
#[derive(Clone, Debug)]
pub struct RelayRoster {
    relays: Vec<RosterEntry>,
    admission_policy: RosterAdmissionPolicy,
    /// Local admission timestamps (unix seconds) for rate limiting; not persisted.
    admission_timestamps: Vec<u64>,
}

impl RelayRoster {
    pub closed spec fn entries(&self) -> Seq<RosterEntry> {
        self.relays@
    }

    pub closed spec fn policy(&self) -> RosterAdmissionPolicy {
        self.admission_policy
    }

    pub closed spec fn timestamps(&self) -> Seq<u64> {
        self.admission_timestamps@
    }

    /// Well-formed: entries sorted by id.
    pub open spec fn wf(&self) -> bool {
        sorted_entries(self.entries())
    }

    /// Empty roster with the default admission policy.
    pub fn new() -> (r: Self)
        ensures
            r.wf(),
            r.entries().len() == 0,
            r.timestamps().len() == 0,
            r.policy().max_admissions_per_window == 5,
            r.policy().window_secs == 86400,
    {
        RelayRoster {
            relays: Vec::new(),
            admission_policy: RosterAdmissionPolicy::default_policy(),
            admission_timestamps: Vec::new(),
        }
    }

    /// Empty roster with a custom admission rate-limit policy.
    pub fn with_admission_policy(policy: RosterAdmissionPolicy) -> (r: Self)
        ensures
            r.wf(),
            r.entries().len() == 0,
            r.timestamps().len() == 0,
            r.policy() == policy,
    {
        RelayRoster { relays: Vec::new(), admission_policy: policy, admission_timestamps: Vec::new() }
    }

    pub fn admission_policy(&self) -> (r: &RosterAdmissionPolicy)
        ensures
            *r == self.policy(),
    {
        &self.admission_policy
    }

    /// Position of `id`: the first entry not below it, and whether it is there.
    fn locate(&self, id: &[u8; 32]) -> (r: (usize, bool))
        requires
            self.wf(),
        ensures
            r.0 <= self.entries().len(),
            forall|j: int| 0 <= j < r.0 ==> lex_lt(key_of(#[trigger] self.entries()[j]), id@),
            r.0 < self.entries().len() ==> !lex_lt(key_of(self.entries()[r.0 as int]), id@),
            r.1 <==> has_key(self.entries(), id@),
            r.1 ==> r.0 < self.entries().len() && key_of(self.entries()[r.0 as int]) == id@,
    {
        let n = self.relays.len();
        let mut i: usize = 0;
        while i < n && compare_32(&self.relays[i].record.id.0, id) < 0
            invariant
                n == self.relays@.len(),
                i <= n,
                forall|j: int| 0 <= j < i ==> lex_lt(key_of(#[trigger] self.relays@[j]), id@),
            decreases n - i,
        {
            i = i + 1;
        }
        let found = i < n && compare_32(&self.relays[i].record.id.0, id) == 0;
        proof {
            let s = self.relays@;
            if has_key(s, id@) {
                let m = choose|m: int| 0 <= m < s.len() && key_of(#[trigger] s[m]) == id@;
                if m < i {
                    lemma_lex_lt_asym(key_of(s[m]), id@);
                } else if m > i {
                    assert(lex_lt(key_of(s[i as int]), key_of(s[m])));
                    lemma_lex_total(key_of(s[i as int]), id@);
                    if lex_lt(id@, key_of(s[i as int])) {
                        lemma_lex_lt_trans(id@, key_of(s[i as int]), key_of(s[m]));
                        lemma_lex_lt_asym(id@, key_of(s[m]));
                    }
                }
            }
        }
        (i, found)
    }

    /// Insert or replace the entry for its id, keeping the order.
    fn upsert(&mut self, entry: RosterEntry)
        requires
            old(self).wf(),
        ensures
            final(self).wf(),
            entry_map(final(self).entries()) == entry_map(old(self).entries()).insert(key_of(entry), entry_view(entry)),
            final(self).policy() == old(self).policy(),
            final(self).timestamps() == old(self).timestamps(),
    {
        let ghost s = self.relays@;
        let ghost k = key_of(entry);
        let (pos, found) = self.locate(&entry.record.id.0);
        if found {
            self.relays.set(pos, entry);
            proof {
                let t = self.relays@;
                assert(t == s.update(pos as int, entry));
                assert forall|a: int, b: int| 0 <= a < b < t.len() implies lex_lt(key_of(#[trigger] t[a]), key_of(#[trigger] t[b])) by {
                    assert(key_of(t[a]) == key_of(s[a]));
                    assert(key_of(t[b]) == key_of(s[b]));
                }
                assert forall|q: Seq<u8>| has_key(t, q) <==> has_key(s, q) || q == k by {
                    if has_key(s, q) {
                        let m = choose|m: int| 0 <= m < s.len() && key_of(#[trigger] s[m]) == q;
                        assert(key_of(t[m]) == q);
                    }
                    if has_key(t, q) {
                        let m = choose|m: int| 0 <= m < t.len() && key_of(#[trigger] t[m]) == q;
                        assert(key_of(s[m]) == q);
                    }
                    if q == k {
                        assert(key_of(t[pos as int]) == q);
                    }
                }
                assert forall|q: Seq<u8>| has_key(t, q) implies entry_view(t[index_of(t, q)])
                    == (if q == k { entry_view(entry) } else { entry_view(s[index_of(s, q)]) }) by {
                    let it = index_of(t, q);
                    if q == k {
                        lemma_sorted_unique(t, it, pos as int);
                    } else {
                        let is = index_of(s, q);
                        assert(key_of(t[is]) == q) by {
                            assert(is != pos);
                        }
                        lemma_sorted_unique(t, it, is);
                    }
                }
                assert(entry_map(t) =~= entry_map(s).insert(k, entry_view(entry)));
            }
        } else {
            self.relays.insert(pos, entry);
            proof {
                let t = self.relays@;
                assert(t == s.insert(pos as int, entry));
                assert forall|a: int, b: int| 0 <= a < b < t.len() implies lex_lt(key_of(#[trigger] t[a]), key_of(#[trigger] t[b])) by {
                    if b < pos {
                        assert(t[a] == s[a] && t[b] == s[b]);
                    } else if b == pos {
                        assert(t[a] == s[a]);
                    } else if a == pos {
                        assert(t[b] == s[b - 1]);
                        assert(!lex_lt(key_of(s[pos as int]), k));
                        lemma_lex_total(key_of(s[pos as int]), k);
                        if pos < b - 1 {
                            assert(lex_lt(key_of(s[pos as int]), key_of(s[b - 1])));
                            lemma_lex_lt_trans(k, key_of(s[pos as int]), key_of(s[b - 1]));
                        }
                    } else if a < pos {
                        assert(t[a] == s[a] && t[b] == s[b - 1]);
                        assert(lex_lt(key_of(s[a]), k));
                        if a < b - 1 {
                        } else {
                        }
                    } else {
                        assert(t[a] == s[a - 1] && t[b] == s[b - 1]);
                    }
                }
                assert forall|q: Seq<u8>| has_key(t, q) <==> has_key(s, q) || q == k by {
                    if has_key(s, q) {
                        let m = choose|m: int| 0 <= m < s.len() && key_of(#[trigger] s[m]) == q;
                        if m < pos { assert(key_of(t[m]) == q); } else { assert(key_of(t[m + 1]) == q); }
                    }
                    if has_key(t, q) {
                        let m = choose|m: int| 0 <= m < t.len() && key_of(#[trigger] t[m]) == q;
                        if m < pos { assert(key_of(s[m]) == q); } else if m > pos { assert(key_of(s[m - 1]) == q); }
                    }
                    if q == k {
                        assert(key_of(t[pos as int]) == q);
                    }
                }
                assert forall|q: Seq<u8>| has_key(t, q) implies entry_view(t[index_of(t, q)])
                    == (if q == k { entry_view(entry) } else { entry_view(s[index_of(s, q)]) }) by {
                    let it = index_of(t, q);
                    if q == k {
                        lemma_sorted_unique(t, it, pos as int);
                    } else {
                        let is = index_of(s, q);
                        if is < pos {
                            assert(key_of(t[is]) == q);
                            lemma_sorted_unique(t, it, is);
                        } else {
                            assert(key_of(t[is + 1]) == q);
                            lemma_sorted_unique(t, it, is + 1);
                        }
                    }
                }
                assert(entry_map(t) =~= entry_map(s).insert(k, entry_view(entry)));
            }
        }
    }
}

/// The lists before and after one more element filter alike.
proof fn lemma_filter_step(ts: Seq<u64>, i: int, cutoff: u64)
    requires
        0 <= i < ts.len(),
    ensures
        recent(ts.subrange(0, i + 1), cutoff) == if ts[i] >= cutoff {
            recent(ts.subrange(0, i), cutoff).push(ts[i])
        } else {
            recent(ts.subrange(0, i), cutoff)
        },
{
    reveal(Seq::filter);
    let s1 = ts.subrange(0, i + 1);
    let pred = |t: u64| t >= cutoff;
    assert(s1.drop_last() =~= ts.subrange(0, i));
    assert(s1.last() == ts[i]);
    assert(s1.filter(pred) == if pred(s1.last()) {
        s1.drop_last().filter(pred).push(s1.last())
    } else {
        s1.drop_last().filter(pred)
    });
}

/// Timestamps at or after `cutoff`, in order.
fn retain_recent(ts: &Vec<u64>, cutoff: u64) -> (r: Vec<u64>)
    ensures
        r@ == recent(ts@, cutoff),
{
    let mut out: Vec<u64> = Vec::new();
    let mut i: usize = 0;
    while i < ts.len()
        invariant
            i <= ts@.len(),
            out@ == recent(ts@.subrange(0, i as int), cutoff),
        decreases ts@.len() - i,
    {
        proof { lemma_filter_step(ts@, i as int, cutoff); }
        if ts[i] >= cutoff {
            out.push(ts[i]);
        }
        i = i + 1;
    }
    assert(ts@.subrange(0, ts@.len() as int) =~= ts@);
    out
}

impl RelayRoster {
    /// Refuse a new admission once the window already holds the maximum.
    pub fn check_admission_rate_limit(&self, now_secs: u64) -> (r: Result<(), RosterError>)
        ensures
            r == spec_rate_check(self.timestamps(), self.policy(), now_secs),
    {
        let max = self.admission_policy.max_admissions_per_window;
        let window_secs = self.admission_policy.window_secs;
        let cutoff = now_secs.saturating_sub(window_secs);
        let kept = retain_recent(&self.admission_timestamps, cutoff);
        let n = kept.len();
        if n >= max {
            let attempted = if n < usize::MAX { n + 1 } else { usize::MAX };
            return Err(RosterError::AdmissionRateLimitExceeded { attempted, max_per_window: max, window_secs });
        }
        Ok(())
    }

    /// Drop timestamps that left the window, then record `now_secs`.
    pub fn record_admission(&mut self, now_secs: u64)
        ensures
            final(self).timestamps() == recent(old(self).timestamps(), window_start(now_secs, old(self).policy().window_secs)).push(now_secs),
            final(self).entries() == old(self).entries(),
            final(self).policy() == old(self).policy(),
    {
        let cutoff = now_secs.saturating_sub(self.admission_policy.window_secs);
        let mut kept = retain_recent(&self.admission_timestamps, cutoff);
        kept.push(now_secs);
        self.admission_timestamps = kept;
    }

    /// Admit a verified signed record at time `now_secs`. A new id must pass the rate
    /// limit and is recorded against it; re-admitting a known id replaces its entry
    /// without using quota. Returns whether the id was new.
    pub fn admit_verified_at(&mut self, signed: ThresholdSignedRelayRecord, now_secs: u64) -> (r: Result<bool, RosterError>)
        requires
            old(self).wf(),
        ensures
            final(self).wf(),
            final(self).policy() == old(self).policy(),
            ({
                let id = signed.record.id.0@;
                let is_new = !has_key(old(self).entries(), id);
                let entry = (record_view(signed.record), None, Some(threshold_view(signed)));
                if is_new && spec_rate_check(old(self).timestamps(), old(self).policy(), now_secs) is Err {
                    &&& r == Err::<bool, RosterError>(spec_rate_check(old(self).timestamps(), old(self).policy(), now_secs)->Err_0)
                    &&& final(self).entries() == old(self).entries()
                    &&& final(self).timestamps() == old(self).timestamps()
                } else {
                    &&& r == Ok::<bool, RosterError>(is_new)
                    &&& entry_map(final(self).entries()) == entry_map(old(self).entries()).insert(id, entry)
                    &&& final(self).timestamps() == if is_new {
                        recent(old(self).timestamps(), window_start(now_secs, old(self).policy().window_secs)).push(now_secs)
                    } else {
                        old(self).timestamps()
                    }
                }
            }),
    {
        let (_pos, found) = self.locate(&signed.record.id.0);
        let is_new = !found;
        if is_new {
            match self.check_admission_rate_limit(now_secs) {
                Ok(()) => {},
                Err(e) => return Err(e),
            }
            self.record_admission(now_secs);
        }
        let record = signed.record.duplicate();
        let entry = RosterEntry { record, signed_admission: None, threshold_admission: Some(signed) };
        self.upsert(entry);
        Ok(is_new)
    }

    /// Admit a relay without any authorization (unauthenticated; tests and labs only).
    pub fn admit_unsigned(&mut self, relay: RelayRecord)
        requires
            old(self).wf(),
        ensures
            final(self).wf(),
            entry_map(final(self).entries()) == entry_map(old(self).entries()).insert(relay.id.0@, (record_view(relay), None, None)),
            final(self).entries().len() == old(self).entries().len() + if has_key(old(self).entries(), relay.id.0@) {
                0int
            } else {
                1int
            },
            final(self).policy() == old(self).policy(),
            final(self).timestamps() == old(self).timestamps(),
    {
        let entry = RosterEntry { record: relay, signed_admission: None, threshold_admission: None };
        self.upsert(entry);
        proof {
            lemma_roster_size(old(self).entries());
            lemma_roster_size(self.entries());
        }
    }

    /// Same as `admit_unsigned` (fixture helper).
    pub fn admit_for_tests(&mut self, relay: RelayRecord)
        requires
            old(self).wf(),
        ensures
            final(self).wf(),
            entry_map(final(self).entries()) == entry_map(old(self).entries()).insert(relay.id.0@, (record_view(relay), None, None)),
            final(self).entries().len() == old(self).entries().len() + if has_key(old(self).entries(), relay.id.0@) {
                0int
            } else {
                1int
            },
            final(self).policy() == old(self).policy(),
            final(self).timestamps() == old(self).timestamps(),
    {
        self.admit_unsigned(relay);
    }

    /// Admit after verifying the M-of-N signatures; the current wall-clock second is
    /// the admission time. Returns whether the id was new (a new relay is to be
    /// seeded at the probationary reputation).
    pub fn admit_threshold_signed(&mut self, signed: ThresholdSignedRelayRecord, consortium: &ThresholdConsortium) -> (r: Result<bool, RosterError>)
        requires
            old(self).wf(),
        ensures
            final(self).wf(),
            spec_verify_threshold(sig_views(signed.signatures@), spec_canonical_record(signed.record), signed.record.id,
                consortium.keys(), consortium.need()) is Err ==> {
                &&& r == Err::<bool, RosterError>(spec_verify_threshold(sig_views(signed.signatures@),
                    spec_canonical_record(signed.record), signed.record.id, consortium.keys(), consortium.need())->Err_0)
                &&& final(self).entries() == old(self).entries()
            },
            r is Ok ==> quorum_signed(sig_views(signed.signatures@), spec_canonical_record(signed.record), consortium.keys(),
                consortium.need() as nat)
                && entry_map(final(self).entries()) == entry_map(old(self).entries()).insert(
                    signed.record.id.0@, (record_view(signed.record), None, Some(threshold_view(signed)))),
            r is Err ==> final(self).entries() == old(self).entries(),
            spec_verify_threshold(sig_views(signed.signatures@), spec_canonical_record(signed.record), signed.record.id,
                consortium.keys(), consortium.need()) is Ok ==> {
                &&& r matches Ok(b) ==> b == !has_key(old(self).entries(), signed.record.id.0@)
                &&& r matches Err(e) ==> !has_key(old(self).entries(), signed.record.id.0@)
                    && e is AdmissionRateLimitExceeded
            },
    {
        match signed.verify_threshold(consortium) {
            Ok(()) => {},
            Err(e) => return Err(e),
        }
        let now = unix_now_secs();
        self.admit_verified_at(signed, now)
    }

    /// Admit after verifying a single authority signature (1-of-1 consortium).
    pub fn admit_signed(&mut self, signed: SignedRelayRecord, authority_pubkey: &[u8; 32]) -> (r: Result<bool, RosterError>)
        requires
            old(self).wf(),
        ensures
            final(self).wf(),
            spec_check_sig(signed.authority_pubkey@, signed.signature@, signed.record, authority_pubkey@) is Err ==> {
                &&& r == Err::<bool, RosterError>(spec_check_sig(signed.authority_pubkey@, signed.signature@, signed.record, authority_pubkey@)->Err_0)
                &&& final(self).entries() == old(self).entries()
            },
            r is Ok ==> sig_valid(authority_pubkey@, signed.record, signed.signature@),
            r is Err ==> final(self).entries() == old(self).entries(),
            spec_check_sig(signed.authority_pubkey@, signed.signature@, signed.record, authority_pubkey@) is Ok
                && !ed25519_key_decodes(authority_pubkey@) ==> r == Err::<bool, RosterError>(
                RosterError::InvalidSignature { relay: signed.record.id }),
            r matches Ok(b) ==> b == !has_key(old(self).entries(), signed.record.id.0@)
                && entry_map(final(self).entries()) == entry_map(old(self).entries()).insert(
                    signed.record.id.0@,
                    (
                        record_view(signed.record),
                        None,
                        Some((record_view(signed.record), seq![(signed.authority_pubkey@, signed.signature@)])),
                    ),
                ),
            r matches Err(e) ==> spec_check_sig(signed.authority_pubkey@, signed.signature@, signed.record, authority_pubkey@) is Err
                || !ed25519_key_decodes(authority_pubkey@)
                || (e is AdmissionRateLimitExceeded && !has_key(old(self).entries(), signed.record.id.0@)),
    {
        match signed.verify(authority_pubkey) {
            Ok(()) => {},
            Err(e) => return Err(e),
        }
        if !ed25519_decodes(authority_pubkey) {
            return Err(RosterError::InvalidSignature { relay: signed.record.id });
        }
        let consortium = ThresholdConsortium::single(*authority_pubkey);
        let ghost rec = signed.record;
        let ghost pk = signed.authority_pubkey@;
        let ghost sg = signed.signature@;
        let t = signed.into_threshold();
        proof {
            let sv = sig_views(t.signatures@);
            assert(sv =~= seq![(pk, sg)]);
            let msg = spec_canonical_record(rec);
            reveal_with_fuel(threshold_scan, 2);
            assert(threshold_scan(sv, msg, rec.id, consortium.keys(), 0) == Ok::<Seq<Seq<u8>>, RosterError>(Seq::empty()));
            assert(!Seq::<Seq<u8>>::empty().contains(pk));
            assert(consortium.keys()[0] == pk);
            assert(consortium.keys().contains(pk));
            assert(sig_valid_msg(pk, msg, sg));
            assert(threshold_scan(sv, msg, rec.id, consortium.keys(), 1) == Ok::<Seq<Seq<u8>>, RosterError>(
                Seq::<Seq<u8>>::empty().push(pk)));
            assert(spec_verify_threshold(sv, msg, rec.id, consortium.keys(), consortium.need()) is Ok);
            assert(threshold_view(t) == (record_view(rec), seq![(pk, sg)]));
        }
        self.admit_threshold_signed(t, &consortium)
    }
}

/// Why a verified load refuses an entry.
pub enum LoadRefusal {
    Unsigned,
    Refused(RosterError),
}

/// First entry of a persisted list whose admission fails a verified load
/// (unsigned, or a threshold check error), scanning the first `k` entries.
pub open spec fn load_failure(entries: Seq<RosterEntry>, keys: Seq<Seq<u8>>, need: usize, k: nat) -> Option<LoadRefusal>
    decreases k,
{
    if k == 0 {
        None
    } else {
        match load_failure(entries, keys, need, (k - 1) as nat) {
            Some(e) => Some(e),
            None => {
                let e = entries[k - 1];
                match e.threshold_admission {
                    Some(t) => match spec_verify_threshold(sig_views(t.signatures@), spec_canonical_record(t.record), t.record.id, keys, need) {
                        Err(err) => Some(LoadRefusal::Refused(err)),
                        Ok(()) => None,
                    },
                    None => match e.signed_admission {
                        None => Some(LoadRefusal::Unsigned),
                        Some(s) => {
                            let sigs = seq![(s.authority_pubkey@, s.signature@)];
                            match spec_verify_threshold(sigs, spec_canonical_record(s.record), s.record.id, keys, need) {
                                Err(err) => Some(LoadRefusal::Refused(err)),
                                Ok(()) => None,
                            }
                        },
                    },
                }
            },
        }
    }
}

/// Text of the error for an unsigned entry in a verified load.
pub const MSG_UNSIGNED_ENTRY: &'static str = "unsigned roster entry in verified load";

/// Map of the first `k` persisted entries, a later entry for an id replacing an earlier one.
pub open spec fn loaded_map(entries: Seq<RosterEntry>, k: nat) -> Map<Seq<u8>, (
    (Seq<u8>, Seq<char>, Seq<u8>),
    Option<((Seq<u8>, Seq<char>, Seq<u8>), Seq<u8>, Seq<u8>)>,
    Option<((Seq<u8>, Seq<char>, Seq<u8>), Seq<(Seq<u8>, Seq<u8>)>)>,
)>
    decreases k,
{
    if k == 0 {
        Map::empty()
    } else {
        loaded_map(entries, (k - 1) as nat).insert(key_of(entries[k - 1]), entry_view(entries[k - 1]))
    }
}

proof fn lemma_load_failure_stays(entries: Seq<RosterEntry>, keys: Seq<Seq<u8>>, need: usize, k: nat)
    requires
        k <= entries.len(),
        load_failure(entries, keys, need, k) is Some,
    ensures
        load_failure(entries, keys, need, entries.len()) == load_failure(entries, keys, need, k),
    decreases entries.len() - k,
{
    if k < entries.len() {
        lemma_load_failure_stays(entries, keys, need, k + 1);
    }
}

/// Loading the sorted entries of a roster gives its map back.
pub proof fn lemma_loaded_map_of_sorted(entries: Seq<RosterEntry>, k: nat)
    requires
        sorted_entries(entries),
        k <= entries.len(),
    ensures
        loaded_map(entries, k) == entry_map(entries.subrange(0, k as int)),
    decreases k,
{
    let p = entries.subrange(0, k as int);
    if k == 0 {
        assert(entry_map(p) =~= Map::empty());
    } else {
        lemma_loaded_map_of_sorted(entries, (k - 1) as nat);
        let q = entries.subrange(0, k - 1);
        let key = key_of(entries[k - 1]);
        assert(sorted_entries(p));
        assert forall|z: Seq<u8>| has_key(p, z) <==> has_key(q, z) || z == key by {
            if has_key(q, z) {
                let m = choose|m: int| 0 <= m < q.len() && key_of(#[trigger] q[m]) == z;
                assert(p[m] == q[m]);
            }
            if has_key(p, z) {
                let m = choose|m: int| 0 <= m < p.len() && key_of(#[trigger] p[m]) == z;
                if m < k - 1 {
                    assert(q[m] == p[m]);
                }
            }
            if z == key {
                assert(key_of(p[k - 1]) == z);
            }
        }
        assert forall|z: Seq<u8>| has_key(p, z) implies entry_view(p[index_of(p, z)])
            == (if z == key { entry_view(entries[k - 1]) } else { entry_view(q[index_of(q, z)]) }) by {
            let ip = index_of(p, z);
            if z == key {
                lemma_sorted_unique(p, ip, k - 1);
            } else {
                let iq = index_of(q, z);
                assert(p[iq] == q[iq]);
                lemma_sorted_unique(p, ip, iq);
            }
        }
        assert(entry_map(p) =~= entry_map(q).insert(key, entry_view(entries[k - 1])));
    }
}

impl Default for RelayRoster {
    fn default() -> (r: Self)
        ensures
            r.wf(),
            r.entries().len() == 0,
            r.timestamps().len() == 0,
            r.policy().max_admissions_per_window == 5,
            r.policy().window_secs == 86400,
    {
        Self::new()
    }
}

impl RelayRoster {
    /// Remove a relay; returns whether it was present.
    pub fn remove(&mut self, id: RelayId) -> (r: bool)
        requires
            old(self).wf(),
        ensures
            final(self).wf(),
            r == has_key(old(self).entries(), id.0@),
            entry_map(final(self).entries()) == entry_map(old(self).entries()).remove(id.0@),
            final(self).entries().len() == old(self).entries().len() - if r { 1int } else { 0int },
            final(self).policy() == old(self).policy(),
            final(self).timestamps() == old(self).timestamps(),
    {
        let ghost s = self.relays@;
        let (pos, found) = self.locate(&id.0);
        if !found {
            proof {
                assert(entry_map(s) =~= entry_map(s).remove(id.0@));
            }
            return false;
        }
        self.relays.remove(pos);
        proof {
            let t = self.relays@;
            let k = id.0@;
            assert(t == s.remove(pos as int));
            assert forall|a: int, b: int| 0 <= a < b < t.len() implies lex_lt(key_of(#[trigger] t[a]), key_of(#[trigger] t[b])) by {
                if b < pos {
                    assert(t[a] == s[a] && t[b] == s[b]);
                } else if a < pos {
                    assert(t[a] == s[a] && t[b] == s[b + 1]);
                } else {
                    assert(t[a] == s[a + 1] && t[b] == s[b + 1]);
                }
            }
            assert forall|q: Seq<u8>| has_key(t, q) <==> has_key(s, q) && q != k by {
                if has_key(s, q) && q != k {
                    let m = choose|m: int| 0 <= m < s.len() && key_of(#[trigger] s[m]) == q;
                    if m < pos { assert(key_of(t[m]) == q); } else { assert(m != pos); assert(key_of(t[m - 1]) == q); }
                }
                if has_key(t, q) {
                    let m = choose|m: int| 0 <= m < t.len() && key_of(#[trigger] t[m]) == q;
                    if m < pos {
                        assert(key_of(s[m]) == q);
                        if q == k { lemma_sorted_unique(s, m, pos as int); }
                    } else {
                        assert(key_of(s[m + 1]) == q);
                        if q == k { lemma_sorted_unique(s, m + 1, pos as int); }
                    }
                }
            }
            assert forall|q: Seq<u8>| has_key(t, q) implies entry_view(t[index_of(t, q)]) == entry_view(s[index_of(s, q)]) by {
                let it = index_of(t, q);
                let is = index_of(s, q);
                if it < pos {
                    assert(key_of(s[it]) == q);
                    lemma_sorted_unique(s, it, is);
                } else {
                    assert(key_of(s[it + 1]) == q);
                    lemma_sorted_unique(s, it + 1, is);
                }
            }
            assert(entry_map(t) =~= entry_map(s).remove(k));
        }
        true
    }

    pub fn is_admitted(&self, id: RelayId) -> (r: bool)
        requires
            self.wf(),
        ensures
            r == has_key(self.entries(), id.0@),
    {
        let (_pos, found) = self.locate(&id.0);
        found
    }

    /// The admitted record for `id`.
    pub fn get(&self, id: RelayId) -> (r: Option<&RelayRecord>)
        requires
            self.wf(),
        ensures
            r is Some <==> has_key(self.entries(), id.0@),
            r matches Some(rec) ==> record_view(*rec) == entry_map(self.entries())[id.0@].0 && rec.id.0@ == id.0@,
    {
        let (pos, found) = self.locate(&id.0);
        if found {
            proof {
                lemma_sorted_unique(self.entries(), pos as int, index_of(self.entries(), id.0@));
            }
            Some(&self.relays[pos].record)
        } else {
            None
        }
    }

    /// The admission of `id` in threshold form.
    pub fn get_threshold_signed(&self, id: RelayId) -> (r: Option<ThresholdSignedRelayRecord>)
        requires
            self.wf(),
        ensures
            match r {
                Some(t) => has_key(self.entries(), id.0@)
                    && admission_view(self.entries()[index_of(self.entries(), id.0@)]) == Some(threshold_view(t)),
                None => !has_key(self.entries(), id.0@)
                    || admission_view(self.entries()[index_of(self.entries(), id.0@)]) is None,
            },
    {
        let (pos, found) = self.locate(&id.0);
        if found {
            proof {
                lemma_sorted_unique(self.entries(), pos as int, index_of(self.entries(), id.0@));
            }
            self.relays[pos].admission()
        } else {
            None
        }
    }

    /// The admission of `id` as a single-signature record, when it has exactly one signature.
    pub fn get_signed(&self, id: RelayId) -> (r: Option<SignedRelayRecord>)
        requires
            self.wf(),
        ensures
            match r {
                Some(s) => has_key(self.entries(), id.0@) && ({
                    let a = admission_view(self.entries()[index_of(self.entries(), id.0@)]);
                    a is Some && (a->Some_0).1.len() == 1 && (a->Some_0).0 == record_view(s.record)
                        && (a->Some_0).1[0] == (s.authority_pubkey@, s.signature@)
                }),
                None => !has_key(self.entries(), id.0@) || ({
                    let a = admission_view(self.entries()[index_of(self.entries(), id.0@)]);
                    a is None || (a->Some_0).1.len() != 1
                }),
            },
    {
        match self.get_threshold_signed(id) {
            None => None,
            Some(t) => {
                if t.signatures.len() == 1 {
                    let sig = &t.signatures[0];
                    let mut signature: Vec<u8> = Vec::new();
                    extend_bytes(&mut signature, sig.signature.as_slice());
                    let authority_pubkey = sig.authority_pubkey;
                    proof {
                        assert(threshold_view(t).1[0] == sig_view(t.signatures@[0]));
                    }
                    Some(SignedRelayRecord { record: t.record, signature, authority_pubkey })
                } else {
                    None
                }
            },
        }
    }

    pub fn len(&self) -> (r: usize)
        ensures
            r == self.entries().len(),
    {
        self.relays.len()
    }

    pub fn is_empty(&self) -> (r: bool)
        ensures
            r == (self.entries().len() == 0),
    {
        self.relays.len() == 0
    }

    /// All admitted records in increasing id order.
    pub fn admitted_sorted(&self) -> (r: Vec<RelayRecord>)
        ensures
            r@.len() == self.entries().len(),
            forall|i: int| 0 <= i < r@.len() ==> record_view(#[trigger] r@[i]) == record_view(self.entries()[i].record),
    {
        let mut out: Vec<RelayRecord> = Vec::new();
        let mut i: usize = 0;
        while i < self.relays.len()
            invariant
                i <= self.relays@.len(),
                out@.len() == i,
                forall|k: int| 0 <= k < i ==> record_view(#[trigger] out@[k]) == record_view(self.relays@[k].record),
            decreases self.relays@.len() - i,
        {
            out.push(self.relays[i].record.duplicate());
            i = i + 1;
        }
        out
    }

    /// The admitted records whose ids are in `eligible` (the relays at or above
    /// the reputation floor), in increasing id order.
    pub fn admitted_sorted_above_reputation(&self, eligible: &[RelayId]) -> (r: Vec<RelayRecord>)
        ensures
            ({
                let f = eligible_entries(self.entries(), eligible@);
                &&& r@.len() == f.len()
                &&& forall|i: int| 0 <= i < r@.len() ==> record_view(#[trigger] r@[i]) == record_view(f[i].record)
            }),
    {
        let ghost s = self.entries();
        let mut out: Vec<RelayRecord> = Vec::new();
        let mut i: usize = 0;
        while i < self.relays.len()
            invariant
                s == self.relays@,
                i <= s.len(),
                ({
                    let f = eligible_entries(s.subrange(0, i as int), eligible@);
                    &&& out@.len() == f.len()
                    &&& forall|k: int| 0 <= k < out@.len() ==> record_view(#[trigger] out@[k]) == record_view(f[k].record)
                }),
            decreases s.len() - i,
        {
            proof {
                assert(s.subrange(0, i + 1) =~= s.subrange(0, i as int).push(s[i as int]));
                lemma_filter_push(s.subrange(0, i as int), s[i as int], |e: RosterEntry| listed(eligible@, e.record.id.0@));
            }
            if is_listed(eligible, &self.relays[i].record.id) {
                out.push(self.relays[i].record.duplicate());
            }
            i = i + 1;
        }
        proof {
            assert(s.subrange(0, s.len() as int) =~= s);
        }
        out
    }

    /// The entries to persist, in increasing id order.
    pub fn persisted_entries(&self) -> (r: Vec<RosterEntry>)
        ensures
            r@.len() == self.entries().len(),
            forall|i: int| 0 <= i < r@.len() ==> entry_view(#[trigger] r@[i]) == entry_view(self.entries()[i]),
    {
        let mut out: Vec<RosterEntry> = Vec::new();
        let mut i: usize = 0;
        while i < self.relays.len()
            invariant
                i <= self.relays@.len(),
                out@.len() == i,
                forall|k: int| 0 <= k < i ==> entry_view(#[trigger] out@[k]) == entry_view(self.relays@[k]),
            decreases self.relays@.len() - i,
        {
            out.push(self.relays[i].duplicate());
            i = i + 1;
        }
        out
    }

    /// Build a roster from persisted entries (read in order). With a consortium, each
    /// admission is re-verified and stored in threshold form; an unsigned entry or a
    /// failed verification refuses the whole load.
    pub fn from_entries(entries: Vec<RosterEntry>, consortium: Option<&ThresholdConsortium>) -> (r: Result<Self, RosterError>)
        ensures
            match consortium {
                None => r matches Ok(roster) && roster.wf() && entry_map(roster.entries()) == loaded_map(entries@, entries@.len()),
                Some(c) => match load_failure(entries@, c.keys(), c.need(), entries@.len()) {
                    Some(LoadRefusal::Refused(e)) => r == Err::<Self, RosterError>(e),
                    Some(LoadRefusal::Unsigned) => r matches Err(RosterError::Deserialize(m)) && m@ == MSG_UNSIGNED_ENTRY@,
                    None => r matches Ok(roster) && roster.wf()
                        && entry_map(roster.entries()).dom() == loaded_map(entries@, entries@.len()).dom()
                        && forall|k: Seq<u8>| #[trigger] entry_map(roster.entries()).contains_key(k) ==> ({
                            let e = entry_map(roster.entries())[k];
                            &&& e.0 == loaded_map(entries@, entries@.len())[k].0
                            &&& e.1 is None
                            &&& e.2 is Some
                        }),
                },
            },
    {
        let mut roster = RelayRoster::new();
        let ghost es = entries@;
        let mut k: usize = 0;
        let n = entries.len();
        proof {
            assert(entry_map(roster.entries()) =~= Map::empty());
        }
        while k < n
            invariant
                n == entries@.len(),
                es == entries@,
                k <= n,
                roster.wf(),
                consortium is None ==> entry_map(roster.entries()) == loaded_map(es, k as nat),
                consortium matches Some(c) ==> load_failure(es, c.keys(), c.need(), k as nat) is None
                    && entry_map(roster.entries()).dom() == loaded_map(es, k as nat).dom()
                    && forall|z: Seq<u8>| #[trigger] entry_map(roster.entries()).contains_key(z) ==> ({
                        let e = entry_map(roster.entries())[z];
                        &&& e.0 == loaded_map(es, k as nat)[z].0
                        &&& e.1 is None
                        &&& e.2 is Some
                    }),
            decreases n - k,
        {
            let entry = &entries[k];
            match consortium {
                None => {
                    roster.upsert(entry.duplicate());
                },
                Some(c) => {
                    let admission = match entry.admission() {
                        Some(a) => a,
                        None => {
                            proof { lemma_load_failure_stays(es, c.keys(), c.need(), (k + 1) as nat); }
                            return Err(RosterError::Deserialize(crate::text::owned(MSG_UNSIGNED_ENTRY)));
                        },
                    };
                    proof {
                        let e = es[k as int];
                        assert(e == *entry);
                        match e.threshold_admission {
                            Some(u) => {
                                assert(sig_views(admission.signatures@) == sig_views(u.signatures@));
                                assert(spec_canonical_record(admission.record) == spec_canonical_record(u.record));
                            },
                            None => {
                                let u = e.signed_admission->Some_0;
                                assert(sig_views(admission.signatures@) == seq![(u.authority_pubkey@, u.signature@)]);
                                assert(spec_canonical_record(admission.record) == spec_canonical_record(u.record));
                            },
                        }
                    }
                    match admission.verify_threshold(c) {
                        Ok(()) => {},
                        Err(e) => {
                            proof { lemma_load_failure_stays(es, c.keys(), c.need(), (k + 1) as nat); }
                            return Err(e);
                        },
                    }
                    let stored = RosterEntry {
                        record: entry.record.duplicate(),
                        signed_admission: None,
                        threshold_admission: Some(admission),
                    };
                    roster.upsert(stored);
                },
            }
            k = k + 1;
        }
        Ok(roster)
    }
}

/// Loading the persisted entries of a roster (without re-verification) gives back
/// the same roster contents.
pub proof fn lemma_persist_roundtrip(roster: RelayRoster, persisted: Seq<RosterEntry>)
    requires
        roster.wf(),
        persisted.len() == roster.entries().len(),
        forall|i: int| 0 <= i < persisted.len() ==> entry_view(#[trigger] persisted[i]) == entry_view(roster.entries()[i]),
    ensures
        loaded_map(persisted, persisted.len()) == entry_map(roster.entries()),
{
    let s = roster.entries();
    assert(sorted_entries(persisted)) by {
        assert forall|i: int, j: int| 0 <= i < j < persisted.len() implies lex_lt(key_of(#[trigger] persisted[i]), key_of(#[trigger] persisted[j])) by {
            assert(entry_view(persisted[i]) == entry_view(s[i]));
            assert(entry_view(persisted[j]) == entry_view(s[j]));
        }
    }
    lemma_loaded_map_of_sorted(persisted, persisted.len());
    assert(persisted.subrange(0, persisted.len() as int) =~= persisted);
    assert forall|z: Seq<u8>| has_key(persisted, z) <==> has_key(s, z) by {
        if has_key(persisted, z) {
            let m = choose|m: int| 0 <= m < persisted.len() && key_of(#[trigger] persisted[m]) == z;
            assert(entry_view(persisted[m]) == entry_view(s[m]));
            assert(key_of(s[m]) == z);
        }
        if has_key(s, z) {
            let m = choose|m: int| 0 <= m < s.len() && key_of(#[trigger] s[m]) == z;
            assert(entry_view(persisted[m]) == entry_view(s[m]));
            assert(key_of(persisted[m]) == z);
        }
    }
    assert forall|z: Seq<u8>| has_key(s, z) implies entry_view(persisted[index_of(persisted, z)]) == entry_view(s[index_of(s, z)]) by {
        let ip = index_of(persisted, z);
        let is = index_of(s, z);
        assert(entry_view(persisted[ip]) == entry_view(s[ip]));
        assert(key_of(s[ip]) == z);
        lemma_sorted_unique(s, ip, is);
    }
    assert(entry_map(persisted) =~= entry_map(s));
}
} // verus!
