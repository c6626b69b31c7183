//! Signed cross-relay peer-health gossip: each relay signs its local success /
//! failure counts about a subject peer; receivers verify the Ed25519 signature and
//! accept only from the authenticated, admitted neighbor that reported it.
use vstd::prelude::*;
use vstd::bytes::spec_u64_to_le_bytes;

use crate::clock::unix_now_secs;
use crate::crypto::{ed25519_accepts, ed25519_decodes, ed25519_key_decodes, ed25519_public_of, ed25519_sign, ed25519_signature_of, ed25519_verify};
use crate::relay::peer_health::{PeerHealthTracker, GOSSIP_WEIGHT_DEN, GOSSIP_WEIGHT_NUM, add_to_window, scaled};
use crate::relay::relay_id::RelayId;
use crate::wire::{bytes_eq, extend_bytes, push_u64_le};

verus! {

/// Signed body length: reporter, subject, successes, failures, timestamp.
pub const ADVERT_BODY_LEN: usize = 88;

/// Ed25519 signature length.
pub const ADVERT_SIG_LEN: usize = 64;

/// Serialized advert length after the command byte.
pub const ADVERT_WIRE_LEN: usize = 152;

/// Default maximum accepted advert age (seconds).
pub const DEFAULT_MAX_ADVERT_AGE_SECS: u64 = 3600;

/// Accepted clock skew into the future (seconds).
pub const MAX_FUTURE_SKEW_SECS: u64 = 120;

#[derive(Debug, Clone, Copy, PartialEq, Eq)]
pub enum HealthGossipError {
    Malformed,
    BadSignature,
    UnknownReporter,
    ReporterMismatch,
    StaleTimestamp,
    MissingVerifyingKey,
}

/// Signed report: `reporter` observed `successes` / `failures` toward `subject`.
#[derive(Clone, Copy, Debug, PartialEq, Eq)]
pub struct PeerHealthAdvert {
    pub reporter: [u8; 32],
    pub subject: [u8; 32],
    pub successes: u64,
    pub failures: u64,
    pub timestamp_secs: u64,
    pub signature: [u8; 64],
}

/// The bytes covered by an advert's signature.
pub open spec fn spec_signable(a: PeerHealthAdvert) -> Seq<u8> {
    a.reporter@ + a.subject@ + spec_u64_to_le_bytes(a.successes) + spec_u64_to_le_bytes(a.failures)
        + spec_u64_to_le_bytes(a.timestamp_secs)
}

/// Copy of 88 bytes into an array.
fn to_body_array(v: &Vec<u8>) -> (r: [u8; 88])
    requires
        v@.len() == 88,
    ensures
        r@ == v@,
{
    let mut out = [0u8; 88];
    let mut i: usize = 0;
    while i < 88
        invariant
            v@.len() == 88,
            i <= 88,
            forall|j: int| 0 <= j < i ==> out@[j] == v@[j],
        decreases 88 - i,
    {
        out[i] = v[i];
        i = i + 1;
    }
    assert(out@ =~= v@);
    out
}

impl PeerHealthAdvert {
    /// Canonical bytes covered by the Ed25519 signature.
    pub fn signable_bytes(&self) -> (r: [u8; 88])
        ensures
            r@ == spec_signable(*self),
    {
        let mut out: Vec<u8> = Vec::new();
        extend_bytes(&mut out, self.reporter.as_slice());
        extend_bytes(&mut out, self.subject.as_slice());
        push_u64_le(&mut out, self.successes);
        push_u64_le(&mut out, self.failures);
        push_u64_le(&mut out, self.timestamp_secs);
        proof {
            vstd::bytes::lemma_auto_spec_u64_to_from_le_bytes();
        }
        to_body_array(&out)
    }

    /// Build and sign an advert with the Ed25519 secret seed `signing_seed`.
    pub fn sign(signing_seed: &[u8; 32], reporter: [u8; 32], subject: [u8; 32], successes: u64, failures: u64, timestamp_secs: u64) -> (r: Self)
        ensures
            r.reporter == reporter,
            r.subject == subject,
            r.successes == successes,
            r.failures == failures,
            r.timestamp_secs == timestamp_secs,
            r.signature@ == ed25519_signature_of(signing_seed@, spec_signable(r)),
            ed25519_accepts(ed25519_public_of(signing_seed@), spec_signable(r), r.signature@),
    {
        let mut advert = PeerHealthAdvert { reporter, subject, successes, failures, timestamp_secs, signature: [0u8; 64] };
        let body = advert.signable_bytes();
        advert.signature = ed25519_sign(signing_seed, body.as_slice());
        advert
    }

    /// Verify the signature under `verifying_key` (a key that does not decode fails).
    pub fn verify(&self, verifying_key: &[u8; 32]) -> (r: Result<(), HealthGossipError>)
        ensures
            r is Ok <==> ed25519_accepts(verifying_key@, spec_signable(*self), self.signature@),
            r is Err ==> r == Err::<(), HealthGossipError>(HealthGossipError::BadSignature),
    {
        let body = self.signable_bytes();
        if ed25519_verify(verifying_key, body.as_slice(), &self.signature) {
            Ok(())
        } else {
            Err(HealthGossipError::BadSignature)
        }
    }
}

/// Current Unix time in seconds (zero when the clock reads before the epoch).
pub fn unix_timestamp_secs() -> u64 {
    unix_now_secs()
}

/// Whether `timestamp` is fresh at `now`: at most `max_age` old, at most two minutes ahead.
pub open spec fn timestamp_fresh(now: u64, timestamp: u64, max_age: u64) -> bool {
    if now >= timestamp { now - timestamp <= max_age } else { timestamp - now <= MAX_FUTURE_SKEW_SECS }
}

/// What accepting an advert answers. `peer_gossip_key` is the reporter's entry in
/// the peer table: `None` when the reporter is not a neighbor, `Some(None)` when it
/// has no gossip key.
pub open spec fn spec_accept(
    a: PeerHealthAdvert,
    link_peer: Seq<u8>,
    peer_gossip_key: Option<Option<Seq<u8>>>,
    now: u64,
    max_age: u64,
) -> Result<(), HealthGossipError> {
    if link_peer != a.reporter@ {
        Err(HealthGossipError::ReporterMismatch)
    } else {
        match peer_gossip_key {
            None => Err(HealthGossipError::UnknownReporter),
            Some(None) => Err(HealthGossipError::MissingVerifyingKey),
            Some(Some(k)) => if !ed25519_key_decodes(k) {
                Err(HealthGossipError::MissingVerifyingKey)
            } else if !ed25519_accepts(k, spec_signable(a), a.signature@) {
                Err(HealthGossipError::BadSignature)
            } else if !timestamp_fresh(now, a.timestamp_secs, max_age) {
                Err(HealthGossipError::StaleTimestamp)
            } else {
                Ok(())
            },
        }
    }
}

/// Verify and merge a gossip advert: the link peer must be the reporter, the
/// reporter a neighbor with a gossip key, the signature valid, the timestamp fresh;
/// the counts then enter the subject's window at half weight. A refused advert
/// leaves the tracker unchanged.
pub fn accept_advert(
    advert: &PeerHealthAdvert,
    link_peer: RelayId,
    peer_gossip_key: Option<Option<[u8; 32]>>,
    now_secs: u64,
    max_age_secs: u64,
    tracker: &mut PeerHealthTracker,
) -> (r: Result<(), HealthGossipError>)
    ensures
        r == spec_accept(*advert, link_peer.0@, match peer_gossip_key {
            None => None,
            Some(None) => Some(None),
            Some(Some(k)) => Some(Some(k@)),
        }, now_secs, max_age_secs),
        r is Err ==> final(tracker).windows() == old(tracker).windows(),
        r is Ok ==> final(tracker).windows() == if scaled(advert.successes, GOSSIP_WEIGHT_NUM, GOSSIP_WEIGHT_DEN) == 0
            && scaled(advert.failures, GOSSIP_WEIGHT_NUM, GOSSIP_WEIGHT_DEN) == 0 {
            old(tracker).windows()
        } else {
            add_to_window(old(tracker).windows(), advert.subject, scaled(advert.successes, GOSSIP_WEIGHT_NUM, GOSSIP_WEIGHT_DEN),
                scaled(advert.failures, GOSSIP_WEIGHT_NUM, GOSSIP_WEIGHT_DEN))
        },
        final(tracker).pending() == old(tracker).pending(),
{
    if !bytes_eq(link_peer.as_bytes().as_slice(), advert.reporter.as_slice()) {
        return Err(HealthGossipError::ReporterMismatch);
    }
    let entry = match peer_gossip_key {
        Some(e) => e,
        None => return Err(HealthGossipError::UnknownReporter),
    };
    let vk = match entry {
        Some(k) => k,
        None => return Err(HealthGossipError::MissingVerifyingKey),
    };
    if !ed25519_decodes(&vk) {
        return Err(HealthGossipError::MissingVerifyingKey);
    }
    match advert.verify(&vk) {
        Ok(()) => {},
        Err(e) => return Err(e),
    }
    let skew_ok = if now_secs >= advert.timestamp_secs {
        now_secs - advert.timestamp_secs <= max_age_secs
    } else {
        advert.timestamp_secs - now_secs <= MAX_FUTURE_SKEW_SECS
    };
    if !skew_ok {
        return Err(HealthGossipError::StaleTimestamp);
    }
    tracker.apply_gossip_outcomes(advert.subject, advert.successes, advert.failures, GOSSIP_WEIGHT_NUM, GOSSIP_WEIGHT_DEN);
    Ok(())
}

/// Acceptance law: an advert from the link peer itself, signed with its decodable
/// gossip key, is accepted exactly when its timestamp is at most `max_age` seconds
/// in the past or at most two minutes in the future; otherwise it is refused as stale.
pub proof fn lemma_signed_advert_freshness(a: PeerHealthAdvert, key: Seq<u8>, now: u64, max_age: u64)
    requires
        ed25519_key_decodes(key),
        ed25519_accepts(key, spec_signable(a), a.signature@),
    ensures
        a.timestamp_secs <= now && now - a.timestamp_secs <= max_age
            ==> spec_accept(a, a.reporter@, Some(Some(key)), now, max_age) == Ok::<(), HealthGossipError>(()),
        a.timestamp_secs <= now && now - a.timestamp_secs > max_age
            ==> spec_accept(a, a.reporter@, Some(Some(key)), now, max_age) == Err::<(), HealthGossipError>(
            HealthGossipError::StaleTimestamp),
        a.timestamp_secs > now && a.timestamp_secs - now <= 120
            ==> spec_accept(a, a.reporter@, Some(Some(key)), now, max_age) == Ok::<(), HealthGossipError>(()),
        a.timestamp_secs > now && a.timestamp_secs - now > 120
            ==> spec_accept(a, a.reporter@, Some(Some(key)), now, max_age) == Err::<(), HealthGossipError>(
            HealthGossipError::StaleTimestamp),
{
}

/// Raising the maximum age never turns an accepted advert into a refused one.
pub proof fn lemma_accept_monotone_in_max_age(
    a: PeerHealthAdvert,
    link_peer: Seq<u8>,
    key: Option<Option<Seq<u8>>>,
    now: u64,
    max_age: u64,
    larger: u64,
)
    requires
        max_age <= larger,
        spec_accept(a, link_peer, key, now, max_age) is Ok,
    ensures
        spec_accept(a, link_peer, key, now, larger) is Ok,
{
}

} // verus!
