//! Append-only quorum log for signed peer-health adverts.
//!
//! Verified adverts are buffered per `(epoch, subject)` until `majority_k` distinct
//! authority reporters have spoken; then the buffered observations are released
//! for the median merge and the pair is marked applied. Conflicting payloads for
//! the same `epoch + reporter + subject` are refused as equivocation. Not a
//! multi-organization consensus protocol.
use vstd::prelude::*;
use vstd::bytes::{spec_u64_from_le_bytes, spec_u64_to_le_bytes};

use crate::crypto::{ed25519_accepts, ed25519_public_key, ed25519_public_of, ed25519_sign, ed25519_verify};
use crate::relay::health_gossip::{PeerHealthAdvert, spec_signable};
use crate::topology::roster::lemma_filter_push;
use crate::wire::{bytes_eq, copy_32, copy_64, extend_bytes, push_u64_le, read_u64_le, lex_lt, compare_32,
    lemma_lex_lt_asym, lemma_lex_lt_trans, lemma_lex_total};

verus! {

/// On-disk record size: epoch, reporter, subject, successes, failures, signature.
pub const QUORUM_LOG_RECORD_LEN: usize = 152;

/// Domain tag of epoch checkpoints (`aegis-health-epoch-checkpoint-v1`).
pub const EPOCH_CHECKPOINT_DOMAIN: [u8; 32] = [
    97, 101, 103, 105, 115, 45, 104, 101, 97, 108, 116, 104, 45, 101, 112, 111, 99, 104, 45, 99, 104, 101, 99, 107,
    112, 111, 105, 110, 116, 45, 118, 49,
];

#[derive(Debug, Clone, PartialEq, Eq)]
pub enum QuorumLogError {
    Malformed,
    BadSignature,
    NotAuthority,
    Equivocation,
    Io(String),
}

/// One persisted, signed gossip observation scoped to a gossip epoch.
#[derive(Clone, Copy, Debug, PartialEq, Eq)]
pub struct HealthQuorumLogEntry {
    pub epoch: u64,
    pub advert: PeerHealthAdvert,
}

/// The record bytes of an entry.
pub open spec fn spec_record(e: HealthQuorumLogEntry) -> Seq<u8> {
    spec_u64_to_le_bytes(e.epoch) + e.advert.reporter@ + e.advert.subject@ + spec_u64_to_le_bytes(e.advert.successes)
        + spec_u64_to_le_bytes(e.advert.failures) + e.advert.signature@
}

fn to_record_array(v: &Vec<u8>) -> (r: [u8; 152])
    requires
        v@.len() == 152,
    ensures
        r@ == v@,
{
    let mut out = [0u8; 152];
    let mut i: usize = 0;
    while i < 152
        invariant
            v@.len() == 152,
            i <= 152,
            forall|j: int| 0 <= j < i ==> out@[j] == v@[j],
        decreases 152 - i,
    {
        out[i] = v[i];
        i = i + 1;
    }
    assert(out@ =~= v@);
    out
}

impl HealthQuorumLogEntry {
    /// Canonical on-disk bytes (epoch before the advert body).
    pub fn record_bytes(&self) -> (r: [u8; 152])
        ensures
            r@ == spec_record(*self),
    {
        let mut out: Vec<u8> = Vec::new();
        push_u64_le(&mut out, self.epoch);
        extend_bytes(&mut out, self.advert.reporter.as_slice());
        extend_bytes(&mut out, self.advert.subject.as_slice());
        push_u64_le(&mut out, self.advert.successes);
        push_u64_le(&mut out, self.advert.failures);
        extend_bytes(&mut out, self.advert.signature.as_slice());
        proof { vstd::bytes::lemma_auto_spec_u64_to_from_le_bytes(); }
        to_record_array(&out)
    }

    /// Parse a record (exactly 152 bytes); the timestamp is not stored and reads as zero.
    pub fn from_record_bytes(buf: &[u8]) -> (r: Result<Self, QuorumLogError>)
        ensures
            buf@.len() != QUORUM_LOG_RECORD_LEN ==> r == Err::<Self, QuorumLogError>(QuorumLogError::Malformed),
            buf@.len() == QUORUM_LOG_RECORD_LEN ==> (r matches Ok(e) && {
                &&& e.epoch == spec_u64_from_le_bytes(buf@.subrange(0, 8))
                &&& e.advert.reporter@ == buf@.subrange(8, 40)
                &&& e.advert.subject@ == buf@.subrange(40, 72)
                &&& e.advert.successes == spec_u64_from_le_bytes(buf@.subrange(72, 80))
                &&& e.advert.failures == spec_u64_from_le_bytes(buf@.subrange(80, 88))
                &&& e.advert.timestamp_secs == 0
                &&& e.advert.signature@ == buf@.subrange(88, 152)
            }),
    {
        if buf.len() != QUORUM_LOG_RECORD_LEN {
            return Err(QuorumLogError::Malformed);
        }
        let epoch = read_u64_le(buf, 0);
        let reporter = copy_32(buf, 8);
        let subject = copy_32(buf, 40);
        let successes = read_u64_le(buf, 72);
        let failures = read_u64_le(buf, 80);
        let signature = copy_64(&buf[88..152]);
        Ok(HealthQuorumLogEntry {
            epoch,
            advert: PeerHealthAdvert { reporter, subject, successes, failures, timestamp_secs: 0, signature },
        })
    }

    /// `(reporter, subject, successes, failures)`.
    pub fn payload_key(&self) -> (r: ([u8; 32], [u8; 32], u64, u64))
        ensures
            r == (self.advert.reporter, self.advert.subject, self.advert.successes, self.advert.failures),
    {
        (self.advert.reporter, self.advert.subject, self.advert.successes, self.advert.failures)
    }
}

/// Parsing the record bytes of an entry gives the entry back, timestamp cleared.
pub proof fn lemma_record_roundtrip(e: HealthQuorumLogEntry)
    ensures
        spec_record(e).len() == QUORUM_LOG_RECORD_LEN,
        spec_u64_from_le_bytes(spec_record(e).subrange(0, 8)) == e.epoch,
        spec_record(e).subrange(8, 40) == e.advert.reporter@,
        spec_record(e).subrange(40, 72) == e.advert.subject@,
        spec_u64_from_le_bytes(spec_record(e).subrange(72, 80)) == e.advert.successes,
        spec_u64_from_le_bytes(spec_record(e).subrange(80, 88)) == e.advert.failures,
        spec_record(e).subrange(88, 152) == e.advert.signature@,
{
    vstd::bytes::lemma_auto_spec_u64_to_from_le_bytes();
    let r = spec_record(e);
    assert(r.subrange(0, 8) =~= spec_u64_to_le_bytes(e.epoch));
    assert(r.subrange(8, 40) =~= e.advert.reporter@);
    assert(r.subrange(40, 72) =~= e.advert.subject@);
    assert(r.subrange(72, 80) =~= spec_u64_to_le_bytes(e.advert.successes));
    assert(r.subrange(80, 88) =~= spec_u64_to_le_bytes(e.advert.failures));
    assert(r.subrange(88, 152) =~= e.advert.signature@);
}

/// One quorum-accepted median observation for a subject within an epoch.
#[derive(Clone, Copy, Debug, PartialEq, Eq)]
pub struct HealthEpochMedianSummary {
    pub subject: [u8; 32],
    pub successes: u64,
    pub failures: u64,
}

/// Signed rollup of the quorum-accepted medians of one gossip epoch.
#[derive(Clone, Debug, PartialEq, Eq)]
pub struct HealthEpochCheckpoint {
    pub epoch: u64,
    pub summaries: Vec<HealthEpochMedianSummary>,
    pub signer_pubkey: [u8; 32],
    pub signature: Vec<u8>,
}

/// Bytes of a summary list, each `subject || successes || failures`.
pub open spec fn spec_summaries_bytes(s: Seq<HealthEpochMedianSummary>) -> Seq<u8>
    decreases s.len(),
{
    if s.len() == 0 {
        Seq::empty()
    } else {
        spec_summaries_bytes(s.drop_last()) + s.last().subject@ + spec_u64_to_le_bytes(s.last().successes)
            + spec_u64_to_le_bytes(s.last().failures)
    }
}

/// The bytes a checkpoint signs.
pub open spec fn spec_checkpoint_bytes(epoch: u64, s: Seq<HealthEpochMedianSummary>) -> Seq<u8> {
    EPOCH_CHECKPOINT_DOMAIN@ + spec_u64_to_le_bytes(epoch) + spec_summaries_bytes(s)
}

/// Canonical checkpoint bytes: domain, epoch, then each summary.
pub fn canonical_checkpoint_bytes(epoch: u64, summaries: &[HealthEpochMedianSummary]) -> (r: Vec<u8>)
    ensures
        r@ == spec_checkpoint_bytes(epoch, summaries@),
{
    let mut msg: Vec<u8> = Vec::new();
    extend_bytes(&mut msg, EPOCH_CHECKPOINT_DOMAIN.as_slice());
    push_u64_le(&mut msg, epoch);
    let ghost head = msg@;
    let mut i: usize = 0;
    while i < summaries.len()
        invariant
            i <= summaries@.len(),
            head == EPOCH_CHECKPOINT_DOMAIN@ + spec_u64_to_le_bytes(epoch),
            msg@ == head + spec_summaries_bytes(summaries@.subrange(0, i as int)),
        decreases summaries@.len() - i,
    {
        let s = summaries[i];
        extend_bytes(&mut msg, s.subject.as_slice());
        push_u64_le(&mut msg, s.successes);
        push_u64_le(&mut msg, s.failures);
        proof {
            let p = summaries@.subrange(0, i + 1);
            assert(p.drop_last() =~= summaries@.subrange(0, i as int));
            assert(p.last() == s);
            assert(msg@ =~= head + spec_summaries_bytes(p));
        }
        i = i + 1;
    }
    assert(summaries@.subrange(0, summaries@.len() as int) =~= summaries@);
    msg
}

impl HealthEpochCheckpoint {
    /// Verify the signature (64 bytes) over the canonical bytes under `verifying_key`.
    pub fn verify(&self, verifying_key: &[u8; 32]) -> (r: Result<(), QuorumLogError>)
        ensures
            r is Ok <==> self.signature@.len() == 64
                && ed25519_accepts(verifying_key@, spec_checkpoint_bytes(self.epoch, self.summaries@), self.signature@),
            r is Err ==> r == Err::<(), QuorumLogError>(QuorumLogError::BadSignature),
    {
        let msg = canonical_checkpoint_bytes(self.epoch, self.summaries.as_slice());
        if self.signature.len() != 64 {
            return Err(QuorumLogError::BadSignature);
        }
        let sig = copy_64(self.signature.as_slice());
        if ed25519_verify(verifying_key, msg.as_slice(), &sig) {
            Ok(())
        } else {
            Err(QuorumLogError::BadSignature)
        }
    }
}

/// Result of appending a verified advert.
#[derive(Clone, Copy, Debug, PartialEq, Eq)]
pub enum QuorumAppendOutcome {
    /// Appended; waiting for more distinct authority reporters.
    Buffered { have: usize, need: usize },
    /// Quorum reached; the observations are released for the median merge.
    Applied { reporters: usize },
    /// Identical re-append, or the pair was already applied.
    Duplicate,
}

/// Payload recorded for one `(epoch, reporter, subject)`.
#[derive(Clone, Copy, Debug, PartialEq, Eq)]
pub struct SeenPayload {
    pub epoch: u64,
    pub reporter: [u8; 32],
    pub subject: [u8; 32],
    pub successes: u64,
    pub failures: u64,
}

/// A buffered observation awaiting quorum.
#[derive(Clone, Copy, Debug, PartialEq, Eq)]
pub struct PendingObservation {
    pub epoch: u64,
    pub subject: [u8; 32],
    pub reporter: [u8; 32],
    pub successes: u64,
    pub failures: u64,
}

/// An accepted median with its epoch.
#[derive(Clone, Copy, Debug, PartialEq, Eq)]
pub struct AppliedMedian {
    pub epoch: u64,
    pub summary: HealthEpochMedianSummary,
}

/// The payload recorded for `(epoch, reporter, subject)`, if any.
pub open spec fn seen_payload(s: Seq<SeenPayload>, epoch: u64, reporter: Seq<u8>, subject: Seq<u8>) -> Option<(u64, u64)> {
    if exists|i: int| 0 <= i < s.len() && (#[trigger] s[i]).epoch == epoch && s[i].reporter@ == reporter && s[i].subject@ == subject {
        let i = choose|i: int| 0 <= i < s.len() && (#[trigger] s[i]).epoch == epoch && s[i].reporter@ == reporter && s[i].subject@ == subject;
        Some((s[i].successes, s[i].failures))
    } else {
        None
    }
}

/// Whether an observation belongs to `(epoch, subject)`.
pub open spec fn for_pair(epoch: u64, subject: Seq<u8>) -> spec_fn(PendingObservation) -> bool {
    |o: PendingObservation| o.epoch == epoch && o.subject@ == subject
}

/// Whether an observation does not belong to `(epoch, subject)`.
pub open spec fn not_for_pair(epoch: u64, subject: Seq<u8>) -> spec_fn(PendingObservation) -> bool {
    |o: PendingObservation| !(o.epoch == epoch && o.subject@ == subject)
}

/// The `(successes, failures)` of some observations.
pub open spec fn obs_counts(s: Seq<PendingObservation>) -> Seq<(u64, u64)> {
    s.map_values(|o: PendingObservation| (o.successes, o.failures))
}

/// Whether the pair `(epoch, subject)` was applied.
pub open spec fn pair_applied(a: Seq<(u64, [u8; 32])>, epoch: u64, subject: Seq<u8>) -> bool {
    exists|i: int| 0 <= i < a.len() && (#[trigger] a[i]).0 == epoch && a[i].1@ == subject
}

/// Whether the reporter is admitted by the authority set (an empty set admits all).
pub open spec fn is_authority(set: Seq<[u8; 32]>, reporter: Seq<u8>) -> bool {
    set.len() == 0 || exists|i: int| 0 <= i < set.len() && (#[trigger] set[i])@ == reporter
}

/// Accepted adverts recorded for `(epoch, subject)` (one per reporter).
pub open spec fn seen_for(s: Seq<SeenPayload>, epoch: u64, subject: Seq<u8>) -> Seq<SeenPayload> {
    s.filter(seen_pair(epoch, subject))
}

/// Whether an accepted advert belongs to `(epoch, subject)`.
pub open spec fn seen_pair(epoch: u64, subject: Seq<u8>) -> spec_fn(SeenPayload) -> bool {
    |x: SeenPayload| x.epoch == epoch && x.subject@ == subject
}

/// The quorum bookkeeping of `(epoch, subject)` agrees with the accepted adverts:
/// the pair is applied exactly when at least `k` reporters were accepted for it,
/// and until then one observation per accepted reporter is buffered.
pub open spec fn quorum_ok_at(
    s: Seq<SeenPayload>,
    p: Seq<PendingObservation>,
    a: Seq<(u64, [u8; 32])>,
    k: usize,
    epoch: u64,
    subject: Seq<u8>,
) -> bool {
    &&& pair_applied(a, epoch, subject) <==> seen_for(s, epoch, subject).len() >= k
    &&& !pair_applied(a, epoch, subject) ==> p.filter(for_pair(epoch, subject)).len() == seen_for(s, epoch, subject).len()
}

/// Filtering twice by disjoint-or-nested pair tests: dropping one pair keeps the
/// observations of every other pair.
proof fn lemma_filter_other_pair(p: Seq<PendingObservation>, e0: u64, s0: Seq<u8>, e: u64, s: Seq<u8>)
    requires
        !(e == e0 && s == s0),
    ensures
        p.filter(not_for_pair(e0, s0)).filter(for_pair(e, s)) == p.filter(for_pair(e, s)),
    decreases p.len(),
{
    reveal(Seq::filter);
    if p.len() > 0 {
        let q = p.drop_last();
        lemma_filter_other_pair(q, e0, s0, e, s);
        assert(p == q.push(p.last()));
        lemma_filter_push(q, p.last(), not_for_pair(e0, s0));
        lemma_filter_push(q, p.last(), for_pair(e, s));
        if not_for_pair(e0, s0)(p.last()) {
            lemma_filter_push(q.filter(not_for_pair(e0, s0)), p.last(), for_pair(e, s));
        }
    } else {
        assert(p.filter(not_for_pair(e0, s0)) =~= p);
    }
}

/// Applying one more pair keeps the others' applied flags.
proof fn lemma_pair_applied_push(a: Seq<(u64, [u8; 32])>, x: (u64, [u8; 32]), e: u64, s: Seq<u8>)
    ensures
        pair_applied(a.push(x), e, s) <==> (pair_applied(a, e, s) || (x.0 == e && x.1@ == s)),
{
    if pair_applied(a, e, s) {
        let i = choose|i: int| 0 <= i < a.len() && (#[trigger] a[i]).0 == e && a[i].1@ == s;
        assert(a.push(x)[i] == a[i]);
    }
    if x.0 == e && x.1@ == s {
        assert(a.push(x)[a.len() as int] == x);
    }
    if pair_applied(a.push(x), e, s) {
        let i = choose|i: int| 0 <= i < a.push(x).len() && (#[trigger] a.push(x)[i]).0 == e && a.push(x)[i].1@ == s;
        if i < a.len() {
            assert(a[i] == a.push(x)[i]);
        }
    }
}

/// One accepted (new) advert keeps the quorum bookkeeping consistent, in each of
/// the three ways it is tallied: after the pair was applied, buffered below `k`,
/// or completing the quorum.
proof fn lemma_quorum_step(
    s0: Seq<SeenPayload>,
    p0: Seq<PendingObservation>,
    a0: Seq<(u64, [u8; 32])>,
    k: usize,
    sp: SeenPayload,
    o: PendingObservation,
    p1: Seq<PendingObservation>,
    a1: Seq<(u64, [u8; 32])>,
    e: u64,
    subj: Seq<u8>,
)
    requires
        quorum_ok_at(s0, p0, a0, k, e, subj),
        sp.epoch == o.epoch && sp.subject == o.subject,
        ({
            let g = p0.push(o).filter(for_pair(o.epoch, o.subject@));
            ||| (pair_applied(a0, o.epoch, o.subject@) && p1 == p0 && a1 == a0)
            ||| (!pair_applied(a0, o.epoch, o.subject@) && g.len() < k && p1 == p0.push(o) && a1 == a0)
            ||| (!pair_applied(a0, o.epoch, o.subject@) && g.len() >= k
                && p1 == p0.push(o).filter(not_for_pair(o.epoch, o.subject@)) && a1 == a0.push((o.epoch, o.subject)))
        }),
        quorum_ok_at(s0, p0, a0, k, o.epoch, o.subject@),
    ensures
        quorum_ok_at(s0.push(sp), p1, a1, k, e, subj),
{
    let m = o.epoch == e && o.subject@ == subj;
    let (oe, os) = (o.epoch, o.subject@);
    lemma_filter_push(s0, sp, seen_pair(e, subj));
    lemma_filter_push(p0, o, for_pair(e, subj));
    lemma_filter_push(s0, sp, seen_pair(oe, os));
    lemma_filter_push(p0, o, for_pair(oe, os));
    lemma_pair_applied_push(a0, (o.epoch, o.subject), e, subj);
    assert(seen_pair(oe, os)(sp));
    assert(for_pair(oe, os)(o));
    let g = p0.push(o).filter(for_pair(oe, os));
    let s1 = s0.push(sp);
    if m {
        assert(seen_pair(e, subj) == seen_pair(oe, os));
        assert(for_pair(e, subj) == for_pair(oe, os));
        assert(seen_for(s1, e, subj).len() == seen_for(s0, e, subj).len() + 1);
        if pair_applied(a0, oe, os) {
            assert(pair_applied(a1, e, subj));
            assert(seen_for(s1, e, subj).len() >= k);
        } else {
            assert(p0.filter(for_pair(e, subj)).len() == seen_for(s0, e, subj).len());
            assert(g.len() == seen_for(s1, e, subj).len());
            if g.len() < k {
                assert(!pair_applied(a1, e, subj));
                assert(p1.filter(for_pair(e, subj)) == g);
            } else {
                assert(pair_applied(a1, e, subj));
            }
        }
    } else {
        assert(!seen_pair(e, subj)(sp));
        assert(!for_pair(e, subj)(o));
        assert(seen_for(s1, e, subj) == seen_for(s0, e, subj));
        assert(pair_applied(a1, e, subj) == pair_applied(a0, e, subj));
        if pair_applied(a0, oe, os) {
        } else if g.len() < k {
            assert(p1.filter(for_pair(e, subj)) == p0.filter(for_pair(e, subj)));
        } else {
            lemma_filter_other_pair(p0.push(o), oe, os, e, subj);
            assert(p1.filter(for_pair(e, subj)) == p0.push(o).filter(for_pair(e, subj)));
        }
    }
}

/// Accepted adverts with distinct `(epoch, reporter, subject)` keep distinct
/// reporters within one `(epoch, subject)`.
proof fn lemma_seen_for_distinct(s: Seq<SeenPayload>, epoch: u64, subject: Seq<u8>)
    requires
        forall|i: int, j: int| 0 <= i < j < s.len() ==> !((#[trigger] s[i]).epoch == (#[trigger] s[j]).epoch
            && s[i].reporter == s[j].reporter && s[i].subject == s[j].subject),
    ensures
        forall|i: int, j: int| 0 <= i < j < seen_for(s, epoch, subject).len() ==> (#[trigger] seen_for(s, epoch, subject)[i]).reporter
            != (#[trigger] seen_for(s, epoch, subject)[j]).reporter,
    decreases s.len(),
{
    reveal(Seq::filter);
    if s.len() > 0 {
        let q = s.drop_last();
        assert forall|i: int, j: int| 0 <= i < j < q.len() implies !((#[trigger] q[i]).epoch == (#[trigger] q[j]).epoch
            && q[i].reporter == q[j].reporter && q[i].subject == q[j].subject) by {
            assert(q[i] == s[i] && q[j] == s[j]);
        }
        lemma_seen_for_distinct(q, epoch, subject);
        assert(s == q.push(s.last()));
        lemma_filter_push(q, s.last(), seen_pair(epoch, subject));
        let fq = seen_for(q, epoch, subject);
        let f = seen_for(s, epoch, subject);
        q.filter_lemma(seen_pair(epoch, subject));
        if seen_pair(epoch, subject)(s.last()) {
            assert forall|i: int, j: int| 0 <= i < j < f.len() implies (#[trigger] f[i]).reporter != (#[trigger] f[j]).reporter by {
                if j == f.len() - 1 {
                    assert(f[j] == s.last());
                    assert(f[i] == fq[i]);
                    assert(fq.contains(fq[i]));
                    q.lemma_filter_contains_rev(seen_pair(epoch, subject), fq[i]);
                    assert(q.contains(fq[i]));
                    let k = choose|k: int| 0 <= k < q.len() && q[k] == fq[i];
                    assert(s[k] == q[k]);
                    assert(seen_pair(epoch, subject)(fq[i]));
                    if f[i].reporter == f[j].reporter {
                        assert(s[k].epoch == s[s.len() - 1].epoch);
                        assert(s[k].subject@ == s[s.len() - 1].subject@);
                        assert(s[k].subject =~= s[s.len() - 1].subject);
                    }
                } else {
                    assert(f[i] == fq[i] && f[j] == fq[j]);
                }
            }
        }
    }
}

/// Append-only signed log with epoch-scoped quorum merge (in memory; the caller
/// persists records).
pub struct HealthQuorumLog {
    majority_k: usize,
    authority_set: Vec<[u8; 32]>,
    seen: Vec<SeenPayload>,
    pending: Vec<PendingObservation>,
    applied: Vec<(u64, [u8; 32])>,
    applied_medians: Vec<AppliedMedian>,
    entries: Vec<HealthQuorumLogEntry>,
    appended_only: Ghost<bool>,
}

impl HealthQuorumLog {
    pub closed spec fn k(&self) -> usize { self.majority_k }
    pub closed spec fn authorities(&self) -> Seq<[u8; 32]> { self.authority_set@ }
    pub closed spec fn seen_list(&self) -> Seq<SeenPayload> { self.seen@ }
    pub closed spec fn pending_list(&self) -> Seq<PendingObservation> { self.pending@ }
    pub closed spec fn applied_list(&self) -> Seq<(u64, [u8; 32])> { self.applied@ }
    pub closed spec fn medians(&self) -> Seq<AppliedMedian> { self.applied_medians@ }
    pub closed spec fn entry_list(&self) -> Seq<HealthQuorumLogEntry> { self.entries@ }

    /// The quorum bookkeeping agrees with the accepted adverts for every `(epoch, subject)`.
    closed spec fn quorum_consistent(&self) -> bool {
        forall|e: u64, subj: Seq<u8>| #[trigger] quorum_ok_at(self.seen@, self.pending@, self.applied@, self.majority_k, e, subj)
    }

    /// The log was made by `new` and changed since only by `append_verified` (and
    /// `record_applied_median`, which touches only the medians); replaying records,
    /// finalizing a replay, or recording or tallying an advert on its own ends this.
    pub closed spec fn only_appended(&self) -> bool {
        self.appended_only@
    }

    /// The quorum law: in a log made by `new` and changed since only by
    /// `append_verified`, `(epoch, subject)` is applied exactly when adverts from at
    /// least `K` reporters were accepted for it, each reporter counted once and each
    /// in the authority set whenever that set is not empty.
    pub proof fn lemma_applied_iff_quorum(&self, epoch: u64, subject: Seq<u8>)
        requires
            self.wf(),
            self.only_appended(),
        ensures
            pair_applied(self.applied_list(), epoch, subject) <==> seen_for(self.seen_list(), epoch, subject).len() >= self.k(),
            forall|i: int, j: int| 0 <= i < j < seen_for(self.seen_list(), epoch, subject).len()
                ==> (#[trigger] seen_for(self.seen_list(), epoch, subject)[i]).reporter
                != (#[trigger] seen_for(self.seen_list(), epoch, subject)[j]).reporter,
            forall|i: int| 0 <= i < seen_for(self.seen_list(), epoch, subject).len()
                ==> is_authority(self.authorities(), (#[trigger] seen_for(self.seen_list(), epoch, subject)[i]).reporter@),
    {
        assert(quorum_ok_at(self.seen@, self.pending@, self.applied@, self.majority_k, epoch, subject));
        lemma_seen_for_distinct(self.seen@, epoch, subject);
        let f = seen_for(self.seen@, epoch, subject);
        assert forall|i: int| 0 <= i < f.len() implies is_authority(self.authority_set@, (#[trigger] f[i]).reporter@) by {
            self.seen@.filter_lemma(seen_pair(epoch, subject));
            self.seen@.lemma_filter_contains_rev(seen_pair(epoch, subject), f[i]);
            let k = choose|k: int| 0 <= k < self.seen@.len() && self.seen@[k] == f[i];
            assert(is_authority(self.authority_set@, self.seen@[k].reporter@));
        }
    }

    /// Well-formed: `K >= 1`; one payload per seen key; one buffered observation
    /// per `(epoch, subject, reporter)`, each seen and from an authority; the
    /// medians ordered by subject, one per `(epoch, subject)`; a log changed only by
    /// appends keeps its quorum bookkeeping in agreement with the accepted adverts.
    pub closed spec fn wf(&self) -> bool {
        &&& self.majority_k >= 1
        &&& self.appended_only@ ==> self.quorum_consistent()
        &&& self.appended_only@ ==> forall|i: int| 0 <= i < self.seen@.len()
            ==> is_authority(self.authority_set@, (#[trigger] self.seen@[i]).reporter@)
        &&& forall|i: int, j: int| 0 <= i < j < self.seen@.len() ==> !(self.seen@[i].epoch == self.seen@[j].epoch
            && self.seen@[i].reporter == self.seen@[j].reporter && self.seen@[i].subject == self.seen@[j].subject)
        &&& forall|i: int, j: int| 0 <= i < j < self.pending@.len() ==> !(self.pending@[i].epoch == self.pending@[j].epoch
            && self.pending@[i].subject == self.pending@[j].subject && self.pending@[i].reporter == self.pending@[j].reporter)
        &&& forall|i: int| 0 <= i < self.pending@.len() ==> seen_payload(self.seen@, (#[trigger] self.pending@[i]).epoch,
            self.pending@[i].reporter@, self.pending@[i].subject@) is Some
        &&& forall|i: int| 0 <= i < self.pending@.len() ==> is_authority(self.authority_set@, (#[trigger] self.pending@[i]).reporter@)
        &&& forall|i: int, j: int| 0 <= i < j < self.applied_medians@.len()
            ==> !lex_lt((#[trigger] self.applied_medians@[j]).summary.subject@, (#[trigger] self.applied_medians@[i]).summary.subject@)
        &&& medians_unique(self.applied_medians@)
    }

    /// Empty log; `majority_k` is raised to at least one.
    pub fn new(majority_k: usize, authority_set: Vec<[u8; 32]>) -> (r: Self)
        ensures
            r.wf(),
            r.k() == if majority_k > 1 { majority_k } else { 1 },
            r.authorities() == authority_set@,
            r.seen_list().len() == 0,
            r.pending_list().len() == 0,
            r.applied_list().len() == 0,
            r.medians().len() == 0,
            r.entry_list().len() == 0,
            r.only_appended(),
    {
        HealthQuorumLog {
            majority_k: if majority_k > 1 { majority_k } else { 1 },
            authority_set,
            seen: Vec::new(),
            pending: Vec::new(),
            applied: Vec::new(),
            applied_medians: Vec::new(),
            entries: Vec::new(),
            appended_only: Ghost(true),
        }
    }

    pub fn majority_k(&self) -> (r: usize)
        ensures
            r == self.k(),
    {
        self.majority_k
    }

    pub fn entry_count(&self) -> (r: usize)
        ensures
            r == self.entry_list().len(),
    {
        self.entries.len()
    }

    /// Whether `(epoch, subject)` reached quorum.
    pub fn epoch_subject_applied(&self, epoch: u64, subject: [u8; 32]) -> (r: bool)
        ensures
            r == pair_applied(self.applied_list(), epoch, subject@),
    {
        let mut i: usize = 0;
        while i < self.applied.len()
            invariant
                i <= self.applied@.len(),
                forall|j: int| 0 <= j < i ==> !((#[trigger] self.applied@[j]).0 == epoch && self.applied@[j].1@ == subject@),
            decreases self.applied@.len() - i,
        {
            let (e, s) = self.applied[i];
            if e == epoch && bytes_eq(s.as_slice(), subject.as_slice()) {
                return true;
            }
            i = i + 1;
        }
        false
    }

    fn authority_ok(&self, reporter: &[u8; 32]) -> (r: bool)
        ensures
            r == is_authority(self.authorities(), reporter@),
    {
        if self.authority_set.len() == 0 {
            return true;
        }
        let mut i: usize = 0;
        while i < self.authority_set.len()
            invariant
                i <= self.authority_set@.len(),
                forall|j: int| 0 <= j < i ==> (#[trigger] self.authority_set@[j])@ != reporter@,
            decreases self.authority_set@.len() - i,
        {
            if bytes_eq(self.authority_set[i].as_slice(), reporter.as_slice()) {
                return true;
            }
            i = i + 1;
        }
        false
    }

    fn find_seen(&self, epoch: u64, reporter: &[u8; 32], subject: &[u8; 32]) -> (r: Option<(u64, u64)>)
        requires
            self.wf(),
        ensures
            r == seen_payload(self.seen_list(), epoch, reporter@, subject@),
    {
        let mut i: usize = 0;
        while i < self.seen.len()
            invariant
                self.wf(),
                i <= self.seen@.len(),
                forall|j: int| 0 <= j < i ==> !((#[trigger] self.seen@[j]).epoch == epoch && self.seen@[j].reporter@ == reporter@
                    && self.seen@[j].subject@ == subject@),
            decreases self.seen@.len() - i,
        {
            let p = self.seen[i];
            if p.epoch == epoch && bytes_eq(p.reporter.as_slice(), reporter.as_slice())
                && bytes_eq(p.subject.as_slice(), subject.as_slice()) {
                proof {
                    let s = self.seen@;
                    let c = choose|c: int| 0 <= c < s.len() && (#[trigger] s[c]).epoch == epoch && s[c].reporter@ == reporter@
                        && s[c].subject@ == subject@;
                    assert(s[c].reporter =~= s[i as int].reporter);
                    assert(s[c].subject =~= s[i as int].subject);
                    assert(c == i);
                }
                return Some((p.successes, p.failures));
            }
            i = i + 1;
        }
        None
    }
}


/// Whether some buffered observation has `(epoch, subject, reporter)`.
pub open spec fn pending_has(p: Seq<PendingObservation>, epoch: u64, subject: Seq<u8>, reporter: Seq<u8>) -> bool {
    exists|i: int| 0 <= i < p.len() && (#[trigger] p[i]).epoch == epoch && p[i].subject@ == subject && p[i].reporter@ == reporter
}

/// No two observations share `(epoch, subject, reporter)`.
pub open spec fn unique_obs(p: Seq<PendingObservation>) -> bool {
    forall|i: int, j: int| 0 <= i < j < p.len() ==> !(p[i].epoch == p[j].epoch && p[i].subject == p[j].subject
        && p[i].reporter == p[j].reporter)
}

/// Filtering keeps observations unique.
proof fn lemma_filter_unique(p: Seq<PendingObservation>, f: spec_fn(PendingObservation) -> bool)
    requires
        unique_obs(p),
    ensures
        unique_obs(p.filter(f)),
    decreases p.len(),
{
    reveal(Seq::filter);
    if p.len() > 0 {
        let q = p.drop_last();
        assert(unique_obs(q)) by {
            assert forall|i: int, j: int| 0 <= i < j < q.len() implies !(q[i].epoch == q[j].epoch && q[i].subject == q[j].subject
                && q[i].reporter == q[j].reporter) by {
                assert(q[i] == p[i] && q[j] == p[j]);
            }
        }
        lemma_filter_unique(q, f);
        let x = p.last();
        if f(x) {
            let fq = q.filter(f);
            let t = fq.push(x);
            assert forall|i: int, j: int| 0 <= i < j < t.len() implies !(t[i].epoch == t[j].epoch && t[i].subject == t[j].subject
                && t[i].reporter == t[j].reporter) by {
                if j == fq.len() {
                    let y = fq[i];
                    if y.epoch == x.epoch && y.subject == x.subject && y.reporter == x.reporter {
                        assert(fq.contains(y));
                        q.lemma_filter_contains_rev(f, y);
                        let k = choose|k: int| 0 <= k < q.len() && q[k] == y;
                        assert(p[k] == y);
                        assert(p[p.len() - 1] == x);
                    }
                }
            }
        }
    }
}

impl HealthQuorumLog {
    /// Verify the signature, the authority set and equivocation; a new advert is
    /// recorded and returned for persistence, an identical re-append returns `None`.
    pub fn record_advert(&mut self, epoch: u64, advert: &PeerHealthAdvert, verifying_key: &[u8; 32])
        -> (r: Result<Option<HealthQuorumLogEntry>, QuorumLogError>)
        requires
            old(self).wf(),
        ensures
            final(self).wf(),
            final(self).k() == old(self).k(),
            final(self).authorities() == old(self).authorities(),
            final(self).pending_list() == old(self).pending_list(),
            final(self).applied_list() == old(self).applied_list(),
            final(self).medians() == old(self).medians(),
            ({
                let accepts = ed25519_accepts(verifying_key@, spec_signable(*advert), advert.signature@);
                let auth = is_authority(old(self).authorities(), advert.reporter@);
                let prev = seen_payload(old(self).seen_list(), epoch, advert.reporter@, advert.subject@);
                if !accepts {
                    r == Err::<Option<HealthQuorumLogEntry>, QuorumLogError>(QuorumLogError::BadSignature)
                } else if !auth {
                    r == Err::<Option<HealthQuorumLogEntry>, QuorumLogError>(QuorumLogError::NotAuthority)
                } else if prev matches Some(p) && p != (advert.successes, advert.failures) {
                    r == Err::<Option<HealthQuorumLogEntry>, QuorumLogError>(QuorumLogError::Equivocation)
                } else if prev is Some {
                    r == Ok::<Option<HealthQuorumLogEntry>, QuorumLogError>(None)
                } else {
                    &&& r == Ok::<Option<HealthQuorumLogEntry>, QuorumLogError>(Some(HealthQuorumLogEntry { epoch, advert: *advert }))
                    &&& final(self).seen_list() == old(self).seen_list().push(SeenPayload {
                        epoch, reporter: advert.reporter, subject: advert.subject,
                        successes: advert.successes, failures: advert.failures,
                    })
                    &&& final(self).entry_list() == old(self).entry_list().push(HealthQuorumLogEntry { epoch, advert: *advert })
                }
            }),
            !(r matches Ok(Some(_))) ==> final(self).seen_list() == old(self).seen_list()
                && final(self).entry_list() == old(self).entry_list(),
            !final(self).only_appended(),
    {
        self.appended_only = Ghost(false);
        match advert.verify(verifying_key) {
            Ok(()) => {},
            Err(_) => return Err(QuorumLogError::BadSignature),
        }
        if !self.authority_ok(&advert.reporter) {
            return Err(QuorumLogError::NotAuthority);
        }
        match self.find_seen(epoch, &advert.reporter, &advert.subject) {
            Some(p) => {
                if p.0 != advert.successes || p.1 != advert.failures {
                    return Err(QuorumLogError::Equivocation);
                }
                return Ok(None);
            },
            None => {},
        }
        let ghost old_seen = self.seen@;
        let rec = SeenPayload {
            epoch,
            reporter: advert.reporter,
            subject: advert.subject,
            successes: advert.successes,
            failures: advert.failures,
        };
        self.seen.push(rec);
        let entry = HealthQuorumLogEntry { epoch, advert: *advert };
        self.entries.push(entry);
        proof {
            let s = self.seen@;
            assert(s == old_seen.push(rec));
            assert forall|i: int, j: int| 0 <= i < j < s.len() implies !(s[i].epoch == s[j].epoch
                && s[i].reporter == s[j].reporter && s[i].subject == s[j].subject) by {
                if j == old_seen.len() {
                    if s[i].epoch == s[j].epoch && s[i].reporter == s[j].reporter && s[i].subject == s[j].subject {
                        assert(old_seen[i].epoch == epoch && old_seen[i].reporter@ == advert.reporter@
                            && old_seen[i].subject@ == advert.subject@);
                    }
                } else {
                    assert(s[i] == old_seen[i] && s[j] == old_seen[j]);
                }
            }
            assert forall|i: int| 0 <= i < self.pending@.len() implies seen_payload(s, (#[trigger] self.pending@[i]).epoch,
                self.pending@[i].reporter@, self.pending@[i].subject@) is Some by {
                let o = self.pending@[i];
                assert(seen_payload(old_seen, o.epoch, o.reporter@, o.subject@) is Some);
                let c = choose|c: int| 0 <= c < old_seen.len() && (#[trigger] old_seen[c]).epoch == o.epoch
                    && old_seen[c].reporter@ == o.reporter@ && old_seen[c].subject@ == o.subject@;
                assert(s[c] == old_seen[c]);
            }
        }
        Ok(Some(entry))
    }

    /// Buffer the observation of an admitted advert for `(epoch, subject)`; with
    /// `K` distinct reporters the pair's observations are released and it is marked
    /// applied. An already-applied pair, or an advert not recorded as seen from an
    /// authority, or one already buffered, is a duplicate.
    pub fn tally(&mut self, epoch: u64, advert: &PeerHealthAdvert) -> (r: (QuorumAppendOutcome, Vec<(u64, u64)>))
        requires
            old(self).wf(),
        ensures
            final(self).wf(),
            final(self).k() == old(self).k(),
            final(self).authorities() == old(self).authorities(),
            final(self).seen_list() == old(self).seen_list(),
            final(self).entry_list() == old(self).entry_list(),
            final(self).medians() == old(self).medians(),
            ({
                let subj = advert.subject@;
                let obs = PendingObservation {
                    epoch, subject: advert.subject, reporter: advert.reporter,
                    successes: advert.successes, failures: advert.failures,
                };
                let p1 = old(self).pending_list().push(obs);
                let group = p1.filter(for_pair(epoch, subj));
                if pair_applied(old(self).applied_list(), epoch, subj)
                    || !is_authority(old(self).authorities(), advert.reporter@)
                    || seen_payload(old(self).seen_list(), epoch, advert.reporter@, subj) != Some((advert.successes, advert.failures))
                    || pending_has(old(self).pending_list(), epoch, subj, advert.reporter@) {
                    &&& r.0 == QuorumAppendOutcome::Duplicate
                    &&& r.1@.len() == 0
                    &&& final(self).pending_list() == old(self).pending_list()
                    &&& final(self).applied_list() == old(self).applied_list()
                } else if group.len() < old(self).k() {
                    &&& r.0 == QuorumAppendOutcome::Buffered { have: group.len() as usize, need: old(self).k() }
                    &&& r.1@.len() == 0
                    &&& final(self).pending_list() == p1
                    &&& final(self).applied_list() == old(self).applied_list()
                } else {
                    &&& r.0 == QuorumAppendOutcome::Applied { reporters: group.len() as usize }
                    &&& r.1@ == obs_counts(group)
                    &&& final(self).pending_list() == p1.filter(not_for_pair(epoch, subj))
                    &&& final(self).applied_list() == old(self).applied_list().push((epoch, advert.subject))
                    &&& group.len() >= old(self).k()
                    &&& forall|i: int, j: int| 0 <= i < j < group.len() ==> (#[trigger] group[i]).reporter != (#[trigger] group[j]).reporter
                    &&& forall|i: int| 0 <= i < group.len() ==> is_authority(old(self).authorities(), (#[trigger] group[i]).reporter@)
                }
            }),
            !final(self).only_appended(),
    {
        self.appended_only = Ghost(false);
        let ghost subj = advert.subject@;
        if self.epoch_subject_applied(epoch, advert.subject)
            || !self.authority_ok(&advert.reporter)
            || !self.seen_matches(epoch, advert)
            || self.pending_contains(epoch, &advert.subject, &advert.reporter) {
            return (QuorumAppendOutcome::Duplicate, Vec::new());
        }
        let ghost old_pending = self.pending@;
        let obs = PendingObservation {
            epoch,
            subject: advert.subject,
            reporter: advert.reporter,
            successes: advert.successes,
            failures: advert.failures,
        };
        self.pending.push(obs);
        proof {
            let p = self.pending@;
            assert(p == old_pending.push(obs));
            assert forall|i: int, j: int| 0 <= i < j < p.len() implies !(p[i].epoch == p[j].epoch
                && p[i].subject == p[j].subject && p[i].reporter == p[j].reporter) by {
                if j == old_pending.len() {
                    if p[i].epoch == p[j].epoch && p[i].subject == p[j].subject && p[i].reporter == p[j].reporter {
                        assert(old_pending[i].epoch == epoch && old_pending[i].subject@ == subj
                            && old_pending[i].reporter@ == advert.reporter@);
                    }
                } else {
                    assert(p[i] == old_pending[i] && p[j] == old_pending[j]);
                }
            }
        }
        let (have, observations) = self.group_of(epoch, &advert.subject);
        proof {
            let p = self.pending@;
            let f = for_pair(epoch, subj);
            let g = p.filter(f);
            lemma_filter_unique(p, f);
            p.filter_lemma(f);
            assert forall|i: int, j: int| 0 <= i < j < g.len() implies (#[trigger] g[i]).reporter != (#[trigger] g[j]).reporter by {
                assert(f(g[i]) && f(g[j]));
                assert(g[i].subject =~= g[j].subject);
            }
            assert forall|i: int| 0 <= i < g.len() implies is_authority(self.authority_set@, (#[trigger] g[i]).reporter@) by {
                let x = g[i];
                assert(g.contains(x));
                p.lemma_filter_contains_rev(f, x);
                let k = choose|k: int| 0 <= k < p.len() && p[k] == x;
                assert(is_authority(self.authority_set@, p[k].reporter@));
            }
        }
        if have < self.majority_k {
            return (QuorumAppendOutcome::Buffered { have, need: self.majority_k }, Vec::new());
        }
        self.remove_group(epoch, &advert.subject);
        self.applied.push((epoch, advert.subject));
        (QuorumAppendOutcome::Applied { reporters: have }, observations)
    }

    fn seen_matches(&self, epoch: u64, advert: &PeerHealthAdvert) -> (r: bool)
        requires
            self.wf(),
        ensures
            r == (seen_payload(self.seen_list(), epoch, advert.reporter@, advert.subject@) == Some((advert.successes, advert.failures))),
    {
        match self.find_seen(epoch, &advert.reporter, &advert.subject) {
            Some(p) => p.0 == advert.successes && p.1 == advert.failures,
            None => false,
        }
    }

    fn pending_contains(&self, epoch: u64, subject: &[u8; 32], reporter: &[u8; 32]) -> (r: bool)
        ensures
            r == pending_has(self.pending_list(), epoch, subject@, reporter@),
    {
        let mut i: usize = 0;
        while i < self.pending.len()
            invariant
                i <= self.pending@.len(),
                forall|j: int| 0 <= j < i ==> !((#[trigger] self.pending@[j]).epoch == epoch && self.pending@[j].subject@ == subject@
                    && self.pending@[j].reporter@ == reporter@),
            decreases self.pending@.len() - i,
        {
            let o = self.pending[i];
            if o.epoch == epoch && bytes_eq(o.subject.as_slice(), subject.as_slice())
                && bytes_eq(o.reporter.as_slice(), reporter.as_slice()) {
                return true;
            }
            i = i + 1;
        }
        false
    }

    /// Count and counts of the buffered observations of `(epoch, subject)`.
    fn group_of(&self, epoch: u64, subject: &[u8; 32]) -> (r: (usize, Vec<(u64, u64)>))
        ensures
            r.0 == self.pending_list().filter(for_pair(epoch, subject@)).len(),
            r.1@ == obs_counts(self.pending_list().filter(for_pair(epoch, subject@))),
    {
        let ghost s = self.pending@;
        let ghost f = for_pair(epoch, subject@);
        let mut out: Vec<(u64, u64)> = Vec::new();
        let mut i: usize = 0;
        while i < self.pending.len()
            invariant
                s == self.pending@,
                f == for_pair(epoch, subject@),
                i <= s.len(),
                out@ == obs_counts(s.subrange(0, i as int).filter(f)),
                out@.len() <= i,
            decreases s.len() - i,
        {
            let o = self.pending[i];
            proof {
                reveal(Seq::filter);
                let p = s.subrange(0, i + 1);
                assert(p.drop_last() =~= s.subrange(0, i as int));
                assert(p.last() == o);
            }
            if o.epoch == epoch && bytes_eq(o.subject.as_slice(), subject.as_slice()) {
                out.push((o.successes, o.failures));
                proof {
                    assert(out@ =~= obs_counts(s.subrange(0, i + 1).filter(f)));
                }
            }
            i = i + 1;
        }
        assert(s.subrange(0, s.len() as int) =~= s);
        (out.len(), out)
    }

    /// Drop the buffered observations of `(epoch, subject)`.
    fn remove_group(&mut self, epoch: u64, subject: &[u8; 32])
        requires
            old(self).wf(),
        ensures
            final(self).wf(),
            final(self).pending_list() == old(self).pending_list().filter(not_for_pair(epoch, subject@)),
            final(self).k() == old(self).k(),
            final(self).authorities() == old(self).authorities(),
            final(self).seen_list() == old(self).seen_list(),
            final(self).entry_list() == old(self).entry_list(),
            final(self).applied_list() == old(self).applied_list(),
            final(self).medians() == old(self).medians(),
            !final(self).appended_only@,
    {
        self.appended_only = Ghost(false);
        let ghost s = self.pending@;
        let ghost f = not_for_pair(epoch, subject@);
        let mut kept: Vec<PendingObservation> = Vec::new();
        let mut i: usize = 0;
        while i < self.pending.len()
            invariant
                s == self.pending@,
                f == not_for_pair(epoch, subject@),
                i <= s.len(),
                kept@ == s.subrange(0, i as int).filter(f),
            decreases s.len() - i,
        {
            let o = self.pending[i];
            proof {
                reveal(Seq::filter);
                let p = s.subrange(0, i + 1);
                assert(p.drop_last() =~= s.subrange(0, i as int));
                assert(p.last() == o);
            }
            if !(o.epoch == epoch && bytes_eq(o.subject.as_slice(), subject.as_slice())) {
                kept.push(o);
            }
            i = i + 1;
        }
        assert(s.subrange(0, s.len() as int) =~= s);
        proof {
            lemma_filter_unique(s, f);
            s.filter_lemma(f);
            assert forall|i: int| 0 <= i < kept@.len() implies seen_payload(self.seen@, (#[trigger] kept@[i]).epoch,
                kept@[i].reporter@, kept@[i].subject@) is Some && is_authority(self.authority_set@, kept@[i].reporter@) by {
                let x = kept@[i];
                assert(s.filter(f).contains(x));
                s.lemma_filter_contains_rev(f, x);
                let k = choose|k: int| 0 <= k < s.len() && s[k] == x;
                assert(seen_payload(self.seen@, s[k].epoch, s[k].reporter@, s[k].subject@) is Some);
                assert(is_authority(self.authority_set@, s[k].reporter@));
            }
        }
        self.pending = kept;
    }
}

impl HealthQuorumLog {
    /// Verify the signature, enforce the authority set, refuse equivocation, record
    /// the advert and tally it: `Applied` releases the observations of at least `K`
    /// distinct authority reporters for `(epoch, subject)`.
    pub fn append_verified(&mut self, epoch: u64, advert: &PeerHealthAdvert, verifying_key: &[u8; 32])
        -> (r: Result<(QuorumAppendOutcome, Vec<(u64, u64)>), QuorumLogError>)
        requires
            old(self).wf(),
        ensures
            final(self).wf(),
            final(self).k() == old(self).k(),
            final(self).authorities() == old(self).authorities(),
            ({
                let accepts = ed25519_accepts(verifying_key@, spec_signable(*advert), advert.signature@);
                let auth = is_authority(old(self).authorities(), advert.reporter@);
                let prev = seen_payload(old(self).seen_list(), epoch, advert.reporter@, advert.subject@);
                if !accepts {
                    r == Err::<(QuorumAppendOutcome, Vec<(u64, u64)>), QuorumLogError>(QuorumLogError::BadSignature)
                } else if !auth {
                    r == Err::<(QuorumAppendOutcome, Vec<(u64, u64)>), QuorumLogError>(QuorumLogError::NotAuthority)
                } else if prev matches Some(p) && p != (advert.successes, advert.failures) {
                    r == Err::<(QuorumAppendOutcome, Vec<(u64, u64)>), QuorumLogError>(QuorumLogError::Equivocation)
                } else if prev is Some {
                    &&& r matches Ok((o, v)) && o == QuorumAppendOutcome::Duplicate && v@.len() == 0
                    &&& final(self).entry_list() == old(self).entry_list()
                    &&& final(self).seen_list() == old(self).seen_list()
                    &&& final(self).pending_list() == old(self).pending_list()
                    &&& final(self).applied_list() == old(self).applied_list()
                } else {
                    let subj = advert.subject@;
                    let obs = PendingObservation {
                        epoch, subject: advert.subject, reporter: advert.reporter,
                        successes: advert.successes, failures: advert.failures,
                    };
                    let p1 = old(self).pending_list().push(obs);
                    let group = p1.filter(for_pair(epoch, subj));
                    &&& final(self).entry_list() == old(self).entry_list().push(HealthQuorumLogEntry { epoch, advert: *advert })
                    &&& final(self).seen_list() == old(self).seen_list().push(SeenPayload {
                        epoch, reporter: advert.reporter, subject: advert.subject,
                        successes: advert.successes, failures: advert.failures,
                    })
                    &&& if pair_applied(old(self).applied_list(), epoch, subj) {
                        &&& r matches Ok((o, v)) && o == QuorumAppendOutcome::Duplicate && v@.len() == 0
                        &&& final(self).pending_list() == old(self).pending_list()
                        &&& final(self).applied_list() == old(self).applied_list()
                    } else if group.len() < old(self).k() {
                        r matches Ok((o, v)) && o == (QuorumAppendOutcome::Buffered { have: group.len() as usize, need: old(self).k() })
                            && v@.len() == 0 && final(self).pending_list() == p1
                    } else {
                        &&& r matches Ok((o, v)) && o == (QuorumAppendOutcome::Applied { reporters: group.len() as usize })
                            && v@ == obs_counts(group)
                        &&& final(self).pending_list() == p1.filter(not_for_pair(epoch, subj))
                        &&& final(self).applied_list() == old(self).applied_list().push((epoch, advert.subject))
                        &&& group.len() >= old(self).k()
                        &&& forall|i: int, j: int| 0 <= i < j < group.len() ==> (#[trigger] group[i]).reporter != (#[trigger] group[j]).reporter
                        &&& forall|i: int| 0 <= i < group.len() ==> is_authority(old(self).authorities(), (#[trigger] group[i]).reporter@)
                    }
                }
            }),
            r is Err ==> final(self).entry_list() == old(self).entry_list() && final(self).pending_list() == old(self).pending_list()
                && final(self).applied_list() == old(self).applied_list() && final(self).seen_list() == old(self).seen_list(),
            final(self).only_appended() == old(self).only_appended(),
    {
        let ghost fresh = self.appended_only@;
        match self.record_advert(epoch, advert, verifying_key) {
            Err(e) => {
                self.appended_only = Ghost(fresh);
                Err(e)
            },
            Ok(None) => {
                self.appended_only = Ghost(fresh);
                Ok((QuorumAppendOutcome::Duplicate, Vec::new()))
            },
            Ok(Some(_entry)) => {
                proof {
                    let s = self.seen@;
                    let n = (s.len() - 1) as int;
                    assert(s[n].epoch == epoch && s[n].reporter@ == advert.reporter@ && s[n].subject@ == advert.subject@);
                    let c = choose|c: int| 0 <= c < s.len() && (#[trigger] s[c]).epoch == epoch && s[c].reporter@ == advert.reporter@
                        && s[c].subject@ == advert.subject@;
                    assert(s[c].reporter =~= s[n].reporter);
                    assert(s[c].subject =~= s[n].subject);
                    assert(c == n);
                    if pending_has(self.pending@, epoch, advert.subject@, advert.reporter@) {
                        let i = choose|i: int| 0 <= i < self.pending@.len() && (#[trigger] self.pending@[i]).epoch == epoch
                            && self.pending@[i].subject@ == advert.subject@ && self.pending@[i].reporter@ == advert.reporter@;
                        let o = self.pending@[i];
                        assert(seen_payload(old(self).seen@, o.epoch, o.reporter@, o.subject@) is Some);
                    }
                }
                let ghost obs = PendingObservation {
                    epoch, subject: advert.subject, reporter: advert.reporter,
                    successes: advert.successes, failures: advert.failures,
                };
                let ghost sp = SeenPayload {
                    epoch, reporter: advert.reporter, subject: advert.subject,
                    successes: advert.successes, failures: advert.failures,
                };
                let res = self.tally(epoch, advert);
                self.appended_only = Ghost(fresh);
                proof {
                    if fresh {
                        assert forall|i: int| 0 <= i < self.seen@.len()
                            implies is_authority(self.authority_set@, (#[trigger] self.seen@[i]).reporter@) by {
                            if i < old(self).seen@.len() {
                                assert(self.seen@[i] == old(self).seen@[i]);
                            }
                        }
                        assert(self.seen@ == old(self).seen@.push(sp));
                        assert forall|e: u64, subj: Seq<u8>|
                            #[trigger] quorum_ok_at(self.seen@, self.pending@, self.applied@, self.majority_k, e, subj) by {
                            assert(quorum_ok_at(old(self).seen@, old(self).pending@, old(self).applied@, old(self).majority_k, e, subj));
                            assert(quorum_ok_at(old(self).seen@, old(self).pending@, old(self).applied@, old(self).majority_k,
                                obs.epoch, obs.subject@));
                            lemma_quorum_step(old(self).seen@, old(self).pending@, old(self).applied@, self.majority_k, sp, obs,
                                self.pending@, self.applied@, e, subj);
                        }
                    }
                }
                Ok(res)
            },
        }
    }
}

/// Gossip epoch bucket of an advert timestamp (`epoch_secs` of zero counts as one).
pub fn advert_epoch(timestamp_secs: u64, epoch_secs: u64) -> (r: u64)
    ensures
        r == timestamp_secs / (if epoch_secs > 1 { epoch_secs } else { 1 }),
{
    let bucket = if epoch_secs > 1 { epoch_secs } else { 1 };
    timestamp_secs / bucket
}

/// At most one accepted median per `(epoch, subject)`.
pub open spec fn medians_unique(m: Seq<AppliedMedian>) -> bool {
    forall|i: int, j: int| 0 <= i < j < m.len() ==> !((#[trigger] m[i]).epoch == (#[trigger] m[j]).epoch
        && m[i].summary.subject@ == m[j].summary.subject@)
}

/// Position of the first accepted median of `(epoch, subject)`.
pub open spec fn first_median(m: Seq<AppliedMedian>, epoch: u64, subject: Seq<u8>) -> Option<int>
    decreases m.len(),
{
    if m.len() == 0 {
        None
    } else if m[0].epoch == epoch && m[0].summary.subject@ == subject {
        Some(0)
    } else {
        match first_median(m.drop_first(), epoch, subject) {
            Some(i) => Some(i + 1),
            None => None,
        }
    }
}

proof fn lemma_first_median_char(m: Seq<AppliedMedian>, epoch: u64, subject: Seq<u8>, i: int)
    requires
        0 <= i < m.len(),
        m[i].epoch == epoch && m[i].summary.subject@ == subject,
        forall|j: int| 0 <= j < i ==> !((#[trigger] m[j]).epoch == epoch && m[j].summary.subject@ == subject),
    ensures
        first_median(m, epoch, subject) == Some(i),
    decreases m.len(),
{
    if i > 0 {
        assert forall|j: int| 0 <= j < i - 1 implies !((#[trigger] m.drop_first()[j]).epoch == epoch
            && m.drop_first()[j].summary.subject@ == subject) by {
            assert(m.drop_first()[j] == m[j + 1]);
        }
        lemma_first_median_char(m.drop_first(), epoch, subject, i - 1);
    }
}

proof fn lemma_first_median_none(m: Seq<AppliedMedian>, epoch: u64, subject: Seq<u8>)
    requires
        forall|j: int| 0 <= j < m.len() ==> !((#[trigger] m[j]).epoch == epoch && m[j].summary.subject@ == subject),
    ensures
        first_median(m, epoch, subject) is None,
    decreases m.len(),
{
    if m.len() > 0 {
        assert forall|j: int| 0 <= j < m.len() - 1 implies !((#[trigger] m.drop_first()[j]).epoch == epoch
            && m.drop_first()[j].summary.subject@ == subject) by {
            assert(m.drop_first()[j] == m[j + 1]);
        }
        lemma_first_median_none(m.drop_first(), epoch, subject);
    }
}

/// Filtering ignores a position whose old and new values both fail the filter.
proof fn lemma_filter_update_skip(m: Seq<AppliedMedian>, i: int, x: AppliedMedian, f: spec_fn(AppliedMedian) -> bool)
    requires
        0 <= i < m.len(),
        !f(x),
        !f(m[i]),
    ensures
        m.update(i, x).filter(f) == m.filter(f),
{
    broadcast use Seq::filter_distributes_over_add;
    reveal(Seq::filter);
    let a = m.take(i);
    let c = m.skip(i + 1);
    assert(m =~= a + seq![m[i]] + c);
    assert(m.update(i, x) =~= a + seq![x] + c);
    assert(seq![x].drop_last() =~= Seq::<AppliedMedian>::empty());
    assert(seq![m[i]].drop_last() =~= Seq::<AppliedMedian>::empty());
    assert(Seq::<AppliedMedian>::empty().filter(f) =~= Seq::<AppliedMedian>::empty());
    assert(seq![x].last() == x);
    assert(seq![m[i]].last() == m[i]);
    assert(seq![x].filter(f) =~= Seq::<AppliedMedian>::empty());
    assert(seq![m[i]].filter(f) =~= Seq::<AppliedMedian>::empty());
}

/// Filtering ignores an inserted value that fails the filter.
proof fn lemma_filter_insert_skip(m: Seq<AppliedMedian>, pos: int, x: AppliedMedian, f: spec_fn(AppliedMedian) -> bool)
    requires
        0 <= pos <= m.len(),
        !f(x),
    ensures
        m.insert(pos, x).filter(f) == m.filter(f),
{
    broadcast use Seq::filter_distributes_over_add;
    reveal(Seq::filter);
    let a = m.take(pos);
    let c = m.skip(pos);
    assert(m =~= a + c);
    assert(m.insert(pos, x) =~= a + seq![x] + c);
    assert(seq![x].drop_last() =~= Seq::<AppliedMedian>::empty());
    assert(Seq::<AppliedMedian>::empty().filter(f) =~= Seq::<AppliedMedian>::empty());
    assert(seq![x].last() == x);
    assert(seq![x].filter(f) =~= Seq::<AppliedMedian>::empty());
}

/// Read after write: after the median of `(epoch, subject)` is recorded (replacing
/// the pair's earlier median, or inserted when it had none), the medians hold it
/// as the only one for that pair, the summaries of `epoch` contain it, and the
/// summaries of every other epoch are as they were.
pub proof fn lemma_recorded_median_read_back(m: Seq<AppliedMedian>, entry: AppliedMedian, t: Seq<AppliedMedian>)
    requires
        medians_unique(m),
        medians_unique(t),
        match first_median(m, entry.epoch, entry.summary.subject@) {
            Some(i) => t == m.update(i, entry),
            None => exists|pos: int| 0 <= pos <= m.len() && t == m.insert(pos, entry),
        },
    ensures
        t.contains(entry),
        forall|k: int| 0 <= k < t.len() && (#[trigger] t[k]).epoch == entry.epoch
            && t[k].summary.subject@ == entry.summary.subject@ ==> t[k] == entry,
        summaries_of(t, entry.epoch).contains(entry.summary),
        forall|e: u64| e != entry.epoch ==> #[trigger] summaries_of(t, e) == summaries_of(m, e),
{
    lemma_first_median_found(m, entry.epoch, entry.summary.subject@);
    let p: int = match first_median(m, entry.epoch, entry.summary.subject@) {
        Some(i) => i,
        None => choose|pos: int| 0 <= pos <= m.len() && t == m.insert(pos, entry),
    };
    assert(t[p] == entry);
    assert forall|k: int| 0 <= k < t.len() && (#[trigger] t[k]).epoch == entry.epoch
        && t[k].summary.subject@ == entry.summary.subject@ implies t[k] == entry by {
        if k != p {
            if k < p {
                assert(!(t[k].epoch == t[p].epoch && t[k].summary.subject@ == t[p].summary.subject@));
            } else {
                assert(!(t[p].epoch == t[k].epoch && t[p].summary.subject@ == t[k].summary.subject@));
            }
        }
    }
    let f = epoch_is(entry.epoch);
    assert(t.contains(entry));
    assert(f(t[p]));
    t.lemma_filter_contains(f, p);
    let ft = t.filter(f);
    let j = choose|j: int| 0 <= j < ft.len() && ft[j] == entry;
    assert(summaries_of(t, entry.epoch)[j] == entry.summary);
    assert forall|e: u64| e != entry.epoch implies #[trigger] summaries_of(t, e) == summaries_of(m, e) by {
        let g = epoch_is(e);
        match first_median(m, entry.epoch, entry.summary.subject@) {
            Some(i) => {
                lemma_filter_update_skip(m, i, entry, g);
            },
            None => {
                lemma_filter_insert_skip(m, p, entry, g);
            },
        }
    }
}

proof fn lemma_first_median_found(m: Seq<AppliedMedian>, epoch: u64, subject: Seq<u8>)
    ensures
        first_median(m, epoch, subject) matches Some(i) ==> 0 <= i < m.len() && m[i].epoch == epoch
            && m[i].summary.subject@ == subject,
    decreases m.len(),
{
    if m.len() > 0 {
        lemma_first_median_found(m.drop_first(), epoch, subject);
    }
}

/// Whether a median belongs to `epoch`.
pub open spec fn epoch_is(epoch: u64) -> spec_fn(AppliedMedian) -> bool {
    |a: AppliedMedian| a.epoch == epoch
}

/// The summaries of `epoch`, in the stored (subject) order.
pub open spec fn summaries_of(m: Seq<AppliedMedian>, epoch: u64) -> Seq<HealthEpochMedianSummary> {
    m.filter(epoch_is(epoch)).map_values(|a: AppliedMedian| a.summary)
}

impl HealthQuorumLog {
    /// Record the accepted median of `(epoch, subject)`, keeping the list ordered by
    /// subject (a later median for the same pair replaces the earlier one).
    pub fn record_applied_median(&mut self, epoch: u64, subject: [u8; 32], successes: u64, failures: u64)
        requires
            old(self).wf(),
        ensures
            final(self).wf(),
            final(self).k() == old(self).k(),
            final(self).authorities() == old(self).authorities(),
            final(self).seen_list() == old(self).seen_list(),
            final(self).pending_list() == old(self).pending_list(),
            final(self).applied_list() == old(self).applied_list(),
            final(self).only_appended() == old(self).only_appended(),
            final(self).entry_list() == old(self).entry_list(),
            exists|i: int| 0 <= i < final(self).medians().len() && (#[trigger] final(self).medians()[i])
                == (AppliedMedian { epoch, summary: HealthEpochMedianSummary { subject, successes, failures } }),
            medians_unique(old(self).medians()),
            medians_unique(final(self).medians()),
            match first_median(old(self).medians(), epoch, subject@) {
                Some(i) => final(self).medians() == old(self).medians().update(
                    i,
                    AppliedMedian { epoch, summary: HealthEpochMedianSummary { subject, successes, failures } },
                ),
                None => exists|pos: int| 0 <= pos <= old(self).medians().len() && final(self).medians()
                    == old(self).medians().insert(
                    pos,
                    AppliedMedian { epoch, summary: HealthEpochMedianSummary { subject, successes, failures } },
                ),
            },
    {
        let entry = AppliedMedian { epoch, summary: HealthEpochMedianSummary { subject, successes, failures } };
        let n = self.applied_medians.len();
        let mut i: usize = 0;
        while i < n
            invariant
                n == self.applied_medians@.len(),
                i <= n,
                entry == (AppliedMedian { epoch, summary: HealthEpochMedianSummary { subject, successes, failures } }),
                self.wf(),
                self.applied_medians@ == old(self).applied_medians@,
                self.majority_k == old(self).majority_k,
                self.authority_set@ == old(self).authority_set@,
                self.seen@ == old(self).seen@,
                self.pending@ == old(self).pending@,
                self.applied@ == old(self).applied@,
                self.entries@ == old(self).entries@,
                self.appended_only@ == old(self).appended_only@,
                forall|j: int| 0 <= j < i ==> !((#[trigger] old(self).applied_medians@[j]).epoch == epoch
                    && old(self).applied_medians@[j].summary.subject@ == subject@),
            decreases n - i,
        {
            let m = self.applied_medians[i];
            let same_subject = bytes_eq(m.summary.subject.as_slice(), subject.as_slice());
            if m.epoch == epoch && same_subject {
                let ghost before = self.applied_medians@;
                assert(m.summary.subject@ == subject@);
                proof {
                    lemma_first_median_char(before, epoch, subject@, i as int);
                }
                self.applied_medians.set(i, entry);
                proof {
                    let t = self.applied_medians@;
                    assert forall|a: int, b: int| 0 <= a < b < t.len() implies !((#[trigger] t[a]).epoch == (#[trigger] t[b]).epoch
                        && t[a].summary.subject@ == t[b].summary.subject@) by {
                        if a == i {
                            assert(t[b] == before[b]);
                        } else if b == i {
                            assert(t[a] == before[a]);
                        } else {
                            assert(t[a] == before[a] && t[b] == before[b]);
                        }
                    }
                }
                proof {
                    let t = self.applied_medians@;
                    assert(before[i as int] == m);
                    assert(entry.summary.subject@ == before[i as int].summary.subject@);
                    assert forall|a: int, b: int| 0 <= a < b < t.len()
                        implies !lex_lt((#[trigger] t[b]).summary.subject@, (#[trigger] t[a]).summary.subject@) by {
                        assert(t[a].summary.subject@ == before[a].summary.subject@);
                        assert(t[b].summary.subject@ == before[b].summary.subject@);
                    }
                    assert(t[i as int] == entry);
                    assert(self.medians()[i as int] == entry);
                }
                return;
            }
            i = i + 1;
        }
        // insert before the first strictly greater subject
        let mut pos: usize = 0;
        while pos < n && compare_32(&self.applied_medians[pos].summary.subject, &subject) <= 0
            invariant
                n == self.applied_medians@.len(),
                pos <= n,
                self.wf(),
                self.applied_medians@ == old(self).applied_medians@,
                self.majority_k == old(self).majority_k,
                self.authority_set@ == old(self).authority_set@,
                self.seen@ == old(self).seen@,
                self.pending@ == old(self).pending@,
                self.applied@ == old(self).applied@,
                self.entries@ == old(self).entries@,
                self.appended_only@ == old(self).appended_only@,
                forall|q: int| 0 <= q < pos ==> !lex_lt(subject@, (#[trigger] self.applied_medians@[q]).summary.subject@),
            decreases n - pos,
        {
            proof {
                let x = self.applied_medians@[pos as int].summary.subject@;
                if lex_lt(subject@, x) {
                    lemma_lex_lt_asym(subject@, x);
                }
            }
            pos = pos + 1;
        }
        let ghost before = self.applied_medians@;
        proof {
            lemma_first_median_none(before, epoch, subject@);
        }
        self.applied_medians.insert(pos, entry);
        proof {
            let t = self.applied_medians@;
            assert(t == before.insert(pos as int, entry));
            assert forall|a: int, b: int| 0 <= a < b < t.len() implies !((#[trigger] t[a]).epoch == (#[trigger] t[b]).epoch
                && t[a].summary.subject@ == t[b].summary.subject@) by {
                if b < pos {
                    assert(t[a] == before[a] && t[b] == before[b]);
                } else if b == pos {
                    assert(t[a] == before[a]);
                } else if a == pos {
                    assert(t[b] == before[b - 1]);
                } else if a < pos {
                    assert(t[a] == before[a] && t[b] == before[b - 1]);
                } else {
                    assert(t[a] == before[a - 1] && t[b] == before[b - 1]);
                }
            }
            if pos < n {
                assert(lex_lt(subject@, before[pos as int].summary.subject@));
            }
            assert forall|a: int, b: int| 0 <= a < b < t.len()
                implies !lex_lt((#[trigger] t[b]).summary.subject@, (#[trigger] t[a]).summary.subject@) by {
                if b < pos {
                    assert(t[a] == before[a] && t[b] == before[b]);
                } else if b == pos {
                    assert(t[a] == before[a]);
                } else if a == pos {
                    assert(t[b] == before[b - 1]);
                    let y = before[b - 1].summary.subject@;
                    if lex_lt(y, subject@) {
                        if b - 1 == pos {
                            lemma_lex_lt_asym(subject@, y);
                        } else {
                            let z = before[pos as int].summary.subject@;
                            assert(!lex_lt(y, z));
                            lemma_lex_lt_trans(y, subject@, z);
                        }
                    }
                } else if a < pos {
                    assert(t[a] == before[a] && t[b] == before[b - 1]);
                    let x = before[a].summary.subject@;
                    let y = before[b - 1].summary.subject@;
                    if a < b - 1 {
                    } else {
                    }
                } else {
                    assert(t[a] == before[a - 1] && t[b] == before[b - 1]);
                }
            }
            assert(t[pos as int] == entry);
            assert(self.medians()[pos as int] == entry);
        }
    }

    /// Accepted medians of `epoch`, ordered by subject.
    pub fn applied_summaries_for_epoch(&self, epoch: u64) -> (r: Vec<HealthEpochMedianSummary>)
        requires
            self.wf(),
        ensures
            r@ == summaries_of(self.medians(), epoch),
            forall|i: int, j: int| 0 <= i < j < r@.len() ==> !lex_lt((#[trigger] r@[j]).subject@, (#[trigger] r@[i]).subject@),
    {
        let ghost s = self.applied_medians@;
        let ghost f = epoch_is(epoch);
        let mut out: Vec<HealthEpochMedianSummary> = Vec::new();
        let mut i: usize = 0;
        while i < self.applied_medians.len()
            invariant
                self.wf(),
                s == self.applied_medians@,
                f == epoch_is(epoch),
                i <= s.len(),
                out@ == s.subrange(0, i as int).filter(f).map_values(|a: AppliedMedian| a.summary),
            decreases s.len() - i,
        {
            let m = self.applied_medians[i];
            proof {
                reveal(Seq::filter);
                let p = s.subrange(0, i + 1);
                assert(p.drop_last() =~= s.subrange(0, i as int));
                assert(p.last() == m);
            }
            if m.epoch == epoch {
                out.push(m.summary);
                proof {
                    assert(out@ =~= s.subrange(0, i + 1).filter(f).map_values(|a: AppliedMedian| a.summary));
                }
            }
            i = i + 1;
        }
        assert(s.subrange(0, s.len() as int) =~= s);
        proof {
            lemma_filter_keeps_order(s, f);
        }
        out
    }

    /// Sign a checkpoint over the accepted medians of `epoch` with the Ed25519 seed
    /// `signing_seed`; the signature verifies under the embedded signer key.
    pub fn sign_epoch_checkpoint(&self, epoch: u64, signing_seed: &[u8; 32]) -> (r: HealthEpochCheckpoint)
        requires
            self.wf(),
        ensures
            r.epoch == epoch,
            r.summaries@ == summaries_of(self.medians(), epoch),
            r.signer_pubkey@ == ed25519_public_of(signing_seed@),
            r.signature@.len() == 64,
            ed25519_accepts(r.signer_pubkey@, spec_checkpoint_bytes(epoch, r.summaries@), r.signature@),
    {
        let summaries = self.applied_summaries_for_epoch(epoch);
        let msg = canonical_checkpoint_bytes(epoch, summaries.as_slice());
        let sig = ed25519_sign(signing_seed, msg.as_slice());
        let mut signature: Vec<u8> = Vec::new();
        extend_bytes(&mut signature, sig.as_slice());
        HealthEpochCheckpoint { epoch, summaries, signer_pubkey: ed25519_public_key(signing_seed), signature }
    }
}

/// Filtering keeps the subject order of the medians.
proof fn lemma_filter_keeps_order(s: Seq<AppliedMedian>, f: spec_fn(AppliedMedian) -> bool)
    requires
        forall|i: int, j: int| 0 <= i < j < s.len() ==> !lex_lt((#[trigger] s[j]).summary.subject@, (#[trigger] s[i]).summary.subject@),
    ensures
        forall|i: int, j: int| 0 <= i < j < s.filter(f).len()
            ==> !lex_lt((#[trigger] s.filter(f)[j]).summary.subject@, (#[trigger] s.filter(f)[i]).summary.subject@),
    decreases s.len(),
{
    reveal(Seq::filter);
    if s.len() > 0 {
        let q = s.drop_last();
        assert forall|i: int, j: int| 0 <= i < j < q.len() implies !lex_lt((#[trigger] q[j]).summary.subject@, (#[trigger] q[i]).summary.subject@) by {
            assert(q[i] == s[i] && q[j] == s[j]);
        }
        lemma_filter_keeps_order(q, f);
        let x = s.last();
        if f(x) {
            let fq = q.filter(f);
            let t = fq.push(x);
            assert forall|i: int, j: int| 0 <= i < j < t.len() implies !lex_lt((#[trigger] t[j]).summary.subject@, (#[trigger] t[i]).summary.subject@) by {
                if j == fq.len() {
                    let y = fq[i];
                    assert(fq.contains(y));
                    q.lemma_filter_contains_rev(f, y);
                    let k = choose|k: int| 0 <= k < q.len() && q[k] == y;
                    assert(s[k] == y);
                    assert(s[s.len() - 1] == x);
                } else {
                    assert(t[i] == fq[i] && t[j] == fq[j]);
                }
            }
        }
    }
}

impl HealthQuorumLog {
    /// Replay one persisted record (signatures are not re-checked): equivocation is
    /// refused; a non-authority reporter or an applied pair is recorded but not
    /// buffered.
    pub fn replay_entry(&mut self, entry: HealthQuorumLogEntry) -> (r: Result<(), QuorumLogError>)
        requires
            old(self).wf(),
        ensures
            final(self).wf(),
            final(self).k() == old(self).k(),
            final(self).authorities() == old(self).authorities(),
            final(self).applied_list() == old(self).applied_list(),
            final(self).medians() == old(self).medians(),
            ({
                let a = entry.advert;
                let prev = seen_payload(old(self).seen_list(), entry.epoch, a.reporter@, a.subject@);
                if prev matches Some(p) && p != (a.successes, a.failures) {
                    &&& r == Err::<(), QuorumLogError>(QuorumLogError::Equivocation)
                    &&& final(self).seen_list() == old(self).seen_list()
                    &&& final(self).entry_list() == old(self).entry_list()
                    &&& final(self).pending_list() == old(self).pending_list()
                } else {
                    &&& r is Ok
                    &&& final(self).entry_list() == old(self).entry_list().push(entry)
                    &&& seen_payload(final(self).seen_list(), entry.epoch, a.reporter@, a.subject@) == Some((a.successes, a.failures))
                    &&& final(self).pending_list() == if pair_applied(old(self).applied_list(), entry.epoch, a.subject@)
                        || !is_authority(old(self).authorities(), a.reporter@)
                        || pending_has(old(self).pending_list(), entry.epoch, a.subject@, a.reporter@) {
                        old(self).pending_list()
                    } else {
                        old(self).pending_list().push(PendingObservation {
                            epoch: entry.epoch, subject: a.subject, reporter: a.reporter,
                            successes: a.successes, failures: a.failures,
                        })
                    }
                }
            }),
            !final(self).only_appended(),
    {
        self.appended_only = Ghost(false);
        let a = entry.advert;
        match self.find_seen(entry.epoch, &a.reporter, &a.subject) {
            Some(p) => {
                if p.0 != a.successes || p.1 != a.failures {
                    return Err(QuorumLogError::Equivocation);
                }
            },
            None => {
                let ghost old_seen = self.seen@;
                let rec = SeenPayload {
                    epoch: entry.epoch,
                    reporter: a.reporter,
                    subject: a.subject,
                    successes: a.successes,
                    failures: a.failures,
                };
                self.seen.push(rec);
                proof {
                    let s = self.seen@;
                    assert(s == old_seen.push(rec));
                    assert forall|i: int, j: int| 0 <= i < j < s.len() implies !(s[i].epoch == s[j].epoch
                        && s[i].reporter == s[j].reporter && s[i].subject == s[j].subject) by {
                        if j == old_seen.len() {
                            if s[i].epoch == s[j].epoch && s[i].reporter == s[j].reporter && s[i].subject == s[j].subject {
                                assert(old_seen[i].epoch == entry.epoch && old_seen[i].reporter@ == a.reporter@
                                    && old_seen[i].subject@ == a.subject@);
                            }
                        } else {
                            assert(s[i] == old_seen[i] && s[j] == old_seen[j]);
                        }
                    }
                    assert forall|i: int| 0 <= i < self.pending@.len() implies seen_payload(s, (#[trigger] self.pending@[i]).epoch,
                        self.pending@[i].reporter@, self.pending@[i].subject@) is Some by {
                        let o = self.pending@[i];
                        assert(seen_payload(old_seen, o.epoch, o.reporter@, o.subject@) is Some);
                        let c = choose|c: int| 0 <= c < old_seen.len() && (#[trigger] old_seen[c]).epoch == o.epoch
                            && old_seen[c].reporter@ == o.reporter@ && old_seen[c].subject@ == o.subject@;
                        assert(s[c] == old_seen[c]);
                    }
                    let n = old_seen.len() as int;
                    let c = choose|c: int| 0 <= c < s.len() && (#[trigger] s[c]).epoch == entry.epoch && s[c].reporter@ == a.reporter@
                        && s[c].subject@ == a.subject@;
                    assert(s[n].epoch == entry.epoch && s[n].reporter@ == a.reporter@ && s[n].subject@ == a.subject@);
                    assert(s[c].reporter =~= s[n].reporter);
                    assert(s[c].subject =~= s[n].subject);
                    assert(c == n);
                }
            },
        }
        self.entries.push(entry);
        if self.epoch_subject_applied(entry.epoch, a.subject) || !self.authority_ok(&a.reporter)
            || self.pending_contains(entry.epoch, &a.subject, &a.reporter) {
            return Ok(());
        }
        let ghost old_pending = self.pending@;
        let obs = PendingObservation {
            epoch: entry.epoch,
            subject: a.subject,
            reporter: a.reporter,
            successes: a.successes,
            failures: a.failures,
        };
        self.pending.push(obs);
        proof {
            let p = self.pending@;
            assert(p == old_pending.push(obs));
            assert forall|i: int, j: int| 0 <= i < j < p.len() implies !(p[i].epoch == p[j].epoch
                && p[i].subject == p[j].subject && p[i].reporter == p[j].reporter) by {
                if j == old_pending.len() {
                    if p[i].epoch == p[j].epoch && p[i].subject == p[j].subject && p[i].reporter == p[j].reporter {
                        assert(old_pending[i].epoch == entry.epoch && old_pending[i].subject@ == a.subject@
                            && old_pending[i].reporter@ == a.reporter@);
                    }
                } else {
                    assert(p[i] == old_pending[i] && p[j] == old_pending[j]);
                }
            }
        }
        Ok(())
    }

    /// After a replay: every `(epoch, subject)` with at least `K` buffered
    /// observations is released (for the median merge) and marked applied.
    pub fn finalize_replayed_quorums(&mut self) -> (r: Vec<(u64, [u8; 32], Vec<(u64, u64)>)>)
        requires
            old(self).wf(),
        ensures
            final(self).wf(),
            final(self).k() == old(self).k(),
            final(self).authorities() == old(self).authorities(),
            final(self).seen_list() == old(self).seen_list(),
            final(self).entry_list() == old(self).entry_list(),
            final(self).medians() == old(self).medians(),
            forall|i: int| 0 <= i < r@.len() ==> (#[trigger] r@[i]).2@.len() >= old(self).k(),
            forall|i: int| 0 <= i < r@.len() ==> pair_applied(final(self).applied_list(), (#[trigger] r@[i]).0, r@[i].1@),
            forall|j: int| 0 <= j < final(self).pending_list().len() ==> final(self).pending_list().filter(
                for_pair((#[trigger] final(self).pending_list()[j]).epoch, final(self).pending_list()[j].subject@),
            ).len() < final(self).k(),
            !final(self).only_appended(),
    {
        self.appended_only = Ghost(false);
        let mut out: Vec<(u64, [u8; 32], Vec<(u64, u64)>)> = Vec::new();
        let mut i: usize = 0;
        while i < self.pending.len()
            invariant
                self.wf(),
                !self.appended_only@,
                i <= self.pending@.len(),
                self.majority_k == old(self).majority_k,
                self.authority_set@ == old(self).authority_set@,
                self.seen@ == old(self).seen@,
                self.entries@ == old(self).entries@,
                self.applied_medians@ == old(self).applied_medians@,
                forall|q: int| 0 <= q < out@.len() ==> (#[trigger] out@[q]).2@.len() >= old(self).majority_k,
                forall|q: int| 0 <= q < out@.len() ==> pair_applied(self.applied@, (#[trigger] out@[q]).0, out@[q].1@),
                forall|q: int| 0 <= q < i ==> self.pending@.filter(
                    for_pair((#[trigger] self.pending@[q]).epoch, self.pending@[q].subject@),
                ).len() < self.majority_k,
            decreases self.pending@.len(), self.pending@.len() - i,
        {
            let o = self.pending[i];
            let (have, observations) = self.group_of(o.epoch, &o.subject);
            if have >= self.majority_k {
                proof {
                    let f = not_for_pair(o.epoch, o.subject@);
                    let p = self.pending@;
                    p.filter_lemma(f);
                    assert(!f(p[i as int]));
                    assert(p.filter(f).len() < p.len()) by {
                        lemma_filter_drops(p, f, i as int);
                    }
                }
                self.remove_group(o.epoch, &o.subject);
                let ghost applied_before = self.applied@;
                self.applied.push((o.epoch, o.subject));
                proof {
                    assert(self.applied@[applied_before.len() as int] == (o.epoch, o.subject));
                    assert forall|q: int| 0 <= q < out@.len() implies pair_applied(self.applied@, (#[trigger] out@[q]).0, out@[q].1@) by {
                        let w = choose|w: int| 0 <= w < applied_before.len() && (#[trigger] applied_before[w]).0 == out@[q].0
                            && applied_before[w].1@ == out@[q].1@;
                        assert(self.applied@[w] == applied_before[w]);
                    }
                }
                out.push((o.epoch, o.subject, observations));
                i = 0;
            } else {
                i = i + 1;
            }
        }
        out
    }
}

/// Filtering out an element that fails the predicate shortens the sequence.
proof fn lemma_filter_drops(p: Seq<PendingObservation>, f: spec_fn(PendingObservation) -> bool, i: int)
    requires
        0 <= i < p.len(),
        !f(p[i]),
    ensures
        p.filter(f).len() < p.len(),
    decreases p.len(),
{
    reveal(Seq::filter);
    let q = p.drop_last();
    q.lemma_filter_len(f);
    if i < p.len() - 1 {
        assert(q[i] == p[i]);
        lemma_filter_drops(q, f, i);
    }
}
} // verus!
