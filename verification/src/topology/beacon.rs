//! Public randomness beacon for cover scheduling and committee assignment.
//!
//! `HashChainBeacon` is single-authority and verifiable by anyone holding the
//! seed: `value(r) = SHA3-256("aegis-beacon-v1" || seed || r)`. It does not give
//! the unpredictability of a threshold beacon.
use vstd::prelude::*;
use vstd::bytes::{spec_u64_from_le_bytes, spec_u64_to_le_bytes};
use vstd::multiset::Multiset;

use crate::crypto::{sha3_256, sha3_256_of};
use crate::topology::types::RelayId;
use crate::wire::{extend_bytes, push_u64_le, read_u64_le};

verus! {

broadcast use vstd::seq_lib::group_to_multiset_ensures, vstd::multiset::group_multiset_axioms;

/// Domain tag of the hash-chain beacon (`aegis-beacon-v1`).
pub const BEACON_DOMAIN: [u8; 15] = [97, 101, 103, 105, 115, 45, 98, 101, 97, 99, 111, 110, 45, 118, 49];

/// A source of per-round public randomness, deterministic per (instance, round).
pub trait Beacon {
    /// The value of `round` (what implementations promise to return).
    spec fn round_value(&self, round: u64) -> Seq<u8>;

    /// 32 bytes of public randomness for `round`.
    fn randomness(&self, round: u64) -> (r: [u8; 32])
        ensures
            r@ == self.round_value(round);
}

/// Reference beacon keyed by a per-epoch seed.
#[derive(Clone, Copy, Debug, PartialEq, Eq)]
pub struct HashChainBeacon {
    seed: [u8; 32],
}

/// The hash-chain value of `round` under `seed`.
pub open spec fn hash_chain_value(seed: Seq<u8>, round: u64) -> Seq<u8> {
    sha3_256_of(BEACON_DOMAIN@ + seed + spec_u64_to_le_bytes(round))
}

impl HashChainBeacon {
    pub closed spec fn seed_bytes(&self) -> Seq<u8> {
        self.seed@
    }

    pub fn new(seed: [u8; 32]) -> (r: Self)
        ensures
            r.seed_bytes() == seed@,
    {
        HashChainBeacon { seed }
    }
}

impl Beacon for HashChainBeacon {
    open spec fn round_value(&self, round: u64) -> Seq<u8> {
        hash_chain_value(self.seed_bytes(), round)
    }

    fn randomness(&self, round: u64) -> (r: [u8; 32]) {
        let mut msg: Vec<u8> = Vec::new();
        extend_bytes(&mut msg, BEACON_DOMAIN.as_slice());
        extend_bytes(&mut msg, self.seed.as_slice());
        push_u64_le(&mut msg, round);
        sha3_256(msg.as_slice())
    }
}

/// The swap partner drawn for position `i`: `i + (u64 of the first 8 bytes of
/// SHA3-256(randomness || i) mod (n - i))`.
pub open spec fn swap_partner(randomness: Seq<u8>, i: nat, n: nat) -> int {
    let digest = sha3_256_of(randomness + spec_u64_to_le_bytes(i as u64));
    let raw = spec_u64_from_le_bytes(digest.subrange(0, 8));
    i + ((raw as usize) as int) % ((n - i) as int)
}

/// Seq with positions `i` and `j` exchanged.
pub open spec fn swapped(s: Seq<RelayId>, i: int, j: int) -> Seq<RelayId> {
    s.update(i, s[j]).update(j, s[i])
}

/// Positions `i..take` of the prefix shuffle driven by the beacon value.
pub open spec fn committee_shuffle(c: Seq<RelayId>, randomness: Seq<u8>, i: nat, take: nat) -> Seq<RelayId>
    decreases take - i,
{
    if i >= take || i >= c.len() {
        c
    } else {
        committee_shuffle(swapped(c, i as int, swap_partner(randomness, i, c.len())), randomness, i + 1, take)
    }
}

/// The committee a beacon value selects from `pool`: empty for an empty pool or
/// size; otherwise the first `min(size, |pool|)` of the prefix shuffle.
pub open spec fn spec_committee(pool: Seq<RelayId>, randomness: Seq<u8>, size: nat) -> Seq<RelayId> {
    if pool.len() == 0 || size == 0 {
        Seq::empty()
    } else {
        let take = if size < pool.len() { size } else { pool.len() };
        committee_shuffle(pool, randomness, 0, take).subrange(0, take as int)
    }
}

/// Every party with the beacon value gets the same committee for `round`: the
/// first `min(committee_size, |pool|)` relays of a prefix shuffle of the pool
/// driven by the round's randomness; members are distinct positions of the pool.
pub fn committee_for_round<B: Beacon>(beacon: &B, pool: &[RelayId], round: u64, committee_size: usize) -> (r: Vec<RelayId>)
    ensures
        r@ == spec_committee(pool@, beacon.round_value(round), committee_size as nat),
        r@.to_multiset().subset_of(pool@.to_multiset()),
        r@.len() == if pool@.len() == 0 || committee_size == 0 { 0 } else if committee_size < pool@.len() {
            committee_size as int
        } else {
            pool@.len() as int
        },
{
    if pool.len() == 0 || committee_size == 0 {
        return Vec::new();
    }
    let mut candidates: Vec<RelayId> = vstd::slice::slice_to_vec(pool);
    let randomness = beacon.randomness(round);
    let n = candidates.len();
    let take = if committee_size < n { committee_size } else { n };
    let mut i: usize = 0;
    while i < take
        invariant
            n == candidates@.len(),
            n == pool@.len(),
            take <= n,
            i <= take,
            candidates@.to_multiset() == pool@.to_multiset(),
            committee_shuffle(candidates@, randomness@, i as nat, take as nat)
                == committee_shuffle(pool@, randomness@, 0, take as nat),
        decreases take - i,
    {
        let mut msg: Vec<u8> = Vec::new();
        extend_bytes(&mut msg, randomness.as_slice());
        push_u64_le(&mut msg, i as u64);
        let digest = sha3_256(msg.as_slice());
        let raw = read_u64_le(digest.as_slice(), 0);
        let j = i + (raw as usize) % (n - i);
        let ghost s0 = candidates@;
        proof {
            assert(j == swap_partner(randomness@, i as nat, n as nat));
        }
        let a = candidates[i];
        let b = candidates[j];
        candidates.set(i, b);
        candidates.set(j, a);
        proof {
            let s1 = s0.update(i as int, b);
            assert(candidates@ == s1.update(j as int, a));
            assert(s1[j as int] == b);
            assert(candidates@.to_multiset() =~= s0.to_multiset());
            assert(candidates@ =~= swapped(s0, i as int, j as int));
        }
        i = i + 1;
    }
    let mut out: Vec<RelayId> = Vec::new();
    let mut k: usize = 0;
    while k < take
        invariant
            take <= n,
            n == candidates@.len(),
            k <= take,
            out@ == candidates@.subrange(0, k as int),
        decreases take - k,
    {
        out.push(candidates[k]);
        proof {
            assert(candidates@.subrange(0, k + 1) =~= candidates@.subrange(0, k as int).push(candidates@[k as int]));
        }
        k = k + 1;
    }
    proof {
        let pre = candidates@.subrange(0, take as int);
        let post = candidates@.subrange(take as int, n as int);
        assert(candidates@ =~= pre + post);
        vstd::seq_lib::lemma_multiset_commutative(pre, post);
    }
    out
}

/// The 64-bit draw the beacon value gives for position `i` (first eight bytes of
/// `SHA3-256(randomness || i)`, little-endian).
pub open spec fn beacon_draw(randomness: Seq<u8>, i: nat) -> u64 {
    spec_u64_from_le_bytes(sha3_256_of(randomness + spec_u64_to_le_bytes(i as u64)).subrange(0, 8))
}

proof fn lemma_shuffle_len(c: Seq<RelayId>, randomness: Seq<u8>, i: nat, take: nat)
    ensures
        committee_shuffle(c, randomness, i, take).len() == c.len(),
    decreases take - i,
{
    if !(i >= take || i >= c.len()) {
        let j = swap_partner(randomness, i, c.len());
        assert(i <= j < c.len()) by {
            let raw = beacon_draw(randomness, i);
            assert(0 <= ((raw as usize) as int) % ((c.len() - i) as int) < c.len() - i);
        }
        lemma_shuffle_len(swapped(c, i as int, j), randomness, i + 1, take);
    }
}

/// The swap partner of position `i` of an `n`-long pool lies in `i..n`.
proof fn lemma_swap_partner_range(randomness: Seq<u8>, i: nat, n: nat)
    requires
        i < n,
    ensures
        i <= swap_partner(randomness, i, n) < n,
{
    let raw = beacon_draw(randomness, i);
    assert(0 <= ((raw as usize) as int) % ((n - i) as int) < n - i);
}

/// Shuffle steps from position `i` leave the positions before `i` alone.
proof fn lemma_shuffle_keeps_front(c: Seq<RelayId>, randomness: Seq<u8>, i: nat, take: nat, p: int)
    requires
        0 <= p < i,
        p < c.len(),
    ensures
        committee_shuffle(c, randomness, i, take)[p] == c[p],
    decreases take - i,
{
    if !(i >= take || i >= c.len()) {
        let j = swap_partner(randomness, i, c.len());
        lemma_swap_partner_range(randomness, i, c.len());
        lemma_shuffle_keeps_front(swapped(c, i as int, j), randomness, i + 1, take, p);
    }
}

/// Running the shuffle one position further is one more swap at that position.
proof fn lemma_shuffle_step(c: Seq<RelayId>, randomness: Seq<u8>, i: nat, t: nat)
    requires
        i <= t < c.len(),
    ensures
        committee_shuffle(c, randomness, i, t + 1) == swapped(
            committee_shuffle(c, randomness, i, t),
            t as int,
            swap_partner(randomness, t, c.len()),
        ),
    decreases t - i,
{
    if i < t {
        let j = swap_partner(randomness, i, c.len());
        lemma_swap_partner_range(randomness, i, c.len());
        let c1 = swapped(c, i as int, j);
        assert(c1.len() == c.len());
        lemma_shuffle_step(c1, randomness, i + 1, t);
    } else {
        let j = swap_partner(randomness, t, c.len());
        let c1 = swapped(c, t as int, j);
        assert(committee_shuffle(c, randomness, t, t) == c);
        assert(committee_shuffle(c, randomness, t, t + 1) == committee_shuffle(c1, randomness, t + 1, t + 1));
        assert(committee_shuffle(c1, randomness, t + 1, t + 1) == c1);
    }
}

/// Committees of consecutive sizes agree: the committee of size `k` is the first
/// `k` members of the committee of size `k + 1`. (The draws of a position depend on
/// the pool, never on the committee size.)
pub proof fn lemma_committee_prefix(pool: Seq<RelayId>, randomness: Seq<u8>, k: nat)
    requires
        k < pool.len(),
    ensures
        spec_committee(pool, randomness, k) == spec_committee(pool, randomness, k + 1).subrange(0, k as int),
{
    let n = pool.len();
    let a = committee_shuffle(pool, randomness, 0, k);
    let b = committee_shuffle(pool, randomness, 0, k + 1);
    lemma_shuffle_step(pool, randomness, 0, k);
    lemma_shuffle_len(pool, randomness, 0, k);
    lemma_swap_partner_range(randomness, k, n);
    let j = swap_partner(randomness, k, n);
    assert(b == swapped(a, k as int, j));
    if k == 0 {
        assert(spec_committee(pool, randomness, 0) =~= Seq::<RelayId>::empty());
        assert(b.subrange(0, 0) =~= Seq::<RelayId>::empty());
    } else {
        assert(b.subrange(0, k as int) =~= a.subrange(0, k as int));
    }
}

/// The first committee member is the pool member at `draw mod |pool|`, where
/// `draw` is the beacon's draw for position 0: every member of the pool can lead
/// the committee, whatever the committee size.
pub proof fn lemma_committee_first_member(pool: Seq<RelayId>, randomness: Seq<u8>, size: nat)
    requires
        pool.len() > 0,
        size > 0,
    ensures
        spec_committee(pool, randomness, size).len() > 0,
        spec_committee(pool, randomness, size)[0]
            == pool[((beacon_draw(randomness, 0) as usize) as int) % (pool.len() as int)],
{
    let n = pool.len();
    let take: nat = if size < n { size } else { n };
    let j = swap_partner(randomness, 0, n);
    lemma_swap_partner_range(randomness, 0, n);
    let c1 = swapped(pool, 0, j);
    assert(committee_shuffle(pool, randomness, 0, take) == committee_shuffle(c1, randomness, 1, take));
    lemma_shuffle_keeps_front(c1, randomness, 1, take, 0);
    lemma_shuffle_len(pool, randomness, 0, take);
}

} // verus!
