//! Stable layer-1 guard sets for one client epoch, and how path builders pin the
//! entry hop from them.
use vstd::prelude::*;
use vstd::multiset::Multiset;

use crate::rng::{seeded_index_in, seeded_rng, std_rng_draw};
use crate::topology::error::TopologyError;
use crate::topology::layers::Topology;
use crate::topology::roster::lemma_filter_push;
use crate::topology::types::{RelayId, is_listed, listed, same_id};

verus! {

broadcast use vstd::seq_lib::group_to_multiset_ensures, vstd::multiset::group_multiset_axioms;

/// Default guard-set size `g`.
pub const GUARD_SET_SIZE: u32 = 3;

/// How layer 1 is chosen from the held guard set.
#[derive(Clone, Copy, Debug, PartialEq, Eq)]
pub enum GuardPinMode {
    /// Always the primary guard (production default).
    StickyPrimary,
    /// Rotate across the guard set by packet index.
    Rotate,
}

impl Default for GuardPinMode {
    fn default() -> (r: Self)
        ensures
            r == GuardPinMode::StickyPrimary,
    {
        GuardPinMode::StickyPrimary
    }
}

/// Guard selection parameters for one client epoch.
#[derive(Clone, Copy, Debug, PartialEq, Eq)]
pub struct GuardConfig {
    pub guard_count: u32,
    pub pin_mode: GuardPinMode,
}

impl Default for GuardConfig {
    fn default() -> (r: Self)
        ensures
            r.guard_count == GUARD_SET_SIZE,
            r.pin_mode == GuardPinMode::StickyPrimary,
    {
        GuardConfig { guard_count: GUARD_SET_SIZE, pin_mode: GuardPinMode::StickyPrimary }
    }
}

/// Stable guard set for one client epoch, picked from topology layer 1.
#[derive(Clone, Debug, PartialEq, Eq)]
pub struct GuardSelector {
    pub epoch: u64,
    pub guards: Vec<RelayId>,
    pub pin_mode: GuardPinMode,
}

/// The draws a partial Fisher-Yates over `n` items has made after `m` steps:
/// `0..n`, `1..n`, and so on.
pub open spec fn pick_past(n: nat, m: nat) -> Seq<(bool, usize, usize)> {
    Seq::new(m, |k: int| (false, k as usize, n as usize))
}

/// `s` after the first `m` steps of the partial Fisher-Yates seeded by `seed`:
/// step `m` swaps position `m - 1` with the generator's draw in `m - 1..len`.
pub open spec fn picked_steps(s: Seq<RelayId>, seed: u64, m: nat) -> Seq<RelayId>
    decreases m,
{
    if m == 0 {
        s
    } else {
        let t = picked_steps(s, seed, (m - 1) as nat);
        let i = m - 1;
        let j = std_rng_draw(seed, pick_past(s.len(), (m - 1) as nat), false, i as usize, s.len() as usize) as int;
        t.update(i, t[j]).update(j, t[i])
    }
}

/// The `needed` guards the seeded partial shuffle of `s` picks.
pub open spec fn seeded_pick(s: Seq<RelayId>, needed: nat, seed: u64) -> Seq<RelayId> {
    picked_steps(s, seed, needed).subrange(0, needed as int)
}

/// Seed of guard selection: `client_seed * 0x517c_c1b7_2722_0a95 + epoch`, wrapping.
pub open spec fn guard_seed(client_seed: u64, epoch: u64) -> u64 {
    vstd::wrapping::u64_specs::wrapping_add(
        vstd::wrapping::u64_specs::wrapping_mul(client_seed, 0x517c_c1b7_2722_0a95u64),
        epoch,
    )
}

/// Client-seeded partial Fisher-Yates: the first `needed` of a shuffle of `candidates`.
fn pick_distinct(candidates: &[RelayId], needed: usize, seed: u64) -> (r: Vec<RelayId>)
    requires
        needed <= candidates@.len(),
    ensures
        r@ == seeded_pick(candidates@, needed as nat, seed),
        r@.len() == needed,
        r@.to_multiset().subset_of(candidates@.to_multiset()),
{
    let mut c: Vec<RelayId> = vstd::slice::slice_to_vec(candidates);
    let n = c.len();
    let mut rng = seeded_rng(seed);
    let ghost s = candidates@;
    proof {
        assert(rng.past() =~= pick_past(n as nat, 0));
    }
    let mut i: usize = 0;
    while i < needed
        invariant
            needed <= n,
            n == c@.len(),
            s == candidates@,
            s.len() == n,
            i <= needed,
            c@.to_multiset() == candidates@.to_multiset(),
            c@ == picked_steps(s, seed, i as nat),
            rng.seed() == seed,
            rng.past() == pick_past(n as nat, i as nat),
        decreases needed - i,
    {
        let j = seeded_index_in(&mut rng, i, n);
        let a = c[i];
        let b = c[j];
        let ghost s0 = c@;
        c.set(i, b);
        c.set(j, a);
        proof {
            let s1 = s0.update(i as int, b);
            assert(c@ == s1.update(j as int, a));
            assert(s1[j as int] == b);
            assert(c@.to_multiset() =~= s0.to_multiset());
            assert(c@ == picked_steps(s, seed, (i + 1) as nat));
            assert(rng.past() =~= pick_past(n as nat, (i + 1) as nat));
        }
        i = i + 1;
    }
    let mut out: Vec<RelayId> = Vec::new();
    let mut k: usize = 0;
    while k < needed
        invariant
            needed <= n,
            n == c@.len(),
            k <= needed,
            out@ == c@.subrange(0, k as int),
        decreases needed - k,
    {
        out.push(c[k]);
        proof {
            assert(c@.subrange(0, k + 1) =~= c@.subrange(0, k as int).push(c@[k as int]));
        }
        k = k + 1;
    }
    proof {
        let pre = c@.subrange(0, needed as int);
        let post = c@.subrange(needed as int, n as int);
        assert(c@ =~= pre + post);
        vstd::seq_lib::lemma_multiset_commutative(pre, post);
    }
    out
}

impl GuardSelector {
    /// Pick `config.guard_count` distinct positions of topology layer 1 without any
    /// reputation filter, seeded by the client seed and the epoch.
    pub fn new_for_tests(topology: &Topology, config: &GuardConfig, client_seed: u64) -> (r: Result<Self, TopologyError>)
        ensures
            topology.layers@.len() == 0 ==> r == Err::<Self, TopologyError>(TopologyError::EmptyLayer { layer: 1, epoch: topology.epoch }),
            topology.layers@.len() > 0 && topology.layers@[0]@.len() < config.guard_count ==> r == Err::<Self, TopologyError>(
                TopologyError::InsufficientGuards { available: topology.layers@[0]@.len() as usize, needed: config.guard_count as usize }),
            topology.layers@.len() > 0 && topology.layers@[0]@.len() >= config.guard_count ==> (r matches Ok(g) && {
                &&& g.epoch == topology.epoch
                &&& g.pin_mode == config.pin_mode
                &&& g.guards@.len() == config.guard_count
                &&& g.guards@.to_multiset().subset_of(topology.layers@[0]@.to_multiset())
                &&& g.guards@ == seeded_pick(topology.layers@[0]@, config.guard_count as nat, guard_seed(client_seed, topology.epoch))
            }),
    {
        let layer1 = match topology.layer(0) {
            Some(l) => l,
            None => return Err(TopologyError::EmptyLayer { layer: 1, epoch: topology.epoch }),
        };
        let needed = config.guard_count as usize;
        if layer1.len() < needed {
            return Err(TopologyError::InsufficientGuards { available: layer1.len(), needed });
        }
        let seed = client_seed.wrapping_mul(0x517c_c1b7_2722_0a95).wrapping_add(topology.epoch);
        let guards = pick_distinct(layer1, needed, seed);
        Ok(GuardSelector { epoch: topology.epoch, guards, pin_mode: config.pin_mode })
    }

    /// Same as `new_for_tests` (unfiltered selection).
    pub fn new(topology: &Topology, config: &GuardConfig, client_seed: u64) -> (r: Result<Self, TopologyError>)
        ensures
            topology.layers@.len() == 0 ==> r == Err::<Self, TopologyError>(TopologyError::EmptyLayer { layer: 1, epoch: topology.epoch }),
            topology.layers@.len() > 0 && topology.layers@[0]@.len() < config.guard_count ==> r == Err::<Self, TopologyError>(
                TopologyError::InsufficientGuards { available: topology.layers@[0]@.len() as usize, needed: config.guard_count as usize }),
            topology.layers@.len() > 0 && topology.layers@[0]@.len() >= config.guard_count ==> (r matches Ok(g) && {
                &&& g.epoch == topology.epoch
                &&& g.pin_mode == config.pin_mode
                &&& g.guards@.len() == config.guard_count
                &&& g.guards@.to_multiset().subset_of(topology.layers@[0]@.to_multiset())
                &&& g.guards@ == seeded_pick(topology.layers@[0]@, config.guard_count as nat, guard_seed(client_seed, topology.epoch))
            }),
    {
        Self::new_for_tests(topology, config, client_seed)
    }

    /// Guard selection from a candidate list already filtered by the caller (at least
    /// `config.guard_count` candidates).
    pub fn from_candidates(epoch: u64, candidates: &[RelayId], config: &GuardConfig, client_seed: u64) -> (r: Self)
        requires
            candidates@.len() >= config.guard_count,
        ensures
            r.epoch == epoch,
            r.pin_mode == config.pin_mode,
            r.guards@.len() == config.guard_count,
            r.guards@.to_multiset().subset_of(candidates@.to_multiset()),
            r.guards@ == seeded_pick(candidates@, config.guard_count as nat, guard_seed(client_seed, epoch)),
    {
        let seed = client_seed.wrapping_mul(0x517c_c1b7_2722_0a95).wrapping_add(epoch);
        let guards = pick_distinct(candidates, config.guard_count as usize, seed);
        GuardSelector { epoch, guards, pin_mode: config.pin_mode }
    }

    /// The layer-1 relays in `eligible` (those at or above the reputation floor), in
    /// layer order.
    fn eligible_layer_one(layer1: &[RelayId], eligible: &[RelayId]) -> (r: Vec<RelayId>)
        ensures
            r@ == layer1@.filter(|id: RelayId| listed(eligible@, id.0@)),
    {
        let mut out: Vec<RelayId> = Vec::new();
        let mut i: usize = 0;
        while i < layer1.len()
            invariant
                i <= layer1@.len(),
                out@ == layer1@.subrange(0, i as int).filter(|id: RelayId| listed(eligible@, id.0@)),
            decreases layer1@.len() - i,
        {
            proof {
                assert(layer1@.subrange(0, i + 1) =~= layer1@.subrange(0, i as int).push(layer1@[i as int]));
                lemma_filter_push(layer1@.subrange(0, i as int), layer1@[i as int], |id: RelayId| listed(eligible@, id.0@));
            }
            if is_listed(eligible, &layer1[i]) {
                out.push(layer1[i]);
            }
            i = i + 1;
        }
        proof {
            assert(layer1@.subrange(0, layer1@.len() as int) =~= layer1@);
        }
        out
    }

    /// Guard selection restricted to the layer-1 relays in `eligible` (the relays at
    /// or above the reputation floor), seeded by the client seed and the epoch.
    pub fn new_reputation_weighted(topology: &Topology, config: &GuardConfig, client_seed: u64, eligible: &[RelayId]) -> (r: Result<Self, TopologyError>)
        ensures
            topology.layers@.len() == 0 ==> r == Err::<Self, TopologyError>(TopologyError::EmptyLayer { layer: 1, epoch: topology.epoch }),
            topology.layers@.len() > 0 ==> ({
                let cands = topology.layers@[0]@.filter(|id: RelayId| listed(eligible@, id.0@));
                &&& cands.len() < config.guard_count ==> r == Err::<Self, TopologyError>(
                    TopologyError::InsufficientReputation { available: cands.len() as usize, needed: config.guard_count as usize })
                &&& cands.len() >= config.guard_count ==> (r matches Ok(g) && {
                    &&& g.epoch == topology.epoch
                    &&& g.pin_mode == config.pin_mode
                    &&& g.guards@.len() == config.guard_count
                    &&& g.guards@.to_multiset().subset_of(cands.to_multiset())
                    &&& g.guards@ == seeded_pick(cands, config.guard_count as nat, guard_seed(client_seed, topology.epoch))
                })
            }),
    {
        let layer1 = match topology.layer(0) {
            Some(l) => l,
            None => return Err(TopologyError::EmptyLayer { layer: 1, epoch: topology.epoch }),
        };
        let needed = config.guard_count as usize;
        let candidates = Self::eligible_layer_one(layer1, eligible);
        if candidates.len() < needed {
            return Err(TopologyError::InsufficientReputation { available: candidates.len(), needed });
        }
        Ok(Self::from_candidates(topology.epoch, candidates.as_slice(), config, client_seed))
    }

    /// Held guard set.
    pub fn guard_set(&self) -> (r: &[RelayId])
        ensures
            r@ == self.guards@,
    {
        self.guards.as_slice()
    }

    /// Primary guard plus the remaining backups (same order as the set).
    pub fn primary_and_backups(&self) -> (r: (RelayId, &[RelayId]))
        requires
            self.guards@.len() > 0,
        ensures
            r.0 == self.guards@[0],
            r.1@ == self.guards@.subrange(1, self.guards@.len() as int),
    {
        let primary = self.guards[0];
        let n = self.guards.len();
        (primary, &self.guards.as_slice()[1..n])
    }

    /// Primary entry guard.
    pub fn primary_guard(&self) -> (r: RelayId)
        requires
            self.guards@.len() > 0,
        ensures
            r == self.guards@[0],
    {
        self.guards[0]
    }

    /// Layer-1 entry for `packet_index`: the primary (sticky) or the guard at
    /// `packet_index mod g` (rotate).
    pub fn entry_guard_for_packet(&self, packet_index: u64) -> (r: RelayId)
        requires
            self.guards@.len() > 0,
        ensures
            r == match self.pin_mode {
                GuardPinMode::StickyPrimary => self.guards@[0],
                GuardPinMode::Rotate => self.guards@[((packet_index as usize) as int) % (self.guards@.len() as int)],
            },
    {
        match self.pin_mode {
            GuardPinMode::StickyPrimary => self.primary_guard(),
            GuardPinMode::Rotate => {
                let g = self.guards.len();
                self.guards[(packet_index as usize) % g]
            },
        }
    }

    /// Whether any held guard is in `adversary`.
    pub fn any_guard_compromised(&self, adversary: &[RelayId]) -> (r: bool)
        ensures
            r == exists|i: int, j: int| 0 <= i < self.guards@.len() && 0 <= j < adversary@.len()
                && #[trigger] self.guards@[i].0@ == #[trigger] adversary@[j].0@,
    {
        let mut i: usize = 0;
        while i < self.guards.len()
            invariant
                i <= self.guards@.len(),
                forall|a: int, b: int| 0 <= a < i && 0 <= b < adversary@.len() ==> #[trigger] self.guards@[a].0@ != #[trigger] adversary@[b].0@,
            decreases self.guards@.len() - i,
        {
            let mut j: usize = 0;
            while j < adversary.len()
                invariant
                    i < self.guards@.len(),
                    j <= adversary@.len(),
                    forall|b: int| 0 <= b < j ==> self.guards@[i as int].0@ != #[trigger] adversary@[b].0@,
                decreases adversary@.len() - j,
            {
                if same_id(&self.guards[i], &adversary[j]) {
                    return true;
                }
                j = j + 1;
            }
            i = i + 1;
        }
        false
    }
}

} // verus!
