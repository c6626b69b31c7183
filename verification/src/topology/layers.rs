//! Stratified L-tier topology with stable per-epoch membership: admitted relays are
//! shuffled by an epoch-seeded generator and dealt round-robin into the layers.
use vstd::prelude::*;
use vstd::multiset::Multiset;

use crate::rng::{seeded_index_upto, seeded_rng, std_rng_draw};
use crate::topology::error::TopologyError;
use crate::topology::roster::{RelayRoster, eligible_entries, key_of};
use crate::topology::types::{RelayId, TopologyConfig};

verus! {

broadcast use vstd::seq_lib::group_to_multiset_ensures, vstd::multiset::group_multiset_axioms;

/// Fixed layer membership for one epoch. `layers[i]` holds the relays of layer `i + 1`.
#[derive(Clone, Debug, PartialEq, Eq)]
pub struct Topology {
    pub epoch: u64,
    pub layer_count: usize,
    pub layers: Vec<Vec<RelayId>>,
}

/// The layers as plain sequences.
pub open spec fn layer_views(t: Topology) -> Seq<Seq<RelayId>> {
    t.layers@.map_values(|v: Vec<RelayId>| v@)
}

impl Topology {
    /// The relays of layer `index` (0-based), if the topology has that layer.
    pub fn layer(&self, index: usize) -> (r: Option<&[RelayId]>)
        ensures
            r is Some <==> index < self.layers@.len(),
            r matches Some(s) ==> s@ == self.layers@[index as int]@,
    {
        if index < self.layers.len() {
            Some(self.layers[index].as_slice())
        } else {
            None
        }
    }
}

/// Layers after dealing the first `k` relays of `order` round-robin into `l` layers.
pub open spec fn round_robin(order: Seq<RelayId>, l: nat, k: nat) -> Seq<Seq<RelayId>>
    decreases k,
{
    if k == 0 {
        Seq::new(l, |i: int| Seq::<RelayId>::empty())
    } else {
        let p = round_robin(order, l, (k - 1) as nat);
        let slot = (k - 1) % (l as int);
        p.update(slot, p[slot].push(order[k - 1]))
    }
}

/// Copies of relay `x` over all layers.
pub open spec fn layered_count(ls: Seq<Seq<RelayId>>, x: RelayId) -> nat
    decreases ls.len(),
{
    if ls.len() == 0 {
        0
    } else {
        layered_count(ls.drop_last(), x) + ls.last().to_multiset().count(x)
    }
}

proof fn lemma_layered_count_push(ls: Seq<Seq<RelayId>>, i: int, y: RelayId, x: RelayId)
    requires
        0 <= i < ls.len(),
    ensures
        layered_count(ls.update(i, ls[i].push(y)), x) == layered_count(ls, x) + (if x == y { 1nat } else { 0nat }),
    decreases ls.len(),
{
    let t = ls.update(i, ls[i].push(y));
    if i == ls.len() - 1 {
        assert(t.drop_last() =~= ls.drop_last());
    } else {
        assert(t.drop_last() =~= ls.drop_last().update(i, ls[i].push(y)));
        lemma_layered_count_push(ls.drop_last(), i, y, x);
    }
}

proof fn lemma_layered_count_empty(l: nat, x: RelayId)
    ensures
        layered_count(Seq::new(l, |i: int| Seq::<RelayId>::empty()), x) == 0,
    decreases l,
{
    if l > 0 {
        let s = Seq::new(l, |i: int| Seq::<RelayId>::empty());
        assert(s.drop_last() =~= Seq::new((l - 1) as nat, |i: int| Seq::<RelayId>::empty()));
        lemma_layered_count_empty((l - 1) as nat, x);
    }
}

/// Round-robin dealing into `l > 0` layers is a partition: every relay of the order
/// lands in the layers exactly as often as it occurs, there are `l` layers, and
/// layer `j` holds `k / l` relays plus one more when `j < k % l` (sizes differ by at
/// most one).
pub proof fn lemma_round_robin_partition(order: Seq<RelayId>, l: nat, k: nat)
    requires
        l > 0,
        k <= order.len(),
    ensures
        round_robin(order, l, k).len() == l,
        forall|x: RelayId| #[trigger] layered_count(round_robin(order, l, k), x) == order.subrange(0, k as int).to_multiset().count(x),
        forall|j: int| 0 <= j < l ==> (#[trigger] round_robin(order, l, k)[j]).len()
            == (k as int) / (l as int) + (if j < (k as int) % (l as int) { 1int } else { 0int }),
    decreases k,
{
    if k == 0 {
        assert forall|x: RelayId| #[trigger] layered_count(round_robin(order, l, k), x) == order.subrange(0, k as int).to_multiset().count(x) by {
            lemma_layered_count_empty(l, x);
            assert(order.subrange(0, 0) =~= Seq::<RelayId>::empty());
        }
    } else {
        lemma_round_robin_partition(order, l, (k - 1) as nat);
        let p = round_robin(order, l, (k - 1) as nat);
        let slot = (k - 1) % (l as int);
        let y = order[k - 1];
        assert(order.subrange(0, k as int) =~= order.subrange(0, k - 1).push(y));
        assert forall|x: RelayId| #[trigger] layered_count(round_robin(order, l, k), x) == order.subrange(0, k as int).to_multiset().count(x) by {
            lemma_layered_count_push(p, slot, y, x);
        }
        let q = (k - 1) / (l as int);
        let r = (k - 1) % (l as int);
        assert((k - 1) == q * l + r && 0 <= r < l) by (nonlinear_arith)
            requires
                l > 0,
                k >= 1,
                q == (k - 1) / (l as int),
                r == (k - 1) % (l as int),
        ;
        if r < l - 1 {
            assert((k as int) / (l as int) == q && (k as int) % (l as int) == r + 1) by (nonlinear_arith)
                requires
                    l > 0,
                    k == q * l + r + 1,
                    0 <= r < l - 1,
            ;
        } else {
            assert((k as int) / (l as int) == q + 1 && (k as int) % (l as int) == 0) by (nonlinear_arith)
                requires
                    l > 0,
                    k == q * l + r + 1,
                    r == l - 1,
            ;
        }
        assert forall|j: int| 0 <= j < l implies (#[trigger] round_robin(order, l, k)[j]).len()
            == (k as int) / (l as int) + (if j < (k as int) % (l as int) { 1int } else { 0int }) by {
            assert(p[j].len() == (k - 1) / (l as int) + (if j < (k - 1) % (l as int) { 1int } else { 0int }));
        }
    }
}

/// The draws a top-down Fisher-Yates over `n` items has made after `m` steps:
/// `0..=n-1`, `0..=n-2`, and so on.
pub open spec fn shuffle_past(n: nat, m: nat) -> Seq<(bool, usize, usize)> {
    Seq::new(m, |k: int| (true, 0usize, (n - 1 - k) as usize))
}

/// `s` after the first `m` steps of the top-down Fisher-Yates seeded by `seed`:
/// step `m` swaps position `len - m` with the generator's draw in `0..=len - m`.
pub open spec fn shuffled_steps(s: Seq<RelayId>, seed: u64, m: nat) -> Seq<RelayId>
    decreases m,
{
    if m == 0 {
        s
    } else {
        let t = shuffled_steps(s, seed, (m - 1) as nat);
        let i = s.len() - m;
        let j = std_rng_draw(seed, shuffle_past(s.len(), (m - 1) as nat), true, 0, i as usize) as int;
        t.update(i, t[j]).update(j, t[i])
    }
}

/// The seeded shuffle of `s`: all `len - 1` steps.
pub open spec fn seeded_shuffle_of(s: Seq<RelayId>, seed: u64) -> Seq<RelayId> {
    shuffled_steps(s, seed, if s.len() == 0 { 0 } else { (s.len() - 1) as nat })
}

/// Seed of the layer shuffle: `epoch_seed * 0x9E37_79B9_7F4A_7C15 + epoch`, wrapping.
pub open spec fn layer_seed(epoch_seed: u64, epoch: u64) -> u64 {
    vstd::wrapping::u64_specs::wrapping_add(
        vstd::wrapping::u64_specs::wrapping_mul(epoch_seed, 0x9E37_79B9_7F4A_7C15u64),
        epoch,
    )
}

/// Epoch-seeded shuffle (Fisher-Yates from the top) of `ids`.
fn seeded_shuffle(ids: &mut Vec<RelayId>, seed: u64)
    ensures
        final(ids)@ == seeded_shuffle_of(old(ids)@, seed),
        final(ids)@.to_multiset() == old(ids)@.to_multiset(),
        final(ids)@.len() == old(ids)@.len(),
{
    let mut rng = seeded_rng(seed);
    let n = ids.len();
    let ghost s = ids@;
    let mut i: usize = n;
    proof {
        assert(rng.past() =~= shuffle_past(n as nat, 0));
    }
    while i > 1
        invariant
            n == ids@.len(),
            s == old(ids)@,
            s.len() == n,
            i <= n,
            n > 0 ==> i >= 1,
            ids@.to_multiset() == old(ids)@.to_multiset(),
            ids@ == shuffled_steps(s, seed, (n - i) as nat),
            rng.seed() == seed,
            rng.past() == shuffle_past(n as nat, (n - i) as nat),
        decreases i,
    {
        i = i - 1;
        let ghost m: nat = (n - i) as nat;
        let ghost pre = rng.past();
        let j = seeded_index_upto(&mut rng, i);
        let a = ids[i];
        let b = ids[j];
        let ghost s0 = ids@;
        ids.set(i, b);
        ids.set(j, a);
        proof {
            let s1 = s0.update(i as int, b);
            assert(ids@ == s1.update(j as int, a));
            assert(s1.to_multiset() == s0.to_multiset().insert(b).remove(a));
            assert(s1.update(j as int, a).to_multiset() == s1.to_multiset().insert(a).remove(s1[j as int]));
            if i == j {
                assert(s1[j as int] == b);
            } else {
                assert(s1[j as int] == b);
            }
            assert(ids@.to_multiset() =~= s0.to_multiset());
            assert(pre == shuffle_past(n as nat, (m - 1) as nat));
            assert(s.len() - m == i);
            assert(ids@ == shuffled_steps(s, seed, m));
            assert(rng.past() =~= shuffle_past(n as nat, m));
        }
    }
    proof {
        if n > 0 {
            assert(i == 1);
        }
    }
}

/// The ids of the first `k` sorted roster entries.
pub open spec fn roster_ids(roster: RelayRoster) -> Seq<RelayId> {
    roster.entries().map_values(|e: crate::topology::roster::RosterEntry| e.record.id)
}

/// Shuffle `ids` with the epoch seed and deal them round-robin into `layer_count` layers.
pub fn layer_relays(ids: Vec<RelayId>, epoch: u64, layer_count: usize, epoch_seed: u64) -> (r: Topology)
    requires
        layer_count > 0,
    ensures
        r.epoch == epoch,
        r.layer_count == layer_count,
        r.layers@.len() == layer_count,
        exists|order: Seq<RelayId>| order.to_multiset() == ids@.to_multiset() && order.len() == ids@.len()
            && layer_views(r) == round_robin(order, layer_count as nat, ids@.len()),
        layer_views(r) == round_robin(seeded_shuffle_of(ids@, layer_seed(epoch_seed, epoch)), layer_count as nat, ids@.len()),
{
    let mut ids = ids;
    let seed = epoch_seed.wrapping_mul(0x9E37_79B9_7F4A_7C15).wrapping_add(epoch);
    seeded_shuffle(&mut ids, seed);
    let mut layers: Vec<Vec<RelayId>> = Vec::new();
    let mut l: usize = 0;
    while l < layer_count
        invariant
            l <= layer_count,
            layers@.len() == l,
            forall|m: int| 0 <= m < l ==> (#[trigger] layers@[m])@.len() == 0,
        decreases layer_count - l,
    {
        layers.push(Vec::new());
        l = l + 1;
    }
    proof {
        assert forall|m: int| 0 <= m < layer_count implies (#[trigger] layers@[m])@ =~= Seq::<RelayId>::empty() by {
            assert(layers@[m]@.len() == 0);
        }
        assert(layers@.map_values(|v: Vec<RelayId>| v@) =~= round_robin(ids@, layer_count as nat, 0));
    }
    let n = ids.len();
    let mut i: usize = 0;
    while i < n
        invariant
            layer_count > 0,
            n == ids@.len(),
            i <= n,
            layers@.len() == layer_count,
            layers@.map_values(|v: Vec<RelayId>| v@) == round_robin(ids@, layer_count as nat, i as nat),
        decreases n - i,
    {
        let slot = i % layer_count;
        let ghost before = layers@.map_values(|v: Vec<RelayId>| v@);
        let mut layer = layers.remove(slot);
        layer.push(ids[i]);
        layers.insert(slot, layer);
        proof {
            assert(layers@.map_values(|v: Vec<RelayId>| v@) =~= before.update(slot as int, before[slot as int].push(ids@[i as int])));
        }
        i = i + 1;
    }
    Topology { epoch, layer_count, layers }
}

/// Assign the admitted relays to `L` layers for `epoch`, deterministically from
/// `epoch_seed`: stable for the epoch.
pub fn build_topology(roster: &RelayRoster, epoch: u64, config: &TopologyConfig, epoch_seed: u64) -> (r: Result<Topology, TopologyError>)
    ensures
        config.layer_count == 0 ==> r == Err::<Topology, TopologyError>(TopologyError::InvalidLayerCount(0)),
        config.layer_count > 0 && roster.entries().len() == 0 ==> r == Err::<Topology, TopologyError>(TopologyError::EmptyRoster),
        config.layer_count > 0 && roster.entries().len() > 0 ==> (r matches Ok(t) && {
            &&& t.epoch == epoch
            &&& t.layer_count == config.layer_count
            &&& t.layers@.len() == config.layer_count
            &&& exists|order: Seq<RelayId>| order.to_multiset() == roster_ids(*roster).to_multiset()
                && order.len() == roster_ids(*roster).len()
                && layer_views(t) == round_robin(order, config.layer_count as nat, order.len())
            &&& layer_views(t) == round_robin(seeded_shuffle_of(roster_ids(*roster), layer_seed(epoch_seed, epoch)),
                config.layer_count as nat, roster_ids(*roster).len())
        }),
{
    let layer_count = config.layer_count;
    if layer_count == 0 {
        return Err(TopologyError::InvalidLayerCount(0));
    }
    let relays = roster.admitted_sorted();
    if relays.len() == 0 {
        return Err(TopologyError::EmptyRoster);
    }
    let mut ids: Vec<RelayId> = Vec::new();
    let mut i: usize = 0;
    while i < relays.len()
        invariant
            i <= relays@.len(),
            relays@.len() == roster.entries().len(),
            forall|k: int| 0 <= k < relays@.len() ==> (#[trigger] relays@[k]).id.0@ == roster.entries()[k].record.id.0@,
            ids@.len() == i,
            forall|k: int| 0 <= k < i ==> #[trigger] ids@[k] == roster_ids(*roster)[k],
        decreases relays@.len() - i,
    {
        proof {
            assert(relays@[i as int].id.0 =~= roster.entries()[i as int].record.id.0);
        }
        ids.push(relays[i].id);
        i = i + 1;
    }
    proof {
        assert(ids@ =~= roster_ids(*roster));
    }
    Ok(layer_relays(ids, epoch, layer_count, epoch_seed))
}

/// The ids of the admitted relays in `eligible`, in increasing id order.
pub open spec fn eligible_roster_ids(roster: RelayRoster, eligible: Seq<RelayId>) -> Seq<RelayId> {
    eligible_entries(roster.entries(), eligible).map_values(|e: crate::topology::roster::RosterEntry| e.record.id)
}

/// `build_topology` over the admitted relays in `eligible` only (those at or
/// above the reputation floor); none of them left is `EmptyRoster`.
pub fn build_topology_reputation_filtered(
    roster: &RelayRoster,
    epoch: u64,
    config: &TopologyConfig,
    epoch_seed: u64,
    eligible: &[RelayId],
) -> (r: Result<Topology, TopologyError>)
    ensures
        config.layer_count == 0 ==> r == Err::<Topology, TopologyError>(TopologyError::InvalidLayerCount(0)),
        config.layer_count > 0 && eligible_roster_ids(*roster, eligible@).len() == 0 ==> r == Err::<Topology, TopologyError>(
            TopologyError::EmptyRoster),
        config.layer_count > 0 && eligible_roster_ids(*roster, eligible@).len() > 0 ==> (r matches Ok(t) && {
            &&& t.epoch == epoch
            &&& t.layer_count == config.layer_count
            &&& t.layers@.len() == config.layer_count
            &&& exists|order: Seq<RelayId>| order.to_multiset() == eligible_roster_ids(*roster, eligible@).to_multiset()
                && order.len() == eligible_roster_ids(*roster, eligible@).len()
                && layer_views(t) == round_robin(order, config.layer_count as nat, order.len())
            &&& layer_views(t) == round_robin(seeded_shuffle_of(eligible_roster_ids(*roster, eligible@),
                layer_seed(epoch_seed, epoch)), config.layer_count as nat, eligible_roster_ids(*roster, eligible@).len())
        }),
{
    let layer_count = config.layer_count;
    if layer_count == 0 {
        return Err(TopologyError::InvalidLayerCount(0));
    }
    let relays = roster.admitted_sorted_above_reputation(eligible);
    let ghost f = eligible_entries(roster.entries(), eligible@);
    if relays.len() == 0 {
        return Err(TopologyError::EmptyRoster);
    }
    let mut ids: Vec<RelayId> = Vec::new();
    let mut i: usize = 0;
    while i < relays.len()
        invariant
            i <= relays@.len(),
            relays@.len() == f.len(),
            f == eligible_entries(roster.entries(), eligible@),
            forall|k: int| 0 <= k < relays@.len() ==> crate::topology::roster::record_view(#[trigger] relays@[k])
                == crate::topology::roster::record_view(f[k].record),
            ids@.len() == i,
            forall|k: int| 0 <= k < i ==> #[trigger] ids@[k] == eligible_roster_ids(*roster, eligible@)[k],
        decreases relays@.len() - i,
    {
        proof {
            assert(crate::topology::roster::record_view(relays@[i as int]) == crate::topology::roster::record_view(f[i as int].record));
            assert(relays@[i as int].id.0 =~= f[i as int].record.id.0);
        }
        ids.push(relays[i].id);
        i = i + 1;
    }
    proof {
        assert(ids@ =~= eligible_roster_ids(*roster, eligible@));
    }
    Ok(layer_relays(ids, epoch, layer_count, epoch_seed))
}

} // verus!
