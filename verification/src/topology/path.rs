//! Per-packet path selection (one relay per layer, fresh operating-system
//! randomness on every call) and the jurisdiction-diversity check.
use vstd::prelude::*;

use crate::rng::os_index_below;
use crate::text::str_eq;
use crate::topology::error::TopologyError;
use crate::topology::guards::{GUARD_SET_SIZE, GuardConfig, GuardPinMode, GuardSelector, guard_seed, seeded_pick};
use crate::topology::layers::{Topology, layer_views};
use crate::topology::roster::{RelayRoster, entry_map, has_key, index_of, key_of, record_view};
use crate::topology::types::{RelayId, RelayRecord, is_listed, listed};

verus! {

/// Policy for jurisdiction diversity on a path.
#[derive(Clone, Copy, Debug, PartialEq, Eq)]
pub struct JurisdictionPolicy {
    /// Maximum relays from one jurisdiction on a path.
    pub max_per_jurisdiction: usize,
}

impl Default for JurisdictionPolicy {
    fn default() -> (r: Self)
        ensures
            r.max_per_jurisdiction == 1,
    {
        JurisdictionPolicy { max_per_jurisdiction: 1 }
    }
}

/// The jurisdiction the roster records for `id`.
pub open spec fn juris_in(roster: RelayRoster, id: RelayId) -> Seq<char> {
    entry_map(roster.entries())[id.0@].0.1
}

/// How many of `js` equal `j`.
pub open spec fn count_eq(js: Seq<Seq<char>>, j: Seq<char>) -> nat
    decreases js.len(),
{
    if js.len() == 0 {
        0
    } else {
        count_eq(js.drop_last(), j) + if js.last() == j { 1nat } else { 0nat }
    }
}

/// Jurisdictions of the first `k` hops.
pub open spec fn juris_prefix(path: Seq<RelayId>, roster: RelayRoster, k: nat) -> Seq<Seq<char>> {
    Seq::new(k, |i: int| juris_in(roster, path[i]))
}

/// No jurisdiction occurs more than `max` times among the first `k` hops.
pub open spec fn diverse_prefix(path: Seq<RelayId>, roster: RelayRoster, max: usize, k: nat) -> bool {
    forall|i: int| 0 <= i < k ==> count_eq(juris_prefix(path, roster, k), #[trigger] juris_in(roster, path[i])) <= max
}

/// Index of the first hop of `path` missing from the roster (the path's length when
/// every hop is on it).
pub open spec fn first_off_roster(path: Seq<RelayId>, roster: RelayRoster) -> int {
    if exists|i: int| 0 <= i < path.len() && !has_key(roster.entries(), (#[trigger] path[i]).0@) {
        choose|i: int| 0 <= i < path.len() && !has_key(roster.entries(), path[i].0@)
            && forall|j: int| 0 <= j < i ==> has_key(roster.entries(), (#[trigger] path[j]).0@)
    } else {
        path.len() as int
    }
}

/// Outcome of the jurisdiction check: the hops are read in order up to the first one
/// missing from the roster. The path fails when a jurisdiction occurs more than `max`
/// times among the hops before that one; otherwise the missing hop is an error, and a
/// path with every hop on the roster passes.
pub open spec fn spec_jurisdiction_check(path: Seq<RelayId>, roster: RelayRoster, max: usize) -> Result<bool, TopologyError> {
    let m = first_off_roster(path, roster);
    if !diverse_prefix(path, roster, max, m as nat) {
        Ok(false)
    } else if m < path.len() {
        Err(TopologyError::RelayNotFound { relay: path[m] })
    } else {
        Ok(true)
    }
}

/// The check as the loop of `path_satisfies_jurisdiction` runs it over the first `k` hops.
spec fn jurisdiction_scan(path: Seq<RelayId>, roster: RelayRoster, max: usize, k: nat) -> Result<bool, TopologyError>
    decreases k,
{
    if k == 0 {
        Ok(true)
    } else {
        match jurisdiction_scan(path, roster, max, (k - 1) as nat) {
            Err(e) => Err(e),
            Ok(false) => Ok(false),
            Ok(true) => {
                let id = path[k - 1];
                if !has_key(roster.entries(), id.0@) {
                    Err(TopologyError::RelayNotFound { relay: id })
                } else if count_eq(juris_prefix(path, roster, k), juris_in(roster, id)) > max {
                    Ok(false)
                } else {
                    Ok(true)
                }
            },
        }
    }
}

proof fn lemma_scan_stops(path: Seq<RelayId>, roster: RelayRoster, max: usize, k: nat)
    requires
        k <= path.len(),
        jurisdiction_scan(path, roster, max, k) != Ok::<bool, TopologyError>(true),
    ensures
        jurisdiction_scan(path, roster, max, path.len()) == jurisdiction_scan(path, roster, max, k),
    decreases path.len() - k,
{
    if k < path.len() {
        lemma_scan_stops(path, roster, max, k + 1);
    }
}

proof fn lemma_first_off_witness(path: Seq<RelayId>, roster: RelayRoster, k: int)
    requires
        0 <= k <= path.len(),
        forall|j: int| 0 <= j < k ==> has_key(roster.entries(), (#[trigger] path[j]).0@),
        exists|i: int| 0 <= i < path.len() && !has_key(roster.entries(), (#[trigger] path[i]).0@),
    ensures
        exists|i: int| 0 <= i < path.len() && !has_key(roster.entries(), path[i].0@)
            && forall|j: int| 0 <= j < i ==> has_key(roster.entries(), (#[trigger] path[j]).0@),
    decreases path.len() - k,
{
    if k == path.len() {
        let i = choose|i: int| 0 <= i < path.len() && !has_key(roster.entries(), (#[trigger] path[i]).0@);
        assert(has_key(roster.entries(), path[i].0@));
    } else if !has_key(roster.entries(), path[k].0@) {
    } else {
        lemma_first_off_witness(path, roster, k + 1);
    }
}

/// Every hop before `first_off_roster` is on the roster, and the hop at it (if any) is not.
pub proof fn lemma_first_off_roster(path: Seq<RelayId>, roster: RelayRoster)
    ensures
        0 <= first_off_roster(path, roster) <= path.len(),
        forall|j: int| 0 <= j < first_off_roster(path, roster) ==> has_key(roster.entries(), (#[trigger] path[j]).0@),
        first_off_roster(path, roster) < path.len() ==> !has_key(roster.entries(), path[first_off_roster(path, roster)].0@),
        first_off_roster(path, roster) == path.len() <==> all_on_roster(path, roster),
{
    if exists|i: int| 0 <= i < path.len() && !has_key(roster.entries(), (#[trigger] path[i]).0@) {
        lemma_first_off_witness(path, roster, 0);
    }
}

proof fn lemma_count_eq_push(s: Seq<Seq<char>>, j: Seq<char>)
    requires
        s.len() > 0,
    ensures
        count_eq(s, j) == count_eq(s.drop_last(), j) + if s.last() == j { 1nat } else { 0nat },
{
}

/// How many of `js` equal `j` is at most the length of `js`.
proof fn lemma_count_eq_le_len(js: Seq<Seq<char>>, j: Seq<char>)
    ensures
        count_eq(js, j) <= js.len(),
    decreases js.len(),
{
    if js.len() > 0 {
        lemma_count_eq_le_len(js.drop_last(), j);
    }
}

/// Adding hop `k - 1` keeps the prefix diverse exactly when its jurisdiction's count
/// stays within `max`.
proof fn lemma_diverse_step(path: Seq<RelayId>, roster: RelayRoster, max: usize, k: nat)
    requires
        k > 0,
    ensures
        diverse_prefix(path, roster, max, k) <==> (diverse_prefix(path, roster, max, (k - 1) as nat)
            && count_eq(juris_prefix(path, roster, k), juris_in(roster, path[k - 1])) <= max),
{
    let s = juris_prefix(path, roster, k);
    let t = juris_prefix(path, roster, (k - 1) as nat);
    let last = juris_in(roster, path[k - 1]);
    assert(s.drop_last() =~= t);
    assert(s.last() == last);
    assert forall|j: Seq<char>| #[trigger] count_eq(s, j) == count_eq(t, j) + if last == j { 1nat } else { 0nat } by {
        lemma_count_eq_push(s, j);
    }
    if diverse_prefix(path, roster, max, k) {
        assert forall|i: int| 0 <= i < k - 1 implies count_eq(t, #[trigger] juris_in(roster, path[i])) <= max by {
            assert(count_eq(s, juris_in(roster, path[i])) <= max);
        }
        assert(count_eq(s, juris_in(roster, path[k - 1])) <= max);
    }
    if diverse_prefix(path, roster, max, (k - 1) as nat) && count_eq(s, last) <= max {
        assert forall|i: int| 0 <= i < k implies count_eq(s, #[trigger] juris_in(roster, path[i])) <= max by {
            if i < k - 1 && juris_in(roster, path[i]) != last {
                assert(count_eq(t, juris_in(roster, path[i])) <= max);
            }
        }
    }
}

proof fn lemma_scan_direct(path: Seq<RelayId>, roster: RelayRoster, max: usize, k: nat)
    requires
        k <= path.len(),
    ensures
        k <= first_off_roster(path, roster) ==> jurisdiction_scan(path, roster, max, k) == if diverse_prefix(path, roster, max, k) {
            Ok::<bool, TopologyError>(true)
        } else {
            Ok::<bool, TopologyError>(false)
        },
        k > first_off_roster(path, roster) ==> jurisdiction_scan(path, roster, max, k) == if diverse_prefix(
            path,
            roster,
            max,
            first_off_roster(path, roster) as nat,
        ) {
            Err::<bool, TopologyError>(TopologyError::RelayNotFound { relay: path[first_off_roster(path, roster)] })
        } else {
            Ok::<bool, TopologyError>(false)
        },
    decreases k,
{
    lemma_first_off_roster(path, roster);
    let m = first_off_roster(path, roster);
    if k > 0 {
        lemma_scan_direct(path, roster, max, (k - 1) as nat);
        lemma_diverse_step(path, roster, max, k);
        if k <= m {
            assert(has_key(roster.entries(), path[k - 1].0@));
        }
    }
}

/// The loop's outcome is the check's.
proof fn lemma_scan_is_check(path: Seq<RelayId>, roster: RelayRoster, max: usize)
    ensures
        jurisdiction_scan(path, roster, max, path.len()) == spec_jurisdiction_check(path, roster, max),
{
    lemma_first_off_roster(path, roster);
    lemma_scan_direct(path, roster, max, path.len());
}

/// A path no longer than `max` with every hop on the roster passes the check.
pub proof fn lemma_short_path_passes(path: Seq<RelayId>, roster: RelayRoster, max: usize)
    requires
        all_on_roster(path, roster),
        path.len() <= max,
    ensures
        spec_jurisdiction_check(path, roster, max) == Ok::<bool, TopologyError>(true),
{
    lemma_first_off_roster(path, roster);
    let s = juris_prefix(path, roster, path.len());
    assert forall|i: int| 0 <= i < path.len() implies count_eq(s, #[trigger] juris_in(roster, path[i])) <= max by {
        lemma_count_eq_le_len(s, juris_in(roster, path[i]));
    }
}

/// A path that passes the check has every hop on the roster; one the check refuses
/// as an error names a hop missing from the roster.
pub proof fn lemma_jurisdiction_outcome_hops(path: Seq<RelayId>, roster: RelayRoster, max: usize)
    ensures
        spec_jurisdiction_check(path, roster, max) == Ok::<bool, TopologyError>(true) ==> all_on_roster(path, roster),
        spec_jurisdiction_check(path, roster, max) matches Err(e) ==> (e matches TopologyError::RelayNotFound { relay }
            && !has_key(roster.entries(), relay.0@)),
{
    lemma_first_off_roster(path, roster);
}

fn count_equal(js: &Vec<String>, j: &str) -> (r: usize)
    ensures
        r == count_eq(js@.map_values(|s: String| s@), j@),
{
    let mut c: usize = 0;
    let mut i: usize = 0;
    while i < js.len()
        invariant
            i <= js@.len(),
            c <= i,
            c == count_eq(js@.subrange(0, i as int).map_values(|s: String| s@), j@),
        decreases js@.len() - i,
    {
        proof {
            let a = js@.subrange(0, i + 1).map_values(|s: String| s@);
            assert(a.drop_last() =~= js@.subrange(0, i as int).map_values(|s: String| s@));
        }
        if str_eq(js[i].as_str(), j) {
            c = c + 1;
        }
        i = i + 1;
    }
    assert(js@.subrange(0, js@.len() as int) =~= js@);
    c
}

/// Whether no jurisdiction occurs on `path` more than `policy.max_per_jurisdiction`
/// times; a hop not on the roster is an error.
pub fn path_satisfies_jurisdiction(path: &[RelayId], roster: &RelayRoster, policy: &JurisdictionPolicy) -> (r: Result<bool, TopologyError>)
    requires
        roster.wf(),
    ensures
        r == spec_jurisdiction_check(path@, *roster, policy.max_per_jurisdiction),
{
    let mut seen: Vec<String> = Vec::new();
    let mut k: usize = 0;
    while k < path.len()
        invariant
            roster.wf(),
            k <= path@.len(),
            jurisdiction_scan(path@, *roster, policy.max_per_jurisdiction, k as nat) == Ok::<bool, TopologyError>(true),
            seen@.map_values(|s: String| s@) == juris_prefix(path@, *roster, k as nat),
        decreases path@.len() - k,
    {
        let id = path[k];
        let record = match roster.get(id) {
            Some(rec) => rec,
            None => {
                proof {
                    lemma_scan_stops(path@, *roster, policy.max_per_jurisdiction, (k + 1) as nat);
                    lemma_scan_is_check(path@, *roster, policy.max_per_jurisdiction);
                }
                return Err(TopologyError::RelayNotFound { relay: id });
            },
        };
        let ghost before = seen@.map_values(|s: String| s@);
        let ghost old_seen = seen;
        seen.push(record.jurisdiction.0.clone());
        proof {
            let after = seen@.map_values(|s: String| s@);
            assert(after[k as int] == juris_in(*roster, path@[k as int]));
            assert forall|j: int| 0 <= j < k implies after[j] == before[j] by {
                assert(seen@[j] == old_seen@[j]);
            }
            assert(after =~= juris_prefix(path@, *roster, (k + 1) as nat));
        }
        let count = count_equal(&seen, record.jurisdiction.0.as_str());
        if count > policy.max_per_jurisdiction {
            proof {
                lemma_scan_stops(path@, *roster, policy.max_per_jurisdiction, (k + 1) as nat);
                lemma_scan_is_check(path@, *roster, policy.max_per_jurisdiction);
            }
            return Ok(false);
        }
        k = k + 1;
    }
    proof { lemma_scan_is_check(path@, *roster, policy.max_per_jurisdiction); }
    Ok(true)
}

/// Index of the first empty layer, if any.
pub open spec fn first_empty_layer(ls: Seq<Seq<RelayId>>) -> Option<int> {
    if exists|i: int| 0 <= i < ls.len() && ls[i].len() == 0 {
        Some(choose|i: int| 0 <= i < ls.len() && ls[i].len() == 0 && forall|j: int| 0 <= j < i ==> ls[j].len() > 0)
    } else {
        None
    }
}

/// A path that takes one relay from each layer, the first pinned from the guards.
pub open spec fn valid_path(path: Seq<RelayId>, ls: Seq<Seq<RelayId>>, guards: Option<&GuardSelector>, packet_index: u64) -> bool {
    &&& path.len() == ls.len()
    &&& forall|i: int| 0 <= i < path.len() ==> ls[i].contains(#[trigger] path[i])
        || (i == 0 && guards is Some)
    &&& path.len() > 0 ==> (guards matches Some(g) ==> path[0] == match g.pin_mode {
        crate::topology::guards::GuardPinMode::StickyPrimary => g.guards@[0],
        crate::topology::guards::GuardPinMode::Rotate => g.guards@[((packet_index as usize) as int) % (g.guards@.len() as int)],
    })
}

/// Indices drawn from the operating system for path selection, recorded in order
/// as `(bound, value)` pairs.
pub struct IndexDraws {
    log: Ghost<Seq<(usize, usize)>>,
}

impl IndexDraws {
    /// The draws made so far, in order.
    pub closed spec fn drawn(&self) -> Seq<(usize, usize)> {
        self.log@
    }

    /// A record with no draws yet.
    pub fn new() -> (r: Self)
        ensures
            r.drawn() == Seq::<(usize, usize)>::empty(),
    {
        let ghost e = Seq::<(usize, usize)>::empty();
        IndexDraws { log: Ghost(e) }
    }

    /// A fresh operating-system index below `n`, recorded.
    pub fn below(&mut self, n: usize) -> (r: usize)
        requires
            n > 0,
        ensures
            r < n,
            final(self).drawn() == old(self).drawn().push((n, r)),
    {
        let r = os_index_below(n);
        self.log = Ghost(self.log@.push((n, r)));
        r
    }
}

/// Number of leading layers that take no draw: the guard-pinned first layer.
pub open spec fn undrawn_layers(ls: Seq<Seq<RelayId>>, guards: Option<&GuardSelector>) -> int {
    if guards is Some && ls.len() > 0 { 1 } else { 0 }
}

/// The entry relay the guards pin for `packet_index`.
pub open spec fn pinned_guard(g: &GuardSelector, packet_index: u64) -> RelayId {
    match g.pin_mode {
        crate::topology::guards::GuardPinMode::StickyPrimary => g.guards@[0],
        crate::topology::guards::GuardPinMode::Rotate => g.guards@[((packet_index as usize) as int) % (g.guards@.len() as int)],
    }
}

/// The hop of layer `i` for the draws `vals` (one per drawn layer, in order): the
/// pinned guard for a guard-pinned first layer, else member `vals[..]` of the layer.
pub open spec fn hop_for_draws(ls: Seq<Seq<RelayId>>, guards: Option<&GuardSelector>, packet_index: u64, vals: Seq<usize>, i: int) -> RelayId {
    if i == 0 && guards is Some {
        pinned_guard(guards->Some_0, packet_index)
    } else {
        ls[i][vals[i - undrawn_layers(ls, guards)] as int]
    }
}

/// The path the draws `vals` select.
pub open spec fn path_for_draws(ls: Seq<Seq<RelayId>>, guards: Option<&GuardSelector>, packet_index: u64, vals: Seq<usize>) -> Seq<RelayId> {
    Seq::new(ls.len(), |i: int| hop_for_draws(ls, guards, packet_index, vals, i))
}

/// The values of some draws.
pub open spec fn draw_values(d: Seq<(usize, usize)>) -> Seq<usize> {
    d.map_values(|x: (usize, usize)| x.1)
}

/// Every member of every drawn layer can be selected at its position: for a layer
/// position and a member of that layer, some draws (each below its layer's size)
/// select that member there, the other hops staying those of any given draws.
pub proof fn lemma_every_layer_member_selectable(
    ls: Seq<Seq<RelayId>>,
    guards: Option<&GuardSelector>,
    packet_index: u64,
    vals: Seq<usize>,
    i: int,
    k: usize,
)
    requires
        0 <= i < ls.len(),
        !(i == 0 && guards is Some),
        k < ls[i].len(),
        vals.len() == ls.len() - undrawn_layers(ls, guards),
        forall|j: int| 0 <= j < vals.len() ==> (#[trigger] vals[j]) < ls[j + undrawn_layers(ls, guards)].len(),
    ensures
        exists|w: Seq<usize>|
            w.len() == vals.len() && (forall|j: int| 0 <= j < w.len() ==> (#[trigger] w[j]) < ls[j + undrawn_layers(ls, guards)].len())
            && path_for_draws(ls, guards, packet_index, w)[i] == ls[i][k as int]
            && forall|h: int| 0 <= h < ls.len() && h != i ==> #[trigger] path_for_draws(ls, guards, packet_index, w)[h]
                == path_for_draws(ls, guards, packet_index, vals)[h],
{
    let o = undrawn_layers(ls, guards);
    let w = vals.update(i - o, k);
    assert(w.len() == vals.len());
    assert forall|j: int| 0 <= j < w.len() implies (#[trigger] w[j]) < ls[j + o].len() by {
        if j != i - o {
            assert(w[j] == vals[j]);
        }
    }
    assert(path_for_draws(ls, guards, packet_index, w)[i] == ls[i][k as int]);
    assert forall|h: int| 0 <= h < ls.len() && h != i implies #[trigger] path_for_draws(ls, guards, packet_index, w)[h]
        == path_for_draws(ls, guards, packet_index, vals)[h] by {
        if !(h == 0 && guards is Some) {
            assert(w[h - o] == vals[h - o]);
        }
    }
}

/// One relay per layer, each non-guard hop a fresh operating-system draw over its
/// whole layer (recorded in `draws`); layer 1 comes from the guard set when `guards`
/// is given. An empty layer is an error.
pub fn select_path_drawing(
    topology: &Topology,
    guards: Option<&GuardSelector>,
    packet_index: u64,
    draws: &mut IndexDraws,
) -> (r: Result<Vec<RelayId>, TopologyError>)
    requires
        guards matches Some(g) ==> g.guards@.len() > 0,
    ensures
        final(draws).drawn().len() >= old(draws).drawn().len(),
        final(draws).drawn().subrange(0, old(draws).drawn().len() as int) == old(draws).drawn(),
        match first_empty_layer(layer_views(*topology)) {
            Some(i) => r == Err::<Vec<RelayId>, TopologyError>((TopologyError::EmptyLayer { layer: (i + 1) as usize, epoch: topology.epoch })),
            None => r matches Ok(p) && valid_path(p@, layer_views(*topology), guards, packet_index) && ({
                let ls = layer_views(*topology);
                let new = final(draws).drawn().subrange(old(draws).drawn().len() as int, final(draws).drawn().len() as int);
                &&& new.len() == ls.len() - undrawn_layers(ls, guards)
                &&& forall|j: int| 0 <= j < new.len() ==> (#[trigger] new[j]).0 == ls[j + undrawn_layers(ls, guards)].len()
                    && new[j].1 < new[j].0
                &&& p@ == path_for_draws(ls, guards, packet_index, draw_values(new))
            }),
        },
{
    let mut path: Vec<RelayId> = Vec::new();
    let n = topology.layers.len();
    let ghost ls = layer_views(*topology);
    let ghost start = draws.drawn();
    let ghost o = undrawn_layers(ls, guards);
    let mut idx: usize = 0;
    while idx < n
        invariant
            guards matches Some(g) ==> g.guards@.len() > 0,
            n == topology.layers@.len(),
            ls == layer_views(*topology),
            o == undrawn_layers(ls, guards),
            start == old(draws).drawn(),
            idx <= n,
            path@.len() == idx,
            draws.drawn().len() == start.len() + (if idx as int >= o { idx - o } else { 0 }),
            draws.drawn().subrange(0, start.len() as int) == start,
            forall|j: int| 0 <= j < draws.drawn().len() - start.len() ==> (#[trigger] draws.drawn()[start.len() + j]).0
                == ls[j + o].len() && draws.drawn()[start.len() + j].1 < draws.drawn()[start.len() + j].0,
            forall|j: int| 0 <= j < idx ==> ls[j].len() > 0,
            forall|i: int| 0 <= i < idx ==> ls[i].contains(#[trigger] path@[i]) || (i == 0 && guards is Some),
            forall|i: int| 0 <= i < idx ==> #[trigger] path@[i] == hop_for_draws(ls, guards, packet_index,
                draw_values(draws.drawn().subrange(start.len() as int, draws.drawn().len() as int)), i),
            idx > 0 ==> (guards matches Some(g) ==> path@[0] == match g.pin_mode {
                crate::topology::guards::GuardPinMode::StickyPrimary => g.guards@[0],
                crate::topology::guards::GuardPinMode::Rotate => g.guards@[((packet_index as usize) as int) % (g.guards@.len() as int)],
            }),
        decreases n - idx,
    {
        let layer = &topology.layers[idx];
        if layer.len() == 0 {
            proof {
                assert(ls[idx as int].len() == 0);
                let f = choose|i: int| 0 <= i < ls.len() && ls[i].len() == 0 && forall|j: int| 0 <= j < i ==> ls[j].len() > 0;
                assert(0 <= idx < ls.len() && ls[idx as int].len() == 0 && forall|j: int| 0 <= j < idx ==> ls[j].len() > 0);
                if f < idx {
                } else if f > idx {
                }
                assert(f == idx);
            }
            return Err(TopologyError::EmptyLayer { layer: idx + 1, epoch: topology.epoch });
        }
        let ghost before = draws.drawn();
        let ghost old_path = path@;
        let relay = if idx == 0 && guards.is_some() {
            match guards {
                Some(g) => g.entry_guard_for_packet(packet_index),
                None => layer[0],
            }
        } else {
            let k = draws.below(layer.len());
            proof { assert(ls[idx as int][k as int] == layer@[k as int]); }
            layer[k]
        };
        path.push(relay);
        proof {
            let now = draws.drawn();
            let v0 = draw_values(before.subrange(start.len() as int, before.len() as int));
            let v1 = draw_values(now.subrange(start.len() as int, now.len() as int));
            assert(now.subrange(0, start.len() as int) =~= start) by {
                if now.len() > before.len() {
                    assert(now.subrange(0, start.len() as int) =~= before.subrange(0, start.len() as int));
                }
            }
            assert forall|j: int| 0 <= j < v0.len() implies v1[j] == v0[j] by {
                if now.len() > before.len() {
                    assert(now[start.len() + j] == before[start.len() + j]);
                }
            }
            assert forall|i: int| 0 <= i <= idx implies #[trigger] path@[i] == hop_for_draws(ls, guards, packet_index, v1, i) by {
                if i < idx {
                    assert(path@[i] == old_path[i]);
                    if !(i == 0 && guards is Some) {
                        assert(v1[i - o] == v0[i - o]);
                    }
                } else if !(i == 0 && guards is Some) {
                    assert(now.len() == before.len() + 1);
                    assert(v1[idx - o] == now[now.len() - 1].1);
                }
            }
            assert forall|j: int| 0 <= j < now.len() - start.len() implies (#[trigger] now[start.len() + j]).0
                == ls[j + o].len() && now[start.len() + j].1 < now[start.len() + j].0 by {
                if start.len() + j < before.len() {
                    assert(now[start.len() + j] == before[start.len() + j]);
                }
            }
        }
        idx = idx + 1;
    }
    proof {
        if exists|i: int| 0 <= i < ls.len() && ls[i].len() == 0 {
            let i = choose|i: int| 0 <= i < ls.len() && ls[i].len() == 0;
            assert(ls[i].len() > 0);
        }
        let d = draws.drawn();
        let new = d.subrange(start.len() as int, d.len() as int);
        let v = draw_values(new);
        assert(new.len() == ls.len() - o);
        assert forall|j: int| 0 <= j < new.len() implies (#[trigger] new[j]).0 == ls[j + o].len() && new[j].1 < new[j].0 by {
            assert(new[j] == d[start.len() + j]);
        }
        assert(path@ =~= path_for_draws(ls, guards, packet_index, v));
        assert(valid_path(path@, ls, guards, packet_index));
    }
    Ok(path)
}

/// One relay per layer with fresh randomness; layer 1 comes from the guard set
/// when `guards` is given. An empty layer is an error.
pub fn select_path_indexed_for_tests(topology: &Topology, guards: Option<&GuardSelector>, packet_index: u64) -> (r: Result<Vec<RelayId>, TopologyError>)
    requires
        guards matches Some(g) ==> g.guards@.len() > 0,
    ensures
        match first_empty_layer(layer_views(*topology)) {
            Some(i) => r == Err::<Vec<RelayId>, TopologyError>((TopologyError::EmptyLayer { layer: (i + 1) as usize, epoch: topology.epoch })),
            None => r matches Ok(p) && valid_path(p@, layer_views(*topology), guards, packet_index)
                && exists|vals: Seq<usize>| #![trigger path_for_draws(layer_views(*topology), guards, packet_index, vals)]
                    vals.len() == layer_views(*topology).len() - undrawn_layers(layer_views(*topology), guards)
                    && (forall|j: int| 0 <= j < vals.len() ==> (#[trigger] vals[j]) < layer_views(*topology)[j + undrawn_layers(layer_views(*topology), guards)].len())
                    && p@ == path_for_draws(layer_views(*topology), guards, packet_index, vals),
        },
{
    let mut draws = IndexDraws::new();
    let r = select_path_drawing(topology, guards, packet_index, &mut draws);
    proof {
        if first_empty_layer(layer_views(*topology)) is None {
            let new = draws.drawn().subrange(0, draws.drawn().len() as int);
            let vals = draw_values(new);
            assert(forall|j: int| 0 <= j < vals.len() ==> (#[trigger] vals[j]) < layer_views(*topology)[j + undrawn_layers(layer_views(*topology), guards)].len());
        }
    }
    r
}

/// Same as `select_path_indexed_for_tests` with packet index 0.
pub fn select_path_for_tests(topology: &Topology, guards: Option<&GuardSelector>) -> (r: Result<Vec<RelayId>, TopologyError>)
    requires
        guards matches Some(g) ==> g.guards@.len() > 0,
    ensures
        match first_empty_layer(layer_views(*topology)) {
            Some(i) => r == Err::<Vec<RelayId>, TopologyError>((TopologyError::EmptyLayer { layer: (i + 1) as usize, epoch: topology.epoch })),
            None => r matches Ok(p) && valid_path(p@, layer_views(*topology), guards, 0),
        },
{
    select_path_indexed_for_tests(topology, guards, 0)
}

/// Same as `select_path_for_tests` (unfiltered selection).
pub fn select_path(topology: &Topology, guards: Option<&GuardSelector>) -> (r: Result<Vec<RelayId>, TopologyError>)
    requires
        guards matches Some(g) ==> g.guards@.len() > 0,
    ensures
        match first_empty_layer(layer_views(*topology)) {
            Some(i) => r == Err::<Vec<RelayId>, TopologyError>((TopologyError::EmptyLayer { layer: (i + 1) as usize, epoch: topology.epoch })),
            None => r matches Ok(p) && valid_path(p@, layer_views(*topology), guards, 0),
        },
{
    select_path_indexed_for_tests(topology, guards, 0)
}

/// Same as `select_path_indexed_for_tests` (unfiltered selection).
pub fn select_path_indexed(topology: &Topology, guards: Option<&GuardSelector>, packet_index: u64) -> (r: Result<Vec<RelayId>, TopologyError>)
    requires
        guards matches Some(g) ==> g.guards@.len() > 0,
    ensures
        match first_empty_layer(layer_views(*topology)) {
            Some(i) => r == Err::<Vec<RelayId>, TopologyError>((TopologyError::EmptyLayer { layer: (i + 1) as usize, epoch: topology.epoch })),
            None => r matches Ok(p) && valid_path(p@, layer_views(*topology), guards, packet_index),
        },
{
    select_path_indexed_for_tests(topology, guards, packet_index)
}

/// Every relay path selection can draw is on the roster: each layer member, and
/// each held guard when guards are given.
pub open spec fn all_candidates_on_roster(ls: Seq<Seq<RelayId>>, guards: Option<&GuardSelector>, roster: RelayRoster) -> bool {
    &&& forall|i: int, j: int| 0 <= i < ls.len() && 0 <= j < ls[i].len() ==> has_key(roster.entries(), (#[trigger] ls[i][j]).0@)
    &&& guards matches Some(g) ==> forall|k: int| 0 <= k < g.guards@.len() ==> has_key(roster.entries(), (#[trigger] g.guards@[k]).0@)
}

/// A drawn path only holds relays on the roster when every candidate is on it.
proof fn lemma_valid_path_on_roster(
    p: Seq<RelayId>,
    ls: Seq<Seq<RelayId>>,
    guards: Option<&GuardSelector>,
    packet_index: u64,
    roster: RelayRoster,
)
    requires
        valid_path(p, ls, guards, packet_index),
        all_candidates_on_roster(ls, guards, roster),
        guards matches Some(g) ==> g.guards@.len() > 0,
    ensures
        all_on_roster(p, roster),
{
    assert forall|i: int| 0 <= i < p.len() implies has_key(roster.entries(), (#[trigger] p[i]).0@) by {
        if ls[i].contains(p[i]) {
            let j = choose|j: int| 0 <= j < ls[i].len() && ls[i][j] == p[i];
            assert(has_key(roster.entries(), ls[i][j].0@));
        } else {
            let g = guards->Some_0;
            let k: int = match g.pin_mode {
                crate::topology::guards::GuardPinMode::StickyPrimary => 0,
                crate::topology::guards::GuardPinMode::Rotate => ((packet_index as usize) as int) % (g.guards@.len() as int),
            };
            assert(p[0] == g.guards@[k]);
            assert(has_key(roster.entries(), g.guards@[k].0@));
        }
    }
}

/// Draw paths until one passes the jurisdiction policy, at most `max_attempts`
/// times; exhausting the attempts answers `EmptyLayer { layer: 0 }`.
pub fn select_diverse_path(
    topology: &Topology,
    roster: &RelayRoster,
    guards: Option<&GuardSelector>,
    policy: &JurisdictionPolicy,
    max_attempts: usize,
) -> (r: Result<Vec<RelayId>, TopologyError>)
    requires
        roster.wf(),
        guards matches Some(g) ==> g.guards@.len() > 0,
    ensures
        r matches Ok(p) ==> valid_path(p@, layer_views(*topology), guards, 0)
            && spec_jurisdiction_check(p@, *roster, policy.max_per_jurisdiction) == Ok::<bool, TopologyError>(true),
        max_attempts > 0 ==> (first_empty_layer(layer_views(*topology)) matches Some(i) ==> r == Err::<Vec<RelayId>, TopologyError>(
            (TopologyError::EmptyLayer { layer: (i + 1) as usize, epoch: topology.epoch }))),
        max_attempts == 0 ==> r == Err::<Vec<RelayId>, TopologyError>((TopologyError::EmptyLayer { layer: 0, epoch: topology.epoch })),
        max_attempts > 0 && first_empty_layer(layer_views(*topology)) is None
            && all_candidates_on_roster(layer_views(*topology), guards, *roster)
            && policy.max_per_jurisdiction >= topology.layers@.len() ==> r is Ok,
        r matches Err(e) ==> (e == (TopologyError::EmptyLayer { layer: 0, epoch: topology.epoch })
            || (first_empty_layer(layer_views(*topology)) matches Some(i)
                && e == (TopologyError::EmptyLayer { layer: (i + 1) as usize, epoch: topology.epoch }))
            || (e matches TopologyError::RelayNotFound { relay } && !has_key(roster.entries(), relay.0@))),
{
    let ghost ls = layer_views(*topology);
    let mut attempt: usize = 0;
    while attempt < max_attempts
        invariant
            roster.wf(),
            guards matches Some(g) ==> g.guards@.len() > 0,
            ls == layer_views(*topology),
            attempt <= max_attempts,
            first_empty_layer(ls) is Some ==> attempt == 0,
            first_empty_layer(ls) is None && all_candidates_on_roster(ls, guards, *roster)
                && policy.max_per_jurisdiction >= topology.layers@.len() ==> attempt == 0,
        decreases max_attempts - attempt,
    {
        let path = match select_path_indexed_for_tests(topology, guards, 0) {
            Ok(p) => p,
            Err(e) => return Err(e),
        };
        proof {
            lemma_jurisdiction_outcome_hops(path@, *roster, policy.max_per_jurisdiction);
            if all_candidates_on_roster(ls, guards, *roster) && policy.max_per_jurisdiction >= topology.layers@.len() {
                lemma_valid_path_on_roster(path@, ls, guards, 0, *roster);
                lemma_short_path_passes(path@, *roster, policy.max_per_jurisdiction);
            }
        }
        match path_satisfies_jurisdiction(path.as_slice(), roster, policy) {
            Ok(true) => return Ok(path),
            Ok(false) => {},
            Err(e) => return Err(e),
        }
        attempt = attempt + 1;
    }
    Err(TopologyError::EmptyLayer { layer: 0, epoch: topology.epoch })
}

/// The roster record of each hop; a hop not on the roster is an error (the first one).
pub fn relay_records_for_path(path: &[RelayId], roster: &RelayRoster) -> (r: Result<Vec<RelayRecord>, TopologyError>)
    requires
        roster.wf(),
    ensures
        (forall|i: int| 0 <= i < path@.len() ==> has_key(roster.entries(), (#[trigger] path@[i]).0@)) ==> (r matches Ok(v)
            && v@.len() == path@.len()
            && forall|i: int| 0 <= i < path@.len() ==> record_view(#[trigger] v@[i]) == entry_map(roster.entries())[path@[i].0@].0),
        r matches Err(e) ==> (exists|i: int| 0 <= i < path@.len() && !has_key(roster.entries(), (#[trigger] path@[i]).0@)
            && e == (TopologyError::RelayNotFound { relay: path@[i] })
            && forall|j: int| 0 <= j < i ==> has_key(roster.entries(), (#[trigger] path@[j]).0@)),
        (exists|i: int| 0 <= i < path@.len() && !has_key(roster.entries(), (#[trigger] path@[i]).0@)) ==> r is Err,
{
    let mut out: Vec<RelayRecord> = Vec::new();
    let mut i: usize = 0;
    while i < path.len()
        invariant
            roster.wf(),
            i <= path@.len(),
            out@.len() == i,
            forall|k: int| 0 <= k < i ==> has_key(roster.entries(), (#[trigger] path@[k]).0@),
            forall|k: int| 0 <= k < i ==> record_view(#[trigger] out@[k]) == entry_map(roster.entries())[path@[k].0@].0,
        decreases path@.len() - i,
    {
        match roster.get(path[i]) {
            Some(rec) => out.push(rec.duplicate()),
            None => return Err(TopologyError::RelayNotFound { relay: path[i] }),
        }
        i = i + 1;
    }
    Ok(out)
}

/// Every relay path selection can draw is on the roster and in `eligible`: each
/// layer member, and each held guard when guards are given.
pub open spec fn all_candidates_eligible(
    ls: Seq<Seq<RelayId>>,
    guards: Option<&GuardSelector>,
    roster: RelayRoster,
    eligible: Seq<RelayId>,
) -> bool {
    &&& forall|i: int, j: int| 0 <= i < ls.len() && 0 <= j < ls[i].len() ==> listed(eligible, (#[trigger] ls[i][j]).0@)
        && has_key(roster.entries(), ls[i][j].0@)
    &&& guards matches Some(g) ==> forall|k: int| 0 <= k < g.guards@.len() ==> listed(eligible, (#[trigger] g.guards@[k]).0@)
        && has_key(roster.entries(), g.guards@[k].0@)
}

/// Every hop of `path` is in `eligible`.
pub open spec fn all_listed(path: Seq<RelayId>, eligible: Seq<RelayId>) -> bool {
    forall|i: int| 0 <= i < path.len() ==> listed(eligible, (#[trigger] path[i]).0@)
}

/// Every hop of `path` is on the roster.
pub open spec fn all_on_roster(path: Seq<RelayId>, roster: RelayRoster) -> bool {
    forall|i: int| 0 <= i < path.len() ==> has_key(roster.entries(), (#[trigger] path[i]).0@)
}

/// A drawn path only holds relays that selection can draw.
proof fn lemma_valid_path_drawn_from_candidates(
    p: Seq<RelayId>,
    ls: Seq<Seq<RelayId>>,
    guards: Option<&GuardSelector>,
    packet_index: u64,
    roster: RelayRoster,
    eligible: Seq<RelayId>,
)
    requires
        valid_path(p, ls, guards, packet_index),
        all_candidates_eligible(ls, guards, roster, eligible),
        guards matches Some(g) ==> g.guards@.len() > 0,
    ensures
        all_listed(p, eligible),
        all_on_roster(p, roster),
{
    assert forall|i: int| 0 <= i < p.len() implies listed(eligible, (#[trigger] p[i]).0@) && has_key(roster.entries(), p[i].0@) by {
        if ls[i].contains(p[i]) {
            let j = choose|j: int| 0 <= j < ls[i].len() && ls[i][j] == p[i];
            assert(listed(eligible, ls[i][j].0@) && has_key(roster.entries(), ls[i][j].0@));
        } else {
            let g = guards->Some_0;
            let k: int = match g.pin_mode {
                crate::topology::guards::GuardPinMode::StickyPrimary => 0,
                crate::topology::guards::GuardPinMode::Rotate => ((packet_index as usize) as int) % (g.guards@.len() as int),
            };
            assert(p[0] == g.guards@[k]);
            assert(listed(eligible, g.guards@[k].0@) && has_key(roster.entries(), g.guards@[k].0@));
        }
    }
}

/// Whether every hop of `path` is in `eligible` (at or above the reputation floor).
pub fn path_satisfies_reputation(path: &[RelayId], eligible: &[RelayId]) -> (r: bool)
    ensures
        r == all_listed(path@, eligible@),
{
    let mut i: usize = 0;
    while i < path.len()
        invariant
            i <= path@.len(),
            forall|k: int| 0 <= k < i ==> listed(eligible@, (#[trigger] path@[k]).0@),
        decreases path@.len() - i,
    {
        if !is_listed(eligible, &path[i]) {
            return false;
        }
        i = i + 1;
    }
    true
}

/// The first hop of `path` missing from the roster, if any.
fn first_hop_off_roster(path: &[RelayId], roster: &RelayRoster) -> (r: Option<RelayId>)
    requires
        roster.wf(),
    ensures
        r is None <==> all_on_roster(path@, *roster),
        r matches Some(id) ==> !has_key(roster.entries(), id.0@),
{
    let mut i: usize = 0;
    while i < path.len()
        invariant
            roster.wf(),
            i <= path@.len(),
            forall|k: int| 0 <= k < i ==> has_key(roster.entries(), (#[trigger] path@[k]).0@),
        decreases path@.len() - i,
    {
        if !roster.is_admitted(path[i]) {
            return Some(path[i]);
        }
        i = i + 1;
    }
    None
}

/// Draw paths until every hop is in `eligible` (at or above the reputation floor),
/// at most `max_attempts` times; a drawn hop missing from the roster is an error,
/// and exhausting the attempts answers `ReputationPathExhausted`.
pub fn select_path_reputation_weighted(
    topology: &Topology,
    roster: &RelayRoster,
    guards: Option<&GuardSelector>,
    eligible: &[RelayId],
    max_attempts: usize,
) -> (r: Result<Vec<RelayId>, TopologyError>)
    requires
        roster.wf(),
        guards matches Some(g) ==> g.guards@.len() > 0,
    ensures
        r matches Ok(p) ==> valid_path(p@, layer_views(*topology), guards, 0) && all_listed(p@, eligible@)
            && all_on_roster(p@, *roster),
        max_attempts == 0 ==> r == Err::<Vec<RelayId>, TopologyError>(TopologyError::ReputationPathExhausted { attempts: 0 }),
        max_attempts > 0 ==> (first_empty_layer(layer_views(*topology)) matches Some(i) ==> r == Err::<Vec<RelayId>, TopologyError>(
            (TopologyError::EmptyLayer { layer: (i + 1) as usize, epoch: topology.epoch }))),
        max_attempts > 0 && first_empty_layer(layer_views(*topology)) is None
            && all_candidates_eligible(layer_views(*topology), guards, *roster, eligible@) ==> r is Ok,
        r matches Err(e) ==> (e == (TopologyError::ReputationPathExhausted { attempts: max_attempts })
            || (first_empty_layer(layer_views(*topology)) matches Some(i)
                && e == (TopologyError::EmptyLayer { layer: (i + 1) as usize, epoch: topology.epoch }))
            || (e matches TopologyError::RelayNotFound { relay } && !has_key(roster.entries(), relay.0@))),
{
    let ghost ls = layer_views(*topology);
    let mut attempt: usize = 0;
    while attempt < max_attempts
        invariant
            roster.wf(),
            guards matches Some(g) ==> g.guards@.len() > 0,
            ls == layer_views(*topology),
            attempt <= max_attempts,
            first_empty_layer(ls) is Some ==> attempt == 0,
            first_empty_layer(ls) is None && all_candidates_eligible(ls, guards, *roster, eligible@) ==> attempt == 0,
        decreases max_attempts - attempt,
    {
        let path = match select_path_indexed_for_tests(topology, guards, 0) {
            Ok(p) => p,
            Err(e) => return Err(e),
        };
        proof {
            if all_candidates_eligible(ls, guards, *roster, eligible@) {
                lemma_valid_path_drawn_from_candidates(path@, ls, guards, 0, *roster, eligible@);
            }
        }
        match first_hop_off_roster(path.as_slice(), roster) {
            Some(id) => return Err(TopologyError::RelayNotFound { relay: id }),
            None => {},
        }
        if path_satisfies_reputation(path.as_slice(), eligible) {
            return Ok(path);
        }
        attempt = attempt + 1;
    }
    Err(TopologyError::ReputationPathExhausted { attempts: max_attempts })
}

/// Draw paths until one has every hop in `eligible` and passes the jurisdiction
/// policy, at most `max_attempts` times; exhausting the attempts answers
/// `ReputationPathExhausted`.
pub fn select_diverse_reputation_path(
    topology: &Topology,
    roster: &RelayRoster,
    guards: Option<&GuardSelector>,
    policy: &JurisdictionPolicy,
    eligible: &[RelayId],
    max_attempts: usize,
) -> (r: Result<Vec<RelayId>, TopologyError>)
    requires
        roster.wf(),
        guards matches Some(g) ==> g.guards@.len() > 0,
    ensures
        r matches Ok(p) ==> valid_path(p@, layer_views(*topology), guards, 0) && all_listed(p@, eligible@)
            && spec_jurisdiction_check(p@, *roster, policy.max_per_jurisdiction) == Ok::<bool, TopologyError>(true),
        max_attempts == 0 ==> r == Err::<Vec<RelayId>, TopologyError>(TopologyError::ReputationPathExhausted { attempts: 0 }),
        max_attempts > 0 ==> (first_empty_layer(layer_views(*topology)) matches Some(i) ==> r == Err::<Vec<RelayId>, TopologyError>(
            (TopologyError::EmptyLayer { layer: (i + 1) as usize, epoch: topology.epoch }))),
        max_attempts > 0 && first_empty_layer(layer_views(*topology)) is None
            && all_candidates_eligible(layer_views(*topology), guards, *roster, eligible@)
            && policy.max_per_jurisdiction >= topology.layers@.len() ==> r is Ok,
        r matches Err(e) ==> (e == (TopologyError::ReputationPathExhausted { attempts: max_attempts })
            || (first_empty_layer(layer_views(*topology)) matches Some(i)
                && e == (TopologyError::EmptyLayer { layer: (i + 1) as usize, epoch: topology.epoch }))
            || (e matches TopologyError::RelayNotFound { relay } && !has_key(roster.entries(), relay.0@))),
{
    let ghost ls = layer_views(*topology);
    let mut attempt: usize = 0;
    while attempt < max_attempts
        invariant
            roster.wf(),
            guards matches Some(g) ==> g.guards@.len() > 0,
            ls == layer_views(*topology),
            attempt <= max_attempts,
            first_empty_layer(ls) is Some ==> attempt == 0,
            first_empty_layer(ls) is None && all_candidates_eligible(ls, guards, *roster, eligible@)
                && policy.max_per_jurisdiction >= topology.layers@.len() ==> attempt == 0,
        decreases max_attempts - attempt,
    {
        let path = match select_path_indexed_for_tests(topology, guards, 0) {
            Ok(p) => p,
            Err(e) => return Err(e),
        };
        proof {
            lemma_jurisdiction_outcome_hops(path@, *roster, policy.max_per_jurisdiction);
            if all_candidates_eligible(ls, guards, *roster, eligible@) && policy.max_per_jurisdiction >= topology.layers@.len() {
                lemma_valid_path_drawn_from_candidates(path@, ls, guards, 0, *roster, eligible@);
                lemma_short_path_passes(path@, *roster, policy.max_per_jurisdiction);
            }
        }
        if path_satisfies_reputation(path.as_slice(), eligible) {
            match path_satisfies_jurisdiction(path.as_slice(), roster, policy) {
                Ok(true) => return Ok(path),
                Ok(false) => {},
                Err(e) => return Err(e),
            }
        }
        attempt = attempt + 1;
    }
    Err(TopologyError::ReputationPathExhausted { attempts: max_attempts })
}

/// The ids of some records, in order.
pub open spec fn record_ids(v: Seq<RelayRecord>) -> Seq<RelayId> {
    v.map_values(|r: RelayRecord| r.id)
}

/// The roster records of a path whose hops are all on the roster carry the path's ids.
proof fn lemma_records_carry_path_ids(p: Seq<RelayId>, v: Seq<RelayRecord>, roster: RelayRoster)
    requires
        all_on_roster(p, roster),
        v.len() == p.len(),
        forall|i: int| 0 <= i < p.len() ==> record_view(#[trigger] v[i]) == entry_map(roster.entries())[p[i].0@].0,
    ensures
        record_ids(v) == p,
{
    assert forall|i: int| 0 <= i < p.len() implies #[trigger] record_ids(v)[i] == p[i] by {
        let s = roster.entries();
        assert(has_key(s, p[i].0@));
        let k = index_of(s, p[i].0@);
        assert(key_of(s[k]) == p[i].0@);
        assert(v[i].id.0 =~= p[i].0);
    }
    assert(record_ids(v) =~= p);
}

/// The bound records of a path drawn with `select_path_reputation_weighted`.
pub fn build_bound_path_pruned(
    topology: &Topology,
    roster: &RelayRoster,
    guards: Option<&GuardSelector>,
    eligible: &[RelayId],
    max_attempts: usize,
) -> (r: Result<Vec<RelayRecord>, TopologyError>)
    requires
        roster.wf(),
        guards matches Some(g) ==> g.guards@.len() > 0,
    ensures
        r matches Ok(v) ==> ({
            let p = record_ids(v@);
            &&& valid_path(p, layer_views(*topology), guards, 0)
            &&& all_listed(p, eligible@)
            &&& all_on_roster(p, *roster)
            &&& forall|i: int| 0 <= i < v@.len() ==> record_view(#[trigger] v@[i]) == entry_map(roster.entries())[p[i].0@].0
        }),
        max_attempts == 0 ==> r == Err::<Vec<RelayRecord>, TopologyError>(TopologyError::ReputationPathExhausted { attempts: 0 }),
        max_attempts > 0 ==> (first_empty_layer(layer_views(*topology)) matches Some(i) ==> r == Err::<Vec<RelayRecord>, TopologyError>(
            (TopologyError::EmptyLayer { layer: (i + 1) as usize, epoch: topology.epoch }))),
        max_attempts > 0 && first_empty_layer(layer_views(*topology)) is None
            && all_candidates_eligible(layer_views(*topology), guards, *roster, eligible@) ==> r is Ok,
        r matches Err(e) ==> (e == (TopologyError::ReputationPathExhausted { attempts: max_attempts })
            || (first_empty_layer(layer_views(*topology)) matches Some(i)
                && e == (TopologyError::EmptyLayer { layer: (i + 1) as usize, epoch: topology.epoch }))
            || (e matches TopologyError::RelayNotFound { relay } && !has_key(roster.entries(), relay.0@))),
{
    let path = match select_path_reputation_weighted(topology, roster, guards, eligible, max_attempts) {
        Ok(p) => p,
        Err(e) => return Err(e),
    };
    match relay_records_for_path(path.as_slice(), roster) {
        Ok(v) => {
            proof {
                lemma_records_carry_path_ids(path@, v@, *roster);
            }
            Ok(v)
        },
        Err(e) => Err(e),
    }
}

/// Reputation-filtered guards (default guard configuration) and the bound records
/// of a path pinned to them.
pub fn build_bound_path_pruned_with_guards(
    topology: &Topology,
    roster: &RelayRoster,
    client_seed: u64,
    eligible: &[RelayId],
    max_attempts: usize,
) -> (r: Result<(GuardSelector, Vec<RelayRecord>), TopologyError>)
    requires
        roster.wf(),
    ensures
        r matches Ok((g, v)) ==> ({
            let p = record_ids(v@);
            &&& g.epoch == topology.epoch
            &&& g.pin_mode == GuardPinMode::StickyPrimary
            &&& g.guards@.len() == GUARD_SET_SIZE
            &&& g.guards@.to_multiset().subset_of(topology.layers@[0]@.filter(|id: RelayId| listed(eligible@, id.0@)).to_multiset())
            &&& g.guards@ == seeded_pick(topology.layers@[0]@.filter(|id: RelayId| listed(eligible@, id.0@)), GUARD_SET_SIZE as nat,
                guard_seed(client_seed, topology.epoch))
            &&& valid_path(p, layer_views(*topology), Some(&g), 0)
            &&& all_listed(p, eligible@)
            &&& all_on_roster(p, *roster)
            &&& forall|i: int| 0 <= i < v@.len() ==> record_view(#[trigger] v@[i]) == entry_map(roster.entries())[p[i].0@].0
        }),
        topology.layers@.len() == 0 ==> r == Err::<(GuardSelector, Vec<RelayRecord>), TopologyError>(
            TopologyError::EmptyLayer { layer: 1, epoch: topology.epoch }),
        topology.layers@.len() > 0 ==> ({
            let cands = topology.layers@[0]@.filter(|id: RelayId| listed(eligible@, id.0@));
            cands.len() < GUARD_SET_SIZE ==> r == Err::<(GuardSelector, Vec<RelayRecord>), TopologyError>(
                TopologyError::InsufficientReputation { available: cands.len() as usize, needed: GUARD_SET_SIZE as usize })
        }),
{
    let config = GuardConfig::default();
    let guards = match GuardSelector::new_reputation_weighted(topology, &config, client_seed, eligible) {
        Ok(g) => g,
        Err(e) => return Err(e),
    };
    match build_bound_path_pruned(topology, roster, Some(&guards), eligible, max_attempts) {
        Ok(records) => Ok((guards, records)),
        Err(e) => Err(e),
    }
}

/// The bound records of a path drawn with `select_diverse_reputation_path`.
pub fn build_bound_path_diverse_pruned(
    topology: &Topology,
    roster: &RelayRoster,
    guards: Option<&GuardSelector>,
    jurisdiction: &JurisdictionPolicy,
    eligible: &[RelayId],
    max_attempts: usize,
) -> (r: Result<Vec<RelayRecord>, TopologyError>)
    requires
        roster.wf(),
        guards matches Some(g) ==> g.guards@.len() > 0,
    ensures
        r matches Ok(v) ==> ({
            let p = record_ids(v@);
            &&& valid_path(p, layer_views(*topology), guards, 0)
            &&& all_listed(p, eligible@)
            &&& all_on_roster(p, *roster)
            &&& spec_jurisdiction_check(p, *roster, jurisdiction.max_per_jurisdiction) == Ok::<bool, TopologyError>(true)
            &&& forall|i: int| 0 <= i < v@.len() ==> record_view(#[trigger] v@[i]) == entry_map(roster.entries())[p[i].0@].0
        }),
        max_attempts == 0 ==> r == Err::<Vec<RelayRecord>, TopologyError>(TopologyError::ReputationPathExhausted { attempts: 0 }),
        max_attempts > 0 ==> (first_empty_layer(layer_views(*topology)) matches Some(i) ==> r == Err::<Vec<RelayRecord>, TopologyError>(
            (TopologyError::EmptyLayer { layer: (i + 1) as usize, epoch: topology.epoch }))),
        max_attempts > 0 && first_empty_layer(layer_views(*topology)) is None
            && all_candidates_eligible(layer_views(*topology), guards, *roster, eligible@)
            && jurisdiction.max_per_jurisdiction >= topology.layers@.len() ==> r is Ok,
        r matches Err(e) ==> (e == (TopologyError::ReputationPathExhausted { attempts: max_attempts })
            || (first_empty_layer(layer_views(*topology)) matches Some(i)
                && e == (TopologyError::EmptyLayer { layer: (i + 1) as usize, epoch: topology.epoch }))
            || (e matches TopologyError::RelayNotFound { relay } && !has_key(roster.entries(), relay.0@))),
{
    let path = match select_diverse_reputation_path(topology, roster, guards, jurisdiction, eligible, max_attempts) {
        Ok(p) => p,
        Err(e) => return Err(e),
    };
    proof {
        lemma_jurisdiction_outcome_hops(path@, *roster, jurisdiction.max_per_jurisdiction);
    }
    match relay_records_for_path(path.as_slice(), roster) {
        Ok(v) => {
            proof {
                lemma_records_carry_path_ids(path@, v@, *roster);
            }
            Ok(v)
        },
        Err(e) => Err(e),
    }
}

} // verus!
