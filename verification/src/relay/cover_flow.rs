//! Cover-emission planning for bulk rounds: the multi-hop defense modes, the plan
//! of how many local-discard and onion-scaffold flows a closed round emits, and the
//! bulk-round tracker. Cell encoding of the flows is the wire layer's.
use vstd::prelude::*;

use crate::text::{lemma_trimmed_unchanged, str_trim, trimmed};

verus! {

/// Reserved marker of relay-origin bulk-cover fragments (local discard).
pub const COVER_FRAGMENT_RESERVED: [u8; 2] = [0xC0, 0x01];

/// Reserved marker of cover-onion scaffold fragments (also discarded).
pub const COVER_ONION_SCAFFOLD_RESERVED: [u8; 2] = [0xC0, 0x02];

/// Default matched local-discard flows per round.
pub const DEFAULT_MATCHED_COVER_FLOWS: u32 = 1;

/// Default scaffold onion flows per round.
pub const DEFAULT_COVER_ONION_FLOWS: u32 = 1;

/// Negotiated security dial of a round (raw, bucketed, uniform batched).
#[derive(Debug, Clone, Copy, PartialEq, Eq)]
pub enum SecurityDial {
    L0Raw,
    L1Bucketed,
    L2UniformBatched,
}

/// Negotiated cover requirement: target real + cover flows per round.
#[derive(Debug, Clone, Copy, PartialEq, Eq)]
pub struct CoverRequirement {
    pub target_flow_count: u32,
}

/// Multi-hop cover defense mode.
#[derive(Debug, Clone, Copy, PartialEq, Eq)]
pub enum CoverMultihopDefense {
    /// Pad to the target from the local real-flow count; discard via the reserved marker.
    BaselineLocalDiscard,
    /// Emit a fixed matched cover volume each round.
    MatchedLocalDiscard,
    /// Tagged cover-onion scaffold flows plus the baseline pad; still discarded.
    CoverOnionsScaffold,
}

impl Default for CoverMultihopDefense {
    fn default() -> (r: Self)
        ensures
            r == CoverMultihopDefense::BaselineLocalDiscard,
    {
        CoverMultihopDefense::BaselineLocalDiscard
    }
}

/// Code point of the ASCII lower case of one character (others unchanged).
pub open spec fn lower(c: char) -> u32 {
    if 'A' <= c <= 'Z' { ((c as u32) + 32) as u32 } else { c as u32 }
}

/// Code points of a token.
pub open spec fn codes(s: Seq<char>) -> Seq<u32> {
    s.map_values(|c: char| c as u32)
}

/// What parsing a defense token gives (trimmed, ASCII case-insensitive).
pub open spec fn spec_parse_defense(s: Seq<char>) -> Option<CoverMultihopDefense> {
    let l = trimmed(s).map_values(|c: char| lower(c));
    if l == codes("baseline"@) || l == codes("baseline_local_discard"@) || l == codes("local_discard"@) {
        Some(CoverMultihopDefense::BaselineLocalDiscard)
    } else if l == codes("matched"@) || l == codes("matched_local_discard"@) {
        Some(CoverMultihopDefense::MatchedLocalDiscard)
    } else if l == codes("cover_onions"@) || l == codes("cover_onions_scaffold"@) || l == codes("onions_scaffold"@) {
        Some(CoverMultihopDefense::CoverOnionsScaffold)
    } else {
        None
    }
}

/// The canonical token of a defense.
pub open spec fn defense_token(d: CoverMultihopDefense) -> Seq<char> {
    match d {
        CoverMultihopDefense::BaselineLocalDiscard => "baseline_local_discard"@,
        CoverMultihopDefense::MatchedLocalDiscard => "matched_local_discard"@,
        CoverMultihopDefense::CoverOnionsScaffold => "cover_onions_scaffold"@,
    }
}

/// The canonical token of every defense parses back to that defense (so the three
/// tokens are distinct).
pub proof fn lemma_parse_canonical_token(d: CoverMultihopDefense)
    ensures
        spec_parse_defense(defense_token(d)) == Some(d),
{
    reveal_strlit("baseline");
    reveal_strlit("baseline_local_discard");
    reveal_strlit("local_discard");
    reveal_strlit("matched");
    reveal_strlit("matched_local_discard");
    reveal_strlit("cover_onions");
    reveal_strlit("cover_onions_scaffold");
    reveal_strlit("onions_scaffold");
    let t = defense_token(d);
    lemma_trimmed_unchanged(t);
    let l = t.map_values(|c: char| lower(c));
    assert(l =~= codes(t));
    match d {
        CoverMultihopDefense::BaselineLocalDiscard => {},
        CoverMultihopDefense::MatchedLocalDiscard => {
            assert(l[0] != codes("baseline_local_discard"@)[0]);
        },
        CoverMultihopDefense::CoverOnionsScaffold => {
            assert(l[0] != codes("baseline_local_discard"@)[0]);
            assert(l[0] != codes("matched_local_discard"@)[0]);
        },
    }
}

fn lower_char(c: char) -> (r: u32)
    ensures
        r == lower(c),
{
    if 'A' <= c && c <= 'Z' {
        (c as u32) + 32
    } else {
        c as u32
    }
}

/// Whether `t`, lower-cased, equals `token`.
fn lower_eq(t: &str, token: &str) -> (r: bool)
    ensures
        r == (t@.map_values(|c: char| lower(c)) == codes(token@)),
{
    let n = t.unicode_len();
    if n != token.unicode_len() {
        proof {
            assert(t@.map_values(|c: char| lower(c)).len() != codes(token@).len());
        }
        return false;
    }
    let mut i: usize = 0;
    while i < n
        invariant
            n == t@.len(),
            n == token@.len(),
            i <= n,
            forall|j: int| 0 <= j < i ==> lower(t@[j]) == token@[j] as u32,
        decreases n - i,
    {
        if lower_char(t.get_char(i)) != token.get_char(i) as u32 {
            proof {
                assert(t@.map_values(|c: char| lower(c))[i as int] != codes(token@)[i as int]);
            }
            return false;
        }
        i = i + 1;
    }
    assert(t@.map_values(|c: char| lower(c)) =~= codes(token@));
    true
}

impl CoverMultihopDefense {
    /// Parse configuration tokens (trimmed, ASCII case-insensitive).
    pub fn parse(s: &str) -> (r: Option<Self>)
        ensures
            r == spec_parse_defense(s@),
    {
        let t = str_trim(s);
        if lower_eq(t, "baseline") || lower_eq(t, "baseline_local_discard") || lower_eq(t, "local_discard") {
            Some(CoverMultihopDefense::BaselineLocalDiscard)
        } else if lower_eq(t, "matched") || lower_eq(t, "matched_local_discard") {
            Some(CoverMultihopDefense::MatchedLocalDiscard)
        } else if lower_eq(t, "cover_onions") || lower_eq(t, "cover_onions_scaffold") || lower_eq(t, "onions_scaffold") {
            Some(CoverMultihopDefense::CoverOnionsScaffold)
        } else {
            None
        }
    }

    /// The canonical token of a mode.
    pub fn as_str(self) -> (r: &'static str)
        ensures
            r@ == defense_token(self),
    {
        match self {
            CoverMultihopDefense::BaselineLocalDiscard => "baseline_local_discard",
            CoverMultihopDefense::MatchedLocalDiscard => "matched_local_discard",
            CoverMultihopDefense::CoverOnionsScaffold => "cover_onions_scaffold",
        }
    }
}

/// How many local-discard vs onion-scaffold flows a round close emits.
#[derive(Debug, Clone, Copy, PartialEq, Eq)]
pub struct CoverEmitPlan {
    pub local_discard_flows: u32,
    pub onion_scaffold_flows: u32,
}

pub open spec fn sat_add_u32(a: u32, b: u32) -> u32 {
    if a + b > u32::MAX { u32::MAX } else { (a + b) as u32 }
}

impl CoverEmitPlan {
    /// All flows (saturating).
    pub fn total_flows(self) -> (r: u32)
        ensures
            r == sat_add_u32(self.local_discard_flows, self.onion_scaffold_flows),
    {
        self.local_discard_flows.saturating_add(self.onion_scaffold_flows)
    }

    /// Cells on the wire for `cells_per_flow` cells per flow.
    pub fn total_cells(self, cells_per_flow: usize) -> (r: u64)
        requires
            sat_add_u32(self.local_discard_flows, self.onion_scaffold_flows) * cells_per_flow <= u64::MAX,
        ensures
            r == sat_add_u32(self.local_discard_flows, self.onion_scaffold_flows) * cells_per_flow,
    {
        let f = self.total_flows() as u64;
        let c = cells_per_flow as u64;
        f * c
    }

    pub fn is_empty(self) -> (r: bool)
        ensures
            r == (sat_add_u32(self.local_discard_flows, self.onion_scaffold_flows) == 0),
    {
        self.total_flows() == 0
    }
}

/// Cover flows needed to pad `real_count` participants up to `target` (none when at or over).
pub open spec fn spec_required_cover(real_count: nat, target: u32) -> u32 {
    if real_count >= target { 0 } else { (target - real_count) as u32 }
}

pub fn required_cover_flow_count(real_participants: usize, target: u32) -> (r: u32)
    ensures
        r == spec_required_cover(real_participants as nat, target),
{
    if real_participants >= target as usize {
        0
    } else {
        target - (real_participants as u32)
    }
}

/// The cover plan of a closed round.
pub open spec fn spec_plan(defense: CoverMultihopDefense, dial: SecurityDial, real_count: nat, target: u32, matched: u32, onions: u32) -> CoverEmitPlan {
    if dial != SecurityDial::L2UniformBatched {
        CoverEmitPlan { local_discard_flows: 0, onion_scaffold_flows: 0 }
    } else {
        match defense {
            CoverMultihopDefense::BaselineLocalDiscard => CoverEmitPlan {
                local_discard_flows: spec_required_cover(real_count, target), onion_scaffold_flows: 0,
            },
            CoverMultihopDefense::MatchedLocalDiscard => CoverEmitPlan { local_discard_flows: matched, onion_scaffold_flows: 0 },
            CoverMultihopDefense::CoverOnionsScaffold => CoverEmitPlan {
                local_discard_flows: spec_required_cover(real_count, target), onion_scaffold_flows: onions,
            },
        }
    }
}

/// Plan cover emission for a closed bulk round: nothing below the uniform batched
/// dial; baseline pads to the target; matched emits a fixed volume whatever the
/// real-flow count; the scaffold adds onion flows to the baseline pad.
pub fn plan_cover_emit(
    defense: CoverMultihopDefense,
    dial: SecurityDial,
    real_participants: usize,
    target: u32,
    matched_cover_flows: u32,
    cover_onion_flows: u32,
) -> (r: CoverEmitPlan)
    ensures
        r == spec_plan(defense, dial, real_participants as nat, target, matched_cover_flows, cover_onion_flows),
{
    match dial {
        SecurityDial::L2UniformBatched => {},
        _ => return CoverEmitPlan { local_discard_flows: 0, onion_scaffold_flows: 0 },
    }
    match defense {
        CoverMultihopDefense::BaselineLocalDiscard => CoverEmitPlan {
            local_discard_flows: required_cover_flow_count(real_participants, target),
            onion_scaffold_flows: 0,
        },
        CoverMultihopDefense::MatchedLocalDiscard => CoverEmitPlan {
            local_discard_flows: matched_cover_flows,
            onion_scaffold_flows: 0,
        },
        CoverMultihopDefense::CoverOnionsScaffold => CoverEmitPlan {
            local_discard_flows: required_cover_flow_count(real_participants, target),
            onion_scaffold_flows: cover_onion_flows,
        },
    }
}

/// Matched mode emits the same plan whatever the real-flow count (peers sharing the
/// configuration emit identical discard volume).
pub proof fn lemma_matched_independent_of_real(dial: SecurityDial, real_a: nat, real_b: nat, target: u32, matched: u32, onions: u32)
    ensures
        spec_plan(CoverMultihopDefense::MatchedLocalDiscard, dial, real_a, target, matched, onions)
            == spec_plan(CoverMultihopDefense::MatchedLocalDiscard, dial, real_b, target, matched, onions),
{
}

/// Cells per synthetic cover flow and the multi-hop defense settings.
#[derive(Debug, Clone, Copy, PartialEq, Eq)]
pub struct CoverFlowConfig {
    pub cells_per_flow: usize,
    pub multihop_defense: CoverMultihopDefense,
    pub matched_cover_flows: u32,
    pub cover_onion_flows: u32,
}

impl CoverFlowConfig {
    /// Baseline defense with default flow counts, `cells_per_flow` cells per flow.
    pub fn baseline(cells_per_flow: usize) -> (r: Self)
        ensures
            r.cells_per_flow == cells_per_flow,
            r.multihop_defense == CoverMultihopDefense::BaselineLocalDiscard,
            r.matched_cover_flows == DEFAULT_MATCHED_COVER_FLOWS,
            r.cover_onion_flows == DEFAULT_COVER_ONION_FLOWS,
    {
        CoverFlowConfig {
            cells_per_flow,
            multihop_defense: CoverMultihopDefense::BaselineLocalDiscard,
            matched_cover_flows: DEFAULT_MATCHED_COVER_FLOWS,
            cover_onion_flows: DEFAULT_COVER_ONION_FLOWS,
        }
    }

    /// Matched local-discard defense with `matched_cover_flows` flows per round.
    pub fn matched_local_discard(cells_per_flow: usize, matched_cover_flows: u32) -> (r: Self)
        ensures
            r.cells_per_flow == cells_per_flow,
            r.multihop_defense == CoverMultihopDefense::MatchedLocalDiscard,
            r.matched_cover_flows == matched_cover_flows,
            r.cover_onion_flows == DEFAULT_COVER_ONION_FLOWS,
    {
        CoverFlowConfig {
            cells_per_flow,
            multihop_defense: CoverMultihopDefense::MatchedLocalDiscard,
            matched_cover_flows,
            cover_onion_flows: DEFAULT_COVER_ONION_FLOWS,
        }
    }

    /// Cover-onion scaffold defense with `cover_onion_flows` onion flows per round.
    pub fn cover_onions_scaffold(cells_per_flow: usize, cover_onion_flows: u32) -> (r: Self)
        ensures
            r.cells_per_flow == cells_per_flow,
            r.multihop_defense == CoverMultihopDefense::CoverOnionsScaffold,
            r.matched_cover_flows == DEFAULT_MATCHED_COVER_FLOWS,
            r.cover_onion_flows == cover_onion_flows,
    {
        CoverFlowConfig {
            cells_per_flow,
            multihop_defense: CoverMultihopDefense::CoverOnionsScaffold,
            matched_cover_flows: DEFAULT_MATCHED_COVER_FLOWS,
            cover_onion_flows,
        }
    }

    /// Cover cells peers emit per round under matched mode.
    pub fn matched_discard_cell_count(&self) -> (r: u64)
        requires
            self.matched_cover_flows * self.cells_per_flow <= u64::MAX,
        ensures
            r == self.matched_cover_flows * self.cells_per_flow,
    {
        let a = self.matched_cover_flows as u64;
        let b = self.cells_per_flow as u64;
        a * b
    }
}

/// Tracks one active bulk round.
#[derive(Debug, Clone, Copy, PartialEq, Eq)]
pub struct BulkRoundTracker {
    active: bool,
    dial: SecurityDial,
    requirement: CoverRequirement,
    real_flow_count: usize,
}

/// What closing a round hands to the cover generator: the plan, the dial, the
/// real flow count seen and the requirement.
#[derive(Debug, Clone, Copy, PartialEq, Eq)]
pub struct RoundClose {
    pub plan: CoverEmitPlan,
    pub dial: SecurityDial,
    pub real_flow_count: usize,
    pub requirement: CoverRequirement,
}

/// Whether a closed round emits cover: baseline only below the target on the
/// uniform batched dial; matched and scaffold whenever that dial's plan is non-empty.
pub open spec fn spec_should_emit(defense: CoverMultihopDefense, dial: SecurityDial, real_count: nat, target: u32, plan: CoverEmitPlan) -> bool {
    match defense {
        CoverMultihopDefense::BaselineLocalDiscard => dial == SecurityDial::L2UniformBatched && real_count < target,
        _ => dial == SecurityDial::L2UniformBatched && sat_add_u32(plan.local_discard_flows, plan.onion_scaffold_flows) != 0,
    }
}

impl BulkRoundTracker {
    pub closed spec fn active_spec(&self) -> bool { self.active }
    pub closed spec fn real_spec(&self) -> usize { self.real_flow_count }
    pub closed spec fn dial_spec(&self) -> SecurityDial { self.dial }
    pub closed spec fn requirement_spec(&self) -> CoverRequirement { self.requirement }

    pub fn new() -> (r: Self)
        ensures
            !r.active_spec(),
            r.real_spec() == 0,
            r.dial_spec() == SecurityDial::L0Raw,
            r.requirement_spec().target_flow_count == 0,
    {
        BulkRoundTracker {
            active: false,
            dial: SecurityDial::L0Raw,
            requirement: CoverRequirement { target_flow_count: 0 },
            real_flow_count: 0,
        }
    }

    pub fn is_active(&self) -> (r: bool)
        ensures
            r == self.active_spec(),
    {
        self.active
    }

    pub fn real_flow_count(&self) -> (r: usize)
        ensures
            r == self.real_spec(),
    {
        self.real_flow_count
    }

    /// Start a round; resets the real-flow counter.
    pub fn begin(&mut self, dial: SecurityDial, requirement: CoverRequirement)
        ensures
            final(self).active_spec(),
            final(self).dial_spec() == dial,
            final(self).requirement_spec() == requirement,
            final(self).real_spec() == 0,
    {
        self.active = true;
        self.dial = dial;
        self.requirement = requirement;
        self.real_flow_count = 0;
    }

    /// Count one real bulk flow during an active round (saturating).
    pub fn observe_real_flow(&mut self)
        ensures
            final(self).active_spec() == old(self).active_spec(),
            final(self).dial_spec() == old(self).dial_spec(),
            final(self).requirement_spec() == old(self).requirement_spec(),
            final(self).real_spec() == if old(self).active_spec() && old(self).real_spec() < usize::MAX {
                (old(self).real_spec() + 1) as usize
            } else {
                old(self).real_spec()
            },
    {
        if self.active && self.real_flow_count < usize::MAX {
            self.real_flow_count = self.real_flow_count + 1;
        }
    }

    /// Close the round (always resets): the cover plan when the defense emits.
    pub fn close_round(&mut self, config: &CoverFlowConfig) -> (r: Option<RoundClose>)
        ensures
            !final(self).active_spec(),
            final(self).real_spec() == 0,
            final(self).dial_spec() == old(self).dial_spec(),
            final(self).requirement_spec() == old(self).requirement_spec(),
            !old(self).active_spec() ==> r is None,
            old(self).active_spec() ==> ({
                let plan = spec_plan(config.multihop_defense, old(self).dial_spec(), old(self).real_spec() as nat,
                    old(self).requirement_spec().target_flow_count, config.matched_cover_flows, config.cover_onion_flows);
                if spec_should_emit(config.multihop_defense, old(self).dial_spec(), old(self).real_spec() as nat,
                    old(self).requirement_spec().target_flow_count, plan) {
                    r == Some(RoundClose {
                        plan,
                        dial: old(self).dial_spec(),
                        real_flow_count: old(self).real_spec(),
                        requirement: old(self).requirement_spec(),
                    })
                } else {
                    r is None
                }
            }),
    {
        if !self.active {
            self.real_flow_count = 0;
            return None;
        }
        let dial = self.dial;
        let real_count = self.real_flow_count;
        let target = self.requirement.target_flow_count;
        self.active = false;
        self.real_flow_count = 0;
        let plan = plan_cover_emit(config.multihop_defense, dial, real_count, target, config.matched_cover_flows,
            config.cover_onion_flows);
        let l2 = match dial {
            SecurityDial::L2UniformBatched => true,
            _ => false,
        };
        let should_emit = match config.multihop_defense {
            CoverMultihopDefense::BaselineLocalDiscard => l2 && real_count < target as usize,
            _ => l2 && !plan.is_empty(),
        };
        if !should_emit {
            return None;
        }
        Some(RoundClose { plan, dial, real_flow_count: real_count, requirement: self.requirement })
    }
}

} // verus!
