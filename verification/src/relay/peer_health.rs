//! Per-peer link health windows (success / failure counts) and the buffering of
//! signed gossip observations until enough distinct reporters (and diversity
//! keys) agree. The median merge and eclipse heuristic work on failure rates and
//! are the caller's; this module decides when a quorum is ready.
use vstd::prelude::*;

use crate::text::{owned, str_eq, str_trim, string_from_ascii, trimmed};
use crate::wire::{ascii_chars, lemma_hex_len, push_hex, spec_hex};

verus! {

/// Distinct neighbor reporters required before gossip is merged (stacked default).
pub const DEFAULT_GOSSIP_MAJORITY_K: usize = 4;

/// Minimum distinct organization / jurisdiction labels inside a quorum.
pub const DEFAULT_GOSSIP_MIN_ORGS: usize = 2;

/// Eclipse quarantine on by default.
pub const DEFAULT_ECLIPSE_DETECT: bool = true;

/// Local samples required before the local failure rate is the eclipse baseline.
pub const DEFAULT_ECLIPSE_LOCAL_MIN_SAMPLES: u64 = 8;

/// Gossip outcomes are applied at half weight.
pub const GOSSIP_WEIGHT_NUM: u64 = 1;
pub const GOSSIP_WEIGHT_DEN: u64 = 2;

/// Minimum combined samples before a window is drained into the pruning policy.
pub const DEFAULT_MIN_SAMPLES: u64 = 4;

/// Success and failure counts observed toward one peer.
#[derive(Clone, Copy, Debug, PartialEq, Eq)]
pub struct PeerWindow {
    pub peer: [u8; 32],
    pub successes: u64,
    pub failures: u64,
}

/// One buffered gossip observation about `subject` by `reporter`.
#[derive(Clone, Debug, PartialEq, Eq)]
pub struct PendingReport {
    pub subject: [u8; 32],
    pub reporter: [u8; 32],
    pub successes: u64,
    pub failures: u64,
    pub diversity_key: String,
}

/// Result of buffering a verified gossip observation.
#[derive(Clone, Debug, PartialEq, Eq)]
pub enum GossipIngest {
    /// Waiting for more distinct reporters (`have` of `need`).
    Buffered { have: usize, need: usize },
    /// Enough reporters but fewer than `need_orgs` distinct diversity keys.
    WaitingDiversity { have: usize, distinct_orgs: usize, need_orgs: usize },
    /// Quorum reached: the observations to merge (buffer cleared for the subject).
    QuorumReady { observations: Vec<(u64, u64)>, reporters: usize, distinct_orgs: usize },
}

/// Final result of a gossip observation once the merge ran.
#[derive(Clone, Copy, Debug, PartialEq, Eq)]
pub enum GossipMergeOutcome {
    /// Waiting for more distinct reporters (`have` of `need`).
    Buffered { have: usize, need: usize },
    /// `K` reporters present but fewer than `need_orgs` distinct diversity keys.
    WaitingDiversity { have: usize, distinct_orgs: usize, need_orgs: usize },
    /// Quorum reached; median applied at half weight.
    Applied { reporters: usize, distinct_orgs: usize },
    /// Quorum reached but the merge was discarded by the eclipse heuristic.
    Quarantined { reporters: usize, distinct_orgs: usize },
}

/// Position of the first window for `k`.
pub open spec fn first_window(s: Seq<PeerWindow>, k: Seq<u8>) -> Option<int>
    decreases s.len(),
{
    if s.len() == 0 {
        None
    } else if s[0].peer@ == k {
        Some(0)
    } else {
        match first_window(s.drop_first(), k) {
            Some(i) => Some(i + 1),
            None => None,
        }
    }
}

/// The `(successes, failures)` window of `k`, if any.
pub open spec fn window_of(s: Seq<PeerWindow>, k: Seq<u8>) -> Option<(u64, u64)> {
    match first_window(s, k) {
        Some(i) => Some((s[i].successes, s[i].failures)),
        None => None,
    }
}

proof fn lemma_first_window_bounds(s: Seq<PeerWindow>, k: Seq<u8>)
    ensures
        first_window(s, k) matches Some(i) ==> 0 <= i < s.len() && s[i].peer@ == k
            && forall|j: int| 0 <= j < i ==> s[j].peer@ != k,
        first_window(s, k) is None ==> forall|j: int| 0 <= j < s.len() ==> s[j].peer@ != k,
    decreases s.len(),
{
    if s.len() > 0 {
        lemma_first_window_bounds(s.drop_first(), k);
        if s[0].peer@ != k {
            assert forall|j: int| 1 <= j < s.len() implies s[j] == s.drop_first()[j - 1] by {}
        }
    }
}

proof fn lemma_first_window_char(s: Seq<PeerWindow>, k: Seq<u8>, i: int)
    requires
        0 <= i < s.len(),
        s[i].peer@ == k,
        forall|j: int| 0 <= j < i ==> s[j].peer@ != k,
    ensures
        first_window(s, k) == Some(i),
    decreases s.len(),
{
    if i > 0 {
        lemma_first_window_char(s.drop_first(), k, i - 1);
    }
}

proof fn lemma_first_window_none(s: Seq<PeerWindow>, k: Seq<u8>)
    requires
        forall|j: int| 0 <= j < s.len() ==> s[j].peer@ != k,
    ensures
        first_window(s, k) is None,
    decreases s.len(),
{
    if s.len() > 0 {
        lemma_first_window_none(s.drop_first(), k);
    }
}

/// Windows after adding `(ok, fail)` (saturating) to the window of `peer`.
pub open spec fn add_to_window(s: Seq<PeerWindow>, peer: [u8; 32], ok: u64, fail: u64) -> Seq<PeerWindow> {
    match first_window(s, peer@) {
        Some(i) => s.update(i, PeerWindow {
            peer: s[i].peer,
            successes: if s[i].successes + ok > u64::MAX { u64::MAX } else { (s[i].successes + ok) as u64 },
            failures: if s[i].failures + fail > u64::MAX { u64::MAX } else { (s[i].failures + fail) as u64 },
        }),
        None => s.push(PeerWindow { peer, successes: ok, failures: fail }),
    }
}

/// Adding to one window leaves the windows of other peers as they were.
pub proof fn lemma_add_keeps_others(s: Seq<PeerWindow>, peer: [u8; 32], ok: u64, fail: u64, other: Seq<u8>)
    requires
        other != peer@,
    ensures
        window_of(add_to_window(s, peer, ok, fail), other) == window_of(s, other),
{
    let t = add_to_window(s, peer, ok, fail);
    lemma_first_window_bounds(s, peer@);
    lemma_first_window_bounds(s, other);
    match first_window(s, other) {
        Some(i) => {
            lemma_first_window_char(t, other, i);
        },
        None => {
            assert forall|j: int| 0 <= j < t.len() implies t[j].peer@ != other by {
                if j < s.len() { } else { }
            }
            lemma_first_window_none(t, other);
        },
    }
}

/// Adding to a window grows its counts by the added amounts (saturating).
pub proof fn lemma_add_grows_own(s: Seq<PeerWindow>, peer: [u8; 32], ok: u64, fail: u64)
    ensures
        window_of(add_to_window(s, peer, ok, fail), peer@) == match window_of(s, peer@) {
            Some((a, b)) => Some((
                if a + ok > u64::MAX { u64::MAX } else { (a + ok) as u64 },
                if b + fail > u64::MAX { u64::MAX } else { (b + fail) as u64 },
            )),
            None => Some((ok, fail)),
        },
{
    let t = add_to_window(s, peer, ok, fail);
    lemma_first_window_bounds(s, peer@);
    match first_window(s, peer@) {
        Some(i) => {
            lemma_first_window_char(t, peer@, i);
        },
        None => {
            lemma_first_window_char(t, peer@, s.len() as int);
        },
    }
}

/// Reports buffered for `subject`, in order.
pub open spec fn reports_for(p: Seq<PendingReport>, subject: Seq<u8>) -> Seq<PendingReport> {
    p.filter(|r: PendingReport| r.subject@ == subject)
}

/// How many of the keys in `ks` differ from every earlier key (distinct count).
pub open spec fn distinct_count(ks: Seq<Seq<char>>) -> nat
    decreases ks.len(),
{
    if ks.len() == 0 {
        0
    } else {
        distinct_count(ks.drop_last()) + if ks.drop_last().contains(ks.last()) { 0nat } else { 1nat }
    }
}

/// The diversity keys of some reports.
pub open spec fn report_keys(rs: Seq<PendingReport>) -> Seq<Seq<char>> {
    rs.map_values(|r: PendingReport| r.diversity_key@)
}

/// The `(successes, failures)` of some reports.
pub open spec fn report_counts(rs: Seq<PendingReport>) -> Seq<(u64, u64)> {
    rs.map_values(|r: PendingReport| (r.successes, r.failures))
}

/// Gossip counts scaled by `num / den` (floored; multiplication saturating).
pub open spec fn scaled(x: u64, num: u64, den: u64) -> u64 {
    ((if x * num > u64::MAX { u64::MAX as int } else { x * num }) / (den as int)) as u64
}

/// `a * b`, saturating at `u64::MAX`.
fn sat_mul(a: u64, b: u64) -> (r: u64)
    ensures
        r == if a * b > u64::MAX { u64::MAX as int } else { a * b },
{
    match a.checked_mul(b) {
        Some(v) => v,
        None => u64::MAX,
    }
}

/// The windows after a half-weight merge of `(ok, fail)` into `peer`'s window (an
/// all-zero scaled pair changes nothing).
pub open spec fn half_weight_merge(s: Seq<PeerWindow>, peer: [u8; 32], ok: u64, fail: u64) -> Seq<PeerWindow> {
    let a = scaled(ok, GOSSIP_WEIGHT_NUM, GOSSIP_WEIGHT_DEN);
    let b = scaled(fail, GOSSIP_WEIGHT_NUM, GOSSIP_WEIGHT_DEN);
    if a == 0 && b == 0 {
        s
    } else {
        add_to_window(s, peer, a, b)
    }
}

/// Outcome and windows once a quorum's median is known: no median applies nothing;
/// an eclipsed median is discarded while eclipse detection is on; any other median
/// is merged at half weight.
pub open spec fn merge_close(
    windows: Seq<PeerWindow>,
    eclipse_on: bool,
    subject: [u8; 32],
    median: Option<(u64, u64)>,
    eclipsed: bool,
    reporters: usize,
    distinct_orgs: usize,
) -> (GossipMergeOutcome, Seq<PeerWindow>) {
    match median {
        None => (GossipMergeOutcome::Applied { reporters, distinct_orgs }, windows),
        Some((ok, fail)) => if eclipse_on && eclipsed {
            (GossipMergeOutcome::Quarantined { reporters, distinct_orgs }, windows)
        } else {
            (GossipMergeOutcome::Applied { reporters, distinct_orgs }, half_weight_merge(windows, subject, ok, fail))
        },
    }
}

/// Link-health windows and the gossip buffer of one relay.
pub struct PeerHealthTracker {
    inner: Vec<PeerWindow>,
    gossip_pending: Vec<PendingReport>,
    majority_k: usize,
    min_orgs: usize,
    eclipse_detect: bool,
}

impl PeerHealthTracker {
    pub closed spec fn windows(&self) -> Seq<PeerWindow> {
        self.inner@
    }

    pub closed spec fn pending(&self) -> Seq<PendingReport> {
        self.gossip_pending@
    }

    pub closed spec fn quorum_k(&self) -> usize {
        self.majority_k
    }

    pub closed spec fn quorum_orgs(&self) -> usize {
        self.min_orgs
    }

    /// Whether the eclipse heuristic is enabled.
    pub closed spec fn eclipse_on(&self) -> bool {
        self.eclipse_detect
    }

    /// Stacked defaults: `K = 4`, two diversity keys, eclipse detection on.
    pub fn new() -> (r: Self)
        ensures
            r.windows().len() == 0,
            r.pending().len() == 0,
            r.quorum_k() == DEFAULT_GOSSIP_MAJORITY_K,
            r.quorum_orgs() == DEFAULT_GOSSIP_MIN_ORGS,
            r.eclipse_on() == DEFAULT_ECLIPSE_DETECT,
    {
        Self::with_policy(DEFAULT_GOSSIP_MAJORITY_K, DEFAULT_GOSSIP_MIN_ORGS, DEFAULT_ECLIPSE_DETECT)
    }

    /// Legacy K-only merge: no diversity gate, no eclipse quarantine (`K` at least one).
    pub fn with_gossip_majority_k(majority_k: usize) -> (r: Self)
        ensures
            r.windows().len() == 0,
            r.pending().len() == 0,
            r.quorum_k() == if majority_k > 1 { majority_k } else { 1 },
            r.quorum_orgs() == 1,
            !r.eclipse_on(),
    {
        Self::with_policy(majority_k, 1, false)
    }

    /// Custom merge policy; `K` and the organization minimum are raised to at least one.
    pub fn with_policy(majority_k: usize, min_orgs: usize, eclipse_detect: bool) -> (r: Self)
        ensures
            r.windows().len() == 0,
            r.pending().len() == 0,
            r.quorum_k() == if majority_k > 1 { majority_k } else { 1 },
            r.quorum_orgs() == if min_orgs > 1 { min_orgs } else { 1 },
            r.eclipse_on() == eclipse_detect,
    {
        PeerHealthTracker {
            inner: Vec::new(),
            gossip_pending: Vec::new(),
            majority_k: if majority_k > 1 { majority_k } else { 1 },
            min_orgs: if min_orgs > 1 { min_orgs } else { 1 },
            eclipse_detect,
        }
    }

    pub fn gossip_majority_k(&self) -> (r: usize)
        ensures
            r == self.quorum_k(),
    {
        self.majority_k
    }

    pub fn gossip_min_orgs(&self) -> (r: usize)
        ensures
            r == self.quorum_orgs(),
    {
        self.min_orgs
    }

    pub fn eclipse_detect_enabled(&self) -> (r: bool)
        ensures
            r == self.eclipse_on(),
    {
        self.eclipse_detect
    }

    fn add_counts(&mut self, peer: [u8; 32], ok: u64, fail: u64)
        ensures
            final(self).windows() == add_to_window(old(self).windows(), peer, ok, fail),
            final(self).pending() == old(self).pending(),
            final(self).quorum_k() == old(self).quorum_k(),
            final(self).quorum_orgs() == old(self).quorum_orgs(),
            final(self).eclipse_on() == old(self).eclipse_on(),
    {
        let ghost s = self.inner@;
        let mut i: usize = 0;
        while i < self.inner.len()
            invariant
                s == self.inner@,
                s == old(self).inner@,
                self.gossip_pending@ == old(self).gossip_pending@,
                self.majority_k == old(self).majority_k,
                self.min_orgs == old(self).min_orgs,
                self.eclipse_detect == old(self).eclipse_detect,
                self.eclipse_detect == old(self).eclipse_detect,
                i <= s.len(),
                forall|j: int| 0 <= j < i ==> s[j].peer@ != peer@,
            decreases s.len() - i,
        {
            if crate::wire::bytes_eq(self.inner[i].peer.as_slice(), peer.as_slice()) {
                let w = self.inner[i];
                let nw = PeerWindow {
                    peer: w.peer,
                    successes: w.successes.saturating_add(ok),
                    failures: w.failures.saturating_add(fail),
                };
                self.inner.set(i, nw);
                proof {
                    lemma_first_window_char(s, peer@, i as int);
                }
                return;
            }
            i = i + 1;
        }
        proof { lemma_first_window_none(s, peer@); }
        self.inner.push(PeerWindow { peer, successes: ok, failures: fail });
    }

    /// Record a successful send to `peer`.
    pub fn record_success(&mut self, peer: [u8; 32])
        ensures
            final(self).windows() == add_to_window(old(self).windows(), peer, 1, 0),
            final(self).pending() == old(self).pending(),
            final(self).quorum_k() == old(self).quorum_k(),
            final(self).quorum_orgs() == old(self).quorum_orgs(),
            final(self).eclipse_on() == old(self).eclipse_on(),
    {
        self.add_counts(peer, 1, 0);
    }

    /// Record a failed handshake or send to `peer`.
    pub fn record_failure(&mut self, peer: [u8; 32])
        ensures
            final(self).windows() == add_to_window(old(self).windows(), peer, 0, 1),
            final(self).pending() == old(self).pending(),
            final(self).quorum_k() == old(self).quorum_k(),
            final(self).quorum_orgs() == old(self).quorum_orgs(),
            final(self).eclipse_on() == old(self).eclipse_on(),
    {
        self.add_counts(peer, 0, 1);
    }

    /// Merge a remote observation at weight `num / den` (counts floored after
    /// scaling); a zero denominator or an all-zero scaled window is ignored.
    pub fn apply_gossip_outcomes(&mut self, peer: [u8; 32], successes: u64, failures: u64, weight_num: u64, weight_den: u64)
        ensures
            final(self).windows() == if weight_den == 0 || (scaled(successes, weight_num, weight_den) == 0
                && scaled(failures, weight_num, weight_den) == 0) {
                old(self).windows()
            } else {
                add_to_window(old(self).windows(), peer, scaled(successes, weight_num, weight_den),
                    scaled(failures, weight_num, weight_den))
            },
            final(self).pending() == old(self).pending(),
            final(self).quorum_k() == old(self).quorum_k(),
            final(self).quorum_orgs() == old(self).quorum_orgs(),
            final(self).eclipse_on() == old(self).eclipse_on(),
    {
        if weight_den == 0 {
            return;
        }
        let ok = sat_mul(successes, weight_num) / weight_den;
        let fail = sat_mul(failures, weight_num) / weight_den;
        if ok == 0 && fail == 0 {
            return;
        }
        self.add_counts(peer, ok, fail);
    }

    /// The `(successes, failures)` window of `peer`, if any outcome was recorded.
    pub fn window(&self, peer: [u8; 32]) -> (r: Option<(u64, u64)>)
        ensures
            r == window_of(self.windows(), peer@),
    {
        let mut i: usize = 0;
        while i < self.inner.len()
            invariant
                i <= self.inner@.len(),
                forall|j: int| 0 <= j < i ==> self.inner@[j].peer@ != peer@,
            decreases self.inner@.len() - i,
        {
            if crate::wire::bytes_eq(self.inner[i].peer.as_slice(), peer.as_slice()) {
                proof { lemma_first_window_char(self.inner@, peer@, i as int); }
                return Some((self.inner[i].successes, self.inner[i].failures));
            }
            i = i + 1;
        }
        proof { lemma_first_window_none(self.inner@, peer@); }
        None
    }

    /// Non-destructive snapshot of the windows: `(peer, successes, failures)`.
    pub fn snapshot(&self) -> (r: Vec<([u8; 32], u64, u64)>)
        ensures
            r@.len() == self.windows().len(),
            forall|i: int| 0 <= i < r@.len() ==> #[trigger] r@[i] == (self.windows()[i].peer, self.windows()[i].successes,
                self.windows()[i].failures),
    {
        let mut out: Vec<([u8; 32], u64, u64)> = Vec::new();
        let mut i: usize = 0;
        while i < self.inner.len()
            invariant
                i <= self.inner@.len(),
                out@.len() == i,
                forall|j: int| 0 <= j < i ==> #[trigger] out@[j] == (self.inner@[j].peer, self.inner@[j].successes,
                    self.inner@[j].failures),
            decreases self.inner@.len() - i,
        {
            let w = self.inner[i];
            out.push((w.peer, w.successes, w.failures));
            i = i + 1;
        }
        out
    }

    /// Windows with at least `min_samples` combined outcomes are handed out (for the
    /// pruning policy) and reset to zero; the others stay.
    pub fn drain_windows(&mut self, min_samples: u64) -> (r: Vec<([u8; 32], u64, u64)>)
        ensures
            final(self).windows().len() == old(self).windows().len(),
            final(self).pending() == old(self).pending(),
            final(self).quorum_k() == old(self).quorum_k(),
            final(self).quorum_orgs() == old(self).quorum_orgs(),
            final(self).eclipse_on() == old(self).eclipse_on(),
            forall|i: int| 0 <= i < old(self).windows().len() ==> {
                let w = #[trigger] old(self).windows()[i];
                let total = if w.successes + w.failures > u64::MAX { u64::MAX as int } else { w.successes + w.failures };
                final(self).windows()[i] == if total >= min_samples {
                    PeerWindow { peer: w.peer, successes: 0, failures: 0 }
                } else {
                    w
                }
            },
            r@ == old(self).windows().filter(|w: PeerWindow| (if w.successes + w.failures > u64::MAX { u64::MAX as int }
                else { w.successes + w.failures }) >= min_samples).map_values(|w: PeerWindow| (w.peer, w.successes, w.failures)),
    {
        let ghost s = self.inner@;
        let ghost pred = |w: PeerWindow| (if w.successes + w.failures > u64::MAX { u64::MAX as int }
            else { w.successes + w.failures }) >= min_samples;
        let mut out: Vec<([u8; 32], u64, u64)> = Vec::new();
        let mut i: usize = 0;
        while i < self.inner.len()
            invariant
                self.inner@.len() == s.len(),
                i <= s.len(),
                self.gossip_pending@ == old(self).gossip_pending@,
                self.majority_k == old(self).majority_k,
                self.min_orgs == old(self).min_orgs,
                self.eclipse_detect == old(self).eclipse_detect,
                s == old(self).inner@,
                pred == (|w: PeerWindow| (if w.successes + w.failures > u64::MAX { u64::MAX as int }
                    else { w.successes + w.failures }) >= min_samples),
                forall|j: int| i <= j < s.len() ==> self.inner@[j] == s[j],
                forall|j: int| 0 <= j < i ==> {
                    let w = #[trigger] s[j];
                    self.inner@[j] == if pred(w) { PeerWindow { peer: w.peer, successes: 0, failures: 0 } } else { w }
                },
                out@ == s.subrange(0, i as int).filter(pred).map_values(|w: PeerWindow| (w.peer, w.successes, w.failures)),
            decreases s.len() - i,
        {
            let w = self.inner[i];
            proof {
                reveal(Seq::filter);
                let p = s.subrange(0, i + 1);
                assert(p.drop_last() =~= s.subrange(0, i as int));
                assert(p.last() == w);
            }
            let total = w.successes.saturating_add(w.failures);
            if total >= min_samples {
                out.push((w.peer, w.successes, w.failures));
                self.inner.set(i, PeerWindow { peer: w.peer, successes: 0, failures: 0 });
                proof {
                    assert(s.subrange(0, i + 1).filter(pred) == s.subrange(0, i as int).filter(pred).push(w));
                    assert(out@ =~= s.subrange(0, i + 1).filter(pred).map_values(|w: PeerWindow| (w.peer, w.successes, w.failures)));
                }
            } else {
                proof {
                    assert(s.subrange(0, i + 1).filter(pred) == s.subrange(0, i as int).filter(pred));
                }
            }
            i = i + 1;
        }
        assert(s.subrange(0, s.len() as int) =~= s);
        out
    }

    /// Distinct reporters buffered for `subject`.
    pub fn pending_gossip_reporters(&self, subject: [u8; 32]) -> (r: usize)
        ensures
            r == reports_for(self.pending(), subject@).len(),
    {
        let rs = self.collect_reports(subject);
        rs.len()
    }

    /// Distinct diversity keys buffered for `subject`.
    pub fn pending_gossip_orgs(&self, subject: [u8; 32]) -> (r: usize)
        ensures
            r == distinct_count(report_keys(reports_for(self.pending(), subject@))),
    {
        let rs = self.collect_reports(subject);
        proof {
            assert(rs@.map_values(|x: PendingReport| x.diversity_key@) =~= report_keys(reports_for(self.pending(), subject@)));
        }
        count_distinct_keys(&rs)
    }

    fn collect_reports(&self, subject: [u8; 32]) -> (r: Vec<PendingReport>)
        ensures
            r@.len() == reports_for(self.pending(), subject@).len(),
            forall|i: int| 0 <= i < r@.len() ==> (#[trigger] r@[i]).diversity_key@ == reports_for(self.pending(), subject@)[i].diversity_key@
                && r@[i].successes == reports_for(self.pending(), subject@)[i].successes
                && r@[i].failures == reports_for(self.pending(), subject@)[i].failures
                && r@[i].subject == reports_for(self.pending(), subject@)[i].subject
                && r@[i].reporter == reports_for(self.pending(), subject@)[i].reporter,
    {
        let ghost s = self.gossip_pending@;
        let ghost pred = |r: PendingReport| r.subject@ == subject@;
        let mut out: Vec<PendingReport> = Vec::new();
        let mut i: usize = 0;
        while i < self.gossip_pending.len()
            invariant
                s == self.gossip_pending@,
                pred == (|r: PendingReport| r.subject@ == subject@),
                i <= s.len(),
                out@.len() == s.subrange(0, i as int).filter(pred).len(),
                forall|k: int| 0 <= k < out@.len() ==> (#[trigger] out@[k]).diversity_key@ == s.subrange(0, i as int).filter(pred)[k].diversity_key@
                    && out@[k].successes == s.subrange(0, i as int).filter(pred)[k].successes
                    && out@[k].failures == s.subrange(0, i as int).filter(pred)[k].failures
                    && out@[k].subject == s.subrange(0, i as int).filter(pred)[k].subject
                    && out@[k].reporter == s.subrange(0, i as int).filter(pred)[k].reporter,
            decreases s.len() - i,
        {
            let r = &self.gossip_pending[i];
            proof {
                reveal(Seq::filter);
                let p = s.subrange(0, i + 1);
                assert(p.drop_last() =~= s.subrange(0, i as int));
                assert(p.last() == *r);
            }
            if crate::wire::bytes_eq(r.subject.as_slice(), subject.as_slice()) {
                out.push(PendingReport {
                    subject: r.subject,
                    reporter: r.reporter,
                    successes: r.successes,
                    failures: r.failures,
                    diversity_key: r.diversity_key.clone(),
                });
            }
            i = i + 1;
        }
        assert(s.subrange(0, s.len() as int) =~= s);
        out
    }
}

/// Count of distinct diversity keys among some reports.
fn count_distinct_keys(rs: &Vec<PendingReport>) -> (r: usize)
    ensures
        r == distinct_count(rs@.map_values(|x: PendingReport| x.diversity_key@)),
{
    let mut keys: Vec<String> = Vec::new();
    let mut i: usize = 0;
    while i < rs.len()
        invariant
            i <= rs@.len(),
            keys@.len() == i,
            keys@.map_values(|s: String| s@) == rs@.subrange(0, i as int).map_values(|x: PendingReport| x.diversity_key@),
        decreases rs@.len() - i,
    {
        let ghost prev = keys@;
        keys.push(owned(rs[i].diversity_key.as_str()));
        proof {
            let a = keys@.map_values(|s: String| s@);
            let b = rs@.subrange(0, i + 1).map_values(|x: PendingReport| x.diversity_key@);
            assert forall|k: int| 0 <= k < i + 1 implies a[k] == b[k] by {
                if k < i {
                    assert(prev.map_values(|s: String| s@)[k] == rs@.subrange(0, i as int).map_values(
                        |x: PendingReport| x.diversity_key@,
                    )[k]);
                    assert(keys@[k] == prev[k]);
                }
            }
            assert(a =~= b);
        }
        i = i + 1;
    }
    proof {
        assert(rs@.subrange(0, rs@.len() as int) =~= rs@);
    }
    count_distinct_strings(keys.as_slice())
}

/// Count of distinct strings among `ks`.
pub fn count_distinct_strings(ks: &[String]) -> (r: usize)
    ensures
        r == distinct_count(ks@.map_values(|s: String| s@)),
{
    let ghost vs = ks@.map_values(|s: String| s@);
    let mut c: usize = 0;
    let mut i: usize = 0;
    while i < ks.len()
        invariant
            vs == ks@.map_values(|s: String| s@),
            i <= ks@.len(),
            c <= i,
            c == distinct_count(vs.subrange(0, i as int)),
        decreases ks@.len() - i,
    {
        let mut seen_before = false;
        let mut j: usize = 0;
        while j < i
            invariant
                vs == ks@.map_values(|s: String| s@),
                i < ks@.len(),
                j <= i,
                seen_before == exists|q: int| 0 <= q < j && vs[q] == vs[i as int],
            decreases i - j,
        {
            proof {
                assert(vs[j as int] == ks@[j as int]@);
                assert(vs[i as int] == ks@[i as int]@);
            }
            if str_eq(ks[j].as_str(), ks[i].as_str()) {
                seen_before = true;
            }
            j = j + 1;
        }
        proof {
            let p = vs.subrange(0, i + 1);
            assert(p.drop_last() =~= vs.subrange(0, i as int));
            assert(p.last() == vs[i as int]);
            if seen_before {
                let q = choose|q: int| 0 <= q < i && vs[q] == vs[i as int];
                assert(p.drop_last()[q] == vs[i as int]);
            } else {
                assert(!p.drop_last().contains(vs[i as int])) by {
                    if p.drop_last().contains(vs[i as int]) {
                        let q = choose|q: int| 0 <= q < p.drop_last().len() && p.drop_last()[q] == vs[i as int];
                        assert(vs[q] == vs[i as int]);
                    }
                }
            }
        }
        if !seen_before {
            c = c + 1;
        }
        i = i + 1;
    }
    assert(vs.subrange(0, vs.len() as int) =~= vs);
    c
}


/// `rid:` and the lower-case hex of the reporter id.
pub open spec fn reporter_key(reporter: Seq<u8>) -> Seq<char> {
    "rid:"@ + ascii_chars(spec_hex(reporter))
}

fn reporter_key_text(reporter: &[u8; 32]) -> (r: String)
    ensures
        r@ == reporter_key(reporter@),
{
    let mut hex: Vec<u8> = Vec::new();
    push_hex(&mut hex, reporter.as_slice());
    proof {
        lemma_hex_len(reporter@);
        assert(hex@ =~= spec_hex(reporter@));
    }
    let h = string_from_ascii(hex);
    let mut out = owned("rid:");
    out.append(h.as_str());
    out
}

/// The diversity key used for a reporter: the trimmed label, or the reporter key when blank.
pub open spec fn spec_normalize_key(key: Seq<char>, reporter: Seq<u8>) -> Seq<char> {
    if trimmed(key).len() == 0 { reporter_key(reporter) } else { trimmed(key) }
}

/// Normalize a diversity label: trimmed, or `rid:<hex>` when blank.
pub fn normalize_diversity_key(key: &str, reporter: &[u8; 32]) -> (r: String)
    ensures
        r@ == spec_normalize_key(key@, reporter@),
{
    let t = str_trim(key);
    if t.unicode_len() == 0 {
        reporter_key_text(reporter)
    } else {
        owned(t)
    }
}

/// Diversity key from optional labels: `org:<org>` when the trimmed organization is
/// non-empty, else `jur:<jurisdiction>`, else the reporter key.
pub open spec fn spec_diversity_key(org: Option<Seq<char>>, jur: Option<Seq<char>>, reporter: Seq<u8>) -> Seq<char> {
    if org is Some && trimmed(org->0).len() > 0 {
        "org:"@ + trimmed(org->0)
    } else if jur is Some && trimmed(jur->0).len() > 0 {
        "jur:"@ + trimmed(jur->0)
    } else {
        reporter_key(reporter)
    }
}

/// Build a diversity key from optional organization / jurisdiction labels.
pub fn gossip_diversity_key(org_id: Option<&str>, jurisdiction: Option<&str>, reporter: &[u8; 32]) -> (r: String)
    ensures
        r@ == spec_diversity_key(
            match org_id { Some(o) => Some(o@), None => None },
            match jurisdiction { Some(j) => Some(j@), None => None },
            reporter@,
        ),
{
    if let Some(org) = org_id {
        let t = str_trim(org);
        if t.unicode_len() > 0 {
            let mut out = owned("org:");
            out.append(t);
            return out;
        }
    }
    if let Some(jur) = jurisdiction {
        let t = str_trim(jur);
        if t.unicode_len() > 0 {
            let mut out = owned("jur:");
            out.append(t);
            return out;
        }
    }
    reporter_key_text(reporter)
}

/// A buffered report as plain values: subject, reporter, counts, diversity key.
pub open spec fn report_view(r: PendingReport) -> (Seq<u8>, Seq<u8>, u64, u64, Seq<char>) {
    (r.subject@, r.reporter@, r.successes, r.failures, r.diversity_key@)
}

/// The gossip buffer as plain values.
pub open spec fn buffer_views(p: Seq<PendingReport>) -> Seq<(Seq<u8>, Seq<u8>, u64, u64, Seq<char>)> {
    p.map_values(|r: PendingReport| report_view(r))
}

/// Buffered reports about `subject`, in order.
pub open spec fn about_subject(p: Seq<(Seq<u8>, Seq<u8>, u64, u64, Seq<char>)>, subject: Seq<u8>) -> Seq<(
    Seq<u8>,
    Seq<u8>,
    u64,
    u64,
    Seq<char>,
)> {
    p.filter(|v: (Seq<u8>, Seq<u8>, u64, u64, Seq<char>)| v.0 == subject)
}

/// Buffered reports about other subjects, in order.
pub open spec fn not_about_subject(p: Seq<(Seq<u8>, Seq<u8>, u64, u64, Seq<char>)>, subject: Seq<u8>) -> Seq<(
    Seq<u8>,
    Seq<u8>,
    u64,
    u64,
    Seq<char>,
)> {
    p.filter(|v: (Seq<u8>, Seq<u8>, u64, u64, Seq<char>)| v.0 != subject)
}

/// Position of the first buffered report by `reporter` about `subject`.
pub open spec fn first_report(p: Seq<(Seq<u8>, Seq<u8>, u64, u64, Seq<char>)>, subject: Seq<u8>, reporter: Seq<u8>) -> Option<int>
    decreases p.len(),
{
    if p.len() == 0 {
        None
    } else if p[0].0 == subject && p[0].1 == reporter {
        Some(0)
    } else {
        match first_report(p.drop_first(), subject, reporter) {
            Some(i) => Some(i + 1),
            None => None,
        }
    }
}

proof fn lemma_first_report_char(p: Seq<(Seq<u8>, Seq<u8>, u64, u64, Seq<char>)>, subject: Seq<u8>, reporter: Seq<u8>, i: int)
    requires
        0 <= i < p.len(),
        p[i].0 == subject && p[i].1 == reporter,
        forall|j: int| 0 <= j < i ==> !(p[j].0 == subject && p[j].1 == reporter),
    ensures
        first_report(p, subject, reporter) == Some(i),
    decreases p.len(),
{
    if i > 0 {
        lemma_first_report_char(p.drop_first(), subject, reporter, i - 1);
    }
}

proof fn lemma_first_report_none(p: Seq<(Seq<u8>, Seq<u8>, u64, u64, Seq<char>)>, subject: Seq<u8>, reporter: Seq<u8>)
    requires
        forall|j: int| 0 <= j < p.len() ==> !(p[j].0 == subject && p[j].1 == reporter),
    ensures
        first_report(p, subject, reporter) is None,
    decreases p.len(),
{
    if p.len() > 0 {
        lemma_first_report_none(p.drop_first(), subject, reporter);
    }
}

/// The buffer after recording `v` (replacing the same reporter's earlier report
/// about the subject, in place).
pub open spec fn upsert_report(p: Seq<(Seq<u8>, Seq<u8>, u64, u64, Seq<char>)>, v: (Seq<u8>, Seq<u8>, u64, u64, Seq<char>)) -> Seq<
    (Seq<u8>, Seq<u8>, u64, u64, Seq<char>),
> {
    match first_report(p, v.0, v.1) {
        Some(i) => p.update(i, v),
        None => p.push(v),
    }
}

/// No two buffered reports share both subject and reporter.
pub open spec fn unique_reporters(p: Seq<(Seq<u8>, Seq<u8>, u64, u64, Seq<char>)>) -> bool {
    forall|i: int, j: int| 0 <= i < j < p.len() ==> !(p[i].0 == p[j].0 && p[i].1 == p[j].1)
}

proof fn lemma_first_report_found(p: Seq<(Seq<u8>, Seq<u8>, u64, u64, Seq<char>)>, subject: Seq<u8>, reporter: Seq<u8>)
    ensures
        first_report(p, subject, reporter) matches Some(i) ==> 0 <= i < p.len() && p[i].0 == subject && p[i].1 == reporter,
        first_report(p, subject, reporter) is None ==> forall|j: int| 0 <= j < p.len() ==> !(#[trigger] p[j].0 == subject
            && p[j].1 == reporter),
    decreases p.len(),
{
    if p.len() > 0 {
        lemma_first_report_found(p.drop_first(), subject, reporter);
        if !(p[0].0 == subject && p[0].1 == reporter) {
            assert forall|j: int| 1 <= j < p.len() implies p[j] == p.drop_first()[j - 1] by {}
        }
    }
}

/// Each reporter counts once: recording a report keeps at most one buffered
/// report per subject and reporter, and the recorded one is among them.
pub proof fn lemma_upsert_keeps_reporters_unique(
    p: Seq<(Seq<u8>, Seq<u8>, u64, u64, Seq<char>)>,
    v: (Seq<u8>, Seq<u8>, u64, u64, Seq<char>),
)
    requires
        unique_reporters(p),
    ensures
        unique_reporters(upsert_report(p, v)),
        upsert_report(p, v).contains(v),
{
    lemma_first_report_found(p, v.0, v.1);
    match first_report(p, v.0, v.1) {
        Some(i) => {
            assert(upsert_report(p, v)[i] == v);
        },
        None => {
            assert(upsert_report(p, v)[p.len() as int] == v);
        },
    }
}

proof fn lemma_views_push(p: Seq<PendingReport>, r: PendingReport)
    ensures
        buffer_views(p.push(r)) == buffer_views(p).push(report_view(r)),
{
    assert(buffer_views(p.push(r)) =~= buffer_views(p).push(report_view(r)));
}

/// Viewing the reports about a subject is selecting the views about it.
proof fn lemma_views_about(p: Seq<PendingReport>, subject: Seq<u8>)
    ensures
        buffer_views(reports_for(p, subject)) == about_subject(buffer_views(p), subject),
    decreases p.len(),
{
    reveal(Seq::filter);
    if p.len() == 0 {
        assert(buffer_views(reports_for(p, subject)) =~= about_subject(buffer_views(p), subject));
    } else {
        let q = p.drop_last();
        lemma_views_about(q, subject);
        assert(buffer_views(p).drop_last() =~= buffer_views(q));
        assert(buffer_views(p).last() == report_view(p.last()));
        lemma_views_push(reports_for(q, subject), p.last());
    }
}

/// Viewing the reports kept by a filter on other subjects is selecting the views
/// about other subjects.
proof fn lemma_views_not_about(p: Seq<PendingReport>, subject: Seq<u8>, keep: spec_fn(PendingReport) -> bool)
    requires
        forall|r: PendingReport| #[trigger] keep(r) == (r.subject@ != subject),
    ensures
        buffer_views(p.filter(keep)) == not_about_subject(buffer_views(p), subject),
    decreases p.len(),
{
    reveal(Seq::filter);
    if p.len() == 0 {
        assert(buffer_views(p.filter(keep)) =~= not_about_subject(buffer_views(p), subject));
    } else {
        let q = p.drop_last();
        lemma_views_not_about(q, subject, keep);
        assert(buffer_views(p).drop_last() =~= buffer_views(q));
        assert(buffer_views(p).last() == report_view(p.last()));
        assert(keep(p.last()) == (p.last().subject@ != subject));
        lemma_views_push(q.filter(keep), p.last());
    }
}

impl PeerHealthTracker {
    /// Buffer a verified observation (same reporter replaces its earlier one). With
    /// `K` reporters and `min_orgs` distinct diversity keys for the subject, the
    /// buffered observations are handed out for the median merge and cleared.
    pub fn ingest_gossip_observation(
        &mut self,
        reporter: [u8; 32],
        subject: [u8; 32],
        successes: u64,
        failures: u64,
        diversity_key: &str,
    ) -> (r: GossipIngest)
        ensures
            final(self).windows() == old(self).windows(),
            final(self).quorum_k() == old(self).quorum_k(),
            final(self).quorum_orgs() == old(self).quorum_orgs(),
            final(self).eclipse_on() == old(self).eclipse_on(),
            ({
                let after = upsert_report(
                    buffer_views(old(self).pending()),
                    (subject@, reporter@, successes, failures, spec_normalize_key(diversity_key@, reporter@)),
                );
                let group = about_subject(after, subject@);
                let orgs = distinct_count(group.map_values(|v: (Seq<u8>, Seq<u8>, u64, u64, Seq<char>)| v.4));
                match r {
                    GossipIngest::Buffered { have, need } => {
                        &&& have == group.len()
                        &&& need == old(self).quorum_k()
                        &&& have < need
                        &&& buffer_views(final(self).pending()) == after
                    },
                    GossipIngest::WaitingDiversity { have, distinct_orgs, need_orgs } => {
                        &&& have == group.len()
                        &&& have >= old(self).quorum_k()
                        &&& distinct_orgs == orgs
                        &&& need_orgs == old(self).quorum_orgs()
                        &&& distinct_orgs < need_orgs
                        &&& buffer_views(final(self).pending()) == after
                    },
                    GossipIngest::QuorumReady { observations, reporters, distinct_orgs } => {
                        &&& reporters == group.len()
                        &&& reporters >= old(self).quorum_k()
                        &&& distinct_orgs == orgs
                        &&& distinct_orgs >= old(self).quorum_orgs()
                        &&& observations@ == group.map_values(|v: (Seq<u8>, Seq<u8>, u64, u64, Seq<char>)| (v.2, v.3))
                        &&& buffer_views(final(self).pending()) == not_about_subject(after, subject@)
                    },
                }
            }),
    {
        let key = normalize_diversity_key(diversity_key, &reporter);
        let report = PendingReport { subject, reporter, successes, failures, diversity_key: key };
        self.upsert(report);
        let ghost after = buffer_views(self.pending());
        let rs = self.collect_reports(subject);
        let ghost group = about_subject(after, subject@);
        proof {
            lemma_views_about(self.pending(), subject@);
            assert(buffer_views(rs@) =~= group);
        }
        let have = rs.len();
        let distinct_orgs = count_distinct_keys(&rs);
        proof {
            assert(rs@.map_values(|x: PendingReport| x.diversity_key@) =~= group.map_values(
                |v: (Seq<u8>, Seq<u8>, u64, u64, Seq<char>)| v.4,
            ));
        }
        if have < self.majority_k {
            return GossipIngest::Buffered { have, need: self.majority_k };
        }
        if distinct_orgs < self.min_orgs {
            return GossipIngest::WaitingDiversity { have, distinct_orgs, need_orgs: self.min_orgs };
        }
        let mut observations: Vec<(u64, u64)> = Vec::new();
        let mut i: usize = 0;
        while i < rs.len()
            invariant
                i <= rs@.len(),
                buffer_views(rs@) == group,
                observations@ == group.subrange(0, i as int).map_values(
                    |v: (Seq<u8>, Seq<u8>, u64, u64, Seq<char>)| (v.2, v.3),
                ),
            decreases rs@.len() - i,
        {
            proof {
                assert(group[i as int] == report_view(rs@[i as int]));
            }
            observations.push((rs[i].successes, rs[i].failures));
            proof {
                assert(group.subrange(0, i + 1).map_values(|v: (Seq<u8>, Seq<u8>, u64, u64, Seq<char>)| (v.2, v.3))
                    =~= observations@);
            }
            i = i + 1;
        }
        proof {
            assert(group.subrange(0, rs@.len() as int) =~= group);
        }
        let ghost before_clear = self.pending();
        self.clear_subject(subject);
        proof {
            lemma_views_not_about(before_clear, subject@, |r: PendingReport| r.subject@ != subject@);
        }
        GossipIngest::QuorumReady { observations, reporters: have, distinct_orgs }
    }

    fn upsert(&mut self, report: PendingReport)
        ensures
            buffer_views(final(self).pending()) == upsert_report(buffer_views(old(self).pending()), report_view(report)),
            final(self).windows() == old(self).windows(),
            final(self).quorum_k() == old(self).quorum_k(),
            final(self).quorum_orgs() == old(self).quorum_orgs(),
            final(self).eclipse_on() == old(self).eclipse_on(),
    {
        let ghost views = buffer_views(self.gossip_pending@);
        let n = self.gossip_pending.len();
        let mut i: usize = 0;
        while i < n
            invariant
                n == self.gossip_pending@.len(),
                self.gossip_pending@ == old(self).gossip_pending@,
                views == buffer_views(old(self).gossip_pending@),
                self.inner@ == old(self).inner@,
                self.majority_k == old(self).majority_k,
                self.min_orgs == old(self).min_orgs,
                self.eclipse_detect == old(self).eclipse_detect,
                i <= n,
                forall|j: int| 0 <= j < i ==> !(#[trigger] views[j].0 == report.subject@ && views[j].1 == report.reporter@),
            decreases n - i,
        {
            if crate::wire::bytes_eq(self.gossip_pending[i].subject.as_slice(), report.subject.as_slice())
                && crate::wire::bytes_eq(self.gossip_pending[i].reporter.as_slice(), report.reporter.as_slice()) {
                proof {
                    lemma_first_report_char(views, report.subject@, report.reporter@, i as int);
                }
                self.gossip_pending.set(i, report);
                proof {
                    assert(buffer_views(self.gossip_pending@) =~= views.update(i as int, report_view(report)));
                }
                return;
            }
            i = i + 1;
        }
        proof {
            lemma_first_report_none(views, report.subject@, report.reporter@);
            lemma_views_push(old(self).gossip_pending@, report);
        }
        self.gossip_pending.push(report);
    }

    /// Close a quorum merge for `subject` once the median of its observations is
    /// known: `median` is the `(successes, failures)` the median failure rate stands
    /// for (`None` when no reporter had samples), `eclipsed` the eclipse heuristic's
    /// verdict on it. An eclipsed median is discarded while eclipse detection is on;
    /// any other median is merged at half weight.
    pub fn finish_median_merge(
        &mut self,
        subject: [u8; 32],
        median: Option<(u64, u64)>,
        eclipsed: bool,
        reporters: usize,
        distinct_orgs: usize,
    ) -> (r: GossipMergeOutcome)
        ensures
            (r, final(self).windows()) == merge_close(old(self).windows(), old(self).eclipse_on(), subject, median, eclipsed,
                reporters, distinct_orgs),
            final(self).pending() == old(self).pending(),
            final(self).quorum_k() == old(self).quorum_k(),
            final(self).quorum_orgs() == old(self).quorum_orgs(),
            final(self).eclipse_on() == old(self).eclipse_on(),
    {
        match median {
            None => GossipMergeOutcome::Applied { reporters, distinct_orgs },
            Some((ok, fail)) => {
                if self.eclipse_detect && eclipsed {
                    return GossipMergeOutcome::Quarantined { reporters, distinct_orgs };
                }
                self.apply_gossip_outcomes(subject, ok, fail, GOSSIP_WEIGHT_NUM, GOSSIP_WEIGHT_DEN);
                GossipMergeOutcome::Applied { reporters, distinct_orgs }
            },
        }
    }

    /// Apply a quorum formed elsewhere (the reporter count is already enforced):
    /// fewer than `min_orgs` distinct diversity keys waits for diversity; otherwise
    /// the merge closes as in `finish_median_merge`, with one reporter per
    /// observation.
    pub fn apply_quorum_median(
        &mut self,
        subject: [u8; 32],
        observations: &[(u64, u64)],
        diversity_keys: &[String],
        median: Option<(u64, u64)>,
        eclipsed: bool,
    ) -> (r: GossipMergeOutcome)
        ensures
            ({
                let orgs = distinct_count(diversity_keys@.map_values(|s: String| s@));
                if orgs < old(self).quorum_orgs() {
                    &&& r == (GossipMergeOutcome::WaitingDiversity {
                        have: observations@.len() as usize,
                        distinct_orgs: orgs as usize,
                        need_orgs: old(self).quorum_orgs(),
                    })
                    &&& final(self).windows() == old(self).windows()
                } else {
                    (r, final(self).windows()) == merge_close(old(self).windows(), old(self).eclipse_on(), subject, median,
                        eclipsed, observations@.len() as usize, orgs as usize)
                }
            }),
            final(self).pending() == old(self).pending(),
            final(self).quorum_k() == old(self).quorum_k(),
            final(self).quorum_orgs() == old(self).quorum_orgs(),
            final(self).eclipse_on() == old(self).eclipse_on(),
    {
        let reporters = observations.len();
        let distinct_orgs = count_distinct_strings(diversity_keys);
        if distinct_orgs < self.min_orgs {
            return GossipMergeOutcome::WaitingDiversity { have: reporters, distinct_orgs, need_orgs: self.min_orgs };
        }
        self.finish_median_merge(subject, median, eclipsed, reporters, distinct_orgs)
    }

    fn clear_subject(&mut self, subject: [u8; 32])
        ensures
            final(self).pending() == old(self).pending().filter(|r: PendingReport| r.subject@ != subject@),
            reports_for(final(self).pending(), subject@).len() == 0,
            final(self).windows() == old(self).windows(),
            final(self).quorum_k() == old(self).quorum_k(),
            final(self).quorum_orgs() == old(self).quorum_orgs(),
            final(self).eclipse_on() == old(self).eclipse_on(),
    {
        let ghost s = self.gossip_pending@;
        let ghost pred = |r: PendingReport| r.subject@ != subject@;
        let mut kept: Vec<PendingReport> = Vec::new();
        let mut i: usize = 0;
        let n = self.gossip_pending.len();
        while i < n
            invariant
                n == self.gossip_pending@.len(),
                s == self.gossip_pending@,
                pred == (|r: PendingReport| r.subject@ != subject@),
                i <= n,
                kept@ == s.subrange(0, i as int).filter(pred),
            decreases n - i,
        {
            let src = &self.gossip_pending[i];
            let r = PendingReport {
                subject: src.subject,
                reporter: src.reporter,
                successes: src.successes,
                failures: src.failures,
                diversity_key: src.diversity_key.clone(),
            };
            proof {
                reveal(Seq::filter);
                let p = s.subrange(0, i + 1);
                assert(p.drop_last() =~= s.subrange(0, i as int));
                assert(r == s[i as int]);
            }
            if !crate::wire::bytes_eq(self.gossip_pending[i].subject.as_slice(), subject.as_slice()) {
                kept.push(r);
            }
            i = i + 1;
        }
        assert(s.subrange(0, n as int) =~= s);
        self.gossip_pending = kept;
        proof {
            let f = self.gossip_pending@;
            let q = |r: PendingReport| r.subject@ == subject@;
            f.filter_lemma(q);
            s.filter_lemma(pred);
            if f.filter(q).len() > 0 {
                let x = f.filter(q)[0];
                assert(q(x));
                assert(f.filter(q).contains(x));
                f.lemma_filter_contains_rev(q, x);
                assert(f.contains(x));
                let k = choose|k: int| 0 <= k < f.len() && f[k] == x;
                assert(pred(f[k]));
            }
        }
    }
}
} // verus!
