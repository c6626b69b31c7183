//! Local registry of spent reputation nullifiers, kept per epoch, so a verifier
//! process can reject presentation replay. Not a cross-node consensus ledger;
//! peers exchange exported registries and merge them.
use vstd::prelude::*;

use vstd::utf8::encode_utf8;

use crate::text::{owned, str_trim, string_from_ascii, trimmed};
use crate::trust::zk::ReputationNullifier;
use crate::wire::{
    all_hex, copy_32, lemma_hex_len, push_hex, spec_hex, spec_parse_decimal, spec_unhex, unhex,
    parse_decimal,
};

verus! {

/// Version of the exported registry file format.
pub const REGISTRY_FILE_VERSION: u32 = 1;

#[derive(Debug, Clone, PartialEq, Eq)]
pub enum NullifierError {
    /// The nullifier was already spent in this epoch.
    AlreadyUsed { epoch: u64 },
    /// A registry file lists the same nullifier twice within one epoch.
    MergeConflict { epoch: u64, nullifier_hex: String },
    /// The registry file carries another format version.
    UnsupportedVersion(u32),
    /// An epoch key or nullifier in a registry file does not parse.
    InvalidNullifierHex(String),
}

/// Counts from a merge.
#[derive(Debug, Clone, Copy, PartialEq, Eq)]
pub struct NullifierMergeReport {
    /// Nullifiers newly recorded in the receiver.
    pub added: usize,
    /// Nullifiers already present (idempotent re-import).
    pub already_present: usize,
}

/// The nullifiers spent in one epoch.
#[derive(Debug, Clone)]
pub struct EpochSpends {
    pub epoch: u64,
    pub spent: Vec<ReputationNullifier>,
}

/// Spent nullifiers, grouped by epoch.
#[derive(Debug, Clone)]
pub struct NullifierRegistry {
    used: Vec<EpochSpends>,
}

/// Sum of the spend counts of a sequence of epochs.
pub open spec fn sum_lens(s: Seq<EpochSpends>) -> nat
    decreases s.len(),
{
    if s.len() == 0 {
        0
    } else {
        sum_lens(s.drop_last()) + s.last().spent@.len()
    }
}

/// Whether no nullifier occurs twice in `v`.
pub open spec fn distinct_nullifiers(v: Seq<ReputationNullifier>) -> bool {
    forall|a: int, b: int| 0 <= a < b < v.len() ==> v[a]@ != v[b]@
}

/// Whether some element of `v` has the bytes `n`.
pub open spec fn holds_nullifier(v: Seq<ReputationNullifier>, n: Seq<u8>) -> bool {
    exists|k: int| 0 <= k < v.len() && v[k]@ == n
}

impl NullifierRegistry {
    /// Epochs are listed once each, and no nullifier is listed twice in an epoch.
    pub closed spec fn wf(&self) -> bool {
        &&& forall|i: int, j: int|
            0 <= i < j < self.used@.len() ==> self.used@[i].epoch != self.used@[j].epoch
        &&& forall|i: int|
            0 <= i < self.used@.len() ==> distinct_nullifiers(#[trigger] self.used@[i].spent@)
    }

    /// The per-epoch lists of this registry.
    pub closed spec fn epochs(&self) -> Seq<EpochSpends> {
        self.used@
    }

    /// Whether `(epoch, nullifier)` was registered.
    pub closed spec fn is_spent_spec(&self, epoch: u64, n: Seq<u8>) -> bool {
        spent_in(self.used@, epoch, n)
    }

    /// Number of nullifiers registered for `epoch`.
    pub closed spec fn epoch_count(&self, epoch: u64) -> nat {
        count_in(self.used@, epoch)
    }

    /// Total number of registered nullifiers.
    pub closed spec fn total(&self) -> nat {
        sum_lens(self.used@)
    }

    /// Empty registry (no spent nullifiers).
    pub fn new() -> (r: Self)
        ensures
            r.wf(),
            r.total() == 0,
            forall|e: u64, n: Seq<u8>| !r.is_spent_spec(e, n),
            forall|e: u64| r.epoch_count(e) == 0,
            r.lists() == Seq::<(u64, Seq<Seq<u8>>)>::empty(),
    {
        let r = NullifierRegistry { used: Vec::new() };
        proof {
            assert(r.lists() =~= Seq::<(u64, Seq<Seq<u8>>)>::empty());
        }
        r
    }

    fn find_epoch(&self, epoch: u64) -> (r: Option<usize>)
        requires
            self.wf(),
        ensures
            r matches Some(i) ==> i < self.used@.len() && self.used@[i as int].epoch == epoch,
            r is None ==> forall|i: int| 0 <= i < self.used@.len() ==> self.used@[i].epoch != epoch,
    {
        let mut i: usize = 0;
        while i < self.used.len()
            invariant
                i <= self.used@.len(),
                forall|j: int| 0 <= j < i ==> self.used@[j].epoch != epoch,
            decreases self.used@.len() - i,
        {
            if self.used[i].epoch == epoch {
                return Some(i);
            }
            i = i + 1;
        }
        None
    }

    /// Whether `nullifier` was already registered for `epoch`.
    pub fn is_spent(&self, epoch: u64, nullifier: &ReputationNullifier) -> (r: bool)
        requires
            self.wf(),
        ensures
            r == self.is_spent_spec(epoch, nullifier@),
    {
        match self.find_epoch(epoch) {
            Some(i) => {
                let r = list_holds(&self.used[i].spent, nullifier);
                proof {
                    if !r {
                        assert forall|j: int|
                            0 <= j < self.used@.len() && self.used@[j].epoch == epoch implies !holds_nullifier(
                            #[trigger] self.used@[j].spent@,
                            nullifier@,
                        ) by {
                            assert(j == i);
                        }
                    }
                }
                r
            },
            None => false,
        }
    }

    /// Number of spent nullifiers recorded for `epoch`.
    pub fn epoch_len(&self, epoch: u64) -> (r: usize)
        requires
            self.wf(),
        ensures
            r == self.epoch_count(epoch),
    {
        match self.find_epoch(epoch) {
            Some(i) => {
                let ghost j = choose|j: int|
                    0 <= j < self.used@.len() && #[trigger] self.used@[j].epoch == epoch;
                assert(j == i);
                self.used[i].spent.len()
            },
            None => 0,
        }
    }

    /// Total spent nullifiers across all epochs.
    pub fn len(&self) -> (r: usize)
        requires
            self.total() <= usize::MAX,
        ensures
            r == self.total(),
    {
        let mut acc: usize = 0;
        let mut i: usize = 0;
        while i < self.used.len()
            invariant
                i <= self.used@.len(),
                acc == sum_lens(self.used@.subrange(0, i as int)),
                sum_lens(self.used@) <= usize::MAX,
            decreases self.used@.len() - i,
        {
            proof {
                let p = self.used@.subrange(0, i + 1);
                assert(p.drop_last() =~= self.used@.subrange(0, i as int));
                lemma_sum_lens_prefix(self.used@, i + 1);
            }
            acc = acc + self.used[i].spent.len();
            i = i + 1;
        }
        assert(self.used@.subrange(0, i as int) =~= self.used@);
        acc
    }

    /// Total spent nullifiers across all epochs, or `None` when the total does not
    /// fit in `usize`.
    pub fn checked_len(&self) -> (r: Option<usize>)
        ensures
            r == if self.total() <= usize::MAX { Some(self.total() as usize) } else { None::<usize> },
    {
        let mut acc: usize = 0;
        let mut i: usize = 0;
        while i < self.used.len()
            invariant
                i <= self.used@.len(),
                acc == sum_lens(self.used@.subrange(0, i as int)),
            decreases self.used@.len() - i,
        {
            proof {
                let p = self.used@.subrange(0, i + 1);
                assert(p.drop_last() =~= self.used@.subrange(0, i as int));
                lemma_sum_lens_prefix(self.used@, i + 1);
            }
            match acc.checked_add(self.used[i].spent.len()) {
                Some(v) => acc = v,
                None => {
                    proof { lemma_sum_lens_prefix(self.used@, i + 1); }
                    return None;
                },
            }
            i = i + 1;
        }
        assert(self.used@.subrange(0, i as int) =~= self.used@);
        Some(acc)
    }

    pub fn is_empty(&self) -> (r: bool)
        requires
            self.total() <= usize::MAX,
        ensures
            r == (self.total() == 0),
    {
        self.len() == 0
    }

    /// Record `nullifier` as spent for `epoch`; a replay within the same epoch is
    /// refused with `AlreadyUsed` and changes nothing.
    pub fn try_register(&mut self, epoch: u64, nullifier: ReputationNullifier) -> (r: Result<
        (),
        NullifierError,
    >)
        requires
            old(self).wf(),
        ensures
            final(self).wf(),
            old(self).is_spent_spec(epoch, nullifier@) ==> r == Err::<(), NullifierError>(
                NullifierError::AlreadyUsed { epoch },
            ) && final(self).epochs() == old(self).epochs(),
            !old(self).is_spent_spec(epoch, nullifier@) ==> {
                &&& r is Ok
                &&& final(self).total() == old(self).total() + 1
                &&& final(self).epoch_count(epoch) == old(self).epoch_count(epoch) + 1
            },
            forall|e: u64, n: Seq<u8>|
                #[trigger] final(self).is_spent_spec(e, n) <==> (old(self).is_spent_spec(e, n) || (
                e == epoch && n == nullifier@)),
            forall|e: u64| e != epoch ==> #[trigger] final(self).epoch_count(e) == old(self).epoch_count(e),
    {
        if self.is_spent(epoch, &nullifier) {
            return Err(NullifierError::AlreadyUsed { epoch });
        }
        let ghost pre = self.used@;
        match self.find_epoch(epoch) {
            Some(i) => {
                let mut entry = self.used.remove(i);
                entry.spent.push(nullifier);
                self.used.insert(i, entry);
                proof {
                    assert(self.used@ =~= pre.update(i as int, entry));
                    lemma_sum_lens_update(pre, i as int, entry);
                    self.lemma_spent_after_update(pre, i as int, epoch, nullifier@);
                    lemma_count_update(pre, i as int, entry);
                }
            },
            None => {
                let mut v: Vec<ReputationNullifier> = Vec::new();
                v.push(nullifier);
                let entry = EpochSpends { epoch, spent: v };
                self.used.push(entry);
                proof {
                    lemma_sum_lens_push(pre, entry);
                    assert(self.used@ =~= pre.push(entry));
                    assert(self.used@.drop_last() =~= pre);
                    self.lemma_spent_after_push(pre, epoch, nullifier@);
                    lemma_count_push(pre, entry);
                }
            },
        }
        Ok(())
    }

    /// Drop every nullifier of `epoch` (operator epoch rollover / collection).
    pub fn forget_epoch(&mut self, epoch: u64)
        requires
            old(self).wf(),
        ensures
            final(self).wf(),
            forall|e: u64, n: Seq<u8>|
                #[trigger] final(self).is_spent_spec(e, n) <==> (old(self).is_spent_spec(e, n) && e
                    != epoch),
            final(self).epoch_count(epoch) == 0,
            forall|e: u64| e != epoch ==> #[trigger] final(self).epoch_count(e) == old(self).epoch_count(e),
    {
        let ghost pre = self.used@;
        match self.find_epoch(epoch) {
            Some(i) => {
                self.used.remove(i);
                proof {
                    lemma_remove_epoch(pre, i as int);
                }
            },
            None => {
                proof {
                    assert(!exists|j: int| 0 <= j < pre.len() && #[trigger] pre[j].epoch == epoch);
                }
            },
        }
    }

    /// Union-merge another registry into this one. Nullifiers already spent here
    /// count as `already_present`; the others are registered and count as `added`.
    /// Not cross-node consensus: operator file exchange only.
    pub fn merge(&mut self, other: &Self) -> (r: Result<NullifierMergeReport, NullifierError>)
        requires
            old(self).wf(),
            other.wf(),
            other.total() <= usize::MAX,
        ensures
            final(self).wf(),
            r matches Ok(rep) && rep.added + rep.already_present == other.total()
                && final(self).total() == old(self).total() + rep.added,
            forall|e: u64, n: Seq<u8>|
                #[trigger] final(self).is_spent_spec(e, n) <==> (old(self).is_spent_spec(e, n)
                    || other.is_spent_spec(e, n)),
            (forall|e: u64, n: Seq<u8>| #[trigger] other.is_spent_spec(e, n) ==> old(self).is_spent_spec(e, n))
                ==> (r matches Ok(rep) && rep.added == 0),
    {
        let ghost old_self = *self;
        let ghost os = other.used@;
        let mut report = NullifierMergeReport { added: 0, already_present: 0 };
        let mut a: usize = 0;
        while a < other.used.len()
            invariant
                other.wf(),
                os == other.used@,
                other.total() <= usize::MAX,
                a <= os.len(),
                self.wf(),
                old_self.wf(),
                report.added + report.already_present == sum_lens(os.subrange(0, a as int)),
                self.total() == old_self.total() + report.added,
                forall|e: u64, n: Seq<u8>|
                    #[trigger] self.is_spent_spec(e, n) <==> (old_self.is_spent_spec(e, n)
                        || seen_prefix(os, a as int, 0, e, n)),
                (forall|e: u64, n: Seq<u8>| #[trigger] other.is_spent_spec(e, n) ==> old_self.is_spent_spec(e, n))
                    ==> report.added == 0,
            decreases os.len() - a,
        {
            let epoch = other.used[a].epoch;
            let mut b: usize = 0;
            proof {
                lemma_sum_lens_prefix(os, a + 1);
                assert forall|e: u64, n: Seq<u8>| seen_prefix(os, a as int, 0, e, n) == seen_prefix_at(os, a as int, 0, e, n) by {}
            }
            while b < other.used[a].spent.len()
                invariant
                    other.wf(),
                    os == other.used@,
                    other.total() <= usize::MAX,
                    a < os.len(),
                    epoch == os[a as int].epoch,
                    b <= os[a as int].spent@.len(),
                    self.wf(),
                    old_self.wf(),
                    report.added + report.already_present == sum_lens(os.subrange(0, a as int)) + b,
                    sum_lens(os.subrange(0, a + 1)) == sum_lens(os.subrange(0, a as int)) + os[a as int].spent@.len(),
                    sum_lens(os.subrange(0, a + 1)) <= sum_lens(os),
                    self.total() == old_self.total() + report.added,
                    forall|e: u64, n: Seq<u8>|
                        #[trigger] self.is_spent_spec(e, n) <==> (old_self.is_spent_spec(e, n)
                            || seen_prefix_at(os, a as int, b as int, e, n)),
                    (forall|e: u64, n: Seq<u8>| #[trigger] other.is_spent_spec(e, n) ==> old_self.is_spent_spec(e, n))
                        ==> report.added == 0,
                decreases os[a as int].spent@.len() - b,
            {
                let n = other.used[a].spent[b];
                proof {
                    assert(holds_nullifier(os[a as int].spent@, n@));
                    assert(other.is_spent_spec(epoch, n@));
                }
                if self.is_spent(epoch, &n) {
                    report.already_present = report.already_present + 1;
                } else {
                    let _ = self.try_register(epoch, n);
                    report.added = report.added + 1;
                }
                proof {
                    assert forall|e: u64, m: Seq<u8>|
                        #[trigger] self.is_spent_spec(e, m) <==> (old_self.is_spent_spec(e, m)
                            || seen_prefix_at(os, a as int, b + 1, e, m)) by {
                        lemma_seen_step(os, a as int, b as int, e, m);
                    }
                }
                b = b + 1;
            }
            proof {
                assert forall|e: u64, m: Seq<u8>|
                    #[trigger] self.is_spent_spec(e, m) <==> (old_self.is_spent_spec(e, m)
                        || seen_prefix(os, a + 1, 0, e, m)) by {
                    lemma_seen_next_epoch(os, a as int, e, m);
                }
            }
            a = a + 1;
        }
        proof {
            assert(os.subrange(0, a as int) =~= os);
            assert forall|e: u64, m: Seq<u8>| seen_prefix(os, a as int, 0, e, m) == other.is_spent_spec(e, m) by {}
        }
        Ok(report)
    }

    proof fn lemma_spent_after_update(&self, pre: Seq<EpochSpends>, i: int, epoch: u64, n: Seq<u8>)
        requires
            0 <= i < pre.len(),
            pre[i].epoch == epoch,
            self.used@ == pre.update(i, EpochSpends { epoch, spent: self.used@[i].spent }),
            self.used@[i].spent@ == pre[i].spent@.push(self.used@[i].spent@.last()),
            self.used@[i].spent@.last()@ == n,
            forall|a: int, b: int| 0 <= a < b < pre.len() ==> pre[a].epoch != pre[b].epoch,
            forall|j: int| 0 <= j < pre.len() ==> distinct_nullifiers(#[trigger] pre[j].spent@),
            !(exists|j: int| 0 <= j < pre.len() && pre[j].epoch == epoch && holds_nullifier(#[trigger] pre[j].spent@, n)),
        ensures
            self.wf(),
            forall|e: u64, m: Seq<u8>|
                #[trigger] self.is_spent_spec(e, m) <==> ((exists|j: int|
                    0 <= j < pre.len() && pre[j].epoch == e && holds_nullifier(#[trigger] pre[j].spent@, m))
                    || (e == epoch && m == n)),
    {
        let s = self.used@[i].spent@;
        assert forall|a: int, b: int| 0 <= a < b < s.len() implies s[a]@ != s[b]@ by {
            if b == s.len() - 1 {
                assert(!holds_nullifier(pre[i].spent@, n));
                assert(s[a] == pre[i].spent@[a]);
            } else {
                assert(s[a] == pre[i].spent@[a]);
                assert(s[b] == pre[i].spent@[b]);
            }
        }
        assert forall|j: int| 0 <= j < self.used@.len() implies distinct_nullifiers(#[trigger] self.used@[j].spent@) by {
            if j != i {
                assert(self.used@[j] == pre[j]);
            }
        }
        assert forall|e: u64, m: Seq<u8>|
            #[trigger] self.is_spent_spec(e, m) <==> ((exists|j: int|
                0 <= j < pre.len() && pre[j].epoch == e && holds_nullifier(#[trigger] pre[j].spent@, m))
                || (e == epoch && m == n)) by {
            if self.is_spent_spec(e, m) {
                let j = choose|j: int|
                    0 <= j < self.used@.len() && self.used@[j].epoch == e && holds_nullifier(
                        #[trigger] self.used@[j].spent@,
                        m,
                    );
                if j == i {
                    let k = choose|k: int| 0 <= k < s.len() && s[k]@ == m;
                    if k < s.len() - 1 {
                        assert(pre[i].spent@[k] == s[k]);
                        assert(holds_nullifier(pre[i].spent@, m));
                    }
                } else {
                    assert(self.used@[j] == pre[j]);
                }
            }
            if e == epoch && m == n {
                assert(s[s.len() - 1]@ == n);
                assert(holds_nullifier(self.used@[i].spent@, m));
            }
            if exists|j: int| 0 <= j < pre.len() && pre[j].epoch == e && holds_nullifier(#[trigger] pre[j].spent@, m) {
                let j = choose|j: int|
                    0 <= j < pre.len() && pre[j].epoch == e && holds_nullifier(#[trigger] pre[j].spent@, m);
                let k = choose|k: int| 0 <= k < pre[j].spent@.len() && pre[j].spent@[k]@ == m;
                if j == i {
                    assert(s[k] == pre[i].spent@[k]);
                    assert(holds_nullifier(self.used@[i].spent@, m));
                } else {
                    assert(self.used@[j] == pre[j]);
                }
            }
        }
    }

    proof fn lemma_spent_after_push(&self, pre: Seq<EpochSpends>, epoch: u64, n: Seq<u8>)
        requires
            self.used@ == pre.push(self.used@.last()),
            self.used@.last().epoch == epoch,
            self.used@.last().spent@.len() == 1,
            self.used@.last().spent@[0]@ == n,
            forall|a: int, b: int| 0 <= a < b < pre.len() ==> pre[a].epoch != pre[b].epoch,
            forall|j: int| 0 <= j < pre.len() ==> distinct_nullifiers(#[trigger] pre[j].spent@),
            forall|j: int| 0 <= j < pre.len() ==> pre[j].epoch != epoch,
        ensures
            self.wf(),
            forall|e: u64, m: Seq<u8>|
                #[trigger] self.is_spent_spec(e, m) <==> ((exists|j: int|
                    0 <= j < pre.len() && pre[j].epoch == e && holds_nullifier(#[trigger] pre[j].spent@, m))
                    || (e == epoch && m == n)),
    {
        let last = pre.len() as int;
        assert forall|j: int| 0 <= j < self.used@.len() implies distinct_nullifiers(#[trigger] self.used@[j].spent@) by {
            if j < last {
                assert(self.used@[j] == pre[j]);
            }
        }
        assert forall|e: u64, m: Seq<u8>|
            #[trigger] self.is_spent_spec(e, m) <==> ((exists|j: int|
                0 <= j < pre.len() && pre[j].epoch == e && holds_nullifier(#[trigger] pre[j].spent@, m))
                || (e == epoch && m == n)) by {
            if self.is_spent_spec(e, m) {
                let j = choose|j: int|
                    0 <= j < self.used@.len() && self.used@[j].epoch == e && holds_nullifier(
                        #[trigger] self.used@[j].spent@,
                        m,
                    );
                if j < last {
                    assert(self.used@[j] == pre[j]);
                } else {
                    let k = choose|k: int| 0 <= k < self.used@[j].spent@.len() && self.used@[j].spent@[k]@ == m;
                    assert(k == 0);
                }
            }
            if e == epoch && m == n {
                assert(holds_nullifier(self.used@[last].spent@, m));
            }
            if exists|j: int| 0 <= j < pre.len() && pre[j].epoch == e && holds_nullifier(#[trigger] pre[j].spent@, m) {
                let j = choose|j: int|
                    0 <= j < pre.len() && pre[j].epoch == e && holds_nullifier(#[trigger] pre[j].spent@, m);
                assert(self.used@[j] == pre[j]);
            }
        }
    }

}


/// Whether `(e, n)` occurs among the first `a` epochs of `s`.
pub open spec fn seen_prefix(s: Seq<EpochSpends>, a: int, b: int, e: u64, n: Seq<u8>) -> bool {
    exists|i: int| 0 <= i < a && s[i].epoch == e && holds_nullifier(#[trigger] s[i].spent@, n)
}

/// Whether `(e, n)` occurs among the first `a` epochs of `s`, or among the first
/// `b` nullifiers of epoch `a`.
pub open spec fn seen_prefix_at(s: Seq<EpochSpends>, a: int, b: int, e: u64, n: Seq<u8>) -> bool {
    seen_prefix(s, a, 0, e, n) || (s[a].epoch == e && exists|k: int|
        0 <= k < b && #[trigger] s[a].spent@[k]@ == n)
}

pub proof fn lemma_seen_step(s: Seq<EpochSpends>, a: int, b: int, e: u64, n: Seq<u8>)
    requires
        0 <= a < s.len(),
        0 <= b < s[a].spent@.len(),
    ensures
        seen_prefix_at(s, a, b + 1, e, n) <==> (seen_prefix_at(s, a, b, e, n) || (e == s[a].epoch
            && n == s[a].spent@[b]@)),
{
    if seen_prefix_at(s, a, b + 1, e, n) && !seen_prefix(s, a, 0, e, n) {
        let k = choose|k: int| 0 <= k < b + 1 && #[trigger] s[a].spent@[k]@ == n;
        if k < b {
            assert(seen_prefix_at(s, a, b, e, n));
        }
    }
    if e == s[a].epoch && n == s[a].spent@[b]@ {
        assert(s[a].spent@[b]@ == n);
    }
}

pub proof fn lemma_seen_next_epoch(s: Seq<EpochSpends>, a: int, e: u64, n: Seq<u8>)
    requires
        0 <= a < s.len(),
    ensures
        seen_prefix(s, a + 1, 0, e, n) <==> seen_prefix_at(s, a, s[a].spent@.len() as int, e, n),
{
    if seen_prefix(s, a + 1, 0, e, n) {
        let i = choose|i: int| 0 <= i < a + 1 && s[i].epoch == e && holds_nullifier(#[trigger] s[i].spent@, n);
        if i == a {
            let k = choose|k: int| 0 <= k < s[a].spent@.len() && s[a].spent@[k]@ == n;
            assert(s[a].spent@[k]@ == n);
        }
    }
    if seen_prefix_at(s, a, s[a].spent@.len() as int, e, n) && !seen_prefix(s, a, 0, e, n) {
        let k = choose|k: int| 0 <= k < s[a].spent@.len() && #[trigger] s[a].spent@[k]@ == n;
        assert(holds_nullifier(s[a].spent@, n));
    }
}

/// Removing epoch `i` keeps the registry well formed and forgets exactly its nullifiers.
pub proof fn lemma_remove_epoch(s: Seq<EpochSpends>, i: int)
    requires
        unique_epochs(s),
        forall|j: int| 0 <= j < s.len() ==> distinct_nullifiers(#[trigger] s[j].spent@),
        0 <= i < s.len(),
    ensures
        unique_epochs(s.remove(i)),
        forall|j: int| 0 <= j < s.remove(i).len() ==> distinct_nullifiers(#[trigger] s.remove(i)[j].spent@),
        count_in(s.remove(i), s[i].epoch) == 0,
        forall|e: u64| e != s[i].epoch ==> #[trigger] count_in(s.remove(i), e) == count_in(s, e),
        forall|e: u64, n: Seq<u8>|
            #[trigger] spent_in(s.remove(i), e, n) <==> (spent_in(s, e, n) && e != s[i].epoch),
{
    let t = s.remove(i);
    let ep = s[i].epoch;
    assert forall|j: int| 0 <= j < t.len() implies t[j] == if j < i { s[j] } else { s[j + 1] } by {}
    assert forall|a: int, b: int| 0 <= a < b < t.len() implies t[a].epoch != t[b].epoch by {
        if b < i {
        } else if a < i {
            assert(t[b] == s[b + 1]);
        } else {
            assert(t[a] == s[a + 1]);
            assert(t[b] == s[b + 1]);
        }
    }
    assert forall|j: int| 0 <= j < t.len() implies distinct_nullifiers(#[trigger] t[j].spent@) by {
        if j < i {
            assert(t[j] == s[j]);
        } else {
            assert(t[j] == s[j + 1]);
        }
    }
    assert forall|j: int| 0 <= j < t.len() implies t[j].epoch != ep by {
        if j < i {
            assert(t[j] == s[j]);
        } else {
            assert(t[j] == s[j + 1]);
        }
    }
    assert forall|e: u64| e != ep implies #[trigger] count_in(t, e) == count_in(s, e) by {
        if exists|j: int| 0 <= j < s.len() && #[trigger] s[j].epoch == e {
            let j = choose|j: int| 0 <= j < s.len() && #[trigger] s[j].epoch == e;
            let jt = if j < i { j } else { j - 1 };
            assert(t[jt] == s[j]);
            lemma_count_at(s, j);
            lemma_count_at(t, jt);
        } else {
            if exists|j: int| 0 <= j < t.len() && #[trigger] t[j].epoch == e {
                let j = choose|j: int| 0 <= j < t.len() && #[trigger] t[j].epoch == e;
                if j < i {
                    assert(s[j].epoch == e);
                } else {
                    assert(s[j + 1].epoch == e);
                }
            }
        }
    }
    assert forall|e: u64, n: Seq<u8>|
        #[trigger] spent_in(t, e, n) <==> (spent_in(s, e, n) && e != ep) by {
        if exists|j: int| 0 <= j < t.len() && t[j].epoch == e && holds_nullifier(#[trigger] t[j].spent@, n) {
            let j = choose|j: int| 0 <= j < t.len() && t[j].epoch == e && holds_nullifier(#[trigger] t[j].spent@, n);
            if j < i {
                assert(t[j] == s[j]);
            } else {
                assert(t[j] == s[j + 1]);
            }
        }
        if (exists|j: int| 0 <= j < s.len() && s[j].epoch == e && holds_nullifier(#[trigger] s[j].spent@, n)) && e != ep {
            let j = choose|j: int| 0 <= j < s.len() && s[j].epoch == e && holds_nullifier(#[trigger] s[j].spent@, n);
            assert(j != i);
            let jt = if j < i { j } else { j - 1 };
            assert(t[jt] == s[j]);
        }
    }
}

/// Whether `(e, n)` is listed in `s`.
pub open spec fn spent_in(s: Seq<EpochSpends>, e: u64, n: Seq<u8>) -> bool {
    exists|j: int| 0 <= j < s.len() && s[j].epoch == e && holds_nullifier(#[trigger] s[j].spent@, n)
}

/// Whether no epoch is listed twice.
pub open spec fn unique_epochs(s: Seq<EpochSpends>) -> bool {
    forall|a: int, b: int| 0 <= a < b < s.len() ==> s[a].epoch != s[b].epoch
}

/// Number of nullifiers listed for `epoch` (zero when the epoch is absent).
pub open spec fn count_in(s: Seq<EpochSpends>, epoch: u64) -> nat {
    if exists|i: int| 0 <= i < s.len() && #[trigger] s[i].epoch == epoch {
        s[choose|i: int| 0 <= i < s.len() && #[trigger] s[i].epoch == epoch].spent@.len()
    } else {
        0
    }
}

pub proof fn lemma_count_at(s: Seq<EpochSpends>, i: int)
    requires
        unique_epochs(s),
        0 <= i < s.len(),
    ensures
        count_in(s, s[i].epoch) == s[i].spent@.len(),
{
    let e = s[i].epoch;
    let c = choose|c: int| 0 <= c < s.len() && #[trigger] s[c].epoch == e;
    if c < i {
        assert(s[c].epoch != s[i].epoch);
    } else if c > i {
        assert(s[i].epoch != s[c].epoch);
    }
}

pub proof fn lemma_count_update(s: Seq<EpochSpends>, i: int, x: EpochSpends)
    requires
        unique_epochs(s),
        0 <= i < s.len(),
        x.epoch == s[i].epoch,
    ensures
        unique_epochs(s.update(i, x)),
        count_in(s.update(i, x), x.epoch) == x.spent@.len(),
        forall|e: u64| e != x.epoch ==> #[trigger] count_in(s.update(i, x), e) == count_in(s, e),
{
    let t = s.update(i, x);
    assert forall|a: int, b: int| 0 <= a < b < t.len() implies t[a].epoch != t[b].epoch by {
        assert(t[a].epoch == s[a].epoch);
        assert(t[b].epoch == s[b].epoch);
    }
    lemma_count_at(t, i);
    assert forall|e: u64| e != x.epoch implies #[trigger] count_in(t, e) == count_in(s, e) by {
        if exists|j: int| 0 <= j < s.len() && #[trigger] s[j].epoch == e {
            let j = choose|j: int| 0 <= j < s.len() && #[trigger] s[j].epoch == e;
            assert(j != i);
            assert(t[j] == s[j]);
            lemma_count_at(s, j);
            lemma_count_at(t, j);
        } else {
            assert(!exists|j: int| 0 <= j < t.len() && #[trigger] t[j].epoch == e) by {
                if exists|j: int| 0 <= j < t.len() && #[trigger] t[j].epoch == e {
                    let j = choose|j: int| 0 <= j < t.len() && #[trigger] t[j].epoch == e;
                    assert(s[j].epoch == e);
                }
            }
        }
    }
}

pub proof fn lemma_count_push(s: Seq<EpochSpends>, x: EpochSpends)
    requires
        unique_epochs(s),
        forall|j: int| 0 <= j < s.len() ==> s[j].epoch != x.epoch,
    ensures
        unique_epochs(s.push(x)),
        count_in(s, x.epoch) == 0,
        count_in(s.push(x), x.epoch) == x.spent@.len(),
        forall|e: u64| e != x.epoch ==> #[trigger] count_in(s.push(x), e) == count_in(s, e),
{
    let t = s.push(x);
    assert forall|a: int, b: int| 0 <= a < b < t.len() implies t[a].epoch != t[b].epoch by {
        if b == s.len() {
            assert(t[a] == s[a]);
        } else {
            assert(t[a] == s[a]);
            assert(t[b] == s[b]);
        }
    }
    lemma_count_at(t, s.len() as int);
    assert forall|e: u64| e != x.epoch implies #[trigger] count_in(t, e) == count_in(s, e) by {
        if exists|j: int| 0 <= j < s.len() && #[trigger] s[j].epoch == e {
            let j = choose|j: int| 0 <= j < s.len() && #[trigger] s[j].epoch == e;
            assert(t[j] == s[j]);
            lemma_count_at(s, j);
            lemma_count_at(t, j);
        } else {
            assert(!exists|j: int| 0 <= j < t.len() && #[trigger] t[j].epoch == e) by {
                if exists|j: int| 0 <= j < t.len() && #[trigger] t[j].epoch == e {
                    let j = choose|j: int| 0 <= j < t.len() && #[trigger] t[j].epoch == e;
                    if j < s.len() {
                        assert(t[j] == s[j]);
                    }
                }
            }
        }
    }
}

pub proof fn lemma_sum_lens_push(s: Seq<EpochSpends>, x: EpochSpends)
    ensures
        sum_lens(s.push(x)) == sum_lens(s) + x.spent@.len(),
{
    assert(s.push(x).drop_last() =~= s);
}

/// The sum over a prefix grows by the last length.
pub proof fn lemma_sum_lens_prefix(s: Seq<EpochSpends>, k: int)
    requires
        0 < k <= s.len(),
    ensures
        sum_lens(s.subrange(0, k)) == sum_lens(s.subrange(0, k - 1)) + s[k - 1].spent@.len(),
        sum_lens(s.subrange(0, k)) <= sum_lens(s),
    decreases s.len() - k,
{
    assert(s.subrange(0, k).drop_last() =~= s.subrange(0, k - 1));
    if k < s.len() {
        lemma_sum_lens_prefix(s, k + 1);
    } else {
        assert(s.subrange(0, k) =~= s);
    }
}

/// Replacing one epoch list by one a single element longer grows the sum by one.
pub proof fn lemma_sum_lens_update(s: Seq<EpochSpends>, i: int, x: EpochSpends)
    requires
        0 <= i < s.len(),
        x.spent@.len() == s[i].spent@.len() + 1,
    ensures
        sum_lens(s.update(i, x)) == sum_lens(s) + 1,
    decreases s.len(),
{
    let t = s.update(i, x);
    if i == s.len() - 1 {
        assert(t.drop_last() =~= s.drop_last());
    } else {
        assert(t.drop_last() =~= s.drop_last().update(i, x));
        lemma_sum_lens_update(s.drop_last(), i, x);
    }
}

/// Whether `list` holds the bytes of `n`.
fn list_holds(list: &Vec<ReputationNullifier>, n: &ReputationNullifier) -> (r: bool)
    ensures
        r == holds_nullifier(list@, n@),
{
    let mut i: usize = 0;
    while i < list.len()
        invariant
            i <= list@.len(),
            forall|k: int| 0 <= k < i ==> list@[k]@ != n@,
        decreases list@.len() - i,
    {
        if crate::wire::bytes_eq(list[i].as_slice(), n.as_slice()) {
            return true;
        }
        i = i + 1;
    }
    false
}


/// Lower-case hex text of a nullifier (64 characters).
pub fn hex_encode_32(bytes: &[u8; 32]) -> (r: String)
    ensures
        r@ == crate::wire::ascii_chars(spec_hex(bytes@)),
{
    let mut out: Vec<u8> = Vec::new();
    push_hex(&mut out, bytes.as_slice());
    proof {
        lemma_hex_len(bytes@);
        assert(out@ =~= spec_hex(bytes@));
    }
    string_from_ascii(out)
}

/// What parsing a nullifier text gives: the 32 bytes, or the trimmed text that failed.
pub open spec fn spec_parse_hex_32(s: Seq<char>) -> Result<Seq<u8>, Seq<char>> {
    let t = trimmed(s);
    let b = encode_utf8(t);
    if b.len() != 64 || !all_hex(b) {
        Err(t)
    } else {
        Ok(spec_unhex(b))
    }
}

/// Parse 64 hex digits (surrounding whitespace trimmed) into a nullifier.
pub fn parse_hex_32(s: &str) -> (r: Result<[u8; 32], NullifierError>)
    ensures
        match (r, spec_parse_hex_32(s@)) {
            (Ok(a), Ok(v)) => a@ == v,
            (Err(NullifierError::InvalidNullifierHex(m)), Err(t)) => m@ == t,
            _ => false,
        },
{
    let t = str_trim(s);
    let b = t.as_bytes();
    if b.len() != 64 {
        return Err(NullifierError::InvalidNullifierHex(owned(t)));
    }
    match unhex(b) {
        Some(v) => {
            assert(v@.len() == 32);
            let a = copy_32(v.as_slice(), 0);
            assert(v@.subrange(0, 32) =~= v@);
            Ok(a)
        },
        None => Err(NullifierError::InvalidNullifierHex(owned(t))),
    }
}

/// Unsigned decimal text as Rust's `u64` parser reads it: an optional `+`, then digits.
pub open spec fn spec_parse_u64_text(b: Seq<u8>) -> Option<u64> {
    if b.len() > 0 && b[0] == 0x2b {
        spec_parse_decimal(b.drop_first())
    } else {
        spec_parse_decimal(b)
    }
}

/// Parse an epoch key (`u64` decimal text, optional leading `+`).
pub fn parse_u64_text(s: &str) -> (r: Option<u64>)
    ensures
        r == spec_parse_u64_text(encode_utf8(s@)),
{
    let b = s.as_bytes();
    if b.len() > 0 && b[0] == 0x2b {
        let rest = &b[1..b.len()];
        assert(rest@ =~= b@.drop_first());
        parse_decimal(rest)
    } else {
        parse_decimal(b)
    }
}

/// Why loading a registry file failed, with the text each error carries.
pub enum LoadFailure {
    Version(u32),
    BadEpoch(Seq<char>),
    BadHex(Seq<char>),
    Duplicate(u64, Seq<char>),
}

/// Nullifier lists of one epoch entry after reading its first `k` texts.
pub open spec fn spec_read_list(epoch: u64, hexes: Seq<String>, k: nat) -> Result<Seq<Seq<u8>>, LoadFailure>
    decreases k,
{
    if k == 0 {
        Ok(Seq::empty())
    } else {
        match spec_read_list(epoch, hexes, (k - 1) as nat) {
            Err(f) => Err(f),
            Ok(prev) => match spec_parse_hex_32(hexes[k - 1]@) {
                Err(t) => Err(LoadFailure::BadHex(t)),
                Ok(v) => if prev.contains(v) {
                    Err(LoadFailure::Duplicate(epoch, hexes[k - 1]@))
                } else {
                    Ok(prev.push(v))
                },
            },
        }
    }
}

/// Replace the list of `epoch`, or append it when the epoch is new.
pub open spec fn upsert(s: Seq<(u64, Seq<Seq<u8>>)>, epoch: u64, list: Seq<Seq<u8>>) -> Seq<(u64, Seq<Seq<u8>>)> {
    if exists|i: int| 0 <= i < s.len() && #[trigger] s[i].0 == epoch {
        s.update(choose|i: int| 0 <= i < s.len() && #[trigger] s[i].0 == epoch, (epoch, list))
    } else {
        s.push((epoch, list))
    }
}

/// Registry lists after reading the first `k` epoch entries of a file; a later
/// entry for the same epoch replaces an earlier one.
pub open spec fn spec_read_epochs(entries: Seq<(String, Vec<String>)>, k: nat) -> Result<Seq<(u64, Seq<Seq<u8>>)>, LoadFailure>
    decreases k,
{
    if k == 0 {
        Ok(Seq::empty())
    } else {
        match spec_read_epochs(entries, (k - 1) as nat) {
            Err(f) => Err(f),
            Ok(prev) => match spec_parse_u64_text(encode_utf8(entries[k - 1].0@)) {
                None => Err(LoadFailure::BadEpoch(entries[k - 1].0@)),
                Some(e) => match spec_read_list(e, entries[k - 1].1@, entries[k - 1].1@.len()) {
                    Err(f) => Err(f),
                    Ok(list) => Ok(upsert(prev, e, list)),
                },
            },
        }
    }
}

/// What loading a registry file gives.
pub open spec fn spec_load(version: u32, entries: Seq<(String, Vec<String>)>) -> Result<Seq<(u64, Seq<Seq<u8>>)>, LoadFailure> {
    if version != REGISTRY_FILE_VERSION {
        Err(LoadFailure::Version(version))
    } else {
        spec_read_epochs(entries, entries.len())
    }
}

/// Whether an error value carries the failure `f`.
pub open spec fn error_matches(e: NullifierError, f: LoadFailure) -> bool {
    match (e, f) {
        (NullifierError::UnsupportedVersion(v), LoadFailure::Version(w)) => v == w,
        (NullifierError::InvalidNullifierHex(m), LoadFailure::BadEpoch(t)) => m@ == t,
        (NullifierError::InvalidNullifierHex(m), LoadFailure::BadHex(t)) => m@ == t,
        (NullifierError::MergeConflict { epoch, nullifier_hex }, LoadFailure::Duplicate(e, t)) =>
            epoch == e && nullifier_hex@ == t,
        _ => false,
    }
}

/// The lists of a registry as plain values.
pub open spec fn lists_of(s: Seq<EpochSpends>) -> Seq<(u64, Seq<Seq<u8>>)> {
    s.map_values(|x: EpochSpends| (x.epoch, x.spent@.map_values(|n: ReputationNullifier| n@)))
}

impl NullifierRegistry {
    /// The per-epoch lists of this registry as plain values.
    pub closed spec fn lists(&self) -> Seq<(u64, Seq<Seq<u8>>)> {
        lists_of(self.used@)
    }

    /// Read access to the per-epoch lists (for export).
    pub fn epoch_spends(&self) -> (r: &[EpochSpends])
        ensures
            lists_of(r@) == self.lists(),
    {
        self.used.as_slice()
    }

    /// Build a registry from the contents of an exported file: its version and its
    /// `(epoch decimal text, nullifier hex texts)` entries, read in order.
    pub fn from_file_entries(version: u32, entries: &Vec<(String, Vec<String>)>) -> (r: Result<Self, NullifierError>)
        ensures
            match (r, spec_load(version, entries@)) {
                (Ok(reg), Ok(l)) => reg.wf() && reg.lists() == l,
                (Err(e), Err(f)) => error_matches(e, f),
                _ => false,
            },
    {
        if version != REGISTRY_FILE_VERSION {
            return Err(NullifierError::UnsupportedVersion(version));
        }
        let mut reg = NullifierRegistry::new();
        let mut k: usize = 0;
        while k < entries.len()
            invariant
                version == REGISTRY_FILE_VERSION,
                k <= entries@.len(),
                reg.wf(),
                spec_read_epochs(entries@, k as nat) is Ok,
                reg.lists() == spec_read_epochs(entries@, k as nat)->Ok_0,
            decreases entries@.len() - k,
        {
            let epoch = match parse_u64_text(entries[k].0.as_str()) {
                Some(e) => e,
                None => {
                    let text = entries[k].0.clone();
                    proof {
                        assert(spec_read_epochs(entries@, (k + 1) as nat) == Err::<Seq<(u64, Seq<Seq<u8>>)>, LoadFailure>(LoadFailure::BadEpoch(entries@[k as int].0@)));
                        lemma_read_epochs_stops(entries@, (k + 1) as nat);
                    }
                    return Err(NullifierError::InvalidNullifierHex(text));
                },
            };
            let list = match read_list(epoch, &entries[k].1) {
                Ok(l) => l,
                Err(e) => {
                    proof {
                        let f = spec_read_list(epoch, entries@[k as int].1@, entries@[k as int].1@.len());
                        assert(spec_read_epochs(entries@, (k + 1) as nat) == Err::<Seq<(u64, Seq<Seq<u8>>)>, LoadFailure>(f->Err_0));
                        lemma_read_epochs_stops(entries@, (k + 1) as nat);
                    }
                    return Err(e);
                },
            };
            reg.replace_epoch(epoch, list);
            k = k + 1;
        }
        Ok(reg)
    }

    /// Set the list of `epoch` to `list` (append the epoch when new).
    fn replace_epoch(&mut self, epoch: u64, list: Vec<ReputationNullifier>)
        requires
            old(self).wf(),
            distinct_nullifiers(list@),
        ensures
            final(self).wf(),
            final(self).lists() == upsert(old(self).lists(), epoch, list@.map_values(|n: ReputationNullifier| n@)),
    {
        let ghost pre = self.used@;
        let entry = EpochSpends { epoch, spent: list };
        match self.find_epoch(epoch) {
            Some(i) => {
                self.used.remove(i);
                self.used.insert(i, entry);
                proof {
                    assert(self.used@ =~= pre.update(i as int, entry));
                    lemma_count_update(pre, i as int, entry);
                    assert forall|j: int| 0 <= j < self.used@.len() implies distinct_nullifiers(#[trigger] self.used@[j].spent@) by {
                        if j != i { assert(self.used@[j] == pre[j]); }
                    }
                    let l = lists_of(pre);
                    assert(l[i as int].0 == epoch);
                    let c = choose|c: int| 0 <= c < l.len() && #[trigger] l[c].0 == epoch;
                    assert(pre[c].epoch == epoch);
                    if c != i as int {
                        if c < i { assert(pre[c].epoch != pre[i as int].epoch); }
                        else { assert(pre[i as int].epoch != pre[c].epoch); }
                    }
                    assert(lists_of(self.used@) =~= upsert(l, epoch, list@.map_values(|n: ReputationNullifier| n@)));
                }
            },
            None => {
                self.used.push(entry);
                proof {
                    assert(self.used@ =~= pre.push(entry));
                    lemma_count_push(pre, entry);
                    assert forall|j: int| 0 <= j < self.used@.len() implies distinct_nullifiers(#[trigger] self.used@[j].spent@) by {
                        if j < pre.len() { assert(self.used@[j] == pre[j]); }
                    }
                    let l = lists_of(pre);
                    assert(!exists|c: int| 0 <= c < l.len() && #[trigger] l[c].0 == epoch) by {
                        if exists|c: int| 0 <= c < l.len() && #[trigger] l[c].0 == epoch {
                            let c = choose|c: int| 0 <= c < l.len() && #[trigger] l[c].0 == epoch;
                            assert(pre[c].epoch == epoch);
                        }
                    }
                    assert(lists_of(self.used@) =~= upsert(l, epoch, list@.map_values(|n: ReputationNullifier| n@)));
                }
            },
        }
    }
}

/// Once reading stops at an entry, it stays stopped.
pub proof fn lemma_read_epochs_stops(entries: Seq<(String, Vec<String>)>, k: nat)
    requires
        k <= entries.len(),
        spec_read_epochs(entries, k) is Err,
    ensures
        spec_read_epochs(entries, entries.len()) == spec_read_epochs(entries, k),
    decreases entries.len() - k,
{
    if k < entries.len() {
        lemma_read_epochs_stops(entries, k + 1);
    }
}

pub proof fn lemma_read_list_stops(epoch: u64, hexes: Seq<String>, k: nat)
    requires
        k <= hexes.len(),
        spec_read_list(epoch, hexes, k) is Err,
    ensures
        spec_read_list(epoch, hexes, hexes.len()) == spec_read_list(epoch, hexes, k),
    decreases hexes.len() - k,
{
    if k < hexes.len() {
        lemma_read_list_stops(epoch, hexes, k + 1);
    }
}

/// Parse the nullifier texts of one epoch entry; a nullifier listed twice is a conflict.
fn read_list(epoch: u64, hexes: &Vec<String>) -> (r: Result<Vec<ReputationNullifier>, NullifierError>)
    ensures
        match (r, spec_read_list(epoch, hexes@, hexes@.len())) {
            (Ok(v), Ok(l)) => v@.map_values(|n: ReputationNullifier| n@) == l && distinct_nullifiers(v@),
            (Err(e), Err(f)) => error_matches(e, f),
            _ => false,
        },
{
    let mut out: Vec<ReputationNullifier> = Vec::new();
    let mut k: usize = 0;
    while k < hexes.len()
        invariant
            k <= hexes@.len(),
            spec_read_list(epoch, hexes@, k as nat) is Ok,
            out@.map_values(|n: ReputationNullifier| n@) == spec_read_list(epoch, hexes@, k as nat)->Ok_0,
            distinct_nullifiers(out@),
        decreases hexes@.len() - k,
    {
        let parsed = match parse_hex_32(hexes[k].as_str()) {
            Ok(a) => a,
            Err(e) => {
                proof { lemma_read_list_stops(epoch, hexes@, (k + 1) as nat); }
                return Err(e);
            },
        };
        let ghost prev = out@.map_values(|n: ReputationNullifier| n@);
        if list_holds(&out, &parsed) {
            proof {
                let j = choose|j: int| 0 <= j < out@.len() && out@[j]@ == parsed@;
                assert(prev[j] == parsed@);
                lemma_read_list_stops(epoch, hexes@, (k + 1) as nat);
            }
            return Err(NullifierError::MergeConflict { epoch, nullifier_hex: hexes[k].clone() });
        }
        proof {
            assert(!prev.contains(parsed@)) by {
                if prev.contains(parsed@) {
                    let j = choose|j: int| 0 <= j < prev.len() && prev[j] == parsed@;
                    assert(out@[j]@ == parsed@);
                }
            }
        }
        out.push(parsed);
        proof {
            assert(out@.map_values(|n: ReputationNullifier| n@) =~= prev.push(parsed@));
        }
        k = k + 1;
    }
    Ok(out)
}
} // verus!
