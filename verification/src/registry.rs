//! The visited registry: a map from normalized URL to visit outcome, with
//! insert-if-absent claims and first-write-wins final outcomes.
use vstd::prelude::*;

use crate::urls::{NormalizedUrl, NormalizedUrlView};

verus! {

/// The recorded state of one normalized URL: claimed for a fetch that has not
/// yet resolved, fetched as an HTML page, or failed (network error, non-2xx
/// status, or a non-HTML response).
#[derive(Clone, Copy, PartialEq, Eq, Structural, Debug)]
pub enum VisitOutcome {
    Pending,
    Success,
    Failure,
}

spec fn map_of(s: Seq<(NormalizedUrl, VisitOutcome)>) -> Map<NormalizedUrlView, VisitOutcome>
    decreases s.len(),
{
    if s.len() == 0 {
        Map::empty()
    } else {
        map_of(s.drop_last()).insert(s.last().0@, s.last().1)
    }
}

spec fn unique_keys(s: Seq<(NormalizedUrl, VisitOutcome)>) -> bool {
    forall|i: int, j: int| 0 <= i < j < s.len() ==> s[i].0@ != s[j].0@
}

proof fn lemma_map_of_entries(s: Seq<(NormalizedUrl, VisitOutcome)>)
    requires
        unique_keys(s),
    ensures
        forall|i: int|
            0 <= i < s.len() ==> map_of(s).contains_key(#[trigger] s[i].0@) && map_of(s)[s[i].0@]
                == s[i].1,
        forall|k: NormalizedUrlView|
            map_of(s).contains_key(k) ==> exists|i: int| 0 <= i < s.len() && #[trigger] s[i].0@
                == k,
    decreases s.len(),
{
    if s.len() > 0 {
        let d = s.drop_last();
        assert(unique_keys(d));
        lemma_map_of_entries(d);
        assert forall|i: int| 0 <= i < s.len() implies map_of(s).contains_key(#[trigger] s[i].0@)
            && map_of(s)[s[i].0@] == s[i].1 by {
            if i < s.len() - 1 {
                assert(d[i] == s[i]);
                assert(s[i].0@ != s.last().0@);
            }
        }
        assert forall|k: NormalizedUrlView| map_of(s).contains_key(k) implies exists|i: int|
            0 <= i < s.len() && #[trigger] s[i].0@ == k by {
            if k == s.last().0@ {
                assert(s[s.len() - 1].0@ == k);
            } else {
                assert(map_of(d).contains_key(k));
                let i = choose|i: int| 0 <= i < d.len() && #[trigger] d[i].0@ == k;
                assert(s[i].0@ == k);
            }
        }
    }
}

proof fn lemma_map_of_finite(s: Seq<(NormalizedUrl, VisitOutcome)>)
    ensures
        map_of(s).dom().finite(),
    decreases s.len(),
{
    if s.len() > 0 {
        lemma_map_of_finite(s.drop_last());
    }
}

proof fn lemma_map_of_update(s: Seq<(NormalizedUrl, VisitOutcome)>, i: int, v: VisitOutcome)
    requires
        unique_keys(s),
        0 <= i < s.len(),
    ensures
        map_of(s.update(i, (s[i].0, v))) == map_of(s).insert(s[i].0@, v),
        unique_keys(s.update(i, (s[i].0, v))),
    decreases s.len(),
{
    let t = s.update(i, (s[i].0, v));
    assert(unique_keys(t));
    if i == s.len() - 1 {
        assert(t.drop_last() =~= s.drop_last());
        assert(map_of(t) =~= map_of(s).insert(s[i].0@, v));
    } else {
        assert(t.drop_last() =~= s.drop_last().update(i, (s[i].0, v)));
        assert(unique_keys(s.drop_last()));
        assert(s.drop_last()[i] == s[i]);
        lemma_map_of_update(s.drop_last(), i, v);
        assert(s[i].0@ != s.last().0@);
        assert(map_of(t) == map_of(s.drop_last()).insert(s[i].0@, v).insert(s.last().0@, s.last().1));
        assert(map_of(s.drop_last()).insert(s[i].0@, v).insert(s.last().0@, s.last().1) =~= map_of(
            s,
        ).insert(s[i].0@, v));
    }
}

/// The shared visited registry. Absence of a key means the URL was never
/// claimed; `Pending` marks a claimed fetch in flight; `Success` and
/// `Failure` are final and are never overwritten.
pub struct VisitedRegistry {
    entries: Vec<(NormalizedUrl, VisitOutcome)>,
}

impl View for VisitedRegistry {
    type V = Map<NormalizedUrlView, VisitOutcome>;

    closed spec fn view(&self) -> Map<NormalizedUrlView, VisitOutcome> {
        map_of(self.entries@)
    }
}

impl VisitedRegistry {
    /// Each normalized URL holds at most one entry.
    pub closed spec fn wf(&self) -> bool {
        unique_keys(self.entries@)
    }

    /// A registry's key set is finite.
    pub proof fn lemma_dom_finite(&self)
        ensures
            self@.dom().finite(),
    {
        lemma_map_of_finite(self.entries@);
    }

    /// A fresh, empty registry.
    pub fn new() -> (r: VisitedRegistry)
        ensures
            r.wf(),
            r@ == Map::<NormalizedUrlView, VisitOutcome>::empty(),
    {
        VisitedRegistry { entries: Vec::new() }
    }

    /// The recorded outcome of a key, if any.
    pub fn outcome_of(&self, key: &NormalizedUrl) -> (r: Option<VisitOutcome>)
        requires
            self.wf(),
        ensures
            r == if self@.contains_key(key@) {
                Some(self@[key@])
            } else {
                None::<VisitOutcome>
            },
    {
        proof {
            lemma_map_of_entries(self.entries@);
        }
        let n = self.entries.len();
        let mut i: usize = 0;
        while i < n
            invariant
                n == self.entries@.len(),
                0 <= i <= n,
                self.wf(),
                forall|j: int| 0 <= j < i ==> self.entries@[j].0@ != key@,
                forall|i0: int|
                    0 <= i0 < n ==> self@.contains_key(#[trigger] self.entries@[i0].0@)
                        && self@[self.entries@[i0].0@] == self.entries@[i0].1,
                forall|k: NormalizedUrlView|
                    self@.contains_key(k) ==> exists|i0: int|
                        0 <= i0 < n && #[trigger] self.entries@[i0].0@ == k,
            decreases n - i,
        {
            if self.entries[i].0.key_eq(key) {
                return Some(self.entries[i].1);
            }
            i += 1;
        }
        None
    }

    /// Whether a key has been claimed or recorded.
    pub fn contains(&self, key: &NormalizedUrl) -> (r: bool)
        requires
            self.wf(),
        ensures
            r == self@.contains_key(key@),
    {
        match self.outcome_of(key) {
            Some(_) => true,
            None => false,
        }
    }

    /// Claim a key for fetching: if it is absent it is marked `Pending` and
    /// the claim succeeds; a key already present is left untouched. A claimed
    /// key can never be claimed again.
    pub fn try_claim(&mut self, key: &NormalizedUrl) -> (r: bool)
        requires
            old(self).wf(),
        ensures
            final(self).wf(),
            r == !old(self)@.contains_key(key@),
            r ==> final(self)@ == old(self)@.insert(key@, VisitOutcome::Pending),
            !r ==> final(self)@ == old(self)@,
    {
        if self.contains(key) {
            false
        } else {
            proof {
                lemma_map_of_entries(self.entries@);
            }
            let ghost s0 = self.entries@;
            self.entries.push((key.duplicate(), VisitOutcome::Pending));
            proof {
                assert(self.entries@.drop_last() =~= s0);
                assert forall|i: int, j: int|
                    0 <= i < j < self.entries@.len() implies self.entries@[i].0@
                    != self.entries@[j].0@ by {
                    if j == self.entries@.len() - 1 {
                        assert(map_of(s0).contains_key(s0[i].0@));
                    }
                }
            }
            true
        }
    }

    /// Record the final outcome of a fetch attempt. The first final outcome
    /// wins: a key already holding `Success` or `Failure` is left unchanged;
    /// an absent or `Pending` key is set to `outcome`.
    pub fn record(&mut self, key: &NormalizedUrl, outcome: VisitOutcome)
        requires
            old(self).wf(),
            outcome != VisitOutcome::Pending,
        ensures
            final(self).wf(),
            if old(self)@.contains_key(key@) && old(self)@[key@] != VisitOutcome::Pending {
                final(self)@ == old(self)@
            } else {
                final(self)@ == old(self)@.insert(key@, outcome)
            },
    {
        proof {
            lemma_map_of_entries(self.entries@);
        }
        let n = self.entries.len();
        let mut i: usize = 0;
        while i < n
            invariant
                n == self.entries@.len(),
                0 <= i <= n,
                self.wf(),
                self@ == old(self)@,
                self.entries@ == old(self).entries@,
                forall|j: int| 0 <= j < i ==> self.entries@[j].0@ != key@,
                forall|i0: int|
                    0 <= i0 < n ==> self@.contains_key(#[trigger] self.entries@[i0].0@)
                        && self@[self.entries@[i0].0@] == self.entries@[i0].1,
            decreases n - i,
        {
            if self.entries[i].0.key_eq(key) {
                let is_pending = match self.entries[i].1 {
                    VisitOutcome::Pending => true,
                    _ => false,
                };
                if is_pending {
                    proof {
                        lemma_map_of_update(self.entries@, i as int, outcome);
                    }
                    self.entries[i].1 = outcome;
                    proof {
                        assert(self.entries@ =~= old(self).entries@.update(
                            i as int,
                            (old(self).entries@[i as int].0, outcome),
                        ));
                    }
                }
                return ;
            }
            i += 1;
        }
        let ghost s0 = self.entries@;
        proof {
            lemma_map_of_entries(s0);
            assert(!self@.contains_key(key@));
        }
        self.entries.push((key.duplicate(), outcome));
        proof {
            assert(self.entries@.drop_last() =~= s0);
            assert forall|i0: int, j: int|
                0 <= i0 < j < self.entries@.len() implies self.entries@[i0].0@
                != self.entries@[j].0@ by {
                if j == self.entries@.len() - 1 {
                    assert(map_of(s0).contains_key(s0[i0].0@));
                }
            }
        }
    }

    /// The snapshot taken once the crawl completes: every key whose recorded
    /// outcome is `Success`, each exactly once.
    pub fn snapshot_successes(&self) -> (r: Vec<NormalizedUrl>)
        requires
            self.wf(),
        ensures
            forall|j: int|
                0 <= j < r@.len() ==> self@.contains_key(#[trigger] r@[j]@) && self@[r@[j]@]
                    == VisitOutcome::Success,
            forall|k: NormalizedUrlView|
                self@.contains_key(k) && self@[k] == VisitOutcome::Success ==> exists|j: int|
                    0 <= j < r@.len() && #[trigger] r@[j]@ == k,
            forall|j1: int, j2: int| 0 <= j1 < j2 < r@.len() ==> r@[j1]@ != r@[j2]@,
    {
        proof {
            lemma_map_of_entries(self.entries@);
        }
        let n = self.entries.len();
        let mut r: Vec<NormalizedUrl> = Vec::new();
        let mut i: usize = 0;
        while i < n
            invariant
                n == self.entries@.len(),
                0 <= i <= n,
                self.wf(),
                forall|j: int|
                    0 <= j < r@.len() ==> self@.contains_key(#[trigger] r@[j]@) && self@[r@[j]@]
                        == VisitOutcome::Success,
                forall|i0: int|
                    0 <= i0 < i && self.entries@[i0].1 == VisitOutcome::Success ==> exists|j: int|
                        0 <= j < r@.len() && #[trigger] r@[j]@ == self.entries@[i0].0@,
                forall|j: int|
                    0 <= j < r@.len() ==> exists|m: int|
                        0 <= m < i && self.entries@[m].0@ == #[trigger] r@[j]@,
                forall|j1: int, j2: int| 0 <= j1 < j2 < r@.len() ==> r@[j1]@ != r@[j2]@,
                forall|i0: int|
                    0 <= i0 < n ==> self@.contains_key(#[trigger] self.entries@[i0].0@)
                        && self@[self.entries@[i0].0@] == self.entries@[i0].1,
                forall|k: NormalizedUrlView|
                    self@.contains_key(k) ==> exists|i0: int|
                        0 <= i0 < n && #[trigger] self.entries@[i0].0@ == k,
            decreases n - i,
        {
            let ghost r0 = r@;
            let keep = match self.entries[i].1 {
                VisitOutcome::Success => true,
                _ => false,
            };
            if keep {
                r.push(self.entries[i].0.duplicate());
            }
            proof {
                if keep {
                    assert(r@[r@.len() - 1]@ == self.entries@[i as int].0@);
                    assert forall|j1: int, j2: int|
                        0 <= j1 < j2 < r@.len() implies r@[j1]@ != r@[j2]@ by {
                        if j2 == r@.len() - 1 {
                            let m = choose|m: int|
                                0 <= m < i && self.entries@[m].0@ == #[trigger] r0[j1]@;
                            assert(self.entries@[m].0@ != self.entries@[i as int].0@);
                        }
                    }
                    assert forall|j: int| 0 <= j < r@.len() implies exists|m: int|
                        0 <= m < i + 1 && self.entries@[m].0@ == #[trigger] r@[j]@ by {
                        if j < r@.len() - 1 {
                            let m = choose|m: int|
                                0 <= m < i && self.entries@[m].0@ == #[trigger] r0[j]@;
                            assert(self.entries@[m].0@ == r@[j]@);
                        } else {
                            assert(self.entries@[i as int].0@ == r@[j]@);
                        }
                    }
                }
                assert forall|i0: int|
                    0 <= i0 < i + 1 && self.entries@[i0].1 == VisitOutcome::Success implies exists|
                    j: int,
                |
                    0 <= j < r@.len() && #[trigger] r@[j]@ == self.entries@[i0].0@ by {
                    if i0 == i as int {
                        assert(r@[r@.len() - 1]@ == self.entries@[i0].0@);
                    } else {
                        let j = choose|j: int|
                            0 <= j < r0.len() && #[trigger] r0[j]@ == self.entries@[i0].0@;
                        assert(r@[j]@ == self.entries@[i0].0@);
                    }
                }
            }
            i += 1;
        }
        proof {
            assert forall|k: NormalizedUrlView|
                self@.contains_key(k) && self@[k] == VisitOutcome::Success implies exists|j: int|
                0 <= j < r@.len() && #[trigger] r@[j]@ == k by {
                let i0 = choose|i0: int| 0 <= i0 < n && #[trigger] self.entries@[i0].0@ == k;
                assert(self.entries@[i0].1 == VisitOutcome::Success);
            }
        }
        r
    }
}

} // verus!
