//! An explicit, finite site: the pages one crawl can reach, keyed by their
//! normalized URL, together with a log of every fetch attempted against it.
//! The log makes the at-most-once-fetch guarantee observable.
use vstd::prelude::*;

use crate::fetch::{FetchResult, FetchResultView};
use crate::urls::{norm_of, normalize, NormalizedUrl, NormalizedUrlView, UrlParts};

verus! {

broadcast use vstd::seq_lib::seq_to_set_is_finite;

/// The page stored under a key: the first matching entry, or `Failed` where
/// the site has none (an unreachable or erroring URL).
pub open spec fn page_at(
    pages: Seq<(NormalizedUrl, FetchResult)>,
    key: NormalizedUrlView,
) -> FetchResultView
    decreases pages.len(),
{
    if pages.len() == 0 {
        FetchResultView::Failed
    } else if pages[0].0@ == key {
        pages[0].1@
    } else {
        page_at(pages.skip(1), key)
    }
}

/// How many entries of a fetch log name a key.
pub open spec fn count_of(log: Seq<NormalizedUrlView>, key: NormalizedUrlView) -> nat
    decreases log.len(),
{
    if log.len() == 0 {
        0
    } else {
        count_of(log.drop_last(), key) + (if log.last() == key {
            1nat
        } else {
            0
        })
    }
}

/// A finite site with an instrumented fetcher.
pub struct SiteGraph {
    pages: Vec<(NormalizedUrl, FetchResult)>,
    log: Vec<NormalizedUrl>,
}

impl SiteGraph {
    /// The stored pages, in insertion order.
    pub closed spec fn pages_view(&self) -> Seq<(NormalizedUrl, FetchResult)> {
        self.pages@
    }

    /// The keys of every fetch attempted so far, oldest first.
    pub closed spec fn log_view(&self) -> Seq<NormalizedUrlView> {
        self.log.deep_view()
    }

    /// The keys that have a page.
    pub open spec fn key_set(&self) -> Set<NormalizedUrlView> {
        self.pages_view().map_values(|p: (NormalizedUrl, FetchResult)| p.0@).to_set()
    }

    /// A site holds finitely many pages.
    pub proof fn lemma_key_set_finite(&self)
        ensures
            self.key_set().finite(),
    {
    }

    /// A key whose page is not `Failed` has a page, so it is in the key set.
    pub proof fn lemma_found_key_in_set(&self, key: NormalizedUrlView)
        requires
            page_at(self.pages_view(), key) != FetchResultView::Failed,
        ensures
            self.key_set().contains(key),
    {
        lemma_page_at_found(self.pages_view(), key);
        let i = choose|i: int|
            0 <= i < self.pages_view().len() && #[trigger] self.pages_view()[i].0@ == key;
        assert(self.pages_view().map_values(|p: (NormalizedUrl, FetchResult)| p.0@)[i] == key);
    }

    /// An empty site: every fetch against it fails.
    pub fn new() -> (s: SiteGraph)
        ensures
            s.pages_view() == Seq::<(NormalizedUrl, FetchResult)>::empty(),
            s.log_view() == Seq::<NormalizedUrlView>::empty(),
    {
        SiteGraph { pages: Vec::new(), log: Vec::new() }
    }

    /// Store one page under its normalized URL; the first entry for a key
    /// wins.
    pub fn add_page(&mut self, key: NormalizedUrl, content: FetchResult)
        ensures
            final(self).pages_view() == old(self).pages_view().push((key, content)),
            final(self).log_view() == old(self).log_view(),
    {
        self.pages.push((key, content));
        proof {
            assert(self.log.deep_view() =~= old(self).log.deep_view());
        }
    }

    /// One blocking fetch against this site: the page stored under the work
    /// item's normalized URL, or `Failed` where there is none. Every call is
    /// logged under that key.
    pub fn fetch(&mut self, item: &UrlParts) -> (r: FetchResult)
        ensures
            final(self).pages_view() == old(self).pages_view(),
            r@ == page_at(old(self).pages_view(), norm_of(item@)),
            final(self).log_view() == old(self).log_view().push(norm_of(item@)),
    {
        let key = normalize(item);
        let n = self.pages.len();
        let mut i: usize = 0;
        let mut found = false;
        let mut result = FetchResult::Failed;
        proof {
            assert(self.pages@.skip(0) =~= self.pages@);
        }
        while i < n && !found
            invariant
                n == self.pages@.len(),
                0 <= i <= n,
                key@ == norm_of(item@),
                !found ==> result == FetchResult::Failed && page_at(self.pages@, key@) == page_at(
                    self.pages@.skip(i as int),
                    key@,
                ),
                found ==> result@ == page_at(self.pages@, key@),
            decreases n - i, (if found { 0int } else { 1int }),
        {
            let ghost tail = self.pages@.skip(i as int);
            if self.pages[i].0.key_eq(&key) {
                result = self.pages[i].1.duplicate();
                found = true;
                proof {
                    assert(tail[0] == self.pages@[i as int]);
                }
            } else {
                proof {
                    assert(tail[0] == self.pages@[i as int]);
                    assert(tail.skip(1) =~= self.pages@.skip(i as int + 1));
                }
                i += 1;
            }
        }
        proof {
            if !found {
                assert(self.pages@.skip(n as int) =~= Seq::<(NormalizedUrl, FetchResult)>::empty());
            }
        }
        let ghost log0 = self.log.deep_view();
        self.log.push(key);
        proof {
            assert(self.log.deep_view() =~= log0.push(key@));
        }
        result
    }

    /// How many times a key has been fetched so far.
    pub fn fetch_count(&self, key: &NormalizedUrl) -> (r: usize)
        ensures
            r == count_of(self.log_view(), key@),
    {
        let n = self.log.len();
        let mut c: usize = 0;
        let mut i: usize = 0;
        while i < n
            invariant
                n == self.log@.len(),
                0 <= i <= n,
                c <= i,
                c == count_of(self.log.deep_view().take(i as int), key@),
            decreases n - i,
        {
            let ghost pref = self.log.deep_view().take(i as int + 1);
            if self.log[i].key_eq(key) {
                c += 1;
            }
            proof {
                assert(pref.drop_last() =~= self.log.deep_view().take(i as int));
                assert(pref.last() == self.log.deep_view()[i as int]);
            }
            i += 1;
        }
        proof {
            assert(self.log.deep_view().take(n as int) =~= self.log.deep_view());
        }
        c
    }
}

proof fn lemma_page_at_found(pages: Seq<(NormalizedUrl, FetchResult)>, key: NormalizedUrlView)
    requires
        page_at(pages, key) != FetchResultView::Failed,
    ensures
        exists|i: int| 0 <= i < pages.len() && #[trigger] pages[i].0@ == key,
    decreases pages.len(),
{
    if pages.len() > 0 {
        if pages[0].0@ == key {
            assert(pages[0].0@ == key);
        } else {
            lemma_page_at_found(pages.skip(1), key);
            let i = choose|i: int|
                0 <= i < pages.skip(1).len() && #[trigger] pages.skip(1)[i].0@ == key;
            assert(pages[i + 1].0@ == key);
        }
    }
}

} // verus!
