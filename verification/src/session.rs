//! The crawl session: the coordinator's work queue and pending-count
//! accounting together with the worker-side handling of one work item.
//!
//! The pending count is the number of work items handed out or queued whose
//! report has not yet been consumed; the crawl is complete exactly when it
//! reaches zero, because any batch that could still arrive was already
//! counted when its work item was handed out.
use vstd::prelude::*;

use crate::extract::{extract_links, links_of};
use crate::fetch::FetchResult;
use crate::registry::{VisitOutcome, VisitedRegistry};
use crate::urls::{
    internal_path_spec, is_internal_path, is_same_host, norm_of, normalize, render, render_of,
    resolve_url, resolved_url_of, same_host_spec, NormalizedUrl, NormalizedUrlView, UrlParts,
    UrlPartsView,
};

verus! {

/// The candidate a link target contributes to a page's work batch: it must be
/// root-relative, resolve against the page, stay on the seed's host, and name
/// a page not yet claimed or recorded.
pub open spec fn followed_link(
    m: Map<NormalizedUrlView, VisitOutcome>,
    seed: NormalizedUrlView,
    base: Seq<char>,
    href: Seq<char>,
) -> Option<UrlPartsView> {
    if internal_path_spec(href) {
        match resolved_url_of(base, href) {
            Some(u) => if same_host_spec(norm_of(u), seed) && !m.contains_key(norm_of(u)) {
                Some(u)
            } else {
                None
            },
            None => None,
        }
    } else {
        None
    }
}

/// The work batch one fetched page produces: its link targets filtered by
/// `followed_link`, in the links' own order.
pub open spec fn batch_spec(
    m: Map<NormalizedUrlView, VisitOutcome>,
    seed: NormalizedUrlView,
    base: Seq<char>,
    links: Seq<Seq<char>>,
) -> Seq<UrlPartsView>
    decreases links.len(),
{
    if links.len() == 0 {
        Seq::empty()
    } else {
        batch_spec(m, seed, base, links.drop_last()) + (match followed_link(
            m,
            seed,
            base,
            links.last(),
        ) {
            Some(u) => seq![u],
            None => Seq::<UrlPartsView>::empty(),
        })
    }
}

/// Every batch member is on the seed's host, was not yet in the registry,
/// and comes from one of the page's link targets.
pub proof fn lemma_batch_spec_members(
    m: Map<NormalizedUrlView, VisitOutcome>,
    seed: NormalizedUrlView,
    base: Seq<char>,
    links: Seq<Seq<char>>,
)
    ensures
        forall|i: int|
            0 <= i < batch_spec(m, seed, base, links).len() ==> same_host_spec(
                norm_of(#[trigger] batch_spec(m, seed, base, links)[i]),
                seed,
            ) && !m.contains_key(norm_of(batch_spec(m, seed, base, links)[i])) && exists|h: int|
                0 <= h < links.len() && followed_link(m, seed, base, #[trigger] links[h]) == Some(
                    batch_spec(m, seed, base, links)[i],
                ),
    decreases links.len(),
{
    if links.len() > 0 {
        let d = links.drop_last();
        lemma_batch_spec_members(m, seed, base, d);
        let b = batch_spec(m, seed, base, links);
        let bd = batch_spec(m, seed, base, d);
        assert forall|i: int| 0 <= i < b.len() implies same_host_spec(norm_of(#[trigger] b[i]), seed)
            && !m.contains_key(norm_of(b[i])) && exists|h: int|
            0 <= h < links.len() && followed_link(m, seed, base, #[trigger] links[h]) == Some(
                b[i],
            ) by {
            if i < bd.len() {
                assert(b[i] == bd[i]);
                let h = choose|h: int|
                    0 <= h < d.len() && followed_link(m, seed, base, #[trigger] d[h]) == Some(
                        bd[i],
                    );
                assert(links[h] == d[h]);
                assert(followed_link(m, seed, base, links[h]) == Some(b[i]));
            } else {
                assert(followed_link(m, seed, base, links[links.len() - 1]) == Some(b[i]));
            }
        }
    }
}

/// No followable link is dropped: every link target of a page that is
/// root-relative, resolves against the page, stays on the seed's host and
/// names a page not yet in the registry contributes its resolved URL to the
/// page's work batch.
pub proof fn lemma_batch_spec_complete(
    m: Map<NormalizedUrlView, VisitOutcome>,
    seed: NormalizedUrlView,
    base: Seq<char>,
    links: Seq<Seq<char>>,
    j: int,
)
    requires
        0 <= j < links.len(),
        followed_link(m, seed, base, links[j]) is Some,
    ensures
        exists|i: int|
            0 <= i < batch_spec(m, seed, base, links).len() && #[trigger] batch_spec(
                m,
                seed,
                base,
                links,
            )[i] == followed_link(m, seed, base, links[j])->Some_0,
    decreases links.len(),
{
    let b = batch_spec(m, seed, base, links);
    let d = links.drop_last();
    let bd = batch_spec(m, seed, base, d);
    if j == links.len() - 1 {
        assert(b[bd.len() as int] == followed_link(m, seed, base, links[j])->Some_0);
    } else {
        assert(d[j] == links[j]);
        lemma_batch_spec_complete(m, seed, base, d, j);
        let i = choose|i: int|
            0 <= i < bd.len() && #[trigger] bd[i] == followed_link(m, seed, base, d[j])->Some_0;
        assert(b[i] == bd[i]);
    }
}

fn collect_batch(
    registry: &VisitedRegistry,
    seed: &NormalizedUrl,
    base: &String,
    links: &Vec<String>,
) -> (batch: Vec<UrlParts>)
    requires
        registry.wf(),
    ensures
        batch.deep_view() == batch_spec(registry@, seed@, base@, links.deep_view()),
{
    let n = links.len();
    let mut batch: Vec<UrlParts> = Vec::new();
    let mut i: usize = 0;
    while i < n
        invariant
            n == links@.len(),
            0 <= i <= n,
            registry.wf(),
            batch.deep_view() == batch_spec(
                registry@,
                seed@,
                base@,
                links.deep_view().take(i as int),
            ),
        decreases n - i,
    {
        let ghost prefix = links.deep_view().take(i as int);
        let ghost prefix1 = links.deep_view().take(i as int + 1);
        let href = &links[i];
        if is_internal_path(href.as_str()) {
            match resolve_url(base.as_str(), href.as_str()) {
                Some(u) => {
                    let k = normalize(&u);
                    if is_same_host(&k, seed) && !registry.contains(&k) {
                        batch.push(u);
                    }
                },
                None => {},
            }
        }
        proof {
            assert(prefix1.drop_last() =~= prefix);
            assert(prefix1.last() == links.deep_view()[i as int]);
            assert(batch.deep_view() =~= batch_spec(registry@, seed@, base@, prefix1));
        }
        i += 1;
    }
    proof {
        assert(links.deep_view().take(n as int) =~= links.deep_view());
    }
    batch
}

/// One crawl's coordinator state: the visited registry, the queued work items
/// not yet handed out, the number of items handed out whose report has not
/// come back, and the seed's identity for the host restriction.
pub struct CrawlSession {
    registry: VisitedRegistry,
    queue: Vec<UrlParts>,
    in_flight: u64,
    seed: NormalizedUrl,
}

impl CrawlSession {
    /// The registry's contents.
    pub closed spec fn registry_map(&self) -> Map<NormalizedUrlView, VisitOutcome> {
        self.registry@
    }

    /// The queued work items, oldest first.
    pub closed spec fn queued(&self) -> Seq<UrlPartsView> {
        self.queue.deep_view()
    }

    /// How many handed-out work items have not been reported back.
    pub closed spec fn in_flight_count(&self) -> nat {
        self.in_flight as nat
    }

    /// The seed's normalized URL: the host restriction's reference point.
    pub closed spec fn seed_key(&self) -> NormalizedUrlView {
        self.seed@
    }

    /// The coordinator's pending count: work items dispatched or queued whose
    /// report has not yet been consumed.
    pub open spec fn pending_count(&self) -> nat {
        self.queued().len() + self.in_flight_count()
    }

    /// Session validity: the registry is well formed and everything queued is
    /// on the seed's host.
    pub closed spec fn wf(&self) -> bool {
        &&& self.registry.wf()
        &&& forall|i: int|
            0 <= i < self.queued().len() ==> same_host_spec(
                norm_of(#[trigger] self.queued()[i]),
                self.seed@,
            )
    }

    /// The registry's key set is finite.
    pub proof fn lemma_registry_finite(&self)
        ensures
            self.registry_map().dom().finite(),
    {
        self.registry.lemma_dom_finite();
    }

    /// Whether a work item's key is claimed and awaiting its report.
    pub fn is_pending(&self, item: &UrlParts) -> (r: bool)
        requires
            self.wf(),
        ensures
            r == (self.registry_map().contains_key(norm_of(item@)) && self.registry_map()[norm_of(
                item@,
            )] == VisitOutcome::Pending),
    {
        let key = normalize(item);
        match self.registry.outcome_of(&key) {
            Some(VisitOutcome::Pending) => true,
            _ => false,
        }
    }

    /// How many handed-out work items are awaiting their report.
    pub fn live_count(&self) -> (r: u64)
        ensures
            r == self.in_flight_count(),
    {
        self.in_flight
    }

    /// The termination test: the pending count is zero, so no work item is
    /// queued or in flight and no further batch can arrive.
    pub fn is_done(&self) -> (r: bool)
        ensures
            r == (self.pending_count() == 0),
    {
        self.queue.len() == 0 && self.in_flight == 0
    }

    /// Hand out the next work item, dropping none: the queue is consumed from
    /// its end, and an item leaves it only as the claimed item handed out or
    /// as one whose key was already claimed or recorded, whose empty report
    /// is consumed on the spot (a fetch that was skipped). The remaining queue
    /// is the untouched front of the old one. `None` means the queue was
    /// exhausted, every drained item having been already claimed or recorded.
    pub fn take_work(&mut self) -> (r: Option<UrlParts>)
        requires
            old(self).wf(),
            old(self).in_flight_count() < u64::MAX,
        ensures
            final(self).wf(),
            final(self).seed_key() == old(self).seed_key(),
            final(self).queued() == old(self).queued().subrange(
                0,
                final(self).queued().len() as int,
            ),
            match r {
                None => {
                    &&& final(self).queued().len() == 0
                    &&& final(self).registry_map() == old(self).registry_map()
                    &&& final(self).in_flight_count() == old(self).in_flight_count()
                    &&& forall|i: int|
                        0 <= i < old(self).queued().len() ==> old(
                            self,
                        ).registry_map().contains_key(norm_of(#[trigger] old(self).queued()[i]))
                },
                Some(u) => {
                    &&& final(self).queued().len() < old(self).queued().len()
                    &&& u@ == old(self).queued()[final(self).queued().len() as int]
                    &&& forall|i: int|
                        final(self).queued().len() < i < old(self).queued().len() ==> old(
                            self,
                        ).registry_map().contains_key(norm_of(#[trigger] old(self).queued()[i]))
                    &&& !old(self).registry_map().contains_key(norm_of(u@))
                    &&& final(self).registry_map() == old(self).registry_map().insert(
                        norm_of(u@),
                        VisitOutcome::Pending,
                    )
                    &&& same_host_spec(norm_of(u@), old(self).seed_key())
                    &&& final(self).in_flight_count() == old(self).in_flight_count() + 1
                },
            },
    {
        proof {
            assert(self.queued() =~= old(self).queued().subrange(0, self.queued().len() as int));
        }
        while self.queue.len() > 0
            invariant
                self.wf(),
                self.registry_map() == old(self).registry_map(),
                self.seed == old(self).seed,
                self.in_flight == old(self).in_flight,
                old(self).in_flight_count() < u64::MAX,
                self.queued().len() <= old(self).queued().len(),
                self.queued() == old(self).queued().subrange(0, self.queued().len() as int),
                forall|i: int|
                    self.queued().len() <= i < old(self).queued().len() ==> old(
                        self,
                    ).registry_map().contains_key(norm_of(#[trigger] old(self).queued()[i])),
            decreases self.queue.len(),
        {
            let ghost q0 = self.queue.deep_view();
            let popped = self.queue.pop();
            match popped {
                Some(u) => {
                    proof {
                        assert(u@ == q0[q0.len() - 1]);
                        assert(old(self).queued().subrange(0, q0.len() as int)[q0.len() - 1]
                            == old(self).queued()[q0.len() - 1]);
                        assert(self.queue.deep_view() =~= q0.subrange(0, q0.len() - 1));
                        assert forall|i: int|
                            0 <= i < self.queued().len() implies self.queued()[i] == old(
                            self,
                        ).queued()[i] by {
                            assert(old(self).queued().subrange(0, q0.len() as int)[i] == old(
                                self,
                            ).queued()[i]);
                        }
                        assert(self.queued() =~= old(self).queued().subrange(
                            0,
                            self.queued().len() as int,
                        ));
                    }
                    let key = normalize(&u);
                    if self.registry.try_claim(&key) {
                        self.in_flight = self.in_flight + 1;
                        return Some(u);
                    }
                },
                None => {
                    proof {
                        assert(false);
                    }
                },
            }
        }
        None
    }

    /// Consume the report of one handed-out work item: record its final
    /// outcome (the first final outcome wins), and on an HTML page extract
    /// its links, filter them, and queue the resulting batch.
    pub fn complete(&mut self, item: &UrlParts, outcome: &FetchResult)
        requires
            old(self).wf(),
            old(self).in_flight_count() >= 1,
            old(self).registry_map().contains_key(norm_of(item@)),
            old(self).registry_map()[norm_of(item@)] == VisitOutcome::Pending,
        ensures
            final(self).wf(),
            final(self).seed_key() == old(self).seed_key(),
            final(self).in_flight_count() == old(self).in_flight_count() - 1,
            final(self).registry_map() == old(self).registry_map().insert(
                norm_of(item@),
                match outcome {
                    FetchResult::HtmlBody(_) => VisitOutcome::Success,
                    _ => VisitOutcome::Failure,
                },
            ),
            match outcome {
                FetchResult::HtmlBody(body) => final(self).queued() == old(self).queued()
                    + batch_spec(
                    final(self).registry_map(),
                    old(self).seed_key(),
                    render_of(norm_of(item@)),
                    links_of(body@),
                ),
                _ => final(self).queued() == old(self).queued(),
            },
    {
        let key = normalize(item);
        match outcome {
            FetchResult::HtmlBody(body) => {
                self.registry.record(&key, VisitOutcome::Success);
                let base = render(&key);
                let links = extract_links(body.as_str());
                let mut batch = collect_batch(&self.registry, &self.seed, &base, &links);
                proof {
                    lemma_batch_spec_members(
                        self.registry@,
                        self.seed@,
                        base@,
                        links.deep_view(),
                    );
                }
                let ghost q0 = self.queue.deep_view();
                let ghost b0 = batch.deep_view();
                self.queue.append(&mut batch);
                proof {
                    assert(self.queue.deep_view() =~= q0 + b0);
                }
            },
            _ => {
                self.registry.record(&key, VisitOutcome::Failure);
            },
        }
        self.in_flight = self.in_flight - 1;
    }

    /// The crawl's result set: every normalized URL recorded `Success`, each
    /// exactly once.
    pub fn successes(&self) -> (r: Vec<NormalizedUrl>)
        requires
            self.wf(),
        ensures
            forall|j: int|
                0 <= j < r@.len() ==> self.registry_map().contains_key(#[trigger] r@[j]@)
                    && self.registry_map()[r@[j]@] == VisitOutcome::Success,
            forall|k: NormalizedUrlView|
                self.registry_map().contains_key(k) && self.registry_map()[k]
                    == VisitOutcome::Success ==> exists|j: int|
                    0 <= j < r@.len() && #[trigger] r@[j]@ == k,
            forall|j1: int, j2: int| 0 <= j1 < j2 < r@.len() ==> r@[j1]@ != r@[j2]@,
    {
        self.registry.snapshot_successes()
    }
}

/// The entry point's synchronous handling of the seed page: record the
/// seed's outcome, collect the seed page's filtered link batch, and open a
/// session holding it.
pub fn begin_crawl(seed_page: &UrlParts, outcome: &FetchResult) -> (s: CrawlSession)
    ensures
        s.wf(),
        s.seed_key() == norm_of(seed_page@),
        s.in_flight_count() == 0,
        s.registry_map() == Map::<NormalizedUrlView, VisitOutcome>::empty().insert(
            norm_of(seed_page@),
            match outcome {
                FetchResult::HtmlBody(_) => VisitOutcome::Success,
                _ => VisitOutcome::Failure,
            },
        ),
        match outcome {
            FetchResult::HtmlBody(body) => s.queued() == batch_spec(
                s.registry_map(),
                norm_of(seed_page@),
                render_of(norm_of(seed_page@)),
                links_of(body@),
            ),
            _ => s.queued() == Seq::<UrlPartsView>::empty(),
        },
{
    let mut registry = VisitedRegistry::new();
    let key = normalize(seed_page);
    match outcome {
        FetchResult::HtmlBody(body) => {
            registry.record(&key, VisitOutcome::Success);
            let base = render(&key);
            let links = extract_links(body.as_str());
            let batch = collect_batch(&registry, &key, &base, &links);
            proof {
                lemma_batch_spec_members(registry@, key@, base@, links.deep_view());
            }
            CrawlSession { registry, queue: batch, in_flight: 0, seed: key }
        },
        _ => {
            registry.record(&key, VisitOutcome::Failure);
            CrawlSession { registry, queue: Vec::new(), in_flight: 0, seed: key }
        },
    }
}

} // verus!
