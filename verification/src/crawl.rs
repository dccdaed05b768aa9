//! The public entry point: validate the seed, fetch and scrape the seed page,
//! then drive the coordinator loop to completion and return the success set.
//!
//! `crawl_site` runs against an explicit, finite site. Its verification
//! carries the crawler's central guarantees: the loop provably terminates on
//! any finite site (the registry only grows within the site's key set, and
//! the queue shrinks whenever it does not); the crawl stops only when the
//! pending count is zero; no normalized URL is fetched twice; every fetch
//! stays on the seed's host; the result is exactly the set of fetched keys
//! whose page came back as HTML, each exactly once; and the crawl follows
//! links and only links — every discovered link is fetched, and every fetch
//! after the seed was discovered on an earlier page.
use vstd::prelude::*;

use crate::extract::links_of;
use crate::fetch::FetchResult;
use crate::registry::VisitOutcome;
use crate::session::{
    batch_spec, begin_crawl, followed_link, lemma_batch_spec_complete, lemma_batch_spec_members,
};
use crate::site::{page_at, SiteGraph};
use crate::urls::{
    internal_path_spec, norm_of, parse_seed, parsed_url_of, render, render_of, resolved_url_of,
    same_host_spec, NormalizedUrl, NormalizedUrlView, UrlParts, UrlPartsView,
};
use crate::CrawlError;

verus! {

broadcast use vstd::set::group_set_axioms;

/// A key was fetched in the run that grew the log from index `base` onward.
pub open spec fn fetched_in(log: Seq<NormalizedUrlView>, base: int, k: NormalizedUrlView) -> bool {
    exists|i: int| base <= i < log.len() && #[trigger] log[i] == k
}

/// Following links from the page stored under `k` discovers the candidate
/// `u`: the page is HTML, and one of its extracted link targets is
/// root-relative, resolves against the page's rendered URL to `u`, and stays
/// on `seed`'s host.
pub open spec fn discovers(
    pages: Seq<(NormalizedUrl, FetchResult)>,
    k: NormalizedUrlView,
    seed: NormalizedUrlView,
    u: UrlPartsView,
) -> bool {
    &&& page_at(pages, k) is HtmlBody
    &&& exists|h: int|
        0 <= h < links_of(page_at(pages, k)->HtmlBody_0).len() && internal_path_spec(
            #[trigger] links_of(page_at(pages, k)->HtmlBody_0)[h],
        ) && resolved_url_of(render_of(k), links_of(page_at(pages, k)->HtmlBody_0)[h]) == Some(u)
            && same_host_spec(norm_of(u), seed)
}

/// Every fetch after the seed follows a link discovered on an earlier fetch:
/// each entry of `log` past index `base` is the normalized URL of a candidate
/// discovered on a page fetched earlier in the run.
pub open spec fn traversal_of(
    pages: Seq<(NormalizedUrl, FetchResult)>,
    log: Seq<NormalizedUrlView>,
    base: int,
    seed: NormalizedUrlView,
) -> bool {
    forall|i: int|
        base < i < log.len() ==> exists|i0: int, u: UrlPartsView|
            base <= i0 < i && discovers(pages, log[i0], seed, u) && norm_of(u)
                == #[trigger] log[i]
}

/// Render every normalized URL, in order.
pub fn render_all(keys: &Vec<NormalizedUrl>) -> (r: Vec<String>)
    ensures
        r@.len() == keys@.len(),
        forall|i: int| 0 <= i < r@.len() ==> #[trigger] r@[i]@ == render_of(keys@[i]@),
{
    let n = keys.len();
    let mut r: Vec<String> = Vec::new();
    let mut i: usize = 0;
    while i < n
        invariant
            n == keys@.len(),
            0 <= i <= n,
            r@.len() == i,
            forall|j: int| 0 <= j < i ==> #[trigger] r@[j]@ == render_of(keys@[j]@),
        decreases n - i,
    {
        r.push(render(&keys[i]));
        i += 1;
    }
    r
}

/// Crawl `site` outward from the already-validated `parts`: fetch and scrape
/// the seed page, then hand out work items and consume their reports until
/// the pending count reaches zero.
#[verifier::rlimit(100)]
fn crawl_from(parts: &UrlParts, site: &mut SiteGraph) -> (out: Vec<NormalizedUrl>)
    ensures
        final(site).pages_view() == old(site).pages_view(),
        old(site).log_view().is_prefix_of(final(site).log_view()),
        // the seed is fetched first
        final(site).log_view().len() > old(site).log_view().len(),
        final(site).log_view()[old(site).log_view().len() as int] == norm_of(parts@),
        // at-most-once fetch
        forall|i: int, j: int|
            old(site).log_view().len() <= i < j < final(site).log_view().len()
                ==> final(site).log_view()[i] != final(site).log_view()[j],
        // every fetch stays on the seed's host
        forall|i: int|
            old(site).log_view().len() <= i < final(site).log_view().len() ==> same_host_spec(
                #[trigger] final(site).log_view()[i],
                norm_of(parts@),
            ),
        // the result holds exactly the fetched keys whose page is HTML
        forall|j1: int, j2: int| 0 <= j1 < j2 < out@.len() ==> out@[j1]@ != out@[j2]@,
        forall|j: int|
            0 <= j < out@.len() ==> fetched_in(
                final(site).log_view(),
                old(site).log_view().len() as int,
                #[trigger] out@[j]@,
            ) && page_at(old(site).pages_view(), out@[j]@) is HtmlBody && same_host_spec(
                out@[j]@,
                norm_of(parts@),
            ),
        forall|k: NormalizedUrlView|
            fetched_in(final(site).log_view(), old(site).log_view().len() as int, k) && page_at(
                old(site).pages_view(),
                k,
            ) is HtmlBody ==> exists|j: int| 0 <= j < out@.len() && #[trigger] out@[j]@ == k,
        // every link discovered on a fetched page is itself fetched
        forall|i: int, u: UrlPartsView|
            #![trigger discovers(old(site).pages_view(), final(site).log_view()[i], norm_of(parts@), u)]
            old(site).log_view().len() <= i < final(site).log_view().len() && discovers(
                old(site).pages_view(),
                final(site).log_view()[i],
                norm_of(parts@),
                u,
            ) ==> fetched_in(
                final(site).log_view(),
                old(site).log_view().len() as int,
                norm_of(u),
            ),
        // every fetch after the seed follows a link discovered on an earlier fetch
        traversal_of(
            old(site).pages_view(),
            final(site).log_view(),
            old(site).log_view().len() as int,
            norm_of(parts@),
        ),
        // a seed that does not fetch as HTML ends the crawl at once
        !(page_at(old(site).pages_view(), norm_of(parts@)) is HtmlBody)
            ==> final(site).log_view().len() == old(site).log_view().len() + 1 && out@.len() == 0,
{
    let ghost seedk = norm_of(parts@);
    let ghost universe = old(site).key_set();
    let ghost base_log = old(site).log_view();
    let ghost pages0 = old(site).pages_view();

    let outcome = site.fetch(&parts);
    let mut sess = begin_crawl(&parts, &outcome);
    let ghost seed_success = outcome@ is HtmlBody;

    proof {
        site.lemma_key_set_finite();
        sess.lemma_registry_finite();
        assert(outcome@ == page_at(pages0, seedk));
        assert(site.log_view() == base_log.push(seedk));
        assert(site.log_view()[base_log.len() as int] == seedk);
        assert(base_log.is_prefix_of(site.log_view())) by {
            assert(base_log =~= site.log_view().subrange(0, base_log.len() as int));
        }
        assert forall|k: NormalizedUrlView| #![trigger sess.registry_map().contains_key(k)]
            sess.registry_map().contains_key(k) implies same_host_spec(k, seedk)
            && sess.registry_map()[k] != VisitOutcome::Pending by {
            assert(k == seedk);
        }
        assert forall|k: NormalizedUrlView| #![trigger sess.registry_map().contains_key(k)]
            sess.registry_map().contains_key(k) && sess.registry_map()[k]
                == VisitOutcome::Success implies fetched_in(
            site.log_view(),
            base_log.len() as int,
            k,
        ) && page_at(pages0, k) is HtmlBody by {
            assert(k == seedk);
            assert(site.log_view()[base_log.len() as int] == k);
        }
        assert forall|i: int|
            base_log.len() <= i < site.log_view().len() implies same_host_spec(
            #[trigger] site.log_view()[i],
            seedk,
        ) by {
            assert(site.log_view()[i] == seedk);
        }
        assert forall|k: NormalizedUrlView| #![trigger sess.registry_map().contains_key(k)]
            sess.registry_map().contains_key(k) implies fetched_in(
            site.log_view(),
            base_log.len() as int,
            k,
        ) by {
            assert(k == seedk);
            assert(site.log_view()[base_log.len() as int] == k);
        }
        assert forall|i: int, u: UrlPartsView|
            #![trigger discovers(pages0, site.log_view()[i], seedk, u)]
            base_log.len() <= i < site.log_view().len() && discovers(
                pages0,
                site.log_view()[i],
                seedk,
                u,
            ) implies sess.registry_map().contains_key(norm_of(u)) || exists|qi: int|
            0 <= qi < sess.queued().len() && #[trigger] sess.queued()[qi] == u by {
            assert(site.log_view()[i] == seedk);
            match &outcome {
                FetchResult::HtmlBody(body) => {
                    assert(page_at(pages0, seedk)->HtmlBody_0 == body@);
                    if !sess.registry_map().contains_key(norm_of(u)) {
                        let h = choose|h: int|
                            0 <= h < links_of(page_at(pages0, seedk)->HtmlBody_0).len()
                                && internal_path_spec(
                                #[trigger] links_of(page_at(pages0, seedk)->HtmlBody_0)[h],
                            ) && resolved_url_of(
                                render_of(seedk),
                                links_of(page_at(pages0, seedk)->HtmlBody_0)[h],
                            ) == Some(u) && same_host_spec(norm_of(u), seedk);
                        assert(followed_link(
                            sess.registry_map(),
                            seedk,
                            render_of(seedk),
                            links_of(body@)[h],
                        ) == Some(u));
                        lemma_batch_spec_complete(
                            sess.registry_map(),
                            seedk,
                            render_of(seedk),
                            links_of(body@),
                            h,
                        );
                        let bi = choose|bi: int|
                            0 <= bi < batch_spec(
                                sess.registry_map(),
                                seedk,
                                render_of(seedk),
                                links_of(body@),
                            ).len() && #[trigger] batch_spec(
                                sess.registry_map(),
                                seedk,
                                render_of(seedk),
                                links_of(body@),
                            )[bi] == followed_link(
                                sess.registry_map(),
                                seedk,
                                render_of(seedk),
                                links_of(body@)[h],
                            )->Some_0;
                        assert(sess.queued()[bi] == u);
                    }
                },
                _ => {
                    assert(false);
                },
            }
        }
        assert forall|qi: int| 0 <= qi < sess.queued().len() implies exists|i0: int|
            base_log.len() <= i0 < site.log_view().len() && discovers(
                pages0,
                site.log_view()[i0],
                seedk,
                #[trigger] sess.queued()[qi],
            ) by {
            match &outcome {
                FetchResult::HtmlBody(body) => {
                    lemma_batch_spec_members(
                        sess.registry_map(),
                        seedk,
                        render_of(seedk),
                        links_of(body@),
                    );
                    let bq = batch_spec(sess.registry_map(), seedk, render_of(seedk), links_of(body@));
                    assert(sess.queued()[qi] == bq[qi]);
                    let h = choose|h: int|
                        0 <= h < links_of(body@).len() && followed_link(
                            sess.registry_map(),
                            seedk,
                            render_of(seedk),
                            #[trigger] links_of(body@)[h],
                        ) == Some(bq[qi]);
                    assert(page_at(pages0, seedk)->HtmlBody_0 == body@);
                    assert(internal_path_spec(links_of(page_at(pages0, seedk)->HtmlBody_0)[h]));
                    assert(resolved_url_of(
                        render_of(seedk),
                        links_of(page_at(pages0, seedk)->HtmlBody_0)[h],
                    ) == Some(sess.queued()[qi]));
                    assert(same_host_spec(norm_of(sess.queued()[qi]), seedk));
                    assert(discovers(pages0, seedk, seedk, sess.queued()[qi]));
                    assert(site.log_view()[base_log.len() as int] == seedk);
                },
                _ => {
                    assert(false);
                },
            }
        }
        if !seed_success {
            assert(sess.registry_map().dom() =~= set![seedk]);
        }
    }

    let mut done = sess.is_done();
    while !done
        invariant
            done == (sess.pending_count() == 0),
            sess.wf(),
            sess.in_flight_count() == 0,
            sess.seed_key() == seedk,
            forall|k: NormalizedUrlView| #![trigger sess.registry_map().contains_key(k)]
                sess.registry_map().contains_key(k) ==> same_host_spec(k, seedk),
            forall|k: NormalizedUrlView| #![trigger sess.registry_map().contains_key(k)]
                sess.registry_map().contains_key(k) ==> sess.registry_map()[k]
                    != VisitOutcome::Pending,
            sess.registry_map().dom().finite(),
            sess.registry_map().contains_key(seedk),
            sess.registry_map()[seedk] == if seed_success {
                VisitOutcome::Success
            } else {
                VisitOutcome::Failure
            },
            !seed_success ==> sess.queued().len() == 0 && sess.registry_map().dom() =~= set![seedk]
                && site.log_view().len() == base_log.len() + 1,
            site.pages_view() == pages0,
            universe == site.key_set(),
            universe.finite(),
            base_log.is_prefix_of(site.log_view()),
            site.log_view().len() > base_log.len(),
            site.log_view()[base_log.len() as int] == seedk,
            forall|i: int, j: int|
                base_log.len() <= i < j < site.log_view().len() ==> site.log_view()[i]
                    != site.log_view()[j],
            forall|i: int|
                base_log.len() <= i < site.log_view().len() ==> sess.registry_map().contains_key(
                    #[trigger] site.log_view()[i],
                ) && same_host_spec(site.log_view()[i], seedk),
            forall|k: NormalizedUrlView| #![trigger sess.registry_map().contains_key(k)]
                sess.registry_map().contains_key(k) && sess.registry_map()[k]
                    == VisitOutcome::Success ==> fetched_in(site.log_view(), base_log.len() as int, k)
                    && page_at(pages0, k) is HtmlBody,
            forall|i: int|
                base_log.len() <= i < site.log_view().len() && page_at(
                    pages0,
                    #[trigger] site.log_view()[i],
                ) is HtmlBody ==> sess.registry_map()[site.log_view()[i]] == VisitOutcome::Success,
            forall|k: NormalizedUrlView| #![trigger sess.registry_map().contains_key(k)]
                sess.registry_map().contains_key(k) ==> fetched_in(
                    site.log_view(),
                    base_log.len() as int,
                    k,
                ),
            forall|i: int, u: UrlPartsView|
                #![trigger discovers(pages0, site.log_view()[i], seedk, u)]
                base_log.len() <= i < site.log_view().len() && discovers(
                    pages0,
                    site.log_view()[i],
                    seedk,
                    u,
                ) ==> sess.registry_map().contains_key(norm_of(u)) || exists|qi: int|
                    0 <= qi < sess.queued().len() && #[trigger] sess.queued()[qi] == u,
            forall|qi: int|
                0 <= qi < sess.queued().len() ==> exists|i0: int|
                    base_log.len() <= i0 < site.log_view().len() && discovers(
                        pages0,
                        site.log_view()[i0],
                        seedk,
                        #[trigger] sess.queued()[qi],
                    ),
            traversal_of(pages0, site.log_view(), base_log.len() as int, seedk),
        decreases
                universe.difference(sess.registry_map().dom()).len(),
                sess.queued().len(),
    {
        proof {
            if !seed_success {
                assert(false);
            }
        }
        let ghost dom0 = sess.registry_map().dom();
        let ghost map0 = sess.registry_map();
        let ghost log0 = site.log_view();
        let ghost q_head = sess.queued();
        match sess.take_work() {
            Some(u) => {
                let ghost uv = u@;
                let ghost k = norm_of(u@);
                let ghost q_tw = sess.queued();
                let oc = site.fetch(&u);
                sess.complete(&u, &oc);
                proof {
                    assert(k != seedk);
                    assert(oc@ == page_at(pages0, k));
                    assert(sess.registry_map() == map0.insert(k, VisitOutcome::Pending).insert(
                        k,
                        match oc {
                            FetchResult::HtmlBody(_) => VisitOutcome::Success,
                            _ => VisitOutcome::Failure,
                        },
                    ));
                    assert(sess.registry_map().dom() =~= dom0.insert(k));
                    assert forall|k2: NormalizedUrlView| #![trigger sess.registry_map().contains_key(k2)]
                        sess.registry_map().contains_key(k2) implies same_host_spec(k2, seedk)
                        && sess.registry_map()[k2] != VisitOutcome::Pending by {
                        if k2 == k {
                            assert(same_host_spec(k2, seedk));
                            assert(sess.registry_map()[k2] == (match oc {
                                FetchResult::HtmlBody(_) => VisitOutcome::Success,
                                _ => VisitOutcome::Failure,
                            }));
                            assert(sess.registry_map()[k2] != VisitOutcome::Pending);
                        } else {
                            assert(map0.contains_key(k2));
                            assert(sess.registry_map()[k2] == map0[k2]);
                        }
                    }
                    assert(site.log_view() == log0.push(k));
                    assert(site.log_view()[site.log_view().len() - 1] == k);
                    assert(base_log.is_prefix_of(site.log_view())) by {
                        assert(base_log =~= site.log_view().subrange(0, base_log.len() as int));
                    }
                    assert forall|k2: NormalizedUrlView| #![trigger sess.registry_map().contains_key(k2)]
                        sess.registry_map().contains_key(k2) && sess.registry_map()[k2]
                            == VisitOutcome::Success implies fetched_in(
                        site.log_view(),
                        base_log.len() as int,
                        k2,
                    ) && page_at(pages0, k2) is HtmlBody by {
                        if k2 == k {
                            assert(oc@ is HtmlBody);
                            assert(site.log_view()[site.log_view().len() - 1] == k2);
                        } else {
                            assert(map0.contains_key(k2) && map0[k2] == VisitOutcome::Success);
                            let i = choose|i: int|
                                base_log.len() <= i < log0.len() && #[trigger] log0[i] == k2;
                            assert(site.log_view()[i] == k2);
                        }
                    }
                    assert forall|i: int|
                        base_log.len() <= i < site.log_view().len() && page_at(
                            pages0,
                            #[trigger] site.log_view()[i],
                        ) is HtmlBody implies sess.registry_map()[site.log_view()[i]]
                        == VisitOutcome::Success by {
                        if i < log0.len() {
                            assert(site.log_view()[i] == log0[i]);
                            assert(map0.contains_key(log0[i]));
                            assert(log0[i] != k);
                        } else {
                            assert(site.log_view()[i] == k);
                        }
                    }
                    assert forall|k2: NormalizedUrlView| #![trigger sess.registry_map().contains_key(k2)]
                        sess.registry_map().contains_key(k2) implies fetched_in(
                        site.log_view(),
                        base_log.len() as int,
                        k2,
                    ) by {
                        if k2 == k {
                            assert(site.log_view()[log0.len() as int] == k2);
                        } else {
                            assert(map0.contains_key(k2));
                            let i = choose|i: int|
                                base_log.len() <= i < log0.len() && #[trigger] log0[i] == k2;
                            assert(site.log_view()[i] == k2);
                        }
                    }
                    assert forall|i: int, u2: UrlPartsView|
                        #![trigger discovers(pages0, site.log_view()[i], seedk, u2)]
                        base_log.len() <= i < site.log_view().len() && discovers(
                            pages0,
                            site.log_view()[i],
                            seedk,
                            u2,
                        ) implies sess.registry_map().contains_key(norm_of(u2)) || exists|qi: int|
                        0 <= qi < sess.queued().len() && #[trigger] sess.queued()[qi] == u2 by {
                        if i < log0.len() {
                            assert(site.log_view()[i] == log0[i]);
                            assert(discovers(pages0, log0[i], seedk, u2));
                            if !sess.registry_map().contains_key(norm_of(u2)) {
                                assert(!map0.contains_key(norm_of(u2)));
                                let qi = choose|qi: int|
                                    0 <= qi < q_head.len() && #[trigger] q_head[qi] == u2;
                                if qi < q_tw.len() {
                                    assert(q_tw[qi] == q_head[qi]);
                                    assert(sess.queued()[qi] == u2);
                                } else if qi == q_tw.len() {
                                    assert(uv == q_head[qi]);
                                    assert(sess.registry_map().contains_key(norm_of(u2)));
                                    assert(false);
                                } else {
                                    assert(map0.contains_key(norm_of(q_head[qi])));
                                    assert(false);
                                }
                            }
                        } else {
                            assert(site.log_view()[i] == k);
                            match &oc {
                                FetchResult::HtmlBody(b) => {
                                    assert(page_at(pages0, k)->HtmlBody_0 == b@);
                                    if !sess.registry_map().contains_key(norm_of(u2)) {
                                        let h = choose|h: int|
                                            0 <= h < links_of(page_at(pages0, k)->HtmlBody_0).len()
                                                && internal_path_spec(
                                                #[trigger] links_of(
                                                    page_at(pages0, k)->HtmlBody_0,
                                                )[h],
                                            ) && resolved_url_of(
                                                render_of(k),
                                                links_of(page_at(pages0, k)->HtmlBody_0)[h],
                                            ) == Some(u2) && same_host_spec(norm_of(u2), seedk);
                                        assert(followed_link(
                                            sess.registry_map(),
                                            seedk,
                                            render_of(k),
                                            links_of(b@)[h],
                                        ) == Some(u2));
                                        lemma_batch_spec_complete(
                                            sess.registry_map(),
                                            seedk,
                                            render_of(k),
                                            links_of(b@),
                                            h,
                                        );
                                        let bi = choose|bi: int|
                                            0 <= bi < batch_spec(
                                                sess.registry_map(),
                                                seedk,
                                                render_of(k),
                                                links_of(b@),
                                            ).len() && #[trigger] batch_spec(
                                                sess.registry_map(),
                                                seedk,
                                                render_of(k),
                                                links_of(b@),
                                            )[bi] == followed_link(
                                                sess.registry_map(),
                                                seedk,
                                                render_of(k),
                                                links_of(b@)[h],
                                            )->Some_0;
                                        assert(sess.queued()[q_tw.len() + bi] == u2);
                                    }
                                },
                                _ => {
                                    assert(!(page_at(pages0, k) is HtmlBody));
                                    assert(false);
                                },
                            }
                        }
                    }
                    assert forall|qi: int| 0 <= qi < sess.queued().len() implies exists|i0: int|
                        base_log.len() <= i0 < site.log_view().len() && discovers(
                            pages0,
                            site.log_view()[i0],
                            seedk,
                            #[trigger] sess.queued()[qi],
                        ) by {
                        if qi < q_tw.len() {
                            assert(q_tw[qi] == q_head[qi]);
                            assert(sess.queued()[qi] == q_head[qi]);
                            let i0 = choose|i0: int|
                                base_log.len() <= i0 < log0.len() && discovers(
                                    pages0,
                                    log0[i0],
                                    seedk,
                                    #[trigger] q_head[qi],
                                );
                            assert(site.log_view()[i0] == log0[i0]);
                            assert(discovers(pages0, site.log_view()[i0], seedk, sess.queued()[qi]));
                        } else {
                            match &oc {
                                FetchResult::HtmlBody(b) => {
                                    lemma_batch_spec_members(
                                        sess.registry_map(),
                                        seedk,
                                        render_of(k),
                                        links_of(b@),
                                    );
                                    let bq = batch_spec(
                                        sess.registry_map(),
                                        seedk,
                                        render_of(k),
                                        links_of(b@),
                                    );
                                    assert(sess.queued()[qi] == bq[qi - q_tw.len()]);
                                    let h = choose|h: int|
                                        0 <= h < links_of(b@).len() && followed_link(
                                            sess.registry_map(),
                                            seedk,
                                            render_of(k),
                                            #[trigger] links_of(b@)[h],
                                        ) == Some(bq[qi - q_tw.len()]);
                                    assert(page_at(pages0, k)->HtmlBody_0 == b@);
                                    assert(internal_path_spec(
                                        links_of(page_at(pages0, k)->HtmlBody_0)[h],
                                    ));
                                    assert(resolved_url_of(
                                        render_of(k),
                                        links_of(page_at(pages0, k)->HtmlBody_0)[h],
                                    ) == Some(sess.queued()[qi]));
                                    assert(same_host_spec(norm_of(sess.queued()[qi]), seedk));
                                    assert(discovers(pages0, k, seedk, sess.queued()[qi]));
                                    assert(site.log_view()[log0.len() as int] == k);
                                },
                                _ => {
                                    assert(false);
                                },
                            }
                        }
                    }
                    assert forall|i: int|
                        base_log.len() < i < site.log_view().len() implies exists|
                        i0: int,
                        u2: UrlPartsView,
                    |
                        base_log.len() <= i0 < i && discovers(
                            pages0,
                            site.log_view()[i0],
                            seedk,
                            u2,
                        ) && norm_of(u2) == #[trigger] site.log_view()[i] by {
                        if i < log0.len() {
                            assert(site.log_view()[i] == log0[i]);
                            let (i0, u2) = choose|i0: int, u2: UrlPartsView|
                                base_log.len() <= i0 < i && discovers(pages0, log0[i0], seedk, u2)
                                    && norm_of(u2) == log0[i];
                            assert(site.log_view()[i0] == log0[i0]);
                            assert(discovers(pages0, site.log_view()[i0], seedk, u2) && norm_of(u2)
                                == site.log_view()[i]);
                        } else {
                            assert(site.log_view()[i] == k);
                            assert(q_head[q_tw.len() as int] == uv);
                            let i0 = choose|i0: int|
                                base_log.len() <= i0 < log0.len() && discovers(
                                    pages0,
                                    log0[i0],
                                    seedk,
                                    #[trigger] q_head[q_tw.len() as int],
                                );
                            assert(site.log_view()[i0] == log0[i0]);
                            assert(discovers(pages0, site.log_view()[i0], seedk, uv) && norm_of(uv)
                                == site.log_view()[i]);
                        }
                    }
                    assert(traversal_of(pages0, site.log_view(), base_log.len() as int, seedk));
                    match &oc {
                        FetchResult::HtmlBody(_) => {
                            site.lemma_found_key_in_set(k);
                            assert(universe.difference(dom0.insert(k)) =~= universe.difference(
                                dom0,
                            ).remove(k));
                            assert(universe.difference(dom0).contains(k));
                        },
                        _ => {
                            if universe.contains(k) {
                                assert(universe.difference(dom0.insert(k)) =~= universe.difference(
                                    dom0,
                                ).remove(k));
                                assert(universe.difference(dom0).contains(k));
                            } else {
                                assert(universe.difference(dom0.insert(k)) =~= universe.difference(
                                    dom0,
                                ));
                            }
                        },
                    }
                }
            },
            None => {
                proof {
                    assert(sess.queued().len() == 0);
                    assert(universe.difference(sess.registry_map().dom())
                        =~= universe.difference(dom0));
                    assert forall|i: int, u2: UrlPartsView|
                        #![trigger discovers(pages0, site.log_view()[i], seedk, u2)]
                        base_log.len() <= i < site.log_view().len() && discovers(
                            pages0,
                            site.log_view()[i],
                            seedk,
                            u2,
                        ) implies sess.registry_map().contains_key(norm_of(u2)) || exists|qi: int|
                        0 <= qi < sess.queued().len() && #[trigger] sess.queued()[qi] == u2 by {
                        assert(discovers(pages0, log0[i], seedk, u2));
                        if !sess.registry_map().contains_key(norm_of(u2)) {
                            let qi = choose|qi: int|
                                0 <= qi < q_head.len() && #[trigger] q_head[qi] == u2;
                            assert(map0.contains_key(norm_of(q_head[qi])));
                            assert(false);
                        }
                    }
                }
            },
        }
        done = sess.is_done();
    }

    let keys = sess.successes();
    proof {
        assert forall|j: int| 0 <= j < keys@.len() implies fetched_in(
            site.log_view(),
            base_log.len() as int,
            #[trigger] keys@[j]@,
        ) && page_at(pages0, keys@[j]@) is HtmlBody && same_host_spec(keys@[j]@, seedk) by {
            assert(sess.registry_map().contains_key(keys@[j]@));
            assert(sess.registry_map()[keys@[j]@] == VisitOutcome::Success);
        }
        assert forall|k: NormalizedUrlView|
            fetched_in(site.log_view(), base_log.len() as int, k) && page_at(
                pages0,
                k,
            ) is HtmlBody implies exists|j: int| 0 <= j < keys@.len() && #[trigger] keys@[j]@
            == k by {
            let i = choose|i: int|
                base_log.len() <= i < site.log_view().len() && #[trigger] site.log_view()[i] == k;
            assert(sess.registry_map()[k] == VisitOutcome::Success);
            assert(sess.registry_map().contains_key(k));
        }
        assert forall|i: int, u2: UrlPartsView|
            #![trigger discovers(pages0, site.log_view()[i], seedk, u2)]
            base_log.len() <= i < site.log_view().len() && discovers(
                pages0,
                site.log_view()[i],
                seedk,
                u2,
            ) implies fetched_in(site.log_view(), base_log.len() as int, norm_of(u2)) by {
            assert(sess.queued().len() == 0);
            assert(sess.registry_map().contains_key(norm_of(u2)));
        }
        assert(traversal_of(pages0, site.log_view(), base_log.len() as int, norm_of(parts@)));
        if !seed_success {
            if keys@.len() > 0 {
                assert(sess.registry_map()[keys@[0]@] == VisitOutcome::Success);
                assert(sess.registry_map().dom().contains(keys@[0]@));
                assert(keys@[0]@ == seedk);
                assert(false);
            }
        }
    }
    keys
}

/// Crawl `site` starting from `seed`: parse and validate the seed, then run
/// the crawl to completion. Returns the normalized URL of every page fetched
/// successfully as HTML; `render_all` turns them into text.
///
/// The contract carries the crawl's guarantees: rejection exactly of seeds
/// that do not parse; the seed fetched first; no normalized URL fetched twice
/// and none off the seed's host (the new fetch-log entries are pairwise
/// distinct and same-host); a result that holds exactly the fetched keys
/// whose page came back as HTML, each exactly once — so a failed or non-HTML
/// seed yields an empty result after a single fetch; and the traversal
/// itself: every link discovered on a fetched page is fetched, and every
/// fetch after the seed follows a link discovered on an earlier fetch.
pub fn crawl_site(seed: &str, site: &mut SiteGraph) -> (r: Result<Vec<NormalizedUrl>, CrawlError>)
    ensures
        final(site).pages_view() == old(site).pages_view(),
        old(site).log_view().is_prefix_of(final(site).log_view()),
        r is Err ==> r->Err_0 == CrawlError::InvalidUrl && parsed_url_of(seed@) is None
            && final(site).log_view() == old(site).log_view(),
        r is Ok ==> parsed_url_of(seed@) is Some,
        r is Ok ==> final(site).log_view().len() > old(site).log_view().len()
            && final(site).log_view()[old(site).log_view().len() as int] == norm_of(
            parsed_url_of(seed@)->Some_0,
        ),
        r is Ok ==> forall|i: int, j: int|
            old(site).log_view().len() <= i < j < final(site).log_view().len()
                ==> final(site).log_view()[i] != final(site).log_view()[j],
        r is Ok ==> forall|i: int|
            old(site).log_view().len() <= i < final(site).log_view().len() ==> same_host_spec(
                #[trigger] final(site).log_view()[i],
                norm_of(parsed_url_of(seed@)->Some_0),
            ),
        r is Ok ==> forall|j1: int, j2: int|
            0 <= j1 < j2 < r->Ok_0@.len() ==> r->Ok_0@[j1]@ != r->Ok_0@[j2]@,
        r is Ok ==> forall|j: int|
            0 <= j < r->Ok_0@.len() ==> fetched_in(
                final(site).log_view(),
                old(site).log_view().len() as int,
                #[trigger] r->Ok_0@[j]@,
            ) && page_at(old(site).pages_view(), r->Ok_0@[j]@) is HtmlBody && same_host_spec(
                r->Ok_0@[j]@,
                norm_of(parsed_url_of(seed@)->Some_0),
            ),
        r is Ok ==> forall|k: NormalizedUrlView|
            fetched_in(final(site).log_view(), old(site).log_view().len() as int, k) && page_at(
                old(site).pages_view(),
                k,
            ) is HtmlBody ==> exists|j: int| 0 <= j < r->Ok_0@.len() && #[trigger] r->Ok_0@[j]@
                == k,
        r is Ok ==> forall|i: int, u: UrlPartsView|
            #![trigger discovers(old(site).pages_view(), final(site).log_view()[i], norm_of(parsed_url_of(seed@)->Some_0), u)]
            old(site).log_view().len() <= i < final(site).log_view().len() && discovers(
                old(site).pages_view(),
                final(site).log_view()[i],
                norm_of(parsed_url_of(seed@)->Some_0),
                u,
            ) ==> fetched_in(
                final(site).log_view(),
                old(site).log_view().len() as int,
                norm_of(u),
            ),
        r is Ok ==> traversal_of(
            old(site).pages_view(),
            final(site).log_view(),
            old(site).log_view().len() as int,
            norm_of(parsed_url_of(seed@)->Some_0),
        ),
        (r is Ok && !(page_at(
            old(site).pages_view(),
            norm_of(parsed_url_of(seed@)->Some_0),
        ) is HtmlBody)) ==> final(site).log_view().len() == old(site).log_view().len() + 1
            && r->Ok_0@.len() == 0,
{
    let parts = match parse_seed(seed) {
        Ok(p) => p,
        Err(e) => {
            proof {
                assert(old(site).log_view().is_prefix_of(site.log_view())) by {
                    assert(old(site).log_view() =~= site.log_view().subrange(
                        0,
                        old(site).log_view().len() as int,
                    ));
                }
            }
            return Err(e);
        },
    };
    let out = crawl_from(&parts, site);
    proof {
        assert(parsed_url_of(seed@) == Some(parts@));
        let rr: Result<Vec<NormalizedUrl>, CrawlError> = Ok(out);
        assert(rr->Ok_0 == out);
        let ghost base = old(site).log_view().len() as int;
        assert forall|j: int| 0 <= j < out@.len() implies fetched_in(
            site.log_view(),
            base,
            #[trigger] rr->Ok_0@[j]@,
        ) && page_at(old(site).pages_view(), rr->Ok_0@[j]@) is HtmlBody && same_host_spec(
            rr->Ok_0@[j]@,
            norm_of(parts@),
        ) by {
            assert(rr->Ok_0@[j]@ == out@[j]@);
        }
        assert forall|k: NormalizedUrlView|
            fetched_in(site.log_view(), base, k) && page_at(
                old(site).pages_view(),
                k,
            ) is HtmlBody implies exists|j: int| 0 <= j < rr->Ok_0@.len() && #[trigger] rr->Ok_0@[j]@
            == k by {
            let j = choose|j: int| 0 <= j < out@.len() && #[trigger] out@[j]@ == k;
            assert(rr->Ok_0@[j]@ == k);
        }
        assert(norm_of(parsed_url_of(seed@)->Some_0) == norm_of(parts@));
        assert forall|i: int, u: UrlPartsView|
            #![trigger discovers(old(site).pages_view(), site.log_view()[i], norm_of(parsed_url_of(seed@)->Some_0), u)]
            base <= i < site.log_view().len() && discovers(
                old(site).pages_view(),
                site.log_view()[i],
                norm_of(parsed_url_of(seed@)->Some_0),
                u,
            ) implies fetched_in(site.log_view(), base, norm_of(u)) by {
            assert(discovers(old(site).pages_view(), site.log_view()[i], norm_of(parts@), u));
        }
        assert(traversal_of(
            old(site).pages_view(),
            site.log_view(),
            base,
            norm_of(parsed_url_of(seed@)->Some_0),
        ));
    }
    Ok(out)
}

} // verus!
