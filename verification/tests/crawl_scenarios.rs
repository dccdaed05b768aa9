//! End-to-end crawls over explicit finite sites.
use site_crawler::crawl::{crawl_site, render_all};
use site_crawler::fetch::FetchResult;
use site_crawler::site::SiteGraph;
use site_crawler::urls::{normalize, parse_seed, NormalizedUrl};

fn key(u: &str) -> NormalizedUrl {
    normalize(&parse_seed(u).expect("test url must parse"))
}

fn html(body: &str) -> FetchResult {
    FetchResult::HtmlBody(body.to_string())
}

fn crawl_sorted(seed: &str, site: &mut SiteGraph) -> Vec<String> {
    let keys = crawl_site(seed, site).expect("crawl must succeed");
    let mut r = render_all(&keys);
    r.sort();
    r
}

#[test]
fn seed_with_no_links_yields_only_seed() {
    let mut site = SiteGraph::new();
    site.add_page(key("http://example.com/"), html("<p>hello</p>"));
    let r = crawl_sorted("http://example.com/", &mut site);
    assert_eq!(r, vec!["http://example.com/".to_string()]);
}

#[test]
fn failing_seed_yields_empty_set() {
    let mut site = SiteGraph::new();
    let r = crawl_sorted("http://example.com/", &mut site);
    assert_eq!(r, Vec::<String>::new());
}

#[test]
fn non_html_seed_yields_empty_set() {
    let mut site = SiteGraph::new();
    site.add_page(key("http://example.com/"), FetchResult::NonHtml);
    let r = crawl_sorted("http://example.com/", &mut site);
    assert_eq!(r, Vec::<String>::new());
}

#[test]
fn chain_of_links_is_followed_to_the_end() {
    let mut site = SiteGraph::new();
    site.add_page(key("http://example.com/"), html("<a href=\"/a\">a</a>"));
    site.add_page(key("http://example.com/a"), html("<a href=\"/b\">b</a>"));
    site.add_page(key("http://example.com/b"), html("<p>end</p>"));
    let r = crawl_sorted("http://example.com/", &mut site);
    assert_eq!(
        r,
        vec![
            "http://example.com/".to_string(),
            "http://example.com/a".to_string(),
            "http://example.com/b".to_string(),
        ]
    );
}

#[test]
fn duplicate_and_external_links_are_fetched_at_most_once_or_never() {
    let mut site = SiteGraph::new();
    site.add_page(
        key("http://example.com/"),
        html("<a href=\"/a\">1</a><a href=\"/a\">2</a><a href=\"http://other.com/x\">e</a>"),
    );
    site.add_page(key("http://example.com/a"), html("<p>leaf</p>"));
    site.add_page(key("http://other.com/x"), html("<p>external</p>"));
    let r = crawl_sorted("http://example.com/", &mut site);
    assert_eq!(
        r,
        vec!["http://example.com/".to_string(), "http://example.com/a".to_string()]
    );
    assert_eq!(site.fetch_count(&key("http://example.com/a")), 1);
    assert_eq!(site.fetch_count(&key("http://other.com/x")), 0);
}

#[test]
fn protocol_relative_link_to_another_host_is_not_followed() {
    let mut site = SiteGraph::new();
    site.add_page(
        key("http://example.com/"),
        html("<a href=\"//other.com/y\">e</a><a href=\"/a\">a</a>"),
    );
    site.add_page(key("http://example.com/a"), html("<p>leaf</p>"));
    site.add_page(key("http://other.com/y"), html("<p>external</p>"));
    let r = crawl_sorted("http://example.com/", &mut site);
    assert_eq!(
        r,
        vec!["http://example.com/".to_string(), "http://example.com/a".to_string()]
    );
    assert_eq!(site.fetch_count(&key("http://other.com/y")), 0);
}

#[test]
fn failed_page_is_absent_but_crawl_completes() {
    let mut site = SiteGraph::new();
    site.add_page(
        key("http://example.com/"),
        html("<a href=\"/a\">a</a><a href=\"/b\">b</a>"),
    );
    site.add_page(key("http://example.com/a"), FetchResult::Failed);
    site.add_page(key("http://example.com/b"), html("<p>fine</p>"));
    let r = crawl_sorted("http://example.com/", &mut site);
    assert_eq!(
        r,
        vec!["http://example.com/".to_string(), "http://example.com/b".to_string()]
    );
    assert_eq!(site.fetch_count(&key("http://example.com/a")), 1);
}

#[test]
fn self_linking_page_terminates_and_appears_once() {
    let mut site = SiteGraph::new();
    site.add_page(key("http://example.com/"), html("<a href=\"/a\">a</a>"));
    site.add_page(key("http://example.com/a"), html("<a href=\"/a\">self</a>"));
    let r = crawl_sorted("http://example.com/", &mut site);
    assert_eq!(
        r,
        vec!["http://example.com/".to_string(), "http://example.com/a".to_string()]
    );
    assert_eq!(site.fetch_count(&key("http://example.com/a")), 1);
}

#[test]
fn image_sources_are_crawled_as_assets() {
    let mut site = SiteGraph::new();
    site.add_page(
        key("http://example.com/"),
        html("<img src=\"/logo\"><a href=\"/a\">a</a>"),
    );
    site.add_page(key("http://example.com/logo"), html("<p>page behind asset</p>"));
    site.add_page(key("http://example.com/a"), html("<p>leaf</p>"));
    let r = crawl_sorted("http://example.com/", &mut site);
    assert_eq!(
        r,
        vec![
            "http://example.com/".to_string(),
            "http://example.com/a".to_string(),
            "http://example.com/logo".to_string(),
        ]
    );
}

#[test]
fn query_and_fragment_variants_are_one_page() {
    let mut site = SiteGraph::new();
    site.add_page(
        key("http://example.com/"),
        html("<a href=\"/a?x=1#top\">1</a><a href=\"/a?z=9\">2</a>"),
    );
    site.add_page(key("http://example.com/a"), html("<p>leaf</p>"));
    let r = crawl_sorted("http://example.com/", &mut site);
    assert_eq!(
        r,
        vec!["http://example.com/".to_string(), "http://example.com/a".to_string()]
    );
    assert_eq!(site.fetch_count(&key("http://example.com/a")), 1);
}

#[test]
fn cycle_between_pages_terminates() {
    let mut site = SiteGraph::new();
    site.add_page(key("http://example.com/"), html("<a href=\"/a\">a</a>"));
    site.add_page(key("http://example.com/a"), html("<a href=\"/b\">b</a>"));
    site.add_page(key("http://example.com/b"), html("<a href=\"/a\">back</a>"));
    let r = crawl_sorted("http://example.com/", &mut site);
    assert_eq!(
        r,
        vec![
            "http://example.com/".to_string(),
            "http://example.com/a".to_string(),
            "http://example.com/b".to_string(),
        ]
    );
    assert_eq!(site.fetch_count(&key("http://example.com/a")), 1);
    assert_eq!(site.fetch_count(&key("http://example.com/b")), 1);
}

#[test]
fn invalid_seed_is_rejected() {
    let mut site = SiteGraph::new();
    match crawl_site("not a url at all", &mut site) {
        Err(e) => assert_eq!(e, site_crawler::CrawlError::InvalidUrl),
        Ok(_) => panic!("an unparsable seed must be rejected"),
    }
}
