//! Unit tests for the URL model, the registry, the fetch classifier and the
//! session accounting.
use site_crawler::fetch::{classify_response, FetchResult};
use site_crawler::registry::{VisitOutcome, VisitedRegistry};
use site_crawler::session::begin_crawl;
use site_crawler::urls::{
    dec_str, is_internal_path, is_same_host, normalize, parse_seed, render, NormalizedUrl,
};
use site_crawler::CrawlError;

fn norm(u: &str) -> NormalizedUrl {
    normalize(&parse_seed(u).expect("test url must parse"))
}

#[test]
fn normalization_strips_query_and_fragment() {
    let a = norm("http://example.com/p?x=1#frag");
    let b = norm("http://example.com/p?z=9");
    let c = norm("http://example.com/p");
    assert!(a.key_eq(&b));
    assert!(b.key_eq(&c));
    assert_eq!(render(&a), "http://example.com/p".to_string());
}

#[test]
fn normalization_keeps_scheme_host_port_path() {
    let a = norm("https://example.com:8443/p?x=1");
    assert_eq!(render(&a), "https://example.com:8443/p".to_string());
    let b = norm("http://example.com:80/p");
    // the URL parser drops a default port
    assert_eq!(render(&b), "http://example.com/p".to_string());
}

#[test]
fn internal_path_accepts_only_root_relative_targets() {
    assert!(is_internal_path("/a"));
    assert!(is_internal_path("/"));
    assert!(is_internal_path("//other.com/x"));
    assert!(!is_internal_path(""));
    assert!(!is_internal_path("http://example.com/a"));
    assert!(!is_internal_path("mailto:someone@example.com"));
    assert!(!is_internal_path("a/relative"));
}

#[test]
fn same_host_compares_scheme_host_and_port() {
    let a = norm("http://example.com/a");
    let b = norm("http://example.com/b?q=1");
    let other = norm("http://other.com/a");
    let https = norm("https://example.com/a");
    let ported = norm("http://example.com:8080/a");
    assert!(is_same_host(&a, &b));
    assert!(!is_same_host(&a, &other));
    assert!(!is_same_host(&a, &https));
    assert!(!is_same_host(&a, &ported));
}

#[test]
fn decimal_rendering_of_ports() {
    assert_eq!(dec_str(0), "0".to_string());
    assert_eq!(dec_str(7), "7".to_string());
    assert_eq!(dec_str(80), "80".to_string());
    assert_eq!(dec_str(8080), "8080".to_string());
    assert_eq!(dec_str(65535), "65535".to_string());
}

#[test]
fn invalid_seed_gives_invalid_url_error() {
    assert_eq!(parse_seed("not a url").err(), Some(CrawlError::InvalidUrl));
    assert_eq!(parse_seed("mailto:a@b.c").err(), Some(CrawlError::InvalidUrl));
    assert!(parse_seed("http://example.com/x").is_ok());
}

#[test]
fn registry_claims_each_key_once() {
    let mut reg = VisitedRegistry::new();
    let k = norm("http://example.com/a");
    assert!(!reg.contains(&k));
    assert!(reg.try_claim(&k));
    assert!(!reg.try_claim(&k));
    assert!(reg.contains(&k));
    assert!(matches!(reg.outcome_of(&k), Some(VisitOutcome::Pending)));
}

#[test]
fn registry_first_final_outcome_wins() {
    let mut reg = VisitedRegistry::new();
    let k = norm("http://example.com/a");
    assert!(reg.try_claim(&k));
    reg.record(&k, VisitOutcome::Success);
    assert!(matches!(reg.outcome_of(&k), Some(VisitOutcome::Success)));
    reg.record(&k, VisitOutcome::Failure);
    assert!(matches!(reg.outcome_of(&k), Some(VisitOutcome::Success)));
    let snap = reg.snapshot_successes();
    assert_eq!(snap.len(), 1);
    assert!(snap[0].key_eq(&k));
}

#[test]
fn registry_snapshot_holds_only_successes() {
    let mut reg = VisitedRegistry::new();
    let a = norm("http://example.com/a");
    let b = norm("http://example.com/b");
    let c = norm("http://example.com/c");
    reg.record(&a, VisitOutcome::Success);
    reg.record(&b, VisitOutcome::Failure);
    assert!(reg.try_claim(&c));
    let snap = reg.snapshot_successes();
    assert_eq!(snap.len(), 1);
    assert!(snap[0].key_eq(&a));
}

#[test]
fn classifier_collapses_responses_as_specified() {
    assert!(matches!(
        classify_response(false, "text/html", Some("x".to_string())),
        FetchResult::Failed
    ));
    assert!(matches!(
        classify_response(true, "text/plain", Some("x".to_string())),
        FetchResult::NonHtml
    ));
    assert!(matches!(
        classify_response(true, "text/html", None),
        FetchResult::Failed
    ));
    let r = classify_response(true, "text/html", Some("<p>x</p>".to_string()));
    match r {
        FetchResult::HtmlBody(b) => assert_eq!(b, "<p>x</p>".to_string()),
        _ => panic!("expected an HTML body"),
    }
}

#[test]
fn session_on_failed_seed_is_immediately_done() {
    let seed = parse_seed("http://example.com/").expect("seed must parse");
    let sess = begin_crawl(&seed, &FetchResult::Failed);
    assert!(sess.is_done());
    assert_eq!(sess.successes().len(), 0);
}

#[test]
fn session_accounts_for_claims_and_reports() {
    let seed = parse_seed("http://example.com/").expect("seed must parse");
    let body = "<a href=\"/a\">a</a><a href=\"/b\">b</a>".to_string();
    let mut sess = begin_crawl(&seed, &FetchResult::HtmlBody(body));
    assert!(!sess.is_done());
    assert_eq!(sess.live_count(), 0);

    let first = sess.take_work().expect("a work item is queued");
    assert_eq!(sess.live_count(), 1);
    assert!(sess.is_pending(&first));
    assert!(!sess.is_done());

    sess.complete(&first, &FetchResult::Failed);
    assert_eq!(sess.live_count(), 0);

    let second = sess.take_work().expect("one work item remains");
    sess.complete(&second, &FetchResult::HtmlBody("<p>leaf</p>".to_string()));
    assert!(sess.is_done());
    assert!(sess.take_work().is_none());

    // seed page and the HTML leaf succeeded; the failed page did not
    assert_eq!(sess.successes().len(), 2);
}

#[test]
fn session_skips_already_recorded_items() {
    let seed = parse_seed("http://example.com/").expect("seed must parse");
    // the same page linked under two query variants: one queue entry per href
    let body = "<a href=\"/a?x=1\">1</a><a href=\"/a?x=2\">2</a>".to_string();
    let mut sess = begin_crawl(&seed, &FetchResult::HtmlBody(body));

    let first = sess.take_work().expect("a work item is queued");
    sess.complete(&first, &FetchResult::HtmlBody("<p>leaf</p>".to_string()));
    // the remaining queued variant has the same normalized URL: it is skipped
    assert!(sess.take_work().is_none());
    assert!(sess.is_done());
    assert_eq!(sess.successes().len(), 2);
}
