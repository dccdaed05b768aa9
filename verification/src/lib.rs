//! A single-host web crawler core: starting from a seed URL it discovers every
//! page reachable over internal links on the seed's host and returns the set of
//! successfully fetched pages, identified by their normalized URLs.
//!
//! The crawl policy (normalization, host restriction, internal-link filtering,
//! the visited registry with first-write-wins outcomes, and the coordinator's
//! pending-count termination protocol) is verified here. HTTP transport and
//! URL/HTML parsing primitives are outside collaborators.
use vstd::prelude::*;

pub mod crawl;
pub mod extract;
pub mod fetch;
pub mod registry;
pub mod session;
pub mod site;
pub mod urls;

verus! {

/// The one error the crawler surfaces to its caller: the seed URL cannot
/// be parsed as an absolute URL with a host.
#[derive(Clone, Copy, PartialEq, Eq, Structural, Debug)]
pub enum CrawlError {
    InvalidUrl,
}

} // verus!
