//! The URL model: the components a crawl policy reads, as plain values, and
//! the normalization and filtering rules over them.
use vstd::prelude::*;
use vstd::string::*;

verus! {

/// The components of an absolute URL: scheme, host, optional explicit port,
/// path, and the optional query and fragment that normalization strips.
pub struct UrlParts {
    pub scheme: String,
    pub host: String,
    pub port: Option<u16>,
    pub path: String,
    pub query: Option<String>,
    pub fragment: Option<String>,
}

/// The mathematical image of `UrlParts`.
#[verifier::ext_equal]
pub struct UrlPartsView {
    pub scheme: Seq<char>,
    pub host: Seq<char>,
    pub port: Option<u16>,
    pub path: Seq<char>,
    pub query: Option<Seq<char>>,
    pub fragment: Option<Seq<char>>,
}

pub open spec fn opt_str_view(o: Option<String>) -> Option<Seq<char>> {
    match o {
        Some(s) => Some(s@),
        None => None,
    }
}

impl View for UrlParts {
    type V = UrlPartsView;

    open spec fn view(&self) -> UrlPartsView {
        UrlPartsView {
            scheme: self.scheme@,
            host: self.host@,
            port: self.port,
            path: self.path@,
            query: opt_str_view(self.query),
            fragment: opt_str_view(self.fragment),
        }
    }
}

impl DeepView for UrlParts {
    type V = UrlPartsView;

    open spec fn deep_view(&self) -> UrlPartsView {
        self.view()
    }
}

/// A URL reduced to its identity for deduplication: scheme, host, port and
/// path, with query and fragment stripped.
pub struct NormalizedUrl {
    pub scheme: String,
    pub host: String,
    pub port: Option<u16>,
    pub path: String,
}

/// The mathematical image of `NormalizedUrl`.
#[verifier::ext_equal]
pub struct NormalizedUrlView {
    pub scheme: Seq<char>,
    pub host: Seq<char>,
    pub port: Option<u16>,
    pub path: Seq<char>,
}

impl View for NormalizedUrl {
    type V = NormalizedUrlView;

    open spec fn view(&self) -> NormalizedUrlView {
        NormalizedUrlView {
            scheme: self.scheme@,
            host: self.host@,
            port: self.port,
            path: self.path@,
        }
    }
}

impl DeepView for NormalizedUrl {
    type V = NormalizedUrlView;

    open spec fn deep_view(&self) -> NormalizedUrlView {
        self.view()
    }
}

/// The normalization projection: what identifies a page for deduplication.
pub open spec fn norm_of(u: UrlPartsView) -> NormalizedUrlView {
    NormalizedUrlView { scheme: u.scheme, host: u.host, port: u.port, path: u.path }
}

/// Strip query and fragment: two URLs that differ only there map to the same
/// normalized URL.
pub fn normalize(u: &UrlParts) -> (n: NormalizedUrl)
    ensures
        n@ == norm_of(u@),
{
    let n = NormalizedUrl {
        scheme: u.scheme.clone(),
        host: u.host.clone(),
        port: u.port,
        path: u.path.clone(),
    };
    proof {
        assert(n@ =~= norm_of(u@));
    }
    n
}

impl NormalizedUrl {
    /// A structural copy whose mathematical image is the same.
    pub fn duplicate(&self) -> (r: NormalizedUrl)
        ensures
            r@ == self@,
    {
        let r = NormalizedUrl {
            scheme: self.scheme.clone(),
            host: self.host.clone(),
            port: self.port,
            path: self.path.clone(),
        };
        proof {
            assert(r@ =~= self@);
        }
        r
    }

    /// Equality of normalized URLs, decided field by field.
    pub fn key_eq(&self, other: &NormalizedUrl) -> (r: bool)
        ensures
            r == (self@ == other@),
    {
        let ports_match = match (self.port, other.port) {
            (Some(a), Some(b)) => a == b,
            (None, None) => true,
            _ => false,
        };
        let r = ports_match && self.scheme == other.scheme && self.host == other.host
            && self.path == other.path;
        proof {
            if r {
                assert(self@ =~= other@);
            }
            if self@ == other@ {
                assert(self.scheme@ == other.scheme@);
                assert(self.host@ == other.host@);
                assert(self.path@ == other.path@);
                assert(self.port == other.port);
            }
        }
        r
    }
}

/// Two normalized URLs name pages of the same site: scheme, host and port
/// all agree.
pub open spec fn same_host_spec(a: NormalizedUrlView, b: NormalizedUrlView) -> bool {
    a.scheme == b.scheme && a.host == b.host && a.port == b.port
}

/// The host restriction: a candidate may be crawled only when its scheme,
/// host and port match the seed's.
pub fn is_same_host(a: &NormalizedUrl, b: &NormalizedUrl) -> (r: bool)
    ensures
        r == same_host_spec(a@, b@),
{
    let ports_match = match (a.port, b.port) {
        (Some(x), Some(y)) => x == y,
        (None, None) => true,
        _ => false,
    };
    ports_match && a.scheme == b.scheme && a.host == b.host
}

/// A followable link target: root-relative, that is, it begins with `/`.
pub open spec fn internal_path_spec(s: Seq<char>) -> bool {
    s.len() > 0 && s[0] == '/'
}

/// Accept only root-relative link targets; absolute URLs, `mailto:`,
/// `javascript:` and the like are rejected here or by the host check after
/// resolution.
pub fn is_internal_path(href: &str) -> (r: bool)
    ensures
        r == internal_path_spec(href@),
{
    if href.unicode_len() == 0 {
        false
    } else {
        href.get_char(0) == '/'
    }
}

/// Idempotence of normalization: URLs that differ only in query or fragment
/// have the same normalized URL.
pub proof fn lemma_normalize_idempotent(u1: UrlPartsView, u2: UrlPartsView)
    requires
        u1.scheme == u2.scheme,
        u1.host == u2.host,
        u1.port == u2.port,
        u1.path == u2.path,
    ensures
        norm_of(u1) == norm_of(u2),
{
    assert(norm_of(u1) =~= norm_of(u2));
}

/// The decimal digit for a value below ten.
pub open spec fn dec_digit(d: nat) -> char {
    if d == 0 {
        '0'
    } else if d == 1 {
        '1'
    } else if d == 2 {
        '2'
    } else if d == 3 {
        '3'
    } else if d == 4 {
        '4'
    } else if d == 5 {
        '5'
    } else if d == 6 {
        '6'
    } else if d == 7 {
        '7'
    } else if d == 8 {
        '8'
    } else {
        '9'
    }
}

/// The decimal rendering of a natural number, most significant digit first.
pub open spec fn dec_seq(n: nat) -> Seq<char>
    decreases n,
{
    if n < 10 {
        seq![dec_digit(n)]
    } else {
        dec_seq(n / 10) + seq![dec_digit(n % 10)]
    }
}

fn digit_string(d: u16) -> (r: String)
    requires
        d < 10,
    ensures
        r@ == seq![dec_digit(d as nat)],
{
    proof {
        reveal_strlit("0");
        reveal_strlit("1");
        reveal_strlit("2");
        reveal_strlit("3");
        reveal_strlit("4");
        reveal_strlit("5");
        reveal_strlit("6");
        reveal_strlit("7");
        reveal_strlit("8");
        reveal_strlit("9");
    }
    let r = match d {
        0 => String::from_str("0"),
        1 => String::from_str("1"),
        2 => String::from_str("2"),
        3 => String::from_str("3"),
        4 => String::from_str("4"),
        5 => String::from_str("5"),
        6 => String::from_str("6"),
        7 => String::from_str("7"),
        8 => String::from_str("8"),
        _ => String::from_str("9"),
    };
    proof {
        assert(r@ =~= seq![dec_digit(d as nat)]);
    }
    r
}

/// Render a port number in decimal.
pub fn dec_str(n: u16) -> (r: String)
    ensures
        r@ == dec_seq(n as nat),
    decreases n,
{
    if n < 10 {
        digit_string(n)
    } else {
        let mut s = dec_str(n / 10);
        let d = digit_string(n % 10);
        s.append(d.as_str());
        proof {
            assert(s@ =~= dec_seq(n as nat));
        }
        s
    }
}

/// What a normalized URL looks like as text: scheme, `://`, host, the port in
/// decimal after `:` when one is present, then the path.
pub open spec fn render_of(k: NormalizedUrlView) -> Seq<char> {
    k.scheme + "://"@ + k.host + (match k.port {
        Some(p) => ":"@ + dec_seq(p as nat),
        None => Seq::<char>::empty(),
    }) + k.path
}

/// Render a normalized URL as text.
pub fn render(n: &NormalizedUrl) -> (r: String)
    ensures
        r@ == render_of(n@),
{
    let mut s = n.scheme.clone();
    s.append("://");
    s.append(n.host.as_str());
    if let Some(p) = n.port {
        s.append(":");
        let d = dec_str(p);
        s.append(d.as_str());
    }
    s.append(n.path.as_str());
    proof {
        assert(s@ =~= render_of(n@));
    }
    s
}

/// Names what `url::Url::parse` returns on a given text: the components of
/// the parsed absolute URL, or nothing where the text does not parse as a
/// URL with a host.
pub uninterp spec fn parsed_url_of(s: Seq<char>) -> Option<UrlPartsView>;

/// Relies on `url::Url::parse` and the component accessors of `url::Url`:
/// the components of the parsed URL are a function of the text alone; `None`
/// where the text does not parse or the URL has no host.
#[verifier::external_body]
pub(crate) fn parse_url(s: &str) -> (r: Option<UrlParts>)
    ensures
        r.deep_view() == parsed_url_of(s@),
{
    let u = url::Url::parse(s).ok()?;
    let host = u.host_str()?.to_string();
    Some(UrlParts {
        scheme: u.scheme().to_string(),
        host,
        port: u.port(),
        path: u.path().to_string(),
        query: u.query().map(|q| q.to_string()),
        fragment: u.fragment().map(|f| f.to_string()),
    })
}

/// Names what resolving `href` as a reference against the absolute URL
/// `base` returns: a function of the two texts alone.
pub uninterp spec fn resolved_url_of(base: Seq<char>, href: Seq<char>) -> Option<UrlPartsView>;

/// Relies on `url::Url::parse`, `url::Url::join` and the component accessors
/// of `url::Url`: the components of `href` resolved against `base` are a
/// function of the two texts alone; `None` where either step fails or the
/// resolved URL has no host.
#[verifier::external_body]
pub(crate) fn resolve_url(base: &str, href: &str) -> (r: Option<UrlParts>)
    ensures
        r.deep_view() == resolved_url_of(base@, href@),
{
    let u = url::Url::parse(base).ok()?.join(href).ok()?;
    let host = u.host_str()?.to_string();
    Some(UrlParts {
        scheme: u.scheme().to_string(),
        host,
        port: u.port(),
        path: u.path().to_string(),
        query: u.query().map(|q| q.to_string()),
        fragment: u.fragment().map(|f| f.to_string()),
    })
}

/// Parse and validate a seed URL; the crawl's one fatal error.
pub fn parse_seed(s: &str) -> (r: Result<UrlParts, crate::CrawlError>)
    ensures
        match r {
            Ok(u) => parsed_url_of(s@) == Some(u@),
            Err(e) => e == crate::CrawlError::InvalidUrl && parsed_url_of(s@) is None,
        },
{
    match parse_url(s) {
        Some(u) => Ok(u),
        None => Err(crate::CrawlError::InvalidUrl),
    }
}

} // verus!
