//! The page fetcher's result model: one blocking GET collapses to HTML
//! content, a non-HTML success, or a failure.
use vstd::prelude::*;
use vstd::string::*;

verus! {

/// What one fetch attempt yielded: the body of an HTML page, a successful
/// response that is not HTML, or a failure (network error, timeout or
/// non-2xx status).
pub enum FetchResult {
    HtmlBody(String),
    NonHtml,
    Failed,
}

/// The mathematical image of `FetchResult`.
pub enum FetchResultView {
    HtmlBody(Seq<char>),
    NonHtml,
    Failed,
}

impl View for FetchResult {
    type V = FetchResultView;

    open spec fn view(&self) -> FetchResultView {
        match self {
            FetchResult::HtmlBody(b) => FetchResultView::HtmlBody(b@),
            FetchResult::NonHtml => FetchResultView::NonHtml,
            FetchResult::Failed => FetchResultView::Failed,
        }
    }
}

impl FetchResult {
    /// A structural copy whose content is the same.
    pub fn duplicate(&self) -> (r: FetchResult)
        ensures
            r == *self,
    {
        match self {
            FetchResult::HtmlBody(b) => FetchResult::HtmlBody(b.clone()),
            FetchResult::NonHtml => FetchResult::NonHtml,
            FetchResult::Failed => FetchResult::Failed,
        }
    }
}

/// How a raw HTTP response collapses to a fetch result: a failed request is
/// `Failed`, a response whose content type is not `text/html` is `NonHtml`,
/// and an HTML response whose body could not be read is `Failed`.
pub open spec fn classify_spec(
    responded: bool,
    content_type: Seq<char>,
    body: Option<Seq<char>>,
) -> FetchResultView {
    if !responded {
        FetchResultView::Failed
    } else if content_type != "text/html"@ {
        FetchResultView::NonHtml
    } else {
        match body {
            Some(b) => FetchResultView::HtmlBody(b),
            None => FetchResultView::Failed,
        }
    }
}

/// Classify one HTTP response from plain values: whether a response arrived
/// with a 2xx status, its content type, and its body if it could be read.
pub fn classify_response(responded: bool, content_type: &str, body: Option<String>) -> (r:
    FetchResult)
    ensures
        r@ == classify_spec(responded, content_type@, body.deep_view()),
{
    if !responded {
        return FetchResult::Failed;
    }
    let ct = String::from_str(content_type);
    let html = String::from_str("text/html");
    proof {
        reveal_strlit("text/html");
    }
    if !(ct == html) {
        return FetchResult::NonHtml;
    }
    match body {
        Some(b) => FetchResult::HtmlBody(b),
        None => FetchResult::Failed,
    }
}

} // verus!
