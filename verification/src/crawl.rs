//! Classifying one page-fetch attempt.
//!
//! Fetching is I/O and stays outside the library; it hands in a
//! `FetchResult`. From it the library derives the three-way outcome the
//! crawler reports: the text of the first `title` element of a successfully
//! fetched body, an explicit "no title" answer, or the failure that ended
//! the attempt.

use vstd::prelude::*;

verus! {

/// How one HTTP GET of a page ended: a body was fetched, the response had a
/// non-success status, or the transport failed with a message.
#[derive(Debug)]
pub enum FetchResult {
    Success { body: String },
    BadStatus,
    TransportError { message: String },
}

/// What a crawl attempt reports: a page title, a page without one, a
/// non-success response, or a transport failure.
#[derive(Debug, PartialEq, Eq)]
pub enum CrawlOutcome {
    Title { text: String },
    NoTitle,
    FetchFailed,
    TransportError { message: String },
}

/// The text of the first `title` element of `body` parsed as an HTML
/// document, if the document has one.
pub uninterp spec fn title_of(body: Seq<char>) -> Option<Seq<char>>;

/// Relies on scraper's `Html::parse_document`, `Selector::parse`, `select`
/// and `text`: the concatenated text of the first `title` element of the
/// parsed document, a function of the body text alone.
#[verifier::external_body]
fn scrape_title(body: &str) -> (r: Option<String>)
    ensures
        match r {
            Option::Some(text) => title_of(body@) == Option::Some(text@),
            Option::None => title_of(body@) is None,
        },
{
    let document = scraper::Html::parse_document(body);
    let selector = scraper::Selector::parse("title").unwrap();
    match document.select(&selector).next() {
        Some(element) => Some(element.text().collect::<Vec<_>>().concat()),
        None => None,
    }
}

/// The report owed for an extracted title: the title's text if one was
/// found, the explicit no-title outcome otherwise.
pub fn title_report(found: Option<String>) -> (r: CrawlOutcome)
    ensures
        match found {
            Option::Some(text) => (r matches CrawlOutcome::Title { text: t } && t@ == text@),
            Option::None => r is NoTitle,
        },
{
    match found {
        Option::Some(text) => CrawlOutcome::Title { text },
        Option::None => CrawlOutcome::NoTitle,
    }
}

/// The report owed for a fetch attempt that ended as `f`.
pub open spec fn expected_report(f: FetchResult, r: CrawlOutcome) -> bool {
    match f {
        FetchResult::Success { body } => match title_of(body@) {
            Option::Some(t) => r matches CrawlOutcome::Title { text } && text@ == t,
            Option::None => r is NoTitle,
        },
        FetchResult::BadStatus => r is FetchFailed,
        FetchResult::TransportError { message } => (r matches CrawlOutcome::TransportError {
            message: m,
        } && m@ == message@),
    }
}

/// Classify one fetch attempt: a fetched body yields its title or the
/// no-title outcome, a non-success status the fetch failure, a transport
/// error its message.
pub fn crawl_report(f: FetchResult) -> (r: CrawlOutcome)
    ensures
        expected_report(f, r),
{
    match f {
        FetchResult::Success { body } => title_report(scrape_title(body.as_str())),
        FetchResult::BadStatus => CrawlOutcome::FetchFailed,
        FetchResult::TransportError { message } => CrawlOutcome::TransportError { message },
    }
}

} // verus!
