use indexer::crawl::{crawl_report, title_report, CrawlOutcome, FetchResult};

#[test]
fn title_report_wraps_a_found_title() {
    let r = title_report(Some("Example Domain".to_string()));
    assert_eq!(
        r,
        CrawlOutcome::Title {
            text: "Example Domain".to_string()
        }
    );
    assert_eq!(title_report(None), CrawlOutcome::NoTitle);
}

#[test]
fn fetched_body_yields_its_title() {
    let body = "<html><head><title>Example Domain</title></head><body><p>hi</p></body></html>";
    let r = crawl_report(FetchResult::Success {
        body: body.to_string(),
    });
    assert_eq!(
        r,
        CrawlOutcome::Title {
            text: "Example Domain".to_string()
        }
    );
}

#[test]
fn first_title_wins_and_text_is_concatenated() {
    let body = "<html><head><title>One Two</title><title>Other</title></head></html>";
    let r = crawl_report(FetchResult::Success {
        body: body.to_string(),
    });
    assert_eq!(
        r,
        CrawlOutcome::Title {
            text: "One Two".to_string()
        }
    );
}

#[test]
fn body_without_title_is_reported_as_such() {
    let body = "<html><head></head><body><h1>heading</h1></body></html>";
    let r = crawl_report(FetchResult::Success {
        body: body.to_string(),
    });
    assert_eq!(r, CrawlOutcome::NoTitle);
}

#[test]
fn bad_status_is_a_fetch_failure() {
    assert_eq!(crawl_report(FetchResult::BadStatus), CrawlOutcome::FetchFailed);
}

#[test]
fn transport_error_keeps_its_message() {
    let r = crawl_report(FetchResult::TransportError {
        message: "connection refused".to_string(),
    });
    assert_eq!(
        r,
        CrawlOutcome::TransportError {
            message: "connection refused".to_string()
        }
    );
}
