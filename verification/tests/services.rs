use anidex::errors::ApiError;
use anidex::mangadex::{mangadex_find_id, mangadex_latest_chapter, FeedItem, SearchResult};
use anidex::retry::{retry_step, RetryStep};

fn result(id: &str, link: Option<&str>) -> SearchResult {
    SearchResult { id: id.to_string(), anilist_link: link.map(|s| s.to_string()) }
}

#[test]
fn finds_the_first_matching_cross_reference() {
    let results = vec![
        result("aaa", Some("7")),
        result("bbb", None),
        result("ccc", Some("42")),
        result("ddd", Some("42")),
    ];
    assert_eq!(mangadex_find_id(&results, 42), Ok(Some("ccc".to_string())));
}

#[test]
fn mismatched_cross_references_are_no_error() {
    // Non-empty search results, none carrying the requested id.
    let results = vec![result("aaa", Some("7")), result("bbb", None), result("ccc", Some("8"))];
    assert_eq!(mangadex_find_id(&results, 42), Ok(None));
    assert_eq!(mangadex_find_id(&Vec::new(), 42), Ok(None));
}

#[test]
fn malformed_cross_reference_is_a_decode_error() {
    let results = vec![result("aaa", Some("not-a-number")), result("bbb", Some("42"))];
    assert_eq!(mangadex_find_id(&results, 42), Err(ApiError::Decode));
}

#[test]
fn absent_links_are_skipped_not_failed() {
    let results = vec![result("aaa", None), result("bbb", Some("42"))];
    assert_eq!(mangadex_find_id(&results, 42), Ok(Some("bbb".to_string())));
}

#[test]
fn empty_feed_means_no_translation() {
    let r = mangadex_latest_chapter(&Vec::new()).unwrap();
    assert!(r.is_none());
}

#[test]
fn missing_chapter_field_is_a_single_unit_work() {
    let r = mangadex_latest_chapter(&vec![FeedItem { chapter: None }]).unwrap().unwrap();
    assert_eq!(r.whole, 1);
    assert_eq!(r.frac, Vec::<u8>::new());
}

#[test]
fn chapter_field_is_parsed_exactly() {
    let items = vec![FeedItem { chapter: Some("12.5".to_string()) }];
    let r = mangadex_latest_chapter(&items).unwrap().unwrap();
    assert_eq!(r.whole, 12);
    assert_eq!(r.frac, vec![5]);
}

#[test]
fn malformed_chapter_field_is_a_decode_error() {
    let items = vec![FeedItem { chapter: Some("twelve".to_string()) }];
    assert!(matches!(mangadex_latest_chapter(&items), Err(ApiError::Decode)));
}

#[test]
fn rate_limit_waits_the_mandated_seconds() {
    // A 429 with `Retry-After: 2` defers the request by exactly two
    // seconds; a following 200 ends the protocol.
    assert_eq!(retry_step(429, Some("2")), RetryStep::Wait(2));
    assert_eq!(retry_step(200, None), RetryStep::Accept);
}

#[test]
fn rate_limit_without_usable_hint_is_a_protocol_failure() {
    assert_eq!(retry_step(429, None), RetryStep::FailProtocol);
    assert_eq!(retry_step(429, Some("soon")), RetryStep::FailProtocol);
    assert_eq!(retry_step(429, Some("")), RetryStep::FailProtocol);
}

#[test]
fn other_statuses_are_terminal_with_their_code() {
    assert_eq!(retry_step(500, None), RetryStep::FailHttp(500));
    assert_eq!(retry_step(404, Some("2")), RetryStep::FailHttp(404));
    assert_eq!(retry_step(302, None), RetryStep::FailHttp(302));
}
