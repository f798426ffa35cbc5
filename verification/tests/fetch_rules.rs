use plane_scraper::error::Error;
use plane_scraper::fetcher::{
    after_body, retry_delay_from_header, FetchStep, FetcherConfig, ACCEPT_LANGUAGE_VALUE,
    ACCEPT_VALUE, DEFAULT_USER_AGENT,
};

fn config() -> FetcherConfig {
    FetcherConfig::from_settings(None, None)
}

#[test]
fn the_settings_default_to_an_identifying_agent() {
    let c = config();
    assert_eq!(c.user_agent, DEFAULT_USER_AGENT);
    assert_eq!(c.timeout_secs, 15);
    assert_eq!(c.max_retries, 3);
    assert_eq!(c.base_retry_delay_secs, 2);
    assert_eq!(c.max_retry_delay_secs, 30);
    assert!(c.bearer_token.is_none());
    let c = FetcherConfig::from_settings(Some(String::from("me (+mailto:me@x)")), Some(String::from("t0k")));
    assert_eq!(c.user_agent, "me (+mailto:me@x)");
    assert_eq!(c.bearer_token.as_deref(), Some("t0k"));
    assert_eq!(c.max_attempts(), 4);
}

#[test]
fn every_request_carries_the_default_headers() {
    let pairs = config().default_headers().expect("valid headers");
    let names: Vec<&str> = pairs.iter().map(|(n, _)| n.as_str()).collect();
    assert_eq!(names, ["user-agent", "accept", "accept-language", "connection"]);
    assert_eq!(pairs[0].1, DEFAULT_USER_AGENT);
    assert_eq!(pairs[1].1, ACCEPT_VALUE);
    assert_eq!(pairs[2].1, ACCEPT_LANGUAGE_VALUE);
    assert_eq!(pairs[3].1, "keep-alive");

    let with_token = FetcherConfig::from_settings(None, Some(String::from("abc"))).default_headers().unwrap();
    assert_eq!(with_token.len(), 5);
    assert_eq!(with_token[4], (String::from("authorization"), String::from("Bearer abc")));
}

#[test]
fn a_header_value_with_a_control_character_is_refused() {
    match FetcherConfig::from_settings(Some(String::from("bad\nagent")), None).default_headers() {
        Err(Error::Internal(m)) => assert_eq!(m, "invalid user-agent header: failed to parse header value"),
        other => panic!("unexpected {other:?}"),
    }
    match FetcherConfig::from_settings(None, Some(String::from("a\u{7f}b"))).default_headers() {
        Err(Error::Internal(m)) => assert_eq!(m, "invalid authorization header: failed to parse header value"),
        other => panic!("unexpected {other:?}"),
    }
    assert!(FetcherConfig::from_settings(Some(String::from("tab\tok")), None).default_headers().is_ok());
}

#[test]
fn the_backoff_doubles_up_to_the_cap() {
    let c = config();
    let waits: Vec<u64> = (0..10).map(|a| c.backoff_without_jitter(a)).collect();
    assert_eq!(waits, [2, 2, 4, 8, 16, 30, 30, 30, 30, 30]);
    assert_eq!(c.backoff_with_jitter(3, 1), 9);
    for attempt in 1..10 {
        let w = c.exponential_backoff_with_jitter(attempt);
        let base = c.backoff_without_jitter(attempt);
        assert!(base <= w && w <= base + 1);
    }
    let mut big = config();
    big.base_retry_delay_secs = u64::MAX / 2;
    big.max_retry_delay_secs = u64::MAX - 1;
    assert_eq!(big.backoff_without_jitter(5), u64::MAX - 1, "the product saturates, then is capped");
    assert_eq!(c.cap_retry_delay(120), 30);
    assert_eq!(c.cap_retry_delay(7), 7);
}

fn delay(step: FetchStep) -> u64 {
    match step {
        FetchStep::Retry { delay_secs } => delay_secs,
        other => panic!("expected a retry, got {other:?}"),
    }
}

#[test]
fn a_rate_limited_response_waits_what_the_server_asks_capped() {
    let c = config();
    assert_eq!(delay(c.after_status_with_jitter("u", 1, 429, Some("12"), 0)), 12);
    assert_eq!(delay(c.after_status_with_jitter("u", 1, 429, Some("600"), 0)), 30);
    assert_eq!(delay(c.after_status_with_jitter("u", 2, 429, Some("soon"), 1)), 5);
    assert_eq!(delay(c.after_status_with_jitter("u", 2, 429, None, 0)), 4);
    match c.after_status_with_jitter("u", 4, 429, Some("1"), 0) {
        FetchStep::Fail(Error::RateLimited { url, attempts }) => {
            assert_eq!(url, "u");
            assert_eq!(attempts, 4);
        },
        other => panic!("unexpected {other:?}"),
    }
}

#[test]
fn statuses_decide_the_next_step() {
    let c = config();
    assert!(matches!(c.after_status_with_jitter("u", 1, 200, None, 0), FetchStep::ReadBody));
    assert_eq!(delay(c.after_status_with_jitter("u", 3, 503, None, 1)), 9);
    match c.after_status_with_jitter("u", 4, 500, None, 0) {
        FetchStep::Fail(Error::HttpStatus { url, status }) => {
            assert_eq!(url, "u");
            assert_eq!(status, 500);
        },
        other => panic!("unexpected {other:?}"),
    }
    match c.after_status_with_jitter("u", 1, 404, None, 0) {
        FetchStep::Fail(Error::AircraftNotFound { url }) => assert_eq!(url, "u"),
        other => panic!("unexpected {other:?}"),
    }
    match c.after_status("u", 1, 403, None) {
        FetchStep::Fail(Error::HttpStatus { status, .. }) => assert_eq!(status, 403),
        other => panic!("unexpected {other:?}"),
    }
    match c.after_status("u", 1, 301, None) {
        FetchStep::Fail(Error::HttpStatus { status, .. }) => assert_eq!(status, 301),
        other => panic!("unexpected {other:?}"),
    }
}

#[test]
fn a_failed_send_is_retried_only_while_transient_and_attempts_remain() {
    let c = config();
    assert_eq!(delay(c.after_send_failure_with_jitter(1, true, String::from("timeout"), 0)), 2);
    match c.after_send_failure_with_jitter(1, false, String::from("bad url"), 0) {
        FetchStep::Fail(Error::Reqwest(m)) => assert_eq!(m, "bad url"),
        other => panic!("unexpected {other:?}"),
    }
    match c.after_send_failure(4, true, String::from("timeout")) {
        FetchStep::Fail(Error::Reqwest(m)) => assert_eq!(m, "timeout"),
        other => panic!("unexpected {other:?}"),
    }
    let w = delay(c.after_send_failure(2, true, String::from("reset")));
    assert!(w == 4 || w == 5);
}

#[test]
fn an_empty_body_is_an_error() {
    match after_body("https://x", Ok(String::from(" \n "))) {
        Err(Error::Internal(m)) => assert_eq!(m, "empty response body for https://x"),
        other => panic!("unexpected {other:?}"),
    }
    match after_body("https://x", Err(String::from("decode"))) {
        Err(Error::Reqwest(m)) => assert_eq!(m, "decode"),
        other => panic!("unexpected {other:?}"),
    }
    assert_eq!(after_body("https://x", Ok(String::from("<html/>"))).unwrap(), "<html/>");
}

#[test]
fn a_retry_after_header_is_read_as_whole_seconds() {
    assert_eq!(retry_delay_from_header(Some("120")), Some(120));
    assert_eq!(retry_delay_from_header(Some("1.5")), None);
    assert_eq!(retry_delay_from_header(None), None);
}

#[test]
fn a_delay_cap_of_the_largest_u64_still_reads_fails_and_honours_retry_after() {
    let mut c = config();
    c.base_retry_delay_secs = u64::MAX;
    c.max_retry_delay_secs = u64::MAX;
    assert!(!c.backoff_fits(1));
    assert!(matches!(c.after_status("u", 1, 200, None), FetchStep::ReadBody));
    match c.after_status("u", 1, 404, None) {
        FetchStep::Fail(Error::AircraftNotFound { url }) => assert_eq!(url, "u"),
        other => panic!("unexpected {other:?}"),
    }
    match c.after_status("u", 1, 418, None) {
        FetchStep::Fail(Error::HttpStatus { status, .. }) => assert_eq!(status, 418),
        other => panic!("unexpected {other:?}"),
    }
    assert_eq!(delay(c.after_status("u", 1, 429, Some("7"))), 7);
    match c.after_status("u", 4, 429, None) {
        FetchStep::Fail(Error::RateLimited { attempts, .. }) => assert_eq!(attempts, 4),
        other => panic!("unexpected {other:?}"),
    }
    match c.after_send_failure(1, false, String::from("bad url")) {
        FetchStep::Fail(Error::Reqwest(m)) => assert_eq!(m, "bad url"),
        other => panic!("unexpected {other:?}"),
    }
}

#[test]
fn a_backoff_follows_only_retries_that_wait_for_it() {
    let c = config();
    assert!(c.backoff_follows_send_failure(1, true));
    assert!(!c.backoff_follows_send_failure(1, false));
    assert!(!c.backoff_follows_send_failure(4, true));
    assert!(c.backoff_follows_status(1, 503, None));
    assert!(c.backoff_follows_status(1, 429, None));
    assert!(c.backoff_follows_status(1, 429, Some("soon")));
    assert!(!c.backoff_follows_status(1, 429, Some("3")));
    assert!(!c.backoff_follows_status(1, 200, None));
    assert!(!c.backoff_follows_status(4, 500, None));
    assert!(c.backoff_fits(3));
}
