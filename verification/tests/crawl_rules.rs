use std::path::PathBuf;
use std::time::Duration;

use plane_scraper::crawler::{
    after_process, after_scrape, crawl_is_over, CrawlFrontier, Crawler, FailedUrl, Stage,
    ITEM_WRITE_URL,
};

fn strings(v: &[&str]) -> Vec<String> {
    v.iter().map(|s| s.to_string()).collect()
}

#[test]
fn a_crawler_keeps_its_settings() {
    let c = Crawler::new(Duration::from_millis(1000), 1, 32, PathBuf::from("data/failed_urls.json"));
    assert_eq!(c.delay(), Duration::from_millis(1000));
    assert_eq!(c.crawling_concurrency(), 1);
    assert_eq!(c.processing_concurrency(), 32);
    assert_eq!(c.failures_path(), &PathBuf::from("data/failed_urls.json"));
    assert_eq!(c.crawling_queue_capacity(), 400);
    assert_eq!(c.processing_queue_capacity(), 320);
}

#[test]
fn a_reported_url_is_queued_once_and_never_again() {
    let mut frontier = CrawlFrontier::new();
    let seeded = frontier.seed(&strings(&["https://a/", "https://b/", "https://a/"]));
    assert_eq!(seeded, strings(&["https://a/", "https://b/"]), "a start URL listed twice is queued once");
    assert!(frontier.is_visited("https://a/"));

    let queued = frontier.record_visit("https://a/", &strings(&["https://b/", "https://c/", "https://c/", "https://d/"]));
    assert_eq!(queued, strings(&["https://c/", "https://d/"]));

    let again = frontier.record_visit("https://c/", &strings(&["https://d/", "https://a/"]));
    assert!(again.is_empty(), "every URL there was seen already");
    for url in ["https://a/", "https://b/", "https://c/", "https://d/"] {
        assert!(frontier.is_visited(url));
    }
    assert!(!frontier.is_visited("https://e/"));
}

#[test]
fn the_visited_page_itself_is_never_queued_from_its_own_report() {
    let mut frontier = CrawlFrontier::new();
    let queued = frontier.record_visit("https://x/", &strings(&["https://x/", "https://y/"]));
    assert_eq!(queued, strings(&["https://y/"]));
}

#[test]
fn the_crawl_ends_only_when_nothing_waits_or_works() {
    assert!(crawl_is_over(0, 0, 0));
    assert!(!crawl_is_over(1, 0, 0));
    assert!(!crawl_is_over(0, 3, 0));
    assert!(!crawl_is_over(0, 0, 1));
}

#[test]
fn a_failed_scrape_is_recorded_and_still_reported() {
    let step = after_scrape::<u8>(String::from("https://x/"), Err(String::from("Request failed: timeout")));
    assert!(step.items.is_empty());
    assert_eq!(step.report, (String::from("https://x/"), Vec::new()));
    let failure = step.failure.expect("recorded");
    assert_eq!(failure.url, "https://x/");
    assert_eq!(failure.stage, Stage::Scrape);
    assert_eq!(failure.error, "Request failed: timeout");

    let ok = after_scrape(String::from("https://y/"), Ok((vec![1u8, 2], strings(&["https://z/"]))));
    assert_eq!(ok.items, vec![1, 2]);
    assert_eq!(ok.report, (String::from("https://y/"), strings(&["https://z/"])));
    assert!(ok.failure.is_none());
}

#[test]
fn a_failed_write_is_recorded_under_a_placeholder_url() {
    assert!(after_process(Ok(())).is_none());
    let failure: FailedUrl = after_process(Err(String::from("I/O operation failed: disk full"))).expect("recorded");
    assert_eq!(failure.url, ITEM_WRITE_URL);
    assert_eq!(failure.url, "<item write>");
    assert_eq!(failure.stage, Stage::Process);
    assert_eq!(failure.error, "I/O operation failed: disk full");
    let scrape = FailedUrl::scrape_failure(String::from("u"), String::from("e"));
    assert_eq!((scrape.url.as_str(), scrape.stage, scrape.error.as_str()), ("u", Stage::Scrape, "e"));
}
