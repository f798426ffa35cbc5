//! The crawl's bookkeeping: which URLs go to the scrapers, when the crawl is
//! over, and what is recorded of a URL that produced no record. The channels,
//! workers and timers that carry it out live with the program.
use vstd::prelude::*;

use std::path::PathBuf;
use std::time::Duration;

use crate::text::texts;
use crate::text_map::TextMap;

verus! {

/// `std::path::PathBuf`, carried through unopened: nothing is claimed of
/// what a path holds.
#[verifier::external_type_specification]
#[verifier::external_body]
pub struct ExPathBuf(PathBuf);

/// Where a URL was lost, so a reader can tell "the site refused us" from "we
/// could not write the result".
#[derive(Clone, Copy, Debug, PartialEq, Eq, Structural)]
pub enum Stage {
    Scrape,
    Process,
}

/// A URL the run could not turn into a record, and why.
#[derive(Clone, Debug)]
pub struct FailedUrl {
    pub url: String,
    pub stage: Stage,
    pub error: String,
}

/// What stands in for the URL of an item that could not be written.
pub const ITEM_WRITE_URL: &'static str = "<item write>";

impl FailedUrl {
    /// The page at `url` could not be scraped.
    pub fn scrape_failure(url: String, error: String) -> (r: Self)
        ensures
            r.url == url,
            r.stage == Stage::Scrape,
            r.error == error,
    {
        FailedUrl { url, stage: Stage::Scrape, error }
    }

    /// A scraped item could not be written.
    pub fn process_failure(error: String) -> (r: Self)
        ensures
            r.url@ == ITEM_WRITE_URL@,
            r.stage == Stage::Process,
            r.error == error,
    {
        FailedUrl { url: ITEM_WRITE_URL.to_owned(), stage: Stage::Process, error }
    }
}

/// How a crawl is paced and where its failures are written.
pub struct Crawler {
    delay: Duration,
    crawling_concurrency: usize,
    processing_concurrency: usize,
    /// Where to write the URLs this run could not turn into records. Without
    /// it "the run finished" and "the run finished having scraped everything"
    /// are the same observation.
    failures_path: PathBuf,
}

impl Crawler {
    /// The pause each scraper takes after a page.
    pub closed spec fn pause(&self) -> Duration {
        self.delay
    }

    /// How many pages are fetched at once.
    pub closed spec fn fetchers(&self) -> usize {
        self.crawling_concurrency
    }

    /// How many items are written at once.
    pub closed spec fn writers(&self) -> usize {
        self.processing_concurrency
    }

    /// Where the failure list goes.
    pub closed spec fn failures_file(&self) -> PathBuf {
        self.failures_path
    }

    /// A crawler with the given pacing and failure file.
    pub fn new(
        delay: Duration,
        crawling_concurrency: usize,
        processing_concurrency: usize,
        failures_path: PathBuf,
    ) -> (r: Self)
        ensures
            r.pause() == delay,
            r.fetchers() == crawling_concurrency,
            r.writers() == processing_concurrency,
            r.failures_file() == failures_path,
    {
        Crawler { delay, crawling_concurrency, processing_concurrency, failures_path }
    }

    /// The pause each scraper takes after a page.
    pub fn delay(&self) -> (r: Duration)
        ensures
            r == self.pause(),
    {
        self.delay
    }

    /// How many pages are fetched at once.
    pub fn crawling_concurrency(&self) -> (r: usize)
        ensures
            r == self.fetchers(),
    {
        self.crawling_concurrency
    }

    /// How many items are written at once.
    pub fn processing_concurrency(&self) -> (r: usize)
        ensures
            r == self.writers(),
    {
        self.processing_concurrency
    }

    /// Where the failure list goes.
    pub fn failures_path(&self) -> (r: &PathBuf)
        ensures
            *r == self.failures_file(),
    {
        &self.failures_path
    }

    /// How many URLs, and how many reports of visited pages, may wait at
    /// once: four hundred per fetcher.
    pub fn crawling_queue_capacity(&self) -> (r: usize)
        requires
            self.fetchers() * 400 <= usize::MAX,
        ensures
            r == self.fetchers() * 400,
    {
        self.crawling_concurrency * 400
    }

    /// How many scraped items may wait to be written: ten per writer.
    pub fn processing_queue_capacity(&self) -> (r: usize)
        requires
            self.writers() * 10 <= usize::MAX,
        ensures
            r == self.writers() * 10,
    {
        self.processing_concurrency * 10
    }
}

/// The crawl is over when no report waits, no URL waits and no scraper is at
/// work: nothing is left that could still queue a URL.
pub fn crawl_is_over(reports_waiting: usize, urls_waiting: usize, active_scrapers: usize) -> (r: bool)
    ensures
        r == (reports_waiting == 0 && urls_waiting == 0 && active_scrapers == 0),
{
    reports_waiting == 0 && urls_waiting == 0 && active_scrapers == 0
}

/// The URLs of `urls` to queue when `visited` have been seen: those not seen
/// and not already earlier in `urls`, in order.
pub open spec fn fresh_urls(visited: Set<Seq<char>>, urls: Seq<Seq<char>>) -> Seq<Seq<char>>
    decreases urls.len(),
{
    if urls.len() == 0 {
        Seq::empty()
    } else {
        let earlier = urls.drop_last();
        let before = fresh_urls(visited, earlier);
        let u = urls.last();
        if visited.contains(u) || earlier.contains(u) {
            before
        } else {
            before.push(u)
        }
    }
}

/// Every URL the crawl has seen: queued at the start, reported visited, or
/// queued since.
pub struct CrawlFrontier {
    visited: TextMap<()>,
}

impl View for CrawlFrontier {
    type V = Set<Seq<char>>;

    closed spec fn view(&self) -> Set<Seq<char>> {
        self.visited@.dom()
    }
}

impl CrawlFrontier {
    /// A crawl that has seen nothing.
    pub fn new() -> (r: Self)
        ensures
            r@ == Set::<Seq<char>>::empty(),
    {
        let r = CrawlFrontier { visited: TextMap::new() };
        assert(r@ =~= Set::<Seq<char>>::empty());
        r
    }

    /// Whether `url` has been seen.
    pub fn is_visited(&self, url: &str) -> (r: bool)
        ensures
            r == self@.contains(url@),
    {
        self.visited.contains_key(url)
    }

    /// Marks the start URLs as seen and returns the ones to queue: those not
    /// seen before, each once, in the order the spider gave them. A start URL
    /// listed twice is scraped once.
    pub fn seed(&mut self, start_urls: &Vec<String>) -> (r: Vec<String>)
        ensures
            texts(r@) == fresh_urls(old(self)@, texts(start_urls@)),
            final(self)@ == old(self)@.union(texts(start_urls@).to_set()),
    {
        self.queue_fresh(start_urls)
    }

    /// Marks `urls` as seen and returns the ones not seen before, each once,
    /// in order.
    fn queue_fresh(&mut self, urls: &Vec<String>) -> (r: Vec<String>)
        ensures
            texts(r@) == fresh_urls(old(self)@, texts(urls@)),
            final(self)@ == old(self)@.union(texts(urls@).to_set()),
    {
        let ghost all = texts(urls@);
        let ghost start = self@;
        let mut queued: Vec<String> = Vec::new();
        proof {
            assert(all.take(0).to_set() =~= Set::<Seq<char>>::empty());
            assert(self@ =~= start.union(all.take(0).to_set()));
        }
        for i in 0..urls.len()
            invariant
                all == texts(urls@),
                self@ == start.union(all.take(i as int).to_set()),
                texts(queued@) == fresh_urls(start, all.take(i as int)),
        {
            let url = &urls[i];
            let ghost before = queued@;
            proof {
                assert(all[i as int] == url@);
                assert(all.take(i + 1).drop_last() =~= all.take(i as int));
                assert(all.take(i + 1).last() == url@);
                assert(all.take(i + 1) =~= all.take(i as int).push(url@));
                assert(self@.contains(url@) == (start.contains(url@) || all.take(i as int).contains(url@)))
                    by {
                    if all.take(i as int).contains(url@) {
                        assert(all.take(i as int).to_set().contains(url@));
                    }
                    if all.take(i as int).to_set().contains(url@) {
                        assert(all.take(i as int).contains(url@));
                    }
                }
            }
            if !self.visited.contains_key(url.as_str()) {
                self.visited.insert(url.clone(), ());
                queued.push(url.clone());
                proof {
                    crate::text::lemma_texts_push(before, *url);
                }
            }
            proof {
                all.take(i as int).lemma_push_to_set_commute(url@);
                assert(self@ =~= start.union(all.take(i + 1).to_set()));
            }
        }
        proof {
            assert(all.take(urls.len() as int) =~= all);
        }
        queued
    }

    /// Takes the report that `visited_url` was scraped and linked to
    /// `new_urls`: marks them all as seen, and returns the ones to queue --
    /// those not seen before, each once, in the order they came.
    pub fn record_visit(&mut self, visited_url: &str, new_urls: &Vec<String>) -> (r: Vec<String>)
        ensures
            texts(r@) == fresh_urls(old(self)@.insert(visited_url@), texts(new_urls@)),
            final(self)@ == old(self)@.insert(visited_url@).union(texts(new_urls@).to_set()),
    {
        self.visited.insert(visited_url.to_owned(), ());
        self.queue_fresh(new_urls)
    }
}

/// The URLs handed out after a report are ones the crawl had not seen, none
/// twice; and no reported URL is lost: each was seen already or is handed out.
pub proof fn lemma_fresh_urls_are_new_and_distinct(visited: Set<Seq<char>>, urls: Seq<Seq<char>>)
    ensures
        forall|i: int|
            0 <= i < fresh_urls(visited, urls).len() ==> !visited.contains(
                #[trigger] fresh_urls(visited, urls)[i],
            ) && urls.contains(fresh_urls(visited, urls)[i]),
        fresh_urls(visited, urls).no_duplicates(),
        forall|u: Seq<char>| #[trigger] urls.contains(u) ==> visited.contains(u) || fresh_urls(visited, urls).contains(u),
    decreases urls.len(),
{
    if urls.len() > 0 {
        let earlier = urls.drop_last();
        let u = urls.last();
        let before = fresh_urls(visited, earlier);
        lemma_fresh_urls_are_new_and_distinct(visited, earlier);
        assert forall|x: Seq<char>| #[trigger] earlier.contains(x) implies urls.contains(x) by {
            let j = choose|j: int| 0 <= j < earlier.len() && earlier[j] == x;
            assert(urls[j] == x);
        }
        assert(urls[urls.len() - 1] == u);
        assert forall|x: Seq<char>| #[trigger] urls.contains(x) implies x == u || earlier.contains(x) by {
            let j = choose|j: int| 0 <= j < urls.len() && urls[j] == x;
            if j < urls.len() - 1 {
                assert(earlier[j] == x);
            }
        }
        if !(visited.contains(u) || earlier.contains(u)) {
            let after = before.push(u);
            assert(after.last() == u);
            assert forall|i: int| 0 <= i < before.len() implies after[i] == before[i] by {}
            assert forall|i: int, j: int| 0 <= i < j < after.len() implies after[i] != after[j] by {
                if j == after.len() - 1 {
                    assert(earlier.contains(before[i]));
                }
            }
            assert forall|x: Seq<char>| #[trigger] before.contains(x) implies after.contains(x) by {
                let j = choose|j: int| 0 <= j < before.len() && before[j] == x;
                assert(after[j] == x);
            }
            assert(after.contains(u));
        }
    }
}

/// What follows a scrape: the items to write, the report for the crawl, and
/// the failure to record when there was one.
pub struct ScrapeStep<T> {
    pub items: Vec<T>,
    pub report: (String, Vec<String>),
    pub failure: Option<FailedUrl>,
}

/// Turns what scraping `queued_url` gave into the next step: its items and
/// links, or -- on an error, whose text is `Err`'s -- no items, no links and a
/// recorded failure. The report goes out either way, so the crawl can tell
/// when it is over.
pub fn after_scrape<T>(queued_url: String, outcome: Result<(Vec<T>, Vec<String>), String>) -> (r: ScrapeStep<T>)
    ensures
        match outcome {
            Ok((items, new_urls)) => r.items == items && r.report == (queued_url, new_urls) && r.failure is None,
            Err(message) => r.items@.len() == 0 && r.report.0 == queued_url && r.report.1@.len() == 0
                && r.failure == Some(
                (FailedUrl { url: queued_url, stage: Stage::Scrape, error: message }),
            ),
        },
{
    match outcome {
        Ok((items, new_urls)) => ScrapeStep { items, report: (queued_url, new_urls), failure: None },
        Err(message) => {
            let failure = FailedUrl::scrape_failure(queued_url.clone(), message);
            ScrapeStep { items: Vec::new(), report: (queued_url, Vec::new()), failure: Some(failure) }
        },
    }
}

/// The failure to record after writing an item, if the write failed with
/// the text in `Err`.
pub fn after_process(outcome: Result<(), String>) -> (r: Option<FailedUrl>)
    ensures
        match outcome {
            Ok(()) => r is None,
            Err(message) => r matches Some(f) && f.url@ == ITEM_WRITE_URL@ && f.stage == Stage::Process
                && f.error == message,
        },
{
    match outcome {
        Ok(()) => None,
        Err(message) => Some(FailedUrl::process_failure(message)),
    }
}

} // verus!
