# plane_scraper

A scraper that collects structured aircraft data from PlanePhD in three
stages -- manufacturers, their aircraft, and each aircraft's detail page --
with its decisions proved correct by Verus.

## Layout

- `src/` is the verified library. Every function in it carries a contract.
  Verus proves each one, except the few small wrappers that call `scraper`,
  `select`, `reqwest`, `rand` and the standard library: their contracts are
  trusted, and their doc comments say what they claim.
  The modules:
  - `text_map.rs`: `TextMap`, a map keyed by text that keeps its keys in
    ascending order, as the JSON files present them.
  - `text.rs`: whitespace cleaning, label normalisation, money and number
    reading.
  - `html.rs`: the calls into `scraper` and `select`. What a parse yields is
    named, not described; everything decided from it is verified.
  - `spiders/`: what each spider queues and what it makes of a page,
    including both layouts of a detail page and the guards against
    misreading one.
  - `io.rs`: what the stores do to the records they hold, among them the
    merge that never makes a stored record poorer.
  - `fetcher.rs`: the request headers and the retry policy.
  - `crawler.rs`: which URLs go to the scrapers, when the crawl is over,
    and what is recorded of a URL that produced no record.
- `app/` is the program around the library: the command line, HTTP, the
  JSON files, and the asynchronous crawl that carries out the library's
  decisions.
- `tests/` exercises the library on concrete pages and records.
