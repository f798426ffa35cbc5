use plane_scraper::error::Error;
use plane_scraper::spiders::models::ModelsSpider;
use plane_scraper::spiders::plane_phd_manufacturers::ManufacturersSpider;
use plane_scraper::spiders::{spider_listing, SpiderKind};
use plane_scraper::text_map::TextMap;

const INDEX_PAGE: &str = r#"<html><body>
  <div class="pp-card">
    <a class="list-group-item" href="/wizard/manufacturers/CESSNA/">  CESSNA </a>
    <a class="list-group-item">NO LINK</a>
    <a class="list-group-item" href="/wizard/manufacturers/EMPTY/">   </a>
    <a class="list-group-item" href="/wizard/manufacturers/PIPER/">PIPER</a>
  </div>
  <a class="list-group-item" href="/outside/">OUTSIDE</a>
</body></html>"#;

#[test]
fn the_index_lists_each_named_linked_manufacturer() {
    let spider = ManufacturersSpider::new();
    assert_eq!(spider.name(), "ManufacturersSpider");
    assert_eq!(spider.start_urls(), vec![String::from("https://planephd.com/wizard/manufacturers/")]);
    let items = spider.scrape_page(INDEX_PAGE);
    let got: Vec<(&str, &str)> = items.iter().map(|i| (i.name().as_str(), i.link().as_str())).collect();
    assert_eq!(
        got,
        [("CESSNA", "/wizard/manufacturers/CESSNA/"), ("PIPER", "/wizard/manufacturers/PIPER/")]
    );
}

const MANUFACTURER_PAGE: &str = r#"<html><body>
  <div class="modal_content">
    <a href=" /wizard/details/146/CESSNA-120 "> 120 (1946 - 1949) </a>
    <a> 140 </a>
    <a href="/wizard/details/9/X"> </a>
  </div>
  <a href="/elsewhere">elsewhere</a>
</body></html>"#;

#[test]
fn a_manufacturer_page_lists_its_aircraft() {
    let mut manufacturers = TextMap::new();
    manufacturers.insert(String::from("CESSNA"), String::from("/wizard/manufacturers/CESSNA/"));
    manufacturers.insert(String::from("PIPER"), String::from("https://planephd.com/wizard/manufacturers/PIPER/"));
    let spider = ModelsSpider::new(&manufacturers);
    assert_eq!(spider.name(), "models");
    assert_eq!(
        spider.start_urls(),
        vec![
            String::from("https://planephd.com/wizard/manufacturers/CESSNA/"),
            String::from("https://planephd.com/wizard/manufacturers/PIPER/"),
        ]
    );

    let items = spider
        .scrape_page("https://planephd.com/wizard/manufacturers/CESSNA/", MANUFACTURER_PAGE)
        .expect("a known page");
    assert_eq!(items.len(), 1);
    assert_eq!(items[0].manufacturer_name(), "CESSNA");
    assert_eq!(items[0].name(), "120 (1946 - 1949)");
    assert_eq!(items[0].link(), "/wizard/details/146/CESSNA-120");

    match spider.scrape_page("https://planephd.com/other", MANUFACTURER_PAGE) {
        Err(Error::Internal(m)) => assert_eq!(m, "unknown manufacturer URL: https://planephd.com/other"),
        other => panic!("unexpected {other:?}"),
    }
}

#[test]
fn spiders_are_chosen_by_their_short_names() {
    assert_eq!(SpiderKind::from_name("m").unwrap(), SpiderKind::Manufacturers);
    assert_eq!(SpiderKind::from_name("mod").unwrap(), SpiderKind::Models);
    assert_eq!(SpiderKind::from_name("p").unwrap(), SpiderKind::Planes);
    assert_eq!(SpiderKind::from_name("d").unwrap(), SpiderKind::DirectoryListing);
    match SpiderKind::from_name("x") {
        Err(Error::InvalidSpider(name)) => assert_eq!(name, "x"),
        other => panic!("unexpected {other:?}"),
    }
    assert_eq!(
        spider_listing(),
        vec![
            String::from("m - ManufacturersSpider"),
            String::from("mod - ModelsSpider"),
            String::from("p - PlanesSpider"),
            String::from("d - Debug directory listing"),
        ]
    );
}
