use plane_scraper::error::Error;
use plane_scraper::io::{AircraftByManufacturerMap, PlaneByManufacturerMap};
use plane_scraper::spiders::plane::{
    first_text, parse_detail_sections, parse_images, parse_new_layout, parse_papi_price_estimate,
    read_sections, verify_page_is_for, verify_section_order, AircraftSource, PlaneItem,
    PlanesSpider,
};
use plane_scraper::spiders::plane_page::{
    first_cell, images_from_rows, price_from_cells, read_layout_rows, verify_lowered_mention,
    TITLE_CSS,
};
use plane_scraper::text_map::TextMap;

fn two_manufacturers_one_page() -> AircraftByManufacturerMap {
    let link = String::from("/wizard/details/1246/AERO-COMMANDER-100-specifications");
    let mut aero = TextMap::new();
    aero.insert(String::from("100 (1960 - 1967)"), link.clone());
    let mut commander = TextMap::new();
    commander.insert(String::from("100 (1960 - 1967)"), link);
    let mut index = TextMap::new();
    index.insert(String::from("AERO COMMANDER"), aero);
    index.insert(String::from("COMMANDER"), commander);
    index
}

fn spider(existing: PlaneByManufacturerMap) -> PlanesSpider {
    PlanesSpider::new(&two_manufacturers_one_page(), &existing)
}

fn sample_item() -> PlaneItem {
    PlaneItem {
        manufacturer_name: String::from("COMMANDER"),
        aircraft_name: String::from("100 (1960 - 1967)"),
        source_link: String::new(),
        page_url: String::new(),
        title: None,
        description: None,
        papi_price_estimate: None,
        for_sale_count: None,
        performance: TextMap::new(),
        weights: TextMap::new(),
        ownership_costs: TextMap::new(),
        engine: TextMap::new(),
        images: Vec::new(),
    }
}

fn planes(entries: &[(&str, &str)]) -> PlaneByManufacturerMap {
    let mut out: PlaneByManufacturerMap = TextMap::new();
    for (manufacturer, aircraft) in entries {
        let mut inner = match out.remove(manufacturer) {
            Some(m) => m,
            None => TextMap::new(),
        };
        inner.insert((*aircraft).to_string(), sample_item());
        out.insert((*manufacturer).to_string(), inner);
    }
    out
}

#[test]
fn a_page_listed_under_two_manufacturers_keeps_both_listings() {
    let grouped = PlanesSpider::group_by_url(&two_manufacturers_one_page());

    assert_eq!(grouped.len(), 1, "one page: {grouped:?}");
    let sources = grouped.value_at(0);
    let mut manufacturers: Vec<&str> =
        sources.iter().map(|source| source.manufacturer_name.as_str()).collect();
    manufacturers.sort_unstable();
    assert_eq!(
        manufacturers,
        ["AERO COMMANDER", "COMMANDER"],
        "a BTreeMap keyed by URL kept only the last of these"
    );
}

#[test]
fn a_shared_page_is_still_queued_while_either_listing_is_missing() {
    let existing = planes(&[("AERO COMMANDER", "100 (1960 - 1967)")]);

    assert_eq!(
        spider(existing).start_urls().len(),
        1,
        "a page owing a listing must be queued even though another listing has it"
    );
}

#[test]
fn a_page_whose_listings_are_all_scraped_is_not_queued() {
    let existing = planes(&[("AERO COMMANDER", "100 (1960 - 1967)"), ("COMMANDER", "100 (1960 - 1967)")]);

    assert!(
        spider(existing).start_urls().is_empty(),
        "nothing is owed, so the page must not be refetched"
    );
}

const NEW_LAYOUT_PAGE: &str = r#"<html><body>
        <section id="numbers">
          <div class="rounded-2xl">
            <h3>Performance</h3>
            <div class="flex"><span>Horsepower</span><span>180 HP</span></div>
            <div class="flex"><span>Best Cruise Speed</span><span>192 kt</span></div>
            <div class="flex"><span>Best Range</span><span>1,544 nm</span></div>
            <div class="flex"><span>Unmapped Future Field</span><span>7 xyz</span></div>
          </div>
          <div class="rounded-2xl">
            <h3>Engine &amp; weights</h3>
            <div class="flex"><span>Engine Manufacturer</span><span>Lycoming</span></div>
            <div class="flex"><span>TBO</span><span>2,000 hrs</span></div>
            <div class="flex"><span>Gross Weight</span><span>2,100 lbs</span></div>
            <div class="flex"><span>Payload w/ Full Fuel</span><span>264 lbs</span></div>
            <div class="flex"><span>Empty Weight</span><span></span></div>
          </div>
        </section>
        <p>Built by Lycoming Aircraft Company</p>
      </body></html>"#;

#[test]
fn the_research_layout_yields_the_legacy_key_names() {
    let parsed = parse_new_layout(NEW_LAYOUT_PAGE).expect("the layout is recognised");

    assert_eq!(parsed.performance.get("best_cruise_speed").map(String::as_str), Some("192 kt"));
    assert_eq!(parsed.performance.get("best_range_i").map(String::as_str), Some("1,544 nm"));
    assert_eq!(parsed.engine.get("manufacturer").map(String::as_str), Some("Lycoming"));
    assert_eq!(parsed.engine.get("overhaul_ht").map(String::as_str), Some("2,000 hrs"));
    assert_eq!(parsed.weights.get("gross_weight").map(String::as_str), Some("2,100 lbs"));
    assert_eq!(parsed.weights.get("payload_full_fuel").map(String::as_str), Some("264 lbs"));

    assert_eq!(parsed.performance.get("horsepower").map(String::as_str), Some("180 HP"));
    assert_eq!(parsed.engine.get("horsepower").map(String::as_str), Some("180 HP"));

    assert!(!parsed.weights.contains_key("empty_weight"), "{:?}", parsed.weights);
    let performance_keys = parsed.performance.keys();
    assert!(
        !performance_keys
            .iter()
            .any(|k| parsed.performance.get(k).map(String::as_str) == Some("7 xyz")),
        "an unrecognised label must not be filed under some other key"
    );
}

fn asked_for(manufacturer: &str) -> AircraftSource {
    AircraftSource {
        manufacturer_name: String::from(manufacturer),
        aircraft_name: String::from("GX"),
        source_link: String::new(),
    }
}

#[test]
fn a_page_for_another_aircraft_is_refused() {
    assert!(
        verify_page_is_for(NEW_LAYOUT_PAGE, &asked_for("Lycoming"), "u").is_ok(),
        "the page names this manufacturer"
    );
    assert!(
        verify_page_is_for(NEW_LAYOUT_PAGE, &asked_for("Bombardier"), "u").is_err(),
        "a redirect that lands on a different aircraft must fail, not be recorded"
    );
}

fn one(key: &str, value: &str) -> TextMap<String> {
    let mut m = TextMap::new();
    m.insert(key.to_string(), value.to_string());
    m
}

#[test]
fn a_section_that_does_not_match_its_position_is_rejected() {
    let weights = one("gross_weight", "2550 lbs");
    let performance = one("ceiling", "13500 ft");

    assert!(
        verify_section_order(&vec![performance.copy(), weights.copy()], "u").is_ok(),
        "the documented order must pass"
    );
    assert!(
        verify_section_order(&vec![weights, performance], "u").is_err(),
        "swapping two sections must be refused, not filed under the wrong keys"
    );
}

#[test]
fn a_misplaced_section_is_reported_with_its_keys() {
    let weights = one("gross_weight", "2550 lbs");
    let performance = one("ceiling", "13500 ft");
    match verify_section_order(&vec![weights, performance], "https://planephd.com/x") {
        Err(Error::Internal(message)) => assert_eq!(
            message,
            "detail section 0 does not look like performance; its keys are [gross_weight]. \
             The page layout changed and reading sections by position is no longer safe: \
             https://planephd.com/x"
        ),
        other => panic!("unexpected {other:?}"),
    }
}

#[test]
fn a_misplaced_engine_section_lists_at_most_eight_keys() {
    let mut costs = TextMap::new();
    for k in ["a", "b", "c", "d", "e", "f", "g", "h", "i", "j"] {
        costs.insert(k.to_string(), String::from("$1"));
    }
    let sections = vec![one("ceiling", "1"), one("empty_weight", "2"), one("fuel", "3"), costs];
    match verify_section_order(&sections, "u") {
        Err(Error::Internal(message)) => assert_eq!(
            message,
            "detail section 3 does not look like engine; its keys are [a, b, c, d, e, f, g, h]. \
             The page layout changed and reading sections by position is no longer safe: u"
        ),
        other => panic!("unexpected {other:?}"),
    }
}

const LEGACY_PAGE: &str = r#"<html><body>
  <div class="model-header"><h3>1946 CESSNA 120</h3><h3>other</h3></div>
  <div id="details_top"><div class="panel-body"><div class="row"><div class="col-md-6">
    <p>Single   engine
       piston aircraft.</p></div></div></div></div>
  <div id="papi_top"><div class="papi-content">Estimated value: $39,637; range $30,000</div></div>
  <span class="ads-count"> 4 </span>
  <div id="perforance_top">
    <dl class="dl-details"><dt>Ceiling:</dt><dd>15,000 FT</dd><dt>Best Cruise Speed</dt><dd>100 KIAS</dd></dl>
    <dl class="dl-details"><dt>Gross Weight</dt><dd>1,450 LBS</dd><dt>Lonely</dt></dl>
    <dl class="dl-details"><dt>Total Fixed Cost</dt><dd>$4,969.30</dd></dl>
    <dl class="dl-details"><dt>Horsepower</dt><dd>85 HP</dd><dt>Manufacturer</dt><dd>Cont Motor</dd></dl>
  </div>
  <div class="my-gallery"><figure><a href="/static/1.jpg" data-title="T" data-holder="Les" data-dimensions="800x600">x</a></figure>
    <figure><a data-title="no link">y</a></figure></div>
  <p>CESSNA builds it.</p>
</body></html>"#;

#[test]
fn the_legacy_layout_is_read_by_position() {
    let sections = parse_detail_sections(LEGACY_PAGE);
    assert_eq!(sections.len(), 4);
    assert_eq!(sections[0].get("ceiling").map(String::as_str), Some("15,000 FT"));
    assert_eq!(sections[0].get("best_cruise_speed").map(String::as_str), Some("100 KIAS"));
    assert_eq!(sections[1].len(), 1, "a lone label is ignored");
    assert_eq!(sections[2].get("total_fixed_cost").map(String::as_str), Some("$4,969.30"));

    let (performance, weights, costs, engine) = read_sections(LEGACY_PAGE, "u").expect("in order");
    assert_eq!(performance.len(), 2);
    assert_eq!(weights.get("gross_weight").map(String::as_str), Some("1,450 LBS"));
    assert_eq!(costs.len(), 1);
    assert_eq!(engine.get("manufacturer").map(String::as_str), Some("Cont Motor"));
}

#[test]
fn the_headline_texts_price_and_pictures_are_read() {
    assert_eq!(first_text(LEGACY_PAGE, TITLE_CSS).as_deref(), Some("1946 CESSNA 120"));
    assert_eq!(parse_papi_price_estimate(LEGACY_PAGE).as_deref(), Some("$39,637"));
    let images = parse_images(LEGACY_PAGE);
    assert_eq!(images.len(), 1, "a picture without a link is skipped");
    assert_eq!(images[0].href, "/static/1.jpg");
    assert_eq!(images[0].title.as_deref(), Some("T"));
    assert_eq!(images[0].holder.as_deref(), Some("Les"));
    assert_eq!(images[0].dimensions.as_deref(), Some("800x600"));
}

#[test]
fn a_page_in_neither_layout_is_refused() {
    match read_sections("<html><body><p>blocked</p></body></html>", "https://planephd.com/x") {
        Err(Error::Internal(message)) => assert_eq!(
            message,
            "neither the legacy nor the /research layout produced any specification; \
             the page may be blocked or changed again: https://planephd.com/x"
        ),
        other => panic!("unexpected {other:?}"),
    }
}

#[test]
fn a_detail_page_yields_one_record_per_listing() {
    let link = String::from("/wizard/details/146/CESSNA-120");
    let mut cessna = TextMap::new();
    cessna.insert(String::from("120 (1946 - 1949)"), link.clone());
    let mut other = TextMap::new();
    other.insert(String::from("120"), link);
    let mut index = TextMap::new();
    index.insert(String::from("CESSNA"), cessna);
    index.insert(String::from("Cessna Aircraft"), other);
    let spider = PlanesSpider::new(&index, &TextMap::new());
    let url = "https://planephd.com/wizard/details/146/CESSNA-120";

    match spider.scrape_page(url, LEGACY_PAGE) {
        Err(Error::Internal(message)) => assert_eq!(
            message,
            format!(
                "page does not mention Cessna Aircraft, so the redirect resolved to a different aircraft: {url}"
            )
        ),
        other => panic!("unexpected {other:?}"),
    }

    let mut index = TextMap::new();
    let mut cessna = TextMap::new();
    cessna.insert(String::from("120 (1946 - 1949)"), String::from("/wizard/details/146/CESSNA-120"));
    index.insert(String::from("CESSNA"), cessna);
    let mut other = TextMap::new();
    other.insert(String::from("120"), String::from("/wizard/details/146/CESSNA-120"));
    index.insert(String::from("cessna"), other);
    let spider = PlanesSpider::new(&index, &TextMap::new());
    let items = spider.scrape_page(url, LEGACY_PAGE).expect("both listings are named");
    assert_eq!(items.len(), 2);
    assert_eq!(items[0].manufacturer_name, "CESSNA");
    assert_eq!(items[1].manufacturer_name, "cessna");
    assert_eq!(items[1].aircraft_name, "120");
    assert_eq!(items[0].page_url, url);
    assert_eq!(items[0].description.as_deref(), Some("Single engine piston aircraft."));
    assert_eq!(items[0].for_sale_count.as_deref(), Some("4"));
    assert_eq!(items[1].ownership_costs.len(), 1);
    assert_eq!(items[1].images.len(), 1);
}

#[test]
fn an_unknown_detail_url_is_refused() {
    match spider(TextMap::new()).scrape_page("https://planephd.com/nowhere", LEGACY_PAGE) {
        Err(Error::Internal(message)) => {
            assert_eq!(message, "unknown aircraft detail URL: https://planephd.com/nowhere")
        },
        other => panic!("unexpected {other:?}"),
    }
}

#[test]
fn a_relative_listing_is_grouped_under_its_absolute_url() {
    let grouped = PlanesSpider::group_by_url(&two_manufacturers_one_page());
    assert_eq!(
        grouped.key_at(0),
        "https://planephd.com/wizard/details/1246/AERO-COMMANDER-100-specifications"
    );
    assert_eq!(spider(TextMap::new()).name(), "PlanesSpider");
}

fn pieces(v: &[&str]) -> Vec<String> {
    v.iter().map(|s| s.to_string()).collect()
}

#[test]
fn research_rows_are_read_without_a_page() {
    let rows = vec![
        vec![pieces(&["Thrust"]), pieces(&[" 3,400 ", "lbs"])],
        vec![pieces(&["Stall Speed"]), pieces(&["  "])],
        vec![pieces(&["Ceiling"])],
        vec![pieces(&["Unknown"]), pieces(&["1"])],
    ];
    let d = read_layout_rows(&rows).expect("one row counts");
    assert_eq!(d.performance.get("thrust").map(String::as_str), Some("3,400 lbs"));
    assert_eq!(d.engine.get("thrust").map(String::as_str), Some("3,400 lbs"));
    assert_eq!(d.performance.len(), 1);
    assert!(d.weights.is_empty());
    assert!(read_layout_rows(&vec![vec![pieces(&["Unknown"]), pieces(&["1"])]]).is_none());
}

#[test]
fn gallery_rows_are_read_without_a_page() {
    let rows = vec![
        vec![Some(String::from("/a.jpg")), None, Some(String::from("Les")), None],
        vec![None, Some(String::from("no link")), None, None],
        vec![Some(String::from("/short.jpg"))],
    ];
    let images = images_from_rows(&rows);
    assert_eq!(images.len(), 1);
    assert_eq!(images[0].href, "/a.jpg");
    assert_eq!(images[0].holder.as_deref(), Some("Les"));
    assert!(images[0].title.is_none());
}

#[test]
fn lowered_texts_are_searched_for_the_name() {
    let source = asked_for("Lycoming");
    assert!(verify_lowered_mention("built by lycoming", "lycoming", &source, "u").is_ok());
    match verify_lowered_mention("built by cessna", "lycoming", &source, "u") {
        Err(Error::Internal(m)) => assert_eq!(
            m,
            "page does not mention Lycoming, so the redirect resolved to a different aircraft: u"
        ),
        other => panic!("unexpected {other:?}"),
    }
}

#[test]
fn first_cells_and_prices_are_read_without_a_page() {
    assert_eq!(first_cell(&vec![pieces(&["  1946 ", "CESSNA"]), pieces(&["x"])]).as_deref(), Some("1946 CESSNA"));
    assert_eq!(first_cell(&vec![pieces(&["   "])]), None);
    assert_eq!(first_cell(&vec![]), None);
    assert_eq!(price_from_cells(&vec![pieces(&["about", "$12,000;"])]).as_deref(), Some("$12,000"));
    assert_eq!(price_from_cells(&vec![pieces(&["no price"])]), None);
}
