use std::path::PathBuf;

use plane_scraper::io::{
    merge_preferring_richer, temporary_file_name, AircraftStore, ManufacturerStore, PlaneStore,
};
use plane_scraper::spiders::plane::{PlaneImage, PlaneItem};
use plane_scraper::text_map::TextMap;

fn section(pairs: &[(&str, &str)]) -> TextMap<String> {
    let mut m = TextMap::new();
    for (k, v) in pairs {
        m.insert((*k).to_string(), (*v).to_string());
    }
    m
}

fn item(costs: &[(&str, &str)], cruise: Option<&str>) -> PlaneItem {
    PlaneItem {
        manufacturer_name: String::from("HAWKER"),
        aircraft_name: String::from("800XP (1995 - 2005)"),
        source_link: String::new(),
        page_url: String::new(),
        title: None,
        description: None,
        papi_price_estimate: None,
        for_sale_count: None,
        performance: match cruise {
            Some(v) => section(&[("best_cruise_speed", v)]),
            None => TextMap::new(),
        },
        weights: TextMap::new(),
        ownership_costs: section(costs),
        engine: TextMap::new(),
        images: Vec::new(),
    }
}

#[test]
fn a_rescrape_that_returns_less_does_not_erase_what_is_stored() {
    let stored = item(&[("insurance", "$53,510.41")], Some("447 KIAS"));
    let thinner = item(&[], Some("448 kt"));

    let merged = merge_preferring_richer(&stored, thinner);

    assert_eq!(
        merged.ownership_costs.get("insurance").map(String::as_str),
        Some("$53,510.41"),
        "an empty section must not replace a populated one"
    );
    assert_eq!(
        merged.performance.get("best_cruise_speed").map(String::as_str),
        Some("448 kt"),
        "but where the new reading says something, it is the newer reading that wins"
    );
}

#[test]
fn a_rescrape_with_fewer_keys_in_a_section_keeps_the_ones_it_omits() {
    let mut stored = item(&[], Some("447 KIAS"));
    stored.performance.insert(String::from("ceiling"), String::from("41,000 FT"));
    let thinner = item(&[], Some("448 kt"));

    let merged = merge_preferring_richer(&stored, thinner);

    assert_eq!(
        merged.performance.get("ceiling").map(String::as_str),
        Some("41,000 FT"),
        "a section that is non-empty but thinner must not drop the keys it lacks"
    );
    assert_eq!(
        merged.performance.get("best_cruise_speed").map(String::as_str),
        Some("448 kt")
    );
}

#[test]
fn a_rescrape_that_returns_more_replaces_what_is_stored() {
    let stored = item(&[], None);
    let richer = item(&[("insurance", "$1.00")], Some("100 kt"));

    let merged = merge_preferring_richer(&stored, richer);

    assert_eq!(merged.ownership_costs.len(), 1, "a populated section must land");
    assert_eq!(merged.performance.len(), 1);
}

fn image(href: &str) -> PlaneImage {
    PlaneImage { href: href.to_string(), title: None, holder: None, dimensions: None }
}

#[test]
fn merging_keeps_stored_texts_and_images_the_new_reading_lacks() {
    let mut stored = item(&[], None);
    stored.title = Some(String::from("1998 HAWKER 800XP"));
    stored.papi_price_estimate = Some(String::from("$2,100,000"));
    stored.images = vec![image("/a.jpg")];
    let mut incoming = item(&[], None);
    incoming.papi_price_estimate = Some(String::from("$2,000,000"));
    incoming.source_link = String::from("/research/hawker-800xp");

    let merged = merge_preferring_richer(&stored, incoming);

    assert_eq!(merged.title.as_deref(), Some("1998 HAWKER 800XP"));
    assert_eq!(merged.papi_price_estimate.as_deref(), Some("$2,000,000"));
    assert_eq!(merged.images.len(), 1);
    assert_eq!(merged.images[0].href, "/a.jpg");
    assert_eq!(merged.source_link, "/research/hawker-800xp");
}

#[test]
fn merging_takes_the_new_images_when_there_are_any() {
    let mut stored = item(&[], None);
    stored.images = vec![image("/a.jpg"), image("/b.jpg")];
    let mut incoming = item(&[], None);
    incoming.images = vec![image("/c.jpg")];

    let merged = merge_preferring_richer(&stored, incoming);

    assert_eq!(merged.images.len(), 1);
    assert_eq!(merged.images[0].href, "/c.jpg");
}

#[test]
fn merging_the_same_reading_twice_changes_nothing_more() {
    let stored = item(&[("insurance", "$53,510.41")], Some("447 KIAS"));
    let incoming = item(&[("hangar", "$6,000")], Some("448 kt"));
    let again = item(&[("hangar", "$6,000")], Some("448 kt"));

    let once = merge_preferring_richer(&stored, incoming);
    let twice = merge_preferring_richer(&once, again);

    assert_eq!(twice.ownership_costs.keys(), once.ownership_costs.keys());
    assert_eq!(twice.performance.keys(), once.performance.keys());
    assert_eq!(
        twice.ownership_costs.get("insurance").map(String::as_str),
        Some("$53,510.41")
    );
}

#[test]
fn storing_a_record_twice_merges_rather_than_replaces() {
    let mut store = PlaneStore::with_contents(PathBuf::from("planes.json"), TextMap::new());
    store.insert(item(&[("insurance", "$53,510.41")], Some("447 KIAS")));
    store.insert(item(&[], Some("448 kt")));

    let held = store.records().get("HAWKER").expect("the manufacturer");
    let record = held.get("800XP (1995 - 2005)").expect("the aircraft");
    assert_eq!(record.ownership_costs.get("insurance").map(String::as_str), Some("$53,510.41"));
    assert_eq!(record.performance.get("best_cruise_speed").map(String::as_str), Some("448 kt"));
    assert_eq!(store.path(), &PathBuf::from("planes.json"));
}

#[test]
fn storing_many_records_replaces_what_was_held() {
    let mut store = PlaneStore::with_contents(PathBuf::from("planes.json"), TextMap::new());
    store.insert(item(&[("insurance", "$53,510.41")], Some("447 KIAS")));
    store.insert_many(vec![item(&[], Some("448 kt"))]);

    let record = store.records().get("HAWKER").unwrap().get("800XP (1995 - 2005)").unwrap();
    assert!(record.ownership_costs.is_empty());
    assert_eq!(record.performance.get("best_cruise_speed").map(String::as_str), Some("448 kt"));
}

#[test]
fn the_manufacturer_store_keeps_the_last_link_of_a_name() {
    let mut store = ManufacturerStore::with_contents(PathBuf::from("m.json"), TextMap::new());
    store.insert(String::from("CESSNA"), String::from("/wizard/manufacturers/CESSNA/"));
    store.insert_many(&vec![
        (String::from("PIPER"), String::from("/p1/")),
        (String::from("PIPER"), String::from("/wizard/manufacturers/PIPER/")),
    ]);

    assert_eq!(store.records().keys(), vec![String::from("CESSNA"), String::from("PIPER")]);
    assert_eq!(
        store.records().get("PIPER").map(String::as_str),
        Some("/wizard/manufacturers/PIPER/")
    );
}

#[test]
fn the_aircraft_store_files_aircraft_under_their_manufacturer() {
    let mut store = AircraftStore::with_contents(PathBuf::from("a.json"), TextMap::new());
    store.insert(
        String::from("CESSNA"),
        String::from("120 (1946 - 1949)"),
        String::from("/wizard/details/146/CESSNA-120"),
    );
    store.insert_many(
        String::from("CESSNA"),
        &vec![(String::from("140 (1946 - 1951)"), String::from("/wizard/details/147/CESSNA-140"))],
    );

    let cessna = store.records().get("CESSNA").expect("the manufacturer");
    assert_eq!(cessna.len(), 2);
    assert_eq!(
        cessna.get("120 (1946 - 1949)").map(String::as_str),
        Some("/wizard/details/146/CESSNA-120")
    );
}

#[test]
fn a_temporary_file_is_named_after_the_file_process_and_time() {
    assert_eq!(temporary_file_name(Some("planes.json"), 4242, 17), "planes.json.4242.17.tmp");
    assert_eq!(temporary_file_name(None, 0, 0), "output.json.0.0.tmp");
    assert_eq!(
        temporary_file_name(Some("a.json"), u32::MAX, u128::MAX),
        format!("a.json.{}.{}.tmp", u32::MAX, u128::MAX)
    );
}
