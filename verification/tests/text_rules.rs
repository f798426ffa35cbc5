use plane_scraper::spiders::absolute_url;
use plane_scraper::text::{
    clean_text, extract_first_money_value, is_blank, key_from_lowered, normalize_label, parse_u64, same_text,
    text_starts_with,
};

#[test]
fn labels_become_snake_case_keys() {
    assert_eq!(normalize_label("Best Cruise Speed"), "best_cruise_speed");
    assert_eq!(normalize_label("  Ceiling:  "), "ceiling");
    assert_eq!(normalize_label("Payload w/ Full Fuel"), "payload_w_full_fuel");
    assert_eq!(normalize_label("Fuel Burn @ 75%"), "fuel_burn_75");
    assert_eq!(normalize_label("Overhaul (HT)"), "overhaul_ht");
    assert_eq!(normalize_label("---"), "");
    assert_eq!(normalize_label(""), "");
}

#[test]
fn text_is_cleaned_to_single_spaces() {
    assert_eq!(clean_text("  a \n\t b  c "), "a b c");
    assert_eq!(clean_text("   "), "");
    assert_eq!(clean_text("word"), "word");
}

#[test]
fn the_first_dollar_amount_is_found() {
    assert_eq!(extract_first_money_value("about $39,637; more").as_deref(), Some("$39,637"));
    assert_eq!(extract_first_money_value("x $1,000, y $2").as_deref(), Some("$1,000"));
    assert_eq!(extract_first_money_value("no money here"), None);
    assert_eq!(extract_first_money_value("$"), Some(String::from("$")));
}

#[test]
fn relative_links_point_into_the_site() {
    assert_eq!(absolute_url("/wizard/details/146/X"), "https://planephd.com/wizard/details/146/X");
    assert_eq!(absolute_url("https://example.com/a"), "https://example.com/a");
    assert_eq!(absolute_url("http://example.com/a"), "http://example.com/a");
    assert_eq!(absolute_url(""), "https://planephd.com");
    assert_eq!(absolute_url(&absolute_url("/a")), absolute_url("/a"));
}

#[test]
fn whole_numbers_parse_as_u64_does() {
    assert_eq!(parse_u64("120"), Some(120));
    assert_eq!(parse_u64("+7"), Some(7));
    assert_eq!(parse_u64("18446744073709551615"), Some(u64::MAX));
    assert_eq!(parse_u64("18446744073709551616"), None);
    assert_eq!(parse_u64(""), None);
    assert_eq!(parse_u64("+"), None);
    assert_eq!(parse_u64("-1"), None);
    assert_eq!(parse_u64(" 5"), None);
    assert_eq!(parse_u64("Wed, 21 Oct 2015 07:28:00 GMT"), None);
}

#[test]
fn blank_texts_and_prefixes() {
    assert!(is_blank(" \n\t "));
    assert!(is_blank(""));
    assert!(!is_blank(" x "));
    assert!(text_starts_with("https://x", "https://"));
    assert!(!text_starts_with("http", "https://"));
    assert!(same_text("TBO", "TBO"));
    assert!(!same_text("TBO", "tbo"));
}

#[test]
fn cleaning_twice_is_cleaning_once() {
    for s in ["  a \n\t b  c ", "", "x", " \u{a0}y\u{3000}z "] {
        let once = clean_text(s);
        assert_eq!(clean_text(&once), once);
        assert!(!once.starts_with(' ') && !once.ends_with(' ') && !once.contains("  "));
        assert_eq!(once.split_whitespace().collect::<Vec<_>>(), s.split_whitespace().collect::<Vec<_>>());
    }
}

#[test]
fn a_key_normalizes_to_itself() {
    for label in ["Best Cruise Speed:", "Fuel Burn @ 75%", "ÉTAT Général", "Overhaul (HT)", "_x__Y_"] {
        let key = normalize_label(label);
        assert!(key.chars().all(|c| c.is_ascii_lowercase() || c.is_ascii_digit() || c == '_'));
        assert!(!key.starts_with('_') && !key.ends_with('_') && !key.contains("__"));
        assert_eq!(normalize_label(&key), key);
    }
    assert_eq!(normalize_label("ÉTAT Général"), "tat_g_n_ral");
}

#[test]
fn lowered_labels_become_keys() {
    assert_eq!(key_from_lowered("best cruise speed"), "best_cruise_speed");
    assert_eq!(key_from_lowered("--payload w/ full fuel--"), "payload_w_full_fuel");
    assert_eq!(key_from_lowered(""), "");
    assert_eq!(normalize_label("TBO"), "tbo");
}
