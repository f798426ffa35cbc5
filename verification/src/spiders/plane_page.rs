//! What an aircraft detail page says: its specification sections in either of
//! the site's two layouts, its pictures, price and headline texts.
use vstd::prelude::*;

use crate::error::{Error, ErrorView};
use crate::html::{
    attribute_rows, document_text, element_attributes, element_texts, nested_element_texts,
    nested_piece_lists, optional_view, piece_lists, select_attributes, select_document_text,
    select_nested_texts, select_texts,
};
use crate::spiders::plane::{AircraftSource, PlaneImage};
use crate::text::{
    append_text, chars_contain, clean, clean_text, decimal, extract_first_money_value, join_texts,
    join_with, lowercase_text, money_value, normalize_label, normalized_label, occurs_in, push_decimal,
    same_text, texts, to_lowercase,
};
use crate::text_map::{key_order, text_chars, text_values, TextMap};

verus! {

/// The legacy layout's specification sections.
pub const LEGACY_SECTIONS_CSS: &'static str = "#perforance_top dl.dl-details";

/// The label and value cells of a legacy section.
pub const DEFINITION_CELLS_CSS: &'static str = "dt, dd";

/// The rows of the `/research/<slug>` layout's specification cards.
pub const NEW_LAYOUT_ROWS_CSS: &'static str = "section#numbers div.flex";

/// The label and value of a `/research/<slug>` row.
pub const NEW_LAYOUT_CELLS_CSS: &'static str = "span";

/// The gallery's picture links.
pub const IMAGES_CSS: &'static str = ".my-gallery figure a";

/// The price estimate panel.
pub const PAPI_CSS: &'static str = "#papi_top .papi-content";

/// The page's title.
pub const TITLE_CSS: &'static str = ".model-header h3:first-child";

/// The page's description.
pub const DESCRIPTION_CSS: &'static str = "#details_top .panel-body .row .col-md-6 p";

/// The number of aircraft for sale.
pub const FOR_SALE_CSS: &'static str = ".ads-count";

/// An element's text: its text pieces joined by spaces, whitespace collapsed.
pub open spec fn cell_text(pieces: Seq<Seq<char>>) -> Seq<char> {
    clean(join_with(pieces, " "@))
}

/// The text of an element whose text pieces are `pieces`.
pub fn element_text(pieces: &Vec<String>) -> (r: String)
    ensures
        r@ == cell_text(texts(pieces@)),
{
    let joined = join_texts(pieces, " ");
    clean_text(joined.as_str())
}

/// The texts of `cells` that are not empty, in order.
pub open spec fn nonempty_cells(cells: Seq<Seq<Seq<char>>>) -> Seq<Seq<char>>
    decreases cells.len(),
{
    if cells.len() == 0 {
        Seq::empty()
    } else {
        let before = nonempty_cells(cells.drop_last());
        let t = cell_text(cells.last());
        if t.len() > 0 {
            before.push(t)
        } else {
            before
        }
    }
}

/// The first `pairs` label/value pairs of `values` as a map: each label
/// normalized, a later label overriding an earlier one.
pub open spec fn definitions(values: Seq<Seq<char>>, pairs: nat) -> Map<Seq<char>, Seq<char>>
    decreases pairs,
{
    if pairs == 0 {
        Map::empty()
    } else {
        definitions(values, (pairs - 1) as nat).insert(
            normalized_label(values[2 * pairs - 2]),
            values[2 * pairs - 1],
        )
    }
}

/// A legacy section read from its cells: the non-empty texts taken two by
/// two as label and value, a lone last text ignored.
pub open spec fn definition_list(cells: Seq<Seq<Seq<char>>>) -> Map<Seq<char>, Seq<char>> {
    let values = nonempty_cells(cells);
    definitions(values, values.len() / 2)
}

/// Reads a legacy section whose cells hold the text pieces `cells`.
pub fn parse_definition_list(cells: &Vec<Vec<String>>) -> (r: TextMap<String>)
    ensures
        text_values(r@) == definition_list(piece_lists(cells@)),
{
    let ghost all = piece_lists(cells@);
    let mut values: Vec<String> = Vec::new();
    for i in 0..cells.len()
        invariant
            all == piece_lists(cells@),
            texts(values@) == nonempty_cells(all.take(i as int)),
    {
        let text = element_text(&cells[i]);
        proof {
            assert(all.take(i + 1).drop_last() =~= all.take(i as int));
            assert(all[i as int] == texts(cells@[i as int]@));
        }
        if !text.as_str().is_empty() {
            let ghost before = values@;
            values.push(text);
            proof {
                assert(texts(values@) =~= texts(before).push(text@));
            }
        }
    }
    proof {
        assert(all.take(cells.len() as int) =~= all);
    }
    let ghost vals = texts(values@);
    let mut rows: TextMap<String> = TextMap::new();
    let pairs = values.len() / 2;
    proof {
        assert(text_values(rows@) =~= definitions(vals, 0));
    }
    for k in 0..pairs
        invariant
            pairs == vals.len() / 2,
            vals == texts(values@),
            vals.len() == values@.len(),
            values@.len() <= usize::MAX,
            text_values(rows@) == definitions(vals, k as nat),
    {
        assert(2 * k + 1 < values@.len());
        let label = normalize_label(values[2 * k].as_str());
        let value = values[2 * k + 1].clone();
        let ghost before = rows@;
        rows.insert(label, value);
        proof {
            assert(text_values(rows@) =~= text_values(before).insert(
                normalized_label(vals[2 * k as int]),
                vals[2 * k + 1],
            ));
        }
    }
    rows
}

/// The legacy sections of a page, in the order the parser yields them.
pub open spec fn legacy_sections(html: Seq<char>) -> Seq<Seq<Seq<Seq<char>>>> {
    nested_element_texts(html, LEGACY_SECTIONS_CSS@, DEFINITION_CELLS_CSS@)
}

/// Reads the legacy layout's specification sections, in the order the parser yields them.
pub fn parse_detail_sections(html: &str) -> (r: Vec<TextMap<String>>)
    ensures
        r@.len() == legacy_sections(html@).len(),
        forall|i: int|
            0 <= i < r@.len() ==> text_values((#[trigger] r@[i])@) == definition_list(
                legacy_sections(html@)[i],
            ),
{
    let lists = select_nested_texts(html, LEGACY_SECTIONS_CSS, DEFINITION_CELLS_CSS);
    let ghost all = nested_piece_lists(lists@);
    let mut sections: Vec<TextMap<String>> = Vec::new();
    for i in 0..lists.len()
        invariant
            all == nested_piece_lists(lists@),
            all == legacy_sections(html@),
            sections@.len() == i,
            forall|j: int|
                0 <= j < i ==> text_values((#[trigger] sections@[j])@) == definition_list(all[j]),
    {
        sections.push(parse_definition_list(&lists[i]));
    }
    sections
}

/// The keys a section at `index` has one of at least, a key that stands in
/// that section and in no other. The costs section (index 2) has no stable
/// member and is checked by elimination.
pub open spec fn section_signature(index: int) -> Seq<Seq<char>> {
    if index == 0 {
        seq!["ceiling"@, "rate_of_climb"@, "takeoff_distance"@, "landing_distance"@]
    } else if index == 1 {
        seq!["gross_weight"@, "empty_weight"@, "fuel_capacity"@, "maximum_payload"@]
    } else if index == 3 {
        seq!["horsepower"@, "thrust"@, "overhaul_ht"@, "years_before_overhaul"@]
    } else {
        Seq::empty()
    }
}

/// The name of the section at `index`.
pub open spec fn section_label(index: int) -> Seq<char> {
    if index == 0 {
        "performance"@
    } else if index == 1 {
        "weights"@
    } else if index == 2 {
        "ownership_costs"@
    } else {
        "engine"@
    }
}

/// A section with keys `keys` may stand at `index`.
pub open spec fn fits_position(keys: Set<Seq<char>>, index: int) -> bool {
    let signature = section_signature(index);
    signature.len() == 0 || exists|k: int|
        0 <= k < signature.len() && keys.contains(#[trigger] signature[k])
}

/// The first of the four positions, from `from` on, whose section (of those
/// present) does not fit it.
pub open spec fn first_misfit(keys: Seq<Set<Seq<char>>>, from: int) -> Option<int>
    decreases 4 - from,
{
    if from < 0 || from >= 4 || from >= keys.len() {
        None
    } else if !fits_position(keys[from], from) {
        Some(from)
    } else {
        first_misfit(keys, from + 1)
    }
}

proof fn lemma_misfit_in_range(keys: Seq<Set<Seq<char>>>, from: int)
    ensures
        first_misfit(keys, from) matches Some(i) ==> from <= i < keys.len() && 0 <= i < 4,
    decreases 4 - from,
{
    if 0 <= from < 4 && from < keys.len() && fits_position(keys[from], from) {
        lemma_misfit_in_range(keys, from + 1);
    }
}

/// At most the first eight of `keys`.
pub open spec fn first_eight(keys: Seq<Seq<char>>) -> Seq<Seq<char>> {
    if keys.len() <= 8 {
        keys
    } else {
        keys.take(8)
    }
}

/// The message for a section at `index`, with keys `keys` in ascending order,
/// that does not fit its position on the page `url`.
pub open spec fn misfit_message(index: int, keys: Seq<Seq<char>>, url: Seq<char>) -> Seq<char> {
    "detail section "@ + decimal(index as nat) + " does not look like "@ + section_label(index)
        + "; its keys are ["@ + join_with(first_eight(keys), ", "@)
        + "]. The page layout changed and reading sections by position is no longer safe: "@ + url
}

/// The key sets of a list of sections.
pub open spec fn section_keys(sections: Seq<TextMap<String>>) -> Seq<Set<Seq<char>>> {
    sections.map_values(|s: TextMap<String>| s@.dom())
}

fn fits_signature(section: &TextMap<String>, index: usize) -> (r: bool)
    requires
        index < 4,
    ensures
        r == fits_position(section@.dom(), index as int),
{
    let ghost signature = section_signature(index as int);
    let found = if index == 0 {
        section.contains_key("ceiling") || section.contains_key("rate_of_climb")
            || section.contains_key("takeoff_distance") || section.contains_key("landing_distance")
    } else if index == 1 {
        section.contains_key("gross_weight") || section.contains_key("empty_weight")
            || section.contains_key("fuel_capacity") || section.contains_key("maximum_payload")
    } else if index == 3 {
        section.contains_key("horsepower") || section.contains_key("thrust")
            || section.contains_key("overhaul_ht") || section.contains_key("years_before_overhaul")
    } else {
        true
    };
    proof {
        if index != 2 {
            if found {
                if section@.dom().contains(signature[0]) {
                } else if section@.dom().contains(signature[1]) {
                } else if section@.dom().contains(signature[2]) {
                } else {
                    assert(section@.dom().contains(signature[3]));
                }
            } else {
                assert forall|k: int| 0 <= k < signature.len() implies !section@.dom().contains(
                    #[trigger] signature[k],
                ) by {
                    if k == 0 {
                    } else if k == 1 {
                    } else if k == 2 {
                    } else {
                    }
                }
            }
        }
    }
    found
}

/// Rejects a page whose sections are not in the order the legacy layout puts
/// them in, rather than filing them under the wrong names. A rejected URL is
/// recorded as a failure and can be retried; a misfiled record looks like data
/// forever.
///
/// The four sections are read by position because the page gives them no
/// machine-readable label. Position is only safe while the order holds, and a
/// reordered page would otherwise file weights under `performance` and cost
/// figures under `engine`. Each signature key stands in its section and in no
/// other in the records already scraped; the costs section has no stable
/// member, so it is checked by elimination.
pub fn verify_section_order(sections: &Vec<TextMap<String>>, url: &str) -> (r: Result<(), Error>)
    ensures
        match first_misfit(section_keys(sections@), 0) {
            None => r is Ok,
            Some(index) => r matches Err(e) && e@ == ErrorView::Internal(
                misfit_message(index, key_order(sections@[index]@.dom()), url@),
            ),
        },
{
    let ghost keys = section_keys(sections@);
    let mut index: usize = 0;
    while index < 4 && index < sections.len()
        invariant
            index <= 4,
            keys == section_keys(sections@),
            first_misfit(keys, 0) == first_misfit(keys, index as int),
        decreases 4 - index,
    {
        let section = &sections[index];
        if !fits_signature(section, index) {
            let mut message = "detail section ".to_owned();
            push_decimal(&mut message, index as u128);
            append_text(&mut message, " does not look like ");
            let label = if index == 0 {
                "performance"
            } else if index == 1 {
                "weights"
            } else if index == 2 {
                "ownership_costs"
            } else {
                "engine"
            };
            append_text(&mut message, label);
            append_text(&mut message, "; its keys are [");
            let all_keys = section.keys();
            let mut shown: Vec<String> = Vec::new();
            let limit = if all_keys.len() < 8 {
                all_keys.len()
            } else {
                8
            };
            for k in 0..limit
                invariant
                    limit <= all_keys@.len(),
                    texts(shown@) == texts(all_keys@).take(k as int),
            {
                let ghost before = shown@;
                let key = all_keys[k].clone();
                shown.push(key);
                proof {
                    crate::text::lemma_texts_push(before, key);
                    assert(texts(all_keys@)[k as int] == key@);
                    assert(texts(all_keys@).take(k + 1) =~= texts(all_keys@).take(k as int).push(key@));
                }
            }
            let listed = join_texts(&shown, ", ");
            append_text(&mut message, listed.as_str());
            append_text(
                &mut message,
                "]. The page layout changed and reading sections by position is no longer safe: ",
            );
            append_text(&mut message, url);
            proof {
                use_type_invariant(section);
                section.lemma_keys_in_order();
                assert(keys[index as int] == section@.dom());
                if texts(all_keys@).len() <= 8 {
                    assert(texts(all_keys@).take(limit as int) =~= texts(all_keys@));
                }
                assert(texts(shown@) == first_eight(section.keys_seq()));
                assert(message@ =~= misfit_message(
                    index as int,
                    key_order(sections@[index as int]@.dom()),
                    url@,
                ));
            }
            return Err(Error::Internal(message));
        }
        index = index + 1;
    }
    Ok(())
}

/// Where a label of the `/research/<slug>` layout is filed.
#[derive(Clone, Copy, Debug, PartialEq, Eq)]
pub enum LayoutSection {
    Performance,
    Weights,
    Engine,
}

/// Where a label on the `/research/<slug>` layout belongs, in the vocabulary
/// the legacy records already use: the section and key of each copy.
/// `Horsepower` and `Thrust` go to two sections, because the legacy records
/// carry them under both `performance` and `engine`.
pub open spec fn layout_targets(label: Seq<char>) -> Option<Seq<(LayoutSection, Seq<char>)>> {
    if label == "Horsepower"@ {
        Some(seq![(LayoutSection::Performance, "horsepower"@), (LayoutSection::Engine, "horsepower"@)])
    } else if label == "Thrust"@ {
        Some(seq![(LayoutSection::Performance, "thrust"@), (LayoutSection::Engine, "thrust"@)])
    } else if label == "Best Cruise Speed"@ {
        Some(seq![(LayoutSection::Performance, "best_cruise_speed"@)])
    } else if label == "Stall Speed"@ {
        Some(seq![(LayoutSection::Performance, "stall_speed"@)])
    } else if label == "Best Range"@ {
        Some(seq![(LayoutSection::Performance, "best_range_i"@)])
    } else if label == "Rate of Climb"@ {
        Some(seq![(LayoutSection::Performance, "rate_of_climb"@)])
    } else if label == "Fuel Burn"@ {
        Some(seq![(LayoutSection::Performance, "fuel_burn"@)])
    } else if label == "Ceiling"@ {
        Some(seq![(LayoutSection::Performance, "ceiling"@)])
    } else if label == "Takeoff Distance"@ {
        Some(seq![(LayoutSection::Performance, "takeoff_distance"@)])
    } else if label == "Landing Distance"@ {
        Some(seq![(LayoutSection::Performance, "landing_distance"@)])
    } else if label == "Engine Manufacturer"@ {
        Some(seq![(LayoutSection::Engine, "manufacturer"@)])
    } else if label == "Engine Model"@ {
        Some(seq![(LayoutSection::Engine, "model"@)])
    } else if label == "TBO"@ {
        Some(seq![(LayoutSection::Engine, "overhaul_ht"@)])
    } else if label == "Gross Weight"@ {
        Some(seq![(LayoutSection::Weights, "gross_weight"@)])
    } else if label == "Empty Weight"@ {
        Some(seq![(LayoutSection::Weights, "empty_weight"@)])
    } else if label == "Fuel Capacity"@ {
        Some(seq![(LayoutSection::Weights, "fuel_capacity"@)])
    } else if label == "Payload w/ Full Fuel"@ {
        Some(seq![(LayoutSection::Weights, "payload_full_fuel"@)])
    } else if label == "Useful Load"@ {
        Some(seq![(LayoutSection::Weights, "useful_load"@)])
    } else if label == "Fuel Weight"@ {
        Some(seq![(LayoutSection::Weights, "fuel_weight"@)])
    } else {
        None
    }
}

/// The views of layout targets.
pub open spec fn target_views(v: Seq<(LayoutSection, &'static str)>) -> Seq<(LayoutSection, Seq<char>)> {
    v.map_values(|t: (LayoutSection, &'static str)| (t.0, t.1@))
}

fn one_target(section: LayoutSection, key: &'static str) -> (r: Vec<(LayoutSection, &'static str)>)
    ensures
        target_views(r@) == seq![(section, key@)],
{
    let mut r = Vec::new();
    r.push((section, key));
    assert(target_views(r@) =~= seq![(section, key@)]);
    r
}

fn two_targets(first: LayoutSection, second: LayoutSection, key: &'static str) -> (r: Vec<
    (LayoutSection, &'static str),
>)
    ensures
        target_views(r@) == seq![(first, key@), (second, key@)],
{
    let mut r = Vec::new();
    r.push((first, key));
    r.push((second, key));
    assert(target_views(r@) =~= seq![(first, key@), (second, key@)]);
    r
}

/// Where the `/research/<slug>` label `label` is filed, if it is known.
pub fn new_layout_targets(label: &str) -> (r: Option<Vec<(LayoutSection, &'static str)>>)
    ensures
        match r {
            Some(t) => layout_targets(label@) == Some(target_views(t@)),
            None => layout_targets(label@) is None,
        },
{
    if same_text(label, "Horsepower") {
        Some(two_targets(LayoutSection::Performance, LayoutSection::Engine, "horsepower"))
    } else if same_text(label, "Thrust") {
        Some(two_targets(LayoutSection::Performance, LayoutSection::Engine, "thrust"))
    } else if same_text(label, "Best Cruise Speed") {
        Some(one_target(LayoutSection::Performance, "best_cruise_speed"))
    } else if same_text(label, "Stall Speed") {
        Some(one_target(LayoutSection::Performance, "stall_speed"))
    } else if same_text(label, "Best Range") {
        Some(one_target(LayoutSection::Performance, "best_range_i"))
    } else if same_text(label, "Rate of Climb") {
        Some(one_target(LayoutSection::Performance, "rate_of_climb"))
    } else if same_text(label, "Fuel Burn") {
        Some(one_target(LayoutSection::Performance, "fuel_burn"))
    } else if same_text(label, "Ceiling") {
        Some(one_target(LayoutSection::Performance, "ceiling"))
    } else if same_text(label, "Takeoff Distance") {
        Some(one_target(LayoutSection::Performance, "takeoff_distance"))
    } else if same_text(label, "Landing Distance") {
        Some(one_target(LayoutSection::Performance, "landing_distance"))
    } else if same_text(label, "Engine Manufacturer") {
        Some(one_target(LayoutSection::Engine, "manufacturer"))
    } else if same_text(label, "Engine Model") {
        Some(one_target(LayoutSection::Engine, "model"))
    } else if same_text(label, "TBO") {
        Some(one_target(LayoutSection::Engine, "overhaul_ht"))
    } else if same_text(label, "Gross Weight") {
        Some(one_target(LayoutSection::Weights, "gross_weight"))
    } else if same_text(label, "Empty Weight") {
        Some(one_target(LayoutSection::Weights, "empty_weight"))
    } else if same_text(label, "Fuel Capacity") {
        Some(one_target(LayoutSection::Weights, "fuel_capacity"))
    } else if same_text(label, "Payload w/ Full Fuel") {
        Some(one_target(LayoutSection::Weights, "payload_full_fuel"))
    } else if same_text(label, "Useful Load") {
        Some(one_target(LayoutSection::Weights, "useful_load"))
    } else if same_text(label, "Fuel Weight") {
        Some(one_target(LayoutSection::Weights, "fuel_weight"))
    } else {
        None
    }
}

/// What the `/research/<slug>` rows of a page have filled in so far: the
/// three sections, and how many rows carried a known label and a value.
pub struct LayoutReading {
    pub performance: Map<Seq<char>, Seq<char>>,
    pub weights: Map<Seq<char>, Seq<char>>,
    pub engine: Map<Seq<char>, Seq<char>>,
    pub matched: nat,
}

/// `reading` with `value` filed under each of `targets`, in order.
pub open spec fn file_value(
    reading: LayoutReading,
    targets: Seq<(LayoutSection, Seq<char>)>,
    value: Seq<char>,
) -> LayoutReading
    decreases targets.len(),
{
    if targets.len() == 0 {
        reading
    } else {
        let r = file_value(reading, targets.drop_last(), value);
        let (section, key) = targets.last();
        match section {
            LayoutSection::Performance => LayoutReading { performance: r.performance.insert(key, value), ..r },
            LayoutSection::Weights => LayoutReading { weights: r.weights.insert(key, value), ..r },
            LayoutSection::Engine => LayoutReading { engine: r.engine.insert(key, value), ..r },
        }
    }
}

/// The section of `reading` that `section` names.
pub open spec fn section_of(reading: LayoutReading, section: LayoutSection) -> Map<Seq<char>, Seq<char>> {
    match section {
        LayoutSection::Performance => reading.performance,
        LayoutSection::Weights => reading.weights,
        LayoutSection::Engine => reading.engine,
    }
}

/// Some label of the `/research/<slug>` table is filed under `key` in
/// `section`.
pub open spec fn filed_under(section: LayoutSection, key: Seq<char>) -> bool {
    exists|label: Seq<char>, j: int|
        layout_targets(label) is Some && 0 <= j < layout_targets(label)->0.len() && #[trigger] layout_targets(
            label,
        )->0[j] == (section, key)
}

proof fn lemma_file_value_keys(
    reading: LayoutReading,
    targets: Seq<(LayoutSection, Seq<char>)>,
    value: Seq<char>,
    section: LayoutSection,
)
    ensures
        forall|key: Seq<char>|
            #[trigger] section_of(file_value(reading, targets, value), section).contains_key(key)
                ==> section_of(reading, section).contains_key(key) || exists|j: int|
                0 <= j < targets.len() && #[trigger] targets[j] == (section, key),
    decreases targets.len(),
{
    if targets.len() > 0 {
        let init = targets.drop_last();
        lemma_file_value_keys(reading, init, value, section);
        let r = file_value(reading, init, value);
        assert forall|key: Seq<char>|
            #[trigger] section_of(file_value(reading, targets, value), section).contains_key(key)
                implies section_of(reading, section).contains_key(key) || exists|j: int|
                0 <= j < targets.len() && #[trigger] targets[j] == (section, key) by {
            if section_of(r, section).contains_key(key) {
                if !section_of(reading, section).contains_key(key) {
                    let j = choose|j: int| 0 <= j < init.len() && #[trigger] init[j] == (section, key);
                    assert(targets[j] == (section, key));
                }
            } else {
                assert(targets[targets.len() - 1] == (section, key));
            }
        }
    }
}

/// Every key the `/research/<slug>` rows file in a section is one the
/// layout's table files in that section: weights never land under engine,
/// nor engine figures under weights.
pub proof fn lemma_layout_keys_are_filed_where_the_table_says(
    rows: Seq<Seq<Seq<Seq<char>>>>,
    section: LayoutSection,
)
    ensures
        forall|key: Seq<char>|
            #[trigger] section_of(read_rows(rows), section).contains_key(key) ==> filed_under(section, key),
    decreases rows.len(),
{
    if rows.len() > 0 {
        let init = rows.drop_last();
        lemma_layout_keys_are_filed_where_the_table_says(init, section);
        let r = read_rows(init);
        let cells = rows.last();
        if cells.len() == 2 {
            let label = cell_text(cells[0]);
            let value = cell_text(cells[1]);
            if value.len() > 0 && layout_targets(label) is Some {
                let targets = layout_targets(label)->0;
                lemma_file_value_keys(r, targets, value, section);
                let filed = file_value(r, targets, value);
                assert(section_of(read_rows(rows), section) == section_of(filed, section));
                assert forall|key: Seq<char>| #[trigger] section_of(read_rows(rows), section).contains_key(key)
                    implies filed_under(section, key) by {
                    if !section_of(r, section).contains_key(key) {
                        let j = choose|j: int| 0 <= j < targets.len() && #[trigger] targets[j] == (section, key);
                        assert(layout_targets(label)->0[j] == (section, key));
                    }
                }
            }
        }
    }
}

/// The `/research/<slug>` rows read in order. A row counts when it has exactly
/// two cells, a non-empty value and a known label; any other row is skipped
/// rather than guessed at.
pub open spec fn read_rows(rows: Seq<Seq<Seq<Seq<char>>>>) -> LayoutReading
    decreases rows.len(),
{
    if rows.len() == 0 {
        LayoutReading { performance: Map::empty(), weights: Map::empty(), engine: Map::empty(), matched: 0 }
    } else {
        let r = read_rows(rows.drop_last());
        let cells = rows.last();
        if cells.len() != 2 {
            r
        } else {
            let label = cell_text(cells[0]);
            let value = cell_text(cells[1]);
            if value.len() == 0 {
                r
            } else {
                match layout_targets(label) {
                    None => r,
                    Some(targets) => {
                        let filed = file_value(r, targets, value);
                        LayoutReading { matched: filed.matched + 1, ..filed }
                    },
                }
            }
        }
    }
}

/// The rows of a page's `/research/<slug>` specification cards.
pub open spec fn new_layout_rows(html: Seq<char>) -> Seq<Seq<Seq<Seq<char>>>> {
    nested_element_texts(html, NEW_LAYOUT_ROWS_CSS@, NEW_LAYOUT_CELLS_CSS@)
}

/// The reading of `/research/<slug>` rows, when at least one row counted.
pub open spec fn layout_reading(rows: Seq<Seq<Seq<Seq<char>>>>) -> Option<LayoutReading> {
    let r = read_rows(rows);
    if r.matched > 0 {
        Some(r)
    } else {
        None
    }
}

/// The page's `/research/<slug>` reading, when at least one row counted.
pub open spec fn new_layout(html: Seq<char>) -> Option<LayoutReading> {
    layout_reading(new_layout_rows(html))
}

/// The three sections the `/research/<slug>` layout publishes.
pub struct DetailSections {
    pub performance: TextMap<String>,
    pub weights: TextMap<String>,
    pub engine: TextMap<String>,
}

fn file_into(sections: &mut DetailSections, targets: &Vec<(LayoutSection, &'static str)>, value: &String)
    ensures
        ({
            let before = LayoutReading {
                performance: text_values(old(sections).performance@),
                weights: text_values(old(sections).weights@),
                engine: text_values(old(sections).engine@),
                matched: 0,
            };
            let after = file_value(before, target_views(targets@), value@);
            &&& text_values(final(sections).performance@) == after.performance
            &&& text_values(final(sections).weights@) == after.weights
            &&& text_values(final(sections).engine@) == after.engine
        }),
{
    let ghost start = LayoutReading {
        performance: text_values(sections.performance@),
        weights: text_values(sections.weights@),
        engine: text_values(sections.engine@),
        matched: 0,
    };
    let ghost all = target_views(targets@);
    for t in 0..targets.len()
        invariant
            all == target_views(targets@),
            ({
                let now = file_value(start, all.take(t as int), value@);
                &&& text_values(sections.performance@) == now.performance
                &&& text_values(sections.weights@) == now.weights
                &&& text_values(sections.engine@) == now.engine
            }),
    {
        let (section, key) = targets[t];
        proof {
            assert(all.take(t + 1).drop_last() =~= all.take(t as int));
            assert(all.take(t + 1).last() == (section, key@));
        }
        match section {
            LayoutSection::Performance => {
                let ghost before = sections.performance@;
                sections.performance.insert(key.to_owned(), value.clone());
                proof {
                    assert(text_values(sections.performance@) =~= text_values(before).insert(key@, value@));
                }
            },
            LayoutSection::Weights => {
                let ghost before = sections.weights@;
                sections.weights.insert(key.to_owned(), value.clone());
                proof {
                    assert(text_values(sections.weights@) =~= text_values(before).insert(key@, value@));
                }
            },
            LayoutSection::Engine => {
                let ghost before = sections.engine@;
                sections.engine.insert(key.to_owned(), value.clone());
                proof {
                    assert(text_values(sections.engine@) =~= text_values(before).insert(key@, value@));
                }
            },
        }
    }
    proof {
        assert(all.take(targets.len() as int) =~= all);
    }
}

proof fn lemma_file_value_keeps_count(
    reading: LayoutReading,
    targets: Seq<(LayoutSection, Seq<char>)>,
    value: Seq<char>,
)
    ensures
        file_value(reading, targets, value).matched == reading.matched,
    decreases targets.len(),
{
    if targets.len() > 0 {
        lemma_file_value_keeps_count(reading, targets.drop_last(), value);
    }
}

proof fn lemma_file_value_ignores_count(
    reading: LayoutReading,
    other: LayoutReading,
    targets: Seq<(LayoutSection, Seq<char>)>,
    value: Seq<char>,
)
    requires
        reading.performance == other.performance,
        reading.weights == other.weights,
        reading.engine == other.engine,
    ensures
        file_value(reading, targets, value).performance == file_value(other, targets, value).performance,
        file_value(reading, targets, value).weights == file_value(other, targets, value).weights,
        file_value(reading, targets, value).engine == file_value(other, targets, value).engine,
    decreases targets.len(),
{
    if targets.len() > 0 {
        lemma_file_value_ignores_count(reading, other, targets.drop_last(), value);
    }
}

/// Reads the `/research/<slug>` layout's specification cards, whose rows hold
/// `<span>label</span><span>value</span>`. `None` when no row carries a known
/// label and a value, so the caller can tell a page in neither layout from an
/// empty record.
pub fn parse_new_layout(html: &str) -> (r: Option<DetailSections>)
    ensures
        match r {
            Some(d) => new_layout(html@) matches Some(reading) && text_values(d.performance@)
                == reading.performance && text_values(d.weights@) == reading.weights && text_values(
                d.engine@,
            ) == reading.engine,
            None => new_layout(html@) is None,
        },
{
    let rows = select_nested_texts(html, NEW_LAYOUT_ROWS_CSS, NEW_LAYOUT_CELLS_CSS);
    read_layout_rows(&rows)
}

/// Reads `/research/<slug>` rows, each given as the text pieces of its
/// cells: `None` when no row carries a known label and a value.
pub fn read_layout_rows(rows: &Vec<Vec<Vec<String>>>) -> (r: Option<DetailSections>)
    ensures
        match r {
            Some(d) => layout_reading(nested_piece_lists(rows@)) matches Some(reading) && text_values(
                d.performance@,
            ) == reading.performance && text_values(d.weights@) == reading.weights && text_values(
                d.engine@,
            ) == reading.engine,
            None => layout_reading(nested_piece_lists(rows@)) is None,
        },
{
    let ghost all = nested_piece_lists(rows@);
    let mut sections = DetailSections {
        performance: TextMap::new(),
        weights: TextMap::new(),
        engine: TextMap::new(),
    };
    let mut matched: usize = 0;
    proof {
        assert(text_values(sections.performance@) =~= Map::<Seq<char>, Seq<char>>::empty());
        assert(text_values(sections.weights@) =~= Map::<Seq<char>, Seq<char>>::empty());
        assert(text_values(sections.engine@) =~= Map::<Seq<char>, Seq<char>>::empty());
    }
    for i in 0..rows.len()
        invariant
            all == nested_piece_lists(rows@),
            matched <= i,
            ({
                let now = read_rows(all.take(i as int));
                &&& text_values(sections.performance@) == now.performance
                &&& text_values(sections.weights@) == now.weights
                &&& text_values(sections.engine@) == now.engine
                &&& matched == now.matched
            }),
    {
        let row = &rows[i];
        proof {
            assert(all.take(i + 1).drop_last() =~= all.take(i as int));
            assert(all[i as int] == piece_lists(row@));
        }
        if row.len() == 2 {
            let label = element_text(&row[0]);
            let value = element_text(&row[1]);
            if !value.as_str().is_empty() {
                match new_layout_targets(label.as_str()) {
                    None => {},
                    Some(targets) => {
                        let ghost before = read_rows(all.take(i as int));
                        file_into(&mut sections, &targets, &value);
                        matched = matched + 1;
                        proof {
                            let start = LayoutReading {
                                performance: before.performance,
                                weights: before.weights,
                                engine: before.engine,
                                matched: 0,
                            };
                            lemma_file_value_ignores_count(start, before, target_views(targets@), value@);
                            lemma_file_value_keeps_count(before, target_views(targets@), value@);
                        }
                    },
                }
            }
        }
    }
    proof {
        assert(all.take(rows.len() as int) =~= all);
    }
    if matched > 0 {
        Some(sections)
    } else {
        None
    }
}

/// The page names `manufacturer`, ignoring case.
pub open spec fn page_mentions(html: Seq<char>, manufacturer: Seq<char>) -> bool {
    occurs_in(lowercase_text(manufacturer), lowercase_text(document_text(html)))
}

/// Guards against a redirect landing on a different aircraft: the page must
/// name the manufacturer the listing is under.
///
/// Every legacy URL redirects, and the new path is derived from a slug rather
/// than the numeric id, so a stale or wrong id resolves to whatever aircraft
/// now owns that slug -- silently, with a 200 and a well-formed page.
/// Requiring the document to name the manufacturer asked for turns that into
/// a failure.
pub fn verify_page_is_for(html: &str, source: &AircraftSource, url: &str) -> (r: Result<(), Error>)
    ensures
        match r {
            Ok(()) => page_mentions(html@, source.manufacturer_name@),
            Err(e) => !page_mentions(html@, source.manufacturer_name@) && e@ == ErrorView::Internal(
                "page does not mention "@ + source.manufacturer_name@
                    + ", so the redirect resolved to a different aircraft: "@ + url@,
            ),
        },
{
    let text = select_document_text(html);
    let lower_text = to_lowercase(text.as_str());
    let lower_name = to_lowercase(source.manufacturer_name.as_str());
    verify_lowered_mention(lower_text.as_str(), lower_name.as_str(), source, url)
}

/// The check of [`verify_page_is_for`] once the page's text and the
/// manufacturer's name are lower-cased: the page must contain the name.
pub fn verify_lowered_mention(
    lowered_page: &str,
    lowered_name: &str,
    source: &AircraftSource,
    url: &str,
) -> (r: Result<(), Error>)
    ensures
        match r {
            Ok(()) => occurs_in(lowered_name@, lowered_page@),
            Err(e) => !occurs_in(lowered_name@, lowered_page@) && e@ == ErrorView::Internal(
                "page does not mention "@ + source.manufacturer_name@
                    + ", so the redirect resolved to a different aircraft: "@ + url@,
            ),
        },
{
    let haystack = text_chars(lowered_page);
    let needle = text_chars(lowered_name);
    if chars_contain(&haystack, &needle) {
        return Ok(());
    }
    let mut message = "page does not mention ".to_owned();
    append_text(&mut message, source.manufacturer_name.as_str());
    append_text(&mut message, ", so the redirect resolved to a different aircraft: ");
    append_text(&mut message, url);
    proof {
        assert(message@ =~= "page does not mention "@ + source.manufacturer_name@
            + ", so the redirect resolved to a different aircraft: "@ + url@);
    }
    Err(Error::Internal(message))
}

/// The pictures the gallery rows `rows` (each: `href`, `data-title`,
/// `data-holder`, `data-dimensions`) describe; a row without an `href` is
/// skipped.
pub open spec fn images_from(rows: Seq<Seq<Option<Seq<char>>>>) -> Seq<
    (Seq<char>, Option<Seq<char>>, Option<Seq<char>>, Option<Seq<char>>),
>
    decreases rows.len(),
{
    if rows.len() == 0 {
        Seq::empty()
    } else {
        let before = images_from(rows.drop_last());
        let row = rows.last();
        if row.len() == 4 && row[0] is Some {
            before.push((row[0]->0, row[1], row[2], row[3]))
        } else {
            before
        }
    }
}

/// The attributes a gallery link is read for.
pub open spec fn image_attribute_names() -> Seq<Seq<char>> {
    seq!["href"@, "data-title"@, "data-holder"@, "data-dimensions"@]
}

/// The pictures of a page's gallery.
pub open spec fn page_images(html: Seq<char>) -> Seq<
    (Seq<char>, Option<Seq<char>>, Option<Seq<char>>, Option<Seq<char>>),
> {
    images_from(element_attributes(html, IMAGES_CSS@, image_attribute_names()))
}

/// A picture as texts.
pub open spec fn image_view(i: PlaneImage) -> (
    Seq<char>,
    Option<Seq<char>>,
    Option<Seq<char>>,
    Option<Seq<char>>,
) {
    (i.href@, optional_view(i.title), optional_view(i.holder), optional_view(i.dimensions))
}

/// A list of pictures as texts.
pub open spec fn image_views(v: Seq<PlaneImage>) -> Seq<
    (Seq<char>, Option<Seq<char>>, Option<Seq<char>>, Option<Seq<char>>),
> {
    v.map_values(|i: PlaneImage| image_view(i))
}

/// Reads the pictures of a page's gallery.
pub fn parse_images(html: &str) -> (r: Vec<PlaneImage>)
    ensures
        image_views(r@) == page_images(html@),
{
    let mut names: Vec<&str> = Vec::new();
    names.push("href");
    names.push("data-title");
    names.push("data-holder");
    names.push("data-dimensions");
    proof {
        assert(names.deep_view() =~= image_attribute_names());
    }
    let rows = select_attributes(html, IMAGES_CSS, &names);
    images_from_rows(&rows)
}

/// The pictures that gallery rows (each: `href`, `data-title`, `data-holder`,
/// `data-dimensions`) describe; a row without an `href` is skipped, and so is
/// a row of any other length.
pub fn images_from_rows(rows: &Vec<Vec<Option<String>>>) -> (r: Vec<PlaneImage>)
    ensures
        image_views(r@) == images_from(attribute_rows(rows@)),
{
    let ghost all = attribute_rows(rows@);
    let mut images: Vec<PlaneImage> = Vec::new();
    for i in 0..rows.len()
        invariant
            all == attribute_rows(rows@),
            image_views(images@) == images_from(all.take(i as int)),
    {
        let row = &rows[i];
        proof {
            assert(all.take(i + 1).drop_last() =~= all.take(i as int));
            assert(all[i as int] == row@.map_values(|a: Option<String>| optional_view(a)));
        }
        if row.len() == 4 {
            match &row[0] {
                None => {},
                Some(href) => {
                    let image = PlaneImage {
                        href: href.clone(),
                        title: crate::spiders::plane::copy_optional(&row[1]),
                        holder: crate::spiders::plane::copy_optional(&row[2]),
                        dimensions: crate::spiders::plane::copy_optional(&row[3]),
                    };
                    let ghost before = images@;
                    images.push(image);
                    proof {
                        assert(image_views(images@) =~= image_views(before).push(image_view(image)));
                    }
                },
            }
        }
    }
    proof {
        assert(all.take(rows.len() as int) =~= all);
    }
    images
}

/// The text of the first element `css` selects, unless there is none or it
/// is empty.
pub open spec fn first_element_text(html: Seq<char>, css: Seq<char>) -> Option<Seq<char>> {
    first_cell_text(element_texts(html, css))
}

/// The text of the first of `found` (each element's text pieces), unless
/// there is none or it is empty.
pub open spec fn first_cell_text(found: Seq<Seq<Seq<char>>>) -> Option<Seq<char>> {
    if found.len() == 0 {
        None
    } else {
        let t = cell_text(found[0]);
        if t.len() == 0 {
            None
        } else {
            Some(t)
        }
    }
}

/// The text of the first element `css` selects in the page, if it says
/// anything.
pub fn first_text(html: &str, css: &str) -> (r: Option<String>)
    ensures
        optional_view(r) == first_element_text(html@, css@),
{
    let found = select_texts(html, css);
    first_cell(&found)
}

/// The text of the first of `found` (each element's text pieces), if it says
/// anything.
pub fn first_cell(found: &Vec<Vec<String>>) -> (r: Option<String>)
    ensures
        optional_view(r) == first_cell_text(piece_lists(found@)),
{
    if found.len() == 0 {
        return None;
    }
    let text = element_text(&found[0]);
    if text.as_str().is_empty() {
        None
    } else {
        Some(text)
    }
}

/// The price estimate of a page: the first `$` amount in its price panel.
pub open spec fn page_price_estimate(html: Seq<char>) -> Option<Seq<char>> {
    price_in(element_texts(html, PAPI_CSS@))
}

/// The first `$` amount in the first of `found` (each element's text pieces).
pub open spec fn price_in(found: Seq<Seq<Seq<char>>>) -> Option<Seq<char>> {
    if found.len() == 0 {
        None
    } else {
        money_value(cell_text(found[0]))
    }
}

/// Reads a page's price estimate.
pub fn parse_papi_price_estimate(html: &str) -> (r: Option<String>)
    ensures
        optional_view(r) == page_price_estimate(html@),
{
    let found = select_texts(html, PAPI_CSS);
    price_from_cells(&found)
}

/// The first `$` amount in the first of `found` (each element's text pieces).
pub fn price_from_cells(found: &Vec<Vec<String>>) -> (r: Option<String>)
    ensures
        optional_view(r) == price_in(piece_lists(found@)),
{
    if found.len() == 0 {
        return None;
    }
    let text = element_text(&found[0]);
    extract_first_money_value(text.as_str())
}

/// The specification sections of a page's legacy layout, in the order the parser yields them.
pub open spec fn legacy_maps(html: Seq<char>) -> Seq<Map<Seq<char>, Seq<char>>> {
    legacy_sections(html).map_values(|cells: Seq<Seq<Seq<char>>>| definition_list(cells))
}

/// The keys of each of a list of sections.
pub open spec fn map_keys(maps: Seq<Map<Seq<char>, Seq<char>>>) -> Seq<Set<Seq<char>>> {
    maps.map_values(|m: Map<Seq<char>, Seq<char>>| m.dom())
}

/// The section at `index`, or an empty one.
pub open spec fn section_at(maps: Seq<Map<Seq<char>, Seq<char>>>, index: int) -> Map<Seq<char>, Seq<char>> {
    if 0 <= index < maps.len() {
        maps[index]
    } else {
        Map::empty()
    }
}

/// Why a page's specification cannot be read, if it cannot: in neither layout,
/// or its legacy sections out of order.
pub open spec fn layout_error(html: Seq<char>, url: Seq<char>) -> Option<ErrorView> {
    let legacy = legacy_maps(html);
    if legacy.len() == 0 {
        if new_layout(html) is None {
            Some(
                ErrorView::Internal(
                    "neither the legacy nor the /research layout produced any specification; the page may be blocked or changed again: "@
                        + url,
                ),
            )
        } else {
            None
        }
    } else {
        match first_misfit(map_keys(legacy), 0) {
            Some(index) => Some(
                ErrorView::Internal(misfit_message(index, key_order(legacy[index].dom()), url)),
            ),
            None => None,
        }
    }
}

/// A page's four sections -- performance, weights, ownership costs, engine --
/// when its specification can be read: the legacy ones by position, else the
/// `/research/<slug>` ones, which publish no costs.
pub open spec fn page_sections(html: Seq<char>) -> (
    Map<Seq<char>, Seq<char>>,
    Map<Seq<char>, Seq<char>>,
    Map<Seq<char>, Seq<char>>,
    Map<Seq<char>, Seq<char>>,
) {
    let legacy = legacy_maps(html);
    if legacy.len() == 0 {
        let reading = new_layout(html)->0;
        (reading.performance, reading.weights, Map::empty(), reading.engine)
    } else {
        (section_at(legacy, 0), section_at(legacy, 1), section_at(legacy, 2), section_at(legacy, 3))
    }
}

/// A copy of the section at `index`, or an empty section.
fn section_copy(sections: &Vec<TextMap<String>>, index: usize) -> (r: TextMap<String>)
    ensures
        index < sections@.len() ==> r@ == sections@[index as int]@,
        index >= sections@.len() ==> r@ == Map::<Seq<char>, String>::empty(),
{
    if index < sections.len() {
        sections[index].copy()
    } else {
        TextMap::new()
    }
}

/// The four sections of the page `html` at `url`, or why they cannot be read.
pub fn read_sections(html: &str, url: &str) -> (r: Result<
    (TextMap<String>, TextMap<String>, TextMap<String>, TextMap<String>),
    Error,
>)
    ensures
        match r {
            Ok(s) => layout_error(html@, url@) is None && text_values(s.0@) == page_sections(html@).0
                && text_values(s.1@) == page_sections(html@).1 && text_values(s.2@) == page_sections(
                html@,
            ).2 && text_values(s.3@) == page_sections(html@).3,
            Err(e) => layout_error(html@, url@) == Some(e@),
        },
        legacy_sections(html@).len() == 0 ==> match r {
            Ok(s) => new_layout(html@) matches Some(reading) && text_values(s.0@) == reading.performance
                && text_values(s.1@) == reading.weights && s.2@.dom().len() == 0 && text_values(s.3@)
                == reading.engine,
            Err(_) => new_layout(html@) is None,
        },
        legacy_sections(html@).len() == 0 ==> match r {
            Ok(s) => (forall|key: Seq<char>|
                #[trigger] s.0@.contains_key(key) ==> filed_under(LayoutSection::Performance, key))
                && (forall|key: Seq<char>|
                #[trigger] s.1@.contains_key(key) ==> filed_under(LayoutSection::Weights, key))
                && (forall|key: Seq<char>|
                #[trigger] s.3@.contains_key(key) ==> filed_under(LayoutSection::Engine, key)),
            Err(_) => true,
        },
{
    let legacy = parse_detail_sections(html);
    let ghost maps = legacy_maps(html@);
    proof {
        assert(maps.len() == legacy@.len());
        assert forall|i: int| 0 <= i < maps.len() implies #[trigger] maps[i] == text_values(legacy@[i]@) by {}
    }
    if legacy.len() == 0 {
        match parse_new_layout(html) {
            None => {
                let message = crate::text::concat_texts(
                    "neither the legacy nor the /research layout produced any specification; the page may be blocked or changed again: ",
                    url,
                );
                Err(Error::Internal(message))
            },
            Some(d) => {
                let costs: TextMap<String> = TextMap::new();
                proof {
                    assert(text_values(costs@) =~= Map::<Seq<char>, Seq<char>>::empty());
                    let rows = new_layout_rows(html@);
                    lemma_layout_keys_are_filed_where_the_table_says(rows, LayoutSection::Performance);
                    lemma_layout_keys_are_filed_where_the_table_says(rows, LayoutSection::Weights);
                    lemma_layout_keys_are_filed_where_the_table_says(rows, LayoutSection::Engine);
                    assert(text_values(d.performance@).dom() =~= d.performance@.dom());
                    assert(text_values(d.weights@).dom() =~= d.weights@.dom());
                    assert(text_values(d.engine@).dom() =~= d.engine@.dom());
                    let reading = read_rows(rows);
                    assert forall|key: Seq<char>| #[trigger] d.performance@.contains_key(key) implies filed_under(
                        LayoutSection::Performance,
                        key,
                    ) by {
                        assert(section_of(reading, LayoutSection::Performance).contains_key(key));
                    }
                    assert forall|key: Seq<char>| #[trigger] d.weights@.contains_key(key) implies filed_under(
                        LayoutSection::Weights,
                        key,
                    ) by {
                        assert(section_of(reading, LayoutSection::Weights).contains_key(key));
                    }
                    assert forall|key: Seq<char>| #[trigger] d.engine@.contains_key(key) implies filed_under(
                        LayoutSection::Engine,
                        key,
                    ) by {
                        assert(section_of(reading, LayoutSection::Engine).contains_key(key));
                    }
                }
                Ok((d.performance, d.weights, costs, d.engine))
            },
        }
    } else {
        proof {
            assert forall|i: int| 0 <= i < maps.len() implies #[trigger] maps[i].dom() == legacy@[i]@.dom() by {
                assert(maps[i].dom() =~= legacy@[i]@.dom());
            }
            assert(map_keys(maps) =~= section_keys(legacy@));
        }
        match verify_section_order(&legacy, url) {
            Err(e) => {
                proof {
                    lemma_misfit_in_range(map_keys(maps), 0);
                }
                return Err(e);
            },
            Ok(()) => {},
        }
        let performance = section_copy(&legacy, 0);
        let weights = section_copy(&legacy, 1);
        let costs = section_copy(&legacy, 2);
        let engine = section_copy(&legacy, 3);
        proof {
            assert(text_values(performance@) =~= page_sections(html@).0);
            assert(text_values(weights@) =~= page_sections(html@).1);
            assert(text_values(costs@) =~= page_sections(html@).2);
            assert(text_values(engine@) =~= page_sections(html@).3);
        }
        Ok((performance, weights, costs, engine))
    }
}

} // verus!
