//! What the stores do to the records they hold. Reading and writing the JSON
//! files happens outside this library.
use vstd::prelude::*;

use std::path::PathBuf;

use crate::spiders::plane::{copy_images, copy_optional, PlaneItem};
use crate::text::{append_text, decimal, push_decimal};
use crate::text_map::TextMap;

verus! {

/// Manufacturer name to the path of its page.
pub type ManufacturerMap = TextMap<String>;

/// Manufacturer name to aircraft name to the path of its detail page.
pub type AircraftByManufacturerMap = TextMap<TextMap<String>>;

/// Manufacturer name to aircraft name to its record.
pub type PlaneByManufacturerMap = TextMap<TextMap<PlaneItem>>;

/// `m` with each `(key, value)` pair of `pairs` set in turn, later pairs
/// winning.
pub open spec fn with_pairs(m: Map<Seq<char>, String>, pairs: Seq<(String, String)>) -> Map<
    Seq<char>,
    String,
>
    decreases pairs.len(),
{
    if pairs.len() == 0 {
        m
    } else {
        with_pairs(m, pairs.drop_last()).insert(pairs.last().0@, pairs.last().1)
    }
}

/// Sets every `(key, value)` pair of `pairs` in `map`, in order.
pub fn insert_pairs(map: &mut TextMap<String>, pairs: &Vec<(String, String)>)
    ensures
        final(map)@ == with_pairs(old(map)@, pairs@),
{
    let ghost start = map@;
    for i in 0..pairs.len()
        invariant
            map@ == with_pairs(start, pairs@.take(i as int)),
    {
        let key = pairs[i].0.clone();
        let value = pairs[i].1.clone();
        map.insert(key, value);
        proof {
            assert(pairs@.take(i + 1).drop_last() =~= pairs@.take(i as int));
        }
    }
    assert(pairs@.take(pairs.len() as int) =~= pairs@);
}

/// Records a manufacturer and the path of its page.
pub fn insert_manufacturer(manufacturers: &mut ManufacturerMap, name: String, link: String)
    ensures
        final(manufacturers)@ == old(manufacturers)@.insert(name@, link),
{
    manufacturers.insert(name, link);
}

/// Records manufacturers and the paths of their pages, later entries winning.
pub fn insert_manufacturers(manufacturers: &mut ManufacturerMap, entries: &Vec<(String, String)>)
    ensures
        final(manufacturers)@ == with_pairs(old(manufacturers)@, entries@),
{
    insert_pairs(manufacturers, entries);
}

/// A map of maps, each inner map by its view.
pub open spec fn nested<V>(m: Map<Seq<char>, TextMap<V>>) -> Map<Seq<char>, Map<Seq<char>, V>> {
    m.map_values(|t: TextMap<V>| t@)
}

/// The inner map of `key` in `m`, or an empty one.
pub open spec fn inner_of<V>(m: Map<Seq<char>, Map<Seq<char>, V>>, key: Seq<char>) -> Map<
    Seq<char>,
    V,
> {
    if m.contains_key(key) {
        m[key]
    } else {
        Map::empty()
    }
}

/// Takes the inner map of `key` out of `outer`, or makes an empty one.
fn take_inner<V>(outer: &mut TextMap<TextMap<V>>, key: &str) -> (r: TextMap<V>)
    ensures
        final(outer)@ == old(outer)@.remove(key@),
        r@ == inner_of(nested(old(outer)@), key@),
{
    match outer.remove(key) {
        Some(m) => m,
        None => TextMap::new(),
    }
}

/// Puts `inner` back into `outer` under `key`, where [`take_inner`] took it.
proof fn lemma_put_back<V>(
    before: Map<Seq<char>, TextMap<V>>,
    after: Map<Seq<char>, TextMap<V>>,
    key: Seq<char>,
    inner: TextMap<V>,
)
    requires
        after == before.remove(key).insert(key, inner),
    ensures
        nested(after) == nested(before).insert(key, inner@),
{
    assert(nested(after) =~= nested(before).insert(key, inner@));
}

/// Records one aircraft of a manufacturer and the path of its detail page.
pub fn insert_aircraft(
    aircraft_by_manufacturer: &mut AircraftByManufacturerMap,
    manufacturer_name: String,
    aircraft_name: String,
    aircraft_link: String,
)
    ensures
        nested(final(aircraft_by_manufacturer)@) == nested(old(aircraft_by_manufacturer)@).insert(
            manufacturer_name@,
            inner_of(nested(old(aircraft_by_manufacturer)@), manufacturer_name@).insert(
                aircraft_name@,
                aircraft_link,
            ),
        ),
{
    let mut inner = take_inner(aircraft_by_manufacturer, manufacturer_name.as_str());
    inner.insert(aircraft_name, aircraft_link);
    let ghost inner_final = inner;
    aircraft_by_manufacturer.insert(manufacturer_name, inner);
    proof {
        lemma_put_back(old(aircraft_by_manufacturer)@, aircraft_by_manufacturer@, manufacturer_name@, inner_final);
    }
}

/// Records aircraft of one manufacturer and the paths of their detail pages,
/// later entries winning.
pub fn insert_aircraft_many(
    aircraft_by_manufacturer: &mut AircraftByManufacturerMap,
    manufacturer_name: String,
    aircraft: &Vec<(String, String)>,
)
    ensures
        nested(final(aircraft_by_manufacturer)@) == nested(old(aircraft_by_manufacturer)@).insert(
            manufacturer_name@,
            with_pairs(inner_of(nested(old(aircraft_by_manufacturer)@), manufacturer_name@), aircraft@),
        ),
{
    let mut inner = take_inner(aircraft_by_manufacturer, manufacturer_name.as_str());
    insert_pairs(&mut inner, aircraft);
    let ghost inner_final = inner;
    aircraft_by_manufacturer.insert(manufacturer_name, inner);
    proof {
        lemma_put_back(old(aircraft_by_manufacturer)@, aircraft_by_manufacturer@, manufacturer_name@, inner_final);
    }
}

/// `after` is `before` with `item` stored: as it is for an aircraft not held
/// yet, else merged into the held record by [`merged_record`].
pub open spec fn plane_stored(
    before: Map<Seq<char>, Map<Seq<char>, PlaneItem>>,
    after: Map<Seq<char>, Map<Seq<char>, PlaneItem>>,
    item: PlaneItem,
) -> bool {
    let inner = inner_of(before, item.manufacturer_name@);
    let a = item.aircraft_name@;
    exists|kept: PlaneItem| {
        &&& after == before.insert(item.manufacturer_name@, inner.insert(a, kept))
        &&& if inner.contains_key(a) {
            merged_record(inner[a], item, kept)
        } else {
            kept == item
        }
    }
}

/// Stores a scraped record without ever making the stored one poorer.
///
/// A plain replace loses data whenever a re-scrape returns less than the file
/// already holds, and that is not hypothetical: PlanePHD's `/research/<slug>`
/// layout puts the ownership-cost breakdown behind a sign-in, so every record
/// re-read from it has an empty `ownership_costs`. Aircraft that shared a
/// detail page with a missing listing were rewritten that way and lost cost
/// figures that had been scraped from the old layout.
pub fn insert_plane(planes_by_manufacturer: &mut PlaneByManufacturerMap, item: PlaneItem)
    ensures
        plane_stored(nested(old(planes_by_manufacturer)@), nested(final(planes_by_manufacturer)@), item),
{
    let manufacturer = item.manufacturer_name.clone();
    let aircraft = item.aircraft_name.clone();
    let ghost incoming = item;
    let mut inner = take_inner(planes_by_manufacturer, manufacturer.as_str());
    let ghost before = inner@;
    let record = match inner.remove(aircraft.as_str()) {
        None => item,
        Some(stored) => merge_preferring_richer(&stored, item),
    };
    let ghost chosen = record;
    inner.insert(aircraft, record);
    let ghost inner_final = inner;
    planes_by_manufacturer.insert(manufacturer, inner);
    proof {
        lemma_put_back(old(planes_by_manufacturer)@, planes_by_manufacturer@, incoming.manufacturer_name@, inner_final);
        assert(inner_final@ =~= before.insert(incoming.aircraft_name@, chosen));
    }
}

/// `m` with each record of `items` stored in turn as it is, replacing any
/// record for the same aircraft.
pub open spec fn with_records(
    m: Map<Seq<char>, Map<Seq<char>, PlaneItem>>,
    items: Seq<PlaneItem>,
) -> Map<Seq<char>, Map<Seq<char>, PlaneItem>>
    decreases items.len(),
{
    if items.len() == 0 {
        m
    } else {
        let r = with_records(m, items.drop_last());
        let item = items.last();
        r.insert(
            item.manufacturer_name@,
            inner_of(r, item.manufacturer_name@).insert(item.aircraft_name@, item),
        )
    }
}

/// Stores records as they are, each replacing any stored one for the same
/// aircraft.
pub fn insert_planes(planes_by_manufacturer: &mut PlaneByManufacturerMap, items: Vec<PlaneItem>)
    ensures
        nested(final(planes_by_manufacturer)@) == with_records(
            nested(old(planes_by_manufacturer)@),
            items@,
        ),
{
    let ghost all = items@;
    let n = items.len();
    let ghost start = nested(planes_by_manufacturer@);
    let mut rest = items;
    let mut done: usize = 0;
    while rest.len() > 0
        invariant
            done <= all.len(),
            all.len() == n,
            rest@ == all.skip(done as int),
            nested(planes_by_manufacturer@) == with_records(start, all.take(done as int)),
        decreases rest.len(),
    {
        assert(done < all.len());
        let item = rest.remove(0);
        let ghost incoming = item;
        let manufacturer = item.manufacturer_name.clone();
        let aircraft = item.aircraft_name.clone();
        let ghost before = planes_by_manufacturer@;
        let mut inner = take_inner(planes_by_manufacturer, manufacturer.as_str());
        inner.insert(aircraft, item);
        let ghost inner_final = inner;
        planes_by_manufacturer.insert(manufacturer, inner);
        proof {
            assert(incoming == all[done as int]);
            assert(all.take(done + 1).drop_last() =~= all.take(done as int));
            lemma_put_back(before, planes_by_manufacturer@, incoming.manufacturer_name@, inner_final);
        }
        done = done + 1;
        proof {
            assert(rest@ =~= all.skip(done as int));
        }
    }
    proof {
        assert(all.take(done as int) =~= all);
    }
}

/// Storing a record never makes the store poorer, and the newer reading wins
/// where it says something: every section key the held record of that
/// aircraft had is still held, the kept record is the held one brought up to
/// date by the new one (or the new one, where none was held), and every other
/// record is untouched.
pub proof fn lemma_storing_never_loses(
    before: Map<Seq<char>, Map<Seq<char>, PlaneItem>>,
    after: Map<Seq<char>, Map<Seq<char>, PlaneItem>>,
    item: PlaneItem,
)
    requires
        plane_stored(before, after, item),
    ensures
        after.contains_key(item.manufacturer_name@),
        after[item.manufacturer_name@].contains_key(item.aircraft_name@),
        ({
            let m = item.manufacturer_name@;
            let a = item.aircraft_name@;
            before.contains_key(m) && before[m].contains_key(a) ==> {
                let held = before[m][a];
                let kept = after[m][a];
                &&& held.performance@.dom().subset_of(kept.performance@.dom())
                &&& held.weights@.dom().subset_of(kept.weights@.dom())
                &&& held.ownership_costs@.dom().subset_of(kept.ownership_costs@.dom())
                &&& held.engine@.dom().subset_of(kept.engine@.dom())
                &&& newer_reading_wins(held, item, kept)
            }
        }),
        !(before.contains_key(item.manufacturer_name@) && before[item.manufacturer_name@].contains_key(
            item.aircraft_name@,
        )) ==> after[item.manufacturer_name@][item.aircraft_name@] == item,
        forall|m: Seq<char>, a: Seq<char>|
            before.contains_key(m) && before[m].contains_key(a) && !(m == item.manufacturer_name@ && a
                == item.aircraft_name@) ==> after.contains_key(m) && after[m].contains_key(a)
                && #[trigger] after[m][a] == before[m][a],
{
    let m = item.manufacturer_name@;
    let a = item.aircraft_name@;
    let inner = inner_of(before, m);
    let kept = choose|kept: PlaneItem| {
        &&& after == before.insert(m, inner.insert(a, kept))
        &&& if inner.contains_key(a) {
            merged_record(inner[a], item, kept)
        } else {
            kept == item
        }
    };
    assert(after[m][a] == kept);
    if before.contains_key(m) && before[m].contains_key(a) {
        lemma_merge_never_subtracts(before[m][a], item, kept);
        lemma_newer_readings_win(before[m][a], item, kept);
    }
}

/// `incoming` when it holds a value, else `stored`.
pub open spec fn newer_or_kept(incoming: Option<String>, stored: Option<String>) -> Option<String> {
    match incoming {
        Some(v) => Some(v),
        None => stored,
    }
}

/// The record that replaces `stored` when `incoming` is scraped for the same
/// aircraft: the incoming identity, each text the incoming one or, where it has
/// none, the stored one; each section the keyed union in which the incoming
/// values win; the incoming images unless there are none.
pub open spec fn merged_record(stored: PlaneItem, incoming: PlaneItem, r: PlaneItem) -> bool {
    &&& r.manufacturer_name == incoming.manufacturer_name
    &&& r.aircraft_name == incoming.aircraft_name
    &&& r.source_link == incoming.source_link
    &&& r.page_url == incoming.page_url
    &&& r.title == newer_or_kept(incoming.title, stored.title)
    &&& r.description == newer_or_kept(incoming.description, stored.description)
    &&& r.papi_price_estimate == newer_or_kept(incoming.papi_price_estimate, stored.papi_price_estimate)
    &&& r.for_sale_count == newer_or_kept(incoming.for_sale_count, stored.for_sale_count)
    &&& r.performance@ == stored.performance@.union_prefer_right(incoming.performance@)
    &&& r.weights@ == stored.weights@.union_prefer_right(incoming.weights@)
    &&& r.ownership_costs@ == stored.ownership_costs@.union_prefer_right(incoming.ownership_costs@)
    &&& r.engine@ == stored.engine@.union_prefer_right(incoming.engine@)
    &&& r.images@ == (if incoming.images@.len() == 0 {
        stored.images@
    } else {
        incoming.images@
    })
}

/// Keeps whichever side actually has the value, field by field.
///
/// The incoming record wins wherever it says something, because it is the newer
/// reading; the stored record is consulted for every key the incoming one does
/// not mention. That makes a re-scrape monotonic -- it can add and correct,
/// never subtract -- which is the property a partial layout change would
/// otherwise break silently. The cost is that a measurement the source genuinely
/// withdraws stays until a reading overwrites it; against a source now
/// publishing strictly less, that is the trade worth taking.
pub fn merge_preferring_richer(stored: &PlaneItem, incoming: PlaneItem) -> (r: PlaneItem)
    ensures
        merged_record(*stored, incoming, r),
        newer_reading_wins(*stored, incoming, r),
{
    let title = match incoming.title {
        Some(v) => Some(v),
        None => copy_optional(&stored.title),
    };
    let description = match incoming.description {
        Some(v) => Some(v),
        None => copy_optional(&stored.description),
    };
    let papi_price_estimate = match incoming.papi_price_estimate {
        Some(v) => Some(v),
        None => copy_optional(&stored.papi_price_estimate),
    };
    let for_sale_count = match incoming.for_sale_count {
        Some(v) => Some(v),
        None => copy_optional(&stored.for_sale_count),
    };
    let images = if incoming.images.len() == 0 {
        copy_images(&stored.images)
    } else {
        incoming.images
    };
    let r = PlaneItem {
        manufacturer_name: incoming.manufacturer_name,
        aircraft_name: incoming.aircraft_name,
        source_link: incoming.source_link,
        page_url: incoming.page_url,
        title,
        description,
        papi_price_estimate,
        for_sale_count,
        performance: stored.performance.union_preferring(incoming.performance),
        weights: stored.weights.union_preferring(incoming.weights),
        ownership_costs: stored.ownership_costs.union_preferring(incoming.ownership_costs),
        engine: stored.engine.union_preferring(incoming.engine),
        images,
    };
    proof {
        lemma_newer_readings_win(*stored, incoming, r);
    }
    r
}

/// `merged` holds every key of `stored` and of `incoming` and no other, with
/// the incoming value wherever `incoming` has the key and the stored value
/// elsewhere.
pub open spec fn overlays(
    stored: Map<Seq<char>, String>,
    incoming: Map<Seq<char>, String>,
    merged: Map<Seq<char>, String>,
) -> bool {
    &&& forall|k: Seq<char>| #[trigger] merged.contains_key(k) <==> stored.contains_key(k) || incoming.contains_key(k)
    &&& forall|k: Seq<char>| incoming.contains_key(k) ==> #[trigger] merged[k] == incoming[k]
    &&& forall|k: Seq<char>| stored.contains_key(k) && !incoming.contains_key(k) ==> #[trigger] merged[k] == stored[k]
}

/// `r` is `stored` brought up to date by the newer reading `incoming`: each
/// text the incoming record has is taken as it is and each it lacks is kept;
/// each section has every key of both, with the incoming value where the
/// incoming section has the key; the incoming pictures replace the stored
/// ones unless there are none; and the names and links are the incoming ones.
pub open spec fn newer_reading_wins(stored: PlaneItem, incoming: PlaneItem, r: PlaneItem) -> bool {
    &&& incoming.title is Some ==> r.title == incoming.title
    &&& incoming.title is None ==> r.title == stored.title
    &&& incoming.description is Some ==> r.description == incoming.description
    &&& incoming.description is None ==> r.description == stored.description
    &&& incoming.papi_price_estimate is Some ==> r.papi_price_estimate == incoming.papi_price_estimate
    &&& incoming.papi_price_estimate is None ==> r.papi_price_estimate == stored.papi_price_estimate
    &&& incoming.for_sale_count is Some ==> r.for_sale_count == incoming.for_sale_count
    &&& incoming.for_sale_count is None ==> r.for_sale_count == stored.for_sale_count
    &&& overlays(stored.performance@, incoming.performance@, r.performance@)
    &&& overlays(stored.weights@, incoming.weights@, r.weights@)
    &&& overlays(stored.ownership_costs@, incoming.ownership_costs@, r.ownership_costs@)
    &&& overlays(stored.engine@, incoming.engine@, r.engine@)
    &&& incoming.images@.len() > 0 ==> r.images@ == incoming.images@
    &&& incoming.images@.len() == 0 ==> r.images@ == stored.images@
    &&& r.manufacturer_name == incoming.manufacturer_name
    &&& r.aircraft_name == incoming.aircraft_name
    &&& r.source_link == incoming.source_link
    &&& r.page_url == incoming.page_url
}

/// The newer reading wins wherever it says something, and the stored record
/// is kept wherever it does not: a merge takes a present incoming text as it
/// is, a missing one from the stored record, and every section key from
/// whichever side has it, the incoming side first.
pub proof fn lemma_newer_readings_win(stored: PlaneItem, incoming: PlaneItem, r: PlaneItem)
    requires
        merged_record(stored, incoming, r),
    ensures
        newer_reading_wins(stored, incoming, r),
{
}

/// A re-scrape never makes a record poorer: every key a stored section has is
/// still there after the merge, every key the incoming section has is there
/// with the incoming value, and a text the stored record had is still present.
pub proof fn lemma_merge_never_subtracts(stored: PlaneItem, incoming: PlaneItem, r: PlaneItem)
    requires
        merged_record(stored, incoming, r),
    ensures
        stored.performance@.dom().subset_of(r.performance@.dom()),
        stored.weights@.dom().subset_of(r.weights@.dom()),
        stored.ownership_costs@.dom().subset_of(r.ownership_costs@.dom()),
        stored.engine@.dom().subset_of(r.engine@.dom()),
        forall|k: Seq<char>| #[trigger] incoming.performance@.contains_key(k) ==> r.performance@[k] == incoming.performance@[k],
        forall|k: Seq<char>| #[trigger] incoming.weights@.contains_key(k) ==> r.weights@[k] == incoming.weights@[k],
        forall|k: Seq<char>| #[trigger] incoming.ownership_costs@.contains_key(k) ==> r.ownership_costs@[k] == incoming.ownership_costs@[k],
        forall|k: Seq<char>| #[trigger] incoming.engine@.contains_key(k) ==> r.engine@[k] == incoming.engine@[k],
        stored.title is Some ==> r.title is Some,
        stored.description is Some ==> r.description is Some,
        stored.papi_price_estimate is Some ==> r.papi_price_estimate is Some,
        stored.for_sale_count is Some ==> r.for_sale_count is Some,
        stored.images@.len() > 0 ==> r.images@.len() > 0,
{
}

/// Merging the same reading twice changes nothing the first merge did not.
pub proof fn lemma_merge_is_idempotent(
    stored: PlaneItem,
    incoming: PlaneItem,
    once: PlaneItem,
    twice: PlaneItem,
)
    requires
        merged_record(stored, incoming, once),
        merged_record(once, incoming, twice),
    ensures
        twice.title == once.title,
        twice.description == once.description,
        twice.papi_price_estimate == once.papi_price_estimate,
        twice.for_sale_count == once.for_sale_count,
        twice.performance@ == once.performance@,
        twice.weights@ == once.weights@,
        twice.ownership_costs@ == once.ownership_costs@,
        twice.engine@ == once.engine@,
        twice.images@ == once.images@,
{
    assert(twice.performance@ =~= once.performance@);
    assert(twice.weights@ =~= once.weights@);
    assert(twice.ownership_costs@ =~= once.ownership_costs@);
    assert(twice.engine@ =~= once.engine@);
}

/// The name of the file a store is first written to, beside its own, before
/// it is renamed into place: the file's name (`output.json` when it has none
/// that is text), the process id and a timestamp, so concurrent writers never
/// share one.
pub open spec fn temporary_name(file_name: Option<Seq<char>>, process_id: u32, timestamp: u128) -> Seq<char> {
    let name = match file_name {
        Some(n) => n,
        None => "output.json"@,
    };
    name + "."@ + decimal(process_id as nat) + "."@ + decimal(timestamp as nat) + ".tmp"@
}

/// Names the temporary file a store is written to before it replaces the
/// store's file.
pub fn temporary_file_name(file_name: Option<&str>, process_id: u32, timestamp: u128) -> (r: String)
    ensures
        r@ == temporary_name(
            match file_name {
                Some(n) => Some(n@),
                None => None,
            },
            process_id,
            timestamp,
        ),
{
    let mut r = match file_name {
        Some(n) => n.to_owned(),
        None => "output.json".to_owned(),
    };
    append_text(&mut r, ".");
    push_decimal(&mut r, process_id as u128);
    append_text(&mut r, ".");
    push_decimal(&mut r, timestamp);
    append_text(&mut r, ".tmp");
    r
}

/// The manufacturers file: where it lives and what it holds.
pub struct ManufacturerStore {
    path: PathBuf,
    manufacturers: ManufacturerMap,
}

impl ManufacturerStore {
    /// Where the store is written.
    pub closed spec fn location(&self) -> PathBuf {
        self.path
    }

    /// Manufacturer name to the path of its page.
    pub closed spec fn contents(&self) -> Map<Seq<char>, String> {
        self.manufacturers@
    }

    /// The store of the file `path`, holding what was read from it.
    pub fn with_contents(path: PathBuf, manufacturers: ManufacturerMap) -> (r: Self)
        ensures
            r.location() == path,
            r.contents() == manufacturers@,
    {
        ManufacturerStore { path, manufacturers }
    }

    /// Records a manufacturer and the path of its page.
    pub fn insert(&mut self, name: String, link: String)
        ensures
            final(self).location() == old(self).location(),
            final(self).contents() == old(self).contents().insert(name@, link),
    {
        insert_manufacturer(&mut self.manufacturers, name, link);
    }

    /// Records manufacturers and the paths of their pages, later entries
    /// winning.
    pub fn insert_many(&mut self, entries: &Vec<(String, String)>)
        ensures
            final(self).location() == old(self).location(),
            final(self).contents() == with_pairs(old(self).contents(), entries@),
    {
        insert_manufacturers(&mut self.manufacturers, entries);
    }

    /// Where the store is written.
    pub fn path(&self) -> (r: &PathBuf)
        ensures
            *r == self.location(),
    {
        &self.path
    }

    /// What the store holds.
    pub fn records(&self) -> (r: &ManufacturerMap)
        ensures
            r@ == self.contents(),
    {
        &self.manufacturers
    }
}

/// The aircraft file: where it lives and what it holds.
pub struct AircraftStore {
    path: PathBuf,
    aircraft_by_manufacturer: AircraftByManufacturerMap,
}

impl AircraftStore {
    /// Where the store is written.
    pub closed spec fn location(&self) -> PathBuf {
        self.path
    }

    /// Manufacturer name to aircraft name to the path of its detail page.
    pub closed spec fn contents(&self) -> Map<Seq<char>, Map<Seq<char>, String>> {
        nested(self.aircraft_by_manufacturer@)
    }

    /// The store of the file `path`, holding what was read from it.
    pub fn with_contents(path: PathBuf, aircraft_by_manufacturer: AircraftByManufacturerMap) -> (r: Self)
        ensures
            r.location() == path,
            r.contents() == nested(aircraft_by_manufacturer@),
    {
        AircraftStore { path, aircraft_by_manufacturer }
    }

    /// Records one aircraft of a manufacturer and the path of its detail page.
    pub fn insert(&mut self, manufacturer_name: String, aircraft_name: String, aircraft_link: String)
        ensures
            final(self).location() == old(self).location(),
            final(self).contents() == old(self).contents().insert(
                manufacturer_name@,
                inner_of(old(self).contents(), manufacturer_name@).insert(aircraft_name@, aircraft_link),
            ),
    {
        insert_aircraft(&mut self.aircraft_by_manufacturer, manufacturer_name, aircraft_name, aircraft_link);
    }

    /// Records aircraft of one manufacturer and the paths of their detail
    /// pages, later entries winning.
    pub fn insert_many(&mut self, manufacturer_name: String, aircraft: &Vec<(String, String)>)
        ensures
            final(self).location() == old(self).location(),
            final(self).contents() == old(self).contents().insert(
                manufacturer_name@,
                with_pairs(inner_of(old(self).contents(), manufacturer_name@), aircraft@),
            ),
    {
        insert_aircraft_many(&mut self.aircraft_by_manufacturer, manufacturer_name, aircraft);
    }

    /// Where the store is written.
    pub fn path(&self) -> (r: &PathBuf)
        ensures
            *r == self.location(),
    {
        &self.path
    }

    /// What the store holds.
    pub fn records(&self) -> (r: &AircraftByManufacturerMap)
        ensures
            nested(r@) == self.contents(),
    {
        &self.aircraft_by_manufacturer
    }
}

/// The planes file: where it lives and what it holds.
pub struct PlaneStore {
    path: PathBuf,
    planes_by_manufacturer: PlaneByManufacturerMap,
}

impl PlaneStore {
    /// Where the store is written.
    pub closed spec fn location(&self) -> PathBuf {
        self.path
    }

    /// Manufacturer name to aircraft name to its record.
    pub closed spec fn contents(&self) -> Map<Seq<char>, Map<Seq<char>, PlaneItem>> {
        nested(self.planes_by_manufacturer@)
    }

    /// The store of the file `path`, holding what was read from it.
    pub fn with_contents(path: PathBuf, planes_by_manufacturer: PlaneByManufacturerMap) -> (r: Self)
        ensures
            r.location() == path,
            r.contents() == nested(planes_by_manufacturer@),
    {
        PlaneStore { path, planes_by_manufacturer }
    }

    /// Stores a scraped record without ever making the stored one poorer:
    /// a record for an aircraft already held is merged into it by
    /// [`merge_preferring_richer`].
    pub fn insert(&mut self, item: PlaneItem)
        ensures
            final(self).location() == old(self).location(),
            plane_stored(old(self).contents(), final(self).contents(), item),
    {
        insert_plane(&mut self.planes_by_manufacturer, item);
    }

    /// Stores records as they are, each replacing any stored one for the
    /// same aircraft.
    pub fn insert_many(&mut self, items: Vec<PlaneItem>)
        ensures
            final(self).location() == old(self).location(),
            final(self).contents() == with_records(old(self).contents(), items@),
    {
        insert_planes(&mut self.planes_by_manufacturer, items);
    }

    /// Where the store is written.
    pub fn path(&self) -> (r: &PathBuf)
        ensures
            *r == self.location(),
    {
        &self.path
    }

    /// What the store holds.
    pub fn records(&self) -> (r: &PlaneByManufacturerMap)
        ensures
            nested(r@) == self.contents(),
    {
        &self.planes_by_manufacturer
    }
}

} // verus!
