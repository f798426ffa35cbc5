//! The aircraft detail pages: which to queue, and the record each yields.
use vstd::prelude::*;

use crate::error::{Error, ErrorView};
use crate::html::optional_view;
use crate::io::{AircraftByManufacturerMap, PlaneByManufacturerMap};
use crate::spiders::plane_page::{
    first_element_text, image_views, layout_error, page_images, page_mentions, page_price_estimate,
    page_sections, DESCRIPTION_CSS, FOR_SALE_CSS, TITLE_CSS,
};
pub use crate::spiders::plane_page::{
    first_text, parse_definition_list, parse_detail_sections, parse_images, parse_new_layout,
    parse_papi_price_estimate, read_sections, verify_page_is_for, verify_section_order,
    DetailSections,
};
pub use crate::spiders::absolute_url;
pub use crate::text::{clean_text, extract_first_money_value, normalize_label};
use crate::spiders::absolute;
use crate::text::{concat_texts, texts};
use crate::text_map::{key_order, text_values, TextMap};

verus! {

/// One listing of an aircraft: the manufacturer it is listed under, its name,
/// and the link to its detail page.
#[derive(Debug, Clone)]
pub struct AircraftSource {
    pub manufacturer_name: String,
    pub aircraft_name: String,
    pub source_link: String,
}

impl AircraftSource {
    /// A listing.
    pub fn new(manufacturer_name: String, aircraft_name: String, source_link: String) -> (r: Self)
        ensures
            r.manufacturer_name == manufacturer_name,
            r.aircraft_name == aircraft_name,
            r.source_link == source_link,
    {
        AircraftSource { manufacturer_name, aircraft_name, source_link }
    }
}

/// A listing as texts: manufacturer, aircraft, link.
pub type Listing = (Seq<char>, Seq<char>, Seq<char>);

/// The texts of a listing.
pub open spec fn listing_of(s: AircraftSource) -> Listing {
    (s.manufacturer_name@, s.aircraft_name@, s.source_link@)
}

/// The texts of a list of listings.
pub open spec fn listings_of(v: Seq<AircraftSource>) -> Seq<Listing> {
    v.map_values(|s: AircraftSource| listing_of(s))
}

/// The listings of one manufacturer, in ascending aircraft order.
pub open spec fn manufacturer_listings(manufacturer: Seq<char>, aircraft: TextMap<String>) -> Seq<Listing> {
    Seq::new(
        aircraft.keys_seq().len(),
        |i: int| (manufacturer, aircraft.keys_seq()[i], aircraft.values_seq()[i]@),
    )
}

/// Every listing of an index of manufacturers (with their aircraft maps), in
/// ascending manufacturer order and then ascending aircraft order.
pub open spec fn all_listings(manufacturers: Seq<Seq<char>>, aircraft: Seq<TextMap<String>>) -> Seq<
    Listing,
>
    decreases manufacturers.len(),
{
    if manufacturers.len() == 0 || aircraft.len() == 0 {
        Seq::empty()
    } else {
        all_listings(manufacturers.drop_last(), aircraft.drop_last()) + manufacturer_listings(
            manufacturers.last(),
            aircraft.last(),
        )
    }
}

/// The listings of an index of manufacturers.
pub open spec fn index_listings(index: AircraftByManufacturerMap) -> Seq<Listing> {
    all_listings(index.keys_seq(), index.values_seq())
}

/// The listings grouped by the absolute URL of the page they share, each group
/// in the order the listings come.
pub open spec fn grouped(ls: Seq<Listing>) -> Map<Seq<char>, Seq<Listing>>
    decreases ls.len(),
{
    if ls.len() == 0 {
        Map::empty()
    } else {
        let g = grouped(ls.drop_last());
        let l = ls.last();
        let url = absolute(l.2);
        g.insert(
            url,
            (if g.contains_key(url) {
                g[url]
            } else {
                Seq::empty()
            }).push(l),
        )
    }
}

/// A map of listing lists as texts.
pub open spec fn group_views(m: Map<Seq<char>, Vec<AircraftSource>>) -> Map<Seq<char>, Seq<Listing>> {
    m.map_values(|v: Vec<AircraftSource>| listings_of(v@))
}

/// No listing is lost when listings are grouped by page, and none is filed
/// under a page other than its own.
pub proof fn lemma_grouping_keeps_every_listing(ls: Seq<Listing>)
    ensures
        forall|i: int|
            0 <= i < ls.len() ==> grouped(ls).contains_key(absolute(#[trigger] ls[i].2)) && grouped(
                ls,
            )[absolute(ls[i].2)].contains(ls[i]),
        forall|url: Seq<char>, l: Listing|
            grouped(ls).contains_key(url) && #[trigger] grouped(ls)[url].contains(l) ==> ls.contains(l)
                && absolute(l.2) == url,
    decreases ls.len(),
{
    if ls.len() > 0 {
        let init = ls.drop_last();
        lemma_grouping_keeps_every_listing(init);
        let g = grouped(init);
        let l = ls.last();
        let url = absolute(l.2);
        let old_group = if g.contains_key(url) {
            g[url]
        } else {
            Seq::empty()
        };
        assert(old_group.push(l)[old_group.len() as int] == l);
        assert forall|i: int| 0 <= i < ls.len() implies grouped(ls).contains_key(
            absolute(#[trigger] ls[i].2),
        ) && grouped(ls)[absolute(ls[i].2)].contains(ls[i]) by {
            if i < ls.len() - 1 {
                assert(init[i] == ls[i]);
                let u = absolute(ls[i].2);
                let k = choose|k: int| 0 <= k < g[u].len() && g[u][k] == ls[i];
                if u == url {
                    assert(old_group.push(l)[k] == ls[i]);
                } else {
                    assert(grouped(ls)[u] == g[u]);
                }
            } else {
                assert(ls[i] == l);
            }
        }
        assert forall|u: Seq<char>, x: Listing|
            grouped(ls).contains_key(u) && #[trigger] grouped(ls)[u].contains(x) implies ls.contains(
            x,
        ) && absolute(x.2) == u by {
            let k = choose|k: int| 0 <= k < grouped(ls)[u].len() && grouped(ls)[u][k] == x;
            if u == url && k == old_group.len() {
                assert(ls[ls.len() - 1] == x);
            } else {
                if u == url {
                    assert(old_group[k] == x);
                    assert(g[u].contains(x));
                } else {
                    assert(g[u][k] == x);
                    assert(g[u].contains(x));
                }
                let j = choose|j: int| 0 <= j < init.len() && init[j] == x;
                assert(ls[j] == x);
            }
        }
    }
}

/// The spider that reads each aircraft's detail page.
pub struct PlanesSpider {
    /// One URL to *many* listings, because a number of PlanePHD's detail URLs
    /// are listed under more than one manufacturer. With one listing per URL
    /// the second would silently overwrite the first, the page would be filed
    /// under one manufacturer, and the other aircraft would be absent from the
    /// output -- unrecoverably, since the surviving listing counts as scraped
    /// and the URL is never queued again.
    aircraft_by_url: TextMap<Vec<AircraftSource>>,
    /// Manufacturer to the aircraft already on record.
    already_scraped: TextMap<TextMap<()>>,
}

impl PlanesSpider {
    /// The listings of each detail page, keyed by its URL.
    pub closed spec fn sources_by_url(&self) -> Map<Seq<char>, Seq<Listing>> {
        group_views(self.aircraft_by_url@)
    }

    /// The detail page URLs, in ascending order.
    pub closed spec fn url_order(&self) -> Seq<Seq<char>> {
        self.aircraft_by_url.keys_seq()
    }

    /// Whether `aircraft` of `manufacturer` is already on record.
    pub closed spec fn scraped(&self, manufacturer: Seq<char>, aircraft: Seq<char>) -> bool {
        self.already_scraped@.contains_key(manufacturer) && self.already_scraped@[manufacturer]@.contains_key(
            aircraft,
        )
    }

    /// Some listing in `sources` is not on record yet.
    pub open spec fn owes_listing(&self, sources: Seq<Listing>) -> bool {
        exists|k: int| 0 <= k < sources.len() && !self.scraped(#[trigger] sources[k].0, sources[k].1)
    }

    /// The URLs of `urls` whose page still owes a listing, in order.
    pub open spec fn owing_urls(&self, urls: Seq<Seq<char>>) -> Seq<Seq<char>>
        decreases urls.len(),
    {
        if urls.len() == 0 {
            Seq::empty()
        } else {
            let before = self.owing_urls(urls.drop_last());
            if self.owes_listing(self.sources_by_url()[urls.last()]) {
                before.push(urls.last())
            } else {
                before
            }
        }
    }

    proof fn lemma_owing_urls_contains(&self, urls: Seq<Seq<char>>)
        ensures
            forall|u: Seq<char>|
                #[trigger] self.owing_urls(urls).contains(u) <==> urls.contains(u) && self.owes_listing(
                    self.sources_by_url()[u],
                ),
        decreases urls.len(),
    {
        if urls.len() > 0 {
            let init = urls.drop_last();
            let last = urls.last();
            self.lemma_owing_urls_contains(init);
            let before = self.owing_urls(init);
            assert forall|u: Seq<char>| #[trigger] self.owing_urls(urls).contains(u) <==> urls.contains(u)
                && self.owes_listing(self.sources_by_url()[u]) by {
                assert(before.contains(u) <==> init.contains(u) && self.owes_listing(self.sources_by_url()[u]));
                if urls.contains(u) {
                    let j = choose|j: int| 0 <= j < urls.len() && urls[j] == u;
                    if j < urls.len() - 1 {
                        assert(init[j] == u);
                    }
                }
                if init.contains(u) {
                    let j = choose|j: int| 0 <= j < init.len() && init[j] == u;
                    assert(urls[j] == u);
                }
                if u == last {
                    assert(urls[urls.len() - 1] == u);
                }
                if self.owes_listing(self.sources_by_url()[last]) {
                    let after = before.push(last);
                    if after.contains(u) {
                        let j = choose|j: int| 0 <= j < after.len() && after[j] == u;
                        if j < before.len() {
                            assert(before[j] == u);
                        }
                    }
                    if before.contains(u) {
                        let j = choose|j: int| 0 <= j < before.len() && before[j] == u;
                        assert(after[j] == u);
                    }
                    if u == last {
                        assert(after[before.len() as int] == u);
                    }
                }
            }
        }
    }

    /// A page is queued exactly when it is one of `urls` and some listing of
    /// it -- at any position among the page's listings -- is not on record.
    pub proof fn lemma_queued_iff_a_listing_is_missing(&self, urls: Seq<Seq<char>>)
        ensures
            forall|u: Seq<char>|
                #[trigger] self.owing_urls(urls).contains(u) <==> urls.contains(u) && exists|k: int|
                    0 <= k < self.sources_by_url()[u].len() && !self.scraped(
                        (#[trigger] self.sources_by_url()[u][k]).0,
                        self.sources_by_url()[u][k].1,
                    ),
    {
        self.lemma_owing_urls_contains(urls);
        assert forall|u: Seq<char>| #[trigger] self.owing_urls(urls).contains(u) <==> urls.contains(u)
            && exists|k: int|
            0 <= k < self.sources_by_url()[u].len() && !self.scraped(
                (#[trigger] self.sources_by_url()[u][k]).0,
                self.sources_by_url()[u][k].1,
            ) by {
            let srcs = self.sources_by_url()[u];
            if self.owes_listing(srcs) {
                let k = choose|k: int| 0 <= k < srcs.len() && !self.scraped(#[trigger] srcs[k].0, srcs[k].1);
                assert(!self.scraped(self.sources_by_url()[u][k].0, self.sources_by_url()[u][k].1));
            }
            if exists|k: int| 0 <= k < srcs.len() && !self.scraped((#[trigger] srcs[k]).0, srcs[k].1) {
                let k = choose|k: int| 0 <= k < srcs.len() && !self.scraped((#[trigger] srcs[k]).0, srcs[k].1);
                assert(!self.scraped(srcs[k].0, srcs[k].1));
            }
        }
    }

    /// A spider for the listings of `aircraft_by_manufacturer`, knowing which
    /// aircraft `existing_planes` already holds.
    pub fn new(
        aircraft_by_manufacturer: &AircraftByManufacturerMap,
        existing_planes: &PlaneByManufacturerMap,
    ) -> (r: Self)
        ensures
            r.sources_by_url() == grouped(index_listings(*aircraft_by_manufacturer)),
            r.url_order() == key_order(r.sources_by_url().dom()),
            forall|m: Seq<char>, a: Seq<char>|
                #[trigger] r.scraped(m, a) <==> (existing_planes@.contains_key(m)
                    && existing_planes@[m]@.contains_key(a)),
    {
        let aircraft_by_url = Self::group_by_url(aircraft_by_manufacturer);
        let mut already_scraped: TextMap<TextMap<()>> = TextMap::new();
        let ghost names = existing_planes.keys_seq();
        let ghost planes = existing_planes.values_seq();
        let n = existing_planes.len();
        proof {
            use_type_invariant(existing_planes);
            existing_planes.lemma_shape();
        }
        for i in 0..n
            invariant
                n == names.len(),
                names == existing_planes.keys_seq(),
                planes == existing_planes.values_seq(),
                names.len() == planes.len(),
                names.no_duplicates(),
                forall|k: int| 0 <= k < names.len() ==> #[trigger] existing_planes@[names[k]] == planes[k],
                forall|m: Seq<char>| #[trigger] already_scraped@.contains_key(m) <==> names.take(i as int).contains(m),
                forall|m: Seq<char>|
                    #[trigger] already_scraped@.contains_key(m) ==> already_scraped@[m]@.dom()
                        == existing_planes@[m]@.dom(),
        {
            let name = existing_planes.key_at(i).clone();
            let keys = existing_planes.value_at(i).key_set();
            already_scraped.insert(name, keys);
            proof {
                let prev = names.take(i as int);
                let next = names.take(i + 1);
                assert forall|m: Seq<char>| #[trigger] next.contains(m) <==> (prev.contains(m) || m
                    == names[i as int]) by {
                    if next.contains(m) {
                        let j = choose|j: int| 0 <= j < next.len() && next[j] == m;
                        if j < i {
                            assert(prev[j] == m);
                        }
                    }
                    if prev.contains(m) {
                        let j = choose|j: int| 0 <= j < prev.len() && prev[j] == m;
                        assert(next[j] == m);
                    }
                    if m == names[i as int] {
                        assert(next[i as int] == m);
                    }
                }
            }
        }
        let r = PlanesSpider { aircraft_by_url, already_scraped };
        proof {
            use_type_invariant(&r.aircraft_by_url);
            r.aircraft_by_url.lemma_keys_in_order();
            assert(r.sources_by_url().dom() =~= r.aircraft_by_url@.dom());
            assert(names.take(n as int) =~= names);
            existing_planes.lemma_shape();
            assert forall|m: Seq<char>, a: Seq<char>| #[trigger] r.scraped(m, a) <==> (existing_planes@.contains_key(m)
                && existing_planes@[m]@.contains_key(a)) by {
                if existing_planes@.contains_key(m) {
                    assert(names.to_set().contains(m));
                    assert(names.contains(m));
                    assert(r.already_scraped@.contains_key(m));
                }
                if r.already_scraped@.contains_key(m) {
                    assert(names.contains(m));
                    assert(names.to_set().contains(m));
                }
            }
        }
        r
    }

    /// Whether `aircraft` of `manufacturer` is already on record.
    pub fn is_scraped(&self, manufacturer: &str, aircraft: &str) -> (r: bool)
        ensures
            r == self.scraped(manufacturer@, aircraft@),
    {
        match self.already_scraped.get(manufacturer) {
            Some(planes) => planes.contains_key(aircraft),
            None => false,
        }
    }

    /// The listings of the detail page `url`.
    pub fn sources_for_url(&self, url: &str) -> (r: Result<&Vec<AircraftSource>, Error>)
        ensures
            match r {
                Ok(sources) => self.sources_by_url().contains_key(url@) && listings_of(sources@)
                    == self.sources_by_url()[url@],
                Err(e) => !self.sources_by_url().contains_key(url@) && e@ == ErrorView::Internal(
                    "unknown aircraft detail URL: "@ + url@,
                ),
            },
    {
        match self.aircraft_by_url.get(url) {
            Some(sources) => Ok(sources),
            None => Err(Error::Internal(concat_texts("unknown aircraft detail URL: ", url))),
        }
    }

    /// The spider's name.
    pub fn name(&self) -> (r: String)
        ensures
            r@ == "PlanesSpider"@,
    {
        "PlanesSpider".to_owned()
    }

    /// The detail pages to fetch, in ascending URL order: every page one of
    /// whose listings is not on record yet. Any missing listing is enough to
    /// queue the page; looking at one listing only would leave a shared page
    /// unqueued as soon as one of its manufacturers had been scraped.
    pub fn start_urls(&self) -> (r: Vec<String>)
        ensures
            texts(r@) == self.owing_urls(self.url_order()),
            forall|u: Seq<char>|
                #[trigger] texts(r@).contains(u) <==> self.sources_by_url().contains_key(u) && exists|k: int|
                    0 <= k < self.sources_by_url()[u].len() && !self.scraped(
                        (#[trigger] self.sources_by_url()[u][k]).0,
                        self.sources_by_url()[u][k].1,
                    ),
    {
        let ghost urls = self.url_order();
        let n = self.aircraft_by_url.len();
        let mut out: Vec<String> = Vec::new();
        proof {
            use_type_invariant(&self.aircraft_by_url);
            self.aircraft_by_url.lemma_shape();
            assert forall|k: int| 0 <= k < urls.len() implies self.aircraft_by_url@.contains_key(
                #[trigger] urls[k],
            ) by {
                assert(urls.to_set().contains(urls[k]));
            }
            assert(texts(out@) =~= self.owing_urls(urls.take(0)));
        }
        for i in 0..n
            invariant
                n == urls.len(),
                urls == self.url_order(),
                urls == self.aircraft_by_url.keys_seq(),
                urls.len() == self.aircraft_by_url.values_seq().len(),
                forall|k: int|
                    0 <= k < urls.len() ==> #[trigger] self.aircraft_by_url@[urls[k]]
                        == self.aircraft_by_url.values_seq()[k],
                forall|k: int|
                    0 <= k < urls.len() ==> self.aircraft_by_url@.contains_key(#[trigger] urls[k]),
                texts(out@) == self.owing_urls(urls.take(i as int)),
        {
            let sources = self.aircraft_by_url.value_at(i);
            let ghost views = listings_of(sources@);
            let mut owes = false;
            let mut k: usize = 0;
            while k < sources.len()
                invariant
                    0 <= k <= sources.len(),
                    views == listings_of(sources@),
                    owes == (exists|q: int| 0 <= q < k && !self.scraped(#[trigger] views[q].0, views[q].1)),
                decreases sources.len() - k,
            {
                let source = &sources[k];
                if !self.is_scraped(source.manufacturer_name.as_str(), source.aircraft_name.as_str()) {
                    owes = true;
                    assert(!self.scraped(views[k as int].0, views[k as int].1));
                }
                k = k + 1;
            }
            proof {
                assert(self.sources_by_url()[urls[i as int]] == views);
                assert(urls.take(i + 1).drop_last() =~= urls.take(i as int));
                assert(owes == self.owes_listing(views));
            }
            if owes {
                let ghost before = out@;
                out.push(self.aircraft_by_url.key_at(i).clone());
                proof {
                    assert(texts(out@) =~= texts(before).push(urls[i as int]));
                }
            }
        }
        proof {
            assert(urls.take(n as int) =~= urls);
        }
        proof {
            self.lemma_queued_iff_a_listing_is_missing(urls);
            assert(self.sources_by_url().dom() =~= self.aircraft_by_url@.dom());
            assert forall|u: Seq<char>| urls.contains(u) <==> self.sources_by_url().contains_key(u) by {
                if urls.contains(u) {
                    assert(urls.to_set().contains(u));
                }
                if self.sources_by_url().contains_key(u) {
                    assert(urls.to_set().contains(u));
                }
            }
        }
        out
    }

    /// The listings of `aircraft_by_manufacturer` grouped by the page they share,
    /// instead of letting the last listing of a page win.
    pub fn group_by_url(aircraft_by_manufacturer: &AircraftByManufacturerMap) -> (r: TextMap<
        Vec<AircraftSource>,
    >)
        ensures
            group_views(r@) == grouped(index_listings(*aircraft_by_manufacturer)),
    {
        let mut by_url: TextMap<Vec<AircraftSource>> = TextMap::new();
        let ghost names = aircraft_by_manufacturer.keys_seq();
        let ghost inner = aircraft_by_manufacturer.values_seq();
        let n = aircraft_by_manufacturer.len();
        proof {
            use_type_invariant(aircraft_by_manufacturer);
            aircraft_by_manufacturer.lemma_shape();
            assert(group_views(by_url@) =~= grouped(all_listings(names.take(0), inner.take(0))));
        }
        for i in 0..n
            invariant
                n == names.len(),
                names == aircraft_by_manufacturer.keys_seq(),
                inner == aircraft_by_manufacturer.values_seq(),
                names.len() == inner.len(),
                group_views(by_url@) == grouped(all_listings(names.take(i as int), inner.take(i as int))),
        {
            let manufacturer = aircraft_by_manufacturer.key_at(i);
            let aircraft = aircraft_by_manufacturer.value_at(i);
            let ghost before = all_listings(names.take(i as int), inner.take(i as int));
            let ghost mine = manufacturer_listings(names[i as int], inner[i as int]);
            proof {
                assert(before + mine.take(0) =~= before);
            }
            let m = aircraft.len();
            for j in 0..m
                invariant
                    m == aircraft.keys_seq().len(),
                    *aircraft == inner[i as int],
                    manufacturer@ == names[i as int],
                    mine == manufacturer_listings(names[i as int], inner[i as int]),
                    group_views(by_url@) == grouped(before + mine.take(j as int)),
            {
                let name = aircraft.key_at(j).clone();
                let link = aircraft.value_at(j).clone();
                let url = absolute_url(link.as_str());
                let ghost listed = before + mine.take(j as int);
                let ghost prior = by_url@;
                let mut sources = match by_url.remove(url.as_str()) {
                    Some(v) => v,
                    None => Vec::new(),
                };
                let ghost prior_sources = sources@;
                let source = AircraftSource { manufacturer_name: manufacturer.clone(), aircraft_name: name, source_link: link };
                sources.push(source);
                let ghost new_sources = sources;
                by_url.insert(url, sources);
                proof {
                    let g = grouped(listed);
                    assert(g == group_views(prior));
                    assert(mine[j as int] == listing_of(source));
                    assert(url@ == absolute(listing_of(source).2));
                    assert((before + mine.take(j + 1)).drop_last() =~= listed);
                    assert((before + mine.take(j + 1)).last() == listing_of(source));
                    assert(g.contains_key(url@) == prior.contains_key(url@));
                    assert(listings_of(prior_sources) == (if g.contains_key(url@) {
                        g[url@]
                    } else {
                        Seq::empty()
                    }));
                    assert(listings_of(new_sources@) =~= listings_of(prior_sources).push(listing_of(source)));
                    assert(by_url@ == prior.remove(url@).insert(url@, new_sources));
                    assert(group_views(by_url@) =~= g.insert(url@, listings_of(new_sources@)));
                    assert(group_views(by_url@) =~= grouped(before + mine.take(j + 1)));
                }
            }
            proof {
                assert(mine.take(m as int) =~= mine);
                assert(names.take(i + 1).drop_last() =~= names.take(i as int));
                assert(inner.take(i + 1).drop_last() =~= inner.take(i as int));
            }
        }
        proof {
            assert(names.take(n as int) =~= names);
            assert(inner.take(n as int) =~= inner);
        }
        by_url
    }

    /// What reading the page `html` fetched from `url` fails with, if it
    /// fails: an unknown URL, a specification that cannot be read, or a
    /// listing whose manufacturer the page does not name.
    pub open spec fn scrape_error(&self, url: Seq<char>, html: Seq<char>) -> Option<ErrorView> {
        if !self.sources_by_url().contains_key(url) {
            Some(ErrorView::Internal("unknown aircraft detail URL: "@ + url))
        } else if layout_error(html, url) is Some {
            layout_error(html, url)
        } else {
            mention_error(html, url, self.sources_by_url()[url])
        }
    }

    /// Reads the detail page `html` fetched from `url` into one record per
    /// listing of it, not one per page: a page reachable from two
    /// manufacturers' indexes is two catalogue entries carrying the same
    /// specification.
    ///
    /// The legacy layout is tried first, so a page still serving it keeps its
    /// ownership costs; the `/research/<slug>` layout publishes performance,
    /// weights and engine but keeps the cost breakdown behind a sign-in.
    pub fn scrape_page(&self, url: &str, html: &str) -> (r: Result<Vec<PlaneItem>, Error>)
        ensures
            match r {
                Ok(items) => self.scrape_error(url@, html@) is None && items@.len()
                    == self.sources_by_url()[url@].len() && forall|i: int|
                    0 <= i < items@.len() ==> describes(
                        #[trigger] items@[i],
                        self.sources_by_url()[url@][i],
                        url@,
                        html@,
                    ),
                Err(e) => self.scrape_error(url@, html@) == Some(e@),
            },
    {
        let sources = match self.sources_for_url(url) {
            Ok(sources) => sources,
            Err(e) => {
                return Err(e);
            },
        };
        let ghost listings = listings_of(sources@);
        let (performance, weights, ownership_costs, engine) = match read_sections(html, url) {
            Ok(s) => s,
            Err(e) => {
                return Err(e);
            },
        };
        let mut k: usize = 0;
        proof {
            assert(listings.subrange(0, listings.len() as int) =~= listings);
        }
        while k < sources.len()
            invariant
                0 <= k <= sources.len(),
                listings == listings_of(sources@),
                self.sources_by_url().contains_key(url@),
                listings == self.sources_by_url()[url@],
                layout_error(html@, url@) is None,
                mention_error(html@, url@, listings) == mention_error(
                    html@,
                    url@,
                    listings.subrange(k as int, listings.len() as int),
                ),
            decreases sources.len() - k,
        {
            let source = &sources[k];
            proof {
                let rest = listings.subrange(k as int, listings.len() as int);
                assert(rest[0] == listing_of(sources@[k as int]));
                assert(rest.drop_first() =~= listings.subrange(k + 1, listings.len() as int));
            }
            match verify_page_is_for(html, source, url) {
                Ok(()) => {},
                Err(e) => {
                    return Err(e);
                },
            }
            k = k + 1;
        }
        proof {
            assert(listings.subrange(listings.len() as int, listings.len() as int).len() == 0);
        }
        let images = parse_images(html);
        let title = first_text(html, TITLE_CSS);
        let description = first_text(html, DESCRIPTION_CSS);
        let papi_price_estimate = parse_papi_price_estimate(html);
        let for_sale_count = first_text(html, FOR_SALE_CSS);
        let mut items: Vec<PlaneItem> = Vec::new();
        for i in 0..sources.len()
            invariant
                listings == listings_of(sources@),
                items@.len() == i,
                text_values(performance@) == page_sections(html@).0,
                text_values(weights@) == page_sections(html@).1,
                text_values(ownership_costs@) == page_sections(html@).2,
                text_values(engine@) == page_sections(html@).3,
                image_views(images@) == page_images(html@),
                optional_view(title) == first_element_text(html@, TITLE_CSS@),
                optional_view(description) == first_element_text(html@, DESCRIPTION_CSS@),
                optional_view(papi_price_estimate) == page_price_estimate(html@),
                optional_view(for_sale_count) == first_element_text(html@, FOR_SALE_CSS@),
                forall|j: int|
                    0 <= j < i ==> describes(#[trigger] items@[j], listings[j], url@, html@),
        {
            let source = &sources[i];
            let item = PlaneItem {
                manufacturer_name: source.manufacturer_name.clone(),
                aircraft_name: source.aircraft_name.clone(),
                source_link: source.source_link.clone(),
                page_url: url.to_owned(),
                title: copy_optional(&title),
                description: copy_optional(&description),
                papi_price_estimate: copy_optional(&papi_price_estimate),
                for_sale_count: copy_optional(&for_sale_count),
                performance: performance.copy(),
                weights: weights.copy(),
                ownership_costs: ownership_costs.copy(),
                engine: engine.copy(),
                images: copy_images(&images),
            };
            items.push(item);
        }
        Ok(items)
    }

    /// The detail pages and their listings, for reporting.
    pub fn aircraft_by_url(&self) -> (r: &TextMap<Vec<AircraftSource>>)
        ensures
            group_views(r@) == self.sources_by_url(),
            r.keys_seq() == self.url_order(),
    {
        &self.aircraft_by_url
    }

    /// The aircraft already on record, by manufacturer, for reporting.
    pub fn already_scraped(&self) -> (r: &TextMap<TextMap<()>>)
        ensures
            forall|m: Seq<char>, a: Seq<char>|
                self.scraped(m, a) <==> r@.contains_key(m) && r@[m]@.contains_key(a),
    {
        &self.already_scraped
    }
}

/// Whether the page names the manufacturer of each of `sources`; else the
/// error for the first that it does not name.
pub open spec fn mention_error(html: Seq<char>, url: Seq<char>, sources: Seq<Listing>) -> Option<
    ErrorView,
>
    decreases sources.len(),
{
    if sources.len() == 0 {
        None
    } else if !page_mentions(html, sources[0].0) {
        Some(
            ErrorView::Internal(
                "page does not mention "@ + sources[0].0
                    + ", so the redirect resolved to a different aircraft: "@ + url,
            ),
        )
    } else {
        mention_error(html, url, sources.drop_first())
    }
}

/// `item` is the record of `listing` read from the page `html` at `url`.
pub open spec fn describes(item: PlaneItem, listing: Listing, url: Seq<char>, html: Seq<char>) -> bool {
    &&& item.manufacturer_name@ == listing.0
    &&& item.aircraft_name@ == listing.1
    &&& item.source_link@ == listing.2
    &&& item.page_url@ == url
    &&& optional_view(item.title) == first_element_text(html, TITLE_CSS@)
    &&& optional_view(item.description) == first_element_text(html, DESCRIPTION_CSS@)
    &&& optional_view(item.papi_price_estimate) == page_price_estimate(html)
    &&& optional_view(item.for_sale_count) == first_element_text(html, FOR_SALE_CSS@)
    &&& text_values(item.performance@) == page_sections(html).0
    &&& text_values(item.weights@) == page_sections(html).1
    &&& text_values(item.ownership_costs@) == page_sections(html).2
    &&& text_values(item.engine@) == page_sections(html).3
    &&& image_views(item.images@) == page_images(html)
}

/// A picture in a detail page's gallery.
#[derive(Debug, Clone)]
pub struct PlaneImage {
    pub href: String,
    pub title: Option<String>,
    pub holder: Option<String>,
    pub dimensions: Option<String>,
}

/// A copy of an optional text.
pub fn copy_optional(value: &Option<String>) -> (r: Option<String>)
    ensures
        r == *value,
{
    match value {
        Some(v) => Some(v.clone()),
        None => None,
    }
}

impl PlaneImage {
    /// A copy of the image.
    pub fn copy(&self) -> (r: Self)
        ensures
            r == *self,
    {
        PlaneImage {
            href: self.href.clone(),
            title: copy_optional(&self.title),
            holder: copy_optional(&self.holder),
            dimensions: copy_optional(&self.dimensions),
        }
    }
}

/// A copy of a list of images.
pub fn copy_images(images: &Vec<PlaneImage>) -> (r: Vec<PlaneImage>)
    ensures
        r@ == images@,
{
    let mut out: Vec<PlaneImage> = Vec::new();
    for i in 0..images.len()
        invariant
            out@ == images@.take(i as int),
    {
        out.push(images[i].copy());
        assert(out@ =~= images@.take(i + 1));
    }
    assert(images@.take(images.len() as int) =~= images@);
    out
}

/// Everything read from one aircraft's detail page, for one listing of it.
#[derive(Debug, Clone)]
pub struct PlaneItem {
    pub manufacturer_name: String,
    pub aircraft_name: String,
    pub source_link: String,
    pub page_url: String,
    pub title: Option<String>,
    pub description: Option<String>,
    pub papi_price_estimate: Option<String>,
    pub for_sale_count: Option<String>,
    pub performance: TextMap<String>,
    pub weights: TextMap<String>,
    pub ownership_costs: TextMap<String>,
    pub engine: TextMap<String>,
    pub images: Vec<PlaneImage>,
}

} // verus!
