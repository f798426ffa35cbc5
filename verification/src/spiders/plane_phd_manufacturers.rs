//! The manufacturer index: each manufacturer's name and the path of its page.
use vstd::prelude::*;

use crate::html::{class_links, find_class_links, link_nodes};
use crate::spiders::{names_a_link, named_linked_nodes};
use crate::text::{lemma_trim_keeps_the_middle, strip_both, strip_chars, string_of, trimmed_from, TrimSet};
use crate::text_map::text_chars;

verus! {

/// The page that lists every manufacturer.
pub const MANUFACTURERS_URL: &'static str = "https://planephd.com/wizard/manufacturers/";

/// The class of the index's cards.
pub const MANUFACTURER_CARD_CLASS: &'static str = "pp-card";

/// The class of a manufacturer's link inside a card.
pub const MANUFACTURER_LINK_CLASS: &'static str = "list-group-item";

/// The spider that reads the manufacturer index.
pub struct ManufacturersSpider;

/// A manufacturer and the path of its page.
#[derive(Debug, Clone)]
pub struct ManufacturerItem {
    name: String,
    link: String,
}

/// A [`ManufacturerItem`] as texts.
pub struct ManufacturerItemView {
    pub name: Seq<char>,
    pub link: Seq<char>,
}

impl View for ManufacturerItem {
    type V = ManufacturerItemView;

    closed spec fn view(&self) -> ManufacturerItemView {
        ManufacturerItemView { name: self.name@, link: self.link@ }
    }
}

impl ManufacturerItem {
    /// The manufacturer's name.
    pub fn name(&self) -> (r: &String)
        ensures
            r@ == self@.name,
    {
        &self.name
    }

    /// The path of the manufacturer's page.
    pub fn link(&self) -> (r: &String)
        ensures
            r@ == self@.link,
    {
        &self.link
    }
}

/// The views of a list of manufacturer items.
pub open spec fn manufacturer_views(items: Seq<ManufacturerItem>) -> Seq<ManufacturerItemView> {
    items.map_values(|i: ManufacturerItem| i@)
}

/// The items the index nodes yield: a node without an `href`, or whose text
/// is only whitespace, yields none; any other yields its trimmed text and its
/// `href` as it stands.
pub open spec fn manufacturer_entries(nodes: Seq<(Seq<char>, Option<Seq<char>>)>) -> Seq<
    ManufacturerItemView,
>
    decreases nodes.len(),
{
    if nodes.len() == 0 {
        Seq::empty()
    } else {
        let before = manufacturer_entries(nodes.drop_last());
        let node = nodes.last();
        let name = strip_both(node.0, TrimSet::Whitespace);
        match node.1 {
            None => before,
            Some(link) => if name.len() == 0 {
                before
            } else {
                before.push(ManufacturerItemView { name, link })
            },
        }
    }
}

/// The index yields one item per link node whose text is not blank and that
/// has an `href`, in order, and no other: the item of such a node carries its
/// whole text with only the leading and trailing whitespace removed, and its
/// `href` as it stands.
pub proof fn lemma_manufacturers_are_the_named_linked_nodes(nodes: Seq<(Seq<char>, Option<Seq<char>>)>)
    ensures
        manufacturer_entries(nodes).len() == named_linked_nodes(nodes).len(),
        forall|i: int|
            0 <= i < manufacturer_entries(nodes).len() ==> {
                let item = #[trigger] manufacturer_entries(nodes)[i];
                let node = named_linked_nodes(nodes)[i];
                &&& trimmed_from(node.0, item.name)
                &&& node.1 == Some(item.link)
            },
    decreases nodes.len(),
{
    reveal(Seq::filter);
    if nodes.len() > 0 {
        let init = nodes.drop_last();
        let node = nodes.last();
        lemma_manufacturers_are_the_named_linked_nodes(init);
        lemma_trim_keeps_the_middle(node.0);
        let before = manufacturer_entries(init);
        let kept = named_linked_nodes(init);
        assert(named_linked_nodes(nodes) == (if names_a_link(node) {
            kept.push(node)
        } else {
            kept
        }));
        if names_a_link(node) {
            assert forall|i: int| 0 <= i < before.len() implies manufacturer_entries(nodes)[i]
                == before[i] && named_linked_nodes(nodes)[i] == kept[i] by {}
        }
    }
}

/// The items that `(text, href)` nodes of the index yield.
pub fn manufacturer_items(nodes: &Vec<(String, Option<String>)>) -> (r: Vec<ManufacturerItem>)
    ensures
        manufacturer_views(r@) == manufacturer_entries(link_nodes(nodes@)),
        r@.len() == named_linked_nodes(link_nodes(nodes@)).len(),
        forall|i: int|
            0 <= i < r@.len() ==> {
                let item = (#[trigger] r@[i])@;
                let node = named_linked_nodes(link_nodes(nodes@))[i];
                &&& trimmed_from(node.0, item.name)
                &&& node.1 == Some(item.link)
            },
{
    let ghost all = link_nodes(nodes@);
    let mut items: Vec<ManufacturerItem> = Vec::new();
    for i in 0..nodes.len()
        invariant
            all == link_nodes(nodes@),
            manufacturer_views(items@) == manufacturer_entries(all.take(i as int)),
    {
        proof {
            assert(all.take(i + 1).drop_last() =~= all.take(i as int));
        }
        let node = &nodes[i];
        match &node.1 {
            None => {},
            Some(link) => {
                let text = text_chars(node.0.as_str());
                let name = strip_chars(&text, TrimSet::Whitespace, true, true);
                if name.len() > 0 {
                    let item = ManufacturerItem { name: string_of(&name), link: link.clone() };
                    items.push(item);
                    proof {
                        assert(manufacturer_views(items@) =~= manufacturer_views(items@).drop_last().push(
                            item@,
                        ));
                        assert(manufacturer_views(items@).drop_last() =~= manufacturer_entries(
                            all.take(i as int),
                        ));
                    }
                }
            },
        }
        proof {
            assert(manufacturer_views(items@) =~= manufacturer_entries(all.take(i + 1)));
        }
    }
    proof {
        assert(all.take(nodes.len() as int) =~= all);
    }
    proof {
        lemma_manufacturers_are_the_named_linked_nodes(all);
        assert forall|i: int| 0 <= i < items@.len() implies manufacturer_views(items@)[i] == (
        #[trigger] items@[i])@ by {}
    }
    items
}

impl ManufacturersSpider {
    /// The spider.
    pub fn new() -> Self {
        ManufacturersSpider
    }

    /// The spider's name.
    pub fn name(&self) -> (r: String)
        ensures
            r@ == "ManufacturersSpider"@,
    {
        "ManufacturersSpider".to_owned()
    }

    /// The one page the spider starts from.
    pub fn start_urls(&self) -> (r: Vec<String>)
        ensures
            r@.len() == 1,
            r@[0]@ == MANUFACTURERS_URL@,
    {
        let mut r = Vec::new();
        r.push(MANUFACTURERS_URL.to_owned());
        r
    }

    /// The manufacturers listed on the index page `html`.
    pub fn scrape_page(&self, html: &str) -> (r: Vec<ManufacturerItem>)
        ensures
            manufacturer_views(r@) == manufacturer_entries(class_links(html@, MANUFACTURER_CARD_CLASS@, MANUFACTURER_LINK_CLASS@)),
    {
        let nodes = find_class_links(html, MANUFACTURER_CARD_CLASS, MANUFACTURER_LINK_CLASS);
        manufacturer_items(&nodes)
    }
}

} // verus!
