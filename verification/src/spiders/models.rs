//! The manufacturer pages: the aircraft each lists and the path of its detail
//! page.
use vstd::prelude::*;

use crate::error::{Error, ErrorView};
use crate::html::{find_named_links, link_nodes, named_links};
use crate::spiders::{absolute, absolute_url, names_a_link, named_linked_nodes};
use crate::text::{
    concat_texts, lemma_trim_keeps_the_middle, strip_both, strip_chars, string_of, texts,
    trimmed_from, TrimSet,
};
use crate::text_map::{key_order, text_chars, text_values, TextMap};

verus! {

/// The class of the box a manufacturer page lists its aircraft in.
pub const MODAL_CLASS: &'static str = "modal_content";

/// The element of an aircraft's link.
pub const LINK_TAG: &'static str = "a";

/// The spider that reads each manufacturer's page.
pub struct ModelsSpider {
    manufacturer_by_url: TextMap<String>,
}

/// An aircraft of a manufacturer and the path of its detail page.
#[derive(Debug, Clone)]
pub struct ModelItem {
    manufacturer_name: String,
    name: String,
    link: String,
}

/// A [`ModelItem`] as texts.
pub struct ModelItemView {
    pub manufacturer_name: Seq<char>,
    pub name: Seq<char>,
    pub link: Seq<char>,
}

impl View for ModelItem {
    type V = ModelItemView;

    closed spec fn view(&self) -> ModelItemView {
        ModelItemView { manufacturer_name: self.manufacturer_name@, name: self.name@, link: self.link@ }
    }
}

impl ModelItem {
    /// The manufacturer the aircraft is listed under.
    pub fn manufacturer_name(&self) -> (r: &String)
        ensures
            r@ == self@.manufacturer_name,
    {
        &self.manufacturer_name
    }

    /// The aircraft's name.
    pub fn name(&self) -> (r: &String)
        ensures
            r@ == self@.name,
    {
        &self.name
    }

    /// The path of the aircraft's detail page.
    pub fn link(&self) -> (r: &String)
        ensures
            r@ == self@.link,
    {
        &self.link
    }
}

/// The views of a list of model items.
pub open spec fn model_views(items: Seq<ModelItem>) -> Seq<ModelItemView> {
    items.map_values(|i: ModelItem| i@)
}

/// The items a manufacturer page's nodes yield: a node whose text is only
/// whitespace, or that has no `href`, yields none; any other yields its
/// trimmed text and its trimmed `href`.
pub open spec fn model_entries(manufacturer: Seq<char>, nodes: Seq<(Seq<char>, Option<Seq<char>>)>) -> Seq<
    ModelItemView,
>
    decreases nodes.len(),
{
    if nodes.len() == 0 {
        Seq::empty()
    } else {
        let before = model_entries(manufacturer, nodes.drop_last());
        let node = nodes.last();
        let name = strip_both(node.0, TrimSet::Whitespace);
        if name.len() == 0 {
            before
        } else {
            match node.1 {
                None => before,
                Some(link) => before.push(
                    ModelItemView {
                        manufacturer_name: manufacturer,
                        name,
                        link: strip_both(link, TrimSet::Whitespace),
                    },
                ),
            }
        }
    }
}

/// The manufacturer of each manufacturer page, keyed by the page's absolute
/// URL; where two manufacturers share a page, the later in key order wins.
pub open spec fn names_by_url(names: Seq<Seq<char>>, paths: Seq<Seq<char>>) -> Map<Seq<char>, Seq<char>>
    decreases names.len(),
{
    if names.len() == 0 || paths.len() == 0 {
        Map::empty()
    } else {
        names_by_url(names.drop_last(), paths.drop_last()).insert(absolute(paths.last()), names.last())
    }
}

/// A manufacturer page yields one item per link node whose text is not
/// blank and that has an `href`, in order, and no other: the item of such a
/// node carries the manufacturer, the node's text and its `href`, each with
/// only its leading and trailing whitespace removed.
pub proof fn lemma_models_are_the_named_linked_nodes(
    manufacturer: Seq<char>,
    nodes: Seq<(Seq<char>, Option<Seq<char>>)>,
)
    ensures
        model_entries(manufacturer, nodes).len() == named_linked_nodes(nodes).len(),
        forall|i: int|
            0 <= i < model_entries(manufacturer, nodes).len() ==> {
                let item = #[trigger] model_entries(manufacturer, nodes)[i];
                let node = named_linked_nodes(nodes)[i];
                &&& item.manufacturer_name == manufacturer
                &&& trimmed_from(node.0, item.name)
                &&& trimmed_from(node.1->0, item.link)
            },
    decreases nodes.len(),
{
    reveal(Seq::filter);
    if nodes.len() > 0 {
        let init = nodes.drop_last();
        let node = nodes.last();
        lemma_models_are_the_named_linked_nodes(manufacturer, init);
        lemma_trim_keeps_the_middle(node.0);
        if let Some(link) = node.1 {
            lemma_trim_keeps_the_middle(link);
        }
        let before = model_entries(manufacturer, init);
        let kept = named_linked_nodes(init);
        assert(named_linked_nodes(nodes) == (if names_a_link(node) {
            kept.push(node)
        } else {
            kept
        }));
        if names_a_link(node) {
            assert forall|i: int| 0 <= i < before.len() implies model_entries(manufacturer, nodes)[i]
                == before[i] && named_linked_nodes(nodes)[i] == kept[i] by {}
        }
    }
}

/// The items that a manufacturer page's `(text, href)` nodes yield.
pub fn model_items(manufacturer_name: &str, nodes: &Vec<(String, Option<String>)>) -> (r: Vec<ModelItem>)
    ensures
        model_views(r@) == model_entries(manufacturer_name@, link_nodes(nodes@)),
        r@.len() == named_linked_nodes(link_nodes(nodes@)).len(),
        forall|i: int|
            0 <= i < r@.len() ==> {
                let item = (#[trigger] r@[i])@;
                let node = named_linked_nodes(link_nodes(nodes@))[i];
                &&& item.manufacturer_name == manufacturer_name@
                &&& trimmed_from(node.0, item.name)
                &&& trimmed_from(node.1->0, item.link)
            },
{
    let ghost all = link_nodes(nodes@);
    let mut items: Vec<ModelItem> = Vec::new();
    for i in 0..nodes.len()
        invariant
            all == link_nodes(nodes@),
            model_views(items@) == model_entries(manufacturer_name@, all.take(i as int)),
    {
        proof {
            assert(all.take(i + 1).drop_last() =~= all.take(i as int));
        }
        let node = &nodes[i];
        let text = text_chars(node.0.as_str());
        let name = strip_chars(&text, TrimSet::Whitespace, true, true);
        if name.len() > 0 {
            match &node.1 {
                None => {},
                Some(link) => {
                    let link_chars = text_chars(link.as_str());
                    let trimmed = strip_chars(&link_chars, TrimSet::Whitespace, true, true);
                    let item = ModelItem {
                        manufacturer_name: manufacturer_name.to_owned(),
                        name: string_of(&name),
                        link: string_of(&trimmed),
                    };
                    items.push(item);
                    proof {
                        assert(model_views(items@).drop_last() =~= model_entries(
                            manufacturer_name@,
                            all.take(i as int),
                        ));
                    }
                },
            }
        }
        proof {
            assert(model_views(items@) =~= model_entries(manufacturer_name@, all.take(i + 1)));
        }
    }
    proof {
        assert(all.take(nodes.len() as int) =~= all);
    }
    proof {
        lemma_models_are_the_named_linked_nodes(manufacturer_name@, all);
        assert forall|i: int| 0 <= i < items@.len() implies model_views(items@)[i] == (
        #[trigger] items@[i])@ by {}
    }
    items
}

impl ModelsSpider {
    /// The manufacturer names the spider knows, keyed by the absolute URL of
    /// their page.
    pub closed spec fn manufacturers_by_url(&self) -> Map<Seq<char>, Seq<char>> {
        text_values(self.manufacturer_by_url@)
    }

    /// The URLs of the manufacturer pages, in ascending order.
    pub closed spec fn url_order(&self) -> Seq<Seq<char>> {
        self.manufacturer_by_url.keys_seq()
    }

    /// A spider for the manufacturers of `manufacturers` (name to page path).
    pub fn new(manufacturers: &TextMap<String>) -> (r: Self)
        ensures
            r.manufacturers_by_url() == names_by_url(
                manufacturers.keys_seq(),
                texts(manufacturers.values_seq()),
            ),
            r.url_order() == key_order(r.manufacturers_by_url().dom()),
    {
        let mut by_url: TextMap<String> = TextMap::new();
        let n = manufacturers.len();
        let ghost names = manufacturers.keys_seq();
        let ghost paths = texts(manufacturers.values_seq());
        proof {
            use_type_invariant(manufacturers);
            manufacturers.lemma_shape();
            assert(text_values(by_url@) =~= names_by_url(names.take(0), paths.take(0)));
        }
        for i in 0..n
            invariant
                n == names.len(),
                names == manufacturers.keys_seq(),
                paths == texts(manufacturers.values_seq()),
                names.len() == paths.len(),
                text_values(by_url@) == names_by_url(names.take(i as int), paths.take(i as int)),
        {
            let name = manufacturers.key_at(i).clone();
            let url = absolute_url(manufacturers.value_at(i).as_str());
            let ghost before = by_url@;
            by_url.insert(url, name);
            proof {
                assert(names.take(i + 1).drop_last() =~= names.take(i as int));
                assert(paths.take(i + 1).drop_last() =~= paths.take(i as int));
                assert(text_values(by_url@) =~= text_values(before).insert(
                    absolute(paths[i as int]),
                    names[i as int],
                ));
            }
        }
        proof {
            assert(names.take(n as int) =~= names);
            assert(paths.take(n as int) =~= paths);
        }
        let r = ModelsSpider { manufacturer_by_url: by_url };
        proof {
            use_type_invariant(&r.manufacturer_by_url);
            r.manufacturer_by_url.lemma_keys_in_order();
            assert(r.manufacturers_by_url().dom() =~= r.manufacturer_by_url@.dom());
        }
        r
    }

    /// The manufacturer whose page is `url`.
    pub fn manufacturer_name_for_url(&self, url: &str) -> (r: Result<String, Error>)
        ensures
            match r {
                Ok(name) => self.manufacturers_by_url().contains_key(url@) && name@
                    == self.manufacturers_by_url()[url@],
                Err(e) => !self.manufacturers_by_url().contains_key(url@) && e@ == ErrorView::Internal(
                    "unknown manufacturer URL: "@ + url@,
                ),
            },
    {
        match self.manufacturer_by_url.get(url) {
            Some(name) => Ok(name.clone()),
            None => Err(Error::Internal(concat_texts("unknown manufacturer URL: ", url))),
        }
    }

    /// The spider's name.
    pub fn name(&self) -> (r: String)
        ensures
            r@ == "models"@,
    {
        "models".to_owned()
    }

    /// Every manufacturer page, in ascending URL order.
    pub fn start_urls(&self) -> (r: Vec<String>)
        ensures
            texts(r@) == self.url_order(),
    {
        self.manufacturer_by_url.keys()
    }

    /// The aircraft that the page `html` of `manufacturer_name` lists.
    pub fn items_from_page(&self, manufacturer_name: &str, html: &str) -> (r: Vec<ModelItem>)
        ensures
            model_views(r@) == model_entries(manufacturer_name@, named_links(html@, MODAL_CLASS@, LINK_TAG@)),
    {
        let nodes = find_named_links(html, MODAL_CLASS, LINK_TAG);
        model_items(manufacturer_name, &nodes)
    }

    /// The aircraft that the manufacturer page `url`, read as `html`, lists,
    /// or the error for a URL the spider does not know.
    pub fn scrape_page(&self, url: &str, html: &str) -> (r: Result<Vec<ModelItem>, Error>)
        ensures
            match r {
                Ok(items) => self.manufacturers_by_url().contains_key(url@) && model_views(items@)
                    == model_entries(self.manufacturers_by_url()[url@], named_links(html@, MODAL_CLASS@, LINK_TAG@)),
                Err(e) => !self.manufacturers_by_url().contains_key(url@) && e@ == ErrorView::Internal(
                    "unknown manufacturer URL: "@ + url@,
                ),
            },
    {
        let manufacturer_name = self.manufacturer_name_for_url(url)?;
        Ok(self.items_from_page(manufacturer_name.as_str(), html))
    }
}

} // verus!
