//! The spiders: what each one queues, and what it makes of the pages it reads.
use vstd::prelude::*;

use crate::error::{Error, ErrorView};
use crate::text::{append_text, blank, same_text, text_starts_with};

pub mod models;
pub mod plane;
pub mod plane_page;
pub mod plane_phd_manufacturers;

verus! {

/// A link node that yields an item: its text is not blank and it has an
/// `href`.
pub open spec fn names_a_link(node: (Seq<char>, Option<Seq<char>>)) -> bool {
    !blank(node.0) && node.1 is Some
}

/// The link nodes of `nodes` that yield an item, in order.
pub open spec fn named_linked_nodes(nodes: Seq<(Seq<char>, Option<Seq<char>>)>) -> Seq<
    (Seq<char>, Option<Seq<char>>),
> {
    nodes.filter(|n: (Seq<char>, Option<Seq<char>>)| names_a_link(n))
}

/// The site every relative link points into.
pub const BASE_URL: &'static str = "https://planephd.com";

/// `path_or_url` as an absolute URL: unchanged when it already starts with
/// `http://` or `https://`, else appended to the site's address.
pub open spec fn absolute(path_or_url: Seq<char>) -> Seq<char> {
    if "http://"@.is_prefix_of(path_or_url) || "https://"@.is_prefix_of(path_or_url) {
        path_or_url
    } else {
        BASE_URL@ + path_or_url
    }
}

/// The absolute URL of a link found on the site.
pub fn absolute_url(path_or_url: &str) -> (r: String)
    ensures
        r@ == absolute(path_or_url@),
{
    if text_starts_with(path_or_url, "http://") || text_starts_with(path_or_url, "https://") {
        path_or_url.to_owned()
    } else {
        let mut r = BASE_URL.to_owned();
        append_text(&mut r, path_or_url);
        r
    }
}

/// Making a URL absolute twice is making it absolute once.
pub proof fn lemma_absolute_is_idempotent(path_or_url: Seq<char>)
    ensures
        absolute(absolute(path_or_url)) == absolute(path_or_url),
{
    reveal_strlit("https://planephd.com");
    reveal_strlit("https://");
    let a = absolute(path_or_url);
    if !("http://"@.is_prefix_of(path_or_url) || "https://"@.is_prefix_of(path_or_url)) {
        assert("https://"@ =~= a.subrange(0, 8));
    }
}

/// The spiders a run can be asked for.
#[derive(Clone, Copy, Debug, PartialEq, Eq)]
pub enum SpiderKind {
    Manufacturers,
    Models,
    Planes,
    DirectoryListing,
}

/// The spider a command-line name selects.
pub open spec fn spider_named(name: Seq<char>) -> Option<SpiderKind> {
    if name == "m"@ {
        Some(SpiderKind::Manufacturers)
    } else if name == "mod"@ {
        Some(SpiderKind::Models)
    } else if name == "p"@ {
        Some(SpiderKind::Planes)
    } else if name == "d"@ {
        Some(SpiderKind::DirectoryListing)
    } else {
        None
    }
}

impl SpiderKind {
    /// The spider named `name` on the command line, or the error for a name
    /// that selects none.
    pub fn from_name(name: &str) -> (r: Result<SpiderKind, Error>)
        ensures
            match spider_named(name@) {
                Some(kind) => r == Ok::<SpiderKind, Error>(kind),
                None => r matches Err(e) && e@ == ErrorView::InvalidSpider(name@),
            },
    {
        if same_text(name, "m") {
            Ok(SpiderKind::Manufacturers)
        } else if same_text(name, "mod") {
            Ok(SpiderKind::Models)
        } else if same_text(name, "p") {
            Ok(SpiderKind::Planes)
        } else if same_text(name, "d") {
            Ok(SpiderKind::DirectoryListing)
        } else {
            Err(Error::InvalidSpider(name.to_owned()))
        }
    }
}

/// The lines that describe the spiders, one per spider.
pub open spec fn spider_lines() -> Seq<Seq<char>> {
    seq![
        "m - ManufacturersSpider"@,
        "mod - ModelsSpider"@,
        "p - PlanesSpider"@,
        "d - Debug directory listing"@,
    ]
}

/// The lines `spiders` prints, one per spider.
pub fn spider_listing() -> (r: Vec<String>)
    ensures
        crate::text::texts(r@) == spider_lines(),
{
    let mut r: Vec<String> = Vec::new();
    r.push("m - ManufacturersSpider".to_owned());
    r.push("mod - ModelsSpider".to_owned());
    r.push("p - PlanesSpider".to_owned());
    r.push("d - Debug directory listing".to_owned());
    assert(crate::text::texts(r@) =~= spider_lines());
    r
}

} // verus!
