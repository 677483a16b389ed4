//! The links of a page: the `href` values of its anchors, as the HTML
//! parser finds them, and those of them that the crawl follows.

use vstd::prelude::*;
use select::document::Document;
use select::predicate::Name;
use crate::fresh::{fresh, lemma_fresh_push};
use crate::normalize::{normalize_parsed, normalize_spec};
use crate::parts::{parse_url, parsed_url, parts_view};

verus! {

/// The longest page, in characters, that is handed to the HTML parser. The
/// parser keeps text in buffers whose length is a `u32`; a page of this
/// size stays below that, whatever its characters are.
pub const MAX_PAGE_CHARS: usize = 0x1000_0000;

/// The `href` values of the `a` elements of the page `html`, in document
/// order, as the HTML parser reads them.
pub uninterp spec fn page_hrefs(html: Seq<char>) -> Seq<Seq<char>>;

/// Parses `html` with `select::document::Document::from`, walks the `a`
/// elements that `Document::find` yields for `Name("a")`, and copies out
/// what `Node::attr("href")` returns for each that has the attribute.
///
/// Trusted: the parser is a function of its input alone, so the values are
/// those that `page_hrefs` names for `html`. Nothing is claimed about what
/// they are. Pages over `MAX_PAGE_CHARS` are left out, on which the
/// parser's buffers could overflow. The parsed tree is walked by
/// recursion: a page nested more deeply than the stack allows is outside
/// this contract, as running out of memory is.
#[verifier::external_body]
pub(crate) fn anchor_hrefs(html: &str) -> (hrefs: Vec<String>)
    requires
        html@.len() <= MAX_PAGE_CHARS,
    ensures
        hrefs.deep_view() == page_hrefs(html@),
{
    Document::from(html)
        .find(Name("a"))
        .filter_map(|node| node.attr("href"))
        .map(|href| href.to_string())
        .collect()
}

/// The canonical URLs of the links in `hrefs` that are in scope under
/// `origin`, in order, each as often as it is linked.
pub open spec fn accepted(hrefs: Seq<Seq<char>>, origin: Seq<char>) -> Seq<Seq<char>>
    decreases hrefs.len(),
{
    if hrefs.len() == 0 {
        Seq::empty()
    } else {
        let earlier = accepted(hrefs.drop_last(), origin);
        match normalize_spec(hrefs.last(), origin) {
            Some(url) => earlier.push(url),
            None => earlier,
        }
    }
}

/// The canonical URLs of the links in `hrefs` that are in scope under
/// `origin`, each once, in the order of their first appearance.
pub open spec fn scoped_links(hrefs: Seq<Seq<char>>, origin: Seq<char>) -> Seq<Seq<char>> {
    fresh(Seq::empty(), accepted(hrefs, origin))
}

/// The URLs that the page `html` contributes to a crawl of the site at
/// `origin`. A page over `MAX_PAGE_CHARS` contributes none.
pub open spec fn page_links(html: Seq<char>, origin: Seq<char>) -> Seq<Seq<char>> {
    if html.len() <= MAX_PAGE_CHARS {
        scoped_links(page_hrefs(html), origin)
    } else {
        Seq::empty()
    }
}

/// Whether `urls` holds `url`.
pub fn holds(urls: &Vec<String>, url: &String) -> (found: bool)
    ensures
        found == urls.deep_view().contains(url@),
{
    let mut i: usize = 0;
    while i < urls.len()
        invariant
            i <= urls.len(),
            forall|j: int| 0 <= j < i ==> urls.deep_view()[j] != url@,
        decreases urls.len() - i,
    {
        if urls[i] == *url {
            assert(urls.deep_view()[i as int] == url@);
            return true;
        }
        i = i + 1;
    }
    false
}

/// Canonicalizes the raw links `hrefs` of a page of the site at `origin`
/// and keeps those in scope, each once.
pub fn scope_links(hrefs: &Vec<String>, origin: &str) -> (links: Vec<String>)
    ensures
        links.deep_view() == scoped_links(hrefs.deep_view(), origin@),
{
    let base = parse_url(origin);
    let mut links: Vec<String> = Vec::new();
    let mut i: usize = 0;
    while i < hrefs.len()
        invariant
            i <= hrefs.len(),
            parts_view(base) == parsed_url(origin@),
            links.deep_view() == scoped_links(hrefs.deep_view().take(i as int), origin@),
        decreases hrefs.len() - i,
    {
        let href = hrefs[i].as_str();
        let link = parse_url(href);
        let ghost before = hrefs.deep_view().take(i as int);
        proof {
            assert(hrefs.deep_view().take(i + 1).drop_last() =~= before);
            assert(hrefs.deep_view().take(i + 1).last() == href@);
        }
        match normalize_parsed(href, &link, &base) {
            Some(url) => {
                proof {
                    lemma_fresh_push(Seq::empty(), accepted(before, origin@), url@);
                }
                if !holds(&links, &url) {
                    let ghost old_links = links.deep_view();
                    links.push(url);
                    assert(links.deep_view() =~= old_links.push(url@));
                }
            },
            None => {},
        }
        i = i + 1;
    }
    assert(hrefs.deep_view().take(hrefs.len() as int) =~= hrefs.deep_view());
    links
}

/// The URLs that the page `html` contributes to a crawl of the site at
/// `origin`: the links of its anchors that are in scope, each once.
///
/// A page of more than `MAX_PAGE_CHARS` characters is not parsed and
/// contributes nothing. The HTML parser's tree is walked by recursion, so
/// a page whose elements are nested more deeply than the stack of the
/// calling thread allows ends the process, as running out of memory does.
pub fn get_links(html: &str, origin: &str) -> (links: Vec<String>)
    ensures
        links.deep_view() == page_links(html@, origin@),
{
    if html.unicode_len() > MAX_PAGE_CHARS {
        let none: Vec<String> = Vec::new();
        assert(none.deep_view() =~= Seq::<Seq<char>>::empty());
        return none;
    }
    let hrefs = anchor_hrefs(html);
    scope_links(&hrefs, origin)
}

} // verus!
