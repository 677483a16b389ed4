//! The crawl as mathematics: the visited set and the frontier as sequences
//! without repetition, and the transition that one round makes.

use vstd::prelude::*;
use crate::fresh::{
    disjoint, fresh, lemma_concat_contains, lemma_fresh_contains, lemma_fresh_distinct,
    lemma_fresh_extends,
};
use crate::link::names_file;
use crate::normalize::{has_file_extension_spec, lemma_accepted_link, normalize_spec};
use crate::page::{accepted, page_hrefs, page_links};
use crate::parts::{parsed_url, UrlModel};

verus! {

/// The state of a crawl.
pub struct CrawlModel {
    /// The URL the crawl started from.
    pub seed: Seq<char>,
    /// The URLs fetched or scheduled so far, in the order they were found.
    pub visited: Seq<Seq<char>>,
    /// The URLs to fetch in the coming round.
    pub frontier: Seq<Seq<char>>,
}

impl CrawlModel {
    /// A crawl that has not been given a seed: nothing visited, nothing to do.
    pub open spec fn idle() -> CrawlModel {
        CrawlModel { seed: Seq::empty(), visited: Seq::empty(), frontier: Seq::empty() }
    }

    /// The initial state of a crawl from `seed`: the seed is scheduled and
    /// is the whole frontier.
    pub open spec fn start(seed: Seq<char>) -> CrawlModel {
        CrawlModel { seed, visited: seq![seed], frontier: seq![seed] }
    }

    /// Whether nothing is left to fetch.
    pub open spec fn converged(self) -> bool {
        self.frontier.len() == 0
    }

    /// Whether the state has just been started and no round has been made.
    pub open spec fn at_start(self) -> bool {
        self.visited == seq![self.seed] && self.frontier == seq![self.seed]
    }

    /// What holds of every state of a crawl: no URL stands twice in the
    /// visited set or in the frontier, and but for the seed before the
    /// first round no URL of the frontier has been visited.
    pub open spec fn well_formed(self) -> bool {
        &&& self.visited.no_duplicates()
        &&& self.frontier.no_duplicates()
        &&& disjoint(self.visited, self.frontier) || self.at_start()
    }

    /// The state after a round in which the pages of the frontier linked
    /// to `discovered`: the frontier joins the visited set, and what of
    /// `discovered` is not in it becomes the new frontier. A converged
    /// crawl stays as it is.
    pub open spec fn step(self, discovered: Seq<Seq<char>>) -> CrawlModel {
        if self.converged() {
            self
        } else {
            let visited = self.visited + fresh(self.visited, self.frontier);
            CrawlModel { seed: self.seed, visited, frontier: fresh(visited, discovered) }
        }
    }

    /// Whether every URL of the state is the seed or the canonical URL of
    /// some link in scope under the seed.
    pub open spec fn scoped(self) -> bool {
        forall|url: Seq<char>|
            self.visited.contains(url) || self.frontier.contains(url) ==> #[trigger] in_scope(
                url,
                self.seed,
            )
    }
}

/// Whether `url` belongs to the site of `seed`: it is the seed itself, or
/// the scoping rule gives it for some link.
pub open spec fn in_scope(url: Seq<char>, seed: Seq<char>) -> bool {
    url == seed || exists|raw: Seq<char>| normalize_spec(raw, seed) == Some(url)
}

/// Whether the parts of a seed are those of a web address: it is an
/// absolute URL and its scheme is `http` or `https`.
pub open spec fn web_parts(parts: Option<UrlModel>) -> bool {
    match parts {
        Some(p) => p.scheme == "http"@ || p.scheme == "https"@,
        None => false,
    }
}

/// Whether `seed` is accepted as the start of a crawl.
pub open spec fn valid_seed(seed: Seq<char>) -> bool {
    web_parts(parsed_url(seed))
}

/// What the pages of a round contribute, page after page. `None` stands
/// for a page that could not be fetched: it contributes nothing.
pub open spec fn discovered(pages: Seq<Option<Seq<char>>>, origin: Seq<char>) -> Seq<Seq<char>>
    decreases pages.len(),
{
    if pages.len() == 0 {
        Seq::empty()
    } else {
        discovered(pages.drop_last(), origin) + match pages.last() {
            Some(html) => page_links(html, origin),
            None => Seq::empty(),
        }
    }
}

/// The text that lists `urls`, each followed by a line feed.
pub open spec fn url_lines(urls: Seq<Seq<char>>) -> Seq<char>
    decreases urls.len(),
{
    if urls.len() == 0 {
        Seq::empty()
    } else {
        url_lines(urls.drop_last()) + urls.last() + seq!['\n']
    }
}

/// A round keeps a state well formed, whatever was discovered.
pub proof fn lemma_step_well_formed(state: CrawlModel, found: Seq<Seq<char>>)
    requires
        state.well_formed(),
    ensures
        state.step(found).well_formed(),
{
    if !state.converged() {
        lemma_fresh_extends(state.visited, state.frontier);
        let visited = state.visited + fresh(state.visited, state.frontier);
        lemma_fresh_distinct(visited, found);
        lemma_fresh_contains(visited, found);
    }
}

/// A round never removes a URL from the visited set, and adds exactly the
/// frontier to it.
pub proof fn lemma_step_visited(state: CrawlModel, found: Seq<Seq<char>>)
    requires
        !state.converged(),
    ensures
        forall|url: Seq<char>| #[trigger]
            state.step(found).visited.contains(url) <==> state.visited.contains(url)
                || state.frontier.contains(url),
        forall|url: Seq<char>| #[trigger]
            state.step(found).frontier.contains(url) <==> found.contains(url) && !state.step(
                found,
            ).visited.contains(url),
{
    let added = fresh(state.visited, state.frontier);
    let visited = state.visited + added;
    lemma_fresh_contains(state.visited, state.frontier);
    lemma_fresh_contains(visited, found);
    assert forall|url: Seq<char>| #[trigger]
        visited.contains(url) <==> state.visited.contains(url) || state.frontier.contains(
            url,
        ) by {
        if visited.contains(url) {
            let i = choose|i: int| 0 <= i < visited.len() && visited[i] == url;
            if i < state.visited.len() {
                assert(state.visited[i] == url);
            } else {
                assert(added[i - state.visited.len()] == url);
            }
        }
        if state.visited.contains(url) {
            let i = choose|i: int| 0 <= i < state.visited.len() && state.visited[i] == url;
            assert(visited[i] == url);
        }
        if added.contains(url) {
            let i = choose|i: int| 0 <= i < added.len() && added[i] == url;
            assert(visited[state.visited.len() + i] == url);
        }
    }
}

/// A round only adds to the visited set: what was visited stays, in its
/// place.
pub proof fn lemma_step_grows(state: CrawlModel, found: Seq<Seq<char>>)
    ensures
        state.visited.is_prefix_of(state.step(found).visited),
        state.step(found).seed == state.seed,
{
}

/// Every URL that a list of links contributes is in scope.
pub proof fn lemma_accepted_in_scope(hrefs: Seq<Seq<char>>, origin: Seq<char>)
    ensures
        forall|url: Seq<char>| #[trigger]
            accepted(hrefs, origin).contains(url) ==> in_scope(url, origin),
    decreases hrefs.len(),
{
    if hrefs.len() > 0 {
        let earlier = accepted(hrefs.drop_last(), origin);
        lemma_accepted_in_scope(hrefs.drop_last(), origin);
        assert forall|url: Seq<char>| #[trigger]
            accepted(hrefs, origin).contains(url) implies in_scope(url, origin) by {
            if !earlier.contains(url) {
                let i = choose|i: int|
                    0 <= i < accepted(hrefs, origin).len() && accepted(hrefs, origin)[i] == url;
                if i < earlier.len() {
                    assert(earlier[i] == url);
                }
                assert(normalize_spec(hrefs.last(), origin) == Some(url));
            }
        }
    }
}

/// Every URL that a page contributes is the canonical URL of one of its
/// links, and that link names no file with an extension. Where the link
/// is an absolute URL, the URL is the link itself, its host is the
/// origin's, and its path as the URL parser reads it names no such file.
pub proof fn lemma_page_link_source(html: Seq<char>, origin: Seq<char>, url: Seq<char>)
    requires
        page_links(html, origin).contains(url),
    ensures
        exists|raw: Seq<char>|
            {
                &&& page_hrefs(html).contains(raw)
                &&& #[trigger] normalize_spec(raw, origin) == Some(url)
                &&& !has_file_extension_spec(raw)
                &&& parsed_url(raw) matches Some(absolute) ==> url == raw && absolute.host
                    == parsed_url(origin)->0.host && !names_file(absolute.path)
            },
{
    let hrefs = page_hrefs(html);
    lemma_fresh_contains(Seq::empty(), accepted(hrefs, origin));
    lemma_accepted_source(hrefs, origin, url);
    let raw = choose|raw: Seq<char>|
        hrefs.contains(raw) && #[trigger] normalize_spec(raw, origin) == Some(url);
    lemma_accepted_link(raw, origin);
}

/// Every URL that a list of links contributes is the canonical URL of one
/// of them.
pub proof fn lemma_accepted_source(hrefs: Seq<Seq<char>>, origin: Seq<char>, url: Seq<char>)
    requires
        accepted(hrefs, origin).contains(url),
    ensures
        exists|raw: Seq<char>|
            hrefs.contains(raw) && #[trigger] normalize_spec(raw, origin) == Some(url),
    decreases hrefs.len(),
{
    let earlier = accepted(hrefs.drop_last(), origin);
    if earlier.contains(url) {
        lemma_accepted_source(hrefs.drop_last(), origin, url);
        let raw = choose|raw: Seq<char>|
            hrefs.drop_last().contains(raw) && #[trigger] normalize_spec(raw, origin) == Some(url);
        let i = choose|i: int| 0 <= i < hrefs.drop_last().len() && hrefs.drop_last()[i] == raw;
        assert(hrefs[i] == raw);
        assert(hrefs.contains(raw) && normalize_spec(raw, origin) == Some(url));
    } else {
        let i = choose|i: int|
            0 <= i < accepted(hrefs, origin).len() && accepted(hrefs, origin)[i] == url;
        if i < earlier.len() {
            assert(earlier[i] == url);
        }
        assert(hrefs[hrefs.len() - 1] == hrefs.last());
        assert(hrefs.contains(hrefs.last()) && normalize_spec(hrefs.last(), origin) == Some(url));
    }
}

/// Every URL that the pages of a round contribute is in scope.
pub proof fn lemma_discovered_in_scope(pages: Seq<Option<Seq<char>>>, origin: Seq<char>)
    ensures
        forall|url: Seq<char>| #[trigger]
            discovered(pages, origin).contains(url) ==> in_scope(url, origin),
    decreases pages.len(),
{
    if pages.len() > 0 {
        let earlier = discovered(pages.drop_last(), origin);
        let links = match pages.last() {
            Some(html) => page_links(html, origin),
            None => Seq::empty(),
        };
        lemma_discovered_in_scope(pages.drop_last(), origin);
        assert forall|url: Seq<char>| #[trigger]
            discovered(pages, origin).contains(url) implies in_scope(url, origin) by {
            lemma_concat_contains(earlier, links, url);
            if links.contains(url) {
                let html = pages.last()->0;
                lemma_fresh_contains(Seq::empty(), accepted(page_hrefs(html), origin));
                lemma_accepted_in_scope(page_hrefs(html), origin);
            }
        }
    }
}

/// A round keeps a crawl within the site of its seed, if what was
/// discovered lies within it.
pub proof fn lemma_step_scoped(state: CrawlModel, found: Seq<Seq<char>>)
    requires
        state.scoped(),
        forall|url: Seq<char>| found.contains(url) ==> in_scope(url, state.seed),
    ensures
        state.step(found).scoped(),
{
    if !state.converged() {
        lemma_step_visited(state, found);
    }
}

/// A round over fetched pages keeps a crawl within the site of its seed.
pub proof fn lemma_round_scoped(state: CrawlModel, pages: Seq<Option<Seq<char>>>)
    requires
        state.scoped(),
    ensures
        state.step(discovered(pages, state.seed)).scoped(),
{
    lemma_discovered_in_scope(pages, state.seed);
    lemma_step_scoped(state, discovered(pages, state.seed));
}

} // verus!
