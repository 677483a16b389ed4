//! The frontier engine: the state of a crawl and the transitions that
//! start it and carry it through one round. Fetching the pages of a round
//! is left to the caller.

use vstd::prelude::*;
use vstd::string::StringExecFns;
use crate::fresh::{fresh, lemma_concat_contains, lemma_fresh_push};
use crate::model::{
    discovered, in_scope, lemma_round_scoped, lemma_step_scoped, lemma_step_well_formed, url_lines,
    valid_seed, web_parts, CrawlModel,
};
use crate::page::{get_links, holds};
use crate::parts::{parse_url, parts_view, UrlParts};

verus! {

/// The two states of a crawl.
#[derive(Clone, Copy, Debug, PartialEq, Eq, Structural)]
pub enum CrawlState {
    /// URLs are waiting to be fetched.
    Expanding,
    /// Nothing is left to fetch.
    Converged,
}

/// Why a crawl could not be started.
#[derive(Clone, Copy, Debug, PartialEq, Eq, Structural)]
pub enum CrawlError {
    /// The seed is no absolute URL, or its scheme is neither `http` nor
    /// `https`.
    InvalidSeed,
}

/// A crawl of one site: the seed, the URLs found so far, and the URLs to
/// fetch next. Both sets are kept as lists without repetition, in the
/// order of discovery, so that a crawl of the same pages lists the same
/// result.
pub struct Crawler {
    given_url: String,
    found_urls: Vec<String>,
    frontier: Vec<String>,
}

impl View for Crawler {
    type V = CrawlModel;

    closed spec fn view(&self) -> CrawlModel {
        CrawlModel {
            seed: self.given_url@,
            visited: self.found_urls.deep_view(),
            frontier: self.frontier.deep_view(),
        }
    }
}

/// Whether the parts of a seed are those of a web address.
pub fn is_web_address(parts: &Option<UrlParts>) -> (web: bool)
    ensures
        web == web_parts(parts_view(*parts)),
{
    match parts {
        Some(p) => {
            let http = "http".to_owned();
            let https = "https".to_owned();
            p.scheme == http || p.scheme == https
        },
        None => false,
    }
}

/// Whether `url` is accepted as the seed of a crawl: it is an absolute
/// URL and its scheme is `http` or `https`.
pub fn seed_is_valid(url: &str) -> (valid: bool)
    ensures
        valid == valid_seed(url@),
{
    let parts = parse_url(url);
    is_web_address(&parts)
}

/// A copy of `urls` followed by those of `items` that it lacks, each once.
fn with_fresh(urls: Vec<String>, items: &Vec<String>) -> (all: Vec<String>)
    ensures
        all.deep_view() == urls.deep_view() + fresh(urls.deep_view(), items.deep_view()),
{
    let ghost known = urls.deep_view();
    let mut all = urls;
    let mut i: usize = 0;
    assert(items.deep_view().take(0) =~= Seq::<Seq<char>>::empty());
    assert(all.deep_view() =~= known + Seq::<Seq<char>>::empty());
    while i < items.len()
        invariant
            i <= items.len(),
            all.deep_view() == known + fresh(known, items.deep_view().take(i as int)),
        decreases items.len() - i,
    {
        let ghost before = items.deep_view().take(i as int);
        let ghost added = fresh(known, before);
        proof {
            lemma_fresh_push(known, before, items[i as int]@);
            assert(before.push(items[i as int]@) =~= items.deep_view().take(i + 1));
            lemma_concat_contains(known, added, items[i as int]@);
        }
        if !holds(&all, &items[i]) {
            let ghost old_all = all.deep_view();
            all.push(items[i].clone());
            assert(all.deep_view() =~= old_all.push(items[i as int]@));
            assert(old_all.push(items[i as int]@) =~= known + added.push(items[i as int]@));
        }
        i = i + 1;
    }
    assert(items.deep_view().take(items.len() as int) =~= items.deep_view());
    all
}

/// The items that `known` lacks, each once, in order.
fn fresh_of(known: &Vec<String>, items: &Vec<String>) -> (added: Vec<String>)
    ensures
        added.deep_view() == fresh(known.deep_view(), items.deep_view()),
{
    let mut added: Vec<String> = Vec::new();
    let mut i: usize = 0;
    assert(items.deep_view().take(0) =~= Seq::<Seq<char>>::empty());
    assert(added.deep_view() =~= Seq::<Seq<char>>::empty());
    while i < items.len()
        invariant
            i <= items.len(),
            added.deep_view() == fresh(known.deep_view(), items.deep_view().take(i as int)),
        decreases items.len() - i,
    {
        let ghost before = items.deep_view().take(i as int);
        proof {
            lemma_fresh_push(known.deep_view(), before, items[i as int]@);
            assert(before.push(items[i as int]@) =~= items.deep_view().take(i + 1));
        }
        if !holds(known, &items[i]) && !holds(&added, &items[i]) {
            let ghost old_added = added.deep_view();
            added.push(items[i].clone());
            assert(added.deep_view() =~= old_added.push(items[i as int]@));
        }
        i = i + 1;
    }
    assert(items.deep_view().take(items.len() as int) =~= items.deep_view());
    added
}

impl Crawler {
    #[verifier::type_invariant]
    spec fn inv(&self) -> bool {
        self@.well_formed()
    }

    /// A crawler that has not been given a seed.
    pub fn new() -> (crawler: Crawler)
        ensures
            crawler@ == CrawlModel::idle(),
            crawler@.well_formed(),
    {
        let crawler = Crawler {
            given_url: String::new(),
            found_urls: Vec::new(),
            frontier: Vec::new(),
        };
        assert(crawler.found_urls.deep_view() =~= Seq::<Seq<char>>::empty());
        assert(crawler.frontier.deep_view() =~= Seq::<Seq<char>>::empty());
        crawler
    }

    /// Starts a crawl at the seed `url`. A seed that is no `http` or
    /// `https` URL is refused, and the crawler stays as it was.
    pub fn crawl(&mut self, url: &str) -> (started: Result<(), CrawlError>)
        ensures
            valid_seed(url@) ==> started is Ok && final(self)@ == CrawlModel::start(url@),
            !valid_seed(url@) ==> started == Err::<(), CrawlError>(CrawlError::InvalidSeed)
                && final(self)@ == old(self)@,
            final(self)@.well_formed(),
            valid_seed(url@) ==> final(self)@.scoped(),
    {
        proof {
            use_type_invariant(&*self);
        }
        if !seed_is_valid(url) {
            return Err(CrawlError::InvalidSeed);
        }
        let mut found: Vec<String> = Vec::new();
        found.push(url.to_owned());
        let mut frontier: Vec<String> = Vec::new();
        frontier.push(url.to_owned());
        assert(found.deep_view() =~= seq![url@]);
        assert(frontier.deep_view() =~= seq![url@]);
        *self = Crawler { given_url: url.to_owned(), found_urls: found, frontier };
        Ok(())
    }

    /// Ends a round in which the pages of the frontier linked to
    /// `discovered`, a list of canonical URLs: the frontier joins the
    /// visited set, and the URLs of `discovered` that are not in it make
    /// the new frontier. A converged crawl stays as it is.
    pub fn absorb(&mut self, discovered: &Vec<String>)
        ensures
            final(self)@ == old(self)@.step(discovered.deep_view()),
            final(self)@.well_formed(),
            old(self)@.scoped() && (forall|url: Seq<char>|
                discovered.deep_view().contains(url) ==> in_scope(url, old(self)@.seed))
                ==> final(self)@.scoped(),
    {
        proof {
            use_type_invariant(&*self);
            lemma_step_well_formed(self@, discovered.deep_view());
            if self@.scoped() && (forall|url: Seq<char>|
                discovered.deep_view().contains(url) ==> in_scope(url, self@.seed)) {
                lemma_step_scoped(self@, discovered.deep_view());
            }
        }
        if self.frontier.len() == 0 {
            return ;
        }
        let mut found: Vec<String> = Vec::new();
        let mut frontier: Vec<String> = Vec::new();
        std::mem::swap(&mut frontier, &mut self.frontier);
        std::mem::swap(&mut found, &mut self.found_urls);
        let visited = with_fresh(found, &frontier);
        let next = fresh_of(&visited, discovered);
        self.found_urls = visited;
        self.frontier = next;
    }

    /// Ends a round given the pages fetched for the frontier, in any
    /// order, `None` for a page that could not be fetched: the links of the
    /// pages that are in scope under the seed are what the round
    /// discovered. A page that is missing contributes nothing, and its URL
    /// counts as visited all the same.
    ///
    /// Each page is parsed as `get_links` parses it: a page beyond its size
    /// limit contributes nothing, and one nested more deeply than the stack
    /// allows ends the process.
    pub fn advance(&mut self, pages: &Vec<Option<String>>)
        ensures
            final(self)@ == old(self)@.step(discovered(pages.deep_view(), old(self)@.seed)),
            final(self)@.well_formed(),
            old(self)@.scoped() ==> final(self)@.scoped(),
    {
        proof {
            use_type_invariant(&*self);
            if self@.scoped() {
                lemma_round_scoped(self@, pages.deep_view());
            }
        }
        if self.frontier.len() == 0 {
            return ;
        }
        let mut found: Vec<String> = Vec::new();
        let mut i: usize = 0;
        assert(pages.deep_view().take(0) =~= Seq::<Option<Seq<char>>>::empty());
        assert(found.deep_view() =~= Seq::<Seq<char>>::empty());
        while i < pages.len()
            invariant
                i <= pages.len(),
                found.deep_view() == discovered(pages.deep_view().take(i as int), self@.seed),
            decreases pages.len() - i,
        {
            let ghost before = found.deep_view();
            proof {
                assert(pages.deep_view().take(i + 1).drop_last() =~= pages.deep_view().take(
                    i as int,
                ));
                assert(pages.deep_view().take(i + 1).last() == pages.deep_view()[i as int]);
            }
            match &pages[i] {
                Some(html) => {
                    let links = get_links(html.as_str(), self.given_url.as_str());
                    let mut j: usize = 0;
                    while j < links.len()
                        invariant
                            j <= links.len(),
                            found.deep_view() == before + links.deep_view().take(j as int),
                        decreases links.len() - j,
                    {
                        let ghost old_found = found.deep_view();
                        found.push(links[j].clone());
                        assert(found.deep_view() =~= old_found.push(links[j as int]@));
                        assert(old_found.push(links[j as int]@) =~= before
                            + links.deep_view().take(j + 1));
                        j = j + 1;
                    }
                    assert(links.deep_view().take(links.len() as int) =~= links.deep_view());
                },
                None => {
                    assert(found.deep_view() =~= before + Seq::<Seq<char>>::empty());
                },
            }
            i = i + 1;
        }
        assert(pages.deep_view().take(pages.len() as int) =~= pages.deep_view());
        self.absorb(&found);
    }

    /// Whether URLs are waiting to be fetched.
    pub fn state(&self) -> (state: CrawlState)
        ensures
            state == if self@.converged() {
                CrawlState::Converged
            } else {
                CrawlState::Expanding
            },
    {
        if self.frontier.len() == 0 {
            CrawlState::Converged
        } else {
            CrawlState::Expanding
        }
    }

    /// The seed that the crawl was started with.
    pub fn given_url(&self) -> (seed: &String)
        ensures
            seed@ == self@.seed,
    {
        &self.given_url
    }

    /// The URLs to fetch in the coming round.
    pub fn frontier(&self) -> (urls: &Vec<String>)
        ensures
            urls.deep_view() == self@.frontier,
            urls.deep_view().no_duplicates(),
    {
        proof {
            use_type_invariant(self);
        }
        &self.frontier
    }

    /// The URLs fetched or scheduled so far, in the order they were found.
    pub fn found_urls(&self) -> (urls: &Vec<String>)
        ensures
            urls.deep_view() == self@.visited,
            urls.deep_view().no_duplicates(),
    {
        proof {
            use_type_invariant(self);
        }
        &self.found_urls
    }

    /// The URLs found so far as text, one on each line.
    pub fn listing(&self) -> (text: String)
        ensures
            text@ == url_lines(self@.visited),
    {
        let mut text = String::new();
        let mut i: usize = 0;
        assert(self.found_urls.deep_view().take(0) =~= Seq::<Seq<char>>::empty());
        while i < self.found_urls.len()
            invariant
                i <= self.found_urls.len(),
                text@ == url_lines(self.found_urls.deep_view().take(i as int)),
            decreases self.found_urls.len() - i,
        {
            proof {
                reveal_strlit("\n");
                assert("\n"@ =~= seq!['\n']);
                assert(self.found_urls.deep_view().take(i + 1).drop_last()
                    =~= self.found_urls.deep_view().take(i as int));
            }
            text.append(self.found_urls[i].as_str());
            text.append("\n");
            i = i + 1;
        }
        assert(self.found_urls.deep_view().take(self.found_urls.len() as int)
            =~= self.found_urls.deep_view());
        text
    }
}

} // verus!
