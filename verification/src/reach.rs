//! What a crawl finds. The web is taken as a map from URLs to the pages
//! behind them, and a crawl as the rounds that the engine makes over it.
//! The visited set of a converged crawl is then the set of URLs that can
//! be reached from the seed, and a crawl of a finite site converges.

use vstd::prelude::*;
use crate::fresh::{disjoint, fresh, lemma_concat_contains, lemma_fresh_contains};
use crate::model::{
    discovered, in_scope, lemma_round_scoped, lemma_step_grows, lemma_step_visited,
    lemma_step_well_formed, CrawlModel,
};
use crate::page::page_links;

verus! {

/// The URLs that the page at `url` links to in a crawl from `seed`. A URL
/// outside the web cannot be fetched and links to nothing.
pub open spec fn links_of(
    web: Map<Seq<char>, Seq<char>>,
    seed: Seq<char>,
    url: Seq<char>,
) -> Seq<Seq<char>> {
    if web.dom().contains(url) {
        page_links(web[url], seed)
    } else {
        Seq::empty()
    }
}

/// What fetching `urls` returns, URL by URL.
pub open spec fn fetched(web: Map<Seq<char>, Seq<char>>, urls: Seq<Seq<char>>) -> Seq<
    Option<Seq<char>>,
> {
    Seq::new(
        urls.len(),
        |i: int|
            if web.dom().contains(urls[i]) {
                Some(web[urls[i]])
            } else {
                None
            },
    )
}

/// The state of a crawl of `web` from `seed` after `rounds` rounds.
pub open spec fn after_rounds(
    web: Map<Seq<char>, Seq<char>>,
    seed: Seq<char>,
    rounds: nat,
) -> CrawlModel
    decreases rounds,
{
    if rounds == 0 {
        CrawlModel::start(seed)
    } else {
        let before = after_rounds(web, seed, (rounds - 1) as nat);
        before.step(discovered(fetched(web, before.frontier), seed))
    }
}

/// Whether `path` leads from the seed along links.
pub open spec fn is_path(
    web: Map<Seq<char>, Seq<char>>,
    seed: Seq<char>,
    path: Seq<Seq<char>>,
) -> bool {
    &&& path.len() > 0
    &&& path[0] == seed
    &&& forall|i: int|
        0 < i < path.len() ==> links_of(web, seed, path[i - 1]).contains(#[trigger] path[i])
}

/// Whether `url` can be reached from the seed along links.
pub open spec fn reachable(web: Map<Seq<char>, Seq<char>>, seed: Seq<char>, url: Seq<char>) -> bool {
    exists|path: Seq<Seq<char>>| is_path(web, seed, path) && path.last() == url
}

/// What a round keeps true of a crawl of `web`: the seed is visited,
/// every URL of the state can be reached from the seed, and every link of
/// a visited URL that is no longer in the frontier is in the state.
pub open spec fn explored(web: Map<Seq<char>, Seq<char>>, state: CrawlModel) -> bool {
    &&& state.visited.contains(state.seed)
    &&& forall|url: Seq<char>|
        state.visited.contains(url) || state.frontier.contains(url) ==> #[trigger] reachable(
            web,
            state.seed,
            url,
        )
    &&& forall|from: Seq<char>, to: Seq<char>|
        state.visited.contains(from) && !state.frontier.contains(from) && #[trigger] links_of(
            web,
            state.seed,
            from,
        ).contains(to) ==> state.visited.contains(to) || state.frontier.contains(to)
}

/// What the pages of `urls` contribute is what some page of `urls` links to.
pub proof fn lemma_discovered_links(
    web: Map<Seq<char>, Seq<char>>,
    seed: Seq<char>,
    urls: Seq<Seq<char>>,
)
    ensures
        forall|to: Seq<char>| #[trigger]
            discovered(fetched(web, urls), seed).contains(to) <==> exists|from: Seq<char>|
                urls.contains(from) && links_of(web, seed, from).contains(to),
    decreases urls.len(),
{
    let pages = fetched(web, urls);
    if urls.len() > 0 {
        let rest = urls.drop_last();
        let last = urls.last();
        assert(pages.drop_last() =~= fetched(web, rest));
        lemma_discovered_links(web, seed, rest);
        let earlier = discovered(fetched(web, rest), seed);
        let links = links_of(web, seed, last);
        assert(discovered(pages, seed) == earlier + links);
        assert forall|to: Seq<char>| #[trigger]
            discovered(pages, seed).contains(to) <==> exists|from: Seq<char>|
                urls.contains(from) && links_of(web, seed, from).contains(to) by {
            lemma_concat_contains(earlier, links, to);
            if earlier.contains(to) {
                let from = choose|from: Seq<char>|
                    rest.contains(from) && links_of(web, seed, from).contains(to);
                let i = choose|i: int| 0 <= i < rest.len() && rest[i] == from;
                assert(urls[i] == from);
                assert(urls.contains(from) && links_of(web, seed, from).contains(to));
            }
            if links.contains(to) {
                assert(urls[urls.len() - 1] == last);
                assert(urls.contains(last) && links_of(web, seed, last).contains(to));
            }
            if exists|from: Seq<char>|
                urls.contains(from) && links_of(web, seed, from).contains(to) {
                let from = choose|from: Seq<char>|
                    urls.contains(from) && links_of(web, seed, from).contains(to);
                let i = choose|i: int| 0 <= i < urls.len() && urls[i] == from;
                if i < rest.len() {
                    assert(rest[i] == from);
                    assert(rest.contains(from) && links_of(web, seed, from).contains(to));
                    assert(earlier.contains(to));
                } else {
                    assert(from == last);
                    assert(links.contains(to));
                }
            }
        }
    }
}

/// A link from a reachable URL leads to a reachable URL.
pub proof fn lemma_reachable_step(
    web: Map<Seq<char>, Seq<char>>,
    seed: Seq<char>,
    from: Seq<char>,
    to: Seq<char>,
)
    requires
        reachable(web, seed, from),
        links_of(web, seed, from).contains(to),
    ensures
        reachable(web, seed, to),
{
    let path = choose|path: Seq<Seq<char>>| is_path(web, seed, path) && path.last() == from;
    let longer = path.push(to);
    assert forall|i: int| 0 < i < longer.len() implies links_of(
        web,
        seed,
        longer[i - 1],
    ).contains(#[trigger] longer[i]) by {
        if i < path.len() {
            assert(longer[i] == path[i]);
            assert(longer[i - 1] == path[i - 1]);
        }
    }
    assert(is_path(web, seed, longer) && longer.last() == to);
}

/// The seed can be reached.
pub proof fn lemma_seed_reachable(web: Map<Seq<char>, Seq<char>>, seed: Seq<char>)
    ensures
        reachable(web, seed, seed),
{
    let path = seq![seed];
    assert(is_path(web, seed, path) && path.last() == seed);
}

/// A round over the pages of the frontier keeps a crawl explored.
pub proof fn lemma_round_explored(web: Map<Seq<char>, Seq<char>>, state: CrawlModel)
    requires
        state.well_formed(),
        explored(web, state),
    ensures
        explored(web, state.step(discovered(fetched(web, state.frontier), state.seed))),
{
    let found = discovered(fetched(web, state.frontier), state.seed);
    let next = state.step(found);
    if !state.converged() {
        lemma_step_visited(state, found);
        lemma_discovered_links(web, state.seed, state.frontier);
        assert forall|url: Seq<char>|
            next.visited.contains(url) || next.frontier.contains(url) implies #[trigger] reachable(
            web,
            next.seed,
            url,
        ) by {
            if next.frontier.contains(url) {
                assert(found.contains(url));
                let from = choose|from: Seq<char>|
                    state.frontier.contains(from) && links_of(web, state.seed, from).contains(url);
                assert(reachable(web, state.seed, from));
                lemma_reachable_step(web, state.seed, from, url);
            }
        }
        assert forall|from: Seq<char>, to: Seq<char>|
            next.visited.contains(from) && !next.frontier.contains(from) && #[trigger] links_of(
                web,
                next.seed,
                from,
            ).contains(to) implies next.visited.contains(to) || next.frontier.contains(to) by {
            if state.frontier.contains(from) {
                assert(found.contains(to));
            }
        }
    }
}

/// Every state of a crawl is well formed and explored.
pub proof fn lemma_rounds_explored(web: Map<Seq<char>, Seq<char>>, seed: Seq<char>, rounds: nat)
    ensures
        after_rounds(web, seed, rounds).well_formed(),
        after_rounds(web, seed, rounds).seed == seed,
        explored(web, after_rounds(web, seed, rounds)),
    decreases rounds,
{
    if rounds == 0 {
        let start = CrawlModel::start(seed);
        assert(start.visited[0] == seed);
        lemma_seed_reachable(web, seed);
    } else {
        let before = after_rounds(web, seed, (rounds - 1) as nat);
        lemma_rounds_explored(web, seed, (rounds - 1) as nat);
        lemma_step_well_formed(before, discovered(fetched(web, before.frontier), seed));
        lemma_round_explored(web, before);
    }
}

/// No URL stands twice in the visited set of a crawl, after any number of
/// rounds, and none of the frontier has been fetched before.
pub proof fn lemma_no_url_twice(web: Map<Seq<char>, Seq<char>>, seed: Seq<char>, rounds: nat)
    ensures
        after_rounds(web, seed, rounds).visited.no_duplicates(),
        after_rounds(web, seed, rounds).frontier.no_duplicates(),
        rounds > 0 ==> disjoint(
            after_rounds(web, seed, rounds).visited,
            after_rounds(web, seed, rounds).frontier,
        ),
{
    lemma_rounds_explored(web, seed, rounds);
    if rounds > 0 {
        lemma_rounds_disjoint(web, seed, rounds);
    }
}

/// After the first round no URL of the frontier is in the visited set.
pub proof fn lemma_rounds_disjoint(web: Map<Seq<char>, Seq<char>>, seed: Seq<char>, rounds: nat)
    requires
        rounds > 0,
    ensures
        disjoint(
            after_rounds(web, seed, rounds).visited,
            after_rounds(web, seed, rounds).frontier,
        ),
    decreases rounds,
{
    let before = after_rounds(web, seed, (rounds - 1) as nat);
    let found = discovered(fetched(web, before.frontier), seed);
    if before.converged() {
        if rounds > 1 {
            lemma_rounds_disjoint(web, seed, (rounds - 1) as nat);
        }
    } else {
        lemma_step_visited(before, found);
    }
}

/// Every URL of a crawl, after any number of rounds, is the seed or the
/// canonical URL of a link in scope under the seed.
pub proof fn lemma_rounds_scoped(web: Map<Seq<char>, Seq<char>>, seed: Seq<char>, rounds: nat)
    ensures
        after_rounds(web, seed, rounds).scoped(),
    decreases rounds,
{
    if rounds == 0 {
        let start = CrawlModel::start(seed);
        assert forall|url: Seq<char>|
            start.visited.contains(url) || start.frontier.contains(url) implies #[trigger] in_scope(
            url,
            start.seed,
        ) by {}
    } else {
        let before = after_rounds(web, seed, (rounds - 1) as nat);
        lemma_rounds_scoped(web, seed, (rounds - 1) as nat);
        lemma_rounds_explored(web, seed, (rounds - 1) as nat);
        lemma_round_scoped(before, fetched(web, before.frontier));
    }
}

/// The visited set only grows: what is visited after some round is
/// visited after every later one.
pub proof fn lemma_visited_grows(
    web: Map<Seq<char>, Seq<char>>,
    seed: Seq<char>,
    rounds: nat,
    later: nat,
)
    requires
        rounds <= later,
    ensures
        after_rounds(web, seed, rounds).visited.is_prefix_of(
            after_rounds(web, seed, later).visited,
        ),
    decreases later - rounds,
{
    if rounds < later {
        let before = after_rounds(web, seed, (later - 1) as nat);
        lemma_visited_grows(web, seed, rounds, (later - 1) as nat);
        lemma_step_grows(before, discovered(fetched(web, before.frontier), seed));
    }
}

/// No URL is fetched twice: the frontiers of two different rounds have
/// no URL in common.
pub proof fn lemma_never_fetched_again(
    web: Map<Seq<char>, Seq<char>>,
    seed: Seq<char>,
    rounds: nat,
    later: nat,
)
    requires
        rounds < later,
    ensures
        disjoint(after_rounds(web, seed, rounds).frontier, after_rounds(web, seed, later).frontier),
{
    let first = after_rounds(web, seed, rounds);
    let next = after_rounds(web, seed, rounds + 1);
    let last = after_rounds(web, seed, later);
    lemma_visited_grows(web, seed, rounds + 1, later);
    lemma_rounds_disjoint(web, seed, later);
    if !first.converged() {
        lemma_step_visited(first, discovered(fetched(web, first.frontier), seed));
        assert forall|url: Seq<char>| !(first.frontier.contains(url) && last.frontier.contains(
            url,
        )) by {
            if first.frontier.contains(url) {
                assert(next.visited.contains(url));
                let i = choose|i: int| 0 <= i < next.visited.len() && next.visited[i] == url;
                assert(last.visited[i] == url);
            }
        }
    }
}

/// The visited set of a converged crawl holds exactly the URLs that can
/// be reached from the seed.
pub proof fn lemma_converged_is_closure(
    web: Map<Seq<char>, Seq<char>>,
    seed: Seq<char>,
    rounds: nat,
)
    requires
        after_rounds(web, seed, rounds).converged(),
    ensures
        forall|url: Seq<char>|
            after_rounds(web, seed, rounds).visited.contains(url) <==> reachable(web, seed, url),
{
    let state = after_rounds(web, seed, rounds);
    lemma_rounds_explored(web, seed, rounds);
    assert forall|url: Seq<char>| reachable(web, seed, url) implies state.visited.contains(
        url,
    ) by {
        let path = choose|path: Seq<Seq<char>>| is_path(web, seed, path) && path.last() == url;
        lemma_path_visited(web, state, path, path.len() - 1);
    }
}

/// In a converged and explored crawl every URL of a path is visited.
proof fn lemma_path_visited(
    web: Map<Seq<char>, Seq<char>>,
    state: CrawlModel,
    path: Seq<Seq<char>>,
    at: int,
)
    requires
        state.converged(),
        explored(web, state),
        is_path(web, state.seed, path),
        0 <= at < path.len(),
    ensures
        state.visited.contains(path[at]),
    decreases at,
{
    if at > 0 {
        lemma_path_visited(web, state, path, at - 1);
        assert(links_of(web, state.seed, path[at - 1]).contains(path[at]));
    }
}

/// A converged crawl stays converged.
pub proof fn lemma_converged_stays(
    web: Map<Seq<char>, Seq<char>>,
    seed: Seq<char>,
    rounds: nat,
    later: nat,
)
    requires
        rounds <= later,
        after_rounds(web, seed, rounds).converged(),
    ensures
        after_rounds(web, seed, later) == after_rounds(web, seed, rounds),
    decreases later - rounds,
{
    if rounds < later {
        lemma_converged_stays(web, seed, rounds, (later - 1) as nat);
    }
}

/// A crawl that has not converged before its `rounds`-th round has
/// visited at least `rounds` URLs after it.
pub proof fn lemma_rounds_grow(web: Map<Seq<char>, Seq<char>>, seed: Seq<char>, rounds: nat)
    requires
        rounds > 0,
        !after_rounds(web, seed, (rounds - 1) as nat).converged(),
    ensures
        after_rounds(web, seed, rounds).visited.len() >= rounds,
    decreases rounds,
{
    let before = after_rounds(web, seed, (rounds - 1) as nat);
    let found = discovered(fetched(web, before.frontier), seed);
    if rounds == 1 {
    } else {
        let earlier = after_rounds(web, seed, (rounds - 2) as nat);
        if earlier.converged() {
            lemma_converged_stays(web, seed, (rounds - 2) as nat, (rounds - 1) as nat);
        }
        lemma_rounds_grow(web, seed, (rounds - 1) as nat);
        lemma_rounds_disjoint(web, seed, (rounds - 1) as nat);
        lemma_fresh_contains(before.visited, before.frontier);
        let first = before.frontier[0];
        assert(before.frontier.contains(first));
        assert(fresh(before.visited, before.frontier).contains(first));
    }
}

/// A crawl of a site that lies within a finite set of URLs converges
/// within as many rounds as the set has URLs, and has then visited exactly
/// the URLs that can be reached from the seed.
pub proof fn lemma_crawl_finds_closure(
    web: Map<Seq<char>, Seq<char>>,
    seed: Seq<char>,
    site: Set<Seq<char>>,
)
    requires
        site.finite(),
        forall|url: Seq<char>| reachable(web, seed, url) ==> site.contains(url),
    ensures
        after_rounds(web, seed, site.len()).converged(),
        forall|url: Seq<char>|
            after_rounds(web, seed, site.len()).visited.contains(url) <==> reachable(
                web,
                seed,
                url,
            ),
{
    let rounds = site.len();
    let last = after_rounds(web, seed, rounds);
    if !last.converged() {
        let next = after_rounds(web, seed, rounds + 1);
        lemma_rounds_grow(web, seed, rounds + 1);
        lemma_rounds_explored(web, seed, rounds + 1);
        next.visited.unique_seq_to_set();
        assert(next.visited.to_set().subset_of(site)) by {
            assert forall|url: Seq<char>| next.visited.to_set().contains(url) implies site.contains(
                url,
            ) by {
                assert(next.visited.contains(url));
                assert(reachable(web, seed, url));
            }
        }
        vstd::set_lib::lemma_len_subset(next.visited.to_set(), site);
        assert(false);
    }
    lemma_converged_is_closure(web, seed, rounds);
}

} // verus!
