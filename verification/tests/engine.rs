use crawler::{CrawlError, CrawlState, Crawler};

fn texts(items: &[&str]) -> Vec<String> {
    items.iter().map(|s| s.to_string()).collect()
}

fn anchors(hrefs: &[&str]) -> String {
    let mut html = String::from("<html><body>");
    for href in hrefs {
        html.push_str(&format!("<a href=\"{}\">link</a>", href));
    }
    html.push_str("</body></html>");
    html
}

/// The site of the scenarios: four pages on one host.
fn site(url: &str) -> Option<String> {
    match url {
        "http://a.com" => Some(anchors(&["/b", "http://a.com/c"])),
        "http://a.com/b" => Some(anchors(&["http://a.com", "/d"])),
        "http://a.com/c" => Some(anchors(&[])),
        "http://a.com/d" => Some(anchors(&[])),
        _ => None,
    }
}

fn run(crawler: &mut Crawler, fetch: &dyn Fn(&str) -> Option<String>) -> usize {
    let mut rounds = 0;
    while crawler.state() == CrawlState::Expanding {
        let pages: Vec<Option<String>> = crawler.frontier().iter().map(|url| fetch(url)).collect();
        crawler.advance(&pages);
        rounds += 1;
        assert!(rounds < 100);
    }
    rounds
}

#[test]
fn new_crawler_has_nothing_to_do() {
    let crawler = Crawler::new();
    assert_eq!(crawler.state(), CrawlState::Converged);
    assert!(crawler.frontier().is_empty());
    assert!(crawler.found_urls().is_empty());
    assert_eq!(crawler.given_url(), "");
    assert_eq!(crawler.listing(), "");
}

#[test]
fn crawl_starts_with_the_seed_scheduled() {
    let mut crawler = Crawler::new();
    assert_eq!(crawler.crawl("http://a.com"), Ok(()));
    assert_eq!(crawler.state(), CrawlState::Expanding);
    assert_eq!(crawler.given_url(), "http://a.com");
    assert_eq!(crawler.frontier(), &texts(&["http://a.com"]));
    assert_eq!(crawler.found_urls(), &texts(&["http://a.com"]));
}

#[test]
fn crawl_accepts_https_and_upper_case_schemes() {
    let mut crawler = Crawler::new();
    assert_eq!(crawler.crawl("https://a.com/start"), Ok(()));
    assert_eq!(crawler.frontier(), &texts(&["https://a.com/start"]));
    assert_eq!(crawler.crawl("HTTP://a.com"), Ok(()));
    assert_eq!(crawler.frontier(), &texts(&["HTTP://a.com"]));
}

#[test]
fn crawl_refuses_a_seed_that_is_no_web_address() {
    for seed in ["", "a.com", "/about", "ftp://a.com", "mailto:x@a.com", "http://", "httpx://a.com"] {
        let mut crawler = Crawler::new();
        assert_eq!(crawler.crawl(seed), Err(CrawlError::InvalidSeed));
        assert_eq!(crawler.state(), CrawlState::Converged);
        assert!(crawler.found_urls().is_empty());
    }
}

#[test]
fn refused_seed_leaves_a_running_crawl_as_it_was() {
    let mut crawler = Crawler::new();
    assert_eq!(crawler.crawl("http://a.com"), Ok(()));
    crawler.absorb(&texts(&["http://a.com/b"]));
    assert_eq!(crawler.crawl("ftp://b.com"), Err(CrawlError::InvalidSeed));
    assert_eq!(crawler.given_url(), "http://a.com");
    assert_eq!(crawler.found_urls(), &texts(&["http://a.com"]));
    assert_eq!(crawler.frontier(), &texts(&["http://a.com/b"]));
}

#[test]
fn crawl_of_four_pages_converges_in_three_rounds() {
    let mut crawler = Crawler::new();
    assert_eq!(crawler.crawl("http://a.com"), Ok(()));
    let rounds = run(&mut crawler, &site);
    assert_eq!(rounds, 3);
    assert_eq!(crawler.state(), CrawlState::Converged);
    let mut found = crawler.found_urls().clone();
    found.sort();
    assert_eq!(
        found,
        texts(&["http://a.com", "http://a.com/b", "http://a.com/c", "http://a.com/d"])
    );
}

#[test]
fn rounds_of_the_four_page_crawl() {
    let mut crawler = Crawler::new();
    assert_eq!(crawler.crawl("http://a.com"), Ok(()));

    crawler.advance(&vec![site("http://a.com")]);
    assert_eq!(crawler.found_urls(), &texts(&["http://a.com"]));
    assert_eq!(crawler.frontier(), &texts(&["http://a.com/b", "http://a.com/c"]));
    assert_eq!(crawler.state(), CrawlState::Expanding);

    crawler.advance(&vec![site("http://a.com/b"), site("http://a.com/c")]);
    assert_eq!(crawler.found_urls(), &texts(&["http://a.com", "http://a.com/b", "http://a.com/c"]));
    assert_eq!(crawler.frontier(), &texts(&["http://a.com/d"]));

    crawler.advance(&vec![site("http://a.com/d")]);
    assert_eq!(
        crawler.found_urls(),
        &texts(&["http://a.com", "http://a.com/b", "http://a.com/c", "http://a.com/d"])
    );
    assert!(crawler.frontier().is_empty());
    assert_eq!(crawler.state(), CrawlState::Converged);
}

#[test]
fn failed_fetch_counts_as_a_page_without_links() {
    let mut crawler = Crawler::new();
    assert_eq!(crawler.crawl("http://a.com"), Ok(()));
    let broken = |url: &str| if url == "http://a.com/b" { None } else { site(url) };
    let rounds = run(&mut crawler, &broken);
    assert_eq!(rounds, 2);
    assert_eq!(crawler.state(), CrawlState::Converged);
    assert_eq!(crawler.found_urls(), &texts(&["http://a.com", "http://a.com/b", "http://a.com/c"]));
}

#[test]
fn failed_fetch_of_the_seed_ends_the_crawl_with_the_seed() {
    let mut crawler = Crawler::new();
    assert_eq!(crawler.crawl("http://a.com"), Ok(()));
    crawler.advance(&vec![None]);
    assert_eq!(crawler.state(), CrawlState::Converged);
    assert_eq!(crawler.found_urls(), &texts(&["http://a.com"]));
}

#[test]
fn round_without_pages_visits_the_frontier() {
    let mut crawler = Crawler::new();
    assert_eq!(crawler.crawl("http://a.com"), Ok(()));
    crawler.absorb(&texts(&["http://a.com/b", "http://a.com/c"]));
    crawler.advance(&Vec::new());
    assert_eq!(crawler.state(), CrawlState::Converged);
    assert_eq!(crawler.found_urls(), &texts(&["http://a.com", "http://a.com/b", "http://a.com/c"]));
}

#[test]
fn converged_crawl_stays_converged() {
    let mut crawler = Crawler::new();
    assert_eq!(crawler.crawl("http://a.com"), Ok(()));
    run(&mut crawler, &site);
    let found = crawler.found_urls().clone();
    crawler.advance(&vec![Some(anchors(&["/new"]))]);
    crawler.absorb(&texts(&["http://a.com/other"]));
    assert_eq!(crawler.state(), CrawlState::Converged);
    assert_eq!(crawler.found_urls(), &found);
    assert!(crawler.frontier().is_empty());
}

#[test]
fn new_crawler_absorbs_nothing() {
    let mut crawler = Crawler::new();
    crawler.absorb(&texts(&["http://a.com/b"]));
    assert!(crawler.found_urls().is_empty());
    assert!(crawler.frontier().is_empty());
}

#[test]
fn absorb_keeps_what_is_new_once_and_in_order() {
    let mut crawler = Crawler::new();
    assert_eq!(crawler.crawl("http://a.com"), Ok(()));
    crawler.absorb(&texts(&[
        "http://a.com/c",
        "http://a.com",
        "http://a.com/b",
        "http://a.com/c",
    ]));
    assert_eq!(crawler.found_urls(), &texts(&["http://a.com"]));
    assert_eq!(crawler.frontier(), &texts(&["http://a.com/c", "http://a.com/b"]));
    crawler.absorb(&texts(&["http://a.com/b", "http://a.com/d", "http://a.com"]));
    assert_eq!(crawler.found_urls(), &texts(&["http://a.com", "http://a.com/c", "http://a.com/b"]));
    assert_eq!(crawler.frontier(), &texts(&["http://a.com/d"]));
}

#[test]
fn no_url_is_found_twice() {
    let mut crawler = Crawler::new();
    assert_eq!(crawler.crawl("http://a.com"), Ok(()));
    let looped = |url: &str| match url {
        "http://a.com" => Some(anchors(&["/b", "/b", "/c", "http://a.com"])),
        "http://a.com/b" => Some(anchors(&["/c", "/b", "http://a.com", "/d"])),
        "http://a.com/c" => Some(anchors(&["/d", "/b", "/c"])),
        "http://a.com/d" => Some(anchors(&["http://a.com", "/d"])),
        _ => None,
    };
    let mut fetched: Vec<String> = Vec::new();
    while crawler.state() == CrawlState::Expanding {
        for url in crawler.frontier() {
            assert!(!fetched.contains(url));
            fetched.push(url.clone());
        }
        let pages: Vec<Option<String>> = crawler.frontier().iter().map(|u| looped(u)).collect();
        crawler.advance(&pages);
        let found = crawler.found_urls();
        for (i, url) in found.iter().enumerate() {
            assert!(!found[..i].contains(url));
            assert!(!crawler.frontier().contains(url));
        }
    }
    assert_eq!(
        crawler.found_urls(),
        &texts(&["http://a.com", "http://a.com/b", "http://a.com/c", "http://a.com/d"])
    );
    assert_eq!(&fetched, crawler.found_urls());
}

#[test]
fn crawl_finds_what_can_be_reached_and_nothing_else() {
    let web = |url: &str| match url {
        "https://a.com/start" => Some(anchors(&["/x", "http://b.com/out", "/file.zip"])),
        "https://a.com/x" => Some(anchors(&["/y", "https://a.com/start"])),
        "https://a.com/y" => Some(anchors(&["/x", "/z"])),
        "https://a.com/island" => Some(anchors(&["/x"])),
        "http://b.com/out" => Some(anchors(&["https://a.com/island"])),
        _ => None,
    };
    let mut crawler = Crawler::new();
    assert_eq!(crawler.crawl("https://a.com/start"), Ok(()));
    let rounds = run(&mut crawler, &web);
    assert_eq!(rounds, 4);
    assert_eq!(
        crawler.found_urls(),
        &texts(&["https://a.com/start", "https://a.com/x", "https://a.com/y", "https://a.com/z"])
    );
}

#[test]
fn every_found_url_is_on_the_host_of_the_seed() {
    let mut crawler = Crawler::new();
    assert_eq!(crawler.crawl("http://a.com"), Ok(()));
    let web = |_: &str| Some(anchors(&["/b", "http://b.com/", "https://a.com/s", "mailto:x@a.com", "/p.png"]));
    run(&mut crawler, &web);
    assert_eq!(
        crawler.found_urls(),
        &texts(&["http://a.com", "http://a.com/b", "https://a.com/s"])
    );
}

#[test]
fn listing_puts_each_url_on_a_line() {
    let mut crawler = Crawler::new();
    assert_eq!(crawler.crawl("http://a.com"), Ok(()));
    assert_eq!(crawler.listing(), "http://a.com\n");
    run(&mut crawler, &site);
    assert_eq!(
        crawler.listing(),
        "http://a.com\nhttp://a.com/b\nhttp://a.com/c\nhttp://a.com/d\n"
    );
}
