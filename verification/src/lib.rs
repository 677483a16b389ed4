//! A single-host breadth-first web crawler: the rule that decides which
//! links of a page are followed, and the engine that carries a crawl from
//! its seed, round by round, to the set of URLs that can be reached.
//!
//! Fetching is left to the caller. A crawl is started with
//! [`Crawler::crawl`]; each round the caller fetches the pages of
//! [`Crawler::frontier`] and hands them to [`Crawler::advance`], or their
//! links, as [`get_links`] finds them, to [`Crawler::absorb`], until the
//! crawl has converged.

pub mod engine;
pub mod fresh;
pub mod link;
pub mod model;
pub mod normalize;
pub mod page;
pub mod parts;
pub mod reach;

pub use crate::engine::{seed_is_valid, CrawlError, CrawlState, Crawler};
pub use crate::normalize::{has_file_extension, normalize_url};
pub use crate::page::get_links;
