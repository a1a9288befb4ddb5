//! A verified core for a small web-search system: the crawler's frontier
//! coordination (deduplication, blocklist, content gating), the corpus index
//! builder, the per-document feature extractor and the ranked search query.
//!
//! Network transport, storage and the surrounding command-line program live
//! outside this crate; HTML and URL parsing are called through a few trusted
//! wrappers.

pub mod counts;
pub mod crawling_engine;
pub mod features;
pub mod index;
pub mod scraping;
pub mod search;
pub mod text;
pub mod tokenize;
pub mod urls;
