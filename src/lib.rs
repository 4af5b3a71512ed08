//! Discovers the endpoint graph of a REST API by following the links in its
//! JSON responses, and arranges what it found as a flat list, a per-parent
//! grouping or a tree.
//!
//! The crate decides and the caller does the I/O: [`ApiCrawler`] hands out
//! URLs to fetch and takes back what each fetch gave.

pub mod config;
pub mod document;
pub mod crawler;
pub mod error;
pub mod extract;
pub mod hierarchy;
pub mod json;
pub mod output;
pub mod prelude;
pub mod result;
pub mod text;
pub mod tree;
pub mod types;
pub mod urls;

pub use config::CrawlerConfig;
pub use crawler::ApiCrawler;
pub use error::{CrawlerError, Result};
pub use result::CrawlResult;
pub use types::ApiEndpoint;
