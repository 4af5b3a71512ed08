//! The items most uses of the crate need.

pub use crate::config::CrawlerConfig;
pub use crate::crawler::ApiCrawler;
pub use crate::error::{CrawlerError, Result};
pub use crate::result::CrawlResult;
pub use crate::types::ApiEndpoint;
