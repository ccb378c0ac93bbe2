//! Extraction of classified-ad listings from search-result pages, and the
//! page-by-page crawl that gathers them.
//!
//! The field parsers, the listing and page extractors and the crawl
//! controller are verified; fetching pages and querying markup are left to
//! the caller, which hands the library plain values.

mod text;

pub mod crawl;
pub mod date;
pub mod db;
pub mod error;
pub mod histogram;
pub mod listing;
pub mod location;
pub mod page;
pub mod price;
pub mod search;

pub use crawl::{CrawlResult, CrawlState, CrawlStep, FetchOutcome, TerminationReason};
pub use date::{date_at_reading, parse_date, parse_lowered_date, today, CivilDate, UtcDateTime};
pub use db::Category;
pub use error::{FieldErrorKind, FieldParsingError, MissingFieldError, ScrapperError};
pub use histogram::{histogram_axis, price_label, HistogramAxis, NUM_STEPS};
pub use listing::{parse_listing, Listing, ListingFragment};
pub use location::get_location_date_from_raw_text;
pub use page::{extract_page, PageResult};
pub use price::{get_price_from_raw_text, Price};
pub use search::search_address;
