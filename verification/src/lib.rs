//! Verified core of a paginated real-estate listings crawler.
//!
//! The crate contains the crawl engine: the compliance gate, the pager
//! that derives and builds page URLs, the fetch retry state machine with
//! its content-validity heuristic, the card parser and price/area
//! normalizer, the deduplication register, and the crawl driver that
//! orchestrates them into an ordered event stream.  Network transport and
//! HTTP routing live outside this crate and hand plain values in.

pub mod card;
pub mod dedup;
pub mod dom;
pub mod driver;
pub mod fetch;
pub mod gate;
pub mod outside;
pub mod pager;
pub mod price;
pub mod text;
