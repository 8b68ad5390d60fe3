//! Page hit tracking with per-visitor deduplication.
//!
//! A page is registered once under its URL and receives a stable identifier.
//! Every later signal against that identifier counts as a hit unless the same
//! visitor was already counted for the page within the visit window.

pub mod address;
pub mod cache;
pub mod clock;
pub mod engine;
pub mod error;
pub mod ident;
pub mod laws;
pub mod pages;
pub mod policy;
pub mod registry;
pub mod visit;

pub use address::canonical_url;
pub use cache::VisitCache;
pub use clock::unix_time_secs;
pub use engine::record_visit;
pub use error::Error;
pub use ident::parse_page_id;
pub use pages::{Hits, PageStore};
pub use policy::{classify, VisitOutcome};
