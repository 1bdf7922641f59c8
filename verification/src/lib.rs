//! Batch track-resolution and streaming-retrieval pipeline.
//!
//! The library turns free-form track links into canonical identifiers,
//! resolves track metadata with an availability-fallback chain, plans a
//! deduplicated list of downloads, selects an encoded representation by a
//! fixed quality order, strips the transport container header from decrypted
//! audio, and routes the payload to a file or an external helper process.
//! All catalog and transport I/O stays with the caller; the library holds the
//! decisions and proves them.

pub mod deliver;
pub mod engine;
pub mod ids;
pub mod link;
pub mod meta;
pub mod plan;
pub mod resolve;
pub mod select;

pub use ids::SpotifyIdError;
pub use ids::TrackId;
