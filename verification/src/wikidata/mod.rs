//! Fetching timeline data from Wikidata: entities, the client's decisions, and the
//! local cache.

pub mod error;
pub mod entity;
pub mod client;
pub mod cache;
