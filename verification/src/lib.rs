//! Moar News: the core of a feed aggregator.
//!
//! The crate holds the store of feeds and items, the resolver that picks a
//! discussion link for an entry, the scan that recovers `<comments>` links
//! from a raw payload, and the coordinator that runs one refresh cycle at a
//! time. Every function carries a contract that Verus proves.

pub mod config;
pub mod db;
pub mod discussion;
pub mod entry;
pub mod fetcher;
pub mod laws;
pub mod order;
pub mod payload;
pub mod routes;
pub mod store;
pub mod text;
pub mod timestamp;
pub mod xml;
