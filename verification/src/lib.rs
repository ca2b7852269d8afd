//! A verified core for a daily "quote of the day" broadcaster.
//!
//! The library deserializes the two read-only responses of a bestseller
//! catalog API, extracts the fields the broadcaster consumes, and plans
//! each broadcast tick: which categories to fetch, which destinations to
//! address, and what text to deliver.  Network transport, persistence and
//! the chat host are external collaborators; they exchange plain values
//! with this crate.

pub mod json;
pub mod model;
pub mod client;
pub mod scheduler;
