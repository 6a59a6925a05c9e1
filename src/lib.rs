//! A feed filtering pipeline: items fetched from remote feeds are
//! deduplicated against a bounded record of what was seen, judged by an
//! accept/reject gate, and kept in a bounded window per feed.
pub mod config;
pub mod feed;
pub mod filter;
pub mod item;
pub mod known;
pub mod schedule;
pub mod store;
pub mod text;
pub mod window;
