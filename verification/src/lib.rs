//! Multi-provider price aggregation and holdings reporting.
//!
//! The library covers the pure core of a portfolio viewer: the canonical
//! data model shared by all price providers, the batching planner that
//! packs coin symbols into request-sized groups, the aggregation
//! coordinator's grouping and merging rules, the report engine
//! (filter, join, group, sort, render), and the snapshot codec used by
//! the on-disk price cache.  Network transport, file I/O and the CLI
//! live outside the library and hand it plain values.

pub mod aggregate;
pub mod batching;
pub mod client;
pub mod codec;
pub mod coin_list;
pub mod config;
pub mod model;
pub mod providers;
pub mod render;
pub mod report;
