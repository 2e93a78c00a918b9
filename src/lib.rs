//! A capacity-bounded key/value cache with a pluggable admission policy,
//! together with small companions: damage aggregation over game events, a
//! texture header loader, an in-memory byte store and value visitors.

pub mod cache;
pub mod events;
pub mod storage;
pub mod text;
pub mod texture;
pub mod visit;
