//! Resolves client addresses to countries against an in-memory range index
//! and keeps a durable per-country request count.
//!
//! - `addr`, `country`: addresses as integers of a family, and country codes.
//! - `index`: sorted, disjoint ranges per family, searched by bisection.
//! - `dataset`: the record format a range index is loaded from.
//! - `store`, `persist`: the counter table and its stored form.
//! - `engine`: resolution and counting together.

pub mod addr;
pub mod country;
pub mod bytes;
pub mod dataset;
pub mod index;
pub mod persist;
pub mod store;
pub mod engine;
