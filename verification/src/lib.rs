//! A small verified semantic-search pipeline: fixed-dimension embedding
//! vectors are stored alongside their source text, and nearest-neighbor
//! queries return the stored texts ranked ascending by squared Euclidean
//! distance, ties broken by insertion order.

pub mod client;
pub mod corpus;
pub mod distance;
pub mod error;
pub mod laws;
pub mod loader;
pub mod rank;
pub mod store;
