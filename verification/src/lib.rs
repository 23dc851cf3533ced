//! Queries over a threat-intelligence dataset: groups, techniques, tactics
//! and the `uses` relationships between them.
//!
//! Records are addressed by their position in the dataset. Every query
//! returns positions, and its contract says which positions and in what
//! order.

pub mod json;
pub mod order;
pub mod query;
pub mod record;
pub mod relations;
pub mod report;
pub mod select;
pub mod store;
pub mod tactics;
pub mod text;
