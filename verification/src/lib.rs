//! Structural call graph, language registry and graph-aware embedding preparation for source
//! checkouts.

pub mod chunk;
pub mod embed;
pub mod graph;
pub mod input;
pub mod lang;
pub mod tags;
pub mod text;
pub mod tuning;
pub mod walk;
