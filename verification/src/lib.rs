//! An in-process directed property graph: typed nodes, typed weighted edges,
//! shortest paths, bounded neighbour traversal, text search and statistics.

pub mod api;
pub mod models;
pub mod services;
