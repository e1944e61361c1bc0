pub mod adjacency;
pub mod graph;
pub mod keys;
pub mod listing;
pub mod path;
pub mod route;
pub mod search;
pub mod stats;
pub mod text;
pub mod traversal;
pub mod view;
