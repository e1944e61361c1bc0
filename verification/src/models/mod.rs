pub mod edge;
pub mod node;
pub mod query;
pub mod values;

pub use self::edge::{CreateEdgeRequest, Edge, EdgeType, EdgeWithNodes};
pub use self::node::{CreateNodeRequest, Node, NodeResponse, NodeType};
pub use self::query::{
    Direction, GraphStats, NeighborsQuery, PathQuery, PathResult, SearchQuery,
};
pub use self::values::{is_empty_object, metadata_members, Timestamp, FIXED_POINT_UNIT};
