//! Edge records and the requests that create them.

use super::values::{
    copy_metadata, current_time, empty_metadata, is_empty_object, random_id, Timestamp,
    FIXED_POINT_UNIT,
};
use serde_json::Value;
use vstd::prelude::*;

verus! {

/// How the source of an edge relates to its target.
#[derive(Debug, Clone, Copy, PartialEq, Eq, Hash, Structural)]
pub enum EdgeType {
    Contains,
    Imports,
    Calls,
    Inherits,
    Implements,
    Uses,
    DependsOn,
    DefinedIn,
    References,
    Handles,
    Delegates,
}

impl EdgeType {
    /// How many kinds of edge there are.
    pub const COUNT: usize = 11;

    /// The position of a kind in the declaration order, below `COUNT`.
    pub open spec fn spec_index(self) -> int {
        match self {
            EdgeType::Contains => 0,
            EdgeType::Imports => 1,
            EdgeType::Calls => 2,
            EdgeType::Inherits => 3,
            EdgeType::Implements => 4,
            EdgeType::Uses => 5,
            EdgeType::DependsOn => 6,
            EdgeType::DefinedIn => 7,
            EdgeType::References => 8,
            EdgeType::Handles => 9,
            EdgeType::Delegates => 10,
        }
    }

    /// The name of a kind in lower case, as statistics are keyed.
    pub open spec fn spec_label(self) -> Seq<char> {
        match self {
            EdgeType::Contains => "contains"@,
            EdgeType::Imports => "imports"@,
            EdgeType::Calls => "calls"@,
            EdgeType::Inherits => "inherits"@,
            EdgeType::Implements => "implements"@,
            EdgeType::Uses => "uses"@,
            EdgeType::DependsOn => "dependson"@,
            EdgeType::DefinedIn => "definedin"@,
            EdgeType::References => "references"@,
            EdgeType::Handles => "handles"@,
            EdgeType::Delegates => "delegates"@,
        }
    }

    pub fn index(self) -> (i: usize)
        ensures
            i == self.spec_index(),
            i < EdgeType::COUNT,
    {
        match self {
            EdgeType::Contains => 0,
            EdgeType::Imports => 1,
            EdgeType::Calls => 2,
            EdgeType::Inherits => 3,
            EdgeType::Implements => 4,
            EdgeType::Uses => 5,
            EdgeType::DependsOn => 6,
            EdgeType::DefinedIn => 7,
            EdgeType::References => 8,
            EdgeType::Handles => 9,
            EdgeType::Delegates => 10,
        }
    }

    /// The kind at a position of the declaration order.
    pub fn from_index(i: usize) -> (kind: Option<EdgeType>)
        ensures
            i < EdgeType::COUNT <==> kind is Some,
            kind matches Some(k) ==> k.spec_index() == i,
    {
        match i {
            0 => Some(EdgeType::Contains),
            1 => Some(EdgeType::Imports),
            2 => Some(EdgeType::Calls),
            3 => Some(EdgeType::Inherits),
            4 => Some(EdgeType::Implements),
            5 => Some(EdgeType::Uses),
            6 => Some(EdgeType::DependsOn),
            7 => Some(EdgeType::DefinedIn),
            8 => Some(EdgeType::References),
            9 => Some(EdgeType::Handles),
            10 => Some(EdgeType::Delegates),
            _ => None,
        }
    }

    pub fn label(self) -> (text: &'static str)
        ensures
            text@ == self.spec_label(),
    {
        match self {
            EdgeType::Contains => "contains",
            EdgeType::Imports => "imports",
            EdgeType::Calls => "calls",
            EdgeType::Inherits => "inherits",
            EdgeType::Implements => "implements",
            EdgeType::Uses => "uses",
            EdgeType::DependsOn => "dependson",
            EdgeType::DefinedIn => "definedin",
            EdgeType::References => "references",
            EdgeType::Handles => "handles",
            EdgeType::Delegates => "delegates",
        }
    }
}

/// A typed, weighted, directed relationship between two nodes. The weight is
/// a fixed-point cost.
#[derive(Debug)]
pub struct Edge {
    pub id: u128,
    pub source_id: u128,
    pub target_id: u128,
    pub edge_type: EdgeType,
    pub weight: u64,
    pub metadata: Value,
    pub created_at: Timestamp,
}

impl Clone for Edge {
    fn clone(&self) -> (copy: Self)
        ensures
            copy == *self,
    {
        Edge {
            id: self.id,
            source_id: self.source_id,
            target_id: self.target_id,
            edge_type: self.edge_type,
            weight: self.weight,
            metadata: copy_metadata(&self.metadata),
            created_at: self.created_at,
        }
    }
}

impl Edge {
    /// Whether the edge starts or ends at a node.
    pub open spec fn touches(self, node_id: u128) -> bool {
        self.source_id == node_id || self.target_id == node_id
    }

    /// A record of unit cost with given identity, creation time and metadata.
    pub fn with_identity(
        id: u128,
        source_id: u128,
        target_id: u128,
        edge_type: EdgeType,
        metadata: Value,
        now: Timestamp,
    ) -> (edge: Self)
        ensures
            edge == (Edge {
                id,
                source_id,
                target_id,
                edge_type,
                weight: FIXED_POINT_UNIT,
                metadata,
                created_at: now,
            }),
    {
        Edge {
            id,
            source_id,
            target_id,
            edge_type,
            weight: FIXED_POINT_UNIT,
            metadata,
            created_at: now,
        }
    }

    /// A new record of unit cost under a random identifier, created now, with
    /// empty metadata.
    pub fn new(source_id: u128, target_id: u128, edge_type: EdgeType) -> (edge: Self)
        ensures
            edge.source_id == source_id,
            edge.target_id == target_id,
            edge.edge_type == edge_type,
            edge.weight == FIXED_POINT_UNIT,
            is_empty_object(edge.metadata),
    {
        let now = current_time();
        Edge::with_identity(random_id(), source_id, target_id, edge_type, empty_metadata(), now)
    }

    pub fn with_weight(self, weight: u64) -> (edge: Self)
        ensures
            edge == (Edge { weight, ..self }),
    {
        let mut edge = self;
        edge.weight = weight;
        edge
    }

    pub fn with_metadata(self, metadata: Value) -> (edge: Self)
        ensures
            edge == (Edge { metadata, ..self }),
    {
        let mut edge = self;
        edge.metadata = metadata;
        edge
    }
}

/// What a caller supplies to have an edge created.
#[derive(Debug)]
pub struct CreateEdgeRequest {
    pub source_id: u128,
    pub target_id: u128,
    pub edge_type: EdgeType,
    pub weight: Option<u64>,
    pub metadata: Option<Value>,
}

impl CreateEdgeRequest {
    /// The record that a request asks for, once its identifier, creation time
    /// and default metadata are known. A request without a weight asks for
    /// unit cost.
    pub open spec fn applied_to(self, id: u128, now: Timestamp, default_metadata: Value) -> Edge {
        Edge {
            id,
            source_id: self.source_id,
            target_id: self.target_id,
            edge_type: self.edge_type,
            weight: match self.weight {
                Some(w) => w,
                None => FIXED_POINT_UNIT,
            },
            metadata: match self.metadata {
                Some(m) => m,
                None => default_metadata,
            },
            created_at: now,
        }
    }

    /// Builds the record that the request asks for from the values that the
    /// request does not hold.
    pub fn into_edge(self, id: u128, now: Timestamp, default_metadata: Value) -> (edge: Edge)
        ensures
            edge == self.applied_to(id, now, default_metadata),
    {
        let weight = match self.weight {
            Some(w) => w,
            None => FIXED_POINT_UNIT,
        };
        let metadata = match self.metadata {
            Some(m) => m,
            None => default_metadata,
        };
        Edge {
            id,
            source_id: self.source_id,
            target_id: self.target_id,
            edge_type: self.edge_type,
            weight,
            metadata,
            created_at: now,
        }
    }
}

impl From<CreateEdgeRequest> for Edge {
    /// The record that a request asks for, under a random identifier and
    /// created now.
    fn from(req: CreateEdgeRequest) -> (edge: Self)
        ensures
            exists|id: u128, now: Timestamp, default_metadata: Value|
                edge == #[trigger] req.applied_to(id, now, default_metadata) && is_empty_object(
                    default_metadata,
                ),
    {
        let now = current_time();
        req.into_edge(random_id(), now, empty_metadata())
    }
}

/// The conversion draws an identifier and reads the clock, so no spec
/// function gives its result.
impl vstd::std_specs::convert::FromSpecImpl<CreateEdgeRequest> for Edge {
    open spec fn obeys_from_spec() -> bool {
        false
    }

    open spec fn from_spec(req: CreateEdgeRequest) -> Self {
        req.applied_to(0, Timestamp { seconds: 0, nanoseconds: 0 }, arbitrary())
    }
}

/// An edge together with the names of the nodes it joins.
#[derive(Debug)]
pub struct EdgeWithNodes {
    pub edge: Edge,
    pub source_name: String,
    pub target_name: String,
}

} // verus!
