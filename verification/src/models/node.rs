//! Node records and the requests that create them.

use super::values::{
    copy_metadata, current_time, empty_metadata, is_empty_object, random_id, Timestamp,
};
use serde_json::Value;
use vstd::prelude::*;

verus! {

/// What a node stands for.
#[derive(Debug, Clone, Copy, PartialEq, Eq, Hash, Structural)]
pub enum NodeType {
    Repository,
    File,
    Function,
    Class,
    Module,
    Variable,
    Constant,
    Import,
    Agent,
    Skill,
    Task,
}

impl NodeType {
    /// How many kinds of node there are.
    pub const COUNT: usize = 11;

    /// The position of a kind in the declaration order, below `COUNT`.
    pub open spec fn spec_index(self) -> int {
        match self {
            NodeType::Repository => 0,
            NodeType::File => 1,
            NodeType::Function => 2,
            NodeType::Class => 3,
            NodeType::Module => 4,
            NodeType::Variable => 5,
            NodeType::Constant => 6,
            NodeType::Import => 7,
            NodeType::Agent => 8,
            NodeType::Skill => 9,
            NodeType::Task => 10,
        }
    }

    /// The name of a kind in lower case, as statistics are keyed.
    pub open spec fn spec_label(self) -> Seq<char> {
        match self {
            NodeType::Repository => "repository"@,
            NodeType::File => "file"@,
            NodeType::Function => "function"@,
            NodeType::Class => "class"@,
            NodeType::Module => "module"@,
            NodeType::Variable => "variable"@,
            NodeType::Constant => "constant"@,
            NodeType::Import => "import"@,
            NodeType::Agent => "agent"@,
            NodeType::Skill => "skill"@,
            NodeType::Task => "task"@,
        }
    }

    pub fn index(self) -> (i: usize)
        ensures
            i == self.spec_index(),
            i < NodeType::COUNT,
    {
        match self {
            NodeType::Repository => 0,
            NodeType::File => 1,
            NodeType::Function => 2,
            NodeType::Class => 3,
            NodeType::Module => 4,
            NodeType::Variable => 5,
            NodeType::Constant => 6,
            NodeType::Import => 7,
            NodeType::Agent => 8,
            NodeType::Skill => 9,
            NodeType::Task => 10,
        }
    }

    /// The kind at a position of the declaration order.
    pub fn from_index(i: usize) -> (kind: Option<NodeType>)
        ensures
            i < NodeType::COUNT <==> kind is Some,
            kind matches Some(k) ==> k.spec_index() == i,
    {
        match i {
            0 => Some(NodeType::Repository),
            1 => Some(NodeType::File),
            2 => Some(NodeType::Function),
            3 => Some(NodeType::Class),
            4 => Some(NodeType::Module),
            5 => Some(NodeType::Variable),
            6 => Some(NodeType::Constant),
            7 => Some(NodeType::Import),
            8 => Some(NodeType::Agent),
            9 => Some(NodeType::Skill),
            10 => Some(NodeType::Task),
            _ => None,
        }
    }

    pub fn label(self) -> (text: &'static str)
        ensures
            text@ == self.spec_label(),
    {
        match self {
            NodeType::Repository => "repository",
            NodeType::File => "file",
            NodeType::Function => "function",
            NodeType::Class => "class",
            NodeType::Module => "module",
            NodeType::Variable => "variable",
            NodeType::Constant => "constant",
            NodeType::Import => "import",
            NodeType::Agent => "agent",
            NodeType::Skill => "skill",
            NodeType::Task => "task",
        }
    }
}

/// A typed entity of the graph.
#[derive(Debug)]
pub struct Node {
    pub id: u128,
    pub name: String,
    pub node_type: NodeType,
    pub path: Option<String>,
    pub language: Option<String>,
    pub description: Option<String>,
    pub metadata: Value,
    pub created_at: Timestamp,
    pub updated_at: Timestamp,
}

impl Clone for Node {
    fn clone(&self) -> (copy: Self)
        ensures
            copy == *self,
    {
        Node {
            id: self.id,
            name: self.name.clone(),
            node_type: self.node_type,
            path: clone_text(&self.path),
            language: clone_text(&self.language),
            description: clone_text(&self.description),
            metadata: copy_metadata(&self.metadata),
            created_at: self.created_at,
            updated_at: self.updated_at,
        }
    }
}

fn clone_text(text: &Option<String>) -> (copy: Option<String>)
    ensures
        copy == *text,
{
    match text {
        Some(t) => Some(t.clone()),
        None => None,
    }
}

impl Node {
    /// A record with given identity, creation time and metadata, and no path,
    /// language or description.
    pub fn with_identity(
        id: u128,
        name: String,
        node_type: NodeType,
        metadata: Value,
        now: Timestamp,
    ) -> (node: Self)
        ensures
            node == (Node {
                id,
                name,
                node_type,
                path: None,
                language: None,
                description: None,
                metadata,
                created_at: now,
                updated_at: now,
            }),
    {
        Node {
            id,
            name,
            node_type,
            path: None,
            language: None,
            description: None,
            metadata,
            created_at: now,
            updated_at: now,
        }
    }

    /// A new record under a random identifier, created now, with empty
    /// metadata.
    pub fn new(name: String, node_type: NodeType) -> (node: Self)
        ensures
            node.name == name,
            node.node_type == node_type,
            node.path is None,
            node.language is None,
            node.description is None,
            is_empty_object(node.metadata),
            node.created_at == node.updated_at,
    {
        let now = current_time();
        Node::with_identity(random_id(), name, node_type, empty_metadata(), now)
    }

    pub fn with_path(self, path: String) -> (node: Self)
        ensures
            node == (Node { path: Some(path), ..self }),
    {
        let mut node = self;
        node.path = Some(path);
        node
    }

    pub fn with_language(self, language: String) -> (node: Self)
        ensures
            node == (Node { language: Some(language), ..self }),
    {
        let mut node = self;
        node.language = Some(language);
        node
    }

    pub fn with_description(self, description: String) -> (node: Self)
        ensures
            node == (Node { description: Some(description), ..self }),
    {
        let mut node = self;
        node.description = Some(description);
        node
    }

    pub fn with_metadata(self, metadata: Value) -> (node: Self)
        ensures
            node == (Node { metadata, ..self }),
    {
        let mut node = self;
        node.metadata = metadata;
        node
    }
}

/// What a caller supplies to have a node created.
#[derive(Debug)]
pub struct CreateNodeRequest {
    pub name: String,
    pub node_type: NodeType,
    pub path: Option<String>,
    pub language: Option<String>,
    pub description: Option<String>,
    pub metadata: Option<Value>,
}

impl CreateNodeRequest {
    /// The record that a request asks for, once its identifier, creation time
    /// and default metadata are known.
    pub open spec fn applied_to(self, id: u128, now: Timestamp, default_metadata: Value) -> Node {
        Node {
            id,
            name: self.name,
            node_type: self.node_type,
            path: self.path,
            language: self.language,
            description: self.description,
            metadata: match self.metadata {
                Some(m) => m,
                None => default_metadata,
            },
            created_at: now,
            updated_at: now,
        }
    }
}

impl CreateNodeRequest {
    /// Builds the record that the request asks for from the values that the
    /// request does not hold.
    pub fn into_node(self, id: u128, now: Timestamp, default_metadata: Value) -> (node: Node)
        ensures
            node == self.applied_to(id, now, default_metadata),
    {
        let metadata = match self.metadata {
            Some(m) => m,
            None => default_metadata,
        };
        Node {
            id,
            name: self.name,
            node_type: self.node_type,
            path: self.path,
            language: self.language,
            description: self.description,
            metadata,
            created_at: now,
            updated_at: now,
        }
    }
}

impl From<CreateNodeRequest> for Node {
    /// The record that a request asks for, under a random identifier and
    /// created now; a request without metadata gets empty metadata.
    fn from(req: CreateNodeRequest) -> (node: Self)
        ensures
            exists|id: u128, now: Timestamp, default_metadata: Value|
                node == #[trigger] req.applied_to(id, now, default_metadata) && is_empty_object(
                    default_metadata,
                ),
    {
        let now = current_time();
        req.into_node(random_id(), now, empty_metadata())
    }
}

/// The conversion draws an identifier and reads the clock, so no spec
/// function gives its result.
impl vstd::std_specs::convert::FromSpecImpl<CreateNodeRequest> for Node {
    open spec fn obeys_from_spec() -> bool {
        false
    }

    open spec fn from_spec(req: CreateNodeRequest) -> Self {
        req.applied_to(0, Timestamp { seconds: 0, nanoseconds: 0 }, arbitrary())
    }
}

/// A node together with the number of edges that touch it.
#[derive(Debug)]
pub struct NodeResponse {
    pub node: Node,
    pub edge_count: usize,
}

} // verus!
