//! Search by text, kind and language.

use super::graph::KnowledgeGraph;
use super::keys::key_list;
use super::listing::{
    lemma_listing_len, lemma_push_contains, lemma_push_no_duplicates, lemma_take_next,
    lists_nodes, node_ids,
};
use super::text::{holds, is_substring, lowercase, lowercase_of, same_text};
use super::view::GraphView;
use crate::models::{Node, NodeType};
use vstd::prelude::*;
use vstd::set_lib::lemma_len_subset;

verus! {

/// The filter that a list of node kinds is, if one is given.
pub open spec fn node_kinds_of(node_types: Option<&[NodeType]>) -> Option<Seq<NodeType>> {
    match node_types {
        None => None,
        Some(listed) => Some(listed@),
    }
}

/// The text that a language filter asks for, if one is given.
pub open spec fn language_of(language: Option<&str>) -> Option<Seq<char>> {
    match language {
        None => None,
        Some(text) => Some(text@),
    }
}

/// Whether a lower-case query occurs in the lower-case name or in the
/// lower-case description.
pub open spec fn text_found(
    name_lower: Seq<char>,
    description_lower: Option<Seq<char>>,
    query_lower: Seq<char>,
) -> bool {
    is_substring(query_lower, name_lower) || match description_lower {
        Some(d) => is_substring(query_lower, d),
        None => false,
    }
}

/// Whether a node passes the kind filter and the language filter: its kind
/// is listed, where kinds are listed, and its language is exactly the one
/// asked for, where one is asked for.
pub open spec fn passes_filters(
    node: Node,
    kinds: Option<Seq<NodeType>>,
    language: Option<Seq<char>>,
) -> bool {
    &&& match kinds {
        Some(listed) => listed.contains(node.node_type),
        None => true,
    }
    &&& match language {
        Some(wanted) => match node.language {
            Some(l) => l@ == wanted,
            None => false,
        },
        None => true,
    }
}

/// The lower-case description of a node, if it has a description.
pub open spec fn description_lower(node: Node) -> Option<Seq<char>> {
    match node.description {
        Some(d) => Some(lowercase_of(d@)),
        None => None,
    }
}

/// Whether a search finds a node: the query occurs in its name or its
/// description, letter case aside, and the node passes both filters.
pub open spec fn search_matches(
    node: Node,
    query: Seq<char>,
    kinds: Option<Seq<NodeType>>,
    language: Option<Seq<char>>,
) -> bool {
    &&& text_found(lowercase_of(node.name@), description_lower(node), lowercase_of(query))
    &&& passes_filters(node, kinds, language)
}

impl GraphView {
    /// The identifiers of the nodes that a search finds.
    pub open spec fn search_hits(
        self,
        query: Seq<char>,
        kinds: Option<Seq<NodeType>>,
        language: Option<Seq<char>>,
    ) -> Set<u128> {
        Set::new(
            |id: u128|
                self.nodes.contains_key(id) && search_matches(
                    self.nodes[id],
                    query,
                    kinds,
                    language,
                ),
        )
    }
}

/// Whether a node kind is in a list.
fn node_kind_listed(listed: &[NodeType], kind: NodeType) -> (found: bool)
    ensures
        found == listed@.contains(kind),
{
    let mut i: usize = 0;
    while i < listed.len()
        invariant
            i <= listed.len(),
            forall|j: int| 0 <= j < i ==> listed@[j] != kind,
        decreases listed.len() - i,
    {
        if listed[i] == kind {
            return true;
        }
        i += 1;
    }
    false
}

/// Whether a search finds a node, given the lower-case forms of the node's
/// name, of its description and of the query.
pub fn matches_lowered(
    node: &Node,
    name_lower: &str,
    description_lower: Option<&str>,
    query_lower: &str,
    node_types: Option<&[NodeType]>,
    language: Option<&str>,
) -> (found: bool)
    ensures
        found == (text_found(
            name_lower@,
            match description_lower {
                Some(d) => Some(d@),
                None => None,
            },
            query_lower@,
        ) && passes_filters(*node, node_kinds_of(node_types), language_of(language))),
{
    let name_match = holds(name_lower, query_lower);
    let desc_match = match description_lower {
        Some(d) => holds(d, query_lower),
        None => false,
    };
    let type_match = match node_types {
        Some(listed) => node_kind_listed(listed, node.node_type),
        None => true,
    };
    let lang_match = match language {
        Some(wanted) => match &node.language {
            Some(l) => same_text(l.as_str(), wanted),
            None => false,
        },
        None => true,
    };
    (name_match || desc_match) && type_match && lang_match
}

/// Whether a search finds a node, given the lower-case form of the query.
fn node_matches(
    node: &Node,
    query_lower: &str,
    node_types: Option<&[NodeType]>,
    language: Option<&str>,
) -> (found: bool)
    ensures
        found == (text_found(lowercase_of(node.name@), description_lower(*node), query_lower@)
            && passes_filters(*node, node_kinds_of(node_types), language_of(language))),
{
    let name_lower = lowercase(node.name.as_str());
    match &node.description {
        Some(d) => {
            let lowered = lowercase(d.as_str());
            matches_lowered(
                node,
                name_lower.as_str(),
                Some(lowered.as_str()),
                query_lower,
                node_types,
                language,
            )
        },
        None => matches_lowered(node, name_lower.as_str(), None, query_lower, node_types, language),
    }
}

impl KnowledgeGraph {
    /// Nodes that a search finds, each once, in no particular order: all of
    /// them if they are at most `limit`, otherwise `limit` of them.
    pub fn search_nodes(
        &self,
        query: &str,
        node_types: Option<&[NodeType]>,
        language: Option<&str>,
        limit: usize,
    ) -> (list: Vec<&Node>)
        requires
            self.wf(),
        ensures
            lists_nodes(list@, self@.nodes, node_ids(list@).to_set()),
            node_ids(list@).to_set().subset_of(
                self@.search_hits(query@, node_kinds_of(node_types), language_of(language)),
            ),
            forall|i: int|
                0 <= i < list@.len() ==> search_matches(
                    *#[trigger] list@[i],
                    query@,
                    node_kinds_of(node_types),
                    language_of(language),
                ),
            self@.search_hits(query@, node_kinds_of(node_types), language_of(language)).finite(),
            list@.len() == vstd::math::min(
                limit as int,
                self@.search_hits(
                    query@,
                    node_kinds_of(node_types),
                    language_of(language),
                ).len() as int,
            ),
    {
        proof {
            self.lemma_unfold();
        }
        let ghost kinds = node_kinds_of(node_types);
        let ghost wanted = language_of(language);
        let ghost hits = self@.search_hits(query@, kinds, wanted);
        let query_lower = lowercase(query);
        let ids = key_list(&self.nodes);
        let mut picked: Vec<u128> = Vec::new();
        let mut i: usize = 0;
        while i < ids.len() && picked.len() < limit
            invariant
                i <= ids.len(),
                self.wf(),
                self@.wf(),
                self@.nodes == self.nodes@,
                kinds == node_kinds_of(node_types),
                wanted == language_of(language),
                hits == self@.search_hits(query@, kinds, wanted),
                query_lower@ == lowercase_of(query@),
                ids@.no_duplicates(),
                ids@.to_set() == self@.nodes.dom(),
                picked@.no_duplicates(),
                picked@.len() <= limit,
                forall|y: u128| #[trigger]
                    picked@.contains(y) <==> ids@.take(i as int).contains(y) && hits.contains(y),
            decreases ids.len() - i,
        {
            let id = ids[i];
            proof {
                lemma_take_next(ids@, i as int);
                assert(ids@.to_set().contains(id));
            }
            let node = self.nodes.get(&id).unwrap();
            if node_matches(node, query_lower.as_str(), node_types, language) {
                proof {
                    lemma_push_contains(picked@, id);
                    lemma_push_no_duplicates(picked@, id);
                }
                picked.push(id);
            }
            i += 1;
        }
        proof {
            assert(hits.subset_of(self@.nodes.dom()));
            lemma_len_subset(hits, self@.nodes.dom());
            assert(picked@.to_set().subset_of(hits));
            lemma_listing_len(picked@, picked@.to_set());
            lemma_len_subset(picked@.to_set(), hits);
            if picked@.len() < limit {
                assert(ids@.take(ids@.len() as int) =~= ids@);
                assert(picked@.to_set() =~= hits) by {
                    assert forall|y: u128| hits.contains(y) implies picked@.to_set().contains(y) by {
                        assert(ids@.to_set().contains(y));
                    }
                }
            }
            assert forall|j: int| 0 <= j < picked@.len() implies self@.nodes.contains_key(
                #[trigger] picked@[j],
            ) by {
                assert(picked@.to_set().contains(picked@[j]));
            }
        }
        let list = self.nodes_by_id(&picked);
        proof {
            assert forall|i: int| 0 <= i < list@.len() implies search_matches(
                *#[trigger] list@[i],
                query@,
                kinds,
                wanted,
            ) by {
                assert(node_ids(list@)[i] == list@[i].id);
                assert(picked@.to_set().contains(picked@[i]));
                assert(hits.contains(list@[i].id));
            }
        }
        list
    }
}

} // verus!
