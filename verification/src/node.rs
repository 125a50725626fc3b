//! Nodes of a taxonomy: a code, an optional location, and descriptive fields.

use crate::dto::{copy_pairs, copy_text, pairs_of, text_of, GmodNodeDto, NodeRecord};
use vstd::prelude::*;

verus! {

/// What the descriptive fields of a node say.
pub struct MetadataView {
    pub category: Seq<char>,
    pub node_type: Seq<char>,
    pub name: Option<Seq<char>>,
    pub common_name: Option<Seq<char>>,
    pub definition: Option<Seq<char>>,
    pub common_definition: Option<Seq<char>>,
    pub install_substructure: Option<bool>,
    pub normal_assignment_names: Seq<(Seq<char>, Seq<char>)>,
}

/// What a node says.
pub struct NodeView {
    pub code: Seq<char>,
    pub location: Seq<char>,
    pub metadata: MetadataView,
}

/// The node that a record describes: it has no location, and a record
/// without normal-assignment names gives a node with none.
pub open spec fn node_of(record: NodeRecord) -> NodeView {
    NodeView {
        code: record.code,
        location: Seq::<char>::empty(),
        metadata: MetadataView {
            category: record.category,
            node_type: record.node_type,
            name: record.name,
            common_name: record.common_name,
            definition: record.definition,
            common_definition: record.common_definition,
            install_substructure: record.install_substructure,
            normal_assignment_names: match record.normal_assignment_names {
                Some(pairs) => pairs,
                None => Seq::<(Seq<char>, Seq<char>)>::empty(),
            },
        },
    }
}

/// The descriptive fields of a node. They say nothing about the graph.
#[derive(Debug)]
pub struct GmodNodeMetadata {
    category: String,
    node_type: String,
    name: Option<String>,
    common_name: Option<String>,
    definition: Option<String>,
    common_definition: Option<String>,
    install_substructure: Option<bool>,
    normal_assignment_names: Vec<(String, String)>,
}

impl View for GmodNodeMetadata {
    type V = MetadataView;

    closed spec fn view(&self) -> MetadataView {
        MetadataView {
            category: self.category@,
            node_type: self.node_type@,
            name: text_of(self.name),
            common_name: text_of(self.common_name),
            definition: text_of(self.definition),
            common_definition: text_of(self.common_definition),
            install_substructure: self.install_substructure,
            normal_assignment_names: pairs_of(self.normal_assignment_names@),
        }
    }
}

impl Clone for GmodNodeMetadata {
    fn clone(&self) -> (copy: Self)
        ensures
            copy@ == self@,
    {
        GmodNodeMetadata {
            category: self.category.clone(),
            node_type: self.node_type.clone(),
            name: copy_text(&self.name),
            common_name: copy_text(&self.common_name),
            definition: copy_text(&self.definition),
            common_definition: copy_text(&self.common_definition),
            install_substructure: self.install_substructure,
            normal_assignment_names: copy_pairs(&self.normal_assignment_names),
        }
    }
}

impl GmodNodeMetadata {
    /// The descriptive fields of a record.
    pub fn from_dto(record: &GmodNodeDto) -> (metadata: Self)
        ensures
            metadata@ == node_of(record@).metadata,
    {
        let names = match &record.normal_assignment_names {
            Some(pairs) => copy_pairs(pairs),
            None => Vec::new(),
        };
        proof {
            if record.normal_assignment_names.is_none() {
                assert(pairs_of(names@) =~= Seq::<(Seq<char>, Seq<char>)>::empty());
            }
        }
        GmodNodeMetadata {
            category: record.category.clone(),
            node_type: record.node_type.clone(),
            name: copy_text(&record.name),
            common_name: copy_text(&record.common_name),
            definition: copy_text(&record.definition),
            common_definition: copy_text(&record.common_definition),
            install_substructure: record.install_substructure,
            normal_assignment_names: names,
        }
    }

    pub fn category(&self) -> (text: &str)
        ensures
            text@ == self@.category,
    {
        self.category.as_str()
    }

    pub fn node_type(&self) -> (text: &str)
        ensures
            text@ == self@.node_type,
    {
        self.node_type.as_str()
    }

    pub fn name(&self) -> (text: &Option<String>)
        ensures
            text_of(*text) == self@.name,
    {
        &self.name
    }

    pub fn common_name(&self) -> (text: &Option<String>)
        ensures
            text_of(*text) == self@.common_name,
    {
        &self.common_name
    }

    pub fn definition(&self) -> (text: &Option<String>)
        ensures
            text_of(*text) == self@.definition,
    {
        &self.definition
    }

    pub fn common_definition(&self) -> (text: &Option<String>)
        ensures
            text_of(*text) == self@.common_definition,
    {
        &self.common_definition
    }

    pub fn install_substructure(&self) -> (flag: Option<bool>)
        ensures
            flag == self@.install_substructure,
    {
        self.install_substructure
    }

    pub fn normal_assignment_names(&self) -> (pairs: &Vec<(String, String)>)
        ensures
            pairs_of(pairs@) == self@.normal_assignment_names,
    {
        &self.normal_assignment_names
    }
}

/// A node of a taxonomy. It is found by its code, whatever its location.
#[derive(Debug)]
pub struct GmodNode {
    code: String,
    location: String,
    metadata: GmodNodeMetadata,
}

impl View for GmodNode {
    type V = NodeView;

    closed spec fn view(&self) -> NodeView {
        NodeView { code: self.code@, location: self.location@, metadata: self.metadata@ }
    }
}

impl Clone for GmodNode {
    fn clone(&self) -> (copy: Self)
        ensures
            copy@ == self@,
    {
        GmodNode {
            code: self.code.clone(),
            location: self.location.clone(),
            metadata: self.metadata.clone(),
        }
    }
}

impl GmodNode {
    /// The node that a record describes.
    pub fn from_dto(record: &GmodNodeDto) -> (node: Self)
        ensures
            node@ == node_of(record@),
    {
        GmodNode {
            code: record.code.clone(),
            location: String::new(),
            metadata: GmodNodeMetadata::from_dto(record),
        }
    }

    pub fn code(&self) -> (text: &str)
        ensures
            text@ == self@.code,
    {
        self.code.as_str()
    }

    pub fn location(&self) -> (text: &str)
        ensures
            text@ == self@.location,
    {
        self.location.as_str()
    }

    pub fn metadata(&self) -> (metadata: &GmodNodeMetadata)
        ensures
            metadata@ == self@.metadata,
    {
        &self.metadata
    }

    /// A copy of this node at `location`. The node itself stays as it is.
    pub fn with_location(&self, location: String) -> (copy: GmodNode)
        ensures
            copy@ == (NodeView { location: location@, ..self@ }),
    {
        GmodNode { code: self.code.clone(), location, metadata: self.metadata.clone() }
    }

    /// A copy of this node with no location.
    pub fn without_location(&self) -> (copy: GmodNode)
        ensures
            copy@ == (NodeView { location: Seq::<char>::empty(), ..self@ }),
    {
        GmodNode { code: self.code.clone(), location: String::new(), metadata: self.metadata.clone() }
    }
}

} // verus!
