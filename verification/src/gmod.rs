//! The taxonomy: an arena of nodes with an index from code to position and
//! the adjacency in both directions. It is built once and never changed.

use crate::dto::{root_code, GmodDto, GmodNodeDto};
use crate::error::VisError;
use crate::graph::{edges_in, edges_out, graph_of, lemma_graph_of_wf, lemma_position_listed, lemma_position_unique, GmodView};
use crate::node::{node_of, GmodNode};
use crate::text::{contains_text, same_text};
use crate::version::VisVersion;
use vstd::hash_map::StringHashMap;
use vstd::pervasive::unreached;
use vstd::prelude::*;

verus! {

/// A taxonomy for one schema version.
pub struct Gmod {
    version: VisVersion,
    index: StringHashMap<u32>,
    children: Vec<Vec<u32>>,
    parents: Vec<Vec<u32>>,
    nodes: Vec<GmodNode>,
}

impl View for Gmod {
    type V = GmodView;

    closed spec fn view(&self) -> GmodView {
        GmodView {
            version: self.version,
            nodes: self.nodes@.map_values(|node: GmodNode| node@),
            children: self.children@.map_values(|list: Vec<u32>| list@),
            parents: self.parents@.map_values(|list: Vec<u32>| list@),
        }
    }
}

/// The position that an index holds for a code that it knows.
fn lookup(index: &StringHashMap<u32>, code: &str) -> (position: u32)
    requires
        index@.contains_key(code@),
    ensures
        position == index@[code@],
{
    match index.get(code) {
        Some(position) => *position,
        None => unreached(),
    }
}

impl Gmod {
    /// The node that the arena holds at `index`.
    pub closed spec fn node(&self, index: int) -> GmodNode {
        self.nodes@[index]
    }

    /// The index knows exactly the codes of the arena, each with its position.
    pub closed spec fn indexed(&self) -> bool {
        &&& forall|code: Seq<char>| #[trigger] self.index@.contains_key(code) <==> self@.has(code)
        &&& forall|i: int|
            0 <= i < self.nodes@.len() ==> self.index@[(#[trigger] self.nodes@[i])@.code] == i
    }

    /// `nodes` are the arena nodes at `positions`, one for one.
    pub open spec fn are_nodes(&self, nodes: Seq<&GmodNode>, positions: Seq<u32>) -> bool {
        &&& nodes.len() == positions.len()
        &&& forall|k: int|
            0 <= k < nodes.len() ==> *(#[trigger] nodes[k]) == self.node(positions[k] as int)
    }

    /// The invariant of a taxonomy.
    pub open spec fn wf(&self) -> bool {
        self@.wf() && self.indexed()
    }

    /// The arena node at a position says what the model says there.
    pub proof fn lemma_node_view(&self, index: int)
        requires
            self@.in_arena(index),
        ensures
            self.node(index)@ == self@.nodes[index],
    {
    }

    /// Builds the taxonomy that a definition describes. The definition has to
    /// be consistent; a version tag that names no version is an error.
    pub fn new(dto: &GmodDto) -> (built: Result<Gmod, VisError>)
        requires
            dto@.consistent(),
        ensures
            match VisVersion::from_tag(dto@.vis_release) {
                Some(version) => built matches Ok(gmod) && gmod.wf() && gmod@ == graph_of(
                    dto@,
                    version,
                ),
                None => built matches Err(VisError::VersionNotRecognized(text)) && text@
                    == dto@.vis_release,
            },
    {
        let version = match VisVersion::parse(dto.vis_release.as_str()) {
            Ok(version) => version,
            Err(error) => {
                return Err(error);
            },
        };
        let ghost d = dto@;
        let ghost codes = d.codes();
        let count = dto.items.len();
        let mut index: StringHashMap<u32> = StringHashMap::with_capacity(1024 * 4);
        let mut nodes: Vec<GmodNode> = Vec::with_capacity(1024 * 4);
        let mut children: Vec<Vec<u32>> = Vec::with_capacity(1024 * 4);
        let mut parents: Vec<Vec<u32>> = Vec::with_capacity(1024 * 4);

        let mut i: usize = 0;
        while i < count
            invariant
                d == dto@,
                codes == d.codes(),
                d.consistent(),
                count == dto.items@.len(),
                i <= count,
                nodes@.len() == i,
                children@.len() == i,
                parents@.len() == i,
                forall|j: int| 0 <= j < i ==> (#[trigger] nodes@[j])@ == node_of(d.items[j]),
                forall|j: int| 0 <= j < i ==> (#[trigger] children@[j])@.len() == 0,
                forall|j: int| 0 <= j < i ==> (#[trigger] parents@[j])@.len() == 0,
                forall|code: Seq<char>| #[trigger]
                    index@.contains_key(code) <==> exists|j: int| 0 <= j < i && codes[j] == code,
                forall|j: int| 0 <= j < i ==> index@[#[trigger] codes[j]] == j,
            decreases count - i,
        {
            let record: &GmodNodeDto = &dto.items[i];
            let ghost before = index@;
            assert(codes[i as int] == record.code@);
            index.insert(record.code.clone(), i as u32);
            nodes.push(GmodNode::from_dto(record));
            children.push(Vec::with_capacity(1));
            parents.push(Vec::with_capacity(1));
            proof {
                assert forall|code: Seq<char>| #[trigger]
                    index@.contains_key(code) <==> exists|j: int|
                        0 <= j < i + 1 && codes[j] == code by {
                    if before.contains_key(code) {
                        let j = choose|j: int| 0 <= j < i && codes[j] == code;
                        assert(0 <= j < i + 1 && codes[j] == code);
                    }
                    if code == codes[i as int] {
                        assert(0 <= i < i + 1 && codes[i as int] == code);
                    }
                }
                assert forall|j: int| 0 <= j < i + 1 implies index@[#[trigger] codes[j]] == j by {
                    if j < i {
                        assert(codes[j] != codes[i as int]);
                    }
                }
            }
            i += 1;
        }

        let mut k: usize = 0;
        while k < dto.relations.len()
            invariant
                d == dto@,
                codes == d.codes(),
                d.consistent(),
                count == dto.items@.len(),
                k <= dto.relations@.len(),
                nodes@.len() == count,
                children@.len() == count,
                parents@.len() == count,
                forall|j: int| 0 <= j < count ==> (#[trigger] nodes@[j])@ == node_of(d.items[j]),
                forall|code: Seq<char>| #[trigger]
                    index@.contains_key(code) <==> exists|j: int|
                        0 <= j < count && codes[j] == code,
                forall|j: int| 0 <= j < count ==> index@[#[trigger] codes[j]] == j,
                forall|n: int|
                    0 <= n < count ==> (#[trigger] children@[n])@ == edges_out(d, n, k as int),
                forall|n: int|
                    0 <= n < count ==> (#[trigger] parents@[n])@ == edges_in(d, n, k as int),
            decreases dto.relations@.len() - k,
        {
            let pair: &[String; 2] = &dto.relations[k];
            proof {
                assert(d.relations[k as int] == (pair@[0]@, pair@[1]@));
                assert(d.lists(d.relations[k as int].0) && d.lists(d.relations[k as int].1));
                lemma_position_listed(d, pair@[0]@);
                lemma_position_listed(d, pair@[1]@);
                lemma_position_unique(codes, d.position(pair@[0]@));
                lemma_position_unique(codes, d.position(pair@[1]@));
                assert(codes[d.position(pair@[0]@)] == pair@[0]@);
                assert(codes[d.position(pair@[1]@)] == pair@[1]@);
            }
            let parent = lookup(&index, pair[0].as_str());
            let child = lookup(&index, pair[1].as_str());
            assert(parent == d.position(pair@[0]@));
            assert(child == d.position(pair@[1]@));
            let ghost children_before = children@;
            let ghost parents_before = parents@;
            children[parent as usize].push(child);
            parents[child as usize].push(parent);
            proof {
                assert forall|n: int| 0 <= n < count implies (#[trigger] children@[n])@
                    == edges_out(d, n, k + 1) by {
                    assert(children_before[n]@ == edges_out(d, n, k as int));
                }
                assert forall|n: int| 0 <= n < count implies (#[trigger] parents@[n])@ == edges_in(
                    d,
                    n,
                    k + 1,
                ) by {
                    assert(parents_before[n]@ == edges_in(d, n, k as int));
                }
            }
            k += 1;
        }

        let gmod = Gmod { version, index, children, parents, nodes };
        proof {
            let g = graph_of(d, version);
            assert(gmod@.nodes =~= g.nodes);
            assert(gmod@.children =~= g.children);
            assert(gmod@.parents =~= g.parents);
            assert(gmod@ == g);
            lemma_graph_of_wf(d, version);
            assert forall|code: Seq<char>| #[trigger]
                gmod.index@.contains_key(code) <==> gmod@.has(code) by {
                if gmod@.has(code) {
                    let j = choose|j: int| 0 <= j < codes.len() && codes[j] == code;
                    assert(0 <= j < count && codes[j] == code);
                }
            }
            assert forall|j: int| 0 <= j < gmod.nodes@.len() implies gmod.index@[(
            #[trigger] gmod.nodes@[j])@.code] == j by {
                assert(gmod.nodes@[j]@.code == codes[j]);
            }
        }
        Ok(gmod)
    }

    /// The schema version that this taxonomy is for.
    pub fn version(&self) -> (version: VisVersion)
        ensures
            version == self@.version,
    {
        self.version
    }

    /// How many nodes the taxonomy holds.
    pub fn len(&self) -> (count: usize)
        ensures
            count == self@.nodes.len(),
    {
        self.nodes.len()
    }

    /// The arena position of the node with this code, if there is one.
    pub fn find(&self, code: &str) -> (found: Option<u32>)
        requires
            self.wf(),
        ensures
            match found {
                Some(index) => self@.has(code@) && index == self@.position(code@),
                None => !self@.has(code@),
            },
    {
        match self.index.get(code) {
            Some(index) => {
                proof {
                    self.lemma_index_is_position(code@);
                }
                Some(*index)
            },
            None => None,
        }
    }

    /// The root is a node of the arena, and the arena holds it where the
    /// model says.
    pub proof fn lemma_root(&self)
        requires
            self.wf(),
        ensures
            self@.in_arena(self@.root()),
            self@.nodes[self@.root()].code == root_code(),
            self.node(self@.root())@.code == root_code(),
    {
        self.lemma_index_is_position(root_code());
    }

    /// For a code of the arena the index holds the position of its node.
    proof fn lemma_index_is_position(&self, code: Seq<char>)
        requires
            self.wf(),
            self@.has(code),
        ensures
            self.index@.contains_key(code),
            self.index@[code] == self@.position(code),
            self@.in_arena(self@.position(code)),
            self@.nodes[self@.position(code)].code == code,
    {
        let codes = self@.codes();
        let j = codes.index_of(code);
        assert(0 <= j < codes.len() && codes[j] == code);
        assert(self.nodes@[j]@.code == code);
    }

    /// The arena position of `node`, which has to be a node of this taxonomy.
    pub fn get_index(&self, node: &GmodNode) -> (index: usize)
        requires
            self.wf(),
            self@.has(node@.code),
        ensures
            index == self@.position(node@.code),
            self@.in_arena(index as int),
    {
        proof {
            self.lemma_index_is_position(node@.code);
        }
        lookup(&self.index, node.code()) as usize
    }

    /// The node at an arena position.
    pub fn node_at(&self, index: u32) -> (node: &GmodNode)
        requires
            self@.in_arena(index as int),
        ensures
            *node == self.node(index as int),
            node@ == self@.nodes[index as int],
    {
        &self.nodes[index as usize]
    }

    /// The root of the taxonomy.
    pub fn root_node(&self) -> (root: &GmodNode)
        requires
            self.wf(),
        ensures
            *root == self.node(self@.root()),
            root@.code == root_code(),
    {
        proof {
            self.lemma_index_is_position(root_code());
        }
        let index = lookup(&self.index, "VE");
        &self.nodes[index as usize]
    }

    /// The node with this code. The taxonomy has to hold one.
    pub fn get_node(&self, code: &str) -> (node: &GmodNode)
        requires
            self.wf(),
            self@.has(code@),
        ensures
            *node == self.node(self@.position(code@)),
            node@.code == code@,
    {
        proof {
            self.lemma_index_is_position(code@);
        }
        let index = lookup(&self.index, code);
        &self.nodes[index as usize]
    }

    /// The node with this code, or nothing where the taxonomy holds none.
    pub fn try_get_node(&self, code: &str) -> (found: Option<&GmodNode>)
        requires
            self.wf(),
        ensures
            match found {
                Some(node) => self@.has(code@) && *node == self.node(self@.position(code@))
                    && node@.code == code@,
                None => !self@.has(code@),
            },
    {
        match self.find(code) {
            Some(index) => {
                proof {
                    self.lemma_index_is_position(code@);
                }
                Some(&self.nodes[index as usize])
            },
            None => None,
        }
    }

    /// The arena positions of the children of the node at `index`, in the
    /// order in which the edges were given.
    pub fn child_positions(&self, index: u32) -> (list: &Vec<u32>)
        requires
            self.wf(),
            self@.in_arena(index as int),
        ensures
            list@ == self@.children[index as int],
    {
        &self.children[index as usize]
    }

    /// The arena positions of the parents of the node at `index`, in the
    /// order in which the edges were given.
    pub fn parent_positions(&self, index: u32) -> (list: &Vec<u32>)
        requires
            self.wf(),
            self@.in_arena(index as int),
        ensures
            list@ == self@.parents[index as int],
    {
        &self.parents[index as usize]
    }

    /// The arena nodes at the positions of `list`, in that order.
    pub fn nodes_at<'a>(&'a self, list: &Vec<u32>) -> (found: Vec<&'a GmodNode>)
        requires
            forall|j: int| 0 <= j < list@.len() ==> self@.in_arena(#[trigger] list@[j] as int),
        ensures
            self.are_nodes(found@, list@),
    {
        let mut found: Vec<&GmodNode> = Vec::with_capacity(list.len());
        let mut j: usize = 0;
        while j < list.len()
            invariant
                j <= list@.len(),
                found@.len() == j,
                forall|m: int| 0 <= m < list@.len() ==> self@.in_arena(#[trigger] list@[m] as int),
                forall|m: int| 0 <= m < j ==> *(#[trigger] found@[m]) == self.node(list@[m] as int),
            decreases list@.len() - j,
        {
            assert(self@.in_arena(list@[j as int] as int));
            found.push(&self.nodes[list[j] as usize]);
            j += 1;
        }
        found
    }

    /// The parents of `node`, in the order in which the edges were given.
    /// The node has to be a node of this taxonomy.
    pub fn get_parents<'a>(&'a self, node: &GmodNode) -> (found: Vec<&'a GmodNode>)
        requires
            self.wf(),
            self@.has(node@.code),
        ensures
            self.are_nodes(found@, self@.parents[self@.position(node@.code)]),
    {
        let index = self.get_index(node);
        assert(self.parents@[index as int]@ == self@.parents[index as int]);
        self.nodes_at(&self.parents[index])
    }

    /// The children of `node`, in the order in which the edges were given.
    /// The node has to be a node of this taxonomy.
    pub fn get_children<'a>(&'a self, node: &GmodNode) -> (found: Vec<&'a GmodNode>)
        requires
            self.wf(),
            self@.has(node@.code),
        ensures
            self.are_nodes(found@, self@.children[self@.position(node@.code)]),
    {
        let index = self.get_index(node);
        assert(self.children@[index as int]@ == self@.children[index as int]);
        self.nodes_at(&self.children[index])
    }

    /// The product type of `node`, which has to be a node of this taxonomy:
    /// its only child, where `node` is a function and the child a product type.
    pub fn get_product_type_for<'a>(&'a self, node: &GmodNode) -> (found: Option<&'a GmodNode>)
        requires
            self.wf(),
            self@.has(node@.code),
        ensures
            match self@.product_type(node@) {
                Some(child) => found matches Some(product) && *product == self.node(child),
                None => found is None,
            },
    {
        let index = self.get_index(node);
        let children = &self.children[index];
        assert(children@ == self@.children[index as int]);
        if children.len() != 1 {
            return None;
        }
        if !contains_text(node.metadata().category(), "FUNCTION") {
            return None;
        }
        assert(self@.in_arena(children@[0] as int));
        let child = &self.nodes[children[0] as usize];
        if !same_text(child.metadata().category(), "PRODUCT") || !same_text(
            child.metadata().node_type(),
            "TYPE",
        ) {
            return None;
        }
        Some(child)
    }

    /// The product selection of `node`, which has to be a node of this
    /// taxonomy: its only child, where `node` is a function and the child a
    /// selection among products.
    pub fn get_product_selection_for<'a>(&'a self, node: &GmodNode) -> (found: Option<
        &'a GmodNode,
    >)
        requires
            self.wf(),
            self@.has(node@.code),
        ensures
            match self@.product_selection(node@) {
                Some(child) => found matches Some(product) && *product == self.node(child),
                None => found is None,
            },
    {
        let index = self.get_index(node);
        let children = &self.children[index];
        assert(children@ == self@.children[index as int]);
        if children.len() != 1 {
            return None;
        }
        if !contains_text(node.metadata().category(), "FUNCTION") {
            return None;
        }
        assert(self@.in_arena(children@[0] as int));
        let child = &self.nodes[children[0] as usize];
        if !contains_text(child.metadata().category(), "PRODUCT") || !same_text(
            child.metadata().node_type(),
            "SELECTION",
        ) {
            return None;
        }
        Some(child)
    }
}

impl GmodNode {
    /// The product type of this node in `gmod`, which has to hold the node.
    pub fn product_type<'a>(&self, gmod: &'a Gmod) -> (found: Option<&'a GmodNode>)
        requires
            gmod.wf(),
            gmod@.has(self@.code),
        ensures
            match gmod@.product_type(self@) {
                Some(child) => found matches Some(product) && *product == gmod.node(child),
                None => found is None,
            },
    {
        gmod.get_product_type_for(self)
    }

    /// The product selection of this node in `gmod`, which has to hold the node.
    pub fn product_selection<'a>(&self, gmod: &'a Gmod) -> (found: Option<&'a GmodNode>)
        requires
            gmod.wf(),
            gmod@.has(self@.code),
        ensures
            match gmod@.product_selection(self@) {
                Some(child) => found matches Some(product) && *product == gmod.node(child),
                None => found is None,
            },
    {
        gmod.get_product_selection_for(self)
    }
}

} // verus!
