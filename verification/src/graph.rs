//! The mathematical model of a taxonomy: nodes in arena order and, for each
//! node, the arena positions of its children and of its parents, in the
//! order in which the edges were given.

use crate::dto::{root_code, Definition, NodeRecord};
use crate::node::{node_of, NodeView};
use crate::text::occurs_in;
use crate::version::VisVersion;
use vstd::prelude::*;

verus! {

/// What a taxonomy holds.
pub struct GmodView {
    pub version: VisVersion,
    pub nodes: Seq<NodeView>,
    pub children: Seq<Seq<u32>>,
    pub parents: Seq<Seq<u32>>,
}

impl GmodView {
    /// The codes of the nodes, in arena order.
    pub open spec fn codes(self) -> Seq<Seq<char>> {
        self.nodes.map_values(|node: NodeView| node.code)
    }

    /// Whether some node carries `code`.
    pub open spec fn has(self, code: Seq<char>) -> bool {
        self.codes().contains(code)
    }

    /// The arena position of the node that carries `code`.
    pub open spec fn position(self, code: Seq<char>) -> int {
        self.codes().index_of(code)
    }

    /// The arena position of the root.
    pub open spec fn root(self) -> int {
        self.position(root_code())
    }

    /// Whether `index` is an arena position.
    pub open spec fn in_arena(self, index: int) -> bool {
        0 <= index < self.nodes.len()
    }

    /// Whether there is an edge from the node at `parent` to the node at `child`.
    pub open spec fn edge(self, parent: int, child: int) -> bool {
        &&& self.in_arena(parent)
        &&& self.in_arena(child)
        &&& self.children[parent].contains(child as u32)
    }

    /// The only child of the node at `index`, where it has exactly one.
    pub open spec fn only_child(self, index: int) -> Option<int> {
        if self.children[index].len() == 1 {
            Some(self.children[index][0] as int)
        } else {
            None
        }
    }

    /// The product type of `node`: its only child, where the category of
    /// `node` mentions FUNCTION and the child is of category PRODUCT and of
    /// type TYPE.
    pub open spec fn product_type(self, node: NodeView) -> Option<int> {
        match self.only_child(self.position(node.code)) {
            Some(child) => if occurs_in("FUNCTION"@, node.metadata.category)
                && self.nodes[child].metadata.category == "PRODUCT"@
                && self.nodes[child].metadata.node_type == "TYPE"@ {
                Some(child)
            } else {
                None
            },
            None => None,
        }
    }

    /// The product selection of `node`: its only child, where the category of
    /// `node` mentions FUNCTION, the category of the child mentions PRODUCT
    /// and the child is of type SELECTION.
    pub open spec fn product_selection(self, node: NodeView) -> Option<int> {
        match self.only_child(self.position(node.code)) {
            Some(child) => if occurs_in("FUNCTION"@, node.metadata.category) && occurs_in(
                "PRODUCT"@,
                self.nodes[child].metadata.category,
            ) && self.nodes[child].metadata.node_type == "SELECTION"@ {
                Some(child)
            } else {
                None
            },
            None => None,
        }
    }

    /// The invariant of a taxonomy: one adjacency entry per node in each
    /// direction, no code twice, the root present, every adjacent position
    /// inside the arena, and an edge listed among the children of its parent
    /// exactly when it is listed among the parents of its child.
    pub open spec fn wf(self) -> bool {
        &&& self.nodes.len() <= u32::MAX
        &&& self.children.len() == self.nodes.len()
        &&& self.parents.len() == self.nodes.len()
        &&& self.codes().no_duplicates()
        &&& self.has(root_code())
        &&& forall|p: int, j: int|
            0 <= p < self.children.len() && 0 <= j < self.children[p].len() ==> (
            #[trigger] self.children[p][j]) < self.nodes.len()
        &&& forall|c: int, j: int|
            0 <= c < self.parents.len() && 0 <= j < self.parents[c].len() ==> (
            #[trigger] self.parents[c][j]) < self.nodes.len()
        &&& forall|p: int, c: int|
            0 <= p < self.nodes.len() && 0 <= c < self.nodes.len() ==> (
            #[trigger] self.children[p].contains(c as u32) <==> #[trigger] self.parents[c].contains(
                p as u32,
            ))
    }
}

/// The children of the node at `node` that the first `upto` edges of a
/// definition give it, in the order of the edges.
pub open spec fn edges_out(d: Definition, node: int, upto: int) -> Seq<u32>
    decreases upto,
{
    if upto <= 0 {
        Seq::<u32>::empty()
    } else {
        let before = edges_out(d, node, upto - 1);
        if d.position(d.relations[upto - 1].0) == node {
            before.push(d.position(d.relations[upto - 1].1) as u32)
        } else {
            before
        }
    }
}

/// The parents of the node at `node` that the first `upto` edges of a
/// definition give it, in the order of the edges.
pub open spec fn edges_in(d: Definition, node: int, upto: int) -> Seq<u32>
    decreases upto,
{
    if upto <= 0 {
        Seq::<u32>::empty()
    } else {
        let before = edges_in(d, node, upto - 1);
        if d.position(d.relations[upto - 1].1) == node {
            before.push(d.position(d.relations[upto - 1].0) as u32)
        } else {
            before
        }
    }
}

/// The taxonomy that a definition describes: one node per record, in the
/// order of the records, and the edges in the order in which they are given.
pub open spec fn graph_of(d: Definition, version: VisVersion) -> GmodView {
    GmodView {
        version,
        nodes: d.items.map_values(|record: NodeRecord| node_of(record)),
        children: Seq::new(d.items.len(), |i: int| edges_out(d, i, d.relations.len() as int)),
        parents: Seq::new(d.items.len(), |i: int| edges_in(d, i, d.relations.len() as int)),
    }
}

/// In a sequence without repetition an element is found where it stands.
pub proof fn lemma_position_unique(codes: Seq<Seq<char>>, i: int)
    requires
        codes.no_duplicates(),
        0 <= i < codes.len(),
    ensures
        codes.index_of(codes[i]) == i,
{
    let j = codes.index_of(codes[i]);
    assert(0 <= j < codes.len() && codes[j] == codes[i]);
}

/// A listed code has a position in the arena, and the record there carries it.
pub proof fn lemma_position_listed(d: Definition, code: Seq<char>)
    requires
        d.lists(code),
    ensures
        0 <= d.position(code) < d.items.len(),
        d.items[d.position(code)].code == code,
{
    let codes = d.codes();
    let j = codes.index_of(code);
    assert(0 <= j < codes.len() && codes[j] == code);
}

/// What the first `upto` edges say about one pair of positions: the child is
/// among the children of the parent exactly when the parent is among the
/// parents of the child, and all positions lie inside the arena.
pub proof fn lemma_edges_agree(d: Definition, upto: int)
    requires
        d.consistent(),
        0 <= upto <= d.relations.len(),
    ensures
        forall|p: int, j: int|
            0 <= j < edges_out(d, p, upto).len() ==> (#[trigger] edges_out(d, p, upto)[j])
                < d.items.len(),
        forall|c: int, j: int|
            0 <= j < edges_in(d, c, upto).len() ==> (#[trigger] edges_in(d, c, upto)[j])
                < d.items.len(),
        forall|p: int, c: int|
            0 <= p < d.items.len() && 0 <= c < d.items.len() ==> (#[trigger] edges_out(
                d,
                p,
                upto,
            ).contains(c as u32) <==> #[trigger] edges_in(d, c, upto).contains(p as u32)),
    decreases upto,
{
    if upto > 0 {
        lemma_edges_agree(d, upto - 1);
        let edge = d.relations[upto - 1];
        lemma_position_listed(d, edge.0);
        lemma_position_listed(d, edge.1);
        let from = d.position(edge.0);
        let to = d.position(edge.1);
        assert forall|p: int, j: int| 0 <= j < edges_out(d, p, upto).len() implies (
        #[trigger] edges_out(d, p, upto)[j]) < d.items.len() by {
            let before = edges_out(d, p, upto - 1);
            if j < before.len() {
                assert(before[j] < d.items.len());
            }
        }
        assert forall|c: int, j: int| 0 <= j < edges_in(d, c, upto).len() implies (
        #[trigger] edges_in(d, c, upto)[j]) < d.items.len() by {
            let before = edges_in(d, c, upto - 1);
            if j < before.len() {
                assert(before[j] < d.items.len());
            }
        }
        assert forall|p: int, c: int| 0 <= p < d.items.len() && 0 <= c < d.items.len() implies (
        #[trigger] edges_out(d, p, upto).contains(c as u32) <==> #[trigger] edges_in(
            d,
            c,
            upto,
        ).contains(p as u32)) by {
            let out_before = edges_out(d, p, upto - 1);
            let in_before = edges_in(d, c, upto - 1);
            assert(out_before.contains(c as u32) <==> in_before.contains(p as u32));
            lemma_push_contains(out_before, to as u32, c as u32);
            lemma_push_contains(in_before, from as u32, p as u32);
        }
    }
}

/// Membership in a sequence that got one more element.
pub proof fn lemma_push_contains(s: Seq<u32>, last: u32, x: u32)
    ensures
        s.push(last).contains(x) <==> (s.contains(x) || x == last),
{
    if s.contains(x) {
        let k = choose|k: int| 0 <= k < s.len() && s[k] == x;
        assert(s.push(last)[k] == x);
    }
    if x == last {
        assert(s.push(last)[s.len() as int] == x);
    }
}

/// A consistent definition describes a taxonomy that meets the invariant: in
/// particular its adjacency is symmetric.
pub proof fn lemma_graph_of_wf(d: Definition, version: VisVersion)
    requires
        d.consistent(),
    ensures
        graph_of(d, version).wf(),
        graph_of(d, version).codes() == d.codes(),
{
    let g = graph_of(d, version);
    lemma_edges_agree(d, d.relations.len() as int);
    assert(g.codes() =~= d.codes());
}

} // verus!
