//! What a depth-first traversal visits, as a function of the graph, the
//! starting node and the answers that the handler gives, one per visit.
//!
//! A node that stands on the path from the starting node to the current
//! node is passed over. The check is made against that path alone, so a node
//! with two parents is visited once for each path that leads to it.

use crate::graph::GmodView;
use vstd::prelude::*;
use vstd::set_lib::{lemma_int_range, lemma_len_subset, set_int_range};

verus! {

/// What a handler answers when it is shown a node.
#[derive(Clone, Copy, Debug, PartialEq, Eq, Structural)]
pub enum TraversalHandlerResult {
    /// End the whole traversal now.
    Stop,
    /// Do not go into the children of this node.
    SkipSubtree,
    /// Go on into the children of this node.
    Continue,
}

/// One visit: the node shown to the handler and the arena positions of its
/// ancestors on the current path, the starting node first.
pub struct Visit {
    pub path: Seq<u32>,
    pub node: u32,
}

/// The visits of a traversal, in order, and whether a handler stopped it.
pub struct Walk {
    pub visits: Seq<Visit>,
    pub stopped: bool,
}

impl Walk {
    /// The walk that visits nothing.
    pub open spec fn nothing() -> Walk {
        Walk { visits: Seq::<Visit>::empty(), stopped: false }
    }

    /// This walk followed by `next`, which is left out where this walk was stopped.
    pub open spec fn then_walk(self, next: Walk) -> Walk {
        if self.stopped {
            self
        } else {
            Walk { visits: self.visits + next.visits, stopped: next.stopped }
        }
    }
}

/// The walk from `node`, reached along `path`. The handler's answer to the
/// first visit is `answers[at]`, to the second `answers[at + 1]`, and so on.
///
/// A node on `path` is passed over. Otherwise the node is visited; on
/// `Stop` the walk ends, on `SkipSubtree` it goes on beside the node, on
/// `Continue` it goes through the children of the node in their order. A
/// path that holds every node of the arena leaves nothing to visit.
pub open spec fn visit_from(
    g: GmodView,
    path: Seq<u32>,
    node: u32,
    answers: Seq<TraversalHandlerResult>,
    at: int,
) -> Walk
    decreases g.nodes.len() - path.len(), 0int,
{
    if path.contains(node) || path.len() >= g.nodes.len() {
        Walk::nothing()
    } else {
        let here = Visit { path, node };
        match answers[at] {
            TraversalHandlerResult::Stop => Walk { visits: seq![here], stopped: true },
            TraversalHandlerResult::SkipSubtree => Walk { visits: seq![here], stopped: false },
            TraversalHandlerResult::Continue => {
                let kids = g.children[node as int];
                let below = descend(g, path.push(node), kids, kids.len() as int, answers, at + 1);
                Walk { visits: seq![here] + below.visits, stopped: below.stopped }
            },
        }
    }
}

/// The walk through the first `upto` of the children `kids` of the last node
/// of `path`, one after the other, until a handler stops it.
pub open spec fn descend(
    g: GmodView,
    path: Seq<u32>,
    kids: Seq<u32>,
    upto: int,
    answers: Seq<TraversalHandlerResult>,
    at: int,
) -> Walk
    decreases g.nodes.len() - path.len(), upto + 1,
{
    if upto <= 0 {
        Walk::nothing()
    } else {
        let before = descend(g, path, kids, upto - 1, answers, at);
        before.then_walk(visit_from(g, path, kids[upto - 1], answers, at + before.visits.len()))
    }
}

/// The walk of a whole traversal that starts at `start` with an empty path.
pub open spec fn traversal(g: GmodView, start: u32, answers: Seq<TraversalHandlerResult>) -> Walk {
    visit_from(g, Seq::<u32>::empty(), start, answers, 0)
}

/// Two lists of answers agree on `count` answers, from `at_a` in the first
/// and from `at_b` in the second.
pub open spec fn same_answers(
    a: Seq<TraversalHandlerResult>,
    at_a: int,
    b: Seq<TraversalHandlerResult>,
    at_b: int,
    count: int,
) -> bool {
    forall|i: int| 0 <= i < count ==> #[trigger] a[at_a + i] == b[at_b + i]
}

/// A walk depends on no more answers than it has visits.
pub proof fn lemma_visit_reads_its_answers(
    g: GmodView,
    path: Seq<u32>,
    node: u32,
    a: Seq<TraversalHandlerResult>,
    at_a: int,
    b: Seq<TraversalHandlerResult>,
    at_b: int,
)
    requires
        same_answers(a, at_a, b, at_b, visit_from(g, path, node, a, at_a).visits.len() as int),
    ensures
        visit_from(g, path, node, b, at_b) == visit_from(g, path, node, a, at_a),
    decreases g.nodes.len() - path.len(), 0int,
{
    if path.contains(node) || path.len() >= g.nodes.len() {
    } else {
        assert(a[at_a + 0] == b[at_b + 0]);
        if a[at_a] == TraversalHandlerResult::Continue {
            let kids = g.children[node as int];
            let below = descend(g, path.push(node), kids, kids.len() as int, a, at_a + 1);
            assert forall|i: int| 0 <= i < below.visits.len() implies #[trigger] a[at_a + 1 + i]
                == b[at_b + 1 + i] by {
                assert(a[at_a + (i + 1)] == b[at_b + (i + 1)]);
            }
            lemma_descend_reads_its_answers(
                g,
                path.push(node),
                kids,
                kids.len() as int,
                a,
                at_a + 1,
                b,
                at_b + 1,
            );
        }
    }
}

/// A walk through children depends on no more answers than it has visits.
pub proof fn lemma_descend_reads_its_answers(
    g: GmodView,
    path: Seq<u32>,
    kids: Seq<u32>,
    upto: int,
    a: Seq<TraversalHandlerResult>,
    at_a: int,
    b: Seq<TraversalHandlerResult>,
    at_b: int,
)
    requires
        same_answers(a, at_a, b, at_b, descend(g, path, kids, upto, a, at_a).visits.len() as int),
    ensures
        descend(g, path, kids, upto, b, at_b) == descend(g, path, kids, upto, a, at_a),
    decreases g.nodes.len() - path.len(), upto + 1,
{
    if upto > 0 {
        let before = descend(g, path, kids, upto - 1, a, at_a);
        let last = visit_from(g, path, kids[upto - 1], a, at_a + before.visits.len());
        assert(same_answers(a, at_a, b, at_b, before.visits.len() as int));
        lemma_descend_reads_its_answers(g, path, kids, upto - 1, a, at_a, b, at_b);
        if !before.stopped {
            assert forall|i: int| 0 <= i < last.visits.len() implies #[trigger] a[at_a
                + before.visits.len() + i] == b[at_b + before.visits.len() + i] by {
                assert(a[at_a + (before.visits.len() + i)] == b[at_b + (before.visits.len() + i)]);
            }
            lemma_visit_reads_its_answers(
                g,
                path,
                kids[upto - 1],
                a,
                at_a + before.visits.len(),
                b,
                at_b + before.visits.len(),
            );
        }
    }
}

/// A path of the graph without repetition: every position lies inside the
/// arena and none stands twice.
pub open spec fn simple_path(g: GmodView, path: Seq<u32>) -> bool {
    &&& path.no_duplicates()
    &&& forall|k: int| 0 <= k < path.len() ==> g.in_arena(#[trigger] path[k] as int)
}

/// A path without repetition is no longer than the arena.
pub proof fn lemma_simple_path_fits(g: GmodView, path: Seq<u32>)
    requires
        simple_path(g, path),
    ensures
        path.len() <= g.nodes.len(),
{
    let positions = Seq::new(path.len(), |k: int| path[k] as int);
    assert(positions.no_duplicates());
    positions.unique_seq_to_set();
    let arena = set_int_range(0, g.nodes.len() as int);
    lemma_int_range(0, g.nodes.len() as int);
    assert(positions.to_set().subset_of(arena)) by {
        assert forall|x: int| positions.to_set().contains(x) implies arena.contains(x) by {
            let k = choose|k: int| 0 <= k < positions.len() && positions[k] == x;
            assert(g.in_arena(path[k] as int));
        }
    }
    lemma_len_subset(positions.to_set(), arena);
}

/// A path without repetition stays one when a node that is not on it is added.
pub proof fn lemma_simple_path_push(g: GmodView, path: Seq<u32>, node: u32)
    requires
        simple_path(g, path),
        g.in_arena(node as int),
        !path.contains(node),
    ensures
        simple_path(g, path.push(node)),
        path.len() < g.nodes.len(),
{
    let longer = path.push(node);
    assert forall|i: int, j: int| 0 <= i < longer.len() && 0 <= j < longer.len() && i != j implies longer[i]
        != longer[j] by {
        if i < path.len() && j < path.len() {
            assert(path[i] != path[j]);
        } else if i < path.len() {
            assert(path.contains(path[i]));
        } else {
            assert(path.contains(path[j]));
        }
    }
    assert forall|k: int| 0 <= k < longer.len() implies g.in_arena(#[trigger] longer[k] as int) by {
        if k < path.len() {
            assert(g.in_arena(path[k] as int));
        }
    }
    lemma_simple_path_fits(g, longer);
}

} // verus!
