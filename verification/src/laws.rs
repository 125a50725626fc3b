//! What holds of every traversal, proved from the model of the walk.

use crate::dto::{root_code, Definition};
use crate::graph::{edges_in, edges_out, graph_of, lemma_graph_of_wf, lemma_position_listed, GmodView};
use crate::version::VisVersion;
use crate::walk::{descend, simple_path, traversal, visit_from, TraversalHandlerResult, Visit, Walk};
use vstd::prelude::*;

verus! {

/// The answer `Stop` ends a walk: it is the answer to the last visit, and a
/// walk is stopped exactly when its last visit was answered `Stop`.
pub proof fn lemma_visit_stop(
    g: GmodView,
    path: Seq<u32>,
    node: u32,
    answers: Seq<TraversalHandlerResult>,
    at: int,
)
    ensures
        ({
            let walk = visit_from(g, path, node, answers, at);
            &&& forall|k: int|
                0 <= k < walk.visits.len() && #[trigger] answers[at + k]
                    == TraversalHandlerResult::Stop ==> k == walk.visits.len() - 1
            &&& walk.stopped <==> walk.visits.len() > 0 && answers[at + walk.visits.len() - 1]
                == TraversalHandlerResult::Stop
        }),
    decreases g.nodes.len() - path.len(), 0int,
{
    if path.contains(node) || path.len() >= g.nodes.len() {
    } else {
        if answers[at] == TraversalHandlerResult::Continue {
            let kids = g.children[node as int];
            let below = descend(g, path.push(node), kids, kids.len() as int, answers, at + 1);
            lemma_descend_stop(g, path.push(node), kids, kids.len() as int, answers, at + 1);
            let walk = visit_from(g, path, node, answers, at);
            assert forall|k: int|
                0 <= k < walk.visits.len() && #[trigger] answers[at + k]
                    == TraversalHandlerResult::Stop implies k == walk.visits.len() - 1 by {
                if k > 0 {
                    assert(answers[at + 1 + (k - 1)] == TraversalHandlerResult::Stop);
                }
            }
        }
    }
}

/// The same for a walk through children.
pub proof fn lemma_descend_stop(
    g: GmodView,
    path: Seq<u32>,
    kids: Seq<u32>,
    upto: int,
    answers: Seq<TraversalHandlerResult>,
    at: int,
)
    ensures
        ({
            let walk = descend(g, path, kids, upto, answers, at);
            &&& forall|k: int|
                0 <= k < walk.visits.len() && #[trigger] answers[at + k]
                    == TraversalHandlerResult::Stop ==> k == walk.visits.len() - 1
            &&& walk.stopped <==> walk.visits.len() > 0 && answers[at + walk.visits.len() - 1]
                == TraversalHandlerResult::Stop
        }),
    decreases g.nodes.len() - path.len(), upto + 1,
{
    if upto > 0 {
        let before = descend(g, path, kids, upto - 1, answers, at);
        lemma_descend_stop(g, path, kids, upto - 1, answers, at);
        if !before.stopped {
            let from = at + before.visits.len();
            let last = visit_from(g, path, kids[upto - 1], answers, from);
            lemma_visit_stop(g, path, kids[upto - 1], answers, from);
            let walk = descend(g, path, kids, upto, answers, at);
            assert(walk.visits == before.visits + last.visits);
            assert forall|k: int|
                0 <= k < walk.visits.len() && #[trigger] answers[at + k]
                    == TraversalHandlerResult::Stop implies k == walk.visits.len() - 1 by {
                if k < before.visits.len() {
                    assert(k == before.visits.len() - 1);
                    assert(before.stopped);
                } else {
                    assert(answers[from + (k - before.visits.len())]
                        == TraversalHandlerResult::Stop);
                }
            }
        }
    }
}

/// `Stop` short-circuits: after a visit that is answered `Stop` no further
/// node is visited, and the traversal is stopped.
pub proof fn lemma_stop_short_circuits(
    g: GmodView,
    start: u32,
    answers: Seq<TraversalHandlerResult>,
    k: int,
)
    requires
        0 <= k < traversal(g, start, answers).visits.len(),
        answers[k] == TraversalHandlerResult::Stop,
    ensures
        traversal(g, start, answers).visits.len() == k + 1,
        traversal(g, start, answers).stopped,
{
    lemma_visit_stop(g, Seq::<u32>::empty(), start, answers, 0);
    assert(answers[0 + k] == TraversalHandlerResult::Stop);
}

/// A traversal in which no visit is answered `Stop` runs to its end.
pub proof fn lemma_without_stop_completes(
    g: GmodView,
    start: u32,
    answers: Seq<TraversalHandlerResult>,
)
    requires
        forall|k: int|
            0 <= k < traversal(g, start, answers).visits.len() ==> answers[k]
                != TraversalHandlerResult::Stop,
    ensures
        !traversal(g, start, answers).stopped,
{
    lemma_visit_stop(g, Seq::<u32>::empty(), start, answers, 0);
}

/// There is an edge from the node at place `k` of `trail` to the next one.
pub open spec fn step_is_edge(g: GmodView, trail: Seq<u32>, k: int) -> bool {
    g.edge(trail[k] as int, trail[k + 1] as int)
}

/// The trail of a visit: its ancestors and then its node.
pub open spec fn trail_of(visit: Visit) -> Seq<u32> {
    visit.path.push(visit.node)
}

/// The visit was reached from `node` below `path`: its trail begins with
/// `path`, goes on with `node`, from there on follows edges of the graph,
/// and holds no node twice.
pub open spec fn reached_from(g: GmodView, path: Seq<u32>, node: u32, visit: Visit) -> bool {
    &&& visit.path.len() >= path.len()
    &&& visit.path.take(path.len() as int) == path
    &&& trail_of(visit)[path.len() as int] == node
    &&& simple_path(g, trail_of(visit))
    &&& forall|k: int| path.len() <= k < visit.path.len() ==> #[trigger] step_is_edge(g, trail_of(visit), k)
}

/// Every visit of a walk from a node was reached from that node.
pub proof fn lemma_visit_trails(
    g: GmodView,
    path: Seq<u32>,
    node: u32,
    answers: Seq<TraversalHandlerResult>,
    at: int,
)
    requires
        g.wf(),
        simple_path(g, path),
        g.in_arena(node as int),
    ensures
        forall|i: int|
            0 <= i < visit_from(g, path, node, answers, at).visits.len() ==> reached_from(
                g,
                path,
                node,
                #[trigger] visit_from(g, path, node, answers, at).visits[i],
            ),
    decreases g.nodes.len() - path.len(), 0int,
{
    let walk = visit_from(g, path, node, answers, at);
    if path.contains(node) || path.len() >= g.nodes.len() {
    } else {
        crate::walk::lemma_simple_path_push(g, path, node);
        let here = Visit { path, node };
        assert(reached_from(g, path, node, here)) by {
            assert(here.path.take(path.len() as int) =~= path);
        }
        if answers[at] == TraversalHandlerResult::Continue {
            let inner = path.push(node);
            let kids = g.children[node as int];
            let below = descend(g, inner, kids, kids.len() as int, answers, at + 1);
            lemma_descend_trails(g, inner, kids, kids.len() as int, answers, at + 1);
            assert forall|i: int| 0 <= i < walk.visits.len() implies reached_from(
                g,
                path,
                node,
                #[trigger] walk.visits[i],
            ) by {
                if i > 0 {
                    let v = below.visits[i - 1];
                    assert(walk.visits[i] == v);
                    let q = choose|q: int| 0 <= q < kids.len() && reached_from(g, inner, kids[q], v);
                    let trail = trail_of(v);
                    assert(v.path.take(inner.len() as int) == inner);
                    assert(v.path.take(path.len() as int) =~= path) by {
                        assert forall|k: int| 0 <= k < path.len() implies v.path[k] == path[k] by {
                            assert(v.path.take(inner.len() as int)[k] == inner[k]);
                        }
                    }
                    assert(trail[path.len() as int] == node) by {
                        assert(v.path.take(inner.len() as int)[path.len() as int] == inner[path.len() as int]);
                    }
                    assert forall|k: int| path.len() <= k < v.path.len() implies #[trigger] step_is_edge(
                        g,
                        trail,
                        k,
                    ) by {
                        if k == path.len() {
                            assert(trail[k] == node);
                            assert(trail[k + 1] == kids[q]);
                            assert(g.children[node as int].contains(kids[q]));
                            assert(simple_path(g, trail));
                            assert(g.in_arena(trail[k + 1] as int));
                        } else {
                            assert(step_is_edge(g, trail, k));
                        }
                    }
                }
            }
        }
    }
}

/// Every visit of a walk through children was reached from one of them.
pub proof fn lemma_descend_trails(
    g: GmodView,
    path: Seq<u32>,
    kids: Seq<u32>,
    upto: int,
    answers: Seq<TraversalHandlerResult>,
    at: int,
)
    requires
        g.wf(),
        simple_path(g, path),
        upto <= kids.len(),
        forall|q: int| 0 <= q < kids.len() ==> g.in_arena(#[trigger] kids[q] as int),
    ensures
        forall|i: int|
            0 <= i < descend(g, path, kids, upto, answers, at).visits.len() ==> exists|q: int|
                0 <= q < upto && reached_from(
                    g,
                    path,
                    kids[q],
                    #[trigger] descend(g, path, kids, upto, answers, at).visits[i],
                ),
    decreases g.nodes.len() - path.len(), upto + 1,
{
    if upto > 0 {
        let walk = descend(g, path, kids, upto, answers, at);
        let before = descend(g, path, kids, upto - 1, answers, at);
        lemma_descend_trails(g, path, kids, upto - 1, answers, at);
        if !before.stopped {
            let from = at + before.visits.len();
            let last = visit_from(g, path, kids[upto - 1], answers, from);
            lemma_visit_trails(g, path, kids[upto - 1], answers, from);
            assert forall|i: int| 0 <= i < walk.visits.len() implies exists|q: int|
                0 <= q < upto && reached_from(g, path, kids[q], #[trigger] walk.visits[i]) by {
                if i < before.visits.len() {
                    assert(walk.visits[i] == before.visits[i]);
                    let q = choose|q: int|
                        0 <= q < upto - 1 && reached_from(g, path, kids[q], before.visits[i]);
                    assert(0 <= q < upto && reached_from(g, path, kids[q], walk.visits[i]));
                } else {
                    assert(walk.visits[i] == last.visits[i - before.visits.len()]);
                    assert(reached_from(g, path, kids[upto - 1], walk.visits[i]));
                }
            }
        } else {
            assert forall|i: int| 0 <= i < walk.visits.len() implies exists|q: int|
                0 <= q < upto && reached_from(g, path, kids[q], #[trigger] walk.visits[i]) by {
                let q = choose|q: int|
                    0 <= q < upto - 1 && reached_from(g, path, kids[q], before.visits[i]);
                assert(0 <= q < upto && reached_from(g, path, kids[q], walk.visits[i]));
            }
        }
    }
}

/// Cycle safety: the ancestors of a visit together with its node form a
/// path from the starting node along edges of the graph that holds no node
/// twice. So no visit lies deeper than the arena has nodes, however the
/// edges run.
pub proof fn lemma_visits_lie_on_simple_paths(
    g: GmodView,
    start: u32,
    answers: Seq<TraversalHandlerResult>,
    i: int,
)
    requires
        g.wf(),
        g.in_arena(start as int),
        0 <= i < traversal(g, start, answers).visits.len(),
    ensures
        ({
            let trail = trail_of(traversal(g, start, answers).visits[i]);
            &&& trail[0] == start
            &&& simple_path(g, trail)
            &&& trail.len() <= g.nodes.len()
            &&& forall|k: int| 0 <= k < trail.len() - 1 ==> #[trigger] step_is_edge(g, trail, k)
        }),
{
    lemma_visit_trails(g, Seq::<u32>::empty(), start, answers, 0);
    let visit = traversal(g, start, answers).visits[i];
    assert(reached_from(g, Seq::<u32>::empty(), start, visit));
    crate::walk::lemma_simple_path_fits(g, trail_of(visit));
}

/// The ancestor at place `k` of visit `i` was itself visited before, with
/// the ancestors before it as its ancestors, and was answered `Continue`.
pub open spec fn entered_before(
    walk: Walk,
    answers: Seq<TraversalHandlerResult>,
    at: int,
    i: int,
    k: int,
) -> bool {
    exists|j: int|
        0 <= j < i && (#[trigger] walk.visits[j]).node == walk.visits[i].path[k]
            && walk.visits[j].path == walk.visits[i].path.take(k) && answers[at + j]
            == TraversalHandlerResult::Continue
}

/// In a walk from a node, every ancestor below `path` was entered before.
pub proof fn lemma_visit_ancestors(
    g: GmodView,
    path: Seq<u32>,
    node: u32,
    answers: Seq<TraversalHandlerResult>,
    at: int,
)
    requires
        g.wf(),
        simple_path(g, path),
        g.in_arena(node as int),
    ensures
        forall|i: int, k: int|
            0 <= i < visit_from(g, path, node, answers, at).visits.len() && path.len() <= k
                < visit_from(g, path, node, answers, at).visits[i].path.len()
                ==> #[trigger] entered_before(
                visit_from(g, path, node, answers, at),
                answers,
                at,
                i,
                k,
            ),
    decreases g.nodes.len() - path.len(), 0int,
{
    let walk = visit_from(g, path, node, answers, at);
    if path.contains(node) || path.len() >= g.nodes.len() {
    } else if answers[at] == TraversalHandlerResult::Continue {
        crate::walk::lemma_simple_path_push(g, path, node);
        let inner = path.push(node);
        let kids = g.children[node as int];
        let below = descend(g, inner, kids, kids.len() as int, answers, at + 1);
        lemma_descend_ancestors(g, inner, kids, kids.len() as int, answers, at + 1);
        lemma_descend_trails(g, inner, kids, kids.len() as int, answers, at + 1);
        assert forall|i: int, k: int|
            0 <= i < walk.visits.len() && path.len() <= k
                < walk.visits[i].path.len() implies #[trigger] entered_before(
            walk,
            answers,
            at,
            i,
            k,
        ) by {
            let v = below.visits[i - 1];
            assert(walk.visits[i] == v);
            let q = choose|q: int| 0 <= q < kids.len() && reached_from(g, inner, kids[q], v);
            assert(v.path.take(inner.len() as int) == inner);
            if k == path.len() {
                assert(v.path.take(inner.len() as int)[k] == inner[k]);
                assert(v.path.take(k) =~= path) by {
                    assert forall|m: int| 0 <= m < path.len() implies v.path[m] == path[m] by {
                        assert(v.path.take(inner.len() as int)[m] == inner[m]);
                    }
                }
                assert(walk.visits[0].node == v.path[k] && walk.visits[0].path == v.path.take(k)
                    && answers[at + 0] == TraversalHandlerResult::Continue);
            } else {
                assert(entered_before(below, answers, at + 1, i - 1, k));
                let j = choose|j: int|
                    0 <= j < i - 1 && (#[trigger] below.visits[j]).node == v.path[k]
                        && below.visits[j].path == v.path.take(k) && answers[at + 1 + j]
                        == TraversalHandlerResult::Continue;
                assert(walk.visits[j + 1] == below.visits[j]);
                assert(0 <= j + 1 < i && walk.visits[j + 1].node == v.path[k] && walk.visits[j
                    + 1].path == v.path.take(k) && answers[at + (j + 1)]
                    == TraversalHandlerResult::Continue);
            }
        }
    }
}

/// In a walk through children, every ancestor below `path` was entered before.
pub proof fn lemma_descend_ancestors(
    g: GmodView,
    path: Seq<u32>,
    kids: Seq<u32>,
    upto: int,
    answers: Seq<TraversalHandlerResult>,
    at: int,
)
    requires
        g.wf(),
        simple_path(g, path),
        upto <= kids.len(),
        forall|q: int| 0 <= q < kids.len() ==> g.in_arena(#[trigger] kids[q] as int),
    ensures
        forall|i: int, k: int|
            0 <= i < descend(g, path, kids, upto, answers, at).visits.len() && path.len() <= k
                < descend(g, path, kids, upto, answers, at).visits[i].path.len()
                ==> #[trigger] entered_before(
                descend(g, path, kids, upto, answers, at),
                answers,
                at,
                i,
                k,
            ),
    decreases g.nodes.len() - path.len(), upto + 1,
{
    if upto > 0 {
        let walk = descend(g, path, kids, upto, answers, at);
        let before = descend(g, path, kids, upto - 1, answers, at);
        lemma_descend_ancestors(g, path, kids, upto - 1, answers, at);
        if !before.stopped {
            let b = before.visits.len() as int;
            let last = visit_from(g, path, kids[upto - 1], answers, at + b);
            lemma_visit_ancestors(g, path, kids[upto - 1], answers, at + b);
            assert forall|i: int, k: int|
                0 <= i < walk.visits.len() && path.len() <= k
                    < walk.visits[i].path.len() implies #[trigger] entered_before(
                walk,
                answers,
                at,
                i,
                k,
            ) by {
                if i < b {
                    assert(walk.visits[i] == before.visits[i]);
                    assert(entered_before(before, answers, at, i, k));
                    let j = choose|j: int|
                        0 <= j < i && (#[trigger] before.visits[j]).node == before.visits[i].path[k]
                            && before.visits[j].path == before.visits[i].path.take(k) && answers[at
                            + j] == TraversalHandlerResult::Continue;
                    assert(walk.visits[j] == before.visits[j]);
                } else {
                    assert(walk.visits[i] == last.visits[i - b]);
                    assert(entered_before(last, answers, at + b, i - b, k));
                    let j = choose|j: int|
                        0 <= j < i - b && (#[trigger] last.visits[j]).node == last.visits[i
                            - b].path[k] && last.visits[j].path == last.visits[i - b].path.take(k)
                            && answers[at + b + j] == TraversalHandlerResult::Continue;
                    assert(walk.visits[j + b] == last.visits[j]);
                    assert(0 <= j + b < i && walk.visits[j + b].node == walk.visits[i].path[k]
                        && walk.visits[j + b].path == walk.visits[i].path.take(k) && answers[at + (j
                        + b)] == TraversalHandlerResult::Continue);
                }
            }
        }
    }
}

/// `SkipSubtree` suppresses descent: where no visit of the node `skipped` is
/// answered `Continue`, no visit has that node among its ancestors.
pub proof fn lemma_skip_suppresses_descent(
    g: GmodView,
    start: u32,
    answers: Seq<TraversalHandlerResult>,
    skipped: u32,
    i: int,
)
    requires
        g.wf(),
        g.in_arena(start as int),
        0 <= i < traversal(g, start, answers).visits.len(),
        forall|j: int|
            0 <= j < traversal(g, start, answers).visits.len() && (#[trigger] traversal(
                g,
                start,
                answers,
            ).visits[j]).node == skipped ==> answers[j] != TraversalHandlerResult::Continue,
    ensures
        !traversal(g, start, answers).visits[i].path.contains(skipped),
{
    let walk = traversal(g, start, answers);
    let path = walk.visits[i].path;
    if path.contains(skipped) {
        let k = choose|k: int| 0 <= k < path.len() && path[k] == skipped;
        lemma_visit_ancestors(g, Seq::<u32>::empty(), start, answers, 0);
        assert(entered_before(walk, answers, 0, i, k));
    }
}

/// `trail` leads from `start` to `target` along edges of the graph.
pub open spec fn leads_to(g: GmodView, start: u32, trail: Seq<u32>, target: u32) -> bool {
    &&& trail.len() > 0
    &&& trail[0] == start
    &&& trail[trail.len() - 1] == target
    &&& forall|k: int| 0 <= k < trail.len() ==> g.in_arena(#[trigger] trail[k] as int)
    &&& forall|k: int| 0 <= k < trail.len() - 1 ==> #[trigger] step_is_edge(g, trail, k)
}

/// Where no visit of the node `skipped` is answered `Continue`, a node that
/// can be reached from the starting node only through `skipped` is not
/// visited.
pub proof fn lemma_behind_skipped_is_not_visited(
    g: GmodView,
    start: u32,
    answers: Seq<TraversalHandlerResult>,
    skipped: u32,
    target: u32,
    i: int,
)
    requires
        g.wf(),
        g.in_arena(start as int),
        0 <= i < traversal(g, start, answers).visits.len(),
        forall|j: int|
            0 <= j < traversal(g, start, answers).visits.len() && (#[trigger] traversal(
                g,
                start,
                answers,
            ).visits[j]).node == skipped ==> answers[j] != TraversalHandlerResult::Continue,
        forall|trail: Seq<u32>| #[trigger]
            leads_to(g, start, trail, target) ==> trail.drop_last().contains(skipped),
    ensures
        traversal(g, start, answers).visits[i].node != target,
{
    let visit = traversal(g, start, answers).visits[i];
    if visit.node == target {
        lemma_visits_lie_on_simple_paths(g, start, answers, i);
        let trail = trail_of(visit);
        assert(leads_to(g, start, trail, target));
        assert(trail.drop_last() =~= visit.path);
        lemma_skip_suppresses_descent(g, start, answers, skipped, i);
    }
}

/// The `count` answers from `at` on are all `Continue`.
pub open spec fn all_continue(answers: Seq<TraversalHandlerResult>, at: int, count: int) -> bool {
    forall|k: int| 0 <= k < count ==> #[trigger] answers[at + k] == TraversalHandlerResult::Continue
}

/// Where every answer is `Continue`, the walk through children holds the
/// whole walk from each child, at the place where the walk through the
/// children before it ends.
pub proof fn lemma_descend_holds_child(
    g: GmodView,
    path: Seq<u32>,
    kids: Seq<u32>,
    upto: int,
    q: int,
    answers: Seq<TraversalHandlerResult>,
    at: int,
)
    requires
        0 <= q < upto <= kids.len(),
        all_continue(answers, at, descend(g, path, kids, upto, answers, at).visits.len() as int),
    ensures
        ({
            let whole = descend(g, path, kids, upto, answers, at);
            let skip = descend(g, path, kids, q, answers, at).visits.len() as int;
            let part = visit_from(g, path, kids[q], answers, at + skip);
            &&& !whole.stopped
            &&& skip + part.visits.len() <= whole.visits.len()
            &&& forall|i: int|
                0 <= i < part.visits.len() ==> whole.visits[skip + i] == #[trigger] part.visits[i]
        }),
    decreases upto,
{
    let whole = descend(g, path, kids, upto, answers, at);
    let before = descend(g, path, kids, upto - 1, answers, at);
    lemma_descend_stop(g, path, kids, upto - 1, answers, at);
    lemma_descend_stop(g, path, kids, upto, answers, at);
    if before.stopped {
        assert(answers[at + (before.visits.len() - 1)] == TraversalHandlerResult::Continue);
    }
    if whole.stopped {
        assert(answers[at + (whole.visits.len() - 1)] == TraversalHandlerResult::Continue);
    }
    let last = visit_from(g, path, kids[upto - 1], answers, at + before.visits.len());
    assert(whole.visits == before.visits + last.visits);
    if q < upto - 1 {
        assert(all_continue(answers, at, before.visits.len() as int));
        lemma_descend_holds_child(g, path, kids, upto - 1, q, answers, at);
    }
}

/// Completeness below a node: where every answer is `Continue`, the walk
/// from a node visits every node to which a trail leads from it that keeps
/// off `path`.
pub proof fn lemma_visit_reaches(
    g: GmodView,
    path: Seq<u32>,
    node: u32,
    answers: Seq<TraversalHandlerResult>,
    at: int,
    trail: Seq<u32>,
    target: u32,
)
    requires
        g.wf(),
        simple_path(g, path),
        leads_to(g, node, trail, target),
        forall|k: int| 0 <= k < trail.len() ==> !path.contains(#[trigger] trail[k]),
        all_continue(answers, at, visit_from(g, path, node, answers, at).visits.len() as int),
    ensures
        exists|i: int|
            0 <= i < visit_from(g, path, node, answers, at).visits.len() && (#[trigger] visit_from(
                g,
                path,
                node,
                answers,
                at,
            ).visits[i]).node == target,
    decreases g.nodes.len() - path.len(), trail.len(),
{
    let walk = visit_from(g, path, node, answers, at);
    assert(trail[0] == node);
    assert(g.in_arena(trail[0] as int));
    assert(!path.contains(trail[0]));
    crate::walk::lemma_simple_path_push(g, path, node);
    assert(walk.visits.len() >= 1);
    assert(walk.visits[0].node == node);
    assert(answers[at + 0] == TraversalHandlerResult::Continue);
    if trail.len() == 1 {
        assert(walk.visits[0].node == target);
    } else if exists|m: int| 1 <= m < trail.len() && trail[m] == node {
        let m = choose|m: int| 1 <= m < trail.len() && trail[m] == node;
        let rest = trail.skip(m);
        assert(leads_to(g, node, rest, target)) by {
            assert forall|k: int| 0 <= k < rest.len() implies g.in_arena(#[trigger] rest[k] as int) by {
                assert(g.in_arena(trail[m + k] as int));
            }
            assert forall|k: int| 0 <= k < rest.len() - 1 implies #[trigger] step_is_edge(
                g,
                rest,
                k,
            ) by {
                assert(step_is_edge(g, trail, m + k));
            }
        }
        assert forall|k: int| 0 <= k < rest.len() implies !path.contains(#[trigger] rest[k]) by {
            assert(!path.contains(trail[m + k]));
        }
        lemma_visit_reaches(g, path, node, answers, at, rest, target);
    } else {
        let inner = path.push(node);
        let kids = g.children[node as int];
        let below = descend(g, inner, kids, kids.len() as int, answers, at + 1);
        assert(walk.visits == seq![Visit { path, node }] + below.visits);
        let child = trail[1];
        assert(step_is_edge(g, trail, 0));
        assert(kids.contains(child));
        let q = choose|q: int| 0 <= q < kids.len() && kids[q] == child;
        assert(all_continue(answers, at + 1, below.visits.len() as int)) by {
            assert forall|k: int| 0 <= k < below.visits.len() implies #[trigger] answers[at + 1 + k]
                == TraversalHandlerResult::Continue by {
                assert(answers[at + (k + 1)] == TraversalHandlerResult::Continue);
            }
        }
        lemma_descend_holds_child(g, inner, kids, kids.len() as int, q, answers, at + 1);
        let skip = descend(g, inner, kids, q, answers, at + 1).visits.len() as int;
        let part = visit_from(g, inner, child, answers, at + 1 + skip);
        let rest = trail.skip(1);
        assert(leads_to(g, child, rest, target)) by {
            assert forall|k: int| 0 <= k < rest.len() implies g.in_arena(#[trigger] rest[k] as int) by {
                assert(g.in_arena(trail[1 + k] as int));
            }
            assert forall|k: int| 0 <= k < rest.len() - 1 implies #[trigger] step_is_edge(
                g,
                rest,
                k,
            ) by {
                assert(step_is_edge(g, trail, 1 + k));
            }
        }
        assert forall|k: int| 0 <= k < rest.len() implies !inner.contains(#[trigger] rest[k]) by {
            assert(!path.contains(trail[1 + k]));
            assert(trail[1 + k] != node);
            if inner.contains(rest[k]) {
                let w = choose|w: int| 0 <= w < inner.len() && inner[w] == rest[k];
                if w < path.len() {
                    assert(path[w] == rest[k]);
                }
            }
        }
        assert(all_continue(answers, at + 1 + skip, part.visits.len() as int)) by {
            assert forall|k: int| 0 <= k < part.visits.len() implies #[trigger] answers[at + 1 + skip
                + k] == TraversalHandlerResult::Continue by {
                assert(answers[at + (1 + skip + k)] == TraversalHandlerResult::Continue);
            }
        }
        lemma_visit_reaches(g, inner, child, answers, at + 1 + skip, rest, target);
        let i = choose|i: int| 0 <= i < part.visits.len() && (#[trigger] part.visits[i]).node == target;
        assert(below.visits[skip + i] == part.visits[i]);
        assert(walk.visits[1 + skip + i] == below.visits[skip + i]);
    }
}

/// Traversal completeness: where every visit is answered `Continue`, the
/// traversal runs to its end and visits every node to which a trail leads
/// from the starting node.
pub proof fn lemma_continue_visits_all_reachable(
    g: GmodView,
    start: u32,
    answers: Seq<TraversalHandlerResult>,
    trail: Seq<u32>,
    target: u32,
)
    requires
        g.wf(),
        leads_to(g, start, trail, target),
        all_continue(answers, 0, traversal(g, start, answers).visits.len() as int),
    ensures
        !traversal(g, start, answers).stopped,
        exists|i: int|
            0 <= i < traversal(g, start, answers).visits.len() && (#[trigger] traversal(
                g,
                start,
                answers,
            ).visits[i]).node == target,
{
    let walk = traversal(g, start, answers);
    lemma_visit_stop(g, Seq::<u32>::empty(), start, answers, 0);
    if walk.stopped {
        assert(answers[0 + (walk.visits.len() - 1)] == TraversalHandlerResult::Continue);
    }
    lemma_visit_reaches(g, Seq::<u32>::empty(), start, answers, 0, trail, target);
}

/// Adjacency symmetry: a node is among the children of another exactly when
/// that other is among its parents.
pub proof fn lemma_adjacency_symmetric(g: GmodView, parent: int, child: int)
    requires
        g.wf(),
        g.in_arena(parent),
        g.in_arena(child),
    ensures
        g.children[parent].contains(child as u32) <==> g.parents[child].contains(parent as u32),
{
}

/// The parents that the first `upto` edges give a node are the positions of
/// the parent codes of edges that name the node as child.
pub proof fn lemma_edges_in_come_from_relations(d: Definition, node: int, upto: int, j: int)
    requires
        d.consistent(),
        0 <= node < d.items.len(),
        0 <= upto <= d.relations.len(),
        0 <= j < edges_in(d, node, upto).len(),
    ensures
        exists|k: int|
            0 <= k < upto && (#[trigger] d.relations[k]).1 == d.codes()[node] && d.position(
                d.relations[k].0,
            ) == edges_in(d, node, upto)[j],
    decreases upto,
{
    let before = edges_in(d, node, upto - 1);
    let edge = d.relations[upto - 1];
    if j < before.len() {
        lemma_edges_in_come_from_relations(d, node, upto - 1, j);
        let k = choose|k: int|
            0 <= k < upto - 1 && (#[trigger] d.relations[k]).1 == d.codes()[node] && d.position(
                d.relations[k].0,
            ) == before[j];
        assert(0 <= k < upto && d.relations[k].1 == d.codes()[node] && d.position(d.relations[k].0)
            == edges_in(d, node, upto)[j]);
    } else {
        lemma_position_listed(d, edge.0);
        lemma_position_listed(d, edge.1);
        assert(d.codes()[d.position(edge.1)] == edge.1);
    }
}

/// The root has no parents, where no edge of the definition names it as child.
pub proof fn lemma_root_has_no_parents(d: Definition, version: VisVersion)
    requires
        d.consistent(),
        forall|k: int| 0 <= k < d.relations.len() ==> (#[trigger] d.relations[k]).1 != root_code(),
    ensures
        graph_of(d, version).parents[graph_of(d, version).root()].len() == 0,
{
    let g = graph_of(d, version);
    lemma_graph_of_wf(d, version);
    lemma_position_listed(d, root_code());
    let root = g.root();
    assert(root == d.position(root_code()));
    let list = edges_in(d, root, d.relations.len() as int);
    assert(g.parents[root] == list);
    if list.len() > 0 {
        lemma_edges_in_come_from_relations(d, root, d.relations.len() as int, 0);
    }
}

/// An edge among the first `upto` edges of the definition puts the position
/// of its child code among the children of the position of its parent code.
pub proof fn lemma_relation_is_edge(d: Definition, k: int, upto: int)
    requires
        d.consistent(),
        0 <= k < upto <= d.relations.len(),
    ensures
        0 <= d.position(d.relations[k].0) < d.items.len(),
        0 <= d.position(d.relations[k].1) < d.items.len(),
        edges_out(d, d.position(d.relations[k].0), upto).contains(
            d.position(d.relations[k].1) as u32,
        ),
    decreases upto,
{
    let from = d.position(d.relations[k].0);
    let to = d.position(d.relations[k].1);
    lemma_position_listed(d, d.relations[k].0);
    lemma_position_listed(d, d.relations[k].1);
    let before = edges_out(d, from, upto - 1);
    if k == upto - 1 {
        crate::graph::lemma_push_contains(before, to as u32, to as u32);
    } else {
        lemma_relation_is_edge(d, k, upto - 1);
        if d.position(d.relations[upto - 1].0) == from {
            crate::graph::lemma_push_contains(
                before,
                d.position(d.relations[upto - 1].1) as u32,
                to as u32,
            );
        }
    }
}

/// The definition holds an edge from the code at place `i` of `codes` to the
/// next one.
pub open spec fn linked(d: Definition, codes: Seq<Seq<char>>, i: int) -> bool {
    d.relations.contains((codes[i], codes[i + 1]))
}

/// `codes` is a chain of edges of the definition that begins at the root.
pub open spec fn chain_from_root(d: Definition, codes: Seq<Seq<char>>) -> bool {
    &&& codes.len() > 0
    &&& codes[0] == root_code()
    &&& forall|i: int| 0 <= i < codes.len() - 1 ==> #[trigger] linked(d, codes, i)
}

/// The arena positions of a run of codes.
pub open spec fn positions_of(d: Definition, codes: Seq<Seq<char>>) -> Seq<u32> {
    Seq::new(codes.len(), |i: int| d.position(codes[i]) as u32)
}

/// Reachability carries over: a node to which a chain of edges of the
/// definition leads from the root is reached in the taxonomy by a trail
/// from the root, so a traversal that is always answered `Continue` visits
/// it.
pub proof fn lemma_chain_is_trail(d: Definition, version: VisVersion, codes: Seq<Seq<char>>)
    requires
        d.consistent(),
        chain_from_root(d, codes),
    ensures
        leads_to(
            graph_of(d, version),
            graph_of(d, version).root() as u32,
            positions_of(d, codes),
            d.position(codes[codes.len() - 1]) as u32,
        ),
{
    let g = graph_of(d, version);
    let trail = positions_of(d, codes);
    lemma_graph_of_wf(d, version);
    lemma_position_listed(d, root_code());
    assert forall|i: int| 0 <= i < codes.len() implies d.lists(#[trigger] codes[i]) by {
        if i == 0 {
        } else {
            assert(linked(d, codes, i - 1));
            let k = choose|k: int|
                0 <= k < d.relations.len() && d.relations[k] == (codes[i - 1], codes[i]);
            assert(d.lists(d.relations[k].1));
        }
    }
    assert forall|i: int| 0 <= i < trail.len() implies g.in_arena(#[trigger] trail[i] as int) by {
        assert(d.lists(codes[i]));
        lemma_position_listed(d, codes[i]);
    }
    assert forall|i: int| 0 <= i < trail.len() - 1 implies #[trigger] step_is_edge(g, trail, i) by {
        assert(linked(d, codes, i));
        let k = choose|k: int|
            0 <= k < d.relations.len() && d.relations[k] == (codes[i], codes[i + 1]);
        lemma_relation_is_edge(d, k, d.relations.len() as int);
        assert(g.in_arena(trail[i] as int));
        assert(g.in_arena(trail[i + 1] as int));
    }
}

} // verus!
