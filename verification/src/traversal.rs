//! Depth-first traversal of a taxonomy with a handler that is shown every
//! visited node together with its ancestors on the current path.

use crate::context::TraversalContext;
use crate::gmod::Gmod;
use crate::node::GmodNode;
use crate::walk::{
    descend, lemma_descend_reads_its_answers, lemma_simple_path_push,
    lemma_visit_reads_its_answers, simple_path, traversal, visit_from, TraversalHandlerResult,
    Visit, Walk,
};
use vstd::prelude::*;

verus! {

/// One call of a handler that threads a state: the state it was given, the
/// state it left, and its answer.
pub struct Step<S> {
    pub before: S,
    pub after: S,
    pub answer: TraversalHandlerResult,
}

/// The answers of a run of calls, in order.
pub open spec fn answers_of<S>(steps: Seq<Step<S>>) -> Seq<TraversalHandlerResult> {
    steps.map_values(|step: Step<S>| step.answer)
}

/// The call at `i` leaves the state that the next call is given.
pub open spec fn handed_on<S>(steps: Seq<Step<S>>, i: int) -> bool {
    steps[i].after == steps[i + 1].before
}

/// The calls hand the state on: the first is given `first`, each later one
/// is given what the one before left, and the last leaves `last`. Without a
/// call the state stays as it is.
pub open spec fn chained<S>(steps: Seq<Step<S>>, first: S, last: S) -> bool {
    &&& steps.len() == 0 ==> first == last
    &&& steps.len() > 0 ==> steps[0].before == first && steps[steps.len() - 1].after == last
    &&& forall|i: int| 0 <= i < steps.len() - 1 ==> #[trigger] handed_on(steps, i)
}

/// Two runs of calls, the second taking up the state where the first left
/// it, make one run.
pub proof fn lemma_chained_join<S>(a: Seq<Step<S>>, b: Seq<Step<S>>, first: S, mid: S, last: S)
    requires
        chained(a, first, mid),
        chained(b, mid, last),
    ensures
        chained(a + b, first, last),
        answers_of(a + b) == answers_of(a) + answers_of(b),
{
    let whole = a + b;
    assert forall|i: int| 0 <= i < whole.len() - 1 implies #[trigger] handed_on(whole, i) by {
        if i < a.len() - 1 {
            assert(handed_on(a, i));
        } else if i == a.len() - 1 {
            assert(whole[i + 1] == b[0]);
        } else {
            assert(handed_on(b, i - a.len()));
            assert(whole[i + 1] == b[i - a.len() + 1]);
        }
    }
    assert(answers_of(a + b) =~= answers_of(a) + answers_of(b));
}

impl Gmod {
    /// A traversal may show `node` with `ancestors`: the node is one of the
    /// arena, and the ancestors are the arena nodes on a path without
    /// repetition.
    pub open spec fn may_show(&self, ancestors: Seq<&GmodNode>, node: GmodNode) -> bool {
        &&& exists|index: int| self@.in_arena(index) && node == #[trigger] self.node(index)
        &&& exists|path: Seq<u32>|
            simple_path(self@, path) && #[trigger] self.are_nodes(ancestors, path)
    }

    /// The call `step` is one that `handler` may make when it is shown the
    /// node of `visit` with the nodes on its path as ancestors.
    pub open spec fn shows<S, F>(&self, handler: &F, visit: Visit, step: Step<S>) -> bool where
        F: Fn(S, &Vec<&GmodNode>, &GmodNode) -> (S, TraversalHandlerResult),
     {
        exists|ancestors: Vec<&GmodNode>|
            {
                &&& self.are_nodes(ancestors@, visit.path)
                &&& #[trigger] call_ensures(
                    handler,
                    (step.before, &ancestors, &self.node(visit.node as int)),
                    (step.after, step.answer),
                )
            }
    }

    /// `steps` are the calls of a traversal from `start` that found the
    /// state `first` and left the state `last`: the visits are those of the
    /// depth-first walk under the answers given, each call is one that the
    /// handler may make at its visit, the state is handed on from call to
    /// call, and the traversal has run to its end unless a call answered
    /// `Stop`.
    pub open spec fn ran<S, F>(
        &self,
        handler: &F,
        start: u32,
        first: S,
        last: S,
        steps: Seq<Step<S>>,
        completed: bool,
    ) -> bool where F: Fn(S, &Vec<&GmodNode>, &GmodNode) -> (S, TraversalHandlerResult) {
        let walk = traversal(self@, start, answers_of(steps));
        &&& walk.visits.len() == steps.len()
        &&& chained(steps, first, last)
        &&& forall|i: int|
            0 <= i < steps.len() ==> self.shows(handler, #[trigger] walk.visits[i], steps[i])
        &&& completed == !walk.stopped
    }

    /// Visits the node at `index`, unless it is on the path, and what lies
    /// below it. Hands back the answer that decides how the caller goes on,
    /// and the calls that were made: `Continue` for a node on the path, for
    /// which no call is made; `Stop` where a call stopped the walk; else the
    /// answer to the visit of the node itself. Unless the walk was stopped,
    /// the path is left as it was found.
    fn traverse_node<S, F>(
        &self,
        context: &mut TraversalContext,
        index: u32,
        state: S,
        handler: &F,
    ) -> (out: (S, TraversalHandlerResult, Ghost<Seq<Step<S>>>)) where
        F: Fn(S, &Vec<&GmodNode>, &GmodNode) -> (S, TraversalHandlerResult),

        requires
            self.wf(),
            old(context).wf(),
            self@.in_arena(index as int),
            simple_path(self@, old(context).path()),
            forall|s: S, p: &Vec<&GmodNode>, n: &GmodNode|
                self.may_show(p@, *n) ==> call_requires(handler, (s, p, n)),
        ensures
            ({
                let steps = out.2@;
                let walk = visit_from(self@, old(context).path(), index, answers_of(steps), 0);
                &&& walk.visits.len() == steps.len()
                &&& chained(steps, state, out.0)
                &&& forall|i: int|
                    0 <= i < steps.len() ==> self.shows(
                        handler,
                        #[trigger] walk.visits[i],
                        steps[i],
                    )
                &&& out.1 == (if walk.visits.len() == 0 {
                    TraversalHandlerResult::Continue
                } else if walk.stopped {
                    TraversalHandlerResult::Stop
                } else {
                    answers_of(steps)[0]
                })
                &&& (out.1 == TraversalHandlerResult::Stop) == walk.stopped
                &&& !walk.stopped ==> final(context).wf() && final(context).path() == old(
                    context,
                ).path()
            }),
        decreases self@.nodes.len() - old(context).path().len(),
    {
        let ghost g = self@;
        let ghost path = context.path();
        if context.has(index) {
            return (state, TraversalHandlerResult::Continue, Ghost(Seq::empty()));
        }
        proof {
            lemma_simple_path_push(g, path, index);
        }
        let ancestors = self.nodes_at(context.parents());
        let node = self.node_at(index);
        let ghost first = state;
        assert(self.may_show(ancestors@, *node)) by {
            assert(self@.in_arena(index as int) && *node == self.node(index as int));
            assert(simple_path(self@, path) && self.are_nodes(ancestors@, path));
        }
        let (entered, result) = handler(state, &ancestors, node);
        let ghost here = Step { before: first, after: entered, answer: result };
        let ghost spot = Visit { path, node: index };
        assert(self.shows(handler, spot, here)) by {
            assert(self.are_nodes(ancestors@, spot.path));
            assert(call_ensures(
                handler,
                (here.before, &ancestors, &self.node(spot.node as int)),
                (here.after, here.answer),
            ));
        }
        if result == TraversalHandlerResult::Stop || result == TraversalHandlerResult::SkipSubtree {
            let ghost steps = seq![here];
            proof {
                assert(answers_of(steps)[0] == result);
                let walk = visit_from(g, path, index, answers_of(steps), 0);
                assert(walk.visits =~= seq![spot]);
            }
            return (entered, result, Ghost(steps));
        }
        let mut current = entered;
        context.push(index);
        let ghost inner = path.push(index);
        let ghost mut steps = seq![here];
        let children = self.child_positions(index);
        let ghost kids = children@;
        let mut j: usize = 0;
        while j < children.len()
            invariant
                self.wf(),
                g == self@,
                g.in_arena(index as int),
                kids == g.children[index as int],
                children@ == kids,
                j <= kids.len(),
                path == old(context).path(),
                !path.contains(index),
                path.len() < g.nodes.len(),
                spot == (Visit { path, node: index }),
                here.answer == TraversalHandlerResult::Continue,
                self.shows(handler, spot, here),
                inner == path.push(index),
                simple_path(g, inner),
                inner.len() <= g.nodes.len(),
                context.wf(),
                context.path() == inner,
                forall|s: S, p: &Vec<&GmodNode>, n: &GmodNode|
                    self.may_show(p@, *n) ==> call_requires(handler, (s, p, n)),
                steps.len() >= 1,
                steps[0] == here,
                first == state,
                chained(steps, first, current),
                ({
                    let below = descend(g, inner, kids, j as int, answers_of(steps), 1);
                    &&& !below.stopped
                    &&& below.visits.len() + 1 == steps.len()
                    &&& forall|i: int|
                        0 <= i < below.visits.len() ==> self.shows(
                            handler,
                            #[trigger] below.visits[i],
                            steps[i + 1],
                        )
                }),
            decreases kids.len() - j,
        {
            let child = children[j];
            let ghost middle = current;
            let ghost done = steps;
            let (left, answer, Ghost(used)) = self.traverse_node(context, child, current, handler);
            current = left;
            proof {
                let longer = done + used;
                let below = descend(g, inner, kids, j as int, answers_of(done), 1);
                let last = visit_from(g, inner, child, answers_of(used), 0);
                lemma_chained_join(done, used, first, middle, current);
                assert forall|i: int| 0 <= i < below.visits.len() implies #[trigger] answers_of(
                    done,
                )[1 + i] == answers_of(longer)[1 + i] by {
                    assert(longer[1 + i] == done[1 + i]);
                }
                lemma_descend_reads_its_answers(
                    g,
                    inner,
                    kids,
                    j as int,
                    answers_of(done),
                    1,
                    answers_of(longer),
                    1,
                );
                assert forall|i: int| 0 <= i < last.visits.len() implies #[trigger] answers_of(
                    used,
                )[0 + i] == answers_of(longer)[done.len() + i] by {
                    assert(longer[done.len() + i] == used[i]);
                }
                lemma_visit_reads_its_answers(
                    g,
                    inner,
                    child,
                    answers_of(used),
                    0,
                    answers_of(longer),
                    done.len() as int,
                );
                let next = descend(g, inner, kids, j + 1, answers_of(longer), 1);
                assert(next == below.then_walk(last));
                assert forall|i: int| 0 <= i < next.visits.len() implies self.shows(
                    handler,
                    #[trigger] next.visits[i],
                    longer[i + 1],
                ) by {
                    if i < below.visits.len() {
                        assert(next.visits[i] == below.visits[i]);
                        assert(longer[i + 1] == done[i + 1]);
                    } else {
                        assert(next.visits[i] == last.visits[i - below.visits.len()]);
                        assert(longer[i + 1] == used[i - below.visits.len()]);
                    }
                }
                steps = longer;
            }
            if answer == TraversalHandlerResult::Stop {
                proof {
                    lemma_stopped_below(g, inner, kids, j + 1, answers_of(steps), 1);
                    let walk = visit_from(g, path, index, answers_of(steps), 0);
                    let whole = descend(g, inner, kids, kids.len() as int, answers_of(steps), 1);
                    assert(answers_of(steps)[0] == here.answer);
                    assert(walk.visits =~= seq![spot] + whole.visits);
                    assert forall|i: int| 0 <= i < steps.len() implies self.shows(
                        handler,
                        #[trigger] walk.visits[i],
                        steps[i],
                    ) by {
                        if i > 0 {
                            assert(walk.visits[i] == whole.visits[i - 1]);
                        }
                    }
                }
                return (current, TraversalHandlerResult::Stop, Ghost(steps));
            }
            j += 1;
        }
        context.pop();
        proof {
            let walk = visit_from(g, path, index, answers_of(steps), 0);
            let whole = descend(g, inner, kids, kids.len() as int, answers_of(steps), 1);
            assert(answers_of(steps)[0] == here.answer);
            assert(walk.visits =~= seq![spot] + whole.visits);
            assert(inner.drop_last() =~= path);
            assert forall|i: int| 0 <= i < steps.len() implies self.shows(
                handler,
                #[trigger] walk.visits[i],
                steps[i],
            ) by {
                if i > 0 {
                    assert(walk.visits[i] == whole.visits[i - 1]);
                }
            }
        }
        (current, TraversalHandlerResult::Continue, Ghost(steps))
    }

    /// Depth-first traversal from `from_node`, which has to be a node of
    /// this taxonomy, with a handler that threads a state through its calls.
    /// Hands back the state that the last call left, and whether the
    /// traversal ran to its end: it did unless a call answered `Stop`.
    pub fn traverse_from_with_state<S, F>(&self, from_node: &GmodNode, state: S, handler: F) -> (out:
        (S, bool)) where F: Fn(S, &Vec<&GmodNode>, &GmodNode) -> (S, TraversalHandlerResult)
        requires
            self.wf(),
            self@.has(from_node@.code),
            forall|s: S, p: &Vec<&GmodNode>, n: &GmodNode|
                self.may_show(p@, *n) ==> call_requires(handler, (s, p, n)),
        ensures
            exists|steps: Seq<Step<S>>|
                #[trigger] self.ran(
                    &handler,
                    self@.position(from_node@.code) as u32,
                    state,
                    out.0,
                    steps,
                    out.1,
                ),
    {
        let index = self.get_index(from_node) as u32;
        let mut context = TraversalContext::new();
        let (last, answer, Ghost(steps)) = self.traverse_node(&mut context, index, state, &handler);
        let completed = answer != TraversalHandlerResult::Stop;
        let out = (last, completed);
        assert(self.ran(
            &handler,
            self@.position(from_node@.code) as u32,
            state,
            out.0,
            steps,
            out.1,
        ));
        out
    }

    /// Depth-first traversal from the root with a handler that threads a
    /// state through its calls.
    pub fn traverse_with_state<S, F>(&self, state: S, handler: F) -> (out: (S, bool)) where
        F: Fn(S, &Vec<&GmodNode>, &GmodNode) -> (S, TraversalHandlerResult),

        requires
            self.wf(),
            forall|s: S, p: &Vec<&GmodNode>, n: &GmodNode|
                self.may_show(p@, *n) ==> call_requires(handler, (s, p, n)),
        ensures
            exists|steps: Seq<Step<S>>| #[trigger]
                self.ran(&handler, self@.root() as u32, state, out.0, steps, out.1),
    {
        let root = self.root_node();
        proof {
            self.lemma_root();
        }
        self.traverse_from_with_state(root, state, handler)
    }

    /// The answer is one that `handler` may give when it is shown the node
    /// of `visit` with the nodes on its path as ancestors.
    pub open spec fn answers<F>(&self, handler: &F, visit: Visit, answer: TraversalHandlerResult) -> bool where
        F: Fn(&Vec<&GmodNode>, &GmodNode) -> TraversalHandlerResult,
     {
        exists|ancestors: Vec<&GmodNode>|
            {
                &&& self.are_nodes(ancestors@, visit.path)
                &&& #[trigger] call_ensures(
                    handler,
                    (&ancestors, &self.node(visit.node as int)),
                    answer,
                )
            }
    }

    /// `answers` are the answers of a traversal from `start`: the visits are
    /// those of the depth-first walk under these answers, each answer is one
    /// that the handler may give at its visit, and the traversal has run to
    /// its end unless an answer was `Stop`.
    pub open spec fn went<F>(
        &self,
        handler: &F,
        start: u32,
        answers: Seq<TraversalHandlerResult>,
        completed: bool,
    ) -> bool where F: Fn(&Vec<&GmodNode>, &GmodNode) -> TraversalHandlerResult {
        let walk = traversal(self@, start, answers);
        &&& walk.visits.len() == answers.len()
        &&& forall|i: int|
            0 <= i < answers.len() ==> self.answers(handler, #[trigger] walk.visits[i], answers[i])
        &&& completed == !walk.stopped
    }

    /// Depth-first traversal from `from_node`, which has to be a node of
    /// this taxonomy. Tells whether the traversal ran to its end: it did
    /// unless the handler answered `Stop`.
    pub fn traverse_from<F>(&self, from_node: &GmodNode, handler: F) -> (completed: bool) where
        F: Fn(&Vec<&GmodNode>, &GmodNode) -> TraversalHandlerResult,

        requires
            self.wf(),
            self@.has(from_node@.code),
            forall|p: &Vec<&GmodNode>, n: &GmodNode|
                self.may_show(p@, *n) ==> call_requires(handler, (p, n)),
        ensures
            exists|answers: Seq<TraversalHandlerResult>| #[trigger]
                self.went(&handler, self@.position(from_node@.code) as u32, answers, completed),
    {
        let ghost start = self@.position(from_node@.code) as u32;
        let plain = &handler;
        let threaded = |unit: (), ancestors: &Vec<&GmodNode>, node: &GmodNode| -> (out: (
            (),
            TraversalHandlerResult,
        ))
            requires
                self.may_show(ancestors@, *node),
            ensures
                call_ensures(plain, (ancestors, node), out.1),
            { ((), plain(ancestors, node)) };
        let ghost made = threaded;
        let (_, completed) = self.traverse_from_with_state(from_node, (), threaded);
        proof {
            let steps = choose|steps: Seq<Step<()>>| #[trigger]
                self.ran(&made, start, (), (), steps, completed);
            let given = answers_of(steps);
            let walk = traversal(self@, start, given);
            assert forall|i: int| 0 <= i < given.len() implies self.answers(
                &handler,
                #[trigger] walk.visits[i],
                given[i],
            ) by {
                assert(self.shows(&made, walk.visits[i], steps[i]));
            }
            assert(self.went(&handler, start, given, completed));
        }
        completed
    }

    /// Depth-first traversal from the root.
    pub fn traverse<F>(&self, handler: F) -> (completed: bool) where
        F: Fn(&Vec<&GmodNode>, &GmodNode) -> TraversalHandlerResult,

        requires
            self.wf(),
            forall|p: &Vec<&GmodNode>, n: &GmodNode|
                self.may_show(p@, *n) ==> call_requires(handler, (p, n)),
        ensures
            exists|answers: Seq<TraversalHandlerResult>| #[trigger]
                self.went(&handler, self@.root() as u32, answers, completed),
    {
        let root = self.root_node();
        proof {
            self.lemma_root();
        }
        self.traverse_from(root, handler)
    }
}

/// Once a walk through children is stopped, the children after that add
/// nothing to it.
pub proof fn lemma_stopped_below(
    g: crate::graph::GmodView,
    path: Seq<u32>,
    kids: Seq<u32>,
    upto: int,
    answers: Seq<TraversalHandlerResult>,
    at: int,
)
    requires
        0 <= upto <= kids.len(),
        descend(g, path, kids, upto, answers, at).stopped,
    ensures
        descend(g, path, kids, kids.len() as int, answers, at) == descend(
            g,
            path,
            kids,
            upto,
            answers,
            at,
        ),
    decreases kids.len() - upto,
{
    if upto < kids.len() {
        assert(descend(g, path, kids, upto + 1, answers, at) == descend(
            g,
            path,
            kids,
            upto,
            answers,
            at,
        ));
        lemma_stopped_below(g, path, kids, upto + 1, answers, at);
    }
}

} // verus!
