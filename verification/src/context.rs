//! The path from the starting node of a traversal to the node that is being
//! visited: pushed on entry, popped on exit.

use crate::vec_set::{lemma_without, VecSet};
use vstd::prelude::*;

verus! {

/// The arena positions on the current path, kept both in path order and as
/// a set for the membership test.
pub struct TraversalContext {
    ids: VecSet,
    parents: Vec<u32>,
}

impl TraversalContext {
    /// The positions on the path, the starting node first.
    pub closed spec fn path(&self) -> Seq<u32> {
        self.parents@
    }

    /// The invariant: no position stands twice on the path, and the set
    /// holds exactly the positions of the path, in the order of the path.
    pub closed spec fn wf(&self) -> bool {
        &&& self.ids.wf()
        &&& self.ids.order() == self.parents@
    }

    /// An empty path.
    pub fn new() -> (context: Self)
        ensures
            context.wf(),
            context.path() == Seq::<u32>::empty(),
    {
        TraversalContext { ids: VecSet::new(16), parents: Vec::with_capacity(16) }
    }

    /// Whether `index` is on the path.
    pub fn has(&self, index: u32) -> (found: bool)
        requires
            self.wf(),
        ensures
            found == self.path().contains(index),
    {
        self.ids.contains(index)
    }

    /// The positions on the path, the starting node first.
    pub fn parents(&self) -> (list: &Vec<u32>)
        ensures
            list@ == self.path(),
    {
        &self.parents
    }

    /// Enters the node at `index`, which is not on the path yet.
    pub fn push(&mut self, index: u32)
        requires
            old(self).wf(),
            !old(self).path().contains(index),
        ensures
            final(self).wf(),
            final(self).path() == old(self).path().push(index),
    {
        self.ids.insert(index);
        self.parents.push(index);
    }

    /// Leaves the node that was entered last. The path has to hold one.
    pub fn pop(&mut self)
        requires
            old(self).wf(),
            old(self).path().len() > 0,
        ensures
            final(self).wf(),
            final(self).path() == old(self).path().drop_last(),
    {
        let ghost before = self.parents@;
        match self.parents.pop() {
            Some(parent) => {
                proof {
                    lemma_without(before, parent);
                    assert(before[before.len() - 1] == parent);
                    assert(before.remove(before.len() - 1) =~= before.drop_last());
                }
                self.ids.remove(parent);
            },
            None => {},
        }
    }
}

} // verus!
