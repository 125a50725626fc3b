//! A small set of arena indices kept in a vector. For the handful of entries
//! on a traversal path a linear scan beats hashing.

use vstd::prelude::*;

verus! {

/// What is left of `order` when every `value` in it is taken out; the rest
/// keeps its order.
pub open spec fn without(order: Seq<u32>, value: u32) -> Seq<u32> {
    order.filter(|held: u32| held != value)
}

/// Taking out a value that does not occur changes nothing; taking out a
/// value that occurs once, at place `i`, removes that place.
pub proof fn lemma_without(order: Seq<u32>, value: u32)
    ensures
        !order.contains(value) ==> without(order, value) == order,
        forall|i: int|
            order.no_duplicates() && 0 <= i < order.len() && order[i] == value ==> without(
                order,
                value,
            ) == #[trigger] order.remove(i),
    decreases order.len(),
{
    reveal(Seq::filter);
    if order.len() > 0 {
        let front = order.drop_last();
        let last = order.last();
        lemma_without(front, value);
        if !order.contains(value) {
            assert(!front.contains(value)) by {
                if front.contains(value) {
                    let k = choose|k: int| 0 <= k < front.len() && front[k] == value;
                    assert(order[k] == value);
                }
            }
            assert(last != value) by {
                assert(order[order.len() - 1] == last);
            }
            assert(front.push(last) =~= order);
        }
        assert forall|i: int|
            order.no_duplicates() && 0 <= i < order.len() && order[i] == value implies without(
            order,
            value,
        ) == #[trigger] order.remove(i) by {
            if i == order.len() - 1 {
                assert(!front.contains(value)) by {
                    if front.contains(value) {
                        let k = choose|k: int| 0 <= k < front.len() && front[k] == value;
                        assert(order[k] == order[i] && k != i);
                    }
                }
                assert(order.remove(i) =~= front);
            } else {
                assert(last != value) by {
                    assert(order[order.len() - 1] != order[i]);
                }
                assert(front.no_duplicates());
                assert(front[i] == value);
                assert(front.remove(i).push(last) =~= order.remove(i));
            }
        }
    }
}

/// A set of `u32` values stored without repetition, in insertion order.
pub struct VecSet {
    inner: Vec<u32>,
}

impl View for VecSet {
    type V = Set<u32>;

    open spec fn view(&self) -> Set<u32> {
        self.order().to_set()
    }
}

impl VecSet {
    /// The values in the order in which they are stored: the order in which
    /// they were put in.
    pub closed spec fn order(&self) -> Seq<u32> {
        self.inner@
    }

    /// The representation invariant: no value is stored twice.
    pub open spec fn wf(&self) -> bool {
        self.order().no_duplicates()
    }

    /// An empty set with room for `cap` values.
    pub fn new(cap: usize) -> (set: Self)
        ensures
            set.wf(),
            set.order() == Seq::<u32>::empty(),
            set@ == Set::<u32>::empty(),
    {
        let set = VecSet { inner: Vec::with_capacity(cap) };
        assert(set.inner@.to_set() =~= Set::<u32>::empty());
        set
    }

    /// Position of `value` in the backing vector, if it is present.
    fn position(&self, value: u32) -> (found: Option<usize>)
        ensures
            match found {
                Some(i) => i < self.order().len() && self.order()[i as int] == value,
                None => !self.order().contains(value),
            },
    {
        let mut i: usize = 0;
        while i < self.inner.len()
            invariant
                i <= self.inner@.len(),
                forall|j: int| 0 <= j < i ==> self.inner@[j] != value,
            decreases self.inner@.len() - i,
        {
            if self.inner[i] == value {
                return Some(i);
            }
            i += 1;
        }
        None
    }

    /// Adds `value` behind the values that are stored; a value that is
    /// already present is left where it is.
    pub fn insert(&mut self, value: u32)
        requires
            old(self).wf(),
        ensures
            final(self).wf(),
            final(self).order() == if old(self).order().contains(value) {
                old(self).order()
            } else {
                old(self).order().push(value)
            },
            final(self)@ == old(self)@.insert(value),
    {
        if self.contains(value) {
            assert(self@.insert(value) =~= self@);
            return ;
        }
        let ghost before = self.inner@;
        self.inner.push(value);
        proof {
            assert forall|i: int, j: int|
                0 <= i < self.inner@.len() && 0 <= j < self.inner@.len() && i != j implies self.inner@[i]
                != self.inner@[j] by {
                if i < before.len() && j < before.len() {
                    assert(before[i] != before[j]);
                } else if i < before.len() {
                    assert(before.contains(before[i]));
                } else {
                    assert(before.contains(before[j]));
                }
            }
            assert(self.inner@.to_set() =~= before.to_set().insert(value)) by {
                assert forall|v: u32| self.inner@.contains(v) <==> (before.contains(v) || v == value) by {
                    if before.contains(v) {
                        let k = choose|k: int| 0 <= k < before.len() && before[k] == v;
                        assert(self.inner@[k] == v);
                    }
                    if v == value {
                        assert(self.inner@[before.len() as int] == v);
                    }
                }
            }
        }
    }

    /// Takes `value` out and keeps the order of the rest; an absent value
    /// changes nothing.
    pub fn remove(&mut self, value: u32)
        requires
            old(self).wf(),
        ensures
            final(self).wf(),
            final(self).order() == without(old(self).order(), value),
            final(self)@ == old(self)@.remove(value),
    {
        let ghost before = self.inner@;
        proof {
            lemma_without(before, value);
        }
        match self.position(value) {
            None => {
                assert(self@.remove(value) =~= self@);
            },
            Some(i) => {
                self.inner.remove(i);
                proof {
                    assert(self.inner@ =~= before.remove(i as int));
                    assert forall|a: int, b: int|
                        0 <= a < self.inner@.len() && 0 <= b < self.inner@.len() && a != b implies self.inner@[a]
                        != self.inner@[b] by {
                        let a0 = if a < i { a } else { a + 1 };
                        let b0 = if b < i { b } else { b + 1 };
                        assert(before[a0] != before[b0]);
                    }
                    assert(self.inner@.to_set() =~= before.to_set().remove(value)) by {
                        assert forall|v: u32| self.inner@.contains(v) <==> (before.contains(v) && v != value) by {
                            if self.inner@.contains(v) {
                                let k = choose|k: int| 0 <= k < self.inner@.len() && self.inner@[k] == v;
                                let k0 = if k < i { k } else { k + 1 };
                                assert(before[k0] == v);
                                assert(k0 != i);
                            }
                            if before.contains(v) && v != value {
                                let k = choose|k: int| 0 <= k < before.len() && before[k] == v;
                                let k1 = if k < i { k } else { k - 1 };
                                assert(self.inner@[k1] == v);
                            }
                        }
                    }
                }
            },
        }
    }

    /// Whether `value` is in the set.
    pub fn contains(&self, value: u32) -> (found: bool)
        ensures
            found == self@.contains(value),
            found == self.order().contains(value),
    {
        self.position(value).is_some()
    }
}

} // verus!
