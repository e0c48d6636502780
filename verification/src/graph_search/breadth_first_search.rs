use crate::graph_search::search_impl::{SearchIndex, SearchIterator};
use vstd::prelude::*;

verus! {

/// Breadth-first traversal order: one level of elements, visited in the
/// order they were collected.
pub struct BreadthFirstSearch {
    level: Vec<SearchIndex>,
    pos: usize,
}

impl BreadthFirstSearch {
    /// The elements of the level that are still to be visited, in order.
    pub closed spec fn spec_pending(&self) -> Seq<SearchIndex> {
        if self.pos <= self.level@.len() {
            self.level@.subrange(self.pos as int, self.level@.len() as int)
        } else {
            Seq::empty()
        }
    }

    /// Moves the collected elements out of `stack`, leaving it empty.
    pub fn take_stack(stack: &mut Vec<SearchIndex>) -> (result: Vec<SearchIndex>)
        ensures
            result@ == old(stack)@,
            final(stack)@ == Seq::<SearchIndex>::empty(),
    {
        let mut res = Vec::<SearchIndex>::new();
        std::mem::swap(&mut res, stack);
        res
    }

    /// Starts visiting the elements collected in `stack`, which is emptied.
    pub fn new(stack: &mut Vec<SearchIndex>) -> (result: Self)
        ensures
            result.spec_pending() == old(stack)@,
            final(stack)@ == Seq::<SearchIndex>::empty(),
    {
        let level = Self::take_stack(stack);
        let result = Self { level, pos: 0 };
        assert(result.spec_pending() =~= old(stack)@);
        result
    }
}

impl SearchIterator for BreadthFirstSearch {
    /// The next element of the level, in collection order.
    fn next(&mut self) -> (result: Option<SearchIndex>)
        ensures
            old(self).spec_pending().len() == 0 ==> result is None && final(self).spec_pending()
                == old(self).spec_pending(),
            old(self).spec_pending().len() > 0 ==> result == Some(old(self).spec_pending()[0])
                && final(self).spec_pending() == old(self).spec_pending().drop_first(),
    {
        if self.pos < self.level.len() {
            let item = self.level[self.pos];
            self.pos = self.pos + 1;
            assert(self.spec_pending() =~= old(self).spec_pending().drop_first());
            Some(item)
        } else {
            None
        }
    }
}

} // verus!
