use crate::graph::GraphIndex;
use crate::graph_search::search_impl::{SearchIndex, SearchIterator};
use vstd::prelude::*;

verus! {

/// Depth-first traversal order: a stack of elements still to visit.
pub struct DepthFirstSearch {
    stack: Vec<SearchIndex>,
}

impl DepthFirstSearch {
    /// The elements still to visit; the last one is visited next.
    pub closed spec fn spec_stack(&self) -> Seq<SearchIndex> {
        self.stack@
    }

    /// A traversal that starts at `index` with distance 0.
    pub fn new(index: GraphIndex) -> (result: Self)
        ensures
            result.spec_stack() == seq![SearchIndex { index, distance: 0 }],
    {
        let mut stack = Vec::new();
        stack.push(SearchIndex { index, distance: 0 });
        Self { stack }
    }

    /// Expands a node: when following, its first outgoing edge (if valid) is
    /// visited next, one step further away.
    pub fn expand_node(&mut self, current_index: SearchIndex, follow: bool, first_edge: GraphIndex)
        requires
            current_index.distance < u64::MAX,
        ensures
            final(self).spec_stack() == if follow && first_edge.0 != 0 {
                old(self).spec_stack().push(
                    SearchIndex { index: first_edge, distance: (current_index.distance + 1) as u64 },
                )
            } else {
                old(self).spec_stack()
            },
    {
        if follow && first_edge.is_valid() {
            self.stack.push(SearchIndex { index: first_edge, distance: current_index.distance + 1 });
        }
    }

    /// Expands an edge: its next sibling edge (if valid) is visited at the same
    /// distance and, when following, the edge's target node is visited first,
    /// one step further away.
    pub fn expand_edge(
        &mut self,
        current_index: SearchIndex,
        follow: bool,
        next_edge: GraphIndex,
        edge_to: GraphIndex,
    )
        requires
            current_index.distance < u64::MAX,
        ensures
            ({
                let s1 = if next_edge.0 != 0 {
                    old(self).spec_stack().push(
                        SearchIndex { index: next_edge, distance: current_index.distance },
                    )
                } else {
                    old(self).spec_stack()
                };
                final(self).spec_stack() == if follow {
                    s1.push(
                        SearchIndex {
                            index: edge_to,
                            distance: (current_index.distance + 1) as u64,
                        },
                    )
                } else {
                    s1
                }
            }),
    {
        if next_edge.is_valid() {
            self.stack.push(SearchIndex { index: next_edge, distance: current_index.distance });
        }
        if follow {
            self.stack.push(SearchIndex { index: edge_to, distance: current_index.distance + 1 });
        }
    }
}

impl SearchIterator for DepthFirstSearch {
    /// The element visited next: the most recently pushed one.
    fn next(&mut self) -> (result: Option<SearchIndex>)
        ensures
            old(self).spec_stack().len() == 0 ==> result is None && final(self).spec_stack()
                == old(self).spec_stack(),
            old(self).spec_stack().len() > 0 ==> result == Some(old(self).spec_stack().last())
                && final(self).spec_stack() == old(self).spec_stack().drop_last(),
    {
        self.stack.pop()
    }
}

} // verus!
