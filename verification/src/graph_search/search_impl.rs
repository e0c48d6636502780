use crate::collections::bit_set::BitSet;
use crate::db::db_error::DbError;
use crate::graph::{
    edge_from_below, index_magnitude, is_element, lemma_edge_below_is_element, Graph, GraphIndex,
    GraphSlot,
};
use crate::graph_search::depth_first_search::DepthFirstSearch;
use crate::graph_search::{control_rank, SearchControl, SearchHandler};
use vstd::prelude::*;

verus! {

/// A graph element reached by a search and its distance from the start.
#[derive(Clone, Copy, Debug, PartialEq, Eq, Structural)]
pub struct SearchIndex {
    pub index: GraphIndex,
    pub distance: u64,
}

/// The order in which a search visits the elements it has collected.
pub trait SearchIterator {
    /// The element to visit next, if any is left.
    fn next(&mut self) -> Option<SearchIndex>;
}

/// What the search does after the handler decided on an element.
#[derive(Clone, Copy, Debug, PartialEq, Eq, Structural)]
pub enum SearchStep {
    /// Expand the element (following edges to their target when `follow`)
    /// and go on with the search.
    Expand { follow: bool },
    /// End the search.
    Finish,
}

/// The bookkeeping of a graph search: the traversal order that hands out
/// the elements to visit, the elements already visited and the elements
/// selected so far.
pub struct SearchImpl<A: SearchIterator> {
    /// The traversal order; it is expanded as elements are processed.
    pub algorithm: A,
    result: Vec<GraphIndex>,
    visited: BitSet,
}

impl<A: SearchIterator> SearchImpl<A> {
    /// Elements selected so far, in the order they were selected.
    pub closed spec fn spec_result(&self) -> Seq<GraphIndex> {
        self.result@
    }

    /// The traversal order.
    pub closed spec fn spec_algorithm(&self) -> A {
        self.algorithm
    }

    /// Magnitudes of the elements already visited.
    pub closed spec fn spec_visited(&self) -> Set<u64> {
        self.visited@
    }

    /// A search over the traversal `algorithm` (such as one started at the
    /// search's first element) that has visited and selected nothing.
    pub fn new(algorithm: A) -> (result: Self)
        ensures
            result.spec_algorithm() == algorithm,
            result.spec_result() == Seq::<GraphIndex>::empty(),
            result.spec_visited() == Set::<u64>::empty(),
    {
        Self { algorithm, result: Vec::new(), visited: BitSet::new() }
    }

    /// Hands out the elements selected so far and leaves the selection empty.
    pub fn take_result(&mut self) -> (result: Vec<GraphIndex>)
        ensures
            result@ == old(self).spec_result(),
            final(self).spec_result() == Seq::<GraphIndex>::empty(),
            final(self).spec_visited() == old(self).spec_visited(),
            final(self).spec_algorithm() == old(self).spec_algorithm(),
    {
        let mut res = Vec::<GraphIndex>::new();
        std::mem::swap(&mut res, &mut self.result);
        res
    }

    /// Marks the element as visited and returns whether it had been visited before.
    pub fn visit_index(&mut self, index: &SearchIndex) -> (result: bool)
        requires
            index_magnitude(index.index.0) / 8 < usize::MAX,
        ensures
            result == old(self).spec_visited().contains(index_magnitude(index.index.0)),
            final(self).spec_visited() == old(self).spec_visited().insert(
                index_magnitude(index.index.0),
            ),
            final(self).spec_result() == old(self).spec_result(),
            final(self).spec_algorithm() == old(self).spec_algorithm(),
    {
        let key = index.index.as_u64();
        let visited = self.visited.value(key);
        self.visited.set(key);
        visited
    }

    /// Applies the handler's decision on an unvisited element: selects it when
    /// the decision says so and tells how the search goes on.
    pub fn process_unvisited_index(&mut self, index: SearchIndex, control: SearchControl) -> (result:
        SearchStep)
        ensures
            final(self).spec_result() == if control.spec_value() {
                old(self).spec_result().push(index.index)
            } else {
                old(self).spec_result()
            },
            final(self).spec_visited() == old(self).spec_visited(),
            final(self).spec_algorithm() == old(self).spec_algorithm(),
            result == match control {
                SearchControl::Continue(_) => SearchStep::Expand { follow: true },
                SearchControl::Stop(_) => SearchStep::Expand { follow: false },
                SearchControl::Finish(_) => SearchStep::Finish,
            },
    {
        let (add_index, step) = match control {
            SearchControl::Continue(add) => (add, SearchStep::Expand { follow: true }),
            SearchControl::Finish(add) => (add, SearchStep::Finish),
            SearchControl::Stop(add) => (add, SearchStep::Expand { follow: false }),
        };
        if add_index {
            self.result.push(index.index);
        }
        step
    }
}

/// Visiting an element marks it: visiting it again reports it as visited,
/// and the marks of elements of another magnitude stay as they were. (An
/// element is marked by its magnitude, so a node and an edge of the same
/// magnitude share their mark.)
pub proof fn law_visit_marks<A: SearchIterator>(
    before: SearchImpl<A>,
    after: SearchImpl<A>,
    index: SearchIndex,
    other: GraphIndex,
)
    requires
        after.spec_visited() == before.spec_visited().insert(index_magnitude(index.index.0)),
    ensures
        after.spec_visited().contains(index_magnitude(index.index.0)),
        index_magnitude(other.0) != index_magnitude(index.index.0) ==> after.spec_visited().contains(
            index_magnitude(other.0),
        ) == before.spec_visited().contains(index_magnitude(other.0)),
{
}

/// The elements the handler selected among `calls`, in call order.
pub open spec fn selected(calls: Seq<(GraphIndex, u64, SearchControl)>) -> Seq<GraphIndex>
    decreases calls.len(),
{
    if calls.len() == 0 {
        Seq::empty()
    } else {
        let before = selected(calls.drop_last());
        if calls.last().2.spec_value() {
            before.push(calls.last().0)
        } else {
            before
        }
    }
}

/// The magnitudes of the elements of `calls`.
pub open spec fn call_magnitudes(calls: Seq<(GraphIndex, u64, SearchControl)>) -> Set<u64>
    decreases calls.len(),
{
    if calls.len() == 0 {
        Set::empty()
    } else {
        call_magnitudes(calls.drop_last()).insert(index_magnitude(calls.last().0.0))
    }
}

/// Each call of `calls` is for an element of another magnitude than the
/// calls before it.
pub open spec fn calls_distinct(calls: Seq<(GraphIndex, u64, SearchControl)>) -> bool {
    forall|i: int|
        0 <= i < calls.len() ==> !call_magnitudes(calls.take(i)).contains(
            index_magnitude(#[trigger] calls[i].0.0),
        )
}

/// How many of the magnitudes 1 to `k` are not in `visited`.
pub open spec fn unvisited_count(visited: Set<u64>, k: nat) -> nat
    decreases k,
{
    if k == 0 {
        0
    } else {
        unvisited_count(visited, (k - 1) as nat) + if visited.contains(k as u64) {
            0nat
        } else {
            1nat
        }
    }
}

proof fn lemma_unvisited_insert(visited: Set<u64>, m: u64, k: nat)
    requires
        1 <= m <= k,
        k < u64::MAX,
        !visited.contains(m),
    ensures
        unvisited_count(visited.insert(m), k) + 1 == unvisited_count(visited, k),
    decreases k,
{
    if k > m {
        lemma_unvisited_insert(visited, m, (k - 1) as nat);
    } else {
        lemma_unvisited_same(visited, m, (k - 1) as nat);
    }
}

proof fn lemma_unvisited_same(visited: Set<u64>, m: u64, k: nat)
    requires
        k < m,
    ensures
        unvisited_count(visited.insert(m), k) == unvisited_count(visited, k),
    decreases k,
{
    if k > 0 {
        lemma_unvisited_same(visited, m, (k - 1) as nat);
    }
}

proof fn lemma_call_magnitudes_push(
    calls: Seq<(GraphIndex, u64, SearchControl)>,
    c: (GraphIndex, u64, SearchControl),
)
    ensures
        call_magnitudes(calls.push(c)) == call_magnitudes(calls).insert(index_magnitude(c.0.0)),
        selected(calls.push(c)) == if c.2.spec_value() {
            selected(calls).push(c.0)
        } else {
            selected(calls)
        },
{
    assert(calls.push(c).drop_last() =~= calls);
}

/// Every element waiting on `stack` is an element of the graph with slots
/// `slots`, at most `bound` steps from the start.
pub open spec fn stack_ok(slots: Seq<crate::graph::GraphSlot>, stack: Seq<SearchIndex>, bound: nat) -> bool {
    forall|i: int|
        0 <= i < stack.len() ==> is_element(slots, (#[trigger] stack[i]).index.0)
            && stack[i].distance <= bound
}

proof fn lemma_stack_ok_pop(slots: Seq<crate::graph::GraphSlot>, stack: Seq<SearchIndex>, bound: nat, wider: nat)
    requires
        stack_ok(slots, stack, bound),
        stack.len() > 0,
        bound <= wider,
    ensures
        stack_ok(slots, stack.drop_last(), wider),
        is_element(slots, stack.last().index.0),
        stack.last().distance <= bound,
{
    let t = stack.drop_last();
    assert forall|i: int| 0 <= i < t.len() implies is_element(slots, (#[trigger] t[i]).index.0)
        && t[i].distance <= wider by {
        assert(t[i] == stack[i]);
        assert(is_element(slots, stack[i].index.0) && stack[i].distance <= bound);
    }
    let k = stack.len() - 1;
    assert(stack.last() == stack[k]);
    assert(is_element(slots, stack[k].index.0) && stack[k].distance <= bound);
}

proof fn lemma_stack_ok_push(slots: Seq<crate::graph::GraphSlot>, stack: Seq<SearchIndex>, bound: nat, x: SearchIndex)
    requires
        stack_ok(slots, stack, bound),
        is_element(slots, x.index.0),
        x.distance <= bound,
    ensures
        stack_ok(slots, stack.push(x), bound),
{
    let t = stack.push(x);
    assert forall|i: int| 0 <= i < t.len() implies is_element(slots, (#[trigger] t[i]).index.0)
        && t[i].distance <= bound by {
        if i < stack.len() {
            assert(t[i] == stack[i]);
            assert(is_element(slots, stack[i].index.0) && stack[i].distance <= bound);
        } else {
            assert(t[i] == x);
        }
    }
}

/// The element `g` has been asked about (by magnitude) or waits on `stack`.
pub open spec fn covered(
    calls: Seq<(GraphIndex, u64, SearchControl)>,
    stack: Seq<SearchIndex>,
    g: i64,
) -> bool {
    ||| call_magnitudes(calls).contains(index_magnitude(g))
    ||| exists|j: int| 0 <= j < stack.len() && (#[trigger] stack[j]).index.0 == g
}

/// The elements a depth-first search goes on to from the answered call `c`
/// have been asked about or wait on `stack`: from a node it goes on (when
/// told to continue) to its newest outgoing edge; from an edge to the next
/// older edge of the same node and (when told to continue) to the edge's
/// target.
pub open spec fn call_covered(
    slots: Seq<GraphSlot>,
    calls: Seq<(GraphIndex, u64, SearchControl)>,
    stack: Seq<SearchIndex>,
    c: (GraphIndex, u64, SearchControl),
) -> bool {
    let e = c.0.0;
    let follow = c.2 is Continue;
    ||| c.2 is Finish
    ||| (e > 0 && (follow && edge_from_below(slots, e as u64, slots.len() + 1 as int) != 0 ==> covered(
        calls,
        stack,
        -edge_from_below(slots, e as u64, slots.len() + 1 as int) as i64,
    )))
    ||| (e < 0 && match slots[index_magnitude(e) - 1] {
        GraphSlot::Edge { from, to } => (edge_from_below(slots, from, index_magnitude(e) as int)
            != 0 ==> covered(
            calls,
            stack,
            -edge_from_below(slots, from, index_magnitude(e) as int) as i64,
        )) && (follow ==> covered(calls, stack, to as i64)),
        GraphSlot::Node => false,
    })
}

/// Every answered call has its successors asked about or waiting.
pub open spec fn all_covered(
    slots: Seq<GraphSlot>,
    calls: Seq<(GraphIndex, u64, SearchControl)>,
    stack: Seq<SearchIndex>,
) -> bool {
    forall|i: int| 0 <= i < calls.len() ==> call_covered(slots, calls, stack, #[trigger] calls[i])
}

/// `item` is one the search goes on to from the answered call `c`, at the
/// distance it gives it: from a node told to continue, its newest outgoing
/// edge one step further away; from an edge, the next older edge of the
/// same node at the same distance and, when told to continue, the edge's
/// target one step further away. Nothing follows a call told to finish.
pub open spec fn search_step(
    slots: Seq<GraphSlot>,
    c: (GraphIndex, u64, SearchControl),
    item: SearchIndex,
) -> bool {
    let e = c.0.0;
    let d = c.1 as int;
    &&& !(c.2 is Finish)
    &&& item.index.0 != 0
    &&& if e > 0 {
        &&& c.2 is Continue
        &&& item.index.0 as int == -edge_from_below(slots, e as u64, slots.len() + 1 as int)
        &&& item.distance as int == d + 1
    } else {
        match slots[index_magnitude(e) - 1] {
            GraphSlot::Edge { from, to } => {
                ||| (item.index.0 as int == -edge_from_below(slots, from, index_magnitude(e) as int)
                    && item.distance as int == d)
                ||| (c.2 is Continue && item.index.0 as int == to as int && item.distance as int
                    == d + 1)
            },
            GraphSlot::Node => false,
        }
    }
}

/// `item` is the start at distance 0, or one step (as `search_step` says)
/// from one of `calls`.
pub open spec fn reached(
    slots: Seq<GraphSlot>,
    start: GraphIndex,
    calls: Seq<(GraphIndex, u64, SearchControl)>,
    item: SearchIndex,
) -> bool {
    ||| (item.index == start && item.distance == 0)
    ||| exists|j: int| 0 <= j < calls.len() && search_step(slots, #[trigger] calls[j], item)
}

/// Every call of `calls` is for the start at distance 0 or for an element
/// one step from an earlier call, at the distance that step gives: the
/// distance of each element is its depth along the search path.
#[verifier::opaque]
pub open spec fn distances_follow(
    slots: Seq<GraphSlot>,
    start: GraphIndex,
    calls: Seq<(GraphIndex, u64, SearchControl)>,
) -> bool {
    forall|i: int|
        0 <= i < calls.len() ==> reached(
            slots,
            start,
            calls.take(i),
            SearchIndex { index: (#[trigger] calls[i]).0, distance: calls[i].1 },
        )
}

/// Every element waiting on `stack` is reached from `calls`.
#[verifier::opaque]
pub open spec fn stack_reached(
    slots: Seq<GraphSlot>,
    start: GraphIndex,
    calls: Seq<(GraphIndex, u64, SearchControl)>,
    stack: Seq<SearchIndex>,
) -> bool {
    forall|k: int| 0 <= k < stack.len() ==> reached(slots, start, calls, #[trigger] stack[k])
}

/// The element a depth-first search turns to right after answering `c`,
/// when there is one: from a node told to continue, its newest outgoing
/// edge one step further away; from an edge told to continue, its target
/// one step further away; from an edge told to stop, the next older edge of
/// the same node at the same distance.
pub open spec fn deeper_step(slots: Seq<GraphSlot>, c: (GraphIndex, u64, SearchControl)) -> Option<
    SearchIndex,
> {
    let e = c.0.0;
    let d = c.1 as int;
    if c.2 is Finish {
        None
    } else if e > 0 {
        let first = edge_from_below(slots, e as u64, slots.len() + 1 as int);
        if c.2 is Continue && first != 0 {
            Some(SearchIndex { index: GraphIndex(-first as i64), distance: (d + 1) as u64 })
        } else {
            None
        }
    } else {
        match slots[index_magnitude(e) - 1] {
            GraphSlot::Edge { from, to } => {
                let next = edge_from_below(slots, from, index_magnitude(e) as int);
                if c.2 is Continue {
                    Some(SearchIndex { index: GraphIndex(to as i64), distance: (d + 1) as u64 })
                } else if next != 0 {
                    Some(SearchIndex { index: GraphIndex(-next as i64), distance: d as u64 })
                } else {
                    None
                }
            },
            GraphSlot::Node => None,
        }
    }
}

/// The search goes depth first: whenever the element `deeper_step` gives
/// for a call had not been asked about by then, it is the very next call.
#[verifier::opaque]
pub open spec fn depth_order(slots: Seq<GraphSlot>, calls: Seq<(GraphIndex, u64, SearchControl)>) -> bool {
    forall|i: int|
        0 <= i < calls.len() - 1 ==> match deeper_step(slots, #[trigger] calls[i]) {
            Some(x) => !call_magnitudes(calls.take(i + 1)).contains(index_magnitude(x.index.0))
                ==> calls[i + 1].0 == x.index && calls[i + 1].1 == x.distance,
            None => true,
        }
}

/// The element `deeper_step` gives for the last call, when it has not been
/// asked about, is the next to be taken from `stack`.
#[verifier::opaque]
spec fn deeper_waits(
    slots: Seq<GraphSlot>,
    calls: Seq<(GraphIndex, u64, SearchControl)>,
    stack: Seq<SearchIndex>,
) -> bool {
    calls.len() > 0 ==> match deeper_step(slots, calls.last()) {
        Some(x) => !call_magnitudes(calls).contains(index_magnitude(x.index.0)) ==> stack.len() > 0
            && stack.last() == x,
        None => true,
    }
}

proof fn lemma_depth_order_push(
    slots: Seq<GraphSlot>,
    calls: Seq<(GraphIndex, u64, SearchControl)>,
    stack: Seq<SearchIndex>,
    c: (GraphIndex, u64, SearchControl),
)
    requires
        depth_order(slots, calls),
        deeper_waits(slots, calls, stack),
        stack.len() > 0,
        c.0 == stack.last().index,
        c.1 == stack.last().distance,
    ensures
        depth_order(slots, calls.push(c)),
{
    reveal(depth_order);
    reveal(deeper_waits);
    let next = calls.push(c);
    assert forall|i: int| 0 <= i < next.len() - 1 implies match deeper_step(
        slots,
        #[trigger] next[i],
    ) {
        Some(x) => !call_magnitudes(next.take(i + 1)).contains(index_magnitude(x.index.0))
            ==> next[i + 1].0 == x.index && next[i + 1].1 == x.distance,
        None => true,
    } by {
        assert(next[i] == calls[i]);
        if i + 1 < calls.len() {
            assert(next.take(i + 1) =~= calls.take(i + 1));
            assert(next[i + 1] == calls[i + 1]);
        } else {
            assert(next.take(i + 1) =~= calls);
            assert(calls.last() == calls[i]);
        }
    }
}

proof fn lemma_deeper_waits(
    slots: Seq<GraphSlot>,
    calls: Seq<(GraphIndex, u64, SearchControl)>,
    stack: Seq<SearchIndex>,
)
    requires
        calls.len() > 0,
        deeper_step(slots, calls.last()) matches Some(x) ==> stack.len() > 0 && stack.last() == x,
    ensures
        deeper_waits(slots, calls, stack),
{
    reveal(deeper_waits);
}

proof fn lemma_deeper_waits_seen(
    slots: Seq<GraphSlot>,
    calls: Seq<(GraphIndex, u64, SearchControl)>,
    stack: Seq<SearchIndex>,
)
    requires
        deeper_waits(slots, calls, stack),
        stack.len() > 0,
        call_magnitudes(calls).contains(index_magnitude(stack.last().index.0)),
    ensures
        deeper_waits(slots, calls, stack.drop_last()),
{
    reveal(deeper_waits);
}

proof fn lemma_reached_extend(
    slots: Seq<GraphSlot>,
    start: GraphIndex,
    calls: Seq<(GraphIndex, u64, SearchControl)>,
    more: Seq<(GraphIndex, u64, SearchControl)>,
    item: SearchIndex,
)
    requires
        reached(slots, start, calls, item),
        more.len() >= calls.len(),
        forall|j: int| 0 <= j < calls.len() ==> more[j] == calls[j],
    ensures
        reached(slots, start, more, item),
{
    if !(item.index == start && item.distance == 0) {
        let j = choose|j: int| 0 <= j < calls.len() && search_step(slots, #[trigger] calls[j], item);
        assert(more[j] == calls[j]);
    }
}

proof fn lemma_stack_reached_step(
    slots: Seq<GraphSlot>,
    start: GraphIndex,
    calls: Seq<(GraphIndex, u64, SearchControl)>,
    stack: Seq<SearchIndex>,
    new_calls: Seq<(GraphIndex, u64, SearchControl)>,
    new_stack: Seq<SearchIndex>,
)
    requires
        stack_reached(slots, start, calls, stack),
        stack.len() > 0,
        new_calls.len() >= calls.len(),
        forall|j: int| 0 <= j < calls.len() ==> new_calls[j] == calls[j],
        new_stack.len() >= stack.len() - 1,
        forall|k: int| 0 <= k < stack.len() - 1 ==> new_stack[k] == stack[k],
        forall|k: int|
            stack.len() - 1 <= k < new_stack.len() ==> reached(slots, start, new_calls, #[trigger] new_stack[k]),
    ensures
        stack_reached(slots, start, new_calls, new_stack),
{
    reveal(stack_reached);
    assert forall|k: int| 0 <= k < new_stack.len() implies reached(
        slots,
        start,
        new_calls,
        #[trigger] new_stack[k],
    ) by {
        if k < stack.len() - 1 {
            assert(new_stack[k] == stack[k]);
            lemma_reached_extend(slots, start, calls, new_calls, stack[k]);
        }
    }
}

proof fn lemma_stack_reached_last(
    slots: Seq<GraphSlot>,
    start: GraphIndex,
    calls: Seq<(GraphIndex, u64, SearchControl)>,
    stack: Seq<SearchIndex>,
)
    requires
        stack_reached(slots, start, calls, stack),
        stack.len() > 0,
    ensures
        reached(slots, start, calls, stack.last()),
{
    reveal(stack_reached);
    assert(stack.last() == stack[stack.len() - 1]);
}

proof fn lemma_search_start(slots: Seq<GraphSlot>, start: GraphIndex)
    ensures
        stack_reached(
            slots,
            start,
            Seq::<(GraphIndex, u64, SearchControl)>::empty(),
            seq![SearchIndex { index: start, distance: 0 }],
        ),
        distances_follow(slots, start, Seq::<(GraphIndex, u64, SearchControl)>::empty()),
        depth_order(slots, Seq::<(GraphIndex, u64, SearchControl)>::empty()),
        deeper_waits(
            slots,
            Seq::<(GraphIndex, u64, SearchControl)>::empty(),
            seq![SearchIndex { index: start, distance: 0 }],
        ),
{
    reveal(stack_reached);
    reveal(distances_follow);
    reveal(depth_order);
    reveal(deeper_waits);
    let stack = seq![SearchIndex { index: start, distance: 0 }];
    assert(reached(slots, start, Seq::<(GraphIndex, u64, SearchControl)>::empty(), stack[0]));
}

proof fn lemma_distances_push(
    slots: Seq<GraphSlot>,
    start: GraphIndex,
    calls: Seq<(GraphIndex, u64, SearchControl)>,
    c: (GraphIndex, u64, SearchControl),
)
    requires
        distances_follow(slots, start, calls),
        reached(slots, start, calls, SearchIndex { index: c.0, distance: c.1 }),
    ensures
        distances_follow(slots, start, calls.push(c)),
{
    reveal(distances_follow);
    let next = calls.push(c);
    assert forall|i: int| 0 <= i < next.len() implies reached(
        slots,
        start,
        next.take(i),
        SearchIndex { index: (#[trigger] next[i]).0, distance: next[i].1 },
    ) by {
        if i < calls.len() {
            assert(next.take(i) =~= calls.take(i));
            assert(next[i] == calls[i]);
        } else {
            assert(next.take(i) =~= calls);
        }
    }
}

proof fn lemma_covered_step(
    calls: Seq<(GraphIndex, u64, SearchControl)>,
    stack: Seq<SearchIndex>,
    new_calls: Seq<(GraphIndex, u64, SearchControl)>,
    new_stack: Seq<SearchIndex>,
    g: i64,
)
    requires
        stack.len() > 0,
        forall|m: u64| call_magnitudes(calls).contains(m) ==> call_magnitudes(new_calls).contains(m),
        call_magnitudes(new_calls).contains(index_magnitude(stack.last().index.0)),
        new_stack.len() >= stack.len() - 1,
        forall|j: int| 0 <= j < stack.len() - 1 ==> new_stack[j] == stack[j],
        covered(calls, stack, g),
    ensures
        covered(new_calls, new_stack, g),
{
    if !call_magnitudes(calls).contains(index_magnitude(g)) {
        let j = choose|j: int| 0 <= j < stack.len() && (#[trigger] stack[j]).index.0 == g;
        if j == stack.len() - 1 {
            assert(stack.last() == stack[j]);
        } else {
            assert(new_stack[j] == stack[j]);
        }
    }
}

proof fn lemma_all_covered_step(
    slots: Seq<GraphSlot>,
    calls: Seq<(GraphIndex, u64, SearchControl)>,
    stack: Seq<SearchIndex>,
    new_calls: Seq<(GraphIndex, u64, SearchControl)>,
    new_stack: Seq<SearchIndex>,
)
    requires
        stack.len() > 0,
        new_calls.len() >= calls.len(),
        forall|i: int| 0 <= i < calls.len() ==> new_calls[i] == calls[i],
        forall|m: u64| call_magnitudes(calls).contains(m) ==> call_magnitudes(new_calls).contains(m),
        call_magnitudes(new_calls).contains(index_magnitude(stack.last().index.0)),
        new_stack.len() >= stack.len() - 1,
        forall|j: int| 0 <= j < stack.len() - 1 ==> new_stack[j] == stack[j],
        all_covered(slots, calls, stack),
    ensures
        forall|i: int| 0 <= i < calls.len() ==> call_covered(slots, new_calls, new_stack, #[trigger] new_calls[i]),
{
    assert forall|i: int| 0 <= i < calls.len() implies call_covered(
        slots,
        new_calls,
        new_stack,
        #[trigger] new_calls[i],
    ) by {
        let c = calls[i];
        assert(call_covered(slots, calls, stack, c));
        assert(new_calls[i] == c);
        let e = c.0.0;
        if !(c.2 is Finish) {
            if e > 0 {
                let f = -edge_from_below(slots, e as u64, slots.len() + 1 as int) as i64;
                if c.2 is Continue && edge_from_below(slots, e as u64, slots.len() + 1 as int) != 0 {
                    lemma_covered_step(calls, stack, new_calls, new_stack, f);
                }
            } else if e < 0 {
                if let GraphSlot::Edge { from, to } = slots[index_magnitude(e) - 1] {
                    let nx = -edge_from_below(slots, from, index_magnitude(e) as int) as i64;
                    if edge_from_below(slots, from, index_magnitude(e) as int) != 0 {
                        lemma_covered_step(calls, stack, new_calls, new_stack, nx);
                    }
                    if c.2 is Continue {
                        lemma_covered_step(calls, stack, new_calls, new_stack, to as i64);
                    }
                }
            }
        }
    }
}

/// Searches `graph` depth first from `index`: the handler is asked about
/// each element reached that was not reached before (by magnitude), starting
/// with `index` at distance 0; `Continue` follows the element's edges,
/// `Stop` does not go past it, `Finish` ends the search. The result holds the
/// elements the handler selected, in the order it was asked. An index that
/// names no element of the graph gives an empty result without asking.
/// Each element is asked about at its depth along the search path
/// (`distances_follow`), and the search goes depth first (`depth_order`).
/// Unless the handler finished it, the search is complete: every element it
/// goes on to from an answered element has been asked about.
#[verifier::rlimit(100)]
#[verifier::spinoff_prover]
pub fn depth_first_search<H: SearchHandler>(graph: &Graph, index: GraphIndex, handler: &mut H) -> (result: Result<Vec<GraphIndex>, DbError>)
    requires
        graph.wf(),
        graph@.len() < usize::MAX,
    ensures
        !is_element(graph@, index.0) ==> (result matches Ok(r) && r@.len() == 0
            && final(handler).spec_calls() == old(handler).spec_calls()),
        final(handler).spec_setup() == old(handler).spec_setup(),
        result matches Ok(r) ==> ({
            let calls = final(handler).spec_calls().subrange(
                old(handler).spec_calls().len() as int,
                final(handler).spec_calls().len() as int,
            );
            &&& final(handler).spec_calls().len() >= old(handler).spec_calls().len()
            &&& final(handler).spec_calls().subrange(0, old(handler).spec_calls().len() as int)
                == old(handler).spec_calls()
            &&& r@ == selected(calls)
            &&& calls_distinct(calls)
            &&& forall|i: int| 0 <= i < calls.len() ==> is_element(graph@, #[trigger] calls[i].0.0)
            &&& forall|i: int| 0 <= i < calls.len() - 1 ==> !(#[trigger] calls[i].2 is Finish)
            &&& is_element(graph@, index.0) ==> calls.len() > 0 && calls[0].0 == index && calls[0].1
                == 0
            &&& distances_follow(graph@, index, calls)
            &&& depth_order(graph@, calls)
            &&& is_element(graph@, index.0) && !(calls.last().2 is Finish) ==> all_covered(
                graph@,
                calls,
                Seq::<SearchIndex>::empty(),
            )
        }),
{
    if !graph.is_valid_index(index) {
        proof {
            lemma_search_start(graph@, index);
            let all = handler.spec_calls();
            assert(all.subrange(all.len() as int, all.len() as int) =~= Seq::<
                (GraphIndex, u64, SearchControl),
            >::empty());
            assert(all.subrange(0, all.len() as int) =~= all);
        }
        return Ok(Vec::new());
    }
    let ghost start = handler.spec_calls();
    let ghost setup = handler.spec_setup();
    let ghost n: nat = graph@.len();
    let ghost mut calls: Seq<(GraphIndex, u64, SearchControl)> = Seq::empty();
    let mut search = SearchImpl::new(DepthFirstSearch::new(index));
    proof {
        assert(start + calls =~= start);
        assert(call_magnitudes(calls) =~= search.spec_visited());
        assert(search.spec_result() =~= selected(calls));
        lemma_search_start(graph@, index);
        assert forall|v: u64| #[trigger] unvisited_count(Set::<u64>::empty(), v as nat) == v by {
            lemma_unvisited_empty(v as nat);
        }
        lemma_unvisited_empty(n);
    }
    loop
        invariant_except_break
            forall|i: int| 0 <= i < calls.len() ==> !(#[trigger] calls[i].2 is Finish),
            all_covered(graph@, calls, search.algorithm.spec_stack()),
            stack_reached(graph@, index, calls, search.algorithm.spec_stack()),
            deeper_waits(graph@, calls, search.algorithm.spec_stack()),
        invariant
            graph.wf(),
            n == graph@.len(),
            n < usize::MAX,
            n < i64::MAX,
            is_element(graph@, index.0),
            handler.spec_calls() == start + calls,
            handler.spec_setup() == setup,
            setup == old(handler).spec_setup(),
            search.spec_visited() == call_magnitudes(calls),
            search.spec_result() == selected(calls),
            calls_distinct(calls),
            forall|i: int| 0 <= i < calls.len() ==> is_element(graph@, #[trigger] calls[i].0.0),
            calls.len() + unvisited_count(search.spec_visited(), n) == n,
            calls.len() == 0 ==> search.algorithm.spec_stack() == seq![
                SearchIndex { index, distance: 0 },
            ],
            calls.len() > 0 ==> calls[0].0 == index && calls[0].1 == 0,
            stack_ok(graph@, search.algorithm.spec_stack(), calls.len()),
            distances_follow(graph@, index, calls),
            depth_order(graph@, calls),
        ensures
            distances_follow(graph@, index, calls),
            depth_order(graph@, calls),
            calls.len() > 0 && !(calls.last().2 is Finish) ==> all_covered(
                graph@,
                calls,
                Seq::<SearchIndex>::empty(),
            ),
            handler.spec_calls() == start + calls,
            handler.spec_setup() == setup,
            search.spec_result() == selected(calls),
            calls_distinct(calls),
            forall|i: int| 0 <= i < calls.len() ==> is_element(graph@, #[trigger] calls[i].0.0),
            forall|i: int| 0 <= i < calls.len() - 1 ==> !(#[trigger] calls[i].2 is Finish),
            calls.len() > 0 ==> calls[0].0 == index && calls[0].1 == 0,
            calls.len() > 0,
        decreases unvisited_count(search.spec_visited(), n), search.algorithm.spec_stack().len(),
    {
        let ghost stack0 = search.algorithm.spec_stack();
        let current = match search.algorithm.next() {
            Some(current) => current,
            None => {
                proof {
                    if calls.len() == 0 {
                        assert(stack0.len() == 1);
                    }
                    assert(stack0 =~= Seq::<SearchIndex>::empty());
                }
                break;
            },
        };
        proof {
            assert(stack0.last() == current);
            lemma_stack_ok_pop(graph@, stack0, calls.len(), calls.len() + 1);
            lemma_element_magnitude(graph@, current.index.0);
            lemma_stack_reached_last(graph@, index, calls, stack0);
        }
        let ghost visited0 = search.spec_visited();
        let seen = search.visit_index(&current);
        if !seen {
            let control = match handler.process(current.index, current.distance) {
                Ok(control) => control,
                Err(e) => {
                    return Err(e);
                },
            };
            let ghost old_calls = calls;
            let step = search.process_unvisited_index(current, control);
            proof {
                let c = (current.index, current.distance, control);
                calls = calls.push(c);
                lemma_call_magnitudes_push(old_calls, c);
                assert(start + calls =~= (start + old_calls).push(c));
                lemma_unvisited_insert(visited0, index_magnitude(current.index.0), n);
                assert forall|i: int| 0 <= i < calls.len() implies !call_magnitudes(
                    calls.take(i),
                ).contains(index_magnitude(#[trigger] calls[i].0.0)) by {
                    if i < old_calls.len() {
                        assert(calls.take(i) =~= old_calls.take(i));
                    } else {
                        assert(calls.take(i) =~= old_calls);
                    }
                }
                if old_calls.len() == 0 {
                    assert(current == SearchIndex { index, distance: 0 });
                }
                lemma_distances_push(graph@, index, old_calls, c);
                lemma_depth_order_push(graph@, old_calls, stack0, c);
            }
            let ghost before = search.algorithm.spec_stack();
            proof {
                assert(call_magnitudes(calls).contains(index_magnitude(stack0.last().index.0)));
            }
            match step {
                SearchStep::Finish => {
                    break;
                },
                SearchStep::Expand { follow } => {
                    if current.index.is_node() {
                        let first = graph.first_edge_from(current.index);
                        proof {
                            if first.0 != 0 {
                                lemma_edge_below_is_element(
                                    graph@,
                                    current.index.0 as u64,
                                    n + 1 as int,
                                    first.0,
                                );
                            }
                        }
                        search.algorithm.expand_node(current, follow, first);
                        proof {
                            let st = search.algorithm.spec_stack();
                            lemma_all_covered_step(graph@, old_calls, stack0, calls, st);
                            if follow && first.0 != 0 {
                                assert(st[before.len() as int].index.0 == first.0);
                            }
                            assert(call_covered(graph@, calls, st, calls[old_calls.len() as int]));
                            assert forall|i: int| 0 <= i < calls.len() implies call_covered(
                                graph@,
                                calls,
                                st,
                                #[trigger] calls[i],
                            ) by {}
                        }
                        proof {
                            let st = search.algorithm.spec_stack();
                            if follow && first.0 != 0 {
                                let item = SearchIndex { index: first, distance: (current.distance + 1) as u64 };
                                assert(st[before.len() as int] == item);
                                assert(calls[old_calls.len() as int] == (current.index, current.distance, control));
                                assert(search_step(graph@, calls[old_calls.len() as int], item));
                            }
                            lemma_stack_reached_step(graph@, index, old_calls, stack0, calls, st);
                            assert(calls.last() == (current.index, current.distance, control));
                            if follow && first.0 != 0 {
                                assert(first == GraphIndex(-edge_from_below(graph@, current.index.0 as u64, n + 1 as int) as i64));
                            }
                            lemma_deeper_waits(graph@, calls, st);
                        }
                        proof {
                            if follow && first.0 != 0 {
                                lemma_stack_ok_push(
                                    graph@,
                                    before,
                                    calls.len(),
                                    SearchIndex { index: first, distance: (current.distance + 1) as u64 },
                                );
                            }
                        }
                    } else {
                        let next = graph.next_edge_from(current.index);
                        let to = graph.edge_to(current.index);
                        proof {
                            if let crate::graph::GraphSlot::Edge { from, .. } = graph@[index_magnitude(current.index.0) - 1] {
                                if next.0 != 0 {
                                    lemma_edge_below_is_element(
                                        graph@,
                                        from,
                                        index_magnitude(current.index.0) as int,
                                        next.0,
                                    );
                                }
                            }
                            assert(is_element(graph@, to.0));
                        }
                        search.algorithm.expand_edge(current, follow, next, to);
                        proof {
                            let st = search.algorithm.spec_stack();
                            lemma_all_covered_step(graph@, old_calls, stack0, calls, st);
                            let s1 = if next.0 != 0 {
                                before.push(SearchIndex { index: next, distance: current.distance })
                            } else {
                                before
                            };
                            if next.0 != 0 {
                                assert(st[before.len() as int].index.0 == next.0);
                            }
                            if follow {
                                assert(st[s1.len() as int].index.0 == to.0);
                            }
                            assert(call_covered(graph@, calls, st, calls[old_calls.len() as int]));
                            assert forall|i: int| 0 <= i < calls.len() implies call_covered(
                                graph@,
                                calls,
                                st,
                                #[trigger] calls[i],
                            ) by {}
                        }
                        proof {
                            let s1 = if next.0 != 0 {
                                before.push(SearchIndex { index: next, distance: current.distance })
                            } else {
                                before
                            };
                            if next.0 != 0 {
                                lemma_stack_ok_push(
                                    graph@,
                                    before,
                                    calls.len(),
                                    SearchIndex { index: next, distance: current.distance },
                                );
                            }
                            let st = search.algorithm.spec_stack();
                            let c = (current.index, current.distance, control);
                            assert(calls[old_calls.len() as int] == c);
                            if next.0 != 0 {
                                let item = SearchIndex { index: next, distance: current.distance };
                                assert(st[before.len() as int] == item);
                                assert(search_step(graph@, c, item));
                            }
                            if follow {
                                let item = SearchIndex { index: to, distance: (current.distance + 1) as u64 };
                                assert(st[s1.len() as int] == item);
                                assert(search_step(graph@, c, item));
                            }
                            lemma_stack_reached_step(graph@, index, old_calls, stack0, calls, st);
                            assert(calls.last() == c);
                            if next.0 != 0 {
                                assert(next == GraphIndex(next.0));
                            }
                            lemma_deeper_waits(graph@, calls, st);
                            if follow {
                                lemma_stack_ok_push(
                                    graph@,
                                    s1,
                                    calls.len(),
                                    SearchIndex { index: to, distance: (current.distance + 1) as u64 },
                                );
                            }
                        }
                    }
                },
            }
        } else {
            proof {
                assert(search.spec_visited() =~= visited0);
                lemma_stack_ok_pop(graph@, stack0, calls.len(), calls.len());
                lemma_stack_reached_step(graph@, index, calls, stack0, calls, search.algorithm.spec_stack());
                if calls.len() > 0 {
                    lemma_deeper_waits_seen(graph@, calls, stack0);
                }
                lemma_all_covered_step(
                    graph@,
                    calls,
                    stack0,
                    calls,
                    search.algorithm.spec_stack(),
                );
            }
        }
    }
    proof {
        assert(handler.spec_calls().subrange(start.len() as int, handler.spec_calls().len() as int) =~= calls);
        assert(handler.spec_calls().subrange(0, start.len() as int) =~= start);
    }
    Ok(search.take_result())
}

proof fn lemma_unvisited_empty(k: nat)
    ensures
        unvisited_count(Set::<u64>::empty(), k) == k,
    decreases k,
{
    if k > 0 {
        lemma_unvisited_empty((k - 1) as nat);
    }
}

proof fn lemma_element_magnitude(slots: Seq<crate::graph::GraphSlot>, i: i64)
    requires
        is_element(slots, i),
    ensures
        1 <= index_magnitude(i) <= slots.len(),
{
}

} // verus!
