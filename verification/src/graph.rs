use crate::db::db_error::{DbError, DbErrorType};
use vstd::prelude::*;

verus! {

/// Index of a graph element: nodes are positive, edges are negative and
/// zero is the invalid index.
#[derive(Clone, Copy, Debug, Default, PartialEq, Eq, Structural)]
pub struct GraphIndex(pub i64);

/// Magnitude of a graph index.
pub open spec fn index_magnitude(i: i64) -> u64 {
    if i < 0 {
        (-i) as u64
    } else {
        i as u64
    }
}

impl GraphIndex {
    pub fn is_node(&self) -> (result: bool)
        ensures
            result == (self.0 > 0),
    {
        self.0 > 0
    }

    pub fn is_edge(&self) -> (result: bool)
        ensures
            result == (self.0 < 0),
    {
        self.0 < 0
    }

    pub fn is_valid(&self) -> (result: bool)
        ensures
            result == (self.0 != 0),
    {
        self.0 != 0
    }

    /// The magnitude of the index, which tells nodes and edges apart from
    /// other elements of the same kind.
    pub fn as_u64(&self) -> (result: u64)
        ensures
            result == index_magnitude(self.0),
    {
        if self.0 < 0 {
            ((-(self.0 + 1)) as u64) + 1
        } else {
            self.0 as u64
        }
    }
}

/// What an element slot of a graph holds: a node, or an edge between the
/// nodes of the given magnitudes.
#[derive(Clone, Copy, Debug, PartialEq, Eq, Structural)]
pub enum GraphSlot {
    Node,
    Edge { from: u64, to: u64 },
}

/// Whether `i` names an element of the graph with slots `slots`: a node
/// index names a node slot, an edge index an edge slot; element `m` lives in
/// slot `m - 1`.
pub open spec fn is_element(slots: Seq<GraphSlot>, i: i64) -> bool {
    let m = index_magnitude(i);
    &&& i != 0
    &&& m <= slots.len()
    &&& (i > 0 ==> slots[m - 1] is Node)
    &&& (i < 0 ==> slots[m - 1] is Edge)
}

/// The magnitude of the newest edge going out of node `from` among the
/// elements below magnitude `bound`, or 0 when there is none. The edges of a
/// node are walked from the newest to the oldest.
pub open spec fn edge_from_below(slots: Seq<GraphSlot>, from: u64, bound: int) -> int
    decreases bound,
{
    if bound <= 1 {
        0
    } else if slots[bound - 2] matches GraphSlot::Edge { from: f, .. } && f == from {
        bound - 1
    } else {
        edge_from_below(slots, from, bound - 1)
    }
}

/// The newest edge below a bound, when there is one, lies below it and goes
/// out of the given node.
pub proof fn lemma_edge_from_below(slots: Seq<GraphSlot>, from: u64, bound: int)
    requires
        bound <= slots.len() + 1,
    ensures
        0 <= edge_from_below(slots, from, bound) < (if bound > 1 { bound } else { 1 }),
        edge_from_below(slots, from, bound) > 0 ==> (slots[edge_from_below(slots, from, bound)
            - 1] matches GraphSlot::Edge { from: f, .. } && f == from),
    decreases bound,
{
    if bound > 1 {
        lemma_edge_from_below(slots, from, bound - 1);
    }
}

/// The index of the newest edge below a bound, when there is one, names
/// an edge of the graph.
pub proof fn lemma_edge_below_is_element(slots: Seq<GraphSlot>, from: u64, bound: int, i: i64)
    requires
        bound <= slots.len() + 1,
        i == -edge_from_below(slots, from, bound),
        i != 0,
    ensures
        is_element(slots, i),
        i < 0,
{
    lemma_edge_from_below(slots, from, bound);
}

proof fn lemma_edge_below_prefix(slots: Seq<GraphSlot>, slot: GraphSlot, m: u64, bound: int)
    requires
        bound <= slots.len() + 1,
    ensures
        edge_from_below(slots.push(slot), m, bound) == edge_from_below(slots, m, bound),
    decreases bound,
{
    if bound > 1 {
        assert(slots.push(slot)[bound - 2] == slots[bound - 2]);
        lemma_edge_below_prefix(slots, slot, m, bound - 1);
    }
}

/// A node's edges are walked newest first: right after an edge from `from`
/// is added, it is the first edge of `from`, and the edge after it is the
/// one that was first before; the first edge of every other node stays as
/// it was.
pub proof fn law_new_edge_first(slots: Seq<GraphSlot>, from: u64, to: u64, m: u64)
    ensures
        edge_from_below(slots.push(GraphSlot::Edge { from, to }), from, slots.len() + 2 as int)
            == slots.len() + 1,
        edge_from_below(slots.push(GraphSlot::Edge { from, to }), from, slots.len() + 1 as int)
            == edge_from_below(slots, from, slots.len() + 1 as int),
        m != from ==> edge_from_below(slots.push(GraphSlot::Edge { from, to }), m, slots.len() + 2 as int)
            == edge_from_below(slots, m, slots.len() + 1 as int),
{
    let s2 = slots.push(GraphSlot::Edge { from, to });
    assert(s2[slots.len() as int] == GraphSlot::Edge { from, to });
    lemma_edge_below_prefix(slots, GraphSlot::Edge { from, to }, from, slots.len() + 1 as int);
    lemma_edge_below_prefix(slots, GraphSlot::Edge { from, to }, m, slots.len() + 1 as int);
}

/// Adding a node leaves the first edge of every node as it was; a node that
/// no edge goes out of has no first edge.
pub proof fn law_new_node_no_edges(slots: Seq<GraphSlot>, m: u64)
    ensures
        edge_from_below(slots.push(GraphSlot::Node), m, slots.len() + 2 as int) == edge_from_below(
            slots,
            m,
            slots.len() + 1 as int,
        ),
        (forall|k: int|
            0 <= k < slots.len() ==> !(#[trigger] slots[k] matches GraphSlot::Edge { from, .. }
                && from == m)) ==> edge_from_below(slots, m, slots.len() + 1 as int) == 0,
{
    let s2 = slots.push(GraphSlot::Node);
    assert(s2[slots.len() as int] == GraphSlot::Node);
    lemma_edge_below_prefix(slots, GraphSlot::Node, m, slots.len() + 1 as int);
    if forall|k: int|
        0 <= k < slots.len() ==> !(#[trigger] slots[k] matches GraphSlot::Edge { from, .. } && from
            == m) {
        lemma_no_edge_below(slots, m, slots.len() + 1 as int);
    }
}

proof fn lemma_no_edge_below(slots: Seq<GraphSlot>, m: u64, bound: int)
    requires
        bound <= slots.len() + 1,
        forall|k: int| 0 <= k < slots.len() ==> !(#[trigger] slots[k] matches GraphSlot::Edge { from, .. } && from == m),
    ensures
        edge_from_below(slots, m, bound) == 0,
    decreases bound,
{
    if bound > 1 {
        assert(!(slots[bound - 2] matches GraphSlot::Edge { from, .. } && from == m));
        lemma_no_edge_below(slots, m, bound - 1);
    }
}

/// How many of the first `k` slots are edges going out of node `m`.
pub open spec fn edges_from_count(slots: Seq<GraphSlot>, m: u64, k: int) -> nat
    decreases k,
{
    if k <= 0 {
        0
    } else {
        edges_from_count(slots, m, k - 1) + if slots[k - 1] matches GraphSlot::Edge { from, .. } && from == m {
            1nat
        } else {
            0nat
        }
    }
}

/// How many of the first `k` slots are edges coming into node `m`.
pub open spec fn edges_to_count(slots: Seq<GraphSlot>, m: u64, k: int) -> nat
    decreases k,
{
    if k <= 0 {
        0
    } else {
        edges_to_count(slots, m, k - 1) + if slots[k - 1] matches GraphSlot::Edge { to, .. } && to == m {
            1nat
        } else {
            0nat
        }
    }
}

pub proof fn lemma_counts_bounded(slots: Seq<GraphSlot>, m: u64, k: int)
    ensures
        edges_from_count(slots, m, k) <= (if k > 0 { k } else { 0 }),
        edges_to_count(slots, m, k) <= (if k > 0 { k } else { 0 }),
    decreases k,
{
    if k > 0 {
        lemma_counts_bounded(slots, m, k - 1);
    }
}

/// Counting over the slots that were there before a slot is added gives
/// what it gave before.
proof fn lemma_counts_prefix(slots: Seq<GraphSlot>, slot: GraphSlot, m: u64, k: int)
    requires
        k <= slots.len(),
    ensures
        edges_from_count(slots.push(slot), m, k) == edges_from_count(slots, m, k),
        edges_to_count(slots.push(slot), m, k) == edges_to_count(slots, m, k),
    decreases k,
{
    if k > 0 {
        lemma_counts_prefix(slots, slot, m, k - 1);
        assert(slots.push(slot)[k - 1] == slots[k - 1]);
    }
}

/// Adding a node leaves every node's counts of outgoing and incoming edges
/// as they were.
pub proof fn law_node_keeps_counts(slots: Seq<GraphSlot>, m: u64)
    ensures
        edges_from_count(slots.push(GraphSlot::Node), m, slots.len() + 1 as int) == edges_from_count(
            slots,
            m,
            slots.len() as int,
        ),
        edges_to_count(slots.push(GraphSlot::Node), m, slots.len() + 1 as int) == edges_to_count(
            slots,
            m,
            slots.len() as int,
        ),
{
    lemma_counts_prefix(slots, GraphSlot::Node, m, slots.len() as int);
}

/// Adding an edge from `from` to `to` adds one to the outgoing edges of
/// `from` and one to the incoming edges of `to`, and leaves the counts of
/// every other node as they were.
pub proof fn law_edge_counts(slots: Seq<GraphSlot>, from: u64, to: u64, m: u64)
    ensures
        edges_from_count(slots.push(GraphSlot::Edge { from, to }), m, slots.len() + 1 as int)
            == edges_from_count(slots, m, slots.len() as int) + if m == from {
            1nat
        } else {
            0nat
        },
        edges_to_count(slots.push(GraphSlot::Edge { from, to }), m, slots.len() + 1 as int)
            == edges_to_count(slots, m, slots.len() as int) + if m == to {
            1nat
        } else {
            0nat
        },
{
    lemma_counts_prefix(slots, GraphSlot::Edge { from, to }, m, slots.len() as int);
}

/// A graph without elements has no edges going out of or coming into any
/// node.
pub proof fn law_no_edges(m: u64)
    ensures
        edges_from_count(Seq::<GraphSlot>::empty(), m, 0) == 0,
        edges_to_count(Seq::<GraphSlot>::empty(), m, 0) == 0,
{
}

/// A graph of nodes and directed edges. Every element has its own magnitude
/// (1, 2, 3, ... in insertion order); a node's index is its magnitude and an
/// edge's index is its negated magnitude.
pub struct Graph {
    slots: Vec<GraphSlot>,
}

impl View for Graph {
    type V = Seq<GraphSlot>;

    closed spec fn view(&self) -> Seq<GraphSlot> {
        self.slots@
    }
}

impl Graph {
    /// Every edge joins two nodes, and the magnitudes fit an index.
    pub open spec fn wf(&self) -> bool {
        &&& self@.len() < i64::MAX
        &&& forall|k: int|
            0 <= k < self@.len() ==> (#[trigger] self@[k] matches GraphSlot::Edge { from, to }
                ==> 1 <= from <= self@.len() && 1 <= to <= self@.len() && self@[from - 1] is Node
                && self@[to - 1] is Node)
    }

    /// An empty graph.
    pub fn new() -> (result: Self)
        ensures
            result.wf(),
            result@ == Seq::<GraphSlot>::empty(),
    {
        Graph { slots: Vec::new() }
    }

    /// Number of elements, nodes and edges together.
    pub fn element_count(&self) -> (result: u64)
        requires
            self.wf(),
        ensures
            result == self@.len(),
    {
        self.slots.len() as u64
    }

    /// Adds a node and returns its index.
    pub fn insert_node(&mut self) -> (result: GraphIndex)
        requires
            old(self).wf(),
            old(self)@.len() + 1 < i64::MAX,
        ensures
            final(self).wf(),
            final(self)@ == old(self)@.push(GraphSlot::Node),
            result.0 == old(self)@.len() + 1 as int,
            forall|m: u64|
                #[trigger] edges_from_count(final(self)@, m, final(self)@.len() as int)
                    == edges_from_count(old(self)@, m, old(self)@.len() as int),
            forall|m: u64|
                #[trigger] edges_to_count(final(self)@, m, final(self)@.len() as int)
                    == edges_to_count(old(self)@, m, old(self)@.len() as int),
    {
        self.slots.push(GraphSlot::Node);
        proof {
            assert(self@ == old(self)@.push(GraphSlot::Node));
            assert forall|m: u64|
                #[trigger] edges_from_count(self@, m, self@.len() as int) == edges_from_count(
                    old(self)@,
                    m,
                    old(self)@.len() as int,
                ) by {
                law_node_keeps_counts(old(self)@, m);
            }
            assert forall|m: u64|
                #[trigger] edges_to_count(self@, m, self@.len() as int) == edges_to_count(
                    old(self)@,
                    m,
                    old(self)@.len() as int,
                ) by {
                law_node_keeps_counts(old(self)@, m);
            }
        }
        GraphIndex(self.slots.len() as i64)
    }

    /// Adds an edge from node `from` to node `to` and returns its index;
    /// fails when either is not a node of the graph.
    pub fn insert_edge(&mut self, from: GraphIndex, to: GraphIndex) -> (result: Result<
        GraphIndex,
        DbError,
    >)
        requires
            old(self).wf(),
            old(self)@.len() + 1 < i64::MAX,
        ensures
            final(self).wf(),
            result is Ok <==> (from.0 > 0 && to.0 > 0 && is_element(old(self)@, from.0)
                && is_element(old(self)@, to.0)),
            result matches Ok(e) ==> e.0 == -(old(self)@.len() + 1 as int) && final(self)@ == old(
                self,
            )@.push(GraphSlot::Edge { from: from.0 as u64, to: to.0 as u64 }),
            result is Err ==> final(self)@ == old(self)@,
            result is Ok ==> edges_from_count(final(self)@, from.0 as u64, final(self)@.len() as int)
                == edges_from_count(old(self)@, from.0 as u64, old(self)@.len() as int) + 1,
            result is Ok ==> edges_to_count(final(self)@, to.0 as u64, final(self)@.len() as int)
                == edges_to_count(old(self)@, to.0 as u64, old(self)@.len() as int) + 1,
    {
        proof {
            law_edge_counts(old(self)@, from.0 as u64, to.0 as u64, from.0 as u64);
            law_edge_counts(old(self)@, from.0 as u64, to.0 as u64, to.0 as u64);
        }
        if !(self.is_valid_node(from) && self.is_valid_node(to)) {
            return Err(DbError::graph(DbErrorType::InvalidIndex, "Graph error: invalid node index"));
        }
        self.slots.push(GraphSlot::Edge { from: from.0 as u64, to: to.0 as u64 });
        Ok(GraphIndex(-(self.slots.len() as i64)))
    }

    /// Whether `index` names a node of the graph.
    pub fn is_valid_node(&self, index: GraphIndex) -> (result: bool)
        requires
            self.wf(),
        ensures
            result == (index.0 > 0 && is_element(self@, index.0)),
    {
        let n = self.slots.len();
        if index.0 <= 0 || index.0 as u64 > n as u64 {
            return false;
        }
        match self.slots[(index.0 - 1) as usize] {
            GraphSlot::Node => true,
            GraphSlot::Edge { .. } => false,
        }
    }

    /// Whether `index` names a node or an edge of the graph.
    pub fn is_valid_index(&self, index: GraphIndex) -> (result: bool)
        requires
            self.wf(),
        ensures
            result == is_element(self@, index.0),
    {
        if index.0 == 0 || index.0 == i64::MIN {
            return false;
        }
        let n = self.slots.len();
        let m: u64 = index.as_u64();
        if m > n as u64 {
            return false;
        }
        match self.slots[(m - 1) as usize] {
            GraphSlot::Node => index.0 > 0,
            GraphSlot::Edge { .. } => index.0 < 0,
        }
    }

    /// The newest edge going out of `node` among the elements below
    /// magnitude `bound`, or the invalid index when there is none.
    fn edge_below(&self, from: u64, bound: u64) -> (result: GraphIndex)
        requires
            self.wf(),
            bound <= self@.len() + 1,
        ensures
            result.0 == -edge_from_below(self@, from, bound as int),
    {
        proof {
            lemma_edge_from_below(self@, from, bound as int);
        }
        let n = self.slots.len();
        let mut b = bound;
        while b > 1
            invariant
                self.wf(),
                n == self@.len(),
                b <= bound <= self@.len() + 1,
                edge_from_below(self@, from, b as int) == edge_from_below(self@, from, bound as int),
            decreases b,
        {
            let k = (b - 2) as usize;
            match self.slots[k] {
                GraphSlot::Edge { from: f, .. } => {
                    if f == from {
                        return GraphIndex(-((b - 1) as i64));
                    }
                },
                GraphSlot::Node => {},
            }
            b = b - 1;
        }
        GraphIndex(0)
    }

    /// The newest edge going out of node `index`, or the invalid index.
    pub fn first_edge_from(&self, index: GraphIndex) -> (result: GraphIndex)
        requires
            self.wf(),
            index.0 > 0,
            is_element(self@, index.0),
        ensures
            result.0 == -edge_from_below(self@, index.0 as u64, self@.len() + 1 as int),
    {
        self.edge_below(index.0 as u64, self.slots.len() as u64 + 1)
    }

    /// The next older edge going out of the node that edge `index` leaves,
    /// or the invalid index.
    pub fn next_edge_from(&self, index: GraphIndex) -> (result: GraphIndex)
        requires
            self.wf(),
            index.0 < 0,
            is_element(self@, index.0),
        ensures
            self@[index_magnitude(index.0) - 1] matches GraphSlot::Edge { from, .. }
                && result.0 == -edge_from_below(self@, from, index_magnitude(index.0) as int),
    {
        let n = self.slots.len();
        let m: u64 = index.as_u64();
        match self.slots[(m - 1) as usize] {
            GraphSlot::Edge { from, .. } => self.edge_below(from, m),
            GraphSlot::Node => GraphIndex(0),
        }
    }

    /// The node edge `index` leads to.
    pub fn edge_to(&self, index: GraphIndex) -> (result: GraphIndex)
        requires
            self.wf(),
            index.0 < 0,
            is_element(self@, index.0),
        ensures
            self@[index_magnitude(index.0) - 1] matches GraphSlot::Edge { to, .. } && result.0
                == to,
            result.0 > 0 && is_element(self@, result.0),
    {
        let n = self.slots.len();
        let m: u64 = index.as_u64();
        match self.slots[(m - 1) as usize] {
            GraphSlot::Edge { to, .. } => GraphIndex(to as i64),
            GraphSlot::Node => GraphIndex(0),
        }
    }

    /// The number of edges going out of node `index`.
    pub fn edge_count_from(&self, index: GraphIndex) -> (result: u64)
        requires
            self.wf(),
            index.0 > 0,
        ensures
            result == edges_from_count(self@, index.0 as u64, self@.len() as int),
    {
        let n = self.slots.len();
        let mut count: u64 = 0;
        let mut k: usize = 0;
        while k < n
            invariant
                n == self@.len(),
                self@.len() < i64::MAX,
                k <= n,
                count == edges_from_count(self@, index.0 as u64, k as int),
            decreases n - k,
        {
            proof {
                lemma_counts_bounded(self@, index.0 as u64, k as int);
            }
            match self.slots[k] {
                GraphSlot::Edge { from, .. } => {
                    if from == index.0 as u64 {
                        count = count + 1;
                    }
                },
                GraphSlot::Node => {},
            }
            k = k + 1;
        }
        count
    }

    /// The number of edges coming into node `index`.
    pub fn edge_count_to(&self, index: GraphIndex) -> (result: u64)
        requires
            self.wf(),
            index.0 > 0,
        ensures
            result == edges_to_count(self@, index.0 as u64, self@.len() as int),
    {
        let n = self.slots.len();
        let mut count: u64 = 0;
        let mut k: usize = 0;
        while k < n
            invariant
                n == self@.len(),
                self@.len() < i64::MAX,
                k <= n,
                count == edges_to_count(self@, index.0 as u64, k as int),
            decreases n - k,
        {
            proof {
                lemma_counts_bounded(self@, index.0 as u64, k as int);
            }
            match self.slots[k] {
                GraphSlot::Edge { to, .. } => {
                    if to == index.0 as u64 {
                        count = count + 1;
                    }
                },
                GraphSlot::Node => {},
            }
            k = k + 1;
        }
        count
    }
}

} // verus!
