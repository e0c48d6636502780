use crate::graph::{
    edges_from_count, edges_to_count, is_element, lemma_counts_bounded, Graph, GraphIndex, GraphSlot,
};
use crate::db::db_error::{DbError, DbErrorType};
use crate::db::db_search_handlers::{LimitHandler, LimitOffsetHandler, OffsetHandler};
use crate::graph_search::search_impl::{
    all_covered, calls_distinct, depth_first_search, depth_order, distances_follow, selected,
    SearchIndex,
};
use crate::graph_search::{control_of, control_rank, SearchControl, SearchHandler};
use vstd::prelude::*;

verus! {

/// How a condition joins the conditions before it.
#[derive(Clone, Copy, Debug, PartialEq, Eq, Structural)]
pub enum QueryConditionLogic {
    And,
    Or,
}

/// How a condition's verdict is turned before it is joined.
#[derive(Clone, Copy, Debug, PartialEq, Eq, Structural)]
pub enum QueryConditionModifier {
    /// The verdict as it is.
    Unmodified,
    /// A passing element is expanded further; a failing one is kept but
    /// not gone beyond.
    Beyond,
    /// The verdict negated.
    Not,
    /// A passing element is not gone beyond; a failing one is kept and
    /// expanded further.
    NotBeyond,
}

/// One condition of a search as it applies to the element at hand: how it
/// joins the others, how its verdict is turned, and the verdict its data
/// gave on the element.
#[derive(Clone, Copy, Debug, PartialEq, Eq, Structural)]
pub struct ConditionVerdict {
    pub logic: QueryConditionLogic,
    pub modifier: QueryConditionModifier,
    pub control: SearchControl,
}

/// The verdict after the modifier is applied.
pub open spec fn modified(control: SearchControl, modifier: QueryConditionModifier) -> SearchControl {
    match modifier {
        QueryConditionModifier::Unmodified => control,
        QueryConditionModifier::Beyond => if control.spec_value() {
            control.spec_and(SearchControl::Continue(true))
        } else {
            SearchControl::Stop(true)
        },
        QueryConditionModifier::Not => control_of(control_rank(control), !control.spec_value()),
        QueryConditionModifier::NotBeyond => if control.spec_value() {
            control.spec_and(SearchControl::Stop(true))
        } else {
            SearchControl::Continue(true)
        },
    }
}

/// The verdict of a list of conditions: starting from `Continue(true)`,
/// each condition's modified verdict is and-ed or or-ed in, in order.
pub open spec fn fold_conditions(conditions: Seq<ConditionVerdict>) -> SearchControl
    decreases conditions.len(),
{
    if conditions.len() == 0 {
        SearchControl::Continue(true)
    } else {
        let last = conditions.last();
        let before = fold_conditions(conditions.drop_last());
        let control = modified(last.control, last.modifier);
        match last.logic {
            QueryConditionLogic::And => before.spec_and(control),
            QueryConditionLogic::Or => before.spec_or(control),
        }
    }
}

/// Applies the modifier of a condition to its verdict.
pub fn apply_modifier(control: SearchControl, modifier: QueryConditionModifier) -> (result:
    SearchControl)
    ensures
        result == modified(control, modifier),
        modifier is Not ==> result.spec_value() == !control.spec_value() && control_rank(result)
            == control_rank(control),
        modifier is Unmodified ==> result == control,
{
    let mut control = control;
    match modifier {
        QueryConditionModifier::Beyond => {
            if control.is_true() {
                control = control.and(SearchControl::Continue(true));
            } else {
                control = SearchControl::Stop(true);
            }
        },
        QueryConditionModifier::Not => {
            control.flip();
            proof {
                assert(control == control_of(control_rank(control), control.spec_value()));
            }
        },
        QueryConditionModifier::NotBeyond => {
            if control.is_true() {
                control = control.and(SearchControl::Stop(true));
            } else {
                control = SearchControl::Continue(true);
            }
        },
        QueryConditionModifier::Unmodified => {},
    }
    control
}

/// Joins the verdicts of the conditions on one element, in order: each
/// verdict is turned by its modifier, then and-ed or or-ed into the verdict
/// so far, which starts as `Continue(true)`.
pub fn evaluate_conditions(conditions: &[ConditionVerdict]) -> (result: SearchControl)
    ensures
        result == fold_conditions(conditions@),
{
    let mut result = SearchControl::Continue(true);
    let mut i: usize = 0;
    proof {
        assert(conditions@.take(0) =~= Seq::<ConditionVerdict>::empty());
    }
    while i < conditions.len()
        invariant
            i <= conditions@.len(),
            result == fold_conditions(conditions@.take(i as int)),
        decreases conditions@.len() - i,
    {
        let condition = conditions[i];
        let control = apply_modifier(condition.control, condition.modifier);
        result = match condition.logic {
            QueryConditionLogic::And => result.and(control),
            QueryConditionLogic::Or => result.or(control),
        };
        proof {
            assert(conditions@.take(i + 1).drop_last() =~= conditions@.take(i as int));
            assert(conditions@.take(i + 1).last() == condition);
        }
        i = i + 1;
    }
    proof {
        assert(conditions@.take(i as int) =~= conditions@);
    }
    result
}

/// The verdict of a condition that an element be an edge.
pub fn edge_condition(index: GraphIndex) -> (result: SearchControl)
    ensures
        result == SearchControl::Continue(index.0 < 0),
{
    SearchControl::Continue(index.is_edge())
}

/// The verdict of a condition that an element be a node.
pub fn node_condition(index: GraphIndex) -> (result: SearchControl)
    ensures
        result == SearchControl::Continue(index.0 > 0),
{
    SearchControl::Continue(index.is_node())
}

/// The verdict of a condition that an element be one of `ids` (aliases
/// already resolved to their ids).
pub fn ids_condition(index: GraphIndex, ids: &[i64]) -> (result: SearchControl)
    ensures
        result == SearchControl::Continue(ids@.contains(index.0)),
{
    let mut i: usize = 0;
    while i < ids.len()
        invariant
            i <= ids@.len(),
            forall|j: int| 0 <= j < i ==> ids@[j] != index.0,
        decreases ids@.len() - i,
    {
        if ids[i] == index.0 {
            proof {
                assert(ids@[i as int] == index.0);
            }
            return SearchControl::Continue(true);
        }
        i = i + 1;
    }
    SearchControl::Continue(false)
}

/// Negating a verdict twice through `Not` gives it back.
pub proof fn law_not_twice(control: SearchControl)
    ensures
        modified(modified(control, QueryConditionModifier::Not), QueryConditionModifier::Not)
            == control,
{
}

/// What each modifier makes of a verdict. `Unmodified` keeps it. `Not`
/// negates its flag and keeps its kind (Continue, Stop or Finish).
/// `Beyond` keeps a passing verdict as it is and turns a failing one into a
/// passing `Stop`. `NotBeyond` turns a failing verdict into a passing
/// `Continue` and a passing one into a passing verdict that goes no further
/// than the element: a `Continue` becomes a `Stop`, a `Stop` or `Finish`
/// stays.
pub proof fn law_modifiers(control: SearchControl)
    ensures
        modified(control, QueryConditionModifier::Unmodified) == control,
        modified(control, QueryConditionModifier::Not).spec_value() == !control.spec_value(),
        control_rank(modified(control, QueryConditionModifier::Not)) == control_rank(control),
        control.spec_value() ==> modified(control, QueryConditionModifier::Beyond) == control,
        !control.spec_value() ==> modified(control, QueryConditionModifier::Beyond)
            == SearchControl::Stop(true),
        control.spec_value() ==> modified(control, QueryConditionModifier::NotBeyond).spec_value(),
        control.spec_value() ==> control_rank(modified(control, QueryConditionModifier::NotBeyond))
            == if control is Continue {
            1
        } else {
            control_rank(control)
        },
        !control.spec_value() ==> modified(control, QueryConditionModifier::NotBeyond)
            == SearchControl::Continue(true),
{
}

/// With no conditions every element passes and the search goes on.
pub proof fn law_no_conditions()
    ensures
        fold_conditions(Seq::<ConditionVerdict>::empty()) == SearchControl::Continue(true),
{
}

/// A comparison of a count with a bound: the count is equal to, greater
/// than, at least, less than, at most, or different from the bound.
#[derive(Clone, Copy, Debug, PartialEq, Eq, Structural)]
pub enum CountComparison {
    Equal(u64),
    GreaterThan(u64),
    GreaterThanOrEqual(u64),
    LessThan(u64),
    LessThanOrEqual(u64),
    NotEqual(u64),
}

/// Whether `count` meets the comparison.
pub open spec fn count_matches(comparison: CountComparison, count: nat) -> bool {
    match comparison {
        CountComparison::Equal(b) => count == b,
        CountComparison::GreaterThan(b) => count > b,
        CountComparison::GreaterThanOrEqual(b) => count >= b,
        CountComparison::LessThan(b) => count < b,
        CountComparison::LessThanOrEqual(b) => count <= b,
        CountComparison::NotEqual(b) => count != b,
    }
}

impl CountComparison {
    /// Whether `count` meets the comparison.
    pub fn compare(&self, count: u64) -> (result: bool)
        ensures
            result == count_matches(*self, count as nat),
    {
        match self {
            CountComparison::Equal(b) => count == *b,
            CountComparison::GreaterThan(b) => count > *b,
            CountComparison::GreaterThanOrEqual(b) => count >= *b,
            CountComparison::LessThan(b) => count < *b,
            CountComparison::LessThanOrEqual(b) => count <= *b,
            CountComparison::NotEqual(b) => count != *b,
        }
    }
}

/// What a condition checks of an element.
#[derive(Debug)]
pub enum ConditionData {
    /// The element is an edge.
    Edge,
    /// The element is a node whose edges, out and in, number as compared.
    EdgeCount(CountComparison),
    /// The element is a node whose outgoing edges number as compared.
    EdgeCountFrom(CountComparison),
    /// The element is a node whose incoming edges number as compared.
    EdgeCountTo(CountComparison),
    /// The element is one of these ids.
    Ids(Vec<i64>),
    /// The element is a node.
    Node,
    /// The nested conditions, joined as a group.
    Where(Vec<QueryCondition>),
}

/// A condition of a search: what it checks and how it joins the others.
#[derive(Debug)]
pub struct QueryCondition {
    pub logic: QueryConditionLogic,
    pub modifier: QueryConditionModifier,
    pub data: ConditionData,
}

/// The verdict of `data` on the element `index` of the graph with slots
/// `slots`.
pub open spec fn data_verdict(slots: Seq<GraphSlot>, index: GraphIndex, data: ConditionData) -> SearchControl
    decreases data,
{
    match data {
        ConditionData::Edge => SearchControl::Continue(index.0 < 0),
        ConditionData::EdgeCount(c) => SearchControl::Continue(
            index.0 > 0 && is_element(slots, index.0) && count_matches(
                c,
                edges_from_count(slots, index.0 as u64, slots.len() as int) + edges_to_count(
                    slots,
                    index.0 as u64,
                    slots.len() as int,
                ),
            ),
        ),
        ConditionData::EdgeCountFrom(c) => SearchControl::Continue(
            index.0 > 0 && is_element(slots, index.0) && count_matches(
                c,
                edges_from_count(slots, index.0 as u64, slots.len() as int),
            ),
        ),
        ConditionData::EdgeCountTo(c) => SearchControl::Continue(
            index.0 > 0 && is_element(slots, index.0) && count_matches(
                c,
                edges_to_count(slots, index.0 as u64, slots.len() as int),
            ),
        ),
        ConditionData::Ids(ids) => SearchControl::Continue(ids@.contains(index.0)),
        ConditionData::Node => SearchControl::Continue(index.0 > 0),
        ConditionData::Where(conditions) => fold_conditions(verdicts(slots, index, conditions@)),
    }
}

/// The comparisons come in complementary pairs: a count is different from,
/// below, or at most a bound exactly when it is not equal to, at least, or
/// above it; and at least a bound exactly when above it or equal to it.
pub proof fn law_comparisons_complement(count: nat, b: u64)
    ensures
        count_matches(CountComparison::NotEqual(b), count) == !count_matches(
            CountComparison::Equal(b),
            count,
        ),
        count_matches(CountComparison::LessThan(b), count) == !count_matches(
            CountComparison::GreaterThanOrEqual(b),
            count,
        ),
        count_matches(CountComparison::LessThanOrEqual(b), count) == !count_matches(
            CountComparison::GreaterThan(b),
            count,
        ),
        count_matches(CountComparison::GreaterThanOrEqual(b), count) == (count_matches(
            CountComparison::GreaterThan(b),
            count,
        ) || count_matches(CountComparison::Equal(b), count)),
{
}

/// An edge passes the edge condition and fails the node condition and every
/// edge-count condition; a node passes the node condition and fails the edge
/// condition. A node with at least `b` outgoing, or at least `b` incoming,
/// edges has at least `b` edges in all.
pub proof fn law_element_kind_conditions(slots: Seq<GraphSlot>, index: GraphIndex, c: CountComparison, b: u64)
    ensures
        index.0 < 0 ==> data_verdict(slots, index, ConditionData::Edge) == SearchControl::Continue(
            true,
        ),
        index.0 < 0 ==> data_verdict(slots, index, ConditionData::Node) == SearchControl::Continue(
            false,
        ),
        index.0 < 0 ==> data_verdict(slots, index, ConditionData::EdgeCount(c))
            == SearchControl::Continue(false),
        index.0 < 0 ==> data_verdict(slots, index, ConditionData::EdgeCountFrom(c))
            == SearchControl::Continue(false),
        index.0 < 0 ==> data_verdict(slots, index, ConditionData::EdgeCountTo(c))
            == SearchControl::Continue(false),
        index.0 > 0 ==> data_verdict(slots, index, ConditionData::Node) == SearchControl::Continue(
            true,
        ),
        index.0 > 0 ==> data_verdict(slots, index, ConditionData::Edge) == SearchControl::Continue(
            false,
        ),
        data_verdict(slots, index, ConditionData::EdgeCountFrom(CountComparison::GreaterThanOrEqual(b))).spec_value()
            ==> data_verdict(slots, index, ConditionData::EdgeCount(CountComparison::GreaterThanOrEqual(b))).spec_value(),
        data_verdict(slots, index, ConditionData::EdgeCountTo(CountComparison::GreaterThanOrEqual(b))).spec_value()
            ==> data_verdict(slots, index, ConditionData::EdgeCount(CountComparison::GreaterThanOrEqual(b))).spec_value(),
{
}

/// The verdicts of `conditions` on the element `index`, in order.
pub open spec fn verdicts(slots: Seq<GraphSlot>, index: GraphIndex, conditions: Seq<QueryCondition>) -> Seq<ConditionVerdict>
    decreases conditions,
{
    if conditions.len() == 0 {
        Seq::empty()
    } else {
        let last = conditions[conditions.len() - 1];
        verdicts(slots, index, conditions.subrange(0, conditions.len() - 1)).push(
            ConditionVerdict {
                logic: last.logic,
                modifier: last.modifier,
                control: data_verdict(slots, index, last.data),
            },
        )
    }
}

/// Evaluates one condition's data on the element `index` of `graph`.
pub fn evaluate_condition(graph: &Graph, index: GraphIndex, data: &ConditionData) -> (result:
    SearchControl)
    requires
        graph.wf(),
    ensures
        result == data_verdict(graph@, index, *data),
    decreases data,
{
    match data {
        ConditionData::Edge => edge_condition(index),
        ConditionData::EdgeCount(c) => {
            if index.0 > 0 && graph.is_valid_node(index) {
                let from = graph.edge_count_from(index);
                let to = graph.edge_count_to(index);
                proof {
                    lemma_counts_fit(graph@, index.0 as u64);
                }
                SearchControl::Continue(c.compare(from + to))
            } else {
                SearchControl::Continue(false)
            }
        },
        ConditionData::EdgeCountFrom(c) => {
            if index.0 > 0 && graph.is_valid_node(index) {
                SearchControl::Continue(c.compare(graph.edge_count_from(index)))
            } else {
                SearchControl::Continue(false)
            }
        },
        ConditionData::EdgeCountTo(c) => {
            if index.0 > 0 && graph.is_valid_node(index) {
                SearchControl::Continue(c.compare(graph.edge_count_to(index)))
            } else {
                SearchControl::Continue(false)
            }
        },
        ConditionData::Ids(ids) => ids_condition(index, ids.as_slice()),
        ConditionData::Node => node_condition(index),
        ConditionData::Where(conditions) => {
            let list = condition_verdicts(graph, index, conditions);
            evaluate_conditions(list.as_slice())
        },
    }
}

proof fn lemma_counts_fit(slots: Seq<GraphSlot>, m: u64)
    requires
        slots.len() < i64::MAX,
    ensures
        edges_from_count(slots, m, slots.len() as int) + edges_to_count(slots, m, slots.len() as int)
            <= u64::MAX,
{
    lemma_counts_bounded(slots, m, slots.len() as int);
}

/// The verdicts of `conditions` on the element `index` of `graph`.
pub fn condition_verdicts(graph: &Graph, index: GraphIndex, conditions: &Vec<QueryCondition>) -> (result: Vec<ConditionVerdict>)
    requires
        graph.wf(),
    ensures
        result@ == verdicts(graph@, index, conditions@),
    decreases conditions,
{
    let mut list: Vec<ConditionVerdict> = Vec::new();
    let mut i: usize = 0;
    while i < conditions.len()
        invariant
            graph.wf(),
            i <= conditions@.len(),
            list@ == verdicts(graph@, index, conditions@.subrange(0, i as int)),
        decreases conditions@.len() - i,
    {
        let condition = &conditions[i];
        proof {
            assert(decreases_to!(conditions => conditions@[i as int].data));
        }
        let control = evaluate_condition(graph, index, &condition.data);
        list.push(
            ConditionVerdict { logic: condition.logic, modifier: condition.modifier, control },
        );
        proof {
            let next = conditions@.subrange(0, i + 1);
            assert(next.subrange(0, next.len() - 1) =~= conditions@.subrange(0, i as int));
            assert(next[next.len() - 1] == conditions@[i as int]);
        }
        i = i + 1;
    }
    proof {
        assert(conditions@.subrange(0, i as int) =~= conditions@);
    }
    list
}

/// The handler of a search without limit or offset: an element is selected,
/// and the search goes on, as its conditions decide on the graph.
pub struct DefaultHandler<'a> {
    graph: &'a Graph,
    conditions: Vec<QueryCondition>,
    calls: Ghost<Seq<(GraphIndex, u64, SearchControl)>>,
}

impl<'a> DefaultHandler<'a> {
    /// The graph a handler evaluates on is well formed.
    #[verifier::type_invariant]
    spec fn graph_is_wf(&self) -> bool {
        self.graph.wf()
    }

    /// The conditions the handler applies.
    pub closed spec fn spec_conditions(&self) -> Seq<QueryCondition> {
        self.conditions@
    }

    /// The graph the conditions are evaluated on.
    pub closed spec fn spec_graph(&self) -> Graph {
        *self.graph
    }

    /// A handler applying `conditions` on `graph` that has answered nothing
    /// yet.
    pub fn new(graph: &'a Graph, conditions: Vec<QueryCondition>) -> (result: Self)
        requires
            graph.wf(),
        ensures
            result.spec_conditions() == conditions@,
            result.spec_graph() == *graph,
            result.spec_calls() == Seq::<(GraphIndex, u64, SearchControl)>::empty(),
    {
        DefaultHandler { graph, conditions, calls: Ghost(Seq::empty()) }
    }
}

impl<'a> SearchHandler for DefaultHandler<'a> {
    closed spec fn spec_calls(&self) -> Seq<(GraphIndex, u64, SearchControl)> {
        self.calls@
    }

    closed spec fn spec_setup(&self) -> Self {
        DefaultHandler { graph: self.graph, conditions: self.conditions, calls: Ghost(Seq::empty()) }
    }

    /// The joined verdict of the conditions on the element; never fails.
    fn process(&mut self, index: GraphIndex, distance: u64) -> (result: Result<
        SearchControl,
        DbError,
    >)
        ensures
            result == Ok::<SearchControl, DbError>(
                fold_conditions(
                    verdicts(old(self).spec_graph()@, index, old(self).spec_conditions()),
                ),
            ),
            final(self).spec_conditions() == old(self).spec_conditions(),
            final(self).spec_graph() == old(self).spec_graph(),
    {
        proof {
            use_type_invariant(&*self);
        }
        let list = condition_verdicts(self.graph, index, &self.conditions);
        let control = evaluate_conditions(list.as_slice());
        self.calls = Ghost(self.calls@.push((index, distance, control)));
        Ok(control)
    }
}

/// The verdict of `conditions` on the element `index`.
pub open spec fn conditions_verdict(slots: Seq<GraphSlot>, conditions: Seq<QueryCondition>, index: GraphIndex) -> SearchControl {
    fold_conditions(verdicts(slots, index, conditions))
}

/// How many of `calls` were for elements the conditions accept.
pub open spec fn accepted(
    slots: Seq<GraphSlot>,
    conditions: Seq<QueryCondition>,
    calls: Seq<(GraphIndex, u64, SearchControl)>,
) -> nat
    decreases calls.len(),
{
    if calls.len() == 0 {
        0
    } else {
        accepted(slots, conditions, calls.drop_last()) + if conditions_verdict(
            slots,
            conditions,
            calls.last().0,
        ).spec_value() {
            1nat
        } else {
            0nat
        }
    }
}

/// The answer of a paged search to an element the conditions judged
/// `verdict`, after `counter` accepted elements: a `limit` of 0 or an
/// `offset` of 0 means none. An accepted element is selected only past the
/// first `offset` accepted ones, and the `limit + offset`-th accepted element
/// finishes the search.
pub open spec fn paged_control(limit: u64, offset: u64, counter: nat, verdict: SearchControl) -> SearchControl {
    let count = if verdict.spec_value() {
        counter + 1
    } else {
        counter
    };
    let value = verdict.spec_value() && (offset == 0 || offset < count);
    let control = control_of(control_rank(verdict), value);
    if limit != 0 && count == limit + offset {
        SearchControl::Finish(value)
    } else {
        control
    }
}

/// What paging makes of the conditions' verdict on an element, after
/// `counter` accepted elements. With neither a limit nor an offset the
/// verdict stands as it is. Otherwise its kind (Continue, Stop or Finish)
/// stands unless the element brings the accepted count to `limit + offset`
/// with a limit set, which finishes the search; and the element is selected
/// exactly when the conditions accept it and it comes after the first
/// `offset` accepted ones.
pub proof fn law_paged_control(limit: u64, offset: u64, counter: nat, verdict: SearchControl)
    ensures
        limit == 0 && offset == 0 ==> paged_control(limit, offset, counter, verdict) == verdict,
        ({
            let count = if verdict.spec_value() {
                counter + 1
            } else {
                counter
            };
            &&& (limit == 0 || count != limit + offset) ==> control_rank(
                paged_control(limit, offset, counter, verdict),
            ) == control_rank(verdict)
            &&& (limit != 0 && count == limit + offset) ==> paged_control(
                limit,
                offset,
                counter,
                verdict,
            ) is Finish
            &&& paged_control(limit, offset, counter, verdict).spec_value() == (verdict.spec_value()
                && (offset == 0 || offset < count))
        }),
{
}

/// The handler of a search with a limit and an offset (0 for none): the
/// conditions decide on each element on the graph, and the paging turns
/// their verdict as `paged_control` says.
pub struct PagedHandler<'a> {
    graph: &'a Graph,
    conditions: Vec<QueryCondition>,
    limit: u64,
    offset: u64,
    state: (u64, Ghost<Seq<(GraphIndex, u64, SearchControl)>>),
}

impl<'a> PagedHandler<'a> {
    /// Every answer given so far is the paged verdict of the conditions,
    /// and the counter counts the accepted elements.
    #[verifier::type_invariant]
    spec fn answers_paged(&self) -> bool {
        &&& self.graph.wf()
        &&& self.limit + self.offset <= u64::MAX
        &&& self.state.0 == accepted(self.graph@, self.conditions@, self.state.1@)
        &&& forall|i: int|
            0 <= i < self.state.1@.len() ==> (#[trigger] self.state.1@[i]).2 == paged_control(
                self.limit,
                self.offset,
                accepted(self.graph@, self.conditions@, self.state.1@.take(i)),
                conditions_verdict(self.graph@, self.conditions@, self.state.1@[i].0),
            )
    }

    pub closed spec fn spec_graph(&self) -> Graph {
        *self.graph
    }

    pub closed spec fn spec_conditions(&self) -> Seq<QueryCondition> {
        self.conditions@
    }

    pub closed spec fn spec_limit(&self) -> u64 {
        self.limit
    }

    pub closed spec fn spec_offset(&self) -> u64 {
        self.offset
    }

    /// A handler with nothing answered yet.
    pub fn new(graph: &'a Graph, conditions: Vec<QueryCondition>, limit: u64, offset: u64) -> (result: Self)
        requires
            graph.wf(),
            limit + offset <= u64::MAX,
        ensures
            result.spec_graph() == *graph,
            result.spec_conditions() == conditions@,
            result.spec_limit() == limit,
            result.spec_offset() == offset,
            result.spec_calls() == Seq::<(GraphIndex, u64, SearchControl)>::empty(),
    {
        PagedHandler { graph, conditions, limit, offset, state: (0, Ghost(Seq::empty())) }
    }
}

impl<'a> SearchHandler for PagedHandler<'a> {
    closed spec fn spec_calls(&self) -> Seq<(GraphIndex, u64, SearchControl)> {
        self.state.1@
    }

    closed spec fn spec_setup(&self) -> Self {
        PagedHandler {
            graph: self.graph,
            conditions: self.conditions,
            limit: self.limit,
            offset: self.offset,
            state: (0, Ghost(Seq::empty())),
        }
    }

    /// The paged verdict of the conditions; fails only once `u64::MAX`
    /// elements have been accepted.
    fn process(&mut self, index: GraphIndex, distance: u64) -> (result: Result<
        SearchControl,
        DbError,
    >)
        ensures
            accepted(old(self).spec_graph()@, old(self).spec_conditions(), old(self).spec_calls())
                < u64::MAX ==> result is Ok,
            result matches Ok(c) ==> c == paged_control(
                old(self).spec_limit(),
                old(self).spec_offset(),
                accepted(old(self).spec_graph()@, old(self).spec_conditions(), old(self).spec_calls()),
                conditions_verdict(old(self).spec_graph()@, old(self).spec_conditions(), index),
            ),
            result matches Ok(c) ==> (old(self).spec_limit() == 0 && old(self).spec_offset() == 0
                ==> c == conditions_verdict(old(self).spec_graph()@, old(self).spec_conditions(), index)),
            result matches Ok(c) ==> (!(c is Finish) ==> control_rank(c) == control_rank(
                conditions_verdict(old(self).spec_graph()@, old(self).spec_conditions(), index),
            )),
            result matches Ok(c) ==> (c.spec_value() ==> conditions_verdict(
                old(self).spec_graph()@,
                old(self).spec_conditions(),
                index,
            ).spec_value()),
            final(self).spec_graph() == old(self).spec_graph(),
            final(self).spec_conditions() == old(self).spec_conditions(),
            final(self).spec_limit() == old(self).spec_limit(),
            final(self).spec_offset() == old(self).spec_offset(),
    {
        proof {
            use_type_invariant(&*self);
        }
        let list = condition_verdicts(self.graph, index, &self.conditions);
        let verdict = evaluate_conditions(list.as_slice());
        let counter = self.state.0;
        if counter == u64::MAX {
            return Err(
                DbError::query(DbErrorType::OutOfBounds, "Search error: too many accepted elements"),
            );
        }
        let ghost calls = self.state.1@;
        let (new_counter, control) = if self.limit == 0 && self.offset == 0 {
            (if verdict.is_true() { counter + 1 } else { counter }, verdict)
        } else if self.offset == 0 {
            let mut h = LimitHandler::new(self.limit);
            h.counter = counter;
            let c = h.process(verdict);
            (h.counter, c)
        } else if self.limit == 0 {
            let mut h = OffsetHandler::new(self.offset);
            h.counter = counter;
            let c = h.process(verdict);
            (h.counter, c)
        } else {
            let mut h = LimitOffsetHandler::new(self.limit, self.offset);
            h.counter = counter;
            let c = h.process(verdict);
            (h.counter, c)
        };
        proof {
            let slots = self.graph@;
            let conds = self.conditions@;
            let new_calls = calls.push((index, distance, control));
            assert(new_calls.drop_last() =~= calls);
            assert(verdict == conditions_verdict(slots, conds, index));
            assert(control == paged_control(self.limit, self.offset, counter as nat, verdict));
            assert forall|i: int| 0 <= i < new_calls.len() implies (#[trigger] new_calls[i]).2
                == paged_control(
                self.limit,
                self.offset,
                accepted(slots, conds, new_calls.take(i)),
                conditions_verdict(slots, conds, new_calls[i].0),
            ) by {
                if i < calls.len() {
                    assert(new_calls.take(i) =~= calls.take(i));
                    assert(new_calls[i] == calls[i]);
                } else {
                    assert(new_calls.take(i) =~= calls);
                }
            }
        }
        self.state = (new_counter, Ghost(calls.push((index, distance, control))));
        Ok(control)
    }
}

/// `calls` are the answered calls of a depth-first search of the graph with
/// slots `slots` from `from`, paged by `limit` and `offset` over
/// `conditions`: each element once, starting with `from` at distance 0, each
/// at its depth along the search path and answered with the paged verdict of
/// the conditions, depth first, only the last one may finish the search, and
/// unless it did, every element the search goes on to from an answered one
/// has been asked about.
pub open spec fn paged_search_calls(
    slots: Seq<GraphSlot>,
    conditions: Seq<QueryCondition>,
    from: GraphIndex,
    limit: u64,
    offset: u64,
    calls: Seq<(GraphIndex, u64, SearchControl)>,
) -> bool {
    &&& calls_distinct(calls)
    &&& forall|i: int| 0 <= i < calls.len() ==> is_element(slots, #[trigger] calls[i].0.0)
    &&& forall|i: int| 0 <= i < calls.len() - 1 ==> !(#[trigger] calls[i].2 is Finish)
    &&& calls.len() > 0 && calls[0].0 == from && calls[0].1 == 0
    &&& distances_follow(slots, from, calls)
    &&& depth_order(slots, calls)
    &&& !(calls.last().2 is Finish) ==> all_covered(slots, calls, Seq::<SearchIndex>::empty())
    &&& forall|i: int|
        0 <= i < calls.len() ==> (#[trigger] calls[i]).2 == paged_control(
            limit,
            offset,
            accepted(slots, conditions, calls.take(i)),
            conditions_verdict(slots, conditions, calls[i].0),
        )
}

/// In a search with neither a limit nor an offset, every element is
/// answered with the conditions' own verdict on it.
pub proof fn law_unpaged_answers(
    slots: Seq<GraphSlot>,
    conditions: Seq<QueryCondition>,
    from: GraphIndex,
    calls: Seq<(GraphIndex, u64, SearchControl)>,
)
    requires
        paged_search_calls(slots, conditions, from, 0, 0, calls),
    ensures
        forall|i: int|
            0 <= i < calls.len() ==> (#[trigger] calls[i]).2 == conditions_verdict(
                slots,
                conditions,
                calls[i].0,
            ),
{
    assert forall|i: int| 0 <= i < calls.len() implies (#[trigger] calls[i]).2
        == conditions_verdict(slots, conditions, calls[i].0) by {
        law_paged_control(0, 0, accepted(slots, conditions, calls.take(i)), conditions_verdict(slots, conditions, calls[i].0));
    }
}

/// Searches `graph` depth first from `from`, selecting the elements that
/// `conditions` accept, skipping the first `offset` of them and finishing
/// once `limit` are selected (0 for no limit or no offset). An index that
/// names no element gives an empty result.
pub fn search_from(
    graph: &Graph,
    from: GraphIndex,
    limit: u64,
    offset: u64,
    conditions: Vec<QueryCondition>,
) -> (result: Result<Vec<GraphIndex>, DbError>)
    requires
        graph.wf(),
        graph@.len() < usize::MAX,
        limit + offset <= u64::MAX,
    ensures
        !is_element(graph@, from.0) ==> (result matches Ok(r) && r@.len() == 0),
        result matches Ok(r) ==> (is_element(graph@, from.0) ==> exists|
            calls: Seq<(GraphIndex, u64, SearchControl)>,
        |
            #[trigger] selected(calls) == r@ && paged_search_calls(
                graph@,
                conditions@,
                from,
                limit,
                offset,
                calls,
            )),
{
    let ghost conds = conditions@;
    let mut handler = PagedHandler::new(graph, conditions, limit, offset);
    let ghost setup = handler.spec_setup();
    let result = depth_first_search(graph, from, &mut handler);
    proof {
        use_type_invariant(&handler);
        assert(handler.spec_setup() == setup);
        assert(handler.spec_graph() == *graph);
        assert(handler.spec_conditions() == conds);
        if result is Ok && is_element(graph@, from.0) {
            let calls = handler.spec_calls();
            let sub = calls.subrange(0, calls.len() as int);
            assert(sub =~= calls);
            assert(paged_search_calls(graph@, conds, from, limit, offset, calls));
        }
    }
    result
}

} // verus!
