use agdb::db::db_conditions::{
    evaluate_condition, search_from, ConditionData, CountComparison, DefaultHandler, QueryCondition,
    QueryConditionLogic, QueryConditionModifier,
};
use agdb::db::db_error::DbError;
use agdb::graph::{Graph, GraphIndex};
use agdb::graph_search::search_impl::depth_first_search;
use agdb::graph_search::SearchHandler;
use agdb::graph_search::search_impl::{SearchImpl, SearchIndex, SearchIterator, SearchStep};
use agdb::graph_search::breadth_first_search::BreadthFirstSearch;
use agdb::graph_search::depth_first_search::DepthFirstSearch;
use agdb::graph_search::SearchControl;
use agdb::graph_search::SearchControl::{Continue, Finish, Stop};

#[test]
fn graph_search_derived_from_debug() {
    let _ = format!("{:?}", SearchControl::Continue(false));
}

#[test]
#[allow(clippy::clone_on_copy)]
fn graph_search_derived_from_clone() {
    let left = SearchControl::Continue(true);
    let other = left.clone();
    assert_eq!(left, other);
}

#[test]
fn search_control_and() {

    assert_eq!(Continue(true).and(Continue(true)), Continue(true));
    assert_eq!(Continue(true).and(Continue(false)), Continue(false));
    assert_eq!(Continue(false).and(Continue(true)), Continue(false));
    assert_eq!(Continue(false).and(Continue(false)), Continue(false));

    assert_eq!(Stop(true).and(Stop(true)), Stop(true));
    assert_eq!(Stop(true).and(Stop(false)), Stop(false));
    assert_eq!(Stop(false).and(Stop(true)), Stop(false));
    assert_eq!(Stop(false).and(Stop(false)), Stop(false));

    assert_eq!(Finish(true).and(Finish(true)), Finish(true));
    assert_eq!(Finish(true).and(Finish(false)), Finish(false));
    assert_eq!(Finish(false).and(Finish(true)), Finish(false));
    assert_eq!(Finish(false).and(Finish(false)), Finish(false));

    assert_eq!(Continue(true).and(Stop(true)), Stop(true));
    assert_eq!(Continue(false).and(Stop(true)), Stop(false));
    assert_eq!(Continue(true).and(Stop(false)), Stop(false));
    assert_eq!(Continue(false).and(Stop(false)), Stop(false));

    assert_eq!(Continue(true).and(Finish(true)), Finish(true));
    assert_eq!(Continue(false).and(Finish(true)), Finish(false));
    assert_eq!(Continue(true).and(Finish(false)), Finish(false));
    assert_eq!(Continue(false).and(Finish(false)), Finish(false));

    assert_eq!(Stop(true).and(Finish(true)), Finish(true));
    assert_eq!(Stop(true).and(Finish(false)), Finish(false));
    assert_eq!(Stop(false).and(Finish(false)), Finish(false));
    assert_eq!(Stop(false).and(Finish(true)), Finish(false));

    assert_eq!(Stop(true).and(Continue(true)), Stop(true));
    assert_eq!(Stop(true).and(Continue(false)), Stop(false));
    assert_eq!(Stop(false).and(Continue(true)), Stop(false));
    assert_eq!(Stop(false).and(Continue(false)), Stop(false));

    assert_eq!(Finish(true).and(Continue(true)), Finish(true));
    assert_eq!(Finish(true).and(Continue(false)), Finish(false));
    assert_eq!(Finish(false).and(Continue(true)), Finish(false));
    assert_eq!(Finish(false).and(Continue(false)), Finish(false));

    assert_eq!(Finish(true).and(Stop(true)), Finish(true));
    assert_eq!(Finish(true).and(Stop(false)), Finish(false));
    assert_eq!(Finish(false).and(Stop(false)), Finish(false));
    assert_eq!(Finish(false).and(Stop(true)), Finish(false));
}

#[test]
fn search_control_or() {

    assert_eq!(Continue(true).or(Continue(true)), Continue(true));
    assert_eq!(Continue(true).or(Continue(false)), Continue(true));
    assert_eq!(Continue(false).or(Continue(true)), Continue(true));
    assert_eq!(Continue(false).or(Continue(false)), Continue(false));

    assert_eq!(Stop(true).or(Stop(true)), Stop(true));
    assert_eq!(Stop(true).or(Stop(false)), Stop(true));
    assert_eq!(Stop(false).or(Stop(true)), Stop(true));
    assert_eq!(Stop(false).or(Stop(false)), Stop(false));

    assert_eq!(Finish(true).or(Finish(true)), Finish(true));
    assert_eq!(Finish(true).or(Finish(false)), Finish(true));
    assert_eq!(Finish(false).or(Finish(true)), Finish(true));
    assert_eq!(Finish(false).or(Finish(false)), Finish(false));

    assert_eq!(Continue(true).or(Stop(true)), Continue(true));
    assert_eq!(Continue(false).or(Stop(true)), Continue(true));
    assert_eq!(Continue(true).or(Stop(false)), Continue(true));
    assert_eq!(Continue(false).or(Stop(false)), Continue(false));

    assert_eq!(Continue(true).or(Finish(true)), Continue(true));
    assert_eq!(Continue(false).or(Finish(true)), Continue(true));
    assert_eq!(Continue(true).or(Finish(false)), Continue(true));
    assert_eq!(Continue(false).or(Finish(false)), Continue(false));

    assert_eq!(Stop(true).or(Finish(true)), Stop(true));
    assert_eq!(Stop(true).or(Finish(false)), Stop(true));
    assert_eq!(Stop(false).or(Finish(true)), Stop(true));
    assert_eq!(Stop(false).or(Finish(false)), Stop(false));

    assert_eq!(Stop(true).or(Continue(true)), Continue(true));
    assert_eq!(Stop(true).or(Continue(false)), Continue(true));
    assert_eq!(Stop(false).or(Continue(true)), Continue(true));
    assert_eq!(Stop(false).or(Continue(false)), Continue(false));

    assert_eq!(Finish(true).or(Continue(true)), Continue(true));
    assert_eq!(Finish(true).or(Continue(false)), Continue(true));
    assert_eq!(Finish(false).or(Continue(true)), Continue(true));
    assert_eq!(Finish(false).or(Continue(false)), Continue(false));

    assert_eq!(Finish(true).or(Stop(true)), Stop(true));
    assert_eq!(Finish(true).or(Stop(false)), Stop(true));
    assert_eq!(Finish(false).or(Stop(true)), Stop(true));
    assert_eq!(Finish(false).or(Stop(false)), Stop(false));
}

#[test]
fn flip() {
    let mut control = SearchControl::Continue(true);
    control.flip();
    assert_eq!(control, SearchControl::Continue(false));
    control.flip();
    assert_eq!(control, SearchControl::Continue(true));

    control = SearchControl::Stop(true);
    control.flip();
    assert_eq!(control, SearchControl::Stop(false));
    control.flip();
    assert_eq!(control, SearchControl::Stop(true));

    control = SearchControl::Finish(true);
    control.flip();
    assert_eq!(control, SearchControl::Finish(false));
    control.flip();
    assert_eq!(control, SearchControl::Finish(true));
}

#[test]
#[allow(clippy::clone_on_copy)]
fn search_impl_derived_from_clone() {
    let index = SearchIndex {
        index: GraphIndex(1),
        distance: 10,
    };
    let other = index.clone();
    assert_eq!(index.index, other.index);
    assert_eq!(index.distance, other.distance);
}

#[test]
fn derived_from_copy() {
    let index = &SearchIndex {
        index: GraphIndex(1),
        distance: 10,
    };
    let other = *index;
    assert_eq!(index.index, other.index);
    assert_eq!(index.distance, other.distance);
}

#[test]
fn search_control_is_true_and_set_value() {
    let mut control = SearchControl::Stop(false);
    assert!(!control.is_true());
    control.set_value(true);
    assert_eq!(control, SearchControl::Stop(true));
    assert!(control.is_true());
}

#[test]
fn search_control_and_or_laws_on_values() {

    let all = [
        Continue(true),
        Continue(false),
        Stop(true),
        Stop(false),
        Finish(true),
        Finish(false),
    ];
    for a in all {
        for b in all {
            assert_eq!(a.and(b), b.and(a));
            assert_eq!(a.or(b), b.or(a));
            for c in all {
                assert_eq!(a.and(b).and(c), a.and(b.and(c)));
                assert_eq!(a.or(b).or(c), a.or(b.or(c)));
            }
        }
    }
}

#[test]
fn search_impl_visit_and_select() {
    let mut search = SearchImpl::new(DepthFirstSearch::new(GraphIndex(1)));
    let node = SearchIndex {
        index: GraphIndex(1),
        distance: 0,
    };
    let edge = SearchIndex {
        index: GraphIndex(-2),
        distance: 1,
    };

    assert!(!search.visit_index(&node));
    assert!(search.visit_index(&node));
    assert!(!search.visit_index(&edge));

    assert_eq!(
        search.process_unvisited_index(node, SearchControl::Continue(true)),
        SearchStep::Expand { follow: true }
    );
    assert_eq!(
        search.process_unvisited_index(edge, SearchControl::Stop(false)),
        SearchStep::Expand { follow: false }
    );
    assert_eq!(
        search.process_unvisited_index(edge, SearchControl::Finish(true)),
        SearchStep::Finish
    );
    assert_eq!(search.take_result(), vec![GraphIndex(1), GraphIndex(-2)]);
    assert_eq!(search.take_result(), Vec::<GraphIndex>::new());
    assert_eq!(
        search.algorithm.next(),
        Some(SearchIndex {
            index: GraphIndex(1),
            distance: 0
        })
    );
    assert_eq!(search.algorithm.next(), None);
}

#[test]
fn graph_index_kinds() {
    assert!(GraphIndex(3).is_node());
    assert!(GraphIndex(-3).is_edge());
    assert!(!GraphIndex(0).is_valid());
    assert_eq!(GraphIndex(-3).as_u64(), 3);
    assert_eq!(GraphIndex(i64::MIN).as_u64(), 1_u64 << 63);
}

#[test]
fn depth_first_order() {
    let mut dfs = DepthFirstSearch::new(GraphIndex(1));
    let start = dfs.next().unwrap();
    assert_eq!(start, SearchIndex { index: GraphIndex(1), distance: 0 });
    dfs.expand_node(start, true, GraphIndex(-4));
    let edge = dfs.next().unwrap();
    assert_eq!(edge, SearchIndex { index: GraphIndex(-4), distance: 1 });
    dfs.expand_edge(edge, true, GraphIndex(-5), GraphIndex(2));
    assert_eq!(dfs.next(), Some(SearchIndex { index: GraphIndex(2), distance: 2 }));
    assert_eq!(dfs.next(), Some(SearchIndex { index: GraphIndex(-5), distance: 1 }));
    assert_eq!(dfs.next(), None);
    dfs.expand_node(start, false, GraphIndex(-4));
    assert_eq!(dfs.next(), None);
}

#[test]
fn breadth_first_order() {
    let mut stack = vec![
        SearchIndex { index: GraphIndex(1), distance: 0 },
        SearchIndex { index: GraphIndex(-3), distance: 1 },
    ];
    let mut bfs = BreadthFirstSearch::new(&mut stack);
    assert!(stack.is_empty());
    assert_eq!(bfs.next().unwrap().index, GraphIndex(1));
    assert_eq!(bfs.next().unwrap().index, GraphIndex(-3));
    assert_eq!(bfs.next(), None);
}

struct Handler {
    processor: fn(GraphIndex, u64) -> SearchControl,
}

impl Default for Handler {
    fn default() -> Self {
        Self {
            processor: |_index: GraphIndex, _distance: u64| SearchControl::Continue(true),
        }
    }
}

impl SearchHandler for Handler {
    fn process(&mut self, index: GraphIndex, distance: u64) -> Result<SearchControl, DbError> {
        Ok((self.processor)(index, distance))
    }
}

#[test]
fn depth_first_search_empty_graph() {
    let graph = Graph::new();

    let result = depth_first_search(&graph, GraphIndex::default(), &mut Handler::default());

    assert_eq!(result, Ok(vec![]));
}

#[test]
fn depth_first_search_cyclic_graph() {
    let mut graph = Graph::new();

    let node1 = graph.insert_node();
    let node2 = graph.insert_node();
    let node3 = graph.insert_node();

    let edge1 = graph.insert_edge(node1, node2).unwrap();
    let edge2 = graph.insert_edge(node1, node2).unwrap();
    let edge3 = graph.insert_edge(node2, node3).unwrap();
    let edge4 = graph.insert_edge(node2, node3).unwrap();
    let edge5 = graph.insert_edge(node3, node1).unwrap();
    let edge6 = graph.insert_edge(node3, node1).unwrap();

    let result = depth_first_search(&graph, node1, &mut Handler::default());

    assert_eq!(
        result,
        Ok(vec![
            node1, edge2, node2, edge4, node3, edge6, edge5, edge3, edge1
        ])
    );
}

#[test]
fn depth_first_search_full_search() {
    let mut graph = Graph::new();

    let node1 = graph.insert_node();
    let node2 = graph.insert_node();
    let node3 = graph.insert_node();
    let node4 = graph.insert_node();

    let edge1 = graph.insert_edge(node1, node2).unwrap();
    let edge2 = graph.insert_edge(node1, node3).unwrap();
    let edge3 = graph.insert_edge(node1, node4).unwrap();

    let result = depth_first_search(&graph, node1, &mut Handler::default());

    assert_eq!(
        result,
        Ok(vec![node1, edge3, node4, edge2, node3, edge1, node2])
    );
}

#[test]
fn depth_first_search_filter_edges() {
    let mut graph = Graph::new();

    let node1 = graph.insert_node();
    let node2 = graph.insert_node();
    let node3 = graph.insert_node();
    let node4 = graph.insert_node();

    graph.insert_edge(node1, node2).unwrap();
    graph.insert_edge(node1, node3).unwrap();
    graph.insert_edge(node1, node4).unwrap();

    let result = depth_first_search(
        &graph,
        node1,
        &mut Handler {
            processor: |index: GraphIndex, _distance: u64| SearchControl::Continue(index.is_node()),
        },
    );

    assert_eq!(result, Ok(vec![node1, node4, node3, node2]));
}

#[test]
fn depth_first_search_finish_search() {
    let mut graph = Graph::new();

    let node1 = graph.insert_node();
    let node2 = graph.insert_node();
    let node3 = graph.insert_node();

    graph.insert_edge(node1, node2).unwrap();
    graph.insert_edge(node1, node2).unwrap();
    graph.insert_edge(node2, node3).unwrap();
    graph.insert_edge(node2, node3).unwrap();
    graph.insert_edge(node3, node1).unwrap();
    graph.insert_edge(node3, node1).unwrap();

    let result = depth_first_search(
        &graph,
        node1,
        &mut Handler {
            processor: |index: GraphIndex, _distance: u64| {
                if index.0 == 2 {
                    SearchControl::Finish(true)
                } else {
                    SearchControl::Continue(false)
                }
            },
        },
    );

    assert_eq!(result, Ok(vec![node2]));
}

#[test]
fn depth_first_search_search_twice() {
    let mut graph = Graph::new();

    let node1 = graph.insert_node();
    let node2 = graph.insert_node();
    let node3 = graph.insert_node();
    let node4 = graph.insert_node();

    let edge1 = graph.insert_edge(node1, node2).unwrap();
    let edge2 = graph.insert_edge(node1, node3).unwrap();
    let edge3 = graph.insert_edge(node1, node4).unwrap();

    let mut result = depth_first_search(&graph, node1, &mut Handler::default());
    let expected = Ok(vec![node1, edge3, node4, edge2, node3, edge1, node2]);

    assert_eq!(result, expected);

    result = depth_first_search(&graph, node1, &mut Handler::default());

    assert_eq!(result, expected);
}

#[test]
fn depth_first_search_stop_at_distance() {
    let mut graph = Graph::new();

    let node1 = graph.insert_node();
    let node2 = graph.insert_node();
    let node3 = graph.insert_node();

    let edge1 = graph.insert_edge(node1, node2).unwrap();
    let edge2 = graph.insert_edge(node1, node2).unwrap();
    let _edge3 = graph.insert_edge(node2, node3).unwrap();
    let _edge4 = graph.insert_edge(node3, node1).unwrap();

    let result = depth_first_search(
        &graph,
        node1,
        &mut Handler {
            processor: |_index: GraphIndex, distance: u64| {
                if distance == 2 {
                    SearchControl::Stop(true)
                } else {
                    SearchControl::Continue(true)
                }
            },
        },
    );

    assert_eq!(result, Ok(vec![node1, edge2, node2, edge1]));
}

#[test]
fn depth_first_search_with_conditions() {
    let mut graph = Graph::new();

    let node1 = graph.insert_node();
    let node2 = graph.insert_node();
    let node3 = graph.insert_node();
    graph.insert_edge(node1, node2).unwrap();
    graph.insert_edge(node1, node3).unwrap();

    let mut handler = DefaultHandler::new(&graph, vec![
        QueryCondition {
            logic: QueryConditionLogic::And,
            modifier: QueryConditionModifier::Unmodified,
            data: ConditionData::Node,
        },
        QueryCondition {
            logic: QueryConditionLogic::And,
            modifier: QueryConditionModifier::Not,
            data: ConditionData::Ids(vec![2]),
        },
    ]);
    let result = depth_first_search(&graph, node1, &mut handler);

    assert_eq!(result, Ok(vec![node1, node3]));
}

#[test]
fn graph_rejects_edges_between_non_nodes() {
    let mut graph = Graph::new();
    let node1 = graph.insert_node();
    assert!(graph.insert_edge(node1, GraphIndex(5)).is_err());
    let edge = graph.insert_edge(node1, node1).unwrap();
    assert!(graph.insert_edge(edge, node1).is_err());
    assert_eq!(graph.element_count(), 2);
    assert!(graph.is_valid_index(edge));
    assert!(!graph.is_valid_index(GraphIndex(-1)));
    assert_eq!(graph.first_edge_from(node1), edge);
    assert_eq!(graph.next_edge_from(edge), GraphIndex(0));
    assert_eq!(graph.edge_to(edge), node1);
}

#[test]
fn conditions_on_edge_counts_and_groups() {
    let mut graph = Graph::new();
    let node1 = graph.insert_node();
    let node2 = graph.insert_node();
    let node3 = graph.insert_node();
    let edge = graph.insert_edge(node1, node2).unwrap();
    graph.insert_edge(node1, node3).unwrap();
    graph.insert_edge(node2, node1).unwrap();

    assert_eq!(graph.edge_count_from(node1), 2);
    assert_eq!(graph.edge_count_to(node1), 1);
    let count = |data: ConditionData, index: GraphIndex| evaluate_condition(&graph, index, &data);
    assert_eq!(
        count(ConditionData::EdgeCount(CountComparison::Equal(3)), node1),
        SearchControl::Continue(true)
    );
    assert_eq!(
        count(ConditionData::EdgeCountFrom(CountComparison::GreaterThan(1)), node1),
        SearchControl::Continue(true)
    );
    assert_eq!(
        count(ConditionData::EdgeCountTo(CountComparison::LessThan(1)), node3),
        SearchControl::Continue(false)
    );
    assert_eq!(
        count(ConditionData::EdgeCountTo(CountComparison::LessThanOrEqual(1)), node3),
        SearchControl::Continue(true)
    );
    assert_eq!(
        count(ConditionData::EdgeCount(CountComparison::NotEqual(0)), edge),
        SearchControl::Continue(false)
    );
    assert_eq!(
        count(ConditionData::EdgeCountFrom(CountComparison::GreaterThanOrEqual(0)), GraphIndex(9)),
        SearchControl::Continue(false)
    );
    let group = ConditionData::Where(vec![
        QueryCondition {
            logic: QueryConditionLogic::And,
            modifier: QueryConditionModifier::Unmodified,
            data: ConditionData::Edge,
        },
        QueryCondition {
            logic: QueryConditionLogic::Or,
            modifier: QueryConditionModifier::Unmodified,
            data: ConditionData::Ids(vec![3]),
        },
    ]);
    assert_eq!(count(ConditionData::Where(vec![]), node1), SearchControl::Continue(true));
    assert_eq!(evaluate_condition(&graph, edge, &group), SearchControl::Continue(true));
    assert_eq!(evaluate_condition(&graph, node3, &group), SearchControl::Continue(true));
    assert_eq!(evaluate_condition(&graph, node2, &group), SearchControl::Continue(false));
}

fn star() -> (Graph, GraphIndex) {
    let mut graph = Graph::new();
    let node1 = graph.insert_node();
    let node2 = graph.insert_node();
    let node3 = graph.insert_node();
    let node4 = graph.insert_node();
    graph.insert_edge(node1, node2).unwrap();
    graph.insert_edge(node1, node3).unwrap();
    graph.insert_edge(node1, node4).unwrap();
    (graph, node1)
}

#[test]
fn search_from_pages_the_selection() {
    let (graph, node1) = star();
    let all = search_from(&graph, node1, 0, 0, vec![]).unwrap();
    assert_eq!(
        all,
        vec![
            GraphIndex(1),
            GraphIndex(-7),
            GraphIndex(4),
            GraphIndex(-6),
            GraphIndex(3),
            GraphIndex(-5),
            GraphIndex(2)
        ]
    );
    assert_eq!(
        search_from(&graph, node1, 3, 0, vec![]).unwrap(),
        vec![GraphIndex(1), GraphIndex(-7), GraphIndex(4)]
    );
    assert_eq!(
        search_from(&graph, node1, 0, 5, vec![]).unwrap(),
        vec![GraphIndex(-5), GraphIndex(2)]
    );
    assert_eq!(
        search_from(&graph, node1, 2, 1, vec![]).unwrap(),
        vec![GraphIndex(-7), GraphIndex(4)]
    );
    let nodes = vec![QueryCondition {
        logic: QueryConditionLogic::And,
        modifier: QueryConditionModifier::Unmodified,
        data: ConditionData::Node,
    }];
    assert_eq!(
        search_from(&graph, node1, 2, 0, nodes).unwrap(),
        vec![GraphIndex(1), GraphIndex(4)]
    );
    assert_eq!(search_from(&graph, GraphIndex(9), 0, 0, vec![]).unwrap(), vec![]);
}
