use tap::graph::{Ancestors, Edge, EdgeIndex, Graph, GraphError, Node, NodeIndex, Successors};

#[derive(Debug, Copy, Clone)]
struct Dummy(&'static str);

#[test]
fn node_new() {
    let node = Node::<Dummy>::new(None, Dummy("test"));
    assert_eq!(node.first_edge, None);
    assert_eq!(node.data.0, "test");
    let node = Node::<Dummy>::new(Some(EdgeIndex(42)), Dummy("test"));
    assert_eq!(node.first_edge, Some(EdgeIndex(42)));
    assert_eq!(node.data.0, "test");
}

#[test]
fn edge_new() {
    let edge = Edge::new(NodeIndex(0), NodeIndex(1), None);
    assert_eq!(edge.source, NodeIndex(0));
    assert_eq!(edge.target, NodeIndex(1));
    assert_eq!(edge.next_edge, None);
    let edge = Edge::new(NodeIndex(0), NodeIndex(1), Some(EdgeIndex(42)));
    assert_eq!(edge.source, NodeIndex(0));
    assert_eq!(edge.target, NodeIndex(1));
    assert_eq!(edge.next_edge, Some(EdgeIndex(42)));
}

#[test]
fn graph_new() {
    let graph = Graph::<Dummy>::new();
    assert_eq!(graph.nodes().len(), 0);
    assert_eq!(graph.edges().len(), 0);
}

#[test]
fn successors_new() {
    let mut graph = Graph::<Dummy>::new();
    let one = graph.add_node(Dummy("one"));
    let two = graph.add_node_to(one, Dummy("two")).unwrap();
    let successors = Successors::new(&graph, Some(one)).unwrap();
    assert_eq!(successors.edges().unwrap().len(), 1);
    assert_eq!(successors.edges().unwrap()[0].source, one);
    assert_eq!(successors.edges().unwrap()[0].target, two);
    assert_eq!(successors.current_edge_index(), Some(EdgeIndex(0)));
    assert_eq!(successors.roots(), None);
    assert_eq!(successors.current_root_index(), 0);
}

#[test]
fn successors_new_in_root_mod() {
    let mut graph = Graph::<Dummy>::new();
    let one = graph.add_node(Dummy("one"));
    graph.add_node_to(one, Dummy("two")).unwrap();
    let successors = Successors::new(&graph, None).unwrap();
    assert_eq!(successors.edges().is_none(), true);
    assert_eq!(successors.current_edge_index(), None);
    let roots = successors.roots().unwrap();
    assert_eq!(roots.len(), 1);
    assert_eq!(roots[0], NodeIndex(0));
    assert_eq!(successors.current_root_index(), 0);
}

#[test]
fn adding_nodes() {
    let mut graph = Graph::<Dummy>::new();
    let index = graph.add_node(Dummy("one"));
    assert_eq!(index, NodeIndex(0));
    assert_eq!(graph.nodes().len(), 1);
    assert_eq!(graph.nodes()[index].data.0, "one");
    assert_eq!(graph.nodes()[index].first_edge, None);
    let index = graph.add_node(Dummy("two"));
    assert_eq!(index, NodeIndex(1));
    assert_eq!(graph.nodes().len(), 2);
    assert_eq!(graph.nodes()[index].data.0, "two");
    assert_eq!(graph.nodes()[index].first_edge, None);
}

#[test]
#[should_panic]
fn add_node_to_empty_graph() {
    let mut graph = Graph::<Dummy>::new();
    graph.add_node_to(NodeIndex(0), Dummy("test")).unwrap();
}

#[test]
#[should_panic]
fn add_node_to_invalid_index() {
    let mut graph = Graph::<Dummy>::new();
    graph.add_node(Dummy("one"));
    graph.add_node_to(NodeIndex(1), Dummy("two")).unwrap();
}

#[test]
#[should_panic]
fn add_node_to_invalid_index_2() {
    let mut graph = Graph::<Dummy>::new();
    graph.add_node(Dummy("one"));
    graph.add_node_to(NodeIndex(42), Dummy("two")).unwrap();
}

#[test]
fn adding_nodes_to() {
    let mut graph = Graph::<Dummy>::new();
    let one = graph.add_node(Dummy("one"));
    let two = graph.add_node_to(one, Dummy("two")).unwrap();
    assert_eq!(graph.nodes().len(), 2);
    assert_eq!(graph.edges().len(), 1);
    assert_eq!(graph.nodes()[one].data.0, "one");
    assert_eq!(graph.nodes()[two].data.0, "two");
    assert_eq!(graph.nodes()[one].first_edge, Some(EdgeIndex(0)));
    assert_eq!(graph.nodes()[two].first_edge, None);
    assert_eq!(graph.edges()[0].source, one);
    assert_eq!(graph.edges()[0].target, two);
    assert_eq!(graph.edges()[0].next_edge, None);
    let three = graph.add_node_to(one, Dummy("three")).unwrap();
    assert_eq!(graph.nodes().len(), 3);
    assert_eq!(graph.edges().len(), 2);
    assert_eq!(graph.nodes()[one].data.0, "one");
    assert_eq!(graph.nodes()[two].data.0, "two");
    assert_eq!(graph.nodes()[three].data.0, "three");
    assert_eq!(graph.nodes()[one].first_edge, Some(EdgeIndex(1)));
    assert_eq!(graph.nodes()[two].first_edge, None);
    assert_eq!(graph.nodes()[three].first_edge, None);
    assert_eq!(graph.edges()[0].source, one);
    assert_eq!(graph.edges()[0].target, two);
    assert_eq!(graph.edges()[0].next_edge, None);
    assert_eq!(graph.edges()[1].source, one);
    assert_eq!(graph.edges()[1].target, three);
    assert_eq!(graph.edges()[1].next_edge, Some(EdgeIndex(0)));
}

#[test]
#[should_panic]
fn add_edge_on_empty_graph() {
    let mut graph = Graph::<Dummy>::new();
    graph.add_edge(NodeIndex(0), NodeIndex(1)).unwrap();
}

#[test]
#[should_panic]
fn add_edge_on_graph_with_one_node() {
    let mut graph = Graph::<Dummy>::new();
    let one = graph.add_node(Dummy("one"));
    graph.add_edge(one, NodeIndex(1)).unwrap();
}

#[test]
#[should_panic]
fn add_edge_with_two_equal_indexes() {
    let mut graph = Graph::<Dummy>::new();
    graph.add_node(Dummy("one"));
    graph.add_node(Dummy("two"));
    graph.add_edge(NodeIndex(0), NodeIndex(0)).unwrap();
}

#[test]
#[should_panic]
fn add_edge_with_invalid_index() {
    let mut graph = Graph::<Dummy>::new();
    graph.add_node(Dummy("one"));
    graph.add_node(Dummy("two"));
    graph.add_edge(NodeIndex(0), NodeIndex(2)).unwrap();
}

#[test]
#[should_panic]
fn add_same_edge_twice() {
    let mut graph = Graph::<Dummy>::new();
    let one = graph.add_node(Dummy("one"));
    let two = graph.add_node(Dummy("two"));
    graph.add_edge(one, two).unwrap();
    assert_eq!(graph.edges().len(), 1);
    graph.add_edge(one, two).unwrap();
}

#[test]
fn adding_edges() {
    let mut graph = Graph::<Dummy>::new();
    let one = graph.add_node(Dummy("one"));
    let two = graph.add_node(Dummy("two"));
    graph.add_edge(one, two).unwrap();
    assert_eq!(graph.edges().len(), 1);
    assert_eq!(graph.edges()[0].source, one);
    assert_eq!(graph.edges()[0].target, two);
    assert_eq!(graph.edges()[0].next_edge, None);
    assert_eq!(graph.nodes()[one].first_edge, Some(EdgeIndex(0)));
    let three = graph.add_node(Dummy("three"));
    graph.add_edge(one, three).unwrap();
    assert_eq!(graph.edges().len(), 2);
    assert_eq!(graph.edges()[0].source, one);
    assert_eq!(graph.edges()[0].target, two);
    assert_eq!(graph.edges()[0].next_edge, None);
    assert_eq!(graph.nodes()[one].first_edge, Some(EdgeIndex(1)));
    assert_eq!(graph.edges()[1].source, one);
    assert_eq!(graph.edges()[1].target, three);
    assert_eq!(graph.edges()[1].next_edge, Some(EdgeIndex(0)));
}

#[test]
fn successors() {
    let mut graph = Graph::<Dummy>::new();
    let one = graph.add_node(Dummy("one"));
    let two = graph.add_node(Dummy("two"));
    let three = graph.add_node(Dummy("three"));
    let four = graph.add_node_to(one, Dummy("four")).unwrap();
    let five = graph.add_node_to(four, Dummy("five")).unwrap();
    assert_eq!(graph.nodes().len(), 5);
    assert_eq!(graph.edges().len(), 2);
    let mut successors = graph.successors(Some(one)).unwrap();
    assert_eq!(successors.next(), Some(four));
    assert_eq!(successors.next(), None);
    let mut successors = graph.successors(Some(four)).unwrap();
    assert_eq!(successors.next(), Some(five));
    assert_eq!(successors.next(), None);
    let successors = graph.successors(Some(two)).unwrap();
    assert_eq!(successors.count(), 0);
    let successors = graph.successors(Some(three)).unwrap();
    assert_eq!(successors.count(), 0);
}

#[test]
fn successors_on_circular_graph() {
    let mut graph = Graph::<Dummy>::new();
    let one = graph.add_node(Dummy("one"));
    let child = graph.add_node_to(one, Dummy("child")).unwrap();
    graph.add_edge(child, one).unwrap();
    assert_eq!(graph.nodes().len(), 2);
    assert_eq!(graph.edges().len(), 2);
    let mut successors = graph.successors(Some(one)).unwrap();
    assert_eq!(successors.next(), Some(child));
    assert_eq!(successors.next(), None);
    let mut successors = graph.successors(Some(child)).unwrap();
    assert_eq!(successors.next(), Some(one));
    assert_eq!(successors.next(), None);
}

#[test]
#[should_panic]
fn successors_on_empty_graph() {
    let graph = Graph::<Dummy>::new();
    graph.successors(Some(NodeIndex(0))).unwrap();
}

#[test]
#[should_panic]
fn successors_invalid_index() {
    let mut graph = Graph::<Dummy>::new();
    graph.add_node(Dummy("test"));
    graph.successors(Some(NodeIndex(1))).unwrap();
}

#[test]
fn roots() {
    let mut graph = Graph::<Dummy>::new();
    let one = graph.add_node(Dummy("one"));
    let two = graph.add_node(Dummy("two"));
    let three = graph.add_node(Dummy("three"));
    let four = graph.add_node_to(one, Dummy("four")).unwrap();
    graph.add_node_to(four, Dummy("five")).unwrap();
    assert_eq!(graph.nodes().len(), 5);
    assert_eq!(graph.edges().len(), 2);
    let mut roots = graph.successors(None).unwrap();
    assert_eq!(roots.next(), Some(one));
    assert_eq!(roots.next(), Some(two));
    assert_eq!(roots.next(), Some(three));
    assert_eq!(roots.next(), None);
}

#[test]
fn no_roots_on_circular_graph() {
    let mut graph = Graph::<Dummy>::new();
    let first = graph.add_node(Dummy("first"));
    let second = graph.add_node_to(first, Dummy("second")).unwrap();
    graph.add_edge(second, first).unwrap();
    assert_eq!(graph.nodes().len(), 2);
    assert_eq!(graph.edges().len(), 2);
    let roots = graph.successors(None).unwrap();
    assert_eq!(roots.count(), 0);
}

#[test]
fn no_roots_on_empty_graph() {
    let graph = Graph::<Dummy>::new();
    let roots = graph.successors(None).unwrap();
    assert_eq!(roots.count(), 0);
}

#[test]
#[should_panic]
fn ancestors_on_empty_graph() {
    let graph = Graph::<Dummy>::new();
    graph.ancestors(NodeIndex(0)).unwrap();
}

#[test]
#[should_panic]
fn ancestors_invalid_index() {
    let mut graph = Graph::<Dummy>::new();
    graph.add_node(Dummy("test"));
    graph.ancestors(NodeIndex(1)).unwrap();
}

#[test]
fn ancestors() {
    let mut graph = Graph::<Dummy>::new();
    let one = graph.add_node(Dummy("one"));
    let two = graph.add_node(Dummy("two"));
    let three = graph.add_node(Dummy("three"));
    let four = graph.add_node_to(one, Dummy("four")).unwrap();
    graph.add_edge(two, four).unwrap();
    graph.add_edge(three, four).unwrap();
    assert_eq!(graph.nodes().len(), 4);
    assert_eq!(graph.edges().len(), 3);
    let mut ancestors = graph.ancestors(four).unwrap();
    assert_eq!(ancestors.next(), Some(one));
    assert_eq!(ancestors.next(), Some(two));
    assert_eq!(ancestors.next(), Some(three));
    assert_eq!(ancestors.next(), None);
    let ancestors = graph.ancestors(one).unwrap();
    assert_eq!(ancestors.count(), 0);
    let ancestors = graph.ancestors(two).unwrap();
    assert_eq!(ancestors.count(), 0);
    let ancestors = graph.ancestors(three).unwrap();
    assert_eq!(ancestors.count(), 0);
}

#[test]
fn ancestors_on_circular_graph() {
    let mut graph = Graph::<Dummy>::new();
    let one = graph.add_node(Dummy("one"));
    let child = graph.add_node_to(one, Dummy("child")).unwrap();
    graph.add_edge(child, one).unwrap();
    assert_eq!(graph.nodes().len(), 2);
    assert_eq!(graph.edges().len(), 2);
    let mut ancestors = graph.ancestors(child).unwrap();
    assert_eq!(ancestors.next(), Some(one));
    assert_eq!(ancestors.next(), None);
    let mut ancestors = graph.ancestors(one).unwrap();
    assert_eq!(ancestors.next(), Some(child));
    assert_eq!(ancestors.next(), None);
}

fn drain_successors(mut successors: Successors) -> Vec<NodeIndex> {
    let mut out = Vec::new();
    while let Some(index) = successors.next() {
        out.push(index);
    }
    out
}

fn drain_ancestors(mut ancestors: Ancestors) -> Vec<NodeIndex> {
    let mut out = Vec::new();
    while let Some(index) = ancestors.next() {
        out.push(index);
    }
    out
}

#[test]
fn add_node_returns_the_count_before() {
    let mut graph = Graph::<u32>::new();
    for expected in 0..10usize {
        assert_eq!(graph.nodes().len(), expected);
        assert_eq!(graph.add_node(7), NodeIndex(expected));
    }
}

#[test]
fn inserted_edge_is_seen_from_both_ends() {
    let mut graph = Graph::<u32>::new();
    let nodes: Vec<NodeIndex> = (0..6u32).map(|i| graph.add_node(i)).collect();
    let pairs = [(0, 1), (1, 2), (2, 0), (3, 2), (4, 3), (0, 5), (5, 4), (1, 4)];
    for &(s, t) in pairs.iter() {
        assert_eq!(graph.add_edge(nodes[s], nodes[t]), Ok(()));
    }
    for &(s, t) in pairs.iter() {
        let successors = drain_successors(graph.successors(Some(nodes[s])).unwrap());
        assert!(successors.contains(&nodes[t]));
        let ancestors = drain_ancestors(graph.ancestors(nodes[t]).unwrap());
        assert!(ancestors.contains(&nodes[s]));
    }
}

#[test]
fn second_insertion_of_an_edge_is_refused() {
    let mut graph = Graph::<u32>::new();
    let a = graph.add_node(1);
    let b = graph.add_node(2);
    assert_eq!(graph.add_edge(a, b), Ok(()));
    assert_eq!(graph.add_edge(a, b), Err(GraphError::InvalidEdge));
    assert_eq!(graph.edges().len(), 1);
    assert_eq!(graph.add_edge(b, a), Ok(()));
    assert_eq!(graph.edges().len(), 2);
}

#[test]
fn self_loop_is_refused() {
    let mut graph = Graph::<u32>::new();
    assert_eq!(graph.add_edge(NodeIndex(0), NodeIndex(0)), Err(GraphError::InvalidEdge));
    let a = graph.add_node(1);
    assert_eq!(graph.add_edge(a, a), Err(GraphError::InvalidEdge));
    let b = graph.add_node(2);
    assert_eq!(graph.add_edge(a, a), Err(GraphError::InvalidEdge));
    assert_eq!(graph.add_edge(b, b), Err(GraphError::InvalidEdge));
    assert_eq!(graph.edges().len(), 0);
}

#[test]
fn edge_to_a_missing_node_is_refused() {
    let mut graph = Graph::<u32>::new();
    let a = graph.add_node(1);
    assert_eq!(graph.add_edge(a, NodeIndex(1)), Err(GraphError::InvalidEdge));
    let b = graph.add_node(2);
    assert_eq!(graph.add_edge(a, NodeIndex(2)), Err(GraphError::InvalidEdge));
    assert_eq!(graph.add_edge(NodeIndex(2), b), Err(GraphError::InvalidEdge));
    assert_eq!(graph.add_edge(NodeIndex(usize::MAX), b), Err(GraphError::InvalidEdge));
    assert_eq!(graph.edges().len(), 0);
    assert_eq!(graph.nodes()[0].first_edge, None);
}

#[test]
fn node_under_a_missing_parent_stays_without_edge() {
    let mut graph = Graph::<u32>::new();
    assert_eq!(graph.add_node_to(NodeIndex(0), 5), Err(GraphError::InvalidEdge));
    assert_eq!(graph.nodes().len(), 1);
    assert_eq!(graph.nodes()[0].data, 5);
    assert_eq!(graph.edges().len(), 0);
    assert_eq!(graph.add_node_to(NodeIndex(0), 6), Ok(NodeIndex(1)));
    assert_eq!(graph.add_node_to(NodeIndex(2), 7), Err(GraphError::InvalidEdge));
    assert_eq!(graph.nodes().len(), 3);
    assert_eq!(graph.edges().len(), 1);
}

#[test]
fn tree_of_five() {
    let mut graph = Graph::<&str>::new();
    let a = graph.add_node("a");
    let b = graph.add_node("b");
    let c = graph.add_node("c");
    let d = graph.add_node_to(a, "d").unwrap();
    let e = graph.add_node_to(d, "e").unwrap();
    assert_eq!(drain_successors(graph.successors(None).unwrap()), vec![a, b, c]);
    assert_eq!(drain_successors(graph.successors(Some(a)).unwrap()), vec![d]);
    assert_eq!(drain_successors(graph.successors(Some(d)).unwrap()), vec![e]);
    assert_eq!(drain_successors(graph.successors(Some(b)).unwrap()), vec![]);
    assert_eq!(drain_ancestors(graph.ancestors(e).unwrap()), vec![d, a]);
    assert_eq!(drain_ancestors(graph.ancestors(a).unwrap()), vec![]);
}

#[test]
fn cycle_of_two() {
    let mut graph = Graph::<&str>::new();
    let a = graph.add_node("a");
    let b = graph.add_node("b");
    graph.add_edge(a, b).unwrap();
    graph.add_edge(b, a).unwrap();
    assert_eq!(drain_successors(graph.successors(None).unwrap()), vec![]);
    assert_eq!(drain_successors(graph.successors(Some(a)).unwrap()), vec![b]);
    assert_eq!(drain_successors(graph.successors(Some(b)).unwrap()), vec![a]);
    assert_eq!(drain_ancestors(graph.ancestors(b).unwrap()), vec![a]);
    assert_eq!(drain_ancestors(graph.ancestors(a).unwrap()), vec![b]);
}

#[test]
fn queries_refuse_a_missing_node() {
    let mut graph = Graph::<u32>::new();
    assert_eq!(graph.successors(Some(NodeIndex(0))).err(), Some(GraphError::InvalidHandle));
    assert_eq!(graph.ancestors(NodeIndex(0)).err(), Some(GraphError::InvalidHandle));
    graph.add_node(1);
    graph.add_node(2);
    assert!(graph.successors(Some(NodeIndex(1))).is_ok());
    assert!(graph.ancestors(NodeIndex(1)).is_ok());
    assert_eq!(graph.successors(Some(NodeIndex(2))).err(), Some(GraphError::InvalidHandle));
    assert_eq!(graph.ancestors(NodeIndex(2)).err(), Some(GraphError::InvalidHandle));
    assert_eq!(graph.successors(Some(NodeIndex(usize::MAX))).err(), Some(GraphError::InvalidHandle));
    assert_eq!(graph.ancestors(NodeIndex(usize::MAX)).err(), Some(GraphError::InvalidHandle));
}

#[test]
fn successors_come_latest_edge_first() {
    let mut graph = Graph::<u32>::new();
    let hub = graph.add_node(0);
    let other = graph.add_node(1);
    let x = graph.add_node_to(hub, 2).unwrap();
    let y = graph.add_node_to(other, 3).unwrap();
    let z = graph.add_node_to(hub, 4).unwrap();
    graph.add_edge(hub, other).unwrap();
    assert_eq!(drain_successors(graph.successors(Some(hub)).unwrap()), vec![other, z, x]);
    assert_eq!(drain_successors(graph.successors(Some(other)).unwrap()), vec![y]);
    assert_eq!(graph.successors(Some(hub)).unwrap().count(), 3);
    let mut partly = graph.successors(Some(hub)).unwrap();
    assert_eq!(partly.next(), Some(other));
    assert_eq!(partly.count(), 2);
}

#[test]
fn ancestors_are_found_depth_first_and_once() {
    // 0 -> 3, 1 -> 3, 2 -> 0, 4 -> 0, 2 -> 1, 3 -> 2 (a cycle through 3), 5 alone
    let mut graph = Graph::<u32>::new();
    let n: Vec<NodeIndex> = (0..6u32).map(|i| graph.add_node(i)).collect();
    graph.add_edge(n[0], n[3]).unwrap();
    graph.add_edge(n[1], n[3]).unwrap();
    graph.add_edge(n[2], n[0]).unwrap();
    graph.add_edge(n[4], n[0]).unwrap();
    graph.add_edge(n[2], n[1]).unwrap();
    graph.add_edge(n[3], n[2]).unwrap();
    assert_eq!(drain_ancestors(graph.ancestors(n[3]).unwrap()), vec![n[0], n[2], n[4], n[1]]);
    assert_eq!(drain_ancestors(graph.ancestors(n[0]).unwrap()), vec![n[2], n[3], n[1], n[4]]);
    assert_eq!(drain_ancestors(graph.ancestors(n[4]).unwrap()), vec![]);
    assert_eq!(drain_ancestors(graph.ancestors(n[5]).unwrap()), vec![]);
    assert_eq!(graph.ancestors(n[3]).unwrap().count(), 4);
    let mut partly = graph.ancestors(n[3]).unwrap();
    assert_eq!(partly.next(), Some(n[0]));
    assert_eq!(partly.next(), Some(n[2]));
    assert_eq!(partly.count(), 2);
}

#[test]
fn roots_skip_every_targeted_node() {
    let mut graph = Graph::<u32>::new();
    let n: Vec<NodeIndex> = (0..5u32).map(|i| graph.add_node(i)).collect();
    graph.add_edge(n[4], n[0]).unwrap();
    graph.add_edge(n[4], n[2]).unwrap();
    assert_eq!(drain_successors(graph.successors(None).unwrap()), vec![n[1], n[3], n[4]]);
    let roots = graph.successors(None).unwrap();
    assert_eq!(roots.roots(), Some(&vec![n[1], n[3], n[4]]));
    assert_eq!(roots.count(), 3);
}

#[test]
fn queries_leave_the_graph_as_it_was() {
    let mut graph = Graph::<u32>::new();
    let a = graph.add_node(1);
    let b = graph.add_node_to(a, 2).unwrap();
    let first = drain_successors(graph.successors(Some(a)).unwrap());
    let second = drain_successors(graph.successors(Some(a)).unwrap());
    assert_eq!(first, second);
    assert_eq!(first, vec![b]);
    assert_eq!(
        drain_ancestors(graph.ancestors(b).unwrap()),
        drain_ancestors(graph.ancestors(b).unwrap())
    );
    assert_eq!(graph.nodes().len(), 2);
    assert_eq!(graph.edges().len(), 1);
}

#[test]
fn payload_is_replaced_in_place() {
    let mut graph = Graph::<&str>::new();
    let a = graph.add_node("a");
    let b = graph.add_node_to(a, "b").unwrap();
    assert_eq!(graph.replace_data(a, "first"), Ok("a"));
    assert_eq!(graph.replace_data(b, "second"), Ok("b"));
    assert_eq!(graph.replace_data(NodeIndex(2), "none"), Err(GraphError::InvalidHandle));
    assert_eq!(graph.nodes()[a].data, "first");
    assert_eq!(graph.nodes()[b].data, "second");
    assert_eq!(graph.nodes()[a].first_edge, Some(EdgeIndex(0)));
    assert_eq!(graph.nodes().len(), 2);
    assert_eq!(graph.edges().len(), 1);
    assert_eq!(graph.edges()[EdgeIndex(0)].target, b);
}

#[test]
fn errors_name_the_broken_rule() {
    assert_eq!(GraphError::InvalidEdge.message(), "invalid edge");
    assert_eq!(GraphError::InvalidHandle.message(), "invalid index");
}

#[test]
fn roots_on_an_empty_graph_are_none() {
    let graph = Graph::<u32>::new();
    let mut roots = graph.successors(None).unwrap();
    assert_eq!(roots.roots(), Some(&vec![]));
    assert_eq!(roots.next(), None);
    assert_eq!(roots.next(), None);
    assert_eq!(roots.count(), 0);
}

#[test]
fn roots_are_the_successors_of_no_node() {
    let mut graph = Graph::<u32>::new();
    assert_eq!(drain_successors(graph.roots()), vec![]);
    let n: Vec<NodeIndex> = (0..4u32).map(|i| graph.add_node(i)).collect();
    graph.add_edge(n[3], n[1]).unwrap();
    assert_eq!(drain_successors(graph.roots()), vec![n[0], n[2], n[3]]);
    assert_eq!(
        drain_successors(graph.roots()),
        drain_successors(graph.successors(None).unwrap())
    );
    graph.add_edge(n[1], n[3]).unwrap();
    assert_eq!(drain_successors(graph.roots()), vec![n[0], n[2]]);
    assert_eq!(graph.roots().count(), 2);
}
