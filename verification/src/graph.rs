//! The arena-backed directed graph: nodes and edges addressed by integer handles.

use crate::model::{
    latest_below, links_valid, roots_below, seen_valid, targeted, targets_below, visit,
    GraphModel, Link,
};
use crate::theory::{
    lemma_latest_below_bounds, lemma_latest_below_prefix, lemma_seen_leaves_room,
};
use vstd::prelude::*;

verus! {

/// Why the graph refused an operation.
#[derive(Debug, Copy, Clone, PartialEq, Eq, Structural)]
pub enum GraphError {
    /// A handle names no node of the graph.
    InvalidHandle,
    /// The edge is a self-loop, exists already, or names a node that the graph
    /// does not hold.
    InvalidEdge,
}

impl GraphError {
    /// The rule that was broken, in words.
    pub fn message(&self) -> (text: &'static str)
        ensures
            text@ == match *self {
                GraphError::InvalidHandle => "invalid index"@,
                GraphError::InvalidEdge => "invalid edge"@,
            },
    {
        match self {
            GraphError::InvalidHandle => "invalid index",
            GraphError::InvalidEdge => "invalid edge",
        }
    }
}

/// Handle of a node: its position in the node arena.
#[derive(Debug, Copy, Clone, PartialEq, Eq, Structural)]
pub struct NodeIndex(pub usize);

/// Handle of an edge: its position in the edge arena.
#[derive(Debug, Copy, Clone, PartialEq, Eq, Structural)]
pub struct EdgeIndex(pub usize);

/// A node record: a payload and the head of the chain of its outgoing edges.
#[derive(Debug)]
pub struct Node<T> {
    pub first_edge: Option<EdgeIndex>,
    pub data: T,
}

impl<T> Node<T> {
    pub fn new(first_edge: Option<EdgeIndex>, data: T) -> (node: Node<T>)
        ensures
            node.first_edge == first_edge,
            node.data == data,
    {
        Node { first_edge, data }
    }
}

/// An edge record: its endpoints and the next edge that leaves the same source.
#[derive(Debug)]
pub struct Edge {
    pub source: NodeIndex,
    pub target: NodeIndex,
    pub next_edge: Option<EdgeIndex>,
}

impl Edge {
    pub fn new(source: NodeIndex, target: NodeIndex, next_edge: Option<EdgeIndex>) -> (edge: Edge)
        ensures
            edge.source == source,
            edge.target == target,
            edge.next_edge == next_edge,
    {
        Edge { source, target, next_edge }
    }
}

/// Node records are indexed by node handles.
impl<T> std::ops::Index<NodeIndex> for Vec<Node<T>> {
    type Output = Node<T>;

    fn index(&self, index: NodeIndex) -> (node: &Node<T>)
        ensures
            *node == self@[index.0 as int],
    {
        &self[index.0]
    }
}

impl<T> vstd::std_specs::core::IndexSpecImpl<NodeIndex> for Vec<Node<T>> {
    open spec fn index_req(&self, index: &NodeIndex) -> bool {
        index.0 < self@.len()
    }
}

/// Edge records are indexed by edge handles.
impl std::ops::Index<EdgeIndex> for Vec<Edge> {
    type Output = Edge;

    fn index(&self, index: EdgeIndex) -> (edge: &Edge)
        ensures
            *edge == self@[index.0 as int],
    {
        &self[index.0]
    }
}

impl vstd::std_specs::core::IndexSpecImpl<EdgeIndex> for Vec<Edge> {
    open spec fn index_req(&self, index: &EdgeIndex) -> bool {
        index.0 < self@.len()
    }
}

/// The link that an edge record stands for.
pub open spec fn link_of(edge: Edge) -> Link {
    Link { source: edge.source.0 as int, target: edge.target.0 as int }
}

/// The links that a sequence of edge records stands for, in the same order.
pub open spec fn links_of(edges: Seq<Edge>) -> Seq<Link> {
    Seq::new(edges.len(), |k: int| link_of(edges[k]))
}

/// The payloads that a sequence of node records carries, in the same order.
pub open spec fn payloads_of<T>(nodes: Seq<Node<T>>) -> Seq<T> {
    Seq::new(nodes.len(), |i: int| nodes[i].data)
}

/// The positions that a sequence of node handles names.
pub open spec fn handles(v: Seq<NodeIndex>) -> Seq<int> {
    Seq::new(v.len(), |k: int| v[k].0 as int)
}

/// The edge handle for an optional position in the edge arena.
pub open spec fn edge_handle(position: Option<int>) -> Option<EdgeIndex> {
    match position {
        Some(k) => Some(EdgeIndex(k as usize)),
        None => None,
    }
}

/// The edge that follows edge `k` in the chain of its source: the latest
/// earlier edge that leaves the same node.
pub open spec fn chain_next(links: Seq<Link>, k: int) -> Option<EdgeIndex> {
    edge_handle(latest_below(links, k, links[k].source))
}

/// The head of the chain of node `i`: the latest edge that leaves it.
pub open spec fn chain_head(links: Seq<Link>, i: int) -> Option<EdgeIndex> {
    edge_handle(latest_below(links, links.len() as int, i))
}

/// A directed graph over two arenas that only grow.
///
/// Each node heads a chain of its outgoing edges, linked through the edge
/// records themselves; a new edge becomes the head of its source's chain.
/// Every edge joins two distinct nodes of the graph, and no two edges join
/// the same nodes in the same direction.
#[derive(Debug)]
pub struct Graph<T> {
    nodes: Vec<Node<T>>,
    edges: Vec<Edge>,
}

impl<T> View for Graph<T> {
    type V = GraphModel<T>;

    closed spec fn view(&self) -> GraphModel<T> {
        GraphModel { payloads: payloads_of(self.nodes@), links: links_of(self.edges@) }
    }
}

/// The records agree with the model they stand for: the links are valid, and
/// the chains are those that the order of the links dictates.
spec fn records_agree<T>(nodes: Seq<Node<T>>, edges: Seq<Edge>) -> bool {
    &&& links_valid(links_of(edges), nodes.len())
    &&& forall|k: int|
        0 <= k < edges.len() ==> (#[trigger] edges[k]).next_edge == chain_next(links_of(edges), k)
    &&& forall|i: int|
        0 <= i < nodes.len() ==> (#[trigger] nodes[i]).first_edge == chain_head(links_of(edges), i)
}

impl<T> Graph<T> {
    #[verifier::type_invariant]
    spec fn inv(&self) -> bool {
        records_agree(self.nodes@, self.edges@)
    }

    /// The empty graph.
    pub fn new() -> (graph: Graph<T>)
        ensures
            graph@ == GraphModel::<T>::empty(),
            graph@.well_formed(),
    {
        let graph = Graph { nodes: Vec::new(), edges: Vec::new() };
        assert(graph@.payloads =~= Seq::<T>::empty());
        assert(graph@.links =~= Seq::<Link>::empty());
        graph
    }

    /// Appends a node without edges and returns its handle, which is the
    /// number of nodes before the call.
    pub fn add_node(&mut self, data: T) -> (index: NodeIndex)
        ensures
            index.0 == old(self)@.node_count(),
            final(self)@ == old(self)@.with_node(data),
            final(self)@.well_formed(),
    {
        proof {
            use_type_invariant(&*self);
        }
        let mut taken = Graph { nodes: Vec::new(), edges: Vec::new() };
        std::mem::swap(self, &mut taken);
        let Graph { mut nodes, edges } = taken;
        let index = nodes.len();
        let ghost links = links_of(edges@);
        let ghost before = nodes@;
        nodes.push(Node::new(None, data));
        proof {
            assert(payloads_of(nodes@) =~= payloads_of(before).push(data));
            assert forall|i: int| 0 <= i < nodes@.len() implies (#[trigger] nodes@[i]).first_edge
                == chain_head(links, i) by {
                if i == index {
                    lemma_latest_below_bounds(links, links.len() as int, i);
                }
            }
        }
        *self = Graph { nodes, edges };
        NodeIndex(index)
    }

    /// Tells whether an edge leads from `source` to `target`, by a scan of
    /// all edges.
    fn has_edge(&self, source: NodeIndex, target: NodeIndex) -> (found: bool)
        ensures
            found == self@.has_link(source.0 as int, target.0 as int),
    {
        let ghost links = links_of(self.edges@);
        let ghost wanted = Link { source: source.0 as int, target: target.0 as int };
        let mut k: usize = 0;
        while k < self.edges.len()
            invariant
                k <= self.edges@.len(),
                links == links_of(self.edges@),
                wanted == (Link { source: source.0 as int, target: target.0 as int }),
                forall|j: int| 0 <= j < k ==> links[j] != wanted,
            decreases self.edges@.len() - k,
        {
            if self.edges[k].source.0 == source.0 && self.edges[k].target.0 == target.0 {
                assert(links[k as int] == wanted);
                return true;
            }
            k += 1;
        }
        false
    }

    /// Adds an edge from `source` to `target`, at the head of the chain of `source`.
    ///
    /// The edge is refused, and the graph left as it was, unless `source` and
    /// `target` are two distinct nodes of the graph that no edge joins yet in
    /// that direction.
    pub fn add_edge(&mut self, source: NodeIndex, target: NodeIndex) -> (result: Result<
        (),
        GraphError,
    >)
        ensures
            result is Ok <==> old(self)@.can_link(source.0 as int, target.0 as int),
            result is Ok ==> final(self)@ == old(self)@.with_link(source.0 as int, target.0 as int),
            result is Ok ==> final(self)@.successors(source.0 as int).contains(target.0 as int),
            result is Ok ==> final(self)@.ancestors(target.0 as int).contains(source.0 as int),
            result is Err ==> result == Err::<(), GraphError>(GraphError::InvalidEdge) && *final(self)
                == *old(self),
            final(self)@.well_formed(),
    {
        proof {
            use_type_invariant(&*self);
        }
        if self.nodes.len() < 2 || source.0 == target.0 || source.0 >= self.nodes.len() || target.0
            >= self.nodes.len() {
            return Err(GraphError::InvalidEdge);
        }
        if self.has_edge(source, target) {
            return Err(GraphError::InvalidEdge);
        }
        let mut taken = Graph { nodes: Vec::new(), edges: Vec::new() };
        std::mem::swap(self, &mut taken);
        let Graph { mut nodes, mut edges } = taken;
        let ghost old_nodes = nodes@;
        let ghost old_edges = edges@;
        let ghost old_links = links_of(old_edges);
        let index = edges.len();
        let head = nodes[source].first_edge;
        edges.push(Edge::new(source, target, head));
        nodes[source.0].first_edge = Some(EdgeIndex(index));
        proof {
            let links = links_of(edges@);
            let s = source.0 as int;
            assert(links =~= old_links.push(Link { source: s, target: target.0 as int }));
            assert(payloads_of(nodes@) =~= payloads_of(old_nodes));
            assert forall|k: int| 0 <= k < edges@.len() implies (#[trigger] edges@[k]).next_edge
                == chain_next(links, k) by {
                lemma_latest_below_prefix(old_links, links, k, links[k].source);
            }
            assert forall|i: int| 0 <= i < nodes@.len() implies (#[trigger] nodes@[i]).first_edge
                == chain_head(links, i) by {
                if i != s {
                    lemma_latest_below_prefix(old_links, links, index as int, i);
                }
            }
        }
        *self = Graph { nodes, edges };
        proof {
            assert(self@.links[index as int] == (Link {
                source: source.0 as int,
                target: target.0 as int,
            }));
            self@.lemma_link_shows_at_both_ends(source.0 as int, target.0 as int);
        }
        Ok(())
    }

    /// Appends a node and then an edge to it from `to`.
    ///
    /// The node is appended in any case; the edge is refused unless `to` was a
    /// node of the graph before the call.
    pub fn add_node_to(&mut self, to: NodeIndex, data: T) -> (result: Result<NodeIndex, GraphError>)
        ensures
            result is Ok <==> to.0 < old(self)@.node_count(),
            result matches Ok(index) ==> index.0 == old(self)@.node_count() && final(self)@ == old(
                self,
            )@.with_node(data).with_link(to.0 as int, index.0 as int),
            result matches Err(error) ==> error == GraphError::InvalidEdge && final(self)@ == old(
                self,
            )@.with_node(data),
            final(self)@.well_formed(),
    {
        proof {
            use_type_invariant(&*self);
        }
        let index = self.add_node(data);
        proof {
            let links = self@.links;
            assert(!self@.has_link(to.0 as int, index.0 as int)) by {
                if self@.has_link(to.0 as int, index.0 as int) {
                    let j = choose|j: int|
                        0 <= j < links.len() && links[j] == (Link {
                            source: to.0 as int,
                            target: index.0 as int,
                        });
                    assert(links[j].target < index.0);
                }
            }
        }
        match self.add_edge(to, index) {
            Ok(()) => Ok(index),
            Err(error) => Err(error),
        }
    }

    /// Gives node `index` the payload `data` and returns the payload that it had.
    pub fn replace_data(&mut self, index: NodeIndex, data: T) -> (result: Result<T, GraphError>)
        ensures
            index.0 < old(self)@.node_count() ==> (result matches Ok(previous) && previous == old(
                self,
            )@.payloads[index.0 as int] && final(self)@ == old(self)@.with_payload(
                index.0 as int,
                data,
            )),
            index.0 >= old(self)@.node_count() ==> (result matches Err(error) && error
                == GraphError::InvalidHandle && *final(self) == *old(self)),
            final(self)@.well_formed(),
    {
        proof {
            use_type_invariant(&*self);
        }
        if index.0 >= self.nodes.len() {
            return Err(GraphError::InvalidHandle);
        }
        let mut taken = Graph { nodes: Vec::new(), edges: Vec::new() };
        std::mem::swap(self, &mut taken);
        let Graph { mut nodes, edges } = taken;
        let ghost before = nodes@;
        let mut data = data;
        std::mem::swap(&mut nodes[index.0].data, &mut data);
        assert(payloads_of(nodes@) =~= payloads_of(before).update(
            index.0 as int,
            nodes@[index.0 as int].data,
        ));
        *self = Graph { nodes, edges };
        Ok(data)
    }

    /// The node records, by handle.
    pub closed spec fn spec_nodes(&self) -> &Vec<Node<T>> {
        &self.nodes
    }

    /// The edge records, by handle, oldest first.
    pub closed spec fn spec_edges(&self) -> &Vec<Edge> {
        &self.edges
    }

    /// The node records, by handle.
    #[verifier::when_used_as_spec(spec_nodes)]
    pub fn nodes(&self) -> (nodes: &Vec<Node<T>>)
        ensures
            nodes == self.spec_nodes(),
            self@.well_formed(),
            nodes@.len() == self@.node_count(),
            forall|i: int|
                0 <= i < nodes@.len() ==> (#[trigger] nodes@[i]).data == self@.payloads[i]
                    && nodes@[i].first_edge == chain_head(self@.links, i),
    {
        proof {
            use_type_invariant(self);
        }
        &self.nodes
    }

    /// The edge records, by handle, oldest first.
    #[verifier::when_used_as_spec(spec_edges)]
    pub fn edges(&self) -> (edges: &Vec<Edge>)
        ensures
            edges == self.spec_edges(),
            self@.well_formed(),
            links_of(edges@) == self@.links,
            forall|k: int|
                0 <= k < edges@.len() ==> (#[trigger] edges@[k]).next_edge == chain_next(
                    self@.links,
                    k,
                ),
    {
        proof {
            use_type_invariant(self);
        }
        &self.edges
    }

    /// The direct successors of `source`, latest edge first; without a node,
    /// the roots of the graph in ascending order.
    pub fn successors(&self, source: Option<NodeIndex>) -> (result: Result<
        Successors<'_>,
        GraphError,
    >)
        ensures
            self@.well_formed(),
            match source {
                Some(index) => if index.0 < self@.node_count() {
                    result matches Ok(successors) && successors.remaining() == self@.successors(
                        index.0 as int,
                    ) && successors.walks_chain(self, index)
                } else {
                    result matches Err(error) && error == GraphError::InvalidHandle
                },
                None => result matches Ok(successors) && successors.remaining() == self@.roots()
                    && successors.holds_roots(self),
            },
    {
        proof {
            use_type_invariant(self);
        }
        Successors::new(self, source)
    }

    /// The roots of the graph, the nodes at which no edge arrives, in
    /// ascending order.
    pub fn roots(&self) -> (roots: Successors<'_>)
        ensures
            self@.well_formed(),
            roots.remaining() == self@.roots(),
            roots.holds_roots(self),
    {
        self.successors(None).unwrap()
    }

    /// The nodes from which a walk along edges leads to `source`, in the
    /// order of their discovery.
    pub fn ancestors(&self, source: NodeIndex) -> (result: Result<Ancestors, GraphError>)
        ensures
            self@.well_formed(),
            source.0 < self@.node_count() ==> (result matches Ok(ancestors) && ancestors.remaining()
                == self@.ancestors(source.0 as int)),
            source.0 >= self@.node_count() ==> (result matches Err(error) && error
                == GraphError::InvalidHandle),
    {
        proof {
            use_type_invariant(self);
        }
        Ancestors::new(self, source)
    }
}

/// The targets along the chain of edges that starts at edge `k`.
///
/// The chain follows `next_edge` for as long as it leads to an earlier edge.
pub open spec fn chain_targets(edges: Seq<Edge>, k: int) -> Seq<int>
    decreases k,
{
    if k < 0 || k >= edges.len() {
        Seq::empty()
    } else {
        let rest = match edges[k].next_edge {
            Some(next) if next.0 < k => chain_targets(edges, next.0 as int),
            _ => Seq::empty(),
        };
        seq![edges[k].target.0 as int] + rest
    }
}

/// The targets along the chain that starts at `head`, if there is one.
pub open spec fn chain_targets_from(edges: Seq<Edge>, head: Option<EdgeIndex>) -> Seq<int> {
    match head {
        Some(k) => chain_targets(edges, k.0 as int),
        None => Seq::empty(),
    }
}

/// Every `next_edge` leads to an earlier edge.
pub open spec fn chains_descend(edges: Seq<Edge>) -> bool {
    forall|k: int|
        0 <= k < edges.len() ==> ((#[trigger] edges[k]).next_edge matches Some(next) ==> next.0 < k)
}

/// A chain is no longer than the number of edges up to its head.
proof fn lemma_chain_targets_len(edges: Seq<Edge>, k: int)
    ensures
        chain_targets(edges, k).len() <= k + 1 || chain_targets(edges, k).len() == 0,
    decreases k,
{
    if 0 <= k < edges.len() {
        match edges[k].next_edge {
            Some(next) if next.0 < k => {
                lemma_chain_targets_len(edges, next.0 as int);
            },
            _ => {},
        }
    }
}

/// Where the records carry the chains that the links dictate, the chain from
/// the latest link of `s` before `upto` runs through the targets of `s` before `upto`.
proof fn lemma_chain_is_targets(edges: Seq<Edge>, upto: int, s: int)
    requires
        0 <= upto <= edges.len() <= usize::MAX,
        forall|k: int|
            0 <= k < edges.len() ==> (#[trigger] edges[k]).next_edge == chain_next(links_of(edges), k),
    ensures
        chain_targets_from(edges, edge_handle(latest_below(links_of(edges), upto, s)))
            == targets_below(links_of(edges), upto, s),
    decreases upto,
{
    let links = links_of(edges);
    if upto > 0 {
        lemma_chain_is_targets(edges, upto - 1, s);
        if links[upto - 1].source == s {
            let k = upto - 1;
            lemma_latest_below_bounds(links, k, s);
            assert(edges[k].next_edge == chain_next(links, k));
        }
    }
}

/// The direct successors of a node, or the roots of the graph, handed out one
/// handle at a time.
///
/// For a node, the edges are borrowed from the graph and its chain is walked as
/// the handles are asked for. The roots are computed when the value is made.
#[derive(Debug)]
pub struct Successors<'a> {
    edges: Option<&'a Vec<Edge>>,
    current_edge_index: Option<EdgeIndex>,
    roots: Option<Vec<NodeIndex>>,
    current_root_index: usize,
}

impl<'a> Successors<'a> {
    #[verifier::type_invariant]
    spec fn inv(&self) -> bool {
        self.roots is None ==> (self.edges matches Some(edges) ==> {
            &&& chains_descend(edges@)
            &&& self.current_edge_index matches Some(k) ==> k.0 < edges@.len()
        })
    }

    /// No handle was handed out yet, and those of the chain of `index` in
    /// `graph` will be.
    pub open spec fn walks_chain<T>(&self, graph: &Graph<T>, index: NodeIndex) -> bool {
        &&& self.edges() == Some(graph.edges())
        &&& self.current_edge_index() == chain_head(graph@.links, index.0 as int)
        &&& self.roots() is None
        &&& self.current_root_index() == 0
    }

    /// No handle was handed out yet, and those of the roots of `graph` will be.
    pub open spec fn holds_roots<T>(&self, graph: &Graph<T>) -> bool {
        &&& self.edges() is None
        &&& self.current_edge_index() is None
        &&& self.roots() matches Some(roots) && handles(roots@) == graph@.roots()
        &&& self.current_root_index() == 0
    }

    /// The positions of the nodes that are still to be handed out, in order.
    pub closed spec fn remaining(&self) -> Seq<int> {
        match self.roots {
            Some(roots) => if self.current_root_index <= roots@.len() {
                handles(roots@).skip(self.current_root_index as int)
            } else {
                Seq::empty()
            },
            None => match self.edges {
                Some(edges) => chain_targets_from(edges@, self.current_edge_index),
                None => Seq::empty(),
            },
        }
    }

    /// The successors of `source`, latest edge first, or the roots of `graph`
    /// in ascending order where no node is given.
    pub fn new<T>(graph: &'a Graph<T>, source: Option<NodeIndex>) -> (result: Result<
        Successors<'a>,
        GraphError,
    >)
        ensures
            match source {
                Some(index) => if index.0 < graph@.node_count() {
                    result matches Ok(successors) && successors.remaining() == graph@.successors(
                        index.0 as int,
                    ) && successors.walks_chain(graph, index)
                } else {
                    result matches Err(error) && error == GraphError::InvalidHandle
                },
                None => result matches Ok(successors) && successors.remaining() == graph@.roots()
                    && successors.holds_roots(graph),
            },
    {
        proof {
            use_type_invariant(graph);
        }
        if let Some(index) = source {
            if index.0 >= graph.nodes.len() {
                return Err(GraphError::InvalidHandle);
            }
            let first_outgoing_edge = graph.nodes[index].first_edge;
            let edge_count = graph.edges.len();
            proof {
                let links = links_of(graph.edges@);
                assert(links.len() == edge_count);
                lemma_chain_is_targets(graph.edges@, links.len() as int, index.0 as int);
                lemma_latest_below_bounds(links, links.len() as int, index.0 as int);
                assert forall|k: int| 0 <= k < graph.edges@.len() implies ((
                #[trigger] graph.edges@[k]).next_edge matches Some(next) ==> next.0 < k) by {
                    lemma_latest_below_bounds(links, k, links[k].source);
                }
            }
            Ok(
                Successors {
                    edges: Some(&graph.edges),
                    current_edge_index: first_outgoing_edge,
                    roots: None,
                    current_root_index: 0,
                },
            )
        } else {
            let ghost links = links_of(graph.edges@);
            let mut roots: Vec<NodeIndex> = Vec::new();
            let mut i: usize = 0;
            while i < graph.nodes.len()
                invariant
                    i <= graph.nodes@.len(),
                    links == links_of(graph.edges@),
                    handles(roots@) == roots_below(links, i as int),
                decreases graph.nodes@.len() - i,
            {
                let mut is_target = false;
                let mut k: usize = 0;
                while k < graph.edges.len()
                    invariant
                        k <= graph.edges@.len(),
                        links == links_of(graph.edges@),
                        is_target == exists|j: int|
                            0 <= j < k && (#[trigger] links[j]).target == i,
                    decreases graph.edges@.len() - k,
                {
                    if graph.edges[k].target.0 == i {
                        assert(links[k as int].target == i);
                        is_target = true;
                    }
                    k += 1;
                }
                assert(is_target == targeted(links, i as int));
                if !is_target {
                    let ghost before = roots@;
                    roots.push(NodeIndex(i));
                    assert(handles(roots@) =~= handles(before).push(i as int));
                }
                i += 1;
            }
            assert(handles(roots@).skip(0) =~= handles(roots@));
            Ok(
                Successors {
                    edges: None,
                    current_edge_index: None,
                    roots: Some(roots),
                    current_root_index: 0,
                },
            )
        }
    }

    /// Hands out the next handle, if any is left.
    pub fn next(&mut self) -> (item: Option<NodeIndex>)
        ensures
            old(self).remaining().len() == 0 ==> item is None && final(self).remaining() == old(
                self,
            ).remaining(),
            old(self).remaining().len() > 0 ==> (item matches Some(index) && index.0 == old(
                self,
            ).remaining()[0]) && final(self).remaining() == old(self).remaining().skip(1),
    {
        proof {
            use_type_invariant(&*self);
        }
        if let Some(roots) = &self.roots {
            if self.current_root_index < roots.len() {
                let value = roots[self.current_root_index];
                assert(handles(roots@).skip(self.current_root_index as int).skip(1) =~= handles(
                    roots@,
                ).skip(self.current_root_index + 1));
                self.current_root_index += 1;
                Some(value)
            } else {
                None
            }
        } else if let Some(edges) = self.edges {
            match self.current_edge_index {
                None => None,
                Some(edge_index) => {
                    let edge = &edges[edge_index];
                    assert(chain_targets(edges@, edge_index.0 as int).skip(1) =~= chain_targets_from(
                        edges@,
                        edge.next_edge,
                    ));
                    self.current_edge_index = edge.next_edge;
                    Some(edge.target)
                },
            }
        } else {
            None
        }
    }

    /// The edges that are walked, where the successors of a node are handed out.
    pub closed spec fn spec_edges(&self) -> Option<&'a Vec<Edge>> {
        self.edges
    }

    /// The edge whose target is handed out next.
    pub closed spec fn spec_current_edge_index(&self) -> Option<EdgeIndex> {
        self.current_edge_index
    }

    /// All the roots, where the roots are handed out.
    pub closed spec fn spec_roots(&self) -> Option<&Vec<NodeIndex>> {
        match self.roots {
            Some(roots) => Some(&roots),
            None => None,
        }
    }

    /// The number of roots handed out so far.
    pub closed spec fn spec_current_root_index(&self) -> usize {
        self.current_root_index
    }

    /// The edges that are walked, where the successors of a node are handed out.
    #[verifier::when_used_as_spec(spec_edges)]
    pub fn edges(&self) -> (edges: Option<&'a Vec<Edge>>)
        ensures
            edges == self.spec_edges(),
    {
        self.edges
    }

    /// The edge whose target is handed out next, where the successors of a
    /// node are handed out and one is left.
    #[verifier::when_used_as_spec(spec_current_edge_index)]
    pub fn current_edge_index(&self) -> (index: Option<EdgeIndex>)
        ensures
            index == self.spec_current_edge_index(),
    {
        self.current_edge_index
    }

    /// All the roots, where the roots are handed out.
    #[verifier::when_used_as_spec(spec_roots)]
    pub fn roots(&self) -> (roots: Option<&Vec<NodeIndex>>)
        ensures
            roots == self.spec_roots(),
    {
        match &self.roots {
            Some(roots) => Some(roots),
            None => None,
        }
    }

    /// The number of roots handed out so far.
    #[verifier::when_used_as_spec(spec_current_root_index)]
    pub fn current_root_index(&self) -> (index: usize)
        ensures
            index == self.spec_current_root_index(),
    {
        self.current_root_index
    }

    /// The number of handles that are left.
    pub fn count(self) -> (count: usize)
        ensures
            count == self.remaining().len(),
    {
        let mut rest = self;
        let mut count: usize = 0;
        proof {
            use_type_invariant(&rest);
            rest.lemma_remaining_fits();
        }
        loop
            invariant
                count + rest.remaining().len() == self.remaining().len(),
                self.remaining().len() <= usize::MAX,
            ensures
                count == self.remaining().len(),
            decreases rest.remaining().len(),
        {
            match rest.next() {
                Some(_) => {
                    count += 1;
                },
                None => {
                    break ;
                },
            }
        }
        count
    }

    /// No more handles are left than a machine word counts.
    proof fn lemma_remaining_fits(&self)
        requires
            self.inv(),
        ensures
            self.remaining().len() <= usize::MAX,
    {
        broadcast use vstd::std_specs::vec::axiom_spec_len;

        match self.roots {
            Some(roots) => {
                assert(roots@.len() == roots.len());
            },
            None => {
                if let Some(edges) = self.edges {
                    if let Some(k) = self.current_edge_index {
                        assert(edges@.len() == edges.len());
                        lemma_chain_targets_len(edges@, k.0 as int);
                    }
                }
            },
        }
    }
}

/// Tells whether `wanted` is among `seen`.
fn is_seen(seen: &Vec<NodeIndex>, wanted: NodeIndex) -> (found: bool)
    ensures
        found == handles(seen@).contains(wanted.0 as int),
{
    let mut k: usize = 0;
    while k < seen.len()
        invariant
            k <= seen@.len(),
            forall|j: int| 0 <= j < k ==> handles(seen@)[j] != wanted.0,
        decreases seen@.len() - k,
    {
        if seen[k].0 == wanted.0 {
            assert(handles(seen@)[k as int] == wanted.0);
            return true;
        }
        k += 1;
    }
    false
}

/// Records in `seen` the nodes that lead to `current` and were not seen
/// before, each followed by those that lead to it.
fn expand<T>(
    graph: &Graph<T>,
    origin: NodeIndex,
    current: NodeIndex,
    seen: &mut Vec<NodeIndex>,
    Ghost(fuel): Ghost<nat>,
)
    requires
        origin.0 < graph@.node_count(),
        seen_valid(handles(old(seen)@), graph@.node_count(), origin.0 as int),
        fuel + old(seen)@.len() + 1 >= graph@.node_count(),
    ensures
        handles(final(seen)@) == visit(
            graph@.links,
            origin.0 as int,
            fuel,
            current.0 as int,
            0,
            handles(old(seen)@),
        ),
        seen_valid(handles(final(seen)@), graph@.node_count(), origin.0 as int),
        final(seen)@.len() >= old(seen)@.len(),
    decreases fuel,
{
    proof {
        use_type_invariant(graph);
    }
    let ghost links = graph@.links;
    let ghost n = graph@.node_count();
    let ghost start = handles(seen@);
    let mut i: usize = 0;
    while i < graph.edges.len()
        invariant
            i <= graph.edges@.len(),
            links == graph@.links,
            links == links_of(graph.edges@),
            n == graph@.node_count(),
            links_valid(links, n),
            origin.0 < n,
            seen_valid(handles(seen@), n, origin.0 as int),
            fuel + seen@.len() + 1 >= n,
            seen@.len() >= start.len(),
            visit(links, origin.0 as int, fuel, current.0 as int, i as int, handles(seen@)) == visit(
                links,
                origin.0 as int,
                fuel,
                current.0 as int,
                0,
                start,
            ),
        decreases graph.edges@.len() - i,
    {
        let source = graph.edges[i].source;
        let target = graph.edges[i].target;
        assert(links[i as int] == link_of(graph.edges@[i as int]));
        if target.0 == current.0 && source.0 != origin.0 && !is_seen(seen, source) {
            let ghost before = handles(seen@);
            proof {
                lemma_seen_leaves_room(before, n, origin.0 as int, source.0 as int);
            }
            seen.push(source);
            assert(handles(seen@) =~= before.push(source.0 as int));
            expand(graph, origin, source, seen, Ghost((fuel - 1) as nat));
        }
        i += 1;
    }
}

/// The nodes that lead to a node, handed out one handle at a time in the
/// order of their discovery.
#[derive(Debug)]
pub struct Ancestors {
    data: Vec<NodeIndex>,
    current_index: usize,
}

impl Ancestors {
    /// The positions of the nodes that are still to be handed out, in order.
    pub closed spec fn remaining(&self) -> Seq<int> {
        if self.current_index <= self.data@.len() {
            handles(self.data@).skip(self.current_index as int)
        } else {
            Seq::empty()
        }
    }

    /// The nodes from which a walk along edges leads to `from`, discovered
    /// depth first along incoming edges, oldest edge first.
    pub fn new<T>(graph: &Graph<T>, from: NodeIndex) -> (result: Result<Ancestors, GraphError>)
        ensures
            from.0 < graph@.node_count() ==> (result matches Ok(ancestors) && ancestors.remaining()
                == graph@.ancestors(from.0 as int)),
            from.0 >= graph@.node_count() ==> (result matches Err(error) && error
                == GraphError::InvalidHandle),
    {
        if from.0 >= graph.nodes.len() {
            return Err(GraphError::InvalidHandle);
        }
        let mut data: Vec<NodeIndex> = Vec::new();
        assert(handles(data@) =~= Seq::<int>::empty());
        expand(graph, from, from, &mut data, Ghost(graph@.node_count()));
        assert(handles(data@).skip(0) =~= handles(data@));
        Ok(Ancestors { data, current_index: 0 })
    }

    /// Hands out the next handle, if any is left.
    pub fn next(&mut self) -> (item: Option<NodeIndex>)
        ensures
            old(self).remaining().len() == 0 ==> item is None && final(self).remaining() == old(
                self,
            ).remaining(),
            old(self).remaining().len() > 0 ==> (item matches Some(index) && index.0 == old(
                self,
            ).remaining()[0]) && final(self).remaining() == old(self).remaining().skip(1),
    {
        if self.current_index < self.data.len() {
            let value = self.data[self.current_index];
            assert(handles(self.data@).skip(self.current_index as int).skip(1) =~= handles(
                self.data@,
            ).skip(self.current_index + 1));
            self.current_index += 1;
            Some(value)
        } else {
            None
        }
    }

    /// The number of handles that are left.
    pub fn count(self) -> (count: usize)
        ensures
            count == self.remaining().len(),
    {
        if self.current_index <= self.data.len() {
            self.data.len() - self.current_index
        } else {
            0
        }
    }
}

} // verus!
