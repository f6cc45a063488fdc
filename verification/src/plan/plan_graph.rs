//! The graph store of the full plan: petgraph's `StableGraph`, with the
//! node and edge maps that describe it and a trusted wrapper for each of
//! its methods that the planner calls.
use petgraph::stable_graph::{NodeIndex, StableGraph};
use petgraph::visit::EdgeRef;
use petgraph::Directed;
use vstd::prelude::*;

use super::full_plan_graph::PlanNodeWeight;
use crate::game::ItemId;

verus! {

#[verifier::external_type_specification]
#[verifier::external_body]
#[verifier::reject_recursive_types(N)]
#[verifier::reject_recursive_types(E)]
#[verifier::reject_recursive_types(Ty)]
#[verifier::reject_recursive_types(Ix)]
pub struct ExStableGraph<N, E, Ty, Ix>(StableGraph<N, E, Ty, Ix>);

#[verifier::external_type_specification]
#[verifier::external_body]
pub struct ExDirected(Directed);

/// The graph of every way the requested outputs can be produced: nodes
/// are inputs, outputs, by-products, productions and producers; an edge
/// carries an item from the node that makes it to the node that takes it.
pub type FullPlanGraph = StableGraph<PlanNodeWeight, ItemId, Directed, u32>;

/// The nodes of the graph: node index to node weight.
pub uninterp spec fn plan_graph_nodes(graph: FullPlanGraph) -> Map<usize, PlanNodeWeight>;

/// The edges of the graph: edge index to source, target and weight.
pub uninterp spec fn plan_graph_edges(graph: FullPlanGraph) -> Map<usize, (usize, usize, ItemId)>;

/// Which end of a node's edges to look at.
#[derive(Debug, Copy, Clone, PartialEq, Eq, Structural)]
pub enum Side {
    Incoming,
    Outgoing,
}

/// What every `StableGraph` keeps: finitely many nodes and edges, indices
/// below the index type's end marker, and edges only between nodes.
pub open spec fn graph_consistent(nodes: Map<usize, PlanNodeWeight>, edges: Map<usize, (usize, usize, ItemId)>) -> bool {
    &&& nodes.dom().finite()
    &&& edges.dom().finite()
    &&& forall|n: usize| nodes.dom().contains(n) ==> n < u32::MAX
    &&& forall|e: usize| edges.dom().contains(e) ==> e < u32::MAX
    &&& forall|e: usize|
        #![trigger edges[e]]
        edges.dom().contains(e) ==> nodes.dom().contains(edges[e].0) && nodes.dom().contains(
            edges[e].1,
        )
}

pub open spec fn consistent(graph: FullPlanGraph) -> bool {
    graph_consistent(plan_graph_nodes(graph), plan_graph_edges(graph))
}

/// The edges at the given end of node `a`: incoming edges end at `a`,
/// outgoing edges start at it.
pub open spec fn side_edges(edges: Map<usize, (usize, usize, ItemId)>, a: usize, side: Side) -> Set<
    usize,
> {
    edges.dom().filter(
        |e: usize|
            match side {
                Side::Incoming => edges[e].1 == a,
                Side::Outgoing => edges[e].0 == a,
            },
    )
}

/// The node at the other end of edge `e`, seen from the given end.
pub open spec fn other_end(edges: Map<usize, (usize, usize, ItemId)>, e: usize, side: Side) -> usize {
    match side {
        Side::Incoming => edges[e].0,
        Side::Outgoing => edges[e].1,
    }
}

/// The edges that touch node `a`, counting a loop on `a` once.
pub open spec fn touching_edges(edges: Map<usize, (usize, usize, ItemId)>, a: usize) -> Set<usize> {
    edges.dom().filter(|e: usize| edges[e].0 == a || edges[e].1 == a)
}

/// The edges that do not touch node `a`.
pub open spec fn edges_without(edges: Map<usize, (usize, usize, ItemId)>, a: usize) -> Map<
    usize,
    (usize, usize, ItemId),
> {
    edges.restrict(edges.dom().filter(|e: usize| edges[e].0 != a && edges[e].1 != a))
}

/// Whether `list` holds the nodes at the other end of the edges at one end
/// of `a`, one entry per edge, in some order.
pub open spec fn neighbor_list(list: Seq<usize>, edges: Map<usize, (usize, usize, ItemId)>, a: usize, side: Side) -> bool {
    exists|es: Seq<usize>|
        {
            &&& es.no_duplicates()
            &&& es.to_set() == side_edges(edges, a, side)
            &&& es.len() == list.len()
            &&& forall|i: int| 0 <= i < es.len() ==> list[i] == other_end(edges, es[i], side)
        }
}

/// Whether `list` holds the edges at one end of `a`, each once, as the
/// edge's index and the item it carries, in some order.
pub open spec fn edge_list(list: Seq<(usize, ItemId)>, edges: Map<usize, (usize, usize, ItemId)>, a: usize, side: Side) -> bool {
    &&& forall|i: int, j: int| 0 <= i < j < list.len() ==> list[i].0 != list[j].0
    &&& forall|e: usize| side_edges(edges, a, side).contains(e) <==> exists|i: int| 0 <= i < list.len() && list[i].0 == e
    &&& forall|i: int| 0 <= i < list.len() ==> #[trigger] list[i].1 == edges[list[i].0].2
}

/// Creates an empty graph with `StableGraph::new`.
#[verifier::external_body]
pub(crate) fn graph_new() -> (r: FullPlanGraph)
    ensures
        consistent(r),
        plan_graph_nodes(r).dom().len() == 0,
        plan_graph_edges(r).dom().len() == 0,
{
    StableGraph::new()
}

/// Adds a node with `StableGraph::add_node`: the node gets an index that
/// no present node has; the edges are unchanged. It panics only when the
/// index space of `u32` is used up.
#[verifier::external_body]
pub(crate) fn graph_add_node(graph: &mut FullPlanGraph, weight: PlanNodeWeight) -> (r: usize)
    requires
        plan_graph_nodes(*old(graph)).dom().len() < u32::MAX,
    ensures
        consistent(*final(graph)),
        !plan_graph_nodes(*old(graph)).dom().contains(r),
        plan_graph_nodes(*final(graph)) == plan_graph_nodes(*old(graph)).insert(r, weight),
        plan_graph_edges(*final(graph)) == plan_graph_edges(*old(graph)),
{
    graph.add_node(weight).index()
}

/// Adds an edge from `a` to `b` with `StableGraph::add_edge`: the edge
/// gets an index that no present edge has; the nodes are unchanged. It
/// panics when an end is not a node, or when the index space is used up.
#[verifier::external_body]
pub(crate) fn graph_add_edge(graph: &mut FullPlanGraph, a: usize, b: usize, weight: ItemId) -> (r: usize)
    requires
        plan_graph_nodes(*old(graph)).dom().contains(a),
        plan_graph_nodes(*old(graph)).dom().contains(b),
        plan_graph_edges(*old(graph)).dom().len() < u32::MAX,
    ensures
        consistent(*final(graph)),
        !plan_graph_edges(*old(graph)).dom().contains(r),
        plan_graph_edges(*final(graph)) == plan_graph_edges(*old(graph)).insert(r, (a, b, weight)),
        plan_graph_nodes(*final(graph)) == plan_graph_nodes(*old(graph)),
{
    graph.add_edge(NodeIndex::new(a), NodeIndex::new(b), weight).index()
}

/// Adds or updates the edge from `a` to `b` with `StableGraph::update_edge`:
/// when some edge goes from `a` to `b`, one of them gets the new weight;
/// otherwise an edge is added as `add_edge` does.
#[verifier::external_body]
pub(crate) fn graph_update_edge(graph: &mut FullPlanGraph, a: usize, b: usize, weight: ItemId) -> (r: usize)
    requires
        plan_graph_nodes(*old(graph)).dom().contains(a),
        plan_graph_nodes(*old(graph)).dom().contains(b),
        plan_graph_edges(*old(graph)).dom().len() < u32::MAX,
    ensures
        consistent(*final(graph)),
        plan_graph_nodes(*final(graph)) == plan_graph_nodes(*old(graph)),
        plan_graph_edges(*final(graph)) == plan_graph_edges(*old(graph)).insert(r, (a, b, weight)),
        plan_graph_edges(*old(graph)).dom().contains(r) ==> plan_graph_edges(*old(graph))[r].0 == a
            && plan_graph_edges(*old(graph))[r].1 == b,
        !plan_graph_edges(*old(graph)).dom().contains(r) ==> forall|e: usize|
            #![trigger plan_graph_edges(*old(graph))[e]]
            plan_graph_edges(*old(graph)).dom().contains(e) ==> !(plan_graph_edges(*old(graph))[e].0
                == a && plan_graph_edges(*old(graph))[e].1 == b),
{
    graph.update_edge(NodeIndex::new(a), NodeIndex::new(b), weight).index()
}

/// Removes node `a` and every edge that touches it with
/// `StableGraph::remove_node`; a node that is not present is left alone.
#[verifier::external_body]
pub(crate) fn graph_remove_node(graph: &mut FullPlanGraph, a: usize) -> (r: Option<PlanNodeWeight>)
    requires
        a < u32::MAX,
    ensures
        consistent(*final(graph)),
        plan_graph_nodes(*final(graph)) == plan_graph_nodes(*old(graph)).remove(a),
        plan_graph_edges(*final(graph)) == edges_without(plan_graph_edges(*old(graph)), a),
        r == (if plan_graph_nodes(*old(graph)).dom().contains(a) {
            Some(plan_graph_nodes(*old(graph))[a])
        } else {
            None
        }),
{
    graph.remove_node(NodeIndex::new(a))
}

/// Whether `a` is a node, with `StableGraph::contains_node`.
#[verifier::external_body]
pub(crate) fn graph_contains_node(graph: &FullPlanGraph, a: usize) -> (r: bool)
    requires
        a < u32::MAX,
    ensures
        r == plan_graph_nodes(*graph).dom().contains(a),
{
    graph.contains_node(NodeIndex::new(a))
}

/// The weight of node `a`, read with `StableGraph`'s indexing, which panics
/// when `a` is not a node.
#[verifier::external_body]
pub(crate) fn graph_node_weight(graph: &FullPlanGraph, a: usize) -> (r: PlanNodeWeight)
    requires
        plan_graph_nodes(*graph).dom().contains(a),
    ensures
        r == plan_graph_nodes(*graph)[a],
{
    graph[NodeIndex::new(a)]
}

/// The node indices, with `StableGraph::node_indices`, which lists them in
/// increasing order.
#[verifier::external_body]
pub(crate) fn graph_node_indices(graph: &FullPlanGraph) -> (r: Vec<usize>)
    ensures
        r@.to_set() == plan_graph_nodes(*graph).dom(),
        forall|i: int, j: int| 0 <= i < j < r@.len() ==> r@[i] < r@[j],
{
    graph.node_indices().map(|n| n.index()).collect()
}

/// The nodes at the other end of the edges at one end of `a`, with
/// `StableGraph::neighbors_directed`: one entry per edge, in the order of
/// the graph's edge list, which the maps above do not describe.
#[verifier::external_body]
pub(crate) fn graph_neighbors_directed(graph: &FullPlanGraph, a: usize, side: Side) -> (r: Vec<usize>)
    requires
        a < u32::MAX,
    ensures
        neighbor_list(r@, plan_graph_edges(*graph), a, side),
{
    let direction = match side {
        Side::Incoming => petgraph::Direction::Incoming,
        Side::Outgoing => petgraph::Direction::Outgoing,
    };
    graph.neighbors_directed(NodeIndex::new(a), direction).map(|n| n.index()).collect()
}

/// The nodes at the other end of every edge that touches `a`, with
/// `StableGraph::neighbors_undirected`: one entry per edge, a loop on `a`
/// counted once.
#[verifier::external_body]
pub(crate) fn graph_neighbors_undirected(graph: &FullPlanGraph, a: usize) -> (r: Vec<usize>)
    requires
        a < u32::MAX,
    ensures
        r@.len() == touching_edges(plan_graph_edges(*graph), a).len(),
{
    graph.neighbors_undirected(NodeIndex::new(a)).map(|n| n.index()).collect()
}

/// The edges at one end of `a`, with `StableGraph::edges_directed`: for a
/// directed graph each edge that ends at `a` (incoming) or starts at `a`
/// (outgoing) once, as its index and its weight, in the order of the
/// graph's edge lists, which the maps above do not describe.
#[verifier::external_body]
pub(crate) fn graph_edges_directed(graph: &FullPlanGraph, a: usize, side: Side) -> (r: Vec<(usize, ItemId)>)
    requires
        a < u32::MAX,
    ensures
        edge_list(r@, plan_graph_edges(*graph), a, side),
{
    let direction = match side {
        Side::Incoming => petgraph::Direction::Incoming,
        Side::Outgoing => petgraph::Direction::Outgoing,
    };
    graph.edges_directed(NodeIndex::new(a), direction).map(|e| (e.id().index(), *e.weight())).collect()
}

} // verus!
