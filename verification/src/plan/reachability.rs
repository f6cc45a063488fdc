//! Whether one node of the full plan graph can be reached from another by
//! following edges in one direction.
use vstd::prelude::*;

use super::full_plan_graph::{lemma_unlisted_strict, listed, unlisted};
use super::plan_graph::{
    consistent, graph_neighbors_directed, neighbor_list, other_end, plan_graph_edges,
    plan_graph_nodes, side_edges, FullPlanGraph, Side,
};
use crate::game::ItemId;

verus! {

/// Whether one edge leads from `a` to `b`: along an outgoing edge from its
/// source to its target, along an incoming edge from its target to its
/// source.
pub open spec fn step(edges: Map<usize, (usize, usize, ItemId)>, a: usize, b: usize, side: Side) -> bool {
    exists|e: usize| #[trigger] side_edges(edges, a, side).contains(e) && other_end(edges, e, side) == b
}

/// Whether each node of `p` leads to the next by one edge.
pub open spec fn is_path(edges: Map<usize, (usize, usize, ItemId)>, p: Seq<usize>, side: Side) -> bool {
    forall|i: int| 0 <= i < p.len() - 1 ==> #[trigger] step(edges, p[i], p[i + 1], side)
}

/// Whether some path leads from `s` to `t`; every node reaches itself.
pub open spec fn reachable(edges: Map<usize, (usize, usize, ItemId)>, s: usize, t: usize, side: Side) -> bool {
    exists|p: Seq<usize>| p.len() >= 1 && p[0] == s && p.last() == t && #[trigger] is_path(edges, p, side)
}

/// The nodes that a list of neighbours holds are exactly those one edge
/// leads to.
proof fn lemma_neighbors(list: Seq<usize>, edges: Map<usize, (usize, usize, ItemId)>, a: usize, side: Side)
    requires
        neighbor_list(list, edges, a, side),
    ensures
        forall|b: usize| #[trigger] step(edges, a, b, side) <==> list.contains(b),
{
    let es = choose|es: Seq<usize>|
        {
            &&& es.no_duplicates()
            &&& es.to_set() == side_edges(edges, a, side)
            &&& es.len() == list.len()
            &&& forall|i: int| 0 <= i < es.len() ==> list[i] == other_end(edges, es[i], side)
        };
    assert forall|b: usize| #[trigger] step(edges, a, b, side) <==> list.contains(b) by {
        if step(edges, a, b, side) {
            let e = choose|e: usize| #[trigger] side_edges(edges, a, side).contains(e) && other_end(edges, e, side) == b;
            assert(es.to_set().contains(e));
            let i = choose|i: int| 0 <= i < es.len() && es[i] == e;
            assert(list[i] == b);
        }
        if list.contains(b) {
            let i = choose|i: int| 0 <= i < list.len() && list[i] == b;
            assert(es.to_set().contains(es[i]));
        }
    }
}

/// One edge in front of a path makes a path.
proof fn lemma_path_prepend(edges: Map<usize, (usize, usize, ItemId)>, a: usize, s: usize, t: usize, side: Side)
    requires
        step(edges, a, s, side),
        reachable(edges, s, t, side),
    ensures
        reachable(edges, a, t, side),
{
    let p = choose|p: Seq<usize>| p.len() >= 1 && p[0] == s && p.last() == t && #[trigger] is_path(edges, p, side);
    let q = seq![a] + p;
    assert forall|i: int| 0 <= i < q.len() - 1 implies #[trigger] step(edges, q[i], q[i + 1], side) by {
        if i > 0 {
            assert(q[i] == p[i - 1] && q[i + 1] == p[i]);
            assert(step(edges, p[i - 1], p[(i - 1) + 1], side));
        }
    }
    assert(is_path(edges, q, side));
    assert(q.last() == t);
}

/// A set of nodes that holds `s` and every node one edge leads to from
/// each of its nodes holds every node of a path from `s`.
proof fn lemma_closed(edges: Map<usize, (usize, usize, ItemId)>, closed: Seq<usize>, p: Seq<usize>, side: Side)
    requires
        p.len() >= 1,
        closed.contains(p[0]),
        is_path(edges, p, side),
        forall|x: usize, y: usize| closed.contains(x) && #[trigger] step(edges, x, y, side) ==> closed.contains(y),
    ensures
        closed.contains(p.last()),
    decreases p.len(),
{
    if p.len() > 1 {
        let q = p.drop_last();
        assert forall|i: int| 0 <= i < q.len() - 1 implies #[trigger] step(edges, q[i], q[i + 1], side) by {
            assert(step(edges, p[i], p[i + 1], side));
        }
        lemma_closed(edges, closed, q, side);
        assert(step(edges, p[p.len() - 2], p[(p.len() - 2) + 1], side));
    }
}

/// Looks for `target` from `source`, skipping the nodes already visited.
/// When it is not found, every node this call visited differs from the
/// target, and leads by one edge only to visited nodes.
fn reach_from(graph: &FullPlanGraph, source: usize, target: usize, side: Side, visited: &mut Vec<usize>) -> (r: bool)
    requires
        consistent(*graph),
        source < u32::MAX,
    ensures
        r ==> reachable(plan_graph_edges(*graph), source, target, side),
        forall|x: usize| old(visited)@.contains(x) ==> final(visited)@.contains(x),
        !r ==> final(visited)@.contains(source),
        !r ==> forall|x: usize|
            final(visited)@.contains(x) && !old(visited)@.contains(x) ==> x != target && forall|y: usize|
                #[trigger] step(plan_graph_edges(*graph), x, y, side) ==> final(visited)@.contains(y),
    decreases unlisted(plan_graph_nodes(*graph), old(visited)@).len(),
{
    let ghost edges = plan_graph_edges(*graph);
    let ghost nodes = plan_graph_nodes(*graph);
    let ghost v0 = visited@;
    if source == target {
        proof {
            let p = seq![source];
            assert(is_path(edges, p, side));
        }
        return true;
    }
    if listed(visited, source) {
        return false;
    }
    visited.push(source);
    proof {
        assert forall|y: usize| v0.contains(y) implies visited@.contains(y) by {
            let k = choose|k: int| 0 <= k < v0.len() && v0[k] == y;
            assert(visited@[k] == y);
        }
        assert(visited@[v0.len() as int] == source);
    }
    let neighbors = graph_neighbors_directed(graph, source, side);
    proof {
        lemma_neighbors(neighbors@, edges, source, side);
    }
    let mut i: usize = 0;
    while i < neighbors.len()
        invariant
            consistent(*graph),
            edges == plan_graph_edges(*graph),
            nodes == plan_graph_nodes(*graph),
            v0 == old(visited)@,
            !v0.contains(source),
            source != target,
            visited@.contains(source),
            forall|y: usize| v0.contains(y) ==> visited@.contains(y),
            forall|b: usize| #[trigger] step(edges, source, b, side) <==> neighbors@.contains(b),
            neighbor_list(neighbors@, edges, source, side),
            i <= neighbors@.len(),
            forall|j: int| 0 <= j < i ==> visited@.contains(#[trigger] neighbors@[j]),
            forall|x: usize|
                visited@.contains(x) && !v0.contains(x) && x != source ==> x != target && forall|y: usize|
                    #[trigger] step(edges, x, y, side) ==> visited@.contains(y),
        decreases neighbors.len() - i,
    {
        let n = neighbors[i];
        let ghost before = visited@;
        proof {
            assert(step(edges, source, n, side));
            let e = choose|e: usize| #[trigger] side_edges(edges, source, side).contains(e) && other_end(edges, e, side) == n;
            assert(edges.dom().contains(e));
            assert(nodes.dom().contains(n));
            assert(nodes.dom().contains(source));
            lemma_unlisted_strict(nodes, v0, nodes, before, source);
        }
        if reach_from(graph, n, target, side, visited) {
            proof {
                lemma_path_prepend(edges, source, n, target, side);
            }
            return true;
        }
        proof {
            assert forall|x: usize|
                visited@.contains(x) && !v0.contains(x) && x != source implies x != target && forall|y: usize|
                    #[trigger] step(edges, x, y, side) ==> visited@.contains(y) by {
                if before.contains(x) {
                    assert forall|y: usize| #[trigger] step(edges, x, y, side) implies visited@.contains(y) by {
                        assert(before.contains(y));
                    }
                }
            }
            assert forall|j: int| 0 <= j < i + 1 implies visited@.contains(#[trigger] neighbors@[j]) by {
                if j < i {
                    assert(before.contains(neighbors@[j]));
                }
            }
        }
        i = i + 1;
    }
    proof {
        assert forall|y: usize| #[trigger] step(edges, source, y, side) implies visited@.contains(y) by {
            let j = choose|j: int| 0 <= j < neighbors@.len() && neighbors@[j] == y;
        }
    }
    false
}

/// Whether `target` can be reached from `source` by following edges in
/// the direction `side` names.
pub fn is_reachable(graph: &FullPlanGraph, source: usize, target: usize, side: Side) -> (r: bool)
    requires
        consistent(*graph),
        source < u32::MAX,
    ensures
        r == reachable(plan_graph_edges(*graph), source, target, side),
{
    let mut visited: Vec<usize> = Vec::new();
    let r = reach_from(graph, source, target, side, &mut visited);
    proof {
        let edges = plan_graph_edges(*graph);
        if !r && reachable(edges, source, target, side) {
            let p = choose|p: Seq<usize>| p.len() >= 1 && p[0] == source && p.last() == target && #[trigger] is_path(edges, p, side);
            lemma_closed(edges, visited@, p, side);
            assert(visited@.contains(target));
        }
    }
    r
}

} // verus!
