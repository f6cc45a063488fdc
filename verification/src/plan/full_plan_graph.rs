use vstd::prelude::*;

use super::config::{
    database_refs_valid, keys_distinct, lemma_offering_recipes, offering_recipes, pairs_map,
    PlanConfig,
};
use super::plan_graph::{
    edges_without, graph_add_edge, graph_add_node, graph_consistent, graph_contains_node,
    graph_neighbors_directed, graph_neighbors_undirected, graph_new, graph_node_indices,
    graph_node_weight, graph_remove_node, graph_update_edge, neighbor_list, other_end,
    plan_graph_edges, plan_graph_nodes, side_edges, touching_edges, FullPlanGraph, Side,
};
use super::PlanError;
use crate::game::database::building_produces;
use crate::game::{Building, BuildingId, GameDatabase, ItemId, Recipe, RecipeId};

verus! {

/// A node of the full plan graph.
#[derive(Debug, Copy, Clone, PartialEq, Eq, Structural)]
pub enum PlanNodeWeight {
    Input(ItemId),
    Output(ItemId),
    ByProduct(ItemId),
    Production(RecipeId),
    Producer(BuildingId),
}

impl PlanNodeWeight {
    pub fn new_input(item: ItemId) -> (r: Self)
        ensures
            r == PlanNodeWeight::Input(item),
    {
        Self::Input(item)
    }

    pub fn new_output(item: ItemId) -> (r: Self)
        ensures
            r == PlanNodeWeight::Output(item),
    {
        Self::Output(item)
    }

    pub fn new_by_product(item: ItemId) -> (r: Self)
        ensures
            r == PlanNodeWeight::ByProduct(item),
    {
        Self::ByProduct(item)
    }

    pub fn new_production(recipe: RecipeId) -> (r: Self)
        ensures
            r == PlanNodeWeight::Production(recipe),
    {
        Self::Production(recipe)
    }

    pub fn new_producer(building: BuildingId) -> (r: Self)
        ensures
            r == PlanNodeWeight::Producer(building),
    {
        Self::Producer(building)
    }

    pub fn is_input_for_item(&self, item: ItemId) -> (r: bool)
        ensures
            r == (*self == PlanNodeWeight::Input(item)),
    {
        matches!(self, Self::Input(i) if *i == item)
    }

    pub fn is_output_for_item(&self, item: ItemId) -> (r: bool)
        ensures
            r == (*self == PlanNodeWeight::Output(item)),
    {
        matches!(self, Self::Output(i) if *i == item)
    }

    pub fn is_by_product_for_item(&self, item: ItemId) -> (r: bool)
        ensures
            r == (*self == PlanNodeWeight::ByProduct(item)),
    {
        matches!(self, Self::ByProduct(i) if *i == item)
    }

    pub fn is_producer_for_building(&self, building: BuildingId) -> (r: bool)
        ensures
            r == (*self == PlanNodeWeight::Producer(building)),
    {
        matches!(self, Self::Producer(b) if *b == building)
    }

    pub fn is_production_for_recipe(&self, recipe: RecipeId) -> (r: bool)
        ensures
            r == (*self == PlanNodeWeight::Production(recipe)),
    {
        matches!(self, Self::Production(r) if *r == recipe)
    }
}


/// Whether a node weight refers to existing entries of the request: items
/// and buildings of the database, an enabled recipe, a requested output;
/// an input node is for a resource or for an item given in a positive
/// amount.
pub open spec fn weight_valid<A>(cfg: PlanConfig<A>, w: PlanNodeWeight) -> bool {
    match w {
        PlanNodeWeight::Input(i) => i < cfg.game_db.items@.len() && (
        cfg.game_db.items@[i as int].resource || cfg.spec_has_input(i)),
        PlanNodeWeight::Output(i) => i < cfg.game_db.items@.len() && pairs_map(
            cfg.outputs@,
        ).dom().contains(i),
        PlanNodeWeight::ByProduct(i) => i < cfg.game_db.items@.len(),
        PlanNodeWeight::Production(r) => cfg.enabled_recipes@.contains(r),
        PlanNodeWeight::Producer(b) => b < cfg.game_db.buildings@.len()
            && cfg.game_db.buildings@[b as int] is ItemProducer,
    }
}

/// Whether a node can hand out `item`: an input or a by-product of that
/// item, a production whose recipe makes it, a producer that makes it.
pub open spec fn provides<A>(cfg: PlanConfig<A>, w: PlanNodeWeight, item: ItemId) -> bool {
    match w {
        PlanNodeWeight::Input(i) => i == item,
        PlanNodeWeight::Output(_) => false,
        PlanNodeWeight::ByProduct(i) => i == item,
        PlanNodeWeight::Production(r) => r < cfg.game_db.recipes@.len()
            && cfg.game_db.recipes@[r as int].produces(item),
        PlanNodeWeight::Producer(b) => b < cfg.game_db.buildings@.len() && building_produces(
            cfg.game_db.buildings@[b as int],
            item,
        ),
    }
}

/// Whether a node can take in `item`: an output or a by-product of that
/// item, a production whose recipe consumes it.
pub open spec fn accepts<A>(cfg: PlanConfig<A>, w: PlanNodeWeight, item: ItemId) -> bool {
    match w {
        PlanNodeWeight::Output(i) => i == item,
        PlanNodeWeight::ByProduct(i) => i == item,
        PlanNodeWeight::Production(r) => r < cfg.game_db.recipes@.len()
            && cfg.game_db.recipes@[r as int].consumes(item),
        _ => false,
    }
}

/// The invariant of the full plan graph:
/// - it is a consistent graph;
/// - no two nodes have the same weight: one input node per item, one
///   output node per item, one by-product node per item, one production
///   node per recipe, one producer node per building;
/// - every node weight refers to existing entries of the request;
/// - every edge carries an item that its source hands out and its target
///   takes in, and no production feeds an output directly.
pub open spec fn plan_graph_wf<A>(
    cfg: PlanConfig<A>,
    nodes: Map<usize, PlanNodeWeight>,
    edges: Map<usize, (usize, usize, ItemId)>,
) -> bool {
    &&& graph_consistent(nodes, edges)
    &&& forall|n: usize, m: usize|
        #![trigger nodes[n], nodes[m]]
        nodes.dom().contains(n) && nodes.dom().contains(m) && n != m ==> nodes[n] != nodes[m]
    &&& forall|n: usize| nodes.dom().contains(n) ==> weight_valid(cfg, #[trigger] nodes[n])
    &&& forall|e: usize|
        #![trigger edges[e]]
        edges.dom().contains(e) ==> {
            &&& provides(cfg, nodes[edges[e].0], edges[e].2)
            &&& accepts(cfg, nodes[edges[e].1], edges[e].2)
            &&& nodes[edges[e].1] is Output ==> !(nodes[edges[e].0] is Production)
        }
}

/// The invariant of the full plan graph, on the graph itself.
pub open spec fn graph_wf<A>(cfg: PlanConfig<A>, graph: FullPlanGraph) -> bool {
    plan_graph_wf(cfg, plan_graph_nodes(graph), plan_graph_edges(graph))
}

/// Whether the graph grew: every node and edge is still there, unchanged,
/// and no output node was added.
pub open spec fn grows(before: FullPlanGraph, after: FullPlanGraph) -> bool {
    &&& plan_graph_nodes(before).submap_of(plan_graph_nodes(after))
    &&& plan_graph_edges(before).submap_of(plan_graph_edges(after))
    &&& forall|n: usize|
        plan_graph_nodes(after).dom().contains(n) && !plan_graph_nodes(before).dom().contains(n)
            ==> !(#[trigger] plan_graph_nodes(after)[n] is Output)
}

/// The number of nodes and edges.
pub open spec fn graph_size(graph: FullPlanGraph) -> nat {
    plan_graph_nodes(graph).dom().len() + plan_graph_edges(graph).dom().len()
}

/// The recipes that have a production node.
pub open spec fn produced(nodes: Map<usize, PlanNodeWeight>) -> Set<RecipeId> {
    Set::new(
        |r: RecipeId|
            exists|n: usize| nodes.dom().contains(n) && nodes[n] == PlanNodeWeight::Production(r),
    )
}

/// The number of recipes of the database without a production node.
pub open spec fn unproduced<A>(cfg: PlanConfig<A>, graph: FullPlanGraph) -> nat {
    let made = produced(plan_graph_nodes(graph)).len();
    if made <= cfg.game_db.recipes@.len() {
        (cfg.game_db.recipes@.len() - made) as nat
    } else {
        0
    }
}

/// The largest number of inputs of a recipe.
pub open spec fn max_inputs<A>(recipes: Seq<Recipe<A>>) -> nat
    decreases recipes.len(),
{
    if recipes.len() == 0 {
        0
    } else {
        let rest = max_inputs(recipes.drop_last());
        if recipes.last().inputs@.len() > rest {
            recipes.last().inputs@.len()
        } else {
            rest
        }
    }
}

/// The largest number of outputs of a recipe.
pub open spec fn max_outputs<A>(recipes: Seq<Recipe<A>>) -> nat
    decreases recipes.len(),
{
    if recipes.len() == 0 {
        0
    } else {
        let rest = max_outputs(recipes.drop_last());
        if recipes.last().outputs@.len() > rest {
            recipes.last().outputs@.len()
        } else {
            rest
        }
    }
}

/// An upper bound on the nodes and edges that one request for an item
/// adds, apart from the productions it creates.
pub open spec fn step_cost<A>(cfg: PlanConfig<A>) -> nat {
    2 * cfg.game_db.buildings@.len() + 4
}

/// An upper bound on the nodes and edges that creating one production
/// adds, the requests for its inputs included.
pub open spec fn recipe_cost<A>(cfg: PlanConfig<A>) -> nat {
    2 + 2 * max_outputs(cfg.game_db.recipes@) + max_inputs(cfg.game_db.recipes@) * step_cost(cfg)
}

/// The size of the graph plus what the productions not yet created may add.
pub open spec fn budget<A>(cfg: PlanConfig<A>, graph: FullPlanGraph) -> nat {
    graph_size(graph) + recipe_cost(cfg) * unproduced(cfg, graph)
}

/// An upper bound on the nodes and edges of the full plan graph of a
/// request: one output node and one item request per output, and one
/// creation per recipe.
pub open spec fn plan_capacity<A>(cfg: PlanConfig<A>) -> nat {
    recipe_cost(cfg) * cfg.game_db.recipes@.len() + cfg.outputs@.len() * (1 + step_cost(cfg))
}

proof fn lemma_max_inputs<A>(recipes: Seq<Recipe<A>>, r: int)
    requires
        0 <= r < recipes.len(),
    ensures
        recipes[r].inputs@.len() <= max_inputs(recipes),
        recipes[r].outputs@.len() <= max_outputs(recipes),
    decreases recipes.len(),
{
    if r < recipes.len() - 1 {
        lemma_max_inputs(recipes.drop_last(), r);
    }
}

proof fn lemma_mul_step(k: nat, c: nat)
    ensures
        (k + 1) * c == k * c + c,
{
    assert((k + 1) * c == k * c + c) by (nonlinear_arith);
}

proof fn lemma_mul_le(a: nat, b: nat, c: nat)
    requires
        a <= b,
    ensures
        a * c <= b * c,
        c * a <= c * b,
{
    assert(a * c <= b * c) by (nonlinear_arith)
        requires
            a <= b,
    ;
    assert(c * a <= c * b) by (nonlinear_arith)
        requires
            a <= b,
    ;
}

/// The recipes with a production node are enabled recipes, so there are
/// finitely many and no more than the database has.
proof fn lemma_produced_bound<A>(
    cfg: PlanConfig<A>,
    nodes: Map<usize, PlanNodeWeight>,
    edges: Map<usize, (usize, usize, ItemId)>,
)
    requires
        cfg.wf(),
        plan_graph_wf(cfg, nodes, edges),
    ensures
        produced(nodes).finite(),
        produced(nodes).len() <= cfg.game_db.recipes@.len(),
        produced(nodes).subset_of(Set::<usize>::range(0, cfg.game_db.recipes.len())),
{
    let range = Set::<usize>::range(0, cfg.game_db.recipes.len());
    assert forall|r: RecipeId| produced(nodes).contains(r) implies range.contains(r) by {
        let n = choose|n: usize| nodes.dom().contains(n) && nodes[n] == PlanNodeWeight::Production(r);
        assert(weight_valid(cfg, nodes[n]));
        let k = choose|k: int| 0 <= k < cfg.enabled_recipes@.len() && cfg.enabled_recipes@[k] == r;
        assert(cfg.enabled_recipes@[k] < cfg.game_db.recipes@.len());
    }
    vstd::set_lib::range_set_properties::<usize>(0, cfg.game_db.recipes.len());
    vstd::set_lib::lemma_len_subset(produced(nodes), range);
}

/// What a submap says of one of its keys.
proof fn lemma_submap_at<K, V>(a: Map<K, V>, b: Map<K, V>, k: K)
    requires
        a.submap_of(b),
        a.dom().contains(k),
    ensures
        b.dom().contains(k),
        a[k] == b[k],
{
    assert(a.dom().contains(k) ==> b.dom().contains(k) && a[k] == b[k]);
}

/// A graph that grew has no fewer productions.
proof fn lemma_unproduced_grows<A>(cfg: PlanConfig<A>, before: FullPlanGraph, after: FullPlanGraph)
    requires
        cfg.wf(),
        graph_wf(cfg, before),
        graph_wf(cfg, after),
        plan_graph_nodes(before).submap_of(plan_graph_nodes(after)),
    ensures
        unproduced(cfg, after) <= unproduced(cfg, before),
{
    lemma_produced_bound(cfg, plan_graph_nodes(before), plan_graph_edges(before));
    lemma_produced_bound(cfg, plan_graph_nodes(after), plan_graph_edges(after));
    let a = plan_graph_nodes(before);
    let b = plan_graph_nodes(after);
    assert forall|r: RecipeId| produced(a).contains(r) implies produced(b).contains(r) by {
        let n = choose|n: usize| a.dom().contains(n) && a[n] == PlanNodeWeight::Production(r);
        lemma_submap_at(a, b, n);
    }
    vstd::set_lib::lemma_len_subset(produced(a), produced(b));
}

/// Adding a node that is not a production keeps the produced recipes.
proof fn lemma_produced_insert_other(nodes: Map<usize, PlanNodeWeight>, n: usize, w: PlanNodeWeight)
    requires
        !nodes.dom().contains(n),
        !(w is Production),
    ensures
        produced(nodes.insert(n, w)) == produced(nodes),
{
    let a = produced(nodes);
    let b = produced(nodes.insert(n, w));
    assert forall|r: RecipeId| b.contains(r) implies a.contains(r) by {
        let m = choose|m: usize|
            nodes.insert(n, w).dom().contains(m) && nodes.insert(n, w)[m] == PlanNodeWeight::Production(
                r,
            );
        assert(m != n);
        assert(nodes.dom().contains(m) && nodes[m] == PlanNodeWeight::Production(r));
    }
    assert forall|r: RecipeId| a.contains(r) implies b.contains(r) by {
        let m = choose|m: usize| nodes.dom().contains(m) && nodes[m] == PlanNodeWeight::Production(r);
        assert(nodes.insert(n, w).dom().contains(m) && nodes.insert(n, w)[m] == PlanNodeWeight::Production(r));
    }
    assert(a =~= b);
}

/// Adding the production node of a recipe that had none adds the recipe.
proof fn lemma_produced_insert_production(nodes: Map<usize, PlanNodeWeight>, n: usize, r: RecipeId)
    requires
        !nodes.dom().contains(n),
        !produced(nodes).contains(r),
    ensures
        produced(nodes.insert(n, PlanNodeWeight::Production(r))) == produced(nodes).insert(r),
{
    let w = PlanNodeWeight::Production(r);
    let a = produced(nodes).insert(r);
    let b = produced(nodes.insert(n, w));
    assert forall|q: RecipeId| b.contains(q) implies a.contains(q) by {
        let m = choose|m: usize|
            nodes.insert(n, w).dom().contains(m) && nodes.insert(n, w)[m] == PlanNodeWeight::Production(
                q,
            );
        if m != n {
            assert(nodes.dom().contains(m) && nodes[m] == PlanNodeWeight::Production(q));
        }
    }
    assert forall|q: RecipeId| a.contains(q) implies b.contains(q) by {
        if q == r {
            assert(nodes.insert(n, w).dom().contains(n) && nodes.insert(n, w)[n] == PlanNodeWeight::Production(q));
        } else {
            let m = choose|m: usize| nodes.dom().contains(m) && nodes[m] == PlanNodeWeight::Production(q);
            assert(nodes.insert(n, w).dom().contains(m) && nodes.insert(n, w)[m] == PlanNodeWeight::Production(q));
        }
    }
    assert(a =~= b);
}

/// Adding a node whose weight is valid and new keeps the invariant.
proof fn lemma_wf_add_node<A>(cfg: PlanConfig<A>, before: FullPlanGraph, after: FullPlanGraph, n: usize, w: PlanNodeWeight)
    requires
        graph_wf(cfg, before),
        graph_consistent(plan_graph_nodes(after), plan_graph_edges(after)),
        !plan_graph_nodes(before).dom().contains(n),
        plan_graph_nodes(after) == plan_graph_nodes(before).insert(n, w),
        plan_graph_edges(after) == plan_graph_edges(before),
        weight_valid(cfg, w),
        forall|m: usize| plan_graph_nodes(before).dom().contains(m) ==> plan_graph_nodes(before)[m] != w,
    ensures
        graph_wf(cfg, after),
        plan_graph_nodes(before).submap_of(plan_graph_nodes(after)),
        plan_graph_edges(before).submap_of(plan_graph_edges(after)),
        graph_size(after) == graph_size(before) + 1,
{
    let a = plan_graph_nodes(before);
    let b = plan_graph_nodes(after);
    let e = plan_graph_edges(after);
    assert forall|x: usize| #![trigger e[x]] e.dom().contains(x) implies {
        &&& provides(cfg, b[e[x].0], e[x].2)
        &&& accepts(cfg, b[e[x].1], e[x].2)
        &&& b[e[x].1] is Output ==> !(b[e[x].0] is Production)
    } by {
        assert(a.dom().contains(e[x].0) && a.dom().contains(e[x].1));
    }
    assert(b.dom() =~= a.dom().insert(n));
}

/// Adding an edge whose item its source hands out and its target takes in
/// keeps the invariant.
proof fn lemma_wf_set_edge<A>(
    cfg: PlanConfig<A>,
    before: FullPlanGraph,
    after: FullPlanGraph,
    x: usize,
    a: usize,
    b: usize,
    item: ItemId,
)
    requires
        graph_wf(cfg, before),
        graph_consistent(plan_graph_nodes(after), plan_graph_edges(after)),
        plan_graph_nodes(after) == plan_graph_nodes(before),
        plan_graph_edges(after) == plan_graph_edges(before).insert(x, (a, b, item)),
        plan_graph_nodes(before).dom().contains(a),
        plan_graph_nodes(before).dom().contains(b),
        provides(cfg, plan_graph_nodes(before)[a], item),
        accepts(cfg, plan_graph_nodes(before)[b], item),
        plan_graph_nodes(before)[b] is Output ==> !(plan_graph_nodes(before)[a] is Production),
    ensures
        graph_wf(cfg, after),
        graph_size(after) <= graph_size(before) + 1,
        !plan_graph_edges(before).dom().contains(x) ==> graph_size(after) == graph_size(before) + 1,
{
    let e = plan_graph_edges(before);
    if e.dom().contains(x) {
        assert(e.insert(x, (a, b, item)).dom() =~= e.dom());
    } else {
        assert(e.insert(x, (a, b, item)).dom() =~= e.dom().insert(x));
    }
}

/// Finds the node with the given weight; the invariant makes it unique.
fn find_node<A>(config: &PlanConfig<A>, graph: &FullPlanGraph, target: PlanNodeWeight) -> (r: Option<usize>)
    requires
        graph_wf(*config, *graph),
    ensures
        match r {
            Some(n) => plan_graph_nodes(*graph).dom().contains(n) && plan_graph_nodes(*graph)[n] == target,
            None => forall|n: usize|
                plan_graph_nodes(*graph).dom().contains(n) ==> plan_graph_nodes(*graph)[n] != target,
        },
{
    let indices = graph_node_indices(graph);
    let mut i: usize = 0;
    while i < indices.len()
        invariant
            indices@.to_set() == plan_graph_nodes(*graph).dom(),
            i <= indices@.len(),
            forall|j: int| 0 <= j < i ==> plan_graph_nodes(*graph)[indices@[j]] != target,
        decreases indices.len() - i,
    {
        let n = indices[i];
        proof {
            assert(indices@.to_set().contains(n));
        }
        if graph_node_weight(graph, n) == target {
            return Some(n);
        }
        i = i + 1;
    }
    proof {
        assert forall|n: usize| plan_graph_nodes(*graph).dom().contains(n) implies plan_graph_nodes(
            *graph,
        )[n] != target by {
            assert(indices@.to_set().contains(n));
            let j = choose|j: int| 0 <= j < indices@.len() && indices@[j] == n;
        }
    }
    None
}

/// Finds the node with the given weight, adding it when there is none.
fn find_or_add_node<A>(config: &PlanConfig<A>, graph: &mut FullPlanGraph, w: PlanNodeWeight) -> (r: usize)
    requires
        graph_wf(*config, *old(graph)),
        weight_valid(*config, w),
        !(w is Production),
        !(w is Output),
        graph_size(*old(graph)) < u32::MAX,
    ensures
        graph_wf(*config, *final(graph)),
        grows(*old(graph), *final(graph)),
        plan_graph_nodes(*final(graph)).dom().contains(r),
        plan_graph_nodes(*final(graph))[r] == w,
        graph_size(*final(graph)) <= graph_size(*old(graph)) + 1,
        produced(plan_graph_nodes(*final(graph))) == produced(plan_graph_nodes(*old(graph))),
        plan_graph_edges(*final(graph)) == plan_graph_edges(*old(graph)),
        new_productions_complete(*config, *old(graph), *final(graph)),
        forall|n: usize|
            #[trigger] plan_graph_nodes(*final(graph)).dom().contains(n) && !plan_graph_nodes(*old(graph)).dom().contains(n)
                ==> n == r,
{
    match find_node(config, graph, w) {
        Some(n) => {
            proof {
                assert(plan_graph_nodes(*graph).submap_of(plan_graph_nodes(*graph)));
            }
            n
        },
        None => {
            let ghost before = *graph;
            let n = graph_add_node(graph, w);
            proof {
                lemma_wf_add_node(*config, before, *graph, n, w);
                lemma_produced_insert_other(plan_graph_nodes(before), n, w);
            }
            n
        },
    }
}


/// Growing is transitive.
proof fn lemma_grows_trans(a: FullPlanGraph, b: FullPlanGraph, c: FullPlanGraph)
    requires
        grows(a, b),
        grows(b, c),
    ensures
        grows(a, c),
{
    let (na, nb, nc) = (plan_graph_nodes(a), plan_graph_nodes(b), plan_graph_nodes(c));
    let (ea, eb, ec) = (plan_graph_edges(a), plan_graph_edges(b), plan_graph_edges(c));
    assert forall|k: usize| #[trigger] na.dom().contains(k) implies nc.dom().contains(k) && na[k]
        == nc[k] by {
        lemma_submap_at(na, nb, k);
        lemma_submap_at(nb, nc, k);
    }
    assert forall|k: usize| #[trigger] ea.dom().contains(k) implies ec.dom().contains(k) && ea[k]
        == ec[k] by {
        lemma_submap_at(ea, eb, k);
        lemma_submap_at(eb, ec, k);
    }
    assert forall|n: usize|
        nc.dom().contains(n) && !na.dom().contains(n) implies !(#[trigger] nc[n] is Output) by {
        if nb.dom().contains(n) {
            lemma_submap_at(nb, nc, n);
        }
    }
}

/// Adding an edge or giving an edge its own value again grows the graph.
proof fn lemma_grows_set_edge(a: FullPlanGraph, b: FullPlanGraph, e: usize, v: (usize, usize, ItemId))
    requires
        plan_graph_nodes(b) == plan_graph_nodes(a),
        plan_graph_edges(b) == plan_graph_edges(a).insert(e, v),
        plan_graph_edges(a).dom().contains(e) ==> plan_graph_edges(a)[e] == v,
    ensures
        grows(a, b),
{
    let (ea, eb) = (plan_graph_edges(a), plan_graph_edges(b));
    assert forall|k: usize| #[trigger] ea.dom().contains(k) implies eb.dom().contains(k) && ea[k]
        == eb[k] by {}
}

/// Whether some edge carries `item` from node `a` to node `b`.
pub open spec fn has_edge(graph: FullPlanGraph, a: usize, b: usize, item: ItemId) -> bool {
    exists|e: usize|
        #[trigger] plan_graph_edges(graph).dom().contains(e) && plan_graph_edges(graph)[e] == (a, b, item)
}

/// Whether the node of weight `from` hands `item` to the node `to`.
pub open spec fn linked(graph: FullPlanGraph, from: PlanNodeWeight, to: usize, item: ItemId) -> bool {
    exists|n: usize|
        #[trigger] plan_graph_nodes(graph).dom().contains(n) && plan_graph_nodes(graph)[n] == from
            && has_edge(graph, n, to, item)
}

/// Whether some node has weight `w`.
pub open spec fn has_node(graph: FullPlanGraph, w: PlanNodeWeight) -> bool {
    exists|n: usize| #[trigger] plan_graph_nodes(graph).dom().contains(n) && plan_graph_nodes(graph)[n] == w
}

/// What a graph that grew still has: its nodes, its edges and the links
/// between them.
proof fn lemma_links_grow(a: FullPlanGraph, b: FullPlanGraph)
    requires
        grows(a, b),
    ensures
        forall|x: usize, y: usize, item: ItemId| #[trigger] has_edge(a, x, y, item) ==> has_edge(b, x, y, item),
        forall|w: PlanNodeWeight, to: usize, item: ItemId| #[trigger] linked(a, w, to, item) ==> linked(b, w, to, item),
        forall|w: PlanNodeWeight| #[trigger] has_node(a, w) ==> has_node(b, w),
        forall|n: usize, item: ItemId| #[trigger] feeds_by_product(a, n, item) ==> feeds_by_product(b, n, item),
{
    let (na, nb) = (plan_graph_nodes(a), plan_graph_nodes(b));
    let (ea, eb) = (plan_graph_edges(a), plan_graph_edges(b));
    assert forall|x: usize, y: usize, item: ItemId| #[trigger] has_edge(a, x, y, item) implies has_edge(b, x, y, item) by {
        let e = choose|e: usize| ea.dom().contains(e) && ea[e] == (x, y, item);
        lemma_submap_at(ea, eb, e);
    }
    assert forall|w: PlanNodeWeight, to: usize, item: ItemId| #[trigger] linked(a, w, to, item) implies linked(b, w, to, item) by {
        let n = choose|n: usize| na.dom().contains(n) && na[n] == w && has_edge(a, n, to, item);
        lemma_submap_at(na, nb, n);
        let e = choose|e: usize| ea.dom().contains(e) && ea[e] == (n, to, item);
        lemma_submap_at(ea, eb, e);
        assert(has_edge(b, n, to, item));
    }
    assert forall|w: PlanNodeWeight| #[trigger] has_node(a, w) implies has_node(b, w) by {
        let n = choose|n: usize| na.dom().contains(n) && na[n] == w;
        lemma_submap_at(na, nb, n);
    }
    assert forall|n: usize, item: ItemId| #[trigger] feeds_by_product(a, n, item) implies feeds_by_product(b, n, item) by {
        let x = choose|x: usize|
            #[trigger] na.dom().contains(x) && na[x] == PlanNodeWeight::ByProduct(item) && has_edge(a, n, x, item);
        lemma_submap_at(na, nb, x);
        let e = choose|e: usize| ea.dom().contains(e) && ea[e] == (n, x, item);
        lemma_submap_at(ea, eb, e);
        assert(has_edge(b, n, x, item));
    }
}

/// Whether node `n` hands `item` to the by-product node of `item`.
pub open spec fn feeds_by_product(graph: FullPlanGraph, n: usize, item: ItemId) -> bool {
    exists|b: usize|
        #[trigger] plan_graph_nodes(graph).dom().contains(b) && plan_graph_nodes(graph)[b]
            == PlanNodeWeight::ByProduct(item) && has_edge(graph, n, b, item)
}

/// Whether node `n`, when it is a production node, hands every output of
/// its recipe to the by-product node of that output.
pub open spec fn feeds_all_outputs<A>(cfg: PlanConfig<A>, graph: FullPlanGraph, n: usize) -> bool {
    plan_graph_nodes(graph)[n] matches PlanNodeWeight::Production(r) ==> forall|j: int|
        0 <= j < cfg.game_db.recipes@[r as int].outputs@.len() ==> feeds_by_product(
            graph,
            n,
            #[trigger] cfg.game_db.recipes@[r as int].outputs@[j].item,
        )
}

/// Whether every node of `after` that `before` lacks, when it is a
/// production node, hands every output of its recipe to its by-product
/// node.
pub open spec fn new_productions_complete<A>(cfg: PlanConfig<A>, before: FullPlanGraph, after: FullPlanGraph) -> bool {
    forall|n: usize|
        #[trigger] plan_graph_nodes(after).dom().contains(n) && !plan_graph_nodes(before).dom().contains(n)
            ==> feeds_all_outputs(cfg, after, n)
}

/// What a node feeds it still feeds once the graph grew.
proof fn lemma_feeds_grow<A>(cfg: PlanConfig<A>, b: FullPlanGraph, c: FullPlanGraph, n: usize)
    requires
        grows(b, c),
        plan_graph_nodes(b).dom().contains(n),
        feeds_all_outputs(cfg, b, n),
    ensures
        feeds_all_outputs(cfg, c, n),
{
    lemma_submap_at(plan_graph_nodes(b), plan_graph_nodes(c), n);
    lemma_links_grow(b, c);
    if plan_graph_nodes(b)[n] is Production {
        let r = plan_graph_nodes(b)[n]->Production_0;
        assert forall|j: int| 0 <= j < cfg.game_db.recipes@[r as int].outputs@.len() implies feeds_by_product(
            c,
            n,
            #[trigger] cfg.game_db.recipes@[r as int].outputs@[j].item,
        ) by {
            let item = cfg.game_db.recipes@[r as int].outputs@[j].item;
            assert(feeds_by_product(b, n, item));
            let x = choose|x: usize|
                #[trigger] plan_graph_nodes(b).dom().contains(x) && plan_graph_nodes(b)[x]
                    == PlanNodeWeight::ByProduct(item) && has_edge(b, n, x, item);
            lemma_submap_at(plan_graph_nodes(b), plan_graph_nodes(c), x);
            assert(has_edge(c, n, x, item));
        }
    }
}

/// Completeness of new productions composes along a growing graph.
proof fn lemma_complete_trans<A>(cfg: PlanConfig<A>, a: FullPlanGraph, b: FullPlanGraph, c: FullPlanGraph)
    requires
        grows(b, c),
        new_productions_complete(cfg, a, b),
        new_productions_complete(cfg, b, c),
    ensures
        new_productions_complete(cfg, a, c),
{
    assert forall|n: usize|
        #[trigger] plan_graph_nodes(c).dom().contains(n) && !plan_graph_nodes(a).dom().contains(n)
            implies feeds_all_outputs(cfg, c, n) by {
        if plan_graph_nodes(b).dom().contains(n) {
            lemma_feeds_grow(cfg, b, c, n);
        }
    }
}

/// A production node that a growing graph gained, in a graph where every
/// new production is complete, hands each item that its recipe offers to
/// the by-product node of that item.
proof fn lemma_new_production_linked<A>(
    cfg: PlanConfig<A>,
    g0: FullPlanGraph,
    g: FullPlanGraph,
    r: RecipeId,
    item: ItemId,
    b: usize,
)
    requires
        graph_wf(cfg, g),
        plan_graph_nodes(g0).submap_of(plan_graph_nodes(g)),
        new_productions_complete(cfg, g0, g),
        has_node(g, PlanNodeWeight::Production(r)),
        !has_node(g0, PlanNodeWeight::Production(r)),
        r < cfg.game_db.recipes@.len(),
        super::config::recipe_offers(*cfg.game_db, r, item),
        plan_graph_nodes(g).dom().contains(b),
        plan_graph_nodes(g)[b] == PlanNodeWeight::ByProduct(item),
    ensures
        linked(g, PlanNodeWeight::Production(r), b, item),
{
    let (n0, n1) = (plan_graph_nodes(g0), plan_graph_nodes(g));
    let n = choose|n: usize| #[trigger] n1.dom().contains(n) && n1[n] == PlanNodeWeight::Production(r);
    if n0.dom().contains(n) {
        lemma_submap_at(n0, n1, n);
        assert(has_node(g0, PlanNodeWeight::Production(r)));
    }
    assert(feeds_all_outputs(cfg, g, n));
    let outputs = cfg.game_db.recipes@[r as int].outputs@;
    if cfg.game_db.by_product_blacklist@.contains(item) {
        assert(outputs[0].item == item);
    }
    let j = choose|j: int| 0 <= j < outputs.len() && outputs[j].item == item;
    assert(feeds_by_product(g, n, outputs[j].item));
    let x = choose|x: usize|
        #[trigger] n1.dom().contains(x) && n1[x] == PlanNodeWeight::ByProduct(item) && has_edge(g, n, x, item);
    if x != b {
        assert(n1[x] != n1[b]);
    }
}

/// Whether every edge that `after` has and `before` lacks, when it ends at
/// an output node, ends at node `p`.
pub open spec fn new_output_edges_end_at(before: FullPlanGraph, after: FullPlanGraph, p: usize) -> bool {
    forall|e: usize|
        #[trigger] plan_graph_edges(after).dom().contains(e) && !plan_graph_edges(before).dom().contains(e)
            && plan_graph_nodes(after)[plan_graph_edges(after)[e].1] is Output
            ==> plan_graph_edges(after)[e].1 == p
}

/// New edges into output nodes compose along a growing graph, when the
/// second step adds none but at `p`, or none at all.
proof fn lemma_output_edges_trans<A>(
    cfg: PlanConfig<A>,
    a: FullPlanGraph,
    b: FullPlanGraph,
    c: FullPlanGraph,
    p: usize,
    q: usize,
)
    requires
        graph_wf(cfg, b),
        grows(a, b),
        grows(b, c),
        new_output_edges_end_at(a, b, p),
        new_output_edges_end_at(b, c, q),
        q == p || (plan_graph_nodes(c).dom().contains(q) && !(plan_graph_nodes(c)[q] is Output)),
    ensures
        new_output_edges_end_at(a, c, p),
{
    let (nb, nc) = (plan_graph_nodes(b), plan_graph_nodes(c));
    let (eb, ec) = (plan_graph_edges(b), plan_graph_edges(c));
    assert forall|e: usize|
        #[trigger] ec.dom().contains(e) && !plan_graph_edges(a).dom().contains(e) && nc[ec[e].1] is Output
            implies ec[e].1 == p by {
        if eb.dom().contains(e) {
            lemma_submap_at(eb, ec, e);
            assert(nb.dom().contains(eb[e].1));
            lemma_submap_at(nb, nc, eb[e].1);
        }
    }
}

/// Whether every edge that `after` has and `before` lacks, when it ends at
/// a production node that `before` has, ends at node `p`.
pub open spec fn new_production_edges_end_at(before: FullPlanGraph, after: FullPlanGraph, p: usize) -> bool {
    forall|e: usize|
        #[trigger] plan_graph_edges(after).dom().contains(e) && !plan_graph_edges(before).dom().contains(e)
            && plan_graph_nodes(before).dom().contains(plan_graph_edges(after)[e].1)
            && plan_graph_nodes(after)[plan_graph_edges(after)[e].1] is Production
            ==> plan_graph_edges(after)[e].1 == p
}

/// Whether every production node that `after` has and `before` lacks is
/// fed by as many edges as its recipe has inputs.
pub open spec fn new_productions_fed<A>(cfg: PlanConfig<A>, before: FullPlanGraph, after: FullPlanGraph) -> bool {
    forall|n: usize|
        #[trigger] plan_graph_nodes(after).dom().contains(n) && !plan_graph_nodes(before).dom().contains(n)
            ==> (plan_graph_nodes(after)[n] matches PlanNodeWeight::Production(r) ==> side_edges(
            plan_graph_edges(after),
            n,
            Side::Incoming,
        ).len() == cfg.game_db.recipes@[r as int].inputs@.len())
}

/// Whether the by-product node `n` is fed, or the first recipe that offers
/// its item has a production node (which, once complete, feeds it).
pub open spec fn by_product_backed<A>(cfg: PlanConfig<A>, graph: FullPlanGraph, n: usize) -> bool {
    plan_graph_nodes(graph)[n] matches PlanNodeWeight::ByProduct(i) ==> is_fed(graph, n) || (offering_recipes(
        *cfg.game_db,
        cfg.enabled_recipes@,
        i,
    ).len() > 0 && has_node(
        graph,
        PlanNodeWeight::Production(offering_recipes(*cfg.game_db, cfg.enabled_recipes@, i)[0]),
    ))
}

/// Whether every by-product node that feeds some node is backed.
pub open spec fn feeding_by_products_backed<A>(cfg: PlanConfig<A>, graph: FullPlanGraph) -> bool {
    forall|n: usize|
        #[trigger] plan_graph_nodes(graph).dom().contains(n) && feeds_some_node(graph, n) ==> by_product_backed(
            cfg,
            graph,
            n,
        )
}

/// Whether `item` has a supply the graph builder uses: it is a resource,
/// some enabled recipe offers it, or a positive amount of it is given.
pub open spec fn item_supplied<A>(cfg: PlanConfig<A>, item: ItemId) -> bool {
    ||| cfg.game_db.items@[item as int].resource
    ||| offering_recipes(*cfg.game_db, cfg.enabled_recipes@, item).len() > 0
    ||| cfg.spec_has_input(item)
}

/// Whether some enabled recipe offers `item` or a positive amount of it is
/// given.
pub open spec fn offered_or_given<A>(cfg: PlanConfig<A>, item: ItemId) -> bool {
    offering_recipes(*cfg.game_db, cfg.enabled_recipes@, item).len() > 0 || cfg.spec_has_input(item)
}

/// Whether the inputs of a recipe are different items, each supplied, and
/// each that is not a resource made by no building.
pub open spec fn recipe_inputs_supplied<A>(cfg: PlanConfig<A>, recipe: Recipe<A>) -> bool {
    &&& forall|a: int, b: int|
        0 <= a < b < recipe.inputs@.len() ==> recipe.inputs@[a].item != recipe.inputs@[b].item
    &&& forall|j: int|
        0 <= j < recipe.inputs@.len() ==> item_supplied(cfg, #[trigger] recipe.inputs@[j].item) && (
        cfg.game_db.items@[recipe.inputs@[j].item as int].resource || forall|b: int|
            0 <= b < cfg.game_db.buildings@.len() ==> !building_produces(
                #[trigger] cfg.game_db.buildings@[b],
                recipe.inputs@[j].item,
            ))
}

/// Whether a request is complete: some amount of every resource is
/// available, every output is supplied, and the inputs of every enabled
/// recipe are supplied as `recipe_inputs_supplied` says.
pub open spec fn request_complete<A>(cfg: PlanConfig<A>) -> bool {
    &&& forall|i: int|
        0 <= i < cfg.game_db.items@.len() && (#[trigger] cfg.game_db.items@[i]).resource ==> !cfg.input_is_zero(
            i as ItemId,
        )
    &&& forall|k: int| 0 <= k < cfg.outputs@.len() ==> item_supplied(cfg, #[trigger] cfg.outputs@[k].0)
    &&& forall|k: int|
        0 <= k < cfg.enabled_recipes@.len() ==> recipe_inputs_supplied(
            cfg,
            cfg.game_db.recipes@[#[trigger] cfg.enabled_recipes@[k] as int],
        )
}

/// Whether the edges that end at `parent` carry no `item`.
pub open spec fn carries_no(graph: FullPlanGraph, parent: usize, item: ItemId) -> bool {
    forall|e: usize|
        #[trigger] plan_graph_edges(graph).dom().contains(e) && plan_graph_edges(graph)[e].1 == parent
            ==> plan_graph_edges(graph)[e].2 != item
}

/// Whether `after` has exactly one edge more than `before` that ends at
/// `parent`, a new one that carries `item`.
pub open spec fn one_more_feeder(before: FullPlanGraph, after: FullPlanGraph, parent: usize, item: ItemId) -> bool {
    exists|e: usize|
        !plan_graph_edges(before).dom().contains(e) && plan_graph_edges(after)[e].1 == parent
            && plan_graph_edges(after)[e].2 == item && side_edges(plan_graph_edges(after), parent, Side::Incoming)
            == side_edges(plan_graph_edges(before), parent, Side::Incoming).insert(e)
}

/// One step of the graph builder that finds or adds a node `n` that is no
/// production, then sets edge `e` to `v`, whose source is no by-product:
/// its new edges end at `v.1`, it makes no production, it keeps feeding
/// by-product nodes backed, and a fresh `e` is one more edge into `v.1`.
proof fn lemma_leaf_step<A>(cfg: PlanConfig<A>, a: FullPlanGraph, b: FullPlanGraph, n: usize, e: usize, v: (usize, usize, ItemId))
    requires
        graph_wf(cfg, a),
        graph_wf(cfg, b),
        grows(a, b),
        forall|m: usize|
            #[trigger] plan_graph_nodes(b).dom().contains(m) && !plan_graph_nodes(a).dom().contains(m) ==> m == n,
        !(plan_graph_nodes(b)[n] is Production),
        plan_graph_edges(b) == plan_graph_edges(a).insert(e, v),
        !(plan_graph_nodes(b)[v.0] is ByProduct),
    ensures
        new_production_edges_end_at(a, b, v.1),
        new_productions_fed(cfg, a, b),
        feeding_by_products_backed(cfg, a) ==> feeding_by_products_backed(cfg, b),
        !plan_graph_edges(a).dom().contains(e) ==> side_edges(plan_graph_edges(b), v.1, Side::Incoming) == side_edges(
            plan_graph_edges(a),
            v.1,
            Side::Incoming,
        ).insert(e),
{
    if feeding_by_products_backed(cfg, a) {
        lemma_backed_grow(cfg, a, b);
    }
    if !plan_graph_edges(a).dom().contains(e) {
        lemma_side_edges_insert(plan_graph_edges(a), e, v, v.1);
    }
}

/// New edges into production nodes compose along a growing graph.
proof fn lemma_production_edges_trans<A>(
    cfg: PlanConfig<A>,
    a: FullPlanGraph,
    b: FullPlanGraph,
    c: FullPlanGraph,
    p: usize,
    q: usize,
)
    requires
        graph_wf(cfg, b),
        grows(b, c),
        plan_graph_nodes(a).dom().subset_of(plan_graph_nodes(b).dom()),
        new_production_edges_end_at(a, b, p),
        new_production_edges_end_at(b, c, q),
        q == p || !plan_graph_nodes(a).dom().contains(q) || !(plan_graph_nodes(c)[q] is Production),
    ensures
        new_production_edges_end_at(a, c, p),
{
    let (nb, nc) = (plan_graph_nodes(b), plan_graph_nodes(c));
    let (eb, ec) = (plan_graph_edges(b), plan_graph_edges(c));
    assert forall|e: usize|
        #[trigger] ec.dom().contains(e) && !plan_graph_edges(a).dom().contains(e) && plan_graph_nodes(
            a,
        ).dom().contains(ec[e].1) && nc[ec[e].1] is Production implies ec[e].1 == p by {
        assert(nb.dom().contains(ec[e].1));
        lemma_submap_at(nb, nc, ec[e].1);
        if eb.dom().contains(e) {
            lemma_submap_at(eb, ec, e);
        }
    }
}

/// Feeding of new production nodes composes along a growing graph, when
/// the second step adds no edge into a production node the first step
/// made.
proof fn lemma_fed_trans<A>(cfg: PlanConfig<A>, a: FullPlanGraph, b: FullPlanGraph, c: FullPlanGraph, p: usize)
    requires
        graph_wf(cfg, b),
        graph_wf(cfg, c),
        plan_graph_nodes(b).submap_of(plan_graph_nodes(c)),
        plan_graph_edges(b).submap_of(plan_graph_edges(c)),
        new_productions_fed(cfg, a, b),
        new_productions_fed(cfg, b, c),
        new_production_edges_end_at(b, c, p),
        plan_graph_nodes(a).dom().contains(p) || !(plan_graph_nodes(c)[p] is Production),
    ensures
        new_productions_fed(cfg, a, c),
{
    let (nb, nc) = (plan_graph_nodes(b), plan_graph_nodes(c));
    let (eb, ec) = (plan_graph_edges(b), plan_graph_edges(c));
    assert forall|n: usize|
        #[trigger] nc.dom().contains(n) && !plan_graph_nodes(a).dom().contains(n) implies (nc[n] matches PlanNodeWeight::Production(
        r,
    ) ==> side_edges(ec, n, Side::Incoming).len() == cfg.game_db.recipes@[r as int].inputs@.len()) by {
        if nb.dom().contains(n) {
            lemma_submap_at(nb, nc, n);
            if nc[n] is Production {
                assert(side_edges(ec, n, Side::Incoming) =~= side_edges(eb, n, Side::Incoming)) by {
                    assert forall|e: usize| side_edges(ec, n, Side::Incoming).contains(e) implies side_edges(
                        eb,
                        n,
                        Side::Incoming,
                    ).contains(e) by {
                        if !eb.dom().contains(e) {
                            assert(ec[e].1 == n);
                        } else {
                            lemma_submap_at(eb, ec, e);
                        }
                    }
                    assert forall|e: usize| side_edges(eb, n, Side::Incoming).contains(e) implies side_edges(
                        ec,
                        n,
                        Side::Incoming,
                    ).contains(e) by {
                        lemma_submap_at(eb, ec, e);
                    }
                }
            }
        }
    }
}

/// An edge that ends at `a`, added under a fresh index, adds one to the
/// edges that end at `a`.
proof fn lemma_side_edges_insert(edges: Map<usize, (usize, usize, ItemId)>, e: usize, v: (usize, usize, ItemId), a: usize)
    requires
        edges.dom().finite(),
        !edges.dom().contains(e),
        v.1 == a,
    ensures
        side_edges(edges.insert(e, v), a, Side::Incoming) == side_edges(edges, a, Side::Incoming).insert(e),
        side_edges(edges.insert(e, v), a, Side::Incoming).len() == side_edges(edges, a, Side::Incoming).len() + 1,
{
    assert(side_edges(edges.insert(e, v), a, Side::Incoming) =~= side_edges(edges, a, Side::Incoming).insert(e));
    assert(side_edges(edges, a, Side::Incoming).subset_of(edges.dom()));
    vstd::set_lib::lemma_len_subset(side_edges(edges, a, Side::Incoming), edges.dom());
}

/// A step that adds edges into production nodes only at `q` keeps the
/// edges that end at any other production node `t`.
proof fn lemma_side_edges_kept(a: FullPlanGraph, b: FullPlanGraph, q: usize, t: usize)
    requires
        grows(a, b),
        new_production_edges_end_at(a, b, q),
        plan_graph_nodes(a).dom().contains(t),
        plan_graph_nodes(a)[t] is Production,
        t != q,
    ensures
        side_edges(plan_graph_edges(b), t, Side::Incoming) == side_edges(plan_graph_edges(a), t, Side::Incoming),
{
    let (ea, eb) = (plan_graph_edges(a), plan_graph_edges(b));
    lemma_submap_at(plan_graph_nodes(a), plan_graph_nodes(b), t);
    assert forall|e: usize| side_edges(eb, t, Side::Incoming).contains(e) implies side_edges(ea, t, Side::Incoming).contains(e) by {
        if ea.dom().contains(e) {
            lemma_submap_at(ea, eb, e);
        }
    }
    assert forall|e: usize| side_edges(ea, t, Side::Incoming).contains(e) implies side_edges(eb, t, Side::Incoming).contains(e) by {
        lemma_submap_at(ea, eb, e);
    }
    assert(side_edges(eb, t, Side::Incoming) =~= side_edges(ea, t, Side::Incoming));
}

/// A graph keeps its feeding by-product nodes backed as it grows, when
/// every new edge that starts at a by-product node starts at a backed one.
proof fn lemma_backed_grow<A>(cfg: PlanConfig<A>, a: FullPlanGraph, b: FullPlanGraph)
    requires
        graph_wf(cfg, a),
        grows(a, b),
        feeding_by_products_backed(cfg, a),
        forall|e: usize|
            #[trigger] plan_graph_edges(b).dom().contains(e) && !plan_graph_edges(a).dom().contains(e)
                ==> by_product_backed(cfg, b, plan_graph_edges(b)[e].0),
    ensures
        feeding_by_products_backed(cfg, b),
{
    let (na, nb) = (plan_graph_nodes(a), plan_graph_nodes(b));
    let (ea, eb) = (plan_graph_edges(a), plan_graph_edges(b));
    lemma_links_grow(a, b);
    assert forall|n: usize| #[trigger] nb.dom().contains(n) && feeds_some_node(b, n) implies by_product_backed(
        cfg,
        b,
        n,
    ) by {
        let e = choose|e: usize| #[trigger] eb.dom().contains(e) && eb[e].0 == n;
        if ea.dom().contains(e) {
            lemma_submap_at(ea, eb, e);
            assert(na.dom().contains(n));
            assert(feeds_some_node(a, n));
            lemma_submap_at(na, nb, n);
            if na[n] is ByProduct && is_fed(a, n) {
                let f = choose|f: usize| #[trigger] ea.dom().contains(f) && ea[f].1 == n;
                lemma_submap_at(ea, eb, f);
                assert(is_fed(b, n));
            }
        }
    }
}

/// A graph that gained no node has no new production to complete.
proof fn lemma_complete_same_nodes<A>(cfg: PlanConfig<A>, a: FullPlanGraph, b: FullPlanGraph)
    requires
        plan_graph_nodes(b) == plan_graph_nodes(a),
    ensures
        new_productions_complete(cfg, a, b),
{
}

/// Whether no edge goes from a node to itself.
pub open spec fn loop_free(graph: FullPlanGraph) -> bool {
    forall|e: usize|
        #[trigger] plan_graph_edges(graph).dom().contains(e) ==> plan_graph_edges(graph)[e].0
            != plan_graph_edges(graph)[e].1
}

/// Setting an edge between two different nodes keeps a graph free of
/// loops.
proof fn lemma_loop_free_set_edge(a: FullPlanGraph, b: FullPlanGraph, e: usize, v: (usize, usize, ItemId))
    requires
        loop_free(a),
        plan_graph_edges(b) == plan_graph_edges(a).insert(e, v),
        v.0 != v.1,
    ensures
        loop_free(b),
{
    assert forall|x: usize| #[trigger] plan_graph_edges(b).dom().contains(x) implies plan_graph_edges(b)[x].0
        != plan_graph_edges(b)[x].1 by {
        if x != e {
            assert(plan_graph_edges(a).dom().contains(x));
        }
    }
}

/// Every graph grows into itself.
proof fn lemma_grows_refl(a: FullPlanGraph)
    ensures
        grows(a, a),
{
}

/// A strictly increasing sequence of positions below `b` has at most `b`
/// entries.
proof fn lemma_increasing_len(s: Seq<usize>, b: nat)
    requires
        forall|k: int, l: int| 0 <= k < l < s.len() ==> s[k] < s[l],
        forall|k: int| 0 <= k < s.len() ==> s[k] < b,
    ensures
        s.len() <= b,
    decreases s.len(),
{
    if s.len() > 0 {
        let t = s.drop_last();
        assert forall|k: int| 0 <= k < t.len() implies t[k] < s.last() by {
            assert(s[k] < s[s.len() - 1]);
        }
        lemma_increasing_len(t, s.last() as nat);
    }
}

/// The node of the given kind and key.
fn find_output_node<A>(config: &PlanConfig<A>, graph: &FullPlanGraph, item: ItemId) -> (r: Option<usize>)
    requires
        graph_wf(*config, *graph),
    ensures
        match r {
            Some(n) => plan_graph_nodes(*graph).dom().contains(n) && plan_graph_nodes(*graph)[n]
                == PlanNodeWeight::Output(item),
            None => forall|n: usize|
                plan_graph_nodes(*graph).dom().contains(n) ==> plan_graph_nodes(*graph)[n]
                    != PlanNodeWeight::Output(item),
        },
{
    find_node(config, graph, PlanNodeWeight::new_output(item))
}

fn find_production_node<A>(config: &PlanConfig<A>, graph: &FullPlanGraph, recipe: RecipeId) -> (r: Option<usize>)
    requires
        graph_wf(*config, *graph),
    ensures
        match r {
            Some(n) => plan_graph_nodes(*graph).dom().contains(n) && plan_graph_nodes(*graph)[n]
                == PlanNodeWeight::Production(recipe),
            None => forall|n: usize|
                plan_graph_nodes(*graph).dom().contains(n) ==> plan_graph_nodes(*graph)[n]
                    != PlanNodeWeight::Production(recipe),
        },
{
    find_node(config, graph, PlanNodeWeight::new_production(recipe))
}

/// Adds an edge carrying `item` from the input node of `item` to the node
/// `parent_idx`, creating the input node when there is none.
fn create_input_node<A>(config: &PlanConfig<A>, graph: &mut FullPlanGraph, parent_idx: usize, item: ItemId)
    requires
        config.wf(),
        graph_wf(*config, *old(graph)),
        plan_graph_nodes(*old(graph)).dom().contains(parent_idx),
        accepts(*config, plan_graph_nodes(*old(graph))[parent_idx], item),
        item < config.game_db.items@.len(),
        config.game_db.items@[item as int].resource || config.spec_has_input(item),
        graph_size(*old(graph)) + 2 < u32::MAX,
    ensures
        graph_wf(*config, *final(graph)),
        grows(*old(graph), *final(graph)),
        graph_size(*final(graph)) <= graph_size(*old(graph)) + 2,
        produced(plan_graph_nodes(*final(graph))) == produced(plan_graph_nodes(*old(graph))),
        linked(*final(graph), PlanNodeWeight::Input(item), parent_idx, item),
        loop_free(*old(graph)) ==> loop_free(*final(graph)),
        new_productions_complete(*config, *old(graph), *final(graph)),
        forall|e: usize|
            #[trigger] plan_graph_edges(*final(graph)).dom().contains(e) && !plan_graph_edges(*old(graph)).dom().contains(e)
                ==> plan_graph_edges(*final(graph))[e].1 == parent_idx && plan_graph_nodes(*final(graph))[plan_graph_edges(
                *final(graph),
            )[e].0] == PlanNodeWeight::Input(item),
        new_production_edges_end_at(*old(graph), *final(graph), parent_idx),
        new_productions_fed(*config, *old(graph), *final(graph)),
        feeding_by_products_backed(*config, *old(graph)) ==> feeding_by_products_backed(*config, *final(graph)),
        one_more_feeder(*old(graph), *final(graph), parent_idx, item),
{
    let ghost g0 = *graph;
    let idx = find_or_add_node(config, graph, PlanNodeWeight::new_input(item));
    let ghost g1 = *graph;
    proof {
        lemma_submap_at(plan_graph_nodes(g0), plan_graph_nodes(g1), parent_idx);
    }
    let e = graph_add_edge(graph, idx, parent_idx, item);
    proof {
        lemma_wf_set_edge(*config, g1, *graph, e, idx, parent_idx, item);
        lemma_grows_set_edge(g1, *graph, e, (idx, parent_idx, item));
        lemma_grows_trans(g0, g1, *graph);
        lemma_complete_same_nodes(*config, g1, *graph);
        lemma_complete_trans(*config, g0, g1, *graph);
        assert(plan_graph_edges(*graph).dom().contains(e));
        assert(has_edge(*graph, idx, parent_idx, item));
        assert(plan_graph_nodes(*graph).dom().contains(idx));
        if loop_free(g0) {
            assert(idx != parent_idx);
            lemma_loop_free_set_edge(g1, *graph, e, (idx, parent_idx, item));
        }
        lemma_leaf_step(*config, g0, *graph, idx, e, (idx, parent_idx, item));
    }
}


/// Adds an edge carrying `item` from the producer node of `building` to
/// the node `parent_idx`, creating the producer node when there is none.
fn create_producer_node<A>(
    config: &PlanConfig<A>,
    graph: &mut FullPlanGraph,
    parent_idx: usize,
    building: BuildingId,
    item: ItemId,
) -> (r: u32)
    requires
        config.wf(),
        graph_wf(*config, *old(graph)),
        plan_graph_nodes(*old(graph)).dom().contains(parent_idx),
        accepts(*config, plan_graph_nodes(*old(graph))[parent_idx], item),
        building < config.game_db.buildings@.len(),
        building_produces(config.game_db.buildings@[building as int], item),
        graph_size(*old(graph)) + 2 < u32::MAX,
    ensures
        r == 1,
        graph_wf(*config, *final(graph)),
        grows(*old(graph), *final(graph)),
        graph_size(*final(graph)) <= graph_size(*old(graph)) + 2,
        produced(plan_graph_nodes(*final(graph))) == produced(plan_graph_nodes(*old(graph))),
        linked(*final(graph), PlanNodeWeight::Producer(building), parent_idx, item),
        loop_free(*old(graph)) ==> loop_free(*final(graph)),
        new_productions_complete(*config, *old(graph), *final(graph)),
        forall|e: usize|
            #[trigger] plan_graph_edges(*final(graph)).dom().contains(e) && !plan_graph_edges(*old(graph)).dom().contains(e)
                ==> plan_graph_edges(*final(graph))[e].1 == parent_idx,
        new_production_edges_end_at(*old(graph), *final(graph), parent_idx),
        new_productions_fed(*config, *old(graph), *final(graph)),
        feeding_by_products_backed(*config, *old(graph)) ==> feeding_by_products_backed(*config, *final(graph)),
{
    let ghost g0 = *graph;
    let idx = find_or_add_node(config, graph, PlanNodeWeight::new_producer(building));
    let ghost g1 = *graph;
    proof {
        lemma_submap_at(plan_graph_nodes(g0), plan_graph_nodes(g1), parent_idx);
    }
    let e = graph_add_edge(graph, idx, parent_idx, item);
    proof {
        lemma_wf_set_edge(*config, g1, *graph, e, idx, parent_idx, item);
        lemma_grows_set_edge(g1, *graph, e, (idx, parent_idx, item));
        lemma_grows_trans(g0, g1, *graph);
        lemma_complete_same_nodes(*config, g1, *graph);
        lemma_complete_trans(*config, g0, g1, *graph);
        assert(plan_graph_edges(*graph).dom().contains(e));
        assert(has_edge(*graph, idx, parent_idx, item));
        assert(plan_graph_nodes(*graph).dom().contains(idx));
        if loop_free(g0) {
            assert(idx != parent_idx);
            lemma_loop_free_set_edge(g1, *graph, e, (idx, parent_idx, item));
        }
        lemma_leaf_step(*config, g0, *graph, idx, e, (idx, parent_idx, item));
    }
    1
}

/// Makes the node `child_idx` hand `item` to the by-product node of `item`,
/// creating the by-product node when there is none; an edge that already
/// goes there is reused.
fn create_partial_by_product_node<A>(
    config: &PlanConfig<A>,
    graph: &mut FullPlanGraph,
    child_idx: usize,
    item: ItemId,
) -> (r: usize)
    requires
        config.wf(),
        graph_wf(*config, *old(graph)),
        plan_graph_nodes(*old(graph)).dom().contains(child_idx),
        plan_graph_nodes(*old(graph))[child_idx] is Production,
        provides(*config, plan_graph_nodes(*old(graph))[child_idx], item),
        item < config.game_db.items@.len(),
        graph_size(*old(graph)) + 2 < u32::MAX,
    ensures
        graph_wf(*config, *final(graph)),
        grows(*old(graph), *final(graph)),
        graph_size(*final(graph)) <= graph_size(*old(graph)) + 2,
        produced(plan_graph_nodes(*final(graph))) == produced(plan_graph_nodes(*old(graph))),
        plan_graph_nodes(*final(graph)).dom().contains(r),
        plan_graph_nodes(*final(graph))[r] == PlanNodeWeight::ByProduct(item),
        has_edge(*final(graph), child_idx, r, item),
        loop_free(*old(graph)) ==> loop_free(*final(graph)),
        new_productions_complete(*config, *old(graph), *final(graph)),
        forall|e: usize|
            #[trigger] plan_graph_edges(*final(graph)).dom().contains(e) && !plan_graph_edges(*old(graph)).dom().contains(e)
                ==> plan_graph_edges(*final(graph))[e].1 == r,
        new_production_edges_end_at(*old(graph), *final(graph), r),
        new_productions_fed(*config, *old(graph), *final(graph)),
        feeding_by_products_backed(*config, *old(graph)) ==> feeding_by_products_backed(*config, *final(graph)),
{
    let ghost g0 = *graph;
    let idx = find_or_add_node(config, graph, PlanNodeWeight::new_by_product(item));
    let ghost g1 = *graph;
    proof {
        lemma_submap_at(plan_graph_nodes(g0), plan_graph_nodes(g1), child_idx);
    }
    let e = graph_update_edge(graph, child_idx, idx, item);
    proof {
        lemma_wf_set_edge(*config, g1, *graph, e, child_idx, idx, item);
        let (eb, ea) = (plan_graph_edges(g1), plan_graph_edges(*graph));
        if eb.dom().contains(e) {
            assert(eb[e].2 == item) by {
                assert(accepts(*config, plan_graph_nodes(g1)[eb[e].1], eb[e].2));
            }
            assert(ea =~= eb);
        }
        lemma_grows_set_edge(g1, *graph, e, (child_idx, idx, item));
        lemma_grows_trans(g0, g1, *graph);
        lemma_complete_same_nodes(*config, g1, *graph);
        lemma_complete_trans(*config, g0, g1, *graph);
        assert(plan_graph_edges(*graph).dom().contains(e));
        if loop_free(g0) {
            assert(child_idx != idx);
            lemma_loop_free_set_edge(g1, *graph, e, (child_idx, idx, item));
        }
        lemma_leaf_step(*config, g0, *graph, idx, e, (child_idx, idx, item));
    }
    idx
}


/// Makes the node `parent_idx` receive `item`: from the input node of the
/// item when the item is a resource, otherwise from the by-product node of
/// the item together with everything that can produce it.
fn create_children<A>(config: &PlanConfig<A>, graph: &mut FullPlanGraph, parent_idx: usize, item_id: ItemId)
    requires
        config.wf(),
        graph_wf(*config, *old(graph)),
        plan_graph_nodes(*old(graph)).dom().contains(parent_idx),
        accepts(*config, plan_graph_nodes(*old(graph))[parent_idx], item_id),
        item_id < config.game_db.items@.len(),
        budget(*config, *old(graph)) + step_cost(*config) < u32::MAX,
    ensures
        graph_wf(*config, *final(graph)),
        grows(*old(graph), *final(graph)),
        budget(*config, *final(graph)) <= budget(*config, *old(graph)) + step_cost(*config),
        config.game_db.items@[item_id as int].resource ==> linked(
            *final(graph),
            PlanNodeWeight::Input(item_id),
            parent_idx,
            item_id,
        ),
        !config.game_db.items@[item_id as int].resource ==> linked(
            *final(graph),
            PlanNodeWeight::ByProduct(item_id),
            parent_idx,
            item_id,
        ),
        loop_free(*old(graph)) && plan_graph_nodes(*old(graph))[parent_idx] != PlanNodeWeight::ByProduct(
            item_id,
        ) ==> loop_free(*final(graph)),
        new_productions_complete(*config, *old(graph), *final(graph)),
        new_output_edges_end_at(*old(graph), *final(graph), parent_idx),
        !config.game_db.items@[item_id as int].resource && config.spec_has_input(item_id) ==> by_product_fed(
            *final(graph),
            item_id,
        ),
        config.game_db.items@[item_id as int].resource ==> forall|e: usize|
            #[trigger] plan_graph_edges(*final(graph)).dom().contains(e) && !plan_graph_edges(*old(graph)).dom().contains(e)
                ==> plan_graph_edges(*final(graph))[e].1 == parent_idx && plan_graph_nodes(*final(graph))[plan_graph_edges(
                *final(graph),
            )[e].0] == PlanNodeWeight::Input(item_id),
        new_production_edges_end_at(*old(graph), *final(graph), parent_idx),
        request_complete(*config) ==> new_productions_fed(*config, *old(graph), *final(graph)),
        request_complete(*config) && item_supplied(*config, item_id) && feeding_by_products_backed(
            *config,
            *old(graph),
        ) ==> feeding_by_products_backed(*config, *final(graph)),
        plan_graph_nodes(*old(graph))[parent_idx] is Production && (config.game_db.items@[item_id as int].resource
            || ((forall|b: int|
            0 <= b < config.game_db.buildings@.len() ==> !building_produces(
                #[trigger] config.game_db.buildings@[b],
                item_id,
            )) && carries_no(*old(graph), parent_idx, item_id))) ==> one_more_feeder(
            *old(graph),
            *final(graph),
            parent_idx,
            item_id,
        ),
        !config.game_db.items@[item_id as int].resource ==> forall|k: int|
            0 <= k < offering_recipes(*config.game_db, config.enabled_recipes@, item_id).len() ==> has_node(
                *final(graph),
                PlanNodeWeight::Production(
                    #[trigger] offering_recipes(*config.game_db, config.enabled_recipes@, item_id)[k],
                ),
            ),
    decreases unproduced(*config, *old(graph)), 2nat,
{
    let db: &GameDatabase<A> = &*config.game_db;
    let item = db.item(item_id);
    if item.resource {
        create_input_node(config, graph, parent_idx, item_id);
    } else {
        create_production_by_product(config, graph, parent_idx, item_id);
        proof {
            if config.spec_has_input(item_id) {
                let n = choose|n: usize|
                    #[trigger] plan_graph_nodes(*graph).dom().contains(n) && plan_graph_nodes(*graph)[n]
                        == PlanNodeWeight::ByProduct(item_id) && linked(*graph, PlanNodeWeight::Input(item_id), n, item_id);
                let m = choose|m: usize|
                    #[trigger] plan_graph_nodes(*graph).dom().contains(m) && plan_graph_nodes(*graph)[m]
                        == PlanNodeWeight::Input(item_id) && has_edge(*graph, m, n, item_id);
                let e = choose|e: usize|
                    #[trigger] plan_graph_edges(*graph).dom().contains(e) && plan_graph_edges(*graph)[e] == (m, n, item_id);
                assert(plan_graph_nodes(*graph)[plan_graph_edges(*graph)[e].1] == PlanNodeWeight::ByProduct(item_id));
            }
        }
    }
}

/// Makes the node `parent_idx` receive `item` from the by-product node of
/// the item, and connects that node to what can produce the item: a
/// production node for each enabled recipe that offers it, the producer
/// buildings that make it (these feed `parent_idx` directly), and the
/// input node of the item when a positive amount of it is given.
pub fn create_production_by_product<A>(
    config: &PlanConfig<A>,
    graph: &mut FullPlanGraph,
    parent_idx: usize,
    item: ItemId,
)
    requires
        config.wf(),
        graph_wf(*config, *old(graph)),
        plan_graph_nodes(*old(graph)).dom().contains(parent_idx),
        accepts(*config, plan_graph_nodes(*old(graph))[parent_idx], item),
        item < config.game_db.items@.len(),
        budget(*config, *old(graph)) + step_cost(*config) < u32::MAX,
    ensures
        graph_wf(*config, *final(graph)),
        grows(*old(graph), *final(graph)),
        budget(*config, *final(graph)) <= budget(*config, *old(graph)) + step_cost(*config),
        linked(*final(graph), PlanNodeWeight::ByProduct(item), parent_idx, item),
        forall|k: int|
            0 <= k < offering_recipes(*config.game_db, config.enabled_recipes@, item).len()
                ==> has_node(
                *final(graph),
                PlanNodeWeight::Production(
                    #[trigger] offering_recipes(*config.game_db, config.enabled_recipes@, item)[k],
                ),
            ),
        forall|b: int|
            0 <= b < config.game_db.buildings@.len() && building_produces(
                #[trigger] config.game_db.buildings@[b],
                item,
            ) ==> linked(*final(graph), PlanNodeWeight::Producer(b as BuildingId), parent_idx, item),
        config.spec_has_input(item) ==> exists|n: usize|
            #[trigger] plan_graph_nodes(*final(graph)).dom().contains(n)
                && plan_graph_nodes(*final(graph))[n] == PlanNodeWeight::ByProduct(item) && linked(
                *final(graph),
                PlanNodeWeight::Input(item),
                n,
                item,
            ),
        loop_free(*old(graph)) && plan_graph_nodes(*old(graph))[parent_idx] != PlanNodeWeight::ByProduct(
            item,
        ) ==> loop_free(*final(graph)),
        new_productions_complete(*config, *old(graph), *final(graph)),
        new_output_edges_end_at(*old(graph), *final(graph), parent_idx),
        new_production_edges_end_at(*old(graph), *final(graph), parent_idx),
        request_complete(*config) ==> new_productions_fed(*config, *old(graph), *final(graph)),
        request_complete(*config) && offered_or_given(*config, item) && feeding_by_products_backed(*config, *old(graph))
            ==> feeding_by_products_backed(*config, *final(graph)),
        plan_graph_nodes(*old(graph))[parent_idx] is Production && (forall|b: int|
            0 <= b < config.game_db.buildings@.len() ==> !building_produces(
                #[trigger] config.game_db.buildings@[b],
                item,
            )) && carries_no(*old(graph), parent_idx, item) ==> one_more_feeder(
            *old(graph),
            *final(graph),
            parent_idx,
            item,
        ),
        forall|k: int, b: usize|
            #![trigger offering_recipes(*config.game_db, config.enabled_recipes@, item)[k], plan_graph_nodes(*final(graph))[b]]
            0 <= k < offering_recipes(*config.game_db, config.enabled_recipes@, item).len()
                && plan_graph_nodes(*final(graph)).dom().contains(b) && plan_graph_nodes(*final(graph))[b]
                == PlanNodeWeight::ByProduct(item) && !has_node(
                *old(graph),
                PlanNodeWeight::Production(offering_recipes(*config.game_db, config.enabled_recipes@, item)[k]),
            ) ==> linked(
                *final(graph),
                PlanNodeWeight::Production(offering_recipes(*config.game_db, config.enabled_recipes@, item)[k]),
                b,
                item,
            ),
    decreases unproduced(*config, *old(graph)), 1nat,
{
    let ghost g0 = *graph;
    let ghost parent = plan_graph_nodes(g0)[parent_idx];
    let ghost lf = loop_free(g0) && parent != PlanNodeWeight::ByProduct(item);
    let idx = find_or_add_node(config, graph, PlanNodeWeight::new_by_product(item));
    proof {
        lemma_submap_at(plan_graph_nodes(g0), plan_graph_nodes(*graph), parent_idx);
    }
    let ghost g1 = *graph;
    let ghost bcond = request_complete(*config) && offered_or_given(*config, item) && feeding_by_products_backed(*config, g0);
    let ghost ccond = parent is Production && (forall|b: int|
        0 <= b < config.game_db.buildings@.len() ==> !building_produces(
            #[trigger] config.game_db.buildings@[b],
            item,
        )) && carries_no(g0, parent_idx, item);
    proof {
        if feeding_by_products_backed(*config, g0) {
            lemma_backed_grow(*config, g0, g1);
        }
    }
    let recipes = config.find_recipes_by_output(item);
    let db: &GameDatabase<A> = &*config.game_db;
    proof {
        lemma_offering_recipes(*db, config.enabled_recipes@, item);
    }
    let mut i: usize = 0;
    while i < recipes.len()
        invariant
            config.wf(),
            graph_wf(*config, *graph),
            grows(g0, *graph),
            plan_graph_nodes(*graph).dom().contains(idx),
            plan_graph_nodes(*graph)[idx] == PlanNodeWeight::ByProduct(item),
            plan_graph_nodes(*graph).dom().contains(parent_idx),
            plan_graph_nodes(*graph)[parent_idx] == parent,
            item < config.game_db.items@.len(),
            budget(*config, *graph) <= budget(*config, g1),
            budget(*config, g1) <= budget(*config, g0) + 1,
            budget(*config, g0) + step_cost(*config) < u32::MAX,
            unproduced(*config, *graph) <= unproduced(*config, g0),
            g0 == *old(graph),
            db == &*config.game_db,
            forall|k: int|
                0 <= k < recipes@.len() ==> config.enabled_recipes@.contains(#[trigger] recipes@[k])
                    && super::config::recipe_offers(*db, recipes@[k], item),
            i <= recipes@.len(),
            forall|k: int|
                0 <= k < i ==> has_node(*graph, PlanNodeWeight::Production(#[trigger] recipes@[k])),
            lf == (loop_free(g0) && parent != PlanNodeWeight::ByProduct(item)),
            lf ==> loop_free(*graph),
            new_productions_complete(*config, g0, *graph),
            new_output_edges_end_at(g0, *graph, parent_idx),
            new_production_edges_end_at(g0, *graph, parent_idx),
            request_complete(*config) ==> new_productions_fed(*config, g0, *graph),
            bcond ==> feeding_by_products_backed(*config, *graph),
            ccond ==> side_edges(plan_graph_edges(*graph), parent_idx, Side::Incoming) == side_edges(
                plan_graph_edges(g0),
                parent_idx,
                Side::Incoming,
            ),
            bcond == (request_complete(*config) && offered_or_given(*config, item) && feeding_by_products_backed(*config, g0)),
            plan_graph_nodes(g0).dom().contains(parent_idx),
            ccond ==> (parent is Production && forall|b: int|
                0 <= b < config.game_db.buildings@.len() ==> !building_produces(
                    #[trigger] config.game_db.buildings@[b],
                    item,
                )),
        decreases recipes.len() - i,
    {
        let r = recipes[i];
        proof {
            assert(super::config::recipe_offers(*db, r, item));
            let k = choose|k: int| 0 <= k < config.enabled_recipes@.len() && config.enabled_recipes@[k] == r;
            assert(config.enabled_recipes@[k] < config.game_db.recipes@.len());
            if config.game_db.by_product_blacklist@.contains(item) {
                assert(config.game_db.recipes@[r as int].outputs@[0].item == item);
            }
        }
        let ghost before = *graph;
        create_production_node(config, graph, idx, r, item);
        proof {
            lemma_links_grow(before, *graph);
            lemma_grows_trans(g0, before, *graph);
            lemma_complete_trans(*config, g0, before, *graph);
            lemma_submap_at(plan_graph_nodes(before), plan_graph_nodes(*graph), idx);
            lemma_output_edges_trans(*config, g0, before, *graph, parent_idx, idx);
            lemma_submap_at(plan_graph_nodes(before), plan_graph_nodes(*graph), parent_idx);
            lemma_unproduced_grows(*config, before, *graph);
            lemma_production_edges_trans(*config, g0, before, *graph, parent_idx, idx);
            if request_complete(*config) {
                lemma_fed_trans(*config, g0, before, *graph, idx);
            }
            if ccond {
                lemma_side_edges_kept(before, *graph, idx, parent_idx);
            }
        }
        i = i + 1;
    }
    let producers = db.find_item_producers(item);
    proof {
        lemma_increasing_len(producers@, db.buildings@.len());
    }
    let ghost g2 = *graph;
    let mut j: usize = 0;
    while j < producers.len()
        invariant
            config.wf(),
            db == &*config.game_db,
            graph_wf(*config, *graph),
            grows(g0, *graph),
            plan_graph_nodes(*graph).dom().contains(idx),
            plan_graph_nodes(*graph)[idx] == PlanNodeWeight::ByProduct(item),
            plan_graph_nodes(*graph).dom().contains(parent_idx),
            plan_graph_nodes(*graph)[parent_idx] == parent,
            accepts(*config, parent, item),
            produced(plan_graph_nodes(*graph)) == produced(plan_graph_nodes(g2)),
            graph_size(*graph) <= graph_size(g2) + 2 * j,
            budget(*config, g2) <= budget(*config, g0) + 1,
            budget(*config, g0) + step_cost(*config) < u32::MAX,
            producers@.len() <= db.buildings@.len(),
            forall|k: int|
                0 <= k < producers@.len() ==> producers@[k] < db.buildings@.len()
                    && building_produces(db.buildings@[producers@[k] as int], item),
            j <= producers@.len(),
            forall|k: int|
                0 <= k < recipes@.len() ==> has_node(*graph, PlanNodeWeight::Production(#[trigger] recipes@[k])),
            forall|k: int|
                0 <= k < j ==> linked(*graph, PlanNodeWeight::Producer(#[trigger] producers@[k]), parent_idx, item),
            lf ==> loop_free(*graph),
            new_productions_complete(*config, g0, *graph),
            new_output_edges_end_at(g0, *graph, parent_idx),
            new_production_edges_end_at(g0, *graph, parent_idx),
            request_complete(*config) ==> new_productions_fed(*config, g0, *graph),
            bcond ==> feeding_by_products_backed(*config, *graph),
            ccond ==> side_edges(plan_graph_edges(*graph), parent_idx, Side::Incoming) == side_edges(
                plan_graph_edges(g0),
                parent_idx,
                Side::Incoming,
            ),
            bcond == (request_complete(*config) && offered_or_given(*config, item) && feeding_by_products_backed(*config, g0)),
            plan_graph_nodes(g0).dom().contains(parent_idx),
            ccond ==> (parent is Production && forall|b: int|
                0 <= b < config.game_db.buildings@.len() ==> !building_produces(
                    #[trigger] config.game_db.buildings@[b],
                    item,
                )),
            recipes@ == offering_recipes(*config.game_db, config.enabled_recipes@, item),
        decreases producers.len() - j,
    {
        proof {
            if ccond {
                assert(!building_produces(config.game_db.buildings@[producers@[j as int] as int], item));
            }
        }
        let ghost before = *graph;
        create_producer_node(config, graph, parent_idx, producers[j], item);
        proof {
            lemma_links_grow(before, *graph);
            lemma_grows_trans(g0, before, *graph);
            lemma_complete_trans(*config, g0, before, *graph);
            lemma_submap_at(plan_graph_nodes(before), plan_graph_nodes(*graph), idx);
            lemma_output_edges_trans(*config, g0, before, *graph, parent_idx, parent_idx);
            lemma_submap_at(plan_graph_nodes(before), plan_graph_nodes(*graph), parent_idx);
            lemma_production_edges_trans(*config, g0, before, *graph, parent_idx, parent_idx);
            if request_complete(*config) {
                lemma_fed_trans(*config, g0, before, *graph, parent_idx);
            }
        }
        j = j + 1;
    }
    let ghost g3 = *graph;
    if config.has_input(item) {
        create_input_node(config, graph, idx, item);
        proof {
            lemma_links_grow(g3, *graph);
            lemma_grows_trans(g0, g3, *graph);
            lemma_complete_trans(*config, g0, g3, *graph);
            lemma_submap_at(plan_graph_nodes(g3), plan_graph_nodes(*graph), idx);
            lemma_output_edges_trans(*config, g0, g3, *graph, parent_idx, idx);
            lemma_submap_at(plan_graph_nodes(g3), plan_graph_nodes(*graph), idx);
            lemma_submap_at(plan_graph_nodes(g3), plan_graph_nodes(*graph), parent_idx);
            lemma_production_edges_trans(*config, g0, g3, *graph, parent_idx, idx);
            if request_complete(*config) {
                lemma_fed_trans(*config, g0, g3, *graph, idx);
            }
            if ccond {
                lemma_side_edges_kept(g3, *graph, idx, parent_idx);
            }
        }
    }
    let ghost g4 = *graph;
    let e = graph_update_edge(graph, idx, parent_idx, item);
    proof {
        lemma_wf_set_edge(*config, g4, *graph, e, idx, parent_idx, item);
        let (eb, ea) = (plan_graph_edges(g4), plan_graph_edges(*graph));
        if eb.dom().contains(e) {
            assert(eb[e].2 == item) by {
                assert(provides(*config, plan_graph_nodes(g4)[eb[e].0], eb[e].2));
            }
        }
        lemma_grows_set_edge(g4, *graph, e, (idx, parent_idx, item));
        lemma_grows_trans(g0, g4, *graph);
        lemma_links_grow(g4, *graph);
        lemma_complete_same_nodes(*config, g4, *graph);
        lemma_complete_trans(*config, g0, g4, *graph);
        lemma_output_edges_trans(*config, g0, g4, *graph, parent_idx, parent_idx);
        lemma_production_edges_trans(*config, g0, g4, *graph, parent_idx, parent_idx);
        if request_complete(*config) {
            lemma_fed_trans(*config, g0, g4, *graph, parent_idx);
        }
        if ccond {
            assert(!eb.dom().contains(e)) by {
                if eb.dom().contains(e) {
                    assert(side_edges(eb, parent_idx, Side::Incoming).contains(e));
                    assert(side_edges(plan_graph_edges(g0), parent_idx, Side::Incoming).contains(e));
                    lemma_submap_at(plan_graph_edges(g0), eb, e);
                }
            }
            lemma_side_edges_insert(eb, e, (idx, parent_idx, item), parent_idx);
            assert(one_more_feeder(g0, *graph, parent_idx, item));
        }
        if bcond {
            if config.spec_has_input(item) {
                let m = choose|m: usize|
                    #[trigger] plan_graph_nodes(g4).dom().contains(m) && plan_graph_nodes(g4)[m]
                        == PlanNodeWeight::Input(item) && has_edge(g4, m, idx, item);
                let f = choose|f: usize|
                    #[trigger] plan_graph_edges(g4).dom().contains(f) && plan_graph_edges(g4)[f] == (m, idx, item);
                lemma_submap_at(eb, ea, f);
                assert(is_fed(*graph, idx));
            } else {
                assert(has_node(*graph, PlanNodeWeight::Production(recipes@[0])));
            }
            assert(by_product_backed(*config, *graph, idx));
            lemma_backed_grow(*config, g4, *graph);
        }
        assert forall|k: int, b: usize|
            #![trigger recipes@[k], plan_graph_nodes(*graph)[b]]
            0 <= k < recipes@.len() && plan_graph_nodes(*graph).dom().contains(b) && plan_graph_nodes(*graph)[b]
                == PlanNodeWeight::ByProduct(item) && !has_node(g0, PlanNodeWeight::Production(recipes@[k]))
                implies linked(*graph, PlanNodeWeight::Production(recipes@[k]), b, item) by {
            let k2 = choose|k2: int| 0 <= k2 < config.enabled_recipes@.len() && config.enabled_recipes@[k2] == recipes@[k];
            assert(config.enabled_recipes@[k2] < config.game_db.recipes@.len());
            lemma_new_production_linked(*config, g0, *graph, recipes@[k], item, b);
        }
        lemma_submap_at(plan_graph_nodes(g4), plan_graph_nodes(*graph), idx);
        assert(plan_graph_edges(*graph).dom().contains(e));
        assert(has_edge(*graph, idx, parent_idx, item));
        assert(plan_graph_nodes(*graph).dom().contains(idx));
        assert forall|b: int|
            0 <= b < config.game_db.buildings@.len() && building_produces(
                #[trigger] config.game_db.buildings@[b],
                item,
            ) implies linked(*graph, PlanNodeWeight::Producer(b as BuildingId), parent_idx, item) by {
            assert(producers@.contains(b as BuildingId));
            let k = choose|k: int| 0 <= k < producers@.len() && producers@[k] == b as BuildingId;
            assert(linked(g3, PlanNodeWeight::Producer(producers@[k]), parent_idx, item));
        }
        if config.spec_has_input(item) {
            assert(linked(g4, PlanNodeWeight::Input(item), idx, item));
        }
        if lf {
            assert(plan_graph_nodes(g4)[parent_idx] == parent);
            assert(idx != parent_idx);
            lemma_loop_free_set_edge(g4, *graph, e, (idx, parent_idx, item));
        }
    }
}

/// Creates the production node of `recipe_id` when there is none yet, and
/// with it: the by-product nodes of its other outputs, the supply of each of
/// its inputs, and the edge that hands `item_id` to the node `parent_idx`.
fn create_production_node<A>(
    config: &PlanConfig<A>,
    graph: &mut FullPlanGraph,
    parent_idx: usize,
    recipe_id: RecipeId,
    item_id: ItemId,
)
    requires
        config.wf(),
        graph_wf(*config, *old(graph)),
        plan_graph_nodes(*old(graph)).dom().contains(parent_idx),
        plan_graph_nodes(*old(graph))[parent_idx] == PlanNodeWeight::ByProduct(item_id),
        config.enabled_recipes@.contains(recipe_id),
        recipe_id < config.game_db.recipes@.len(),
        config.game_db.recipes@[recipe_id as int].produces(item_id),
        budget(*config, *old(graph)) < u32::MAX,
    ensures
        graph_wf(*config, *final(graph)),
        grows(*old(graph), *final(graph)),
        budget(*config, *final(graph)) <= budget(*config, *old(graph)),
        has_node(*final(graph), PlanNodeWeight::Production(recipe_id)),
        !has_node(*old(graph), PlanNodeWeight::Production(recipe_id)) ==> linked(
            *final(graph),
            PlanNodeWeight::Production(recipe_id),
            parent_idx,
            item_id,
        ),
        loop_free(*old(graph)) ==> loop_free(*final(graph)),
        new_productions_complete(*config, *old(graph), *final(graph)),
        new_output_edges_end_at(*old(graph), *final(graph), parent_idx),
        new_production_edges_end_at(*old(graph), *final(graph), parent_idx),
        request_complete(*config) ==> new_productions_fed(*config, *old(graph), *final(graph)),
        request_complete(*config) && feeding_by_products_backed(*config, *old(graph))
            ==> feeding_by_products_backed(*config, *final(graph)),
    decreases unproduced(*config, *old(graph)), 0nat,
{
    match find_production_node(config, graph, recipe_id) {
        Some(n) => {
            proof {
                assert(plan_graph_nodes(*graph).dom().contains(n));
                lemma_complete_same_nodes(*config, *graph, *graph);
            }
            return;
        },
        None => {},
    }
    let ghost g0 = *graph;
    let ghost parent = plan_graph_nodes(g0)[parent_idx];
    let ghost w = recipe_cost(*config);
    let ghost c = step_cost(*config);
    let db: &GameDatabase<A> = &*config.game_db;
    let recipe = db.recipe(recipe_id);
    proof {
        lemma_produced_bound(*config, plan_graph_nodes(g0), plan_graph_edges(g0));
        assert(!produced(plan_graph_nodes(g0)).contains(recipe_id));
        lemma_max_inputs(db.recipes@, recipe_id as int);
        let range = Set::<usize>::range(0, config.game_db.recipes.len());
        assert(range.contains(recipe_id));
        if produced(plan_graph_nodes(g0)).len() == config.game_db.recipes@.len() {
            vstd::set_lib::range_set_properties::<usize>(0, config.game_db.recipes.len());
            vstd::set_lib::lemma_subset_equality(produced(plan_graph_nodes(g0)), range);
        }
    }
    let idx = graph_add_node(graph, PlanNodeWeight::new_production(recipe_id));
    let ghost g1 = *graph;
    proof {
        lemma_wf_add_node(*config, g0, g1, idx, PlanNodeWeight::Production(recipe_id));
        lemma_produced_insert_production(plan_graph_nodes(g0), idx, recipe_id);
        lemma_produced_bound(*config, plan_graph_nodes(g1), plan_graph_edges(g1));
        assert(unproduced(*config, g1) + 1 == unproduced(*config, g0));
        lemma_mul_step(unproduced(*config, g1), w);
        assert(w * unproduced(*config, g0) == w * unproduced(*config, g1) + w) by (nonlinear_arith)
            requires unproduced(*config, g1) + 1 == unproduced(*config, g0);
        assert(budget(*config, g1) + w == budget(*config, g0) + 1);
        lemma_submap_at(plan_graph_nodes(g0), plan_graph_nodes(g1), parent_idx);
        lemma_grows_refl(g1);
        lemma_complete_same_nodes(*config, g1, g1);
        if feeding_by_products_backed(*config, g0) {
            lemma_backed_grow(*config, g0, g1);
        }
        assert(side_edges(plan_graph_edges(g1), idx, Side::Incoming) =~= Set::<usize>::empty());
    }
    let mut k: usize = 0;
    while k < recipe.outputs.len()
        invariant
            config.wf(),
            db == &*config.game_db,
            *recipe == db.recipes@[recipe_id as int],
            recipe_id < db.recipes@.len(),
            graph_wf(*config, *graph),
            grows(g1, *graph),
            plan_graph_nodes(*graph).dom().contains(idx),
            plan_graph_nodes(*graph)[idx] == PlanNodeWeight::Production(recipe_id),
            plan_graph_nodes(*graph).dom().contains(parent_idx),
            plan_graph_nodes(*graph)[parent_idx] == parent,
            produced(plan_graph_nodes(*graph)) == produced(plan_graph_nodes(g1)),
            graph_size(*graph) <= graph_size(g1) + 2 * k,
            recipe.outputs@.len() <= max_outputs(db.recipes@),
            w == recipe_cost(*config),
            budget(*config, g1) + w == budget(*config, g0) + 1,
            budget(*config, g0) < u32::MAX,
            k <= recipe.outputs@.len(),
            loop_free(g0) ==> loop_free(*graph),
            new_productions_complete(*config, g1, *graph),
            new_output_edges_end_at(g1, *graph, parent_idx),
            new_production_edges_end_at(g1, *graph, parent_idx),
            request_complete(*config) ==> new_productions_fed(*config, g1, *graph),
            request_complete(*config) && feeding_by_products_backed(*config, g0) ==> feeding_by_products_backed(
                *config,
                *graph,
            ),
            side_edges(plan_graph_edges(*graph), idx, Side::Incoming) == Set::<usize>::empty(),
            forall|j: int|
                #![trigger recipe.outputs@[j]]
                0 <= j < k && recipe.outputs@[j].item != item_id ==> feeds_by_product(
                    *graph,
                    idx,
                    recipe.outputs@[j].item,
                ),
        decreases recipe.outputs.len() - k,
    {
        let o = recipe.outputs[k].item;
        if o != item_id {
            let ghost before = *graph;
            proof {
                assert(database_refs_valid(*db));
                assert(db.recipes@[recipe_id as int].outputs@[k as int].item < db.items@.len());
                assert(recipe.outputs@[k as int].item == o);
            }
            let b = create_partial_by_product_node(config, graph, idx, o);
            proof {
                lemma_grows_trans(g1, before, *graph);
                lemma_links_grow(before, *graph);
                lemma_complete_trans(*config, g1, before, *graph);
                assert(feeds_by_product(*graph, idx, o));
                lemma_output_edges_trans(*config, g1, before, *graph, parent_idx, b);
                lemma_production_edges_trans(*config, g1, before, *graph, parent_idx, b);
                if request_complete(*config) {
                    lemma_fed_trans(*config, g1, before, *graph, b);
                }
                lemma_side_edges_kept(before, *graph, b, idx);
                lemma_submap_at(plan_graph_nodes(before), plan_graph_nodes(*graph), idx);
                lemma_submap_at(plan_graph_nodes(before), plan_graph_nodes(*graph), parent_idx);
            }
        }
        k = k + 1;
    }
    let ghost g2 = *graph;
    proof {
        assert(plan_graph_nodes(g1).dom() =~= plan_graph_nodes(g0).dom().insert(idx));
        assert forall|e: usize|
            #[trigger] plan_graph_edges(g2).dom().contains(e) && !plan_graph_edges(g0).dom().contains(e)
                && plan_graph_nodes(g0).dom().contains(plan_graph_edges(g2)[e].1)
                && plan_graph_nodes(g2)[plan_graph_edges(g2)[e].1] is Production implies plan_graph_edges(g2)[e].1
            == parent_idx by {
            assert(plan_graph_nodes(g1).dom().contains(plan_graph_edges(g2)[e].1));
        }
        assert(side_edges(plan_graph_edges(g2), idx, Side::Incoming).len() == 0);
        lemma_grows_trans(g0, g1, g2);
        lemma_unproduced_grows(*config, g1, g2);
    }
    let mut k: usize = 0;
    while k < recipe.inputs.len()
        invariant
            config.wf(),
            db == &*config.game_db,
            *recipe == db.recipes@[recipe_id as int],
            recipe_id < db.recipes@.len(),
            graph_wf(*config, *graph),
            grows(g0, *graph),
            plan_graph_nodes(*graph).dom().contains(idx),
            plan_graph_nodes(*graph)[idx] == PlanNodeWeight::Production(recipe_id),
            plan_graph_nodes(*graph).dom().contains(parent_idx),
            plan_graph_nodes(*graph)[parent_idx] == parent,
            unproduced(*config, *graph) < unproduced(*config, g0),
            g0 == *old(graph),
            budget(*config, *graph) + w <= budget(*config, g0) + 1 + 2 * max_outputs(db.recipes@)
                + k * c,
            recipe.inputs@.len() <= max_inputs(db.recipes@),
            w == recipe_cost(*config),
            c == step_cost(*config),
            budget(*config, g0) < u32::MAX,
            k <= recipe.inputs@.len(),
            loop_free(g0) ==> loop_free(*graph),
            !plan_graph_nodes(g0).dom().contains(idx),
            plan_graph_nodes(g0).dom().contains(parent_idx),
            grows(g1, *graph),
            new_productions_complete(*config, g1, *graph),
            new_output_edges_end_at(g1, *graph, parent_idx),
            new_production_edges_end_at(g0, *graph, parent_idx),
            request_complete(*config) ==> new_productions_fed(*config, g1, *graph),
            request_complete(*config) && feeding_by_products_backed(*config, g0) ==> feeding_by_products_backed(
                *config,
                *graph,
            ),
            plan_graph_nodes(g1).dom() == plan_graph_nodes(g0).dom().insert(idx),
            config.enabled_recipes@.contains(recipe_id),
            request_complete(*config) ==> side_edges(plan_graph_edges(*graph), idx, Side::Incoming).len() == k,
            request_complete(*config) ==> forall|e: usize|
                #[trigger] plan_graph_edges(*graph).dom().contains(e) && plan_graph_edges(*graph)[e].1 == idx
                    ==> exists|j: int| 0 <= j < k && plan_graph_edges(*graph)[e].2 == recipe.inputs@[j].item,
            forall|j: int|
                #![trigger recipe.outputs@[j]]
                0 <= j < recipe.outputs@.len() && recipe.outputs@[j].item != item_id ==> feeds_by_product(
                    *graph,
                    idx,
                    recipe.outputs@[j].item,
                ),
        decreases recipe.inputs.len() - k,
    {
        let input = recipe.inputs[k].item;
        let ghost before = *graph;
        proof {
            assert(database_refs_valid(*db));
            assert(db.recipes@[recipe_id as int].inputs@[k as int].item < db.items@.len());
            assert(recipe.inputs@[k as int].item == input);
            lemma_mul_step(k as nat, c);
            lemma_mul_le((k + 1) as nat, max_inputs(db.recipes@), c);
        }
        proof {
            if request_complete(*config) {
                let kk = choose|kk: int| 0 <= kk < config.enabled_recipes@.len() && config.enabled_recipes@[kk] == recipe_id;
                assert(recipe_inputs_supplied(*config, config.game_db.recipes@[config.enabled_recipes@[kk] as int]));
                assert(recipe_inputs_supplied(*config, *recipe));
                assert(item_supplied(*config, recipe.inputs@[k as int].item));
                assert forall|e: usize|
                    #[trigger] plan_graph_edges(before).dom().contains(e) && plan_graph_edges(before)[e].1 == idx
                        implies plan_graph_edges(before)[e].2 != input by {
                    let j = choose|j: int| 0 <= j < k && plan_graph_edges(before)[e].2 == recipe.inputs@[j].item;
                    assert(recipe.inputs@[j].item != recipe.inputs@[k as int].item);
                }
                assert(carries_no(before, idx, input));
            }
        }
        create_children(config, graph, idx, input);
        proof {
            lemma_grows_trans(g0, before, *graph);
            lemma_grows_trans(g1, before, *graph);
            lemma_links_grow(before, *graph);
            lemma_complete_trans(*config, g1, before, *graph);
            lemma_submap_at(plan_graph_nodes(before), plan_graph_nodes(*graph), idx);
            lemma_output_edges_trans(*config, g1, before, *graph, parent_idx, idx);
            lemma_production_edges_trans(*config, g0, before, *graph, parent_idx, idx);
            if request_complete(*config) {
                lemma_fed_trans(*config, g1, before, *graph, idx);
                let e = choose|e: usize|
                    !plan_graph_edges(before).dom().contains(e) && plan_graph_edges(*graph)[e].1 == idx
                        && plan_graph_edges(*graph)[e].2 == input && side_edges(plan_graph_edges(*graph), idx, Side::Incoming)
                        == side_edges(plan_graph_edges(before), idx, Side::Incoming).insert(e);
                assert(side_edges(plan_graph_edges(before), idx, Side::Incoming).subset_of(plan_graph_edges(before).dom()));
                vstd::set_lib::lemma_len_subset(side_edges(plan_graph_edges(before), idx, Side::Incoming), plan_graph_edges(before).dom());
                assert(!side_edges(plan_graph_edges(before), idx, Side::Incoming).contains(e));
                assert forall|f: usize|
                    #[trigger] plan_graph_edges(*graph).dom().contains(f) && plan_graph_edges(*graph)[f].1 == idx
                        implies exists|j: int| 0 <= j < k + 1 && plan_graph_edges(*graph)[f].2 == recipe.inputs@[j].item by {
                    if f == e {
                        assert(plan_graph_edges(*graph)[f].2 == recipe.inputs@[k as int].item);
                    } else {
                        assert(side_edges(plan_graph_edges(*graph), idx, Side::Incoming).contains(f));
                        assert(side_edges(plan_graph_edges(before), idx, Side::Incoming).contains(f));
                        lemma_submap_at(plan_graph_edges(before), plan_graph_edges(*graph), f);
                        let j = choose|j: int| 0 <= j < k && plan_graph_edges(before)[f].2 == recipe.inputs@[j].item;
                    }
                }
            }
            lemma_submap_at(plan_graph_nodes(before), plan_graph_nodes(*graph), parent_idx);
            lemma_unproduced_grows(*config, before, *graph);
        }
        k = k + 1;
    }
    let ghost g3 = *graph;
    proof {
        lemma_mul_le(recipe.inputs@.len(), max_inputs(db.recipes@), c);
    }
    let e = graph_add_edge(graph, idx, parent_idx, item_id);
    proof {
        lemma_wf_set_edge(*config, g3, *graph, e, idx, parent_idx, item_id);
        lemma_grows_set_edge(g3, *graph, e, (idx, parent_idx, item_id));
        lemma_grows_trans(g0, g3, *graph);
        if loop_free(g0) {
            lemma_loop_free_set_edge(g3, *graph, e, (idx, parent_idx, item_id));
        }
        assert(plan_graph_edges(*graph).dom().contains(e));
        assert(has_edge(*graph, idx, parent_idx, item_id));
        assert(plan_graph_nodes(*graph).dom().contains(idx));
        lemma_complete_same_nodes(*config, g3, *graph);
        lemma_grows_trans(g1, g3, *graph);
        lemma_links_grow(g3, *graph);
        lemma_complete_trans(*config, g1, g3, *graph);
        lemma_output_edges_trans(*config, g1, g3, *graph, parent_idx, parent_idx);
        lemma_production_edges_trans(*config, g0, g3, *graph, parent_idx, parent_idx);
        lemma_side_edges_kept(g3, *graph, parent_idx, idx);
        if request_complete(*config) {
            lemma_fed_trans(*config, g1, g3, *graph, parent_idx);
            assert forall|n: usize|
                #[trigger] plan_graph_nodes(*graph).dom().contains(n) && !plan_graph_nodes(g0).dom().contains(n)
                    implies (plan_graph_nodes(*graph)[n] matches PlanNodeWeight::Production(r) ==> side_edges(
                    plan_graph_edges(*graph),
                    n,
                    Side::Incoming,
                ).len() == config.game_db.recipes@[r as int].inputs@.len()) by {
                if n != idx {
                    assert(!plan_graph_nodes(g1).dom().contains(n));
                }
            }
        }
        if feeding_by_products_backed(*config, g0) && request_complete(*config) {
            lemma_backed_grow(*config, g3, *graph);
        }
        lemma_submap_at(plan_graph_nodes(g3), plan_graph_nodes(*graph), parent_idx);
        assert(feeds_by_product(*graph, idx, item_id));
        assert forall|n: usize|
            #[trigger] plan_graph_nodes(*graph).dom().contains(n) && !plan_graph_nodes(g0).dom().contains(n)
                implies feeds_all_outputs(*config, *graph, n) by {
            if n != idx {
                assert(!plan_graph_nodes(g1).dom().contains(n));
            } else {
                assert forall|j: int|
                    0 <= j < config.game_db.recipes@[recipe_id as int].outputs@.len() implies feeds_by_product(
                    *graph,
                    idx,
                    #[trigger] config.game_db.recipes@[recipe_id as int].outputs@[j].item,
                ) by {
                    assert(recipe.outputs@[j] == config.game_db.recipes@[recipe_id as int].outputs@[j]);
                }
            }
        }
    }
}


/// Whether every edge of `before` whose two ends `after` still has is
/// still an edge of `after`: edges go only with their nodes.
pub open spec fn edges_kept(before: FullPlanGraph, after: FullPlanGraph) -> bool {
    forall|e: usize|
        #[trigger] plan_graph_edges(before).dom().contains(e) && plan_graph_nodes(after).dom().contains(
            plan_graph_edges(before)[e].0,
        ) && plan_graph_nodes(after).dom().contains(plan_graph_edges(before)[e].1)
            ==> plan_graph_edges(after).dom().contains(e)
}

/// Whether `x` is the other end of some edge at one end of `a`.
pub open spec fn names_an_end(x: usize, edges: Map<usize, (usize, usize, ItemId)>, a: usize, side: Side) -> bool {
    exists|e: usize| #[trigger] side_edges(edges, a, side).contains(e) && other_end(edges, e, side) == x
}

/// The list of neighbours at one end of `a` names the other end of each
/// edge at that end, and of nothing else.
proof fn lemma_list_ends(list: Seq<usize>, edges: Map<usize, (usize, usize, ItemId)>, a: usize, side: Side)
    requires
        neighbor_list(list, edges, a, side),
    ensures
        forall|i: int| 0 <= i < list.len() ==> #[trigger] names_an_end(list[i], edges, a, side),
        forall|e: usize|
            #[trigger] side_edges(edges, a, side).contains(e) ==> exists|i: int|
                0 <= i < list.len() && list[i] == other_end(edges, e, side),
{
    let es = choose|es: Seq<usize>|
        {
            &&& es.no_duplicates()
            &&& es.to_set() == side_edges(edges, a, side)
            &&& es.len() == list.len()
            &&& forall|i: int| 0 <= i < es.len() ==> list[i] == other_end(edges, es[i], side)
        };
    assert forall|i: int| 0 <= i < list.len() implies #[trigger] names_an_end(list[i], edges, a, side) by {
        assert(es.to_set().contains(es[i]));
        assert(side_edges(edges, a, side).contains(es[i]));
        assert(list[i] == other_end(edges, es[i], side));
    }
    assert forall|e: usize| #[trigger] side_edges(edges, a, side).contains(e) implies exists|i: int|
        0 <= i < list.len() && list[i] == other_end(edges, e, side) by {
        assert(es.to_set().contains(e));
        let i = choose|i: int| 0 <= i < es.len() && es[i] == e;
        assert(list[i] == other_end(edges, e, side));
    }
}

/// Removing a node keeps every edge whose ends are both left.
proof fn lemma_edges_kept_remove(a: FullPlanGraph, b: FullPlanGraph, x: usize)
    requires
        plan_graph_nodes(b) == plan_graph_nodes(a).remove(x),
        plan_graph_edges(b) == edges_without(plan_graph_edges(a), x),
    ensures
        edges_kept(a, b),
{
}

/// Keeping edges composes.
proof fn lemma_edges_kept_trans(a: FullPlanGraph, b: FullPlanGraph, c: FullPlanGraph)
    requires
        edges_kept(a, b),
        edges_kept(b, c),
        plan_graph_nodes(c).dom().subset_of(plan_graph_nodes(b).dom()),
        plan_graph_edges(b).submap_of(plan_graph_edges(a)),
    ensures
        edges_kept(a, c),
{
    assert forall|e: usize|
        #[trigger] plan_graph_edges(a).dom().contains(e) && plan_graph_nodes(c).dom().contains(plan_graph_edges(a)[e].0)
            && plan_graph_nodes(c).dom().contains(plan_graph_edges(a)[e].1) implies plan_graph_edges(c).dom().contains(e) by {
        assert(plan_graph_edges(b).dom().contains(e));
        lemma_submap_at(plan_graph_edges(b), plan_graph_edges(a), e);
    }
}

/// A finite set with two different members has at least two members.
proof fn lemma_two_members(s: Set<usize>, x: usize, y: usize)
    requires
        s.finite(),
        s.contains(x),
        s.contains(y),
        x != y,
    ensures
        s.len() >= 2,
{
    assert(set![x, y].len() == 2) by {
        assert(set![x, y] =~= set![x].insert(y));
    }
    vstd::set_lib::lemma_len_subset(set![x, y], s);
}

/// Whether the graph only lost nodes and edges: what is left is unchanged.
pub open spec fn shrinks(before: FullPlanGraph, after: FullPlanGraph) -> bool {
    &&& plan_graph_nodes(after).submap_of(plan_graph_nodes(before))
    &&& plan_graph_edges(after).submap_of(plan_graph_edges(before))
}

/// The nodes not yet listed in `listed`.
pub open spec fn unlisted(nodes: Map<usize, PlanNodeWeight>, listed: Seq<usize>) -> Set<usize> {
    nodes.dom().filter(|n: usize| !listed.contains(n))
}

/// Whether the output nodes of `before` are still in `after`, except
/// perhaps the node `root` when `root_may_go` holds.
pub open spec fn keeps_outputs(before: FullPlanGraph, after: FullPlanGraph, root: usize, root_may_go: bool) -> bool {
    forall|n: usize|
        plan_graph_nodes(before).dom().contains(n) && (#[trigger] plan_graph_nodes(before)[n] is Output)
            && (n != root || !root_may_go) ==> plan_graph_nodes(after).dom().contains(n)
}

/// Shrinking is transitive.
proof fn lemma_shrinks_trans(a: FullPlanGraph, b: FullPlanGraph, c: FullPlanGraph)
    requires
        shrinks(a, b),
        shrinks(b, c),
    ensures
        shrinks(a, c),
{
    let (na, nb, nc) = (plan_graph_nodes(a), plan_graph_nodes(b), plan_graph_nodes(c));
    let (ea, eb, ec) = (plan_graph_edges(a), plan_graph_edges(b), plan_graph_edges(c));
    assert forall|k: usize| #[trigger] nc.dom().contains(k) implies na.dom().contains(k) && nc[k]
        == na[k] by {
        lemma_submap_at(nc, nb, k);
        lemma_submap_at(nb, na, k);
    }
    assert forall|k: usize| #[trigger] ec.dom().contains(k) implies ea.dom().contains(k) && ec[k]
        == ea[k] by {
        lemma_submap_at(ec, eb, k);
        lemma_submap_at(eb, ea, k);
    }
}

/// Fewer nodes and more listed nodes leave fewer nodes unlisted.
pub(crate) proof fn lemma_unlisted_shrinks(
    a: Map<usize, PlanNodeWeight>,
    la: Seq<usize>,
    b: Map<usize, PlanNodeWeight>,
    lb: Seq<usize>,
)
    requires
        a.dom().finite(),
        b.dom().subset_of(a.dom()),
        forall|x: usize| la.contains(x) ==> lb.contains(x),
    ensures
        unlisted(b, lb).subset_of(unlisted(a, la)),
        unlisted(a, la).finite(),
        unlisted(b, lb).len() <= unlisted(a, la).len(),
{
    vstd::set_lib::lemma_len_subset(unlisted(b, lb), unlisted(a, la));
}

/// Listing a node that was unlisted leaves strictly fewer unlisted nodes.
pub(crate) proof fn lemma_unlisted_strict(
    a: Map<usize, PlanNodeWeight>,
    la: Seq<usize>,
    b: Map<usize, PlanNodeWeight>,
    lb: Seq<usize>,
    x: usize,
)
    requires
        a.dom().finite(),
        b.dom().subset_of(a.dom()),
        forall|y: usize| la.contains(y) ==> lb.contains(y),
        a.dom().contains(x),
        !la.contains(x),
        lb.contains(x),
    ensures
        unlisted(b, lb).len() < unlisted(a, la).len(),
{
    lemma_unlisted_shrinks(a, la, b, lb);
    let smaller = unlisted(a, la).remove(x);
    assert(unlisted(b, lb).subset_of(smaller));
    vstd::set_lib::lemma_len_subset(unlisted(b, lb), smaller);
}

/// Removing a node keeps the invariant and shrinks the graph.
proof fn lemma_wf_remove<A>(cfg: PlanConfig<A>, before: FullPlanGraph, after: FullPlanGraph, a: usize)
    requires
        graph_wf(cfg, before),
        graph_consistent(plan_graph_nodes(after), plan_graph_edges(after)),
        plan_graph_nodes(after) == plan_graph_nodes(before).remove(a),
        plan_graph_edges(after) == edges_without(plan_graph_edges(before), a),
    ensures
        graph_wf(cfg, after),
        shrinks(before, after),
        !plan_graph_nodes(after).dom().contains(a),
        forall|n: usize|
            plan_graph_nodes(before).dom().contains(n) && n != a ==> plan_graph_nodes(after).dom().contains(n),
{
    let (nb, na) = (plan_graph_nodes(before), plan_graph_nodes(after));
    let (eb, ea) = (plan_graph_edges(before), plan_graph_edges(after));
    assert forall|e: usize| #![trigger ea[e]] ea.dom().contains(e) implies eb.dom().contains(e) && ea[e] == eb[e] by {}
    assert forall|e: usize| #![trigger ea[e]] ea.dom().contains(e) implies {
        &&& provides(cfg, na[ea[e].0], ea[e].2)
        &&& accepts(cfg, na[ea[e].1], ea[e].2)
        &&& na[ea[e].1] is Output ==> !(na[ea[e].0] is Production)
    } by {
        assert(eb.dom().contains(e) && ea[e] == eb[e]);
        assert(nb.dom().contains(eb[e].0) && nb.dom().contains(eb[e].1));
    }
}

/// The nodes at the other end of a node's edges were nodes when the list
/// was made, and each is joined to it by an edge of the listed side.
proof fn lemma_neighbor_list<A>(cfg: PlanConfig<A>, graph: FullPlanGraph, list: Seq<usize>, a: usize, side: Side)
    requires
        graph_wf(cfg, graph),
        neighbor_list(list, plan_graph_edges(graph), a, side),
    ensures
        forall|i: int| 0 <= i < list.len() ==> plan_graph_nodes(graph).dom().contains(#[trigger] list[i]),
        forall|i: int| 0 <= i < list.len() ==> #[trigger] list[i] < u32::MAX,
        side is Incoming ==> forall|i: int|
            0 <= i < list.len() ==> !(#[trigger] plan_graph_nodes(graph)[list[i]] is Output),
        side is Outgoing && plan_graph_nodes(graph).dom().contains(a) && plan_graph_nodes(graph)[a] is Production
            ==> forall|i: int| 0 <= i < list.len() ==> !(#[trigger] plan_graph_nodes(graph)[list[i]] is Output),
{
    let edges = plan_graph_edges(graph);
    let nodes = plan_graph_nodes(graph);
    let es = choose|es: Seq<usize>|
        {
            &&& es.no_duplicates()
            &&& es.to_set() == side_edges(edges, a, side)
            &&& es.len() == list.len()
            &&& forall|i: int| 0 <= i < es.len() ==> list[i] == other_end(edges, es[i], side)
        };
    assert forall|i: int| 0 <= i < list.len() implies {
        &&& nodes.dom().contains(#[trigger] list[i])
        &&& list[i] < u32::MAX
        &&& side is Incoming ==> !(nodes[list[i]] is Output)
        &&& side is Outgoing && nodes.dom().contains(a) && nodes[a] is Production ==> !(nodes[list[i]] is Output)
    } by {
        assert(es.to_set().contains(es[i]));
        let e = es[i];
        assert(edges.dom().contains(e));
        assert(provides(cfg, nodes[edges[e].0], edges[e].2));
    }
}

/// Whether `x` appears in `v`.
pub(crate) fn listed(v: &Vec<usize>, x: usize) -> (r: bool)
    ensures
        r == v@.contains(x),
{
    let mut i: usize = 0;
    while i < v.len()
        invariant
            i <= v@.len(),
            forall|j: int| 0 <= j < i ==> v@[j] != x,
        decreases v.len() - i,
    {
        if v[i] == x {
            return true;
        }
        i = i + 1;
    }
    false
}

/// Removes the node `idx` together with the nodes it is built from: when
/// `idx` is a production, each of its consumers that has no other edge is
/// removed; then each node that feeds `idx` is pruned the same way, and
/// `idx` itself is removed last.
///
/// `active` lists the nodes being pruned by the enclosing calls; a node
/// that feeds back into one of them is not pruned again.
#[verifier::rlimit(60)]
fn prune<A>(config: &PlanConfig<A>, graph: &mut FullPlanGraph, idx: usize, active: &mut Vec<usize>)
    requires
        config.wf(),
        graph_wf(*config, *old(graph)),
        plan_graph_nodes(*old(graph)).dom().contains(idx),
        !(plan_graph_nodes(*old(graph))[idx] is Output),
        !old(active)@.contains(idx),
    ensures
        graph_wf(*config, *final(graph)),
        shrinks(*old(graph), *final(graph)),
        !plan_graph_nodes(*final(graph)).dom().contains(idx),
        keeps_outputs(*old(graph), *final(graph), idx, false),
        final(active)@ == old(active)@,
        edges_kept(*old(graph), *final(graph)),
        forall|e: usize|
            #[trigger] plan_graph_edges(*old(graph)).dom().contains(e) && plan_graph_edges(*old(graph))[e].1 == idx
                && !old(active)@.contains(plan_graph_edges(*old(graph))[e].0) ==> !plan_graph_nodes(
                *final(graph),
            ).dom().contains(plan_graph_edges(*old(graph))[e].0),
        plan_graph_nodes(*old(graph))[idx] is Production ==> forall|e: usize|
            #[trigger] plan_graph_edges(*old(graph)).dom().contains(e) && plan_graph_edges(*old(graph))[e].0 == idx
                && touching_edges(plan_graph_edges(*old(graph)), plan_graph_edges(*old(graph))[e].1).len() == 1
                ==> !plan_graph_nodes(*final(graph)).dom().contains(plan_graph_edges(*old(graph))[e].1),
    decreases unlisted(plan_graph_nodes(*old(graph)), old(active)@).len(),
{
    let ghost g0 = *graph;
    let ghost a0 = active@;
    proof {
        assert(plan_graph_nodes(g0).submap_of(plan_graph_nodes(g0)));
        assert(plan_graph_edges(g0).submap_of(plan_graph_edges(g0)));
    }
    if let PlanNodeWeight::Production(_) = graph_node_weight(graph, idx) {
        let parents = graph_neighbors_directed(graph, idx, Side::Outgoing);
        proof {
            lemma_neighbor_list(*config, *graph, parents@, idx, Side::Outgoing);
            lemma_list_ends(parents@, plan_graph_edges(*graph), idx, Side::Outgoing);
        }
        let mut i: usize = 0;
        while i < parents.len()
            invariant
                config.wf(),
                graph_wf(*config, *graph),
                shrinks(g0, *graph),
                keeps_outputs(g0, *graph, idx, false),
                plan_graph_nodes(g0)[idx] is Production,
                plan_graph_nodes(g0).dom().contains(idx),
                forall|j: int| 0 <= j < parents@.len() ==> #[trigger] parents@[j] < u32::MAX,
                forall|j: int|
                    0 <= j < parents@.len() ==> plan_graph_nodes(g0).dom().contains(#[trigger] parents@[j])
                        && !(plan_graph_nodes(g0)[parents@[j]] is Output),
                i <= parents@.len(),
                g0 == *old(graph),
                edges_kept(g0, *graph),
                plan_graph_edges(g0).dom().finite(),
                forall|j: int|
                    0 <= j < parents@.len() ==> #[trigger] names_an_end(
                        parents@[j],
                        plan_graph_edges(g0),
                        idx,
                        Side::Outgoing,
                    ),
                forall|e: usize|
                    #[trigger] side_edges(plan_graph_edges(g0), idx, Side::Outgoing).contains(e) ==> exists|j: int|
                        0 <= j < parents@.len() && parents@[j] == other_end(plan_graph_edges(g0), e, Side::Outgoing),
                forall|e: usize|
                    #[trigger] plan_graph_edges(g0).dom().contains(e) && plan_graph_edges(g0)[e].0 == idx
                        && touching_edges(plan_graph_edges(g0), plan_graph_edges(g0)[e].1).len() == 1 && (exists|j: int|
                        0 <= j < i && parents@[j] == plan_graph_edges(g0)[e].1) ==> !plan_graph_nodes(*graph).dom().contains(
                        plan_graph_edges(g0)[e].1,
                    ),
                !plan_graph_nodes(*graph).dom().contains(idx) ==> forall|e: usize|
                    #[trigger] plan_graph_edges(g0).dom().contains(e) && plan_graph_edges(g0)[e].1 == idx
                        ==> plan_graph_edges(g0)[e].0 == idx || !plan_graph_nodes(*graph).dom().contains(
                        plan_graph_edges(g0)[e].0,
                    ),
                !plan_graph_nodes(*graph).dom().contains(idx) ==> forall|e: usize|
                    #[trigger] plan_graph_edges(g0).dom().contains(e) && plan_graph_edges(g0)[e].0 == idx
                        ==> plan_graph_edges(g0)[e].1 == idx || !plan_graph_nodes(*graph).dom().contains(
                        plan_graph_edges(g0)[e].1,
                    ),
            decreases parents.len() - i,
        {
            let p = parents[i];
            let ghost start = *graph;
            if graph_contains_node(graph, p) {
                let around = graph_neighbors_undirected(graph, p);
                if around.len() == 1 {
                    let ghost before = *graph;
                    graph_remove_node(graph, p);
                    proof {
                        lemma_wf_remove(*config, before, *graph, p);
                        lemma_shrinks_trans(g0, before, *graph);
                        lemma_edges_kept_remove(before, *graph, p);
                        lemma_edges_kept_trans(g0, before, *graph);
                        if p == idx {
                            assert(names_an_end(parents@[i as int], plan_graph_edges(g0), idx, Side::Outgoing));
                            let es = choose|es: usize|
                                #[trigger] side_edges(plan_graph_edges(g0), idx, Side::Outgoing).contains(es) && other_end(
                                    plan_graph_edges(g0),
                                    es,
                                    Side::Outgoing,
                                ) == parents@[i as int];
                            assert forall|e: usize|
                                #[trigger] plan_graph_edges(g0).dom().contains(e) && plan_graph_edges(g0)[e].1 == idx
                                    implies plan_graph_edges(g0)[e].0 == idx || !plan_graph_nodes(*graph).dom().contains(
                                    plan_graph_edges(g0)[e].0,
                                ) by {
                                let x = plan_graph_edges(g0)[e].0;
                                if x != idx && plan_graph_nodes(*graph).dom().contains(x) {
                                    assert(plan_graph_edges(before).dom().contains(e));
                                    assert(plan_graph_edges(before).dom().contains(es));
                                    lemma_submap_at(plan_graph_edges(before), plan_graph_edges(g0), e);
                                    lemma_submap_at(plan_graph_edges(before), plan_graph_edges(g0), es);
                                    assert(touching_edges(plan_graph_edges(before), idx).contains(e));
                                    assert(touching_edges(plan_graph_edges(before), idx).contains(es));
                                    assert(e != es);
                                    lemma_two_members(touching_edges(plan_graph_edges(before), idx), e, es);
                                }
                            }
                            assert forall|e: usize|
                                #[trigger] plan_graph_edges(g0).dom().contains(e) && plan_graph_edges(g0)[e].0 == idx
                                    implies plan_graph_edges(g0)[e].1 == idx || !plan_graph_nodes(*graph).dom().contains(
                                    plan_graph_edges(g0)[e].1,
                                ) by {
                                let x = plan_graph_edges(g0)[e].1;
                                if x != idx && plan_graph_nodes(*graph).dom().contains(x) {
                                    assert(plan_graph_edges(before).dom().contains(e));
                                    assert(plan_graph_edges(before).dom().contains(es));
                                    lemma_submap_at(plan_graph_edges(before), plan_graph_edges(g0), e);
                                    lemma_submap_at(plan_graph_edges(before), plan_graph_edges(g0), es);
                                    assert(touching_edges(plan_graph_edges(before), idx).contains(e));
                                    assert(touching_edges(plan_graph_edges(before), idx).contains(es));
                                    assert(e != es);
                                    lemma_two_members(touching_edges(plan_graph_edges(before), idx), e, es);
                                }
                            }
                        }
                        assert forall|n: usize|
                            plan_graph_nodes(g0).dom().contains(n) && (#[trigger] plan_graph_nodes(g0)[n] is Output)
                                implies plan_graph_nodes(*graph).dom().contains(n) by {
                            assert(plan_graph_nodes(before).dom().contains(n));
                            lemma_submap_at(plan_graph_nodes(before), plan_graph_nodes(g0), p);
                        }
                    }
                }
            }
            proof {
                assert forall|e: usize|
                    #[trigger] plan_graph_edges(g0).dom().contains(e) && plan_graph_edges(g0)[e].0 == idx
                        && touching_edges(plan_graph_edges(g0), plan_graph_edges(g0)[e].1).len() == 1 && (exists|j: int|
                        0 <= j < i + 1 && parents@[j] == plan_graph_edges(g0)[e].1) implies !plan_graph_nodes(
                        *graph,
                    ).dom().contains(plan_graph_edges(g0)[e].1) by {
                    let q = plan_graph_edges(g0)[e].1;
                    if q == p && plan_graph_nodes(*graph).dom().contains(q) {
                        assert(plan_graph_nodes(start).dom().contains(q));
                        assert(plan_graph_nodes(start).dom().contains(idx));
                        assert(plan_graph_edges(start).dom().contains(e));
                        lemma_submap_at(plan_graph_edges(start), plan_graph_edges(g0), e);
                        assert(touching_edges(plan_graph_edges(start), q) =~= set![e]) by {
                            assert forall|f: usize| touching_edges(plan_graph_edges(start), q).contains(f) implies f == e by {
                                lemma_submap_at(plan_graph_edges(start), plan_graph_edges(g0), f);
                                assert(touching_edges(plan_graph_edges(g0), q).contains(f));
                                assert(touching_edges(plan_graph_edges(g0), q).contains(e));
                                if f != e {
                                    lemma_two_members(touching_edges(plan_graph_edges(g0), q), e, f);
                                }
                            }
                        }
                    }
                }
            }
            i = i + 1;
        }
        proof {
            assert forall|e: usize|
                #[trigger] plan_graph_edges(g0).dom().contains(e) && plan_graph_edges(g0)[e].0 == idx
                    && touching_edges(plan_graph_edges(g0), plan_graph_edges(g0)[e].1).len() == 1 implies !plan_graph_nodes(
                *graph,
            ).dom().contains(plan_graph_edges(g0)[e].1) by {
                assert(side_edges(plan_graph_edges(g0), idx, Side::Outgoing).contains(e));
                let j = choose|j: int| 0 <= j < parents@.len() && parents@[j] == other_end(plan_graph_edges(g0), e, Side::Outgoing);
            }
        }
    }
    let ghost g1 = *graph;
    proof {
        assert(edges_kept(g0, g1));
        assert(!plan_graph_nodes(g1).dom().contains(idx) ==> forall|e: usize|
            #[trigger] plan_graph_edges(g0).dom().contains(e) && plan_graph_edges(g0)[e].1 == idx
                ==> plan_graph_edges(g0)[e].0 == idx || !plan_graph_nodes(g1).dom().contains(plan_graph_edges(g0)[e].0));
    }
    let present = graph_contains_node(graph, idx);
    if present {
        let children = graph_neighbors_directed(graph, idx, Side::Incoming);
        proof {
            lemma_neighbor_list(*config, *graph, children@, idx, Side::Incoming);
            lemma_list_ends(children@, plan_graph_edges(*graph), idx, Side::Incoming);
        }
        active.push(idx);
        let mut i: usize = 0;
        while i < children.len()
            invariant
                config.wf(),
                graph_wf(*config, *graph),
                shrinks(g0, *graph),
                shrinks(g1, *graph),
                keeps_outputs(g0, *graph, idx, false),
                plan_graph_nodes(g0).dom().contains(idx),
                idx < u32::MAX,
                plan_graph_nodes(g0).dom().finite(),
                !a0.contains(idx),
                a0 == old(active)@,
                g0 == *old(graph),
                active@ == a0.push(idx),
                forall|j: int| 0 <= j < children@.len() ==> #[trigger] children@[j] < u32::MAX,
                forall|j: int|
                    0 <= j < children@.len() ==> plan_graph_nodes(g1).dom().contains(#[trigger] children@[j])
                        && !(plan_graph_nodes(g1)[children@[j]] is Output),
                i <= children@.len(),
                edges_kept(g0, *graph),
                forall|j: int|
                    0 <= j < i && !a0.contains(#[trigger] children@[j]) && children@[j] != idx
                        ==> !plan_graph_nodes(*graph).dom().contains(children@[j]),
            decreases children.len() - i,
        {
            let c = children[i];
            let ghost start = *graph;
            if graph_contains_node(graph, c) && !listed(active, c) {
                let ghost before = *graph;
                proof {
                    lemma_submap_at(plan_graph_nodes(before), plan_graph_nodes(g1), c);
                    assert(plan_graph_nodes(before).dom().subset_of(plan_graph_nodes(g0).dom()));
                    assert forall|y: usize| a0.contains(y) implies active@.contains(y) by {
                        let k = choose|k: int| 0 <= k < a0.len() && a0[k] == y;
                        assert(active@[k] == y);
                    }
                    assert(active@[a0.len() as int] == idx);
                    lemma_unlisted_strict(plan_graph_nodes(g0), a0, plan_graph_nodes(before), active@, idx);
                }
                prune(config, graph, c, active);
                proof {
                    lemma_shrinks_trans(g0, before, *graph);
                    lemma_shrinks_trans(g1, before, *graph);
                    lemma_edges_kept_trans(g0, before, *graph);
                }
            }
            proof {
                if !a0.contains(c) && c != idx && plan_graph_nodes(*graph).dom().contains(c) {
                    assert(plan_graph_nodes(start).dom().contains(c));
                    assert(active@.contains(c));
                    let k = choose|k: int| 0 <= k < active@.len() && active@[k] == c;
                    if k < a0.len() {
                        assert(a0[k] == c);
                    }
                }
            }
            i = i + 1;
        }
        active.pop();
        proof {
            assert(active@ =~= a0);
        }
    }
    let ghost g2 = *graph;
    graph_remove_node(graph, idx);
    proof {
        lemma_wf_remove(*config, g2, *graph, idx);
        lemma_shrinks_trans(g0, g2, *graph);
        lemma_edges_kept_remove(g2, *graph, idx);
        lemma_edges_kept_trans(g0, g2, *graph);
        assert forall|e: usize|
            #[trigger] plan_graph_edges(g0).dom().contains(e) && plan_graph_edges(g0)[e].1 == idx && !a0.contains(
                plan_graph_edges(g0)[e].0,
            ) implies !plan_graph_nodes(*graph).dom().contains(plan_graph_edges(g0)[e].0) by {
            let x = plan_graph_edges(g0)[e].0;
            if x != idx && plan_graph_nodes(g1).dom().contains(x) && plan_graph_nodes(g1).dom().contains(idx) {
                assert(plan_graph_edges(g1).dom().contains(e));
                lemma_submap_at(plan_graph_edges(g1), plan_graph_edges(g0), e);
                assert(side_edges(plan_graph_edges(g1), idx, Side::Incoming).contains(e));
            }
        }
    }
}


/// Whether node `n` is a by-product node that no edge feeds.
pub open spec fn barren(graph: FullPlanGraph, n: usize) -> bool {
    &&& plan_graph_nodes(graph).dom().contains(n)
    &&& plan_graph_nodes(graph)[n] is ByProduct
    &&& forall|e: usize|
        #[trigger] plan_graph_edges(graph).dom().contains(e) ==> plan_graph_edges(graph)[e].1 != n
}

/// Whether node `n`, walked from, is found impossible whatever the rest of
/// the graph holds: a barren by-product node, or the input node of an item
/// of which no amount is available.
pub open spec fn surely_impossible<A>(cfg: PlanConfig<A>, graph: FullPlanGraph, n: usize) -> bool {
    ||| barren(graph, n)
    ||| plan_graph_nodes(graph).dom().contains(n) && (plan_graph_nodes(graph)[n] matches PlanNodeWeight::Input(
        i,
    ) && cfg.input_is_zero(i))
}

/// Whether node `n`, walked from, is found possible and left in place: a
/// producer node, or the input node of an item of which some amount is
/// available.
pub open spec fn surely_possible<A>(cfg: PlanConfig<A>, graph: FullPlanGraph, n: usize) -> bool {
    &&& plan_graph_nodes(graph).dom().contains(n)
    &&& {
        ||| plan_graph_nodes(graph)[n] is Producer
        ||| plan_graph_nodes(graph)[n] matches PlanNodeWeight::Input(i) && !cfg.input_is_zero(i)
    }
}

/// Whether some edge starts at node `n`.
pub open spec fn feeds_some_node(graph: FullPlanGraph, n: usize) -> bool {
    exists|e: usize| #[trigger] plan_graph_edges(graph).dom().contains(e) && plan_graph_edges(graph)[e].0 == n
}

/// Whether some edge ends at node `n`.
pub open spec fn is_fed(graph: FullPlanGraph, n: usize) -> bool {
    exists|e: usize| #[trigger] plan_graph_edges(graph).dom().contains(e) && plan_graph_edges(graph)[e].1 == n
}

/// Whether node `n` is found possible by the pruning rules, as far as the
/// node itself goes: an input of an item of which some amount is
/// available; a producer; a by-product that, when it feeds some node, is
/// fed by some node; an output fed by some node; a production fed by as
/// many edges as its recipe has inputs.
pub open spec fn node_sound<A>(cfg: PlanConfig<A>, graph: FullPlanGraph, n: usize) -> bool {
    match plan_graph_nodes(graph)[n] {
        PlanNodeWeight::Input(i) => !cfg.input_is_zero(i),
        PlanNodeWeight::Producer(_) => true,
        PlanNodeWeight::ByProduct(_) => feeds_some_node(graph, n) ==> is_fed(graph, n),
        PlanNodeWeight::Output(_) => is_fed(graph, n),
        PlanNodeWeight::Production(r) => side_edges(plan_graph_edges(graph), n, Side::Incoming).len()
            == cfg.game_db.recipes@[r as int].inputs@.len(),
    }
}

/// Whether every node of the graph is sound; pruning such a graph finds
/// every node it walks from possible and removes nothing.
pub open spec fn graph_sound<A>(cfg: PlanConfig<A>, graph: FullPlanGraph) -> bool {
    forall|n: usize| #[trigger] plan_graph_nodes(graph).dom().contains(n) ==> node_sound(cfg, graph, n)
}

/// A node that is surely impossible stays so while the graph only loses
/// nodes and edges.
proof fn lemma_surely_impossible_shrinks<A>(cfg: PlanConfig<A>, a: FullPlanGraph, b: FullPlanGraph, x: usize)
    requires
        shrinks(a, b),
        plan_graph_nodes(b).dom().contains(x),
        surely_impossible(cfg, a, x),
    ensures
        surely_impossible(cfg, b, x),
{
    lemma_submap_at(plan_graph_nodes(b), plan_graph_nodes(a), x);
    if barren(a, x) {
        assert forall|e: usize| #[trigger] plan_graph_edges(b).dom().contains(e) implies plan_graph_edges(b)[e].1 != x by {
            lemma_submap_at(plan_graph_edges(b), plan_graph_edges(a), e);
        }
    }
}

/// Whether each node that `vis` lists and `v0` does not, other than `idx`,
/// and that was surely impossible in `g0`, is gone from `g`.
pub open spec fn visited_impossible_removed<A>(
    cfg: PlanConfig<A>,
    g0: FullPlanGraph,
    v0: Seq<usize>,
    idx: usize,
    vis: Seq<usize>,
    g: FullPlanGraph,
) -> bool {
    forall|x: usize|
        #[trigger] vis.contains(x) && !v0.contains(x) && x != idx && surely_impossible(cfg, g0, x)
            ==> !plan_graph_nodes(g).dom().contains(x)
}

/// A walk from a feeding node keeps the visited nodes that were surely
/// impossible removed.
proof fn lemma_visited_removed<A>(
    cfg: PlanConfig<A>,
    g0: FullPlanGraph,
    v0: Seq<usize>,
    idx: usize,
    seen: Seq<usize>,
    before: FullPlanGraph,
    vis: Seq<usize>,
    after: FullPlanGraph,
)
    requires
        shrinks(g0, before),
        shrinks(before, after),
        visited_impossible_removed(cfg, g0, v0, idx, seen, before),
        forall|x: usize|
            #[trigger] vis.contains(x) && !seen.contains(x) && surely_impossible(cfg, before, x)
                ==> !plan_graph_nodes(after).dom().contains(x),
    ensures
        visited_impossible_removed(cfg, g0, v0, idx, vis, after),
{
    assert forall|x: usize|
        #[trigger] vis.contains(x) && !v0.contains(x) && x != idx && surely_impossible(cfg, g0, x) implies !plan_graph_nodes(
        after,
    ).dom().contains(x) by {
        if plan_graph_nodes(after).dom().contains(x) {
            assert(plan_graph_nodes(before).dom().contains(x));
            if !seen.contains(x) {
                lemma_surely_impossible_shrinks(cfg, g0, before, x);
            }
        }
    }
}

/// Whether every edge that ends at node `n` starts at a node that is surely
/// impossible and not listed in `visited`.
pub open spec fn fed_only_by_impossible<A>(cfg: PlanConfig<A>, graph: FullPlanGraph, n: usize, visited: Seq<usize>) -> bool {
    forall|e: usize|
        #[trigger] plan_graph_edges(graph).dom().contains(e) && plan_graph_edges(graph)[e].1 == n
            ==> surely_impossible(cfg, graph, plan_graph_edges(graph)[e].0) && !visited.contains(
            plan_graph_edges(graph)[e].0,
        )
}

/// Whether some edge ends at node `n`, and every such edge starts at a node
/// not listed in `visited` that is surely possible, or that is a by-product
/// node fed only by such nodes, not listed in `visited` with `n` added.
pub open spec fn fed_only_by_supplied<A>(cfg: PlanConfig<A>, graph: FullPlanGraph, n: usize, visited: Seq<usize>) -> bool {
    &&& exists|e: usize| #[trigger] plan_graph_edges(graph).dom().contains(e) && plan_graph_edges(graph)[e].1 == n
    &&& forall|e: usize|
        #[trigger] plan_graph_edges(graph).dom().contains(e) && plan_graph_edges(graph)[e].1 == n ==> {
            let s = plan_graph_edges(graph)[e].0;
            &&& !visited.contains(s)
            &&& {
                ||| surely_possible(cfg, graph, s)
                ||| plan_graph_nodes(graph)[s] is ByProduct && fed_only_by_possible(cfg, graph, s, visited.push(n))
            }
        }
}

/// Whether every edge that ends at node `n` starts at a node not listed in
/// `visited` that is surely possible or surely impossible, and some such
/// edge starts at a node that is surely possible.
pub open spec fn fed_by_sure_nodes_one_possible<A>(cfg: PlanConfig<A>, graph: FullPlanGraph, n: usize, visited: Seq<usize>) -> bool {
    &&& forall|e: usize|
        #[trigger] plan_graph_edges(graph).dom().contains(e) && plan_graph_edges(graph)[e].1 == n ==> (
        surely_possible(cfg, graph, plan_graph_edges(graph)[e].0) || surely_impossible(
            cfg,
            graph,
            plan_graph_edges(graph)[e].0,
        )) && !visited.contains(plan_graph_edges(graph)[e].0)
    &&& exists|e: usize|
        #[trigger] plan_graph_edges(graph).dom().contains(e) && plan_graph_edges(graph)[e].1 == n
            && surely_possible(cfg, graph, plan_graph_edges(graph)[e].0)
}

/// Whether some edge ends at node `n`, and every such edge starts at a node
/// that is surely possible and not listed in `visited`.
pub open spec fn fed_only_by_possible<A>(cfg: PlanConfig<A>, graph: FullPlanGraph, n: usize, visited: Seq<usize>) -> bool {
    &&& exists|e: usize| #[trigger] plan_graph_edges(graph).dom().contains(e) && plan_graph_edges(graph)[e].1 == n
    &&& forall|e: usize|
        #[trigger] plan_graph_edges(graph).dom().contains(e) && plan_graph_edges(graph)[e].1 == n
            ==> surely_possible(cfg, graph, plan_graph_edges(graph)[e].0) && !visited.contains(
            plan_graph_edges(graph)[e].0,
        )
}

/// The nodes that feed `a`, listed: none when no edge ends at `a`, and the
/// first one is the source of an edge that ends at `a`.
proof fn lemma_feeders(list: Seq<usize>, edges: Map<usize, (usize, usize, ItemId)>, a: usize)
    requires
        neighbor_list(list, edges, a, Side::Incoming),
    ensures
        (forall|e: usize| #[trigger] edges.dom().contains(e) ==> edges[e].1 != a) ==> list.len() == 0,
        (exists|e: usize| #[trigger] edges.dom().contains(e) && edges[e].1 == a) ==> list.len() > 0,
        list.len() > 0 ==> exists|e: usize| #[trigger] edges.dom().contains(e) && edges[e].1 == a && edges[e].0 == list[0],
        list.len() == side_edges(edges, a, Side::Incoming).len(),
        forall|i: int|
            0 <= i < list.len() ==> exists|e: usize|
                #[trigger] edges.dom().contains(e) && edges[e].1 == a && edges[e].0 == #[trigger] list[i],
{
    let es = choose|es: Seq<usize>|
        {
            &&& es.no_duplicates()
            &&& es.to_set() == side_edges(edges, a, Side::Incoming)
            &&& es.len() == list.len()
            &&& forall|i: int| 0 <= i < es.len() ==> list[i] == other_end(edges, es[i], Side::Incoming)
        };
    if list.len() > 0 {
        assert(es.to_set().contains(es[0]));
        assert(edges.dom().contains(es[0]));
    }
    es.unique_seq_to_set();
    assert forall|i: int| 0 <= i < list.len() implies exists|e: usize|
        #[trigger] edges.dom().contains(e) && edges[e].1 == a && edges[e].0 == #[trigger] list[i] by {
        assert(es.to_set().contains(es[i]));
        assert(edges.dom().contains(es[i]));
    }
    if exists|e: usize| #[trigger] edges.dom().contains(e) && edges[e].1 == a {
        let e = choose|e: usize| #[trigger] edges.dom().contains(e) && edges[e].1 == a;
        assert(side_edges(edges, a, Side::Incoming).contains(e));
        assert(es.to_set().contains(e));
    }
}

/// A list that starts with `p` and grows only at its end still starts
/// with `p`.
proof fn lemma_prefix_kept(before: Seq<usize>, after: Seq<usize>, p: Seq<usize>)
    requires
        p.len() <= before.len(),
        before.take(p.len() as int) == p,
        before.len() <= after.len(),
        after.take(before.len() as int) == before,
    ensures
        after.take(p.len() as int) == p,
{
    assert(after.take(p.len() as int) =~= after.take(before.len() as int).take(p.len() as int));
}

/// Prunes what cannot be produced, starting from the node `idx` and walking
/// against the direction of the edges; `visited` lists the nodes already
/// walked from, which are not walked from again. Returns whether `idx` was
/// found impossible:
/// - a by-product is impossible when every node that feeds it was found
///   impossible; it is then removed;
/// - a production is impossible when the number of its feeding nodes found
///   possible differs from the number of inputs of its recipe; it is then
///   pruned;
/// - an input is impossible when no amount of its item is available; it is
///   then removed;
/// - an output is impossible when it has no feeding node, or when the
///   first one is impossible; it is then removed;
/// - a producer is always possible.
///
/// A feeding node that is no longer joined to `idx` when its turn comes is
/// skipped.
fn prune_impossible<A>(config: &PlanConfig<A>, graph: &mut FullPlanGraph, idx: usize, visited: &mut Vec<usize>) -> (r: bool)
    requires
        config.wf(),
        graph_wf(*config, *old(graph)),
        plan_graph_nodes(*old(graph)).dom().contains(idx),
    ensures
        graph_wf(*config, *final(graph)),
        shrinks(*old(graph), *final(graph)),
        forall|x: usize| old(visited)@.contains(x) ==> final(visited)@.contains(x),
        r ==> !plan_graph_nodes(*final(graph)).dom().contains(idx),
        keeps_outputs(*old(graph), *final(graph), idx, r),
        old(visited)@.contains(idx) ==> !r && *final(graph) == *old(graph)
            && final(visited)@ == old(visited)@,
        !old(visited)@.contains(idx) ==> final(visited)@.len() > old(visited)@.len()
            && final(visited)@.take(old(visited)@.len() + 1int) == old(visited)@.push(idx),
        final(visited)@.len() >= old(visited)@.len(),
        final(visited)@.take(old(visited)@.len() as int) == old(visited)@,
        plan_graph_nodes(*old(graph))[idx] is Producer ==> !r && *final(graph) == *old(graph),
        !old(visited)@.contains(idx) ==> (plan_graph_nodes(*old(graph))[idx] matches PlanNodeWeight::Input(
            i,
        ) ==> r == config.input_is_zero(i)),
        !old(visited)@.contains(idx) && surely_impossible(*config, *old(graph), idx) ==> r,
        !old(visited)@.contains(idx) && surely_possible(*config, *old(graph), idx) ==> !r && *final(graph)
            == *old(graph),
        !old(visited)@.contains(idx) && plan_graph_nodes(*old(graph))[idx] is Output && fed_only_by_impossible(
            *config,
            *old(graph),
            idx,
            old(visited)@,
        ) ==> r,
        !old(visited)@.contains(idx) && plan_graph_nodes(*old(graph))[idx] is ByProduct && fed_only_by_possible(
            *config,
            *old(graph),
            idx,
            old(visited)@,
        ) ==> !r && *final(graph) == *old(graph),
        !old(visited)@.contains(idx) && plan_graph_nodes(*old(graph))[idx] is Output && fed_only_by_supplied(
            *config,
            *old(graph),
            idx,
            old(visited)@,
        ) ==> !r && *final(graph) == *old(graph),
        !old(visited)@.contains(idx) && (plan_graph_nodes(*old(graph))[idx] matches PlanNodeWeight::Production(
            rid,
        ) && side_edges(plan_graph_edges(*old(graph)), idx, Side::Incoming).len()
            < config.game_db.recipes@[rid as int].inputs@.len()) ==> r,
        !old(visited)@.contains(idx) && (plan_graph_nodes(*old(graph))[idx] matches PlanNodeWeight::Production(
            rid,
        ) && side_edges(plan_graph_edges(*old(graph)), idx, Side::Incoming).len()
            == config.game_db.recipes@[rid as int].inputs@.len()) && fed_only_by_possible(
            *config,
            *old(graph),
            idx,
            old(visited)@,
        ) ==> !r && *final(graph) == *old(graph),
        graph_sound(*config, *old(graph)) && (feeds_some_node(*old(graph), idx) || plan_graph_nodes(
            *old(graph),
        )[idx] is Output) ==> !r && *final(graph) == *old(graph),
        forall|x: usize|
            #[trigger] final(visited)@.contains(x) && !old(visited)@.contains(x) && surely_impossible(
                *config,
                *old(graph),
                x,
            ) ==> !plan_graph_nodes(*final(graph)).dom().contains(x),
        !old(visited)@.contains(idx) && surely_impossible(*config, *old(graph), idx) ==> plan_graph_nodes(
            *final(graph),
        ) == plan_graph_nodes(*old(graph)).remove(idx) && plan_graph_edges(*final(graph)) == edges_without(
            plan_graph_edges(*old(graph)),
            idx,
        ) && final(visited)@ == old(visited)@.push(idx),
        !old(visited)@.contains(idx) && surely_possible(*config, *old(graph), idx) ==> final(visited)@
            == old(visited)@.push(idx),
        !old(visited)@.contains(idx) && plan_graph_nodes(*old(graph))[idx] is ByProduct
            && fed_by_sure_nodes_one_possible(*config, *old(graph), idx, old(visited)@) ==> !r
            && plan_graph_nodes(*final(graph)).dom().contains(idx),
        !old(visited)@.contains(idx) && (plan_graph_nodes(*old(graph))[idx] matches PlanNodeWeight::Production(
            rid,
        ) && side_edges(plan_graph_edges(*old(graph)), idx, Side::Incoming).len()
            <= config.game_db.recipes@[rid as int].inputs@.len()) && (exists|e: usize|
            #[trigger] plan_graph_edges(*old(graph)).dom().contains(e) && plan_graph_edges(*old(graph))[e].1 == idx
                && surely_impossible(*config, *old(graph), plan_graph_edges(*old(graph))[e].0)
                && !old(visited)@.contains(plan_graph_edges(*old(graph))[e].0)) ==> r,
    decreases unlisted(plan_graph_nodes(*old(graph)), old(visited)@).len(),
{
    let ghost g0 = *graph;
    let ghost v0 = visited@;
    proof {
        assert(plan_graph_nodes(g0).submap_of(plan_graph_nodes(g0)));
        assert(plan_graph_edges(g0).submap_of(plan_graph_edges(g0)));
    }
    if listed(visited, idx) {
        proof {
            assert(visited@.take(v0.len() as int) =~= v0);
        }
        return false;
    }
    visited.push(idx);
    proof {
        assert(visited@ =~= v0.push(idx));
        assert(visited@.take(v0.len() + 1int) =~= visited@);
        assert forall|y: usize| v0.contains(y) implies visited@.contains(y) by {
            let k = choose|k: int| 0 <= k < v0.len() && v0[k] == y;
            assert(visited@[k] == y);
        }
        assert(visited@[v0.len() as int] == idx);
        assert forall|x: usize| #[trigger] visited@.contains(x) && !v0.contains(x) implies x == idx by {
            let k = choose|k: int| 0 <= k < visited@.len() && visited@[k] == x;
            if k < v0.len() {
                assert(v0[k] == x);
            }
        }
        assert(visited_impossible_removed(*config, g0, v0, idx, visited@, g0));
    }
    let weight = graph_node_weight(graph, idx);
    match weight {
        PlanNodeWeight::ByProduct(_) => {
            let children = graph_neighbors_directed(graph, idx, Side::Incoming);
            proof {
                lemma_neighbor_list(*config, *graph, children@, idx, Side::Incoming);
                lemma_feeders(children@, plan_graph_edges(*graph), idx);
                lemma_list_ends(children@, plan_graph_edges(*graph), idx, Side::Incoming);
            }
            let ghost sure = fed_by_sure_nodes_one_possible(*config, g0, idx, v0);
            let mut all_deleted = true;
            let mut i: usize = 0;
            while i < children.len()
                invariant
                    config.wf(),
                    graph_wf(*config, *graph),
                    shrinks(g0, *graph),
                    keeps_outputs(g0, *graph, idx, false),
                    g0 == *old(graph),
                    v0 == old(visited)@,
                    plan_graph_nodes(g0).dom().contains(idx),
                    plan_graph_nodes(g0).dom().finite(),
                    idx < u32::MAX,
                    !v0.contains(idx),
                    visited@.contains(idx),
                    forall|y: usize| v0.contains(y) ==> visited@.contains(y),
                    visited@.len() > v0.len(),
                    visited@.take(v0.len() + 1int) == v0.push(idx),
                    forall|j: int| 0 <= j < children@.len() ==> #[trigger] children@[j] < u32::MAX,
                    visited_impossible_removed(*config, g0, v0, idx, visited@, *graph),
                    forall|j: int|
                        0 <= j < children@.len() ==> plan_graph_nodes(g0).dom().contains(#[trigger] children@[j])
                            && !(plan_graph_nodes(g0)[children@[j]] is Output),
                    children@.len() == 0 ==> all_deleted,
                    i <= children@.len(),
                    forall|j: int|
                        0 <= j < children@.len() ==> exists|e: usize|
                            #[trigger] plan_graph_edges(g0).dom().contains(e) && plan_graph_edges(g0)[e].1 == idx
                                && plan_graph_edges(g0)[e].0 == #[trigger] children@[j],
                    fed_only_by_possible(*config, g0, idx, v0) ==> *graph == g0 && (i > 0 ==> !all_deleted),
                    graph_sound(*config, g0) && feeds_some_node(g0, idx) ==> *graph == g0 && (i > 0
                        ==> !all_deleted),
                    children@.len() == 0 ==> *graph == g0 && visited@ == v0.push(idx),
                    plan_graph_nodes(g0)[idx] is ByProduct,
                    sure == fed_by_sure_nodes_one_possible(*config, g0, idx, v0),
                    sure ==> plan_graph_nodes(*graph).dom().contains(idx),
                    sure ==> forall|y: usize|
                        #[trigger] surely_possible(*config, g0, y) ==> plan_graph_nodes(*graph).dom().contains(y),
                    sure ==> forall|y: usize|
                        #[trigger] visited@.contains(y) ==> v0.contains(y) || y == idx || exists|j: int|
                            0 <= j < i && children@[j] == y,
                    sure ==> forall|y: usize|
                        #[trigger] plan_graph_nodes(*graph).dom().contains(y) ==> plan_graph_nodes(g0).dom().contains(y)
                            && plan_graph_nodes(*graph)[y] == plan_graph_nodes(g0)[y],
                    sure && (exists|j: int| 0 <= j < i && surely_possible(*config, g0, #[trigger] children@[j]))
                        ==> !all_deleted,
                decreases children.len() - i,
            {
                let c = children[i];
                if graph_contains_node(graph, c) && graph_contains_node(graph, idx) {
                    let ghost before = *graph;
                    proof {
                        lemma_submap_at(plan_graph_nodes(before), plan_graph_nodes(g0), c);
                        assert(plan_graph_nodes(before).dom().subset_of(plan_graph_nodes(g0).dom()));
                        lemma_unlisted_strict(plan_graph_nodes(g0), v0, plan_graph_nodes(before), visited@, idx);
                    }
                    let ghost seen = visited@;
                    proof {
                        if sure {
                            let e = choose|e: usize|
                                #[trigger] plan_graph_edges(g0).dom().contains(e) && plan_graph_edges(g0)[e].1 == idx
                                    && plan_graph_edges(g0)[e].0 == children@[i as int];
                            assert(!v0.contains(c));
                            if surely_impossible(*config, g0, c) {
                                lemma_surely_impossible_shrinks(*config, g0, before, c);
                                assert(c != idx);
                            } else {
                                assert(surely_possible(*config, g0, c));
                                lemma_submap_at(plan_graph_nodes(before), plan_graph_nodes(g0), c);
                                assert(surely_possible(*config, before, c));
                            }
                        }
                    }
                    let deleted = prune_impossible(config, graph, c, visited);
                    all_deleted = all_deleted && deleted;
                    proof {
                        if sure {
                            if surely_possible(*config, g0, c) {
                                assert(!all_deleted);
                            }
                            assert forall|y: usize| #[trigger] plan_graph_nodes(*graph).dom().contains(y)
                                implies plan_graph_nodes(g0).dom().contains(y) && plan_graph_nodes(*graph)[y]
                                == plan_graph_nodes(g0)[y] by {
                                lemma_submap_at(plan_graph_nodes(*graph), plan_graph_nodes(before), y);
                            }
                            assert forall|y: usize| #[trigger] visited@.contains(y) implies v0.contains(y) || y == idx
                                || exists|j: int| 0 <= j < i + 1 && children@[j] == y by {
                                if !seen.contains(y) {
                                    assert(y == c);
                                    assert(children@[i as int] == y);
                                }
                            }
                        }
                        lemma_shrinks_trans(g0, before, *graph);
                        lemma_prefix_kept(seen, visited@, v0.push(idx));
                        lemma_visited_removed(*config, g0, v0, idx, seen, before, visited@, *graph);
                    }
                }
                proof {
                    if sure && surely_possible(*config, g0, c) {
                        assert(!all_deleted);
                    }
                }
                i = i + 1;
            }
            proof {
                if sure {
                    let e = choose|e: usize|
                        #[trigger] plan_graph_edges(g0).dom().contains(e) && plan_graph_edges(g0)[e].1 == idx
                            && surely_possible(*config, g0, plan_graph_edges(g0)[e].0);
                    assert(side_edges(plan_graph_edges(g0), idx, Side::Incoming).contains(e));
                    let j = choose|j: int|
                        0 <= j < children@.len() && children@[j] == other_end(plan_graph_edges(g0), e, Side::Incoming);
                    assert(surely_possible(*config, g0, children@[j]));
                }
            }
            if all_deleted {
                let ghost before = *graph;
                graph_remove_node(graph, idx);
                proof {
                    lemma_wf_remove(*config, before, *graph, idx);
                    lemma_shrinks_trans(g0, before, *graph);
                }
            }
            all_deleted
        },
        PlanNodeWeight::Production(recipe_id) => {
            let db: &GameDatabase<A> = &*config.game_db;
            proof {
                assert(weight_valid(*config, plan_graph_nodes(g0)[idx]));
                let k = choose|k: int| 0 <= k < config.enabled_recipes@.len() && config.enabled_recipes@[k] == recipe_id;
                assert(config.enabled_recipes@[k] < config.game_db.recipes@.len());
            }
            let total_inputs = db.recipe(recipe_id).inputs.len();
            let children = graph_neighbors_directed(graph, idx, Side::Incoming);
            proof {
                lemma_neighbor_list(*config, *graph, children@, idx, Side::Incoming);
                lemma_feeders(children@, plan_graph_edges(*graph), idx);
                lemma_list_ends(children@, plan_graph_edges(*graph), idx, Side::Incoming);
            }
            let ghost e1 = choose|e: usize|
                #[trigger] plan_graph_edges(g0).dom().contains(e) && plan_graph_edges(g0)[e].1 == idx && surely_impossible(
                    *config,
                    g0,
                    plan_graph_edges(g0)[e].0,
                ) && !v0.contains(plan_graph_edges(g0)[e].0);
            let ghost c1 = plan_graph_edges(g0)[e1].0;
            let ghost pre1 = plan_graph_edges(g0).dom().contains(e1) && plan_graph_edges(g0)[e1].1 == idx
                && surely_impossible(*config, g0, c1) && !v0.contains(c1);
            let ghost jc = choose|j: int| 0 <= j < children@.len() && children@[j] == c1;
            proof {
                if pre1 {
                    assert(side_edges(plan_graph_edges(g0), idx, Side::Incoming).contains(e1));
                    assert(exists|j: int| 0 <= j < children@.len() && children@[j] == c1);
                    assert(c1 != idx) by {
                        if c1 == idx {
                            assert(surely_impossible(*config, g0, idx));
                        }
                    }
                }
            }
            let mut total_children: usize = 0;
            let mut i: usize = 0;
            while i < children.len()
                invariant
                    config.wf(),
                    graph_wf(*config, *graph),
                    shrinks(g0, *graph),
                    keeps_outputs(g0, *graph, idx, false),
                    g0 == *old(graph),
                    v0 == old(visited)@,
                    plan_graph_nodes(g0).dom().contains(idx),
                    plan_graph_nodes(g0)[idx] is Production,
                    plan_graph_nodes(g0).dom().finite(),
                    idx < u32::MAX,
                    !v0.contains(idx),
                    visited@.contains(idx),
                    forall|y: usize| v0.contains(y) ==> visited@.contains(y),
                    visited@.len() > v0.len(),
                    visited@.take(v0.len() + 1int) == v0.push(idx),
                    forall|j: int| 0 <= j < children@.len() ==> #[trigger] children@[j] < u32::MAX,
                    visited_impossible_removed(*config, g0, v0, idx, visited@, *graph),
                    forall|j: int|
                        0 <= j < children@.len() ==> plan_graph_nodes(g0).dom().contains(#[trigger] children@[j])
                            && !(plan_graph_nodes(g0)[children@[j]] is Output),
                    i <= children@.len(),
                    total_children <= i,
                    total_inputs == config.game_db.recipes@[recipe_id as int].inputs@.len(),
                    plan_graph_nodes(g0)[idx] == PlanNodeWeight::Production(recipe_id),
                    children@.len() == side_edges(plan_graph_edges(g0), idx, Side::Incoming).len(),
                    forall|j: int|
                        0 <= j < children@.len() ==> exists|e: usize|
                            #[trigger] plan_graph_edges(g0).dom().contains(e) && plan_graph_edges(g0)[e].1 == idx
                                && plan_graph_edges(g0)[e].0 == #[trigger] children@[j],
                    (graph_sound(*config, g0) || (fed_only_by_possible(*config, g0, idx, v0) && children@.len()
                        == total_inputs)) ==> *graph == g0 && total_children == i,
                    pre1 ==> 0 <= jc < children@.len() && children@[jc] == c1 && c1 != idx && surely_impossible(
                        *config,
                        g0,
                        c1,
                    ) && !v0.contains(c1),
                    pre1 && i > jc ==> total_children < i,
                decreases children.len() - i,
            {
                let c = children[i];
                if graph_contains_node(graph, c) && graph_contains_node(graph, idx) {
                    let ghost before = *graph;
                    proof {
                        lemma_submap_at(plan_graph_nodes(before), plan_graph_nodes(g0), c);
                        assert(plan_graph_nodes(before).dom().subset_of(plan_graph_nodes(g0).dom()));
                        lemma_unlisted_strict(plan_graph_nodes(g0), v0, plan_graph_nodes(before), visited@, idx);
                    }
                    let ghost seen = visited@;
                    proof {
                        if pre1 && i == jc {
                            lemma_surely_impossible_shrinks(*config, g0, before, c1);
                        }
                    }
                    if !prune_impossible(config, graph, c, visited) {
                        total_children = total_children + 1;
                    }
                    proof {
                        lemma_shrinks_trans(g0, before, *graph);
                        lemma_prefix_kept(seen, visited@, v0.push(idx));
                        lemma_visited_removed(*config, g0, v0, idx, seen, before, visited@, *graph);
                    }
                }
                i = i + 1;
            }
            if total_children != total_inputs {
                if graph_contains_node(graph, idx) {
                    let ghost before = *graph;
                    let mut active: Vec<usize> = Vec::new();
                    proof {
                        lemma_submap_at(plan_graph_nodes(before), plan_graph_nodes(g0), idx);
                    }
                    prune(config, graph, idx, &mut active);
                    proof {
                        lemma_shrinks_trans(g0, before, *graph);
                    }
                }
                true
            } else {
                false
            }
        },
        PlanNodeWeight::Input(item) => {
            if config.has_zero_input(item) {
                graph_remove_node(graph, idx);
                proof {
                    lemma_wf_remove(*config, g0, *graph, idx);
                }
                true
            } else {
                false
            }
        },
        PlanNodeWeight::Output(_) => {
            let children = graph_neighbors_directed(graph, idx, Side::Incoming);
            proof {
                lemma_neighbor_list(*config, *graph, children@, idx, Side::Incoming);
                lemma_feeders(children@, plan_graph_edges(*graph), idx);
            }
            if children.len() > 0 {
                let c = children[0];
                proof {
                    lemma_unlisted_strict(plan_graph_nodes(g0), v0, plan_graph_nodes(g0), visited@, idx);
                }
                let ghost seen = visited@;
                let found = prune_impossible(config, graph, c, visited);
                proof {
                    lemma_prefix_kept(seen, visited@, v0.push(idx));
                }
                if found {
                    let ghost before = *graph;
                    graph_remove_node(graph, idx);
                    proof {
                        lemma_wf_remove(*config, before, *graph, idx);
                        lemma_shrinks_trans(g0, before, *graph);
                    }
                    true
                } else {
                    false
                }
            } else {
                graph_remove_node(graph, idx);
                proof {
                    lemma_wf_remove(*config, g0, *graph, idx);
                }
                true
            }
        },
        PlanNodeWeight::Producer(_) => false,
    }
}

/// Whether nothing can supply `item`: for a resource, no amount of it is
/// available; otherwise no enabled recipe makes it, no building makes it,
/// and no positive amount of it is given.
pub open spec fn unsuppliable<A>(cfg: PlanConfig<A>, item: ItemId) -> bool {
    if cfg.game_db.items@[item as int].resource {
        cfg.input_is_zero(item)
    } else {
        &&& forall|k: int|
            0 <= k < cfg.enabled_recipes@.len() ==> !cfg.game_db.recipes@[#[trigger] cfg.enabled_recipes@[k] as int].produces(item)
        &&& forall|b: int|
            0 <= b < cfg.game_db.buildings@.len() ==> !building_produces(#[trigger] cfg.game_db.buildings@[b], item)
        &&& !cfg.spec_has_input(item)
    }
}

/// Whether `item` is surely supplied: it is a resource of which some
/// amount is available, or an item given in a positive amount that no
/// enabled recipe makes.
pub open spec fn surely_supplied<A>(cfg: PlanConfig<A>, item: ItemId) -> bool {
    if cfg.game_db.items@[item as int].resource {
        !cfg.input_is_zero(item)
    } else {
        &&& cfg.spec_has_input(item)
        &&& forall|k: int|
            0 <= k < cfg.enabled_recipes@.len() ==> !cfg.game_db.recipes@[#[trigger] cfg.enabled_recipes@[k] as int].produces(item)
    }
}

/// Whether some edge ends at the by-product node of `o`.
pub open spec fn by_product_fed(graph: FullPlanGraph, o: ItemId) -> bool {
    exists|e: usize|
        #[trigger] plan_graph_edges(graph).dom().contains(e) && plan_graph_nodes(graph)[plan_graph_edges(graph)[e].1]
            == PlanNodeWeight::ByProduct(o)
}

/// In a loop-free plan graph where resource outputs are fed by inputs
/// only, the output node of a surely supplied item that some edge feeds
/// (and, for an item that is not a resource, whose by-product node some
/// edge feeds) is fed only by nodes surely supplied.
proof fn lemma_supplied_output<A>(cfg: PlanConfig<A>, graph: FullPlanGraph, o: ItemId, n: usize)
    requires
        cfg.wf(),
        graph_wf(cfg, graph),
        loop_free(graph),
        resource_outputs_fed_by_inputs(cfg, graph),
        o < cfg.game_db.items@.len(),
        surely_supplied(cfg, o),
        plan_graph_nodes(graph).dom().contains(n),
        plan_graph_nodes(graph)[n] == PlanNodeWeight::Output(o),
        output_fed(graph, o),
        !cfg.game_db.items@[o as int].resource ==> by_product_fed(graph, o),
    ensures
        fed_only_by_supplied(cfg, graph, n, Seq::empty()),
{
    let (nodes, edges) = (plan_graph_nodes(graph), plan_graph_edges(graph));
    let e0 = choose|e: usize| #[trigger] edges.dom().contains(e) && nodes[edges[e].1] == PlanNodeWeight::Output(o);
    if edges[e0].1 != n {
        assert(nodes[edges[e0].1] != nodes[n]);
    }
    assert forall|e: usize| #[trigger] edges.dom().contains(e) && edges[e].1 == n implies {
        let s = edges[e].0;
        &&& !Seq::<usize>::empty().contains(s)
        &&& {
            ||| surely_possible(cfg, graph, s)
            ||| nodes[s] is ByProduct && fed_only_by_possible(cfg, graph, s, Seq::<usize>::empty().push(n))
        }
    } by {
        let s = edges[e].0;
        assert(provides(cfg, nodes[s], edges[e].2));
        assert(accepts(cfg, nodes[n], edges[e].2));
        assert(nodes.dom().contains(s));
        assert(weight_valid(cfg, nodes[s]));
        if nodes[s] is ByProduct {
            let e1 = choose|e1: usize| #[trigger] edges.dom().contains(e1) && nodes[edges[e1].1] == PlanNodeWeight::ByProduct(o);
            if edges[e1].1 != s {
                assert(nodes[edges[e1].1] != nodes[s]);
            }
            assert forall|f: usize| #[trigger] edges.dom().contains(f) && edges[f].1 == s implies surely_possible(
                cfg,
                graph,
                edges[f].0,
            ) && !Seq::<usize>::empty().push(n).contains(edges[f].0) by {
                let t = edges[f].0;
                assert(provides(cfg, nodes[t], edges[f].2));
                assert(accepts(cfg, nodes[s], edges[f].2));
                assert(nodes.dom().contains(t));
                assert(weight_valid(cfg, nodes[t]));
                assert(t != s);
                if nodes[t] is ByProduct {
                    assert(nodes[t] == nodes[s]);
                }
                if nodes[t] is Production {
                    let r = nodes[t]->Production_0;
                    let k = choose|k: int| 0 <= k < cfg.enabled_recipes@.len() && cfg.enabled_recipes@[k] == r;
                    assert(!cfg.game_db.recipes@[cfg.enabled_recipes@[k] as int].produces(o));
                }
                assert(Seq::<usize>::empty().push(n)[0] == n);
            }
        }
    }
}

/// Whether every edge that ends at the output node of a resource starts at
/// the input node of that resource.
pub open spec fn resource_outputs_fed_by_inputs<A>(cfg: PlanConfig<A>, graph: FullPlanGraph) -> bool {
    forall|e: usize|
        #[trigger] plan_graph_edges(graph).dom().contains(e) ==> match plan_graph_nodes(graph)[plan_graph_edges(
            graph,
        )[e].1] {
            PlanNodeWeight::Output(o) => cfg.game_db.items@[o as int].resource ==> plan_graph_nodes(
                graph,
            )[plan_graph_edges(graph)[e].0] == PlanNodeWeight::Input(o),
            _ => true,
        }
}

/// Whether some edge ends at the output node of `o`.
pub open spec fn output_fed(graph: FullPlanGraph, o: ItemId) -> bool {
    exists|e: usize|
        #[trigger] plan_graph_edges(graph).dom().contains(e) && plan_graph_nodes(graph)[plan_graph_edges(graph)[e].1]
            == PlanNodeWeight::Output(o)
}

/// Losing nodes and edges keeps resource outputs fed by inputs only.
proof fn lemma_fed_by_inputs_shrinks<A>(cfg: PlanConfig<A>, a: FullPlanGraph, b: FullPlanGraph)
    requires
        graph_wf(cfg, b),
        shrinks(a, b),
        resource_outputs_fed_by_inputs(cfg, a),
    ensures
        resource_outputs_fed_by_inputs(cfg, b),
{
    let (na, nb) = (plan_graph_nodes(a), plan_graph_nodes(b));
    let (ea, eb) = (plan_graph_edges(a), plan_graph_edges(b));
    assert forall|e: usize| #[trigger] eb.dom().contains(e) implies match nb[eb[e].1] {
        PlanNodeWeight::Output(o) => cfg.game_db.items@[o as int].resource ==> nb[eb[e].0] == PlanNodeWeight::Input(o),
        _ => true,
    } by {
        lemma_submap_at(eb, ea, e);
        lemma_submap_at(nb, na, eb[e].0);
        lemma_submap_at(nb, na, eb[e].1);
        assert(ea.dom().contains(e));
    }
}

/// The output node of a resource of which no amount is available, in a
/// graph where it is fed by inputs only, is fed only by nodes surely
/// impossible.
proof fn lemma_resource_output<A>(cfg: PlanConfig<A>, graph: FullPlanGraph, o: ItemId, n: usize)
    requires
        graph_wf(cfg, graph),
        resource_outputs_fed_by_inputs(cfg, graph),
        cfg.game_db.items@[o as int].resource,
        cfg.input_is_zero(o),
        plan_graph_nodes(graph).dom().contains(n),
        plan_graph_nodes(graph)[n] == PlanNodeWeight::Output(o),
    ensures
        fed_only_by_impossible(cfg, graph, n, Seq::empty()),
{
    let (nodes, edges) = (plan_graph_nodes(graph), plan_graph_edges(graph));
    assert forall|e: usize| #[trigger] edges.dom().contains(e) && edges[e].1 == n implies nodes.dom().contains(
        edges[e].0,
    ) && nodes[edges[e].0] == PlanNodeWeight::Input(o) && !Seq::<usize>::empty().contains(edges[e].0) by {
        assert(nodes[edges[e].1] == PlanNodeWeight::Output(o));
    }
}

/// In a plan graph, every edge that carries an item nothing can supply
/// starts at the by-product node of that item.
proof fn lemma_unsuppliable_source<A>(cfg: PlanConfig<A>, graph: FullPlanGraph, o: ItemId, e: usize)
    requires
        cfg.wf(),
        graph_wf(cfg, graph),
        unsuppliable(cfg, o),
        plan_graph_edges(graph).dom().contains(e),
        plan_graph_edges(graph)[e].2 == o,
        !cfg.game_db.items@[o as int].resource,
    ensures
        plan_graph_nodes(graph)[plan_graph_edges(graph)[e].0] == PlanNodeWeight::ByProduct(o),
{
    let nodes = plan_graph_nodes(graph);
    let edges = plan_graph_edges(graph);
    let src = edges[e].0;
    assert(provides(cfg, nodes[src], o));
    assert(nodes.dom().contains(src));
    assert(weight_valid(cfg, nodes[src]));
    match nodes[src] {
        PlanNodeWeight::Production(r) => {
            let k = choose|k: int| 0 <= k < cfg.enabled_recipes@.len() && cfg.enabled_recipes@[k] == r;
            assert(!cfg.game_db.recipes@[cfg.enabled_recipes@[k] as int].produces(o));
        },
        PlanNodeWeight::Producer(b) => {
            assert(!building_produces(cfg.game_db.buildings@[b as int], o));
        },
        _ => {},
    }
}

/// In a loop-free plan graph, the output node of an item nothing can
/// supply is fed only by barren by-product nodes.
proof fn lemma_unsuppliable_output<A>(cfg: PlanConfig<A>, graph: FullPlanGraph, o: ItemId, n: usize)
    requires
        cfg.wf(),
        graph_wf(cfg, graph),
        loop_free(graph),
        unsuppliable(cfg, o),
        !cfg.game_db.items@[o as int].resource,
        plan_graph_nodes(graph).dom().contains(n),
        plan_graph_nodes(graph)[n] == PlanNodeWeight::Output(o),
    ensures
        fed_only_by_impossible(cfg, graph, n, Seq::empty()),
{
    let nodes = plan_graph_nodes(graph);
    let edges = plan_graph_edges(graph);
    assert forall|e: usize|
        #[trigger] edges.dom().contains(e) && edges[e].1 == n implies surely_impossible(cfg, graph, edges[e].0)
            && !Seq::<usize>::empty().contains(edges[e].0) by {
        assert(accepts(cfg, nodes[edges[e].1], edges[e].2));
        lemma_unsuppliable_source(cfg, graph, o, e);
        let src = edges[e].0;
        assert forall|f: usize| #[trigger] edges.dom().contains(f) implies edges[f].1 != src by {
            if edges[f].1 == src {
                assert(accepts(cfg, nodes[edges[f].1], edges[f].2));
                lemma_unsuppliable_source(cfg, graph, o, f);
                assert(nodes[edges[f].0] == nodes[src]);
                assert(edges[f].0 == src);
            }
        }
    }
}

/// Whether every enabled recipe that offers `item` has a production node.
pub open spec fn offers_kept<A>(cfg: PlanConfig<A>, graph: FullPlanGraph, item: ItemId) -> bool {
    forall|j: int|
        0 <= j < offering_recipes(*cfg.game_db, cfg.enabled_recipes@, item).len() ==> has_node(
            graph,
            PlanNodeWeight::Production(#[trigger] offering_recipes(*cfg.game_db, cfg.enabled_recipes@, item)[j]),
        )
}

/// The graph the builder makes for a complete request, before pruning,
/// is sound.
proof fn lemma_sound_build<A>(cfg: PlanConfig<A>, ginit: FullPlanGraph, g: FullPlanGraph)
    requires
        cfg.wf(),
        request_complete(cfg),
        graph_wf(cfg, g),
        plan_graph_nodes(ginit).dom() == Set::<usize>::empty(),
        new_productions_complete(cfg, ginit, g),
        new_productions_fed(cfg, ginit, g),
        feeding_by_products_backed(cfg, g),
        forall|j: int| 0 <= j < cfg.outputs@.len() ==> output_fed(g, #[trigger] cfg.outputs@[j].0),
    ensures
        graph_sound(cfg, g),
{
    let (nodes, edges) = (plan_graph_nodes(g), plan_graph_edges(g));
    assert(plan_graph_nodes(ginit).submap_of(nodes));
    assert forall|n: usize| #[trigger] nodes.dom().contains(n) implies node_sound(cfg, g, n) by {
        assert(weight_valid(cfg, nodes[n]));
        match nodes[n] {
            PlanNodeWeight::Input(i) => {
                if cfg.game_db.items@[i as int].resource {
                    assert(!cfg.input_is_zero(i as ItemId));
                }
            },
            PlanNodeWeight::Output(o) => {
                let k = choose|k: int| 0 <= k < cfg.outputs@.len() && cfg.outputs@[k].0 == o;
                assert(output_fed(g, cfg.outputs@[k].0));
                let e = choose|e: usize| #[trigger] edges.dom().contains(e) && nodes[edges[e].1] == PlanNodeWeight::Output(o);
                if edges[e].1 != n {
                    assert(nodes[edges[e].1] != nodes[n]);
                }
            },
            PlanNodeWeight::ByProduct(i) => {
                if feeds_some_node(g, n) && !is_fed(g, n) {
                    let offers = offering_recipes(*cfg.game_db, cfg.enabled_recipes@, i);
                    assert(by_product_backed(cfg, g, n));
                    super::config::lemma_offering_recipes(*cfg.game_db, cfg.enabled_recipes@, i);
                    assert(cfg.enabled_recipes@.contains(offers[0]));
                    let kk = choose|kk: int| 0 <= kk < cfg.enabled_recipes@.len() && cfg.enabled_recipes@[kk] == offers[0];
                    assert(cfg.enabled_recipes@[kk] < cfg.game_db.recipes@.len());
                    lemma_new_production_linked(cfg, ginit, g, offers[0], i, n);
                    let m = choose|m: usize|
                        #[trigger] nodes.dom().contains(m) && nodes[m] == PlanNodeWeight::Production(offers[0])
                            && has_edge(g, m, n, i);
                    let f = choose|f: usize| #[trigger] edges.dom().contains(f) && edges[f] == (m, n, i);
                    assert(is_fed(g, n));
                }
            },
            _ => {},
        }
    }
}

/// Whether some node is the output node of `item`.
pub open spec fn has_output_node(nodes: Map<usize, PlanNodeWeight>, item: ItemId) -> bool {
    exists|n: usize| nodes.dom().contains(n) && nodes[n] == PlanNodeWeight::Output(item)
}

/// Builds the graph of every way to produce the requested outputs, then
/// prunes what cannot be produced. Each output gets an output node, fed as
/// `create_children` describes; then each output is pruned from its node.
/// The plan is unsolvable when an output is found impossible: surely when
/// nothing can supply some output, and never when every output is surely
/// supplied. For a complete request pruning removes nothing: the graph is
/// sound (so no input node of an unavailable item is left) and keeps the
/// production node of every recipe that offers an output.
pub fn build_full_plan<A>(config: &PlanConfig<A>) -> (r: Result<FullPlanGraph, PlanError>)
    requires
        config.wf(),
        plan_capacity(*config) < u32::MAX,
    ensures
        match r {
            Ok(g) => {
                &&& graph_wf(*config, g)
                &&& forall|k: int|
                    0 <= k < config.outputs@.len() ==> has_output_node(plan_graph_nodes(g), #[trigger] config.outputs@[k].0)
            },
            Err(e) => e == PlanError::UnsolvablePlan,
        },
        (exists|k: int|
            0 <= k < config.outputs@.len() && unsuppliable(*config, #[trigger] config.outputs@[k].0))
            ==> r is Err,
        (forall|k: int| 0 <= k < config.outputs@.len() ==> surely_supplied(*config, #[trigger] config.outputs@[k].0))
            ==> r is Ok,
        request_complete(*config) ==> (r matches Ok(g) && graph_sound(*config, g) && forall|k: int|
            0 <= k < config.outputs@.len() && !config.game_db.items@[config.outputs@[k].0 as int].resource
                ==> offers_kept(*config, g, #[trigger] config.outputs@[k].0)),
{
    let mut graph = graph_new();
    let ghost w = recipe_cost(*config);
    let ghost c = step_cost(*config);
    proof {
        assert(plan_graph_nodes(graph).dom() =~= Set::<usize>::empty());
        assert(plan_graph_edges(graph).dom() =~= Set::<usize>::empty());
        assert(produced(plan_graph_nodes(graph)) =~= Set::<usize>::empty());
        assert(budget(*config, graph) == w * config.game_db.recipes@.len());
    }
    let ghost ginit = graph;
    let mut k: usize = 0;
    while k < config.outputs.len()
        invariant
            config.wf(),
            graph_wf(*config, graph),
            w == recipe_cost(*config),
            c == step_cost(*config),
            plan_capacity(*config) < u32::MAX,
            budget(*config, graph) <= w * config.game_db.recipes@.len() + k * (1 + c),
            k <= config.outputs@.len(),
            forall|n: usize|
                plan_graph_nodes(graph).dom().contains(n) && (#[trigger] plan_graph_nodes(graph)[n] is Output)
                    ==> exists|j: int| 0 <= j < k && plan_graph_nodes(graph)[n] == PlanNodeWeight::Output(config.outputs@[j].0),
            forall|j: int|
                0 <= j < k ==> has_output_node(plan_graph_nodes(graph), #[trigger] config.outputs@[j].0),
            loop_free(graph),
            resource_outputs_fed_by_inputs(*config, graph),
            forall|j: int| 0 <= j < k ==> output_fed(graph, #[trigger] config.outputs@[j].0),
            forall|j: int|
                0 <= j < k && !config.game_db.items@[config.outputs@[j].0 as int].resource && config.spec_has_input(
                    config.outputs@[j].0,
                ) ==> by_product_fed(graph, #[trigger] config.outputs@[j].0),
            plan_graph_nodes(ginit).dom() == Set::<usize>::empty(),
            new_productions_complete(*config, ginit, graph),
            request_complete(*config) ==> new_productions_fed(*config, ginit, graph),
            request_complete(*config) ==> feeding_by_products_backed(*config, graph),
            forall|j: int|
                0 <= j < k && !config.game_db.items@[config.outputs@[j].0 as int].resource ==> offers_kept(
                    *config,
                    graph,
                    #[trigger] config.outputs@[j].0,
                ),
        decreases config.outputs.len() - k,
    {
        let item = config.outputs[k].0;
        let ghost g0 = graph;
        proof {
            assert(pairs_map(config.outputs@).dom().contains(item));
            assert forall|n: usize| plan_graph_nodes(g0).dom().contains(n) implies plan_graph_nodes(g0)[n]
                != PlanNodeWeight::Output(item) by {
                if plan_graph_nodes(g0)[n] == PlanNodeWeight::Output(item) {
                    let j = choose|j: int| 0 <= j < k && plan_graph_nodes(g0)[n] == PlanNodeWeight::Output(config.outputs@[j].0);
                    assert(config.outputs@[j].0 == config.outputs@[k as int].0);
                }
            }
            lemma_mul_step(k as nat, 1 + c);
            lemma_mul_le((k + 1) as nat, config.outputs@.len(), 1 + c);
        }
        let idx = graph_add_node(&mut graph, PlanNodeWeight::new_output(item));
        let ghost g1 = graph;
        proof {
            lemma_wf_add_node(*config, g0, g1, idx, PlanNodeWeight::Output(item));
            lemma_produced_insert_other(plan_graph_nodes(g0), idx, PlanNodeWeight::Output(item));
            assert(new_productions_complete(*config, g0, g1));
            assert(new_productions_fed(*config, g0, g1));
            if request_complete(*config) {
                assert(item_supplied(*config, config.outputs@[k as int].0));
                assert forall|n: usize| #[trigger] plan_graph_nodes(g1).dom().contains(n) && feeds_some_node(g1, n)
                    implies by_product_backed(*config, g1, n) by {
                    let e = choose|e: usize| #[trigger] plan_graph_edges(g1).dom().contains(e) && plan_graph_edges(g1)[e].0 == n;
                    assert(plan_graph_nodes(g0).dom().contains(n));
                    assert(feeds_some_node(g0, n));
                    if plan_graph_nodes(g0)[n] is ByProduct {
                        if is_fed(g0, n) {
                            let f = choose|f: usize| #[trigger] plan_graph_edges(g0).dom().contains(f) && plan_graph_edges(g0)[f].1 == n;
                            assert(is_fed(g1, n));
                        } else {
                            let i = plan_graph_nodes(g0)[n]->ByProduct_0;
                            let m = choose|m: usize| plan_graph_nodes(g0).dom().contains(m) && plan_graph_nodes(g0)[m]
                                == PlanNodeWeight::Production(offering_recipes(*config.game_db, config.enabled_recipes@, i)[0]);
                            assert(plan_graph_nodes(g1).dom().contains(m));
                        }
                    }
                }
            }
        }
        create_children(config, &mut graph, idx, item);
        proof {
            lemma_complete_trans(*config, ginit, g1, graph);
            if request_complete(*config) {
                lemma_fed_trans(*config, ginit, g0, g1, idx);
                lemma_fed_trans(*config, ginit, g1, graph, idx);
            }
            lemma_links_grow(g1, graph);
            assert forall|j: int|
                0 <= j < k + 1 && !config.game_db.items@[config.outputs@[j].0 as int].resource implies offers_kept(
                *config,
                graph,
                #[trigger] config.outputs@[j].0,
            ) by {
                if j < k {
                    let o = config.outputs@[j].0;
                    assert forall|jj: int|
                        0 <= jj < offering_recipes(*config.game_db, config.enabled_recipes@, o).len() implies has_node(
                        graph,
                        PlanNodeWeight::Production(#[trigger] offering_recipes(*config.game_db, config.enabled_recipes@, o)[jj]),
                    ) by {
                        let w = PlanNodeWeight::Production(offering_recipes(*config.game_db, config.enabled_recipes@, o)[jj]);
                        assert(has_node(g0, w));
                        let m = choose|m: usize| plan_graph_nodes(g0).dom().contains(m) && plan_graph_nodes(g0)[m] == w;
                        assert(plan_graph_nodes(g1).dom().contains(m));
                        assert(has_node(g1, w));
                    }
                }
            }
            assert forall|n: usize|
                plan_graph_nodes(graph).dom().contains(n) && (#[trigger] plan_graph_nodes(graph)[n] is Output)
                    implies exists|j: int| 0 <= j < k + 1 && plan_graph_nodes(graph)[n] == PlanNodeWeight::Output(config.outputs@[j].0) by {
                if plan_graph_nodes(g1).dom().contains(n) {
                    lemma_submap_at(plan_graph_nodes(g1), plan_graph_nodes(graph), n);
                    if n == idx {
                        assert(plan_graph_nodes(graph)[n] == PlanNodeWeight::Output(config.outputs@[k as int].0));
                    } else {
                        assert(plan_graph_nodes(g0).dom().contains(n));
                        let j = choose|j: int| 0 <= j < k && plan_graph_nodes(g0)[n] == PlanNodeWeight::Output(config.outputs@[j].0);
                        assert(plan_graph_nodes(graph)[n] == PlanNodeWeight::Output(config.outputs@[j].0));
                    }
                }
            }
            let (n1, e1) = (plan_graph_nodes(g1), plan_graph_edges(g1));
            let (n2, e2) = (plan_graph_nodes(graph), plan_graph_edges(graph));
            assert forall|e: usize| #[trigger] e2.dom().contains(e) implies match n2[e2[e].1] {
                PlanNodeWeight::Output(o) => config.game_db.items@[o as int].resource ==> n2[e2[e].0]
                    == PlanNodeWeight::Input(o),
                _ => true,
            } by {
                if e1.dom().contains(e) {
                    assert(plan_graph_edges(g0).dom().contains(e));
                    lemma_submap_at(e1, e2, e);
                    lemma_submap_at(n1, n2, e1[e].0);
                    lemma_submap_at(n1, n2, e1[e].1);
                    lemma_submap_at(plan_graph_nodes(g0), n1, e1[e].0);
                    lemma_submap_at(plan_graph_nodes(g0), n1, e1[e].1);
                } else {
                    lemma_submap_at(n1, n2, idx);
                }
            }
            assert forall|j: int| 0 <= j < k + 1 implies output_fed(graph, #[trigger] config.outputs@[j].0) by {
                if j < k {
                    let e = choose|e: usize|
                        #[trigger] plan_graph_edges(g0).dom().contains(e) && plan_graph_nodes(g0)[plan_graph_edges(
                            g0,
                        )[e].1] == PlanNodeWeight::Output(config.outputs@[j].0);
                    lemma_submap_at(plan_graph_edges(g0), e1, e);
                    lemma_submap_at(e1, e2, e);
                    lemma_submap_at(plan_graph_nodes(g0), n1, e1[e].1);
                    lemma_submap_at(n1, n2, e1[e].1);
                } else {
                    lemma_submap_at(n1, n2, idx);
                    let w = if config.game_db.items@[item as int].resource {
                        PlanNodeWeight::Input(item)
                    } else {
                        PlanNodeWeight::ByProduct(item)
                    };
                    assert(linked(graph, w, idx, item));
                    let m = choose|m: usize| #[trigger] n2.dom().contains(m) && n2[m] == w && has_edge(graph, m, idx, item);
                    let e = choose|e: usize| #[trigger] e2.dom().contains(e) && e2[e] == (m, idx, item);
                }
            }
            assert forall|j: int|
                0 <= j < k + 1 && !config.game_db.items@[config.outputs@[j].0 as int].resource && config.spec_has_input(
                    config.outputs@[j].0,
                ) implies by_product_fed(graph, #[trigger] config.outputs@[j].0) by {
                if j < k {
                    let e = choose|e: usize|
                        #[trigger] plan_graph_edges(g0).dom().contains(e) && plan_graph_nodes(g0)[plan_graph_edges(
                            g0,
                        )[e].1] == PlanNodeWeight::ByProduct(config.outputs@[j].0);
                    lemma_submap_at(plan_graph_edges(g0), e1, e);
                    lemma_submap_at(e1, e2, e);
                    lemma_submap_at(plan_graph_nodes(g0), n1, e1[e].1);
                    lemma_submap_at(n1, n2, e1[e].1);
                }
            }
            assert forall|j: int| 0 <= j < k + 1 implies has_output_node(plan_graph_nodes(graph), #[trigger] config.outputs@[j].0) by {
                if j < k {
                    let n = choose|n: usize|
                        plan_graph_nodes(g0).dom().contains(n) && plan_graph_nodes(g0)[n]
                            == PlanNodeWeight::Output(config.outputs@[j].0);
                    lemma_submap_at(plan_graph_nodes(g0), plan_graph_nodes(g1), n);
                    lemma_submap_at(plan_graph_nodes(g1), plan_graph_nodes(graph), n);
                } else {
                    lemma_submap_at(plan_graph_nodes(g1), plan_graph_nodes(graph), idx);
                }
            }
        }
        k = k + 1;
    }

    proof {
        assert(k == config.outputs@.len());
        assert forall|j: int| 0 <= j < config.outputs@.len() implies has_output_node(plan_graph_nodes(graph), #[trigger] config.outputs@[j].0) by {
            assert(0 <= j < k);
        }
    }
    let ghost gc = graph;
    proof {
        if request_complete(*config) {
            lemma_sound_build(*config, ginit, gc);
        }
    }
    let ghost all_ok = forall|j: int|
        0 <= j < config.outputs@.len() ==> surely_supplied(*config, #[trigger] config.outputs@[j].0);
    proof {
        assert forall|j: int| 0 <= j < config.outputs@.len() implies output_fed(gc, #[trigger] config.outputs@[j].0) by {
            assert(0 <= j < k);
        }
        assert forall|j: int|
            0 <= j < config.outputs@.len() && !config.game_db.items@[config.outputs@[j].0 as int].resource
                && config.spec_has_input(config.outputs@[j].0) implies by_product_fed(
            gc,
            #[trigger] config.outputs@[j].0,
        ) by {
            assert(0 <= j < k);
        }
    }
    let mut k: usize = 0;
    while k < config.outputs.len()
        invariant
            config.wf(),
            graph_wf(*config, graph),
            k <= config.outputs@.len(),
            forall|j: int|
                0 <= j < config.outputs@.len() ==> has_output_node(plan_graph_nodes(graph), #[trigger] config.outputs@[j].0),
            loop_free(graph),
            forall|j: int| 0 <= j < k ==> !unsuppliable(*config, #[trigger] config.outputs@[j].0),
            resource_outputs_fed_by_inputs(*config, graph),
            all_ok == forall|j: int|
                0 <= j < config.outputs@.len() ==> surely_supplied(*config, #[trigger] config.outputs@[j].0),
            all_ok ==> graph == gc,
            graph_sound(*config, gc) ==> graph == gc,
            request_complete(*config) ==> graph_sound(*config, gc) && forall|j: int|
                0 <= j < config.outputs@.len() && !config.game_db.items@[config.outputs@[j].0 as int].resource
                    ==> offers_kept(*config, gc, #[trigger] config.outputs@[j].0),
            forall|j: int| 0 <= j < config.outputs@.len() ==> output_fed(gc, #[trigger] config.outputs@[j].0),
            forall|j: int|
                0 <= j < config.outputs@.len() && !config.game_db.items@[config.outputs@[j].0 as int].resource
                    && config.spec_has_input(config.outputs@[j].0) ==> by_product_fed(
                    gc,
                    #[trigger] config.outputs@[j].0,
                ),
        decreases config.outputs.len() - k,
    {
        let item = config.outputs[k].0;
        let idx = match find_output_node(config, &graph, item) {
            Some(i) => i,
            None => {
                proof {
                    let n = choose|n: usize|
                        plan_graph_nodes(graph).dom().contains(n) && plan_graph_nodes(graph)[n]
                            == PlanNodeWeight::Output(config.outputs@[k as int].0);
                }
                return Err(PlanError::UnsolvablePlan);
            },
        };
        let ghost before = graph;
        let mut visited: Vec<usize> = Vec::new();
        proof {
            assert(visited@ =~= Seq::<usize>::empty());
            if unsuppliable(*config, item) {
                if config.game_db.items@[item as int].resource {
                    lemma_resource_output(*config, graph, item, idx);
                } else {
                    lemma_unsuppliable_output(*config, graph, item, idx);
                }
            }
            if all_ok {
                assert(surely_supplied(*config, config.outputs@[k as int].0));
                assert(output_fed(gc, config.outputs@[k as int].0));
                if !config.game_db.items@[item as int].resource {
                    assert(by_product_fed(gc, config.outputs@[k as int].0));
                }
                lemma_supplied_output(*config, graph, item, idx);
            }
        }
        if prune_impossible(config, &mut graph, idx, &mut visited) {
            return Err(PlanError::UnsolvablePlan);
        }
        proof {
            lemma_fed_by_inputs_shrinks(*config, before, graph);
            assert forall|e: usize| #[trigger] plan_graph_edges(graph).dom().contains(e) implies plan_graph_edges(graph)[e].0
                != plan_graph_edges(graph)[e].1 by {
                lemma_submap_at(plan_graph_edges(graph), plan_graph_edges(before), e);
            }
        }
        proof {
            assert forall|j: int| 0 <= j < config.outputs@.len() implies has_output_node(plan_graph_nodes(graph), #[trigger] config.outputs@[j].0) by {
                let n = choose|n: usize|
                    plan_graph_nodes(before).dom().contains(n) && plan_graph_nodes(before)[n]
                        == PlanNodeWeight::Output(config.outputs@[j].0);
                assert(plan_graph_nodes(graph).dom().contains(n));
                lemma_submap_at(plan_graph_nodes(graph), plan_graph_nodes(before), n);
            }
        }
        k = k + 1;
    }
    Ok(graph)
}

} // verus!
