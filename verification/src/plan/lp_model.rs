//! The linear program whose solution is the plan: a rate for every node
//! and every edge of the full plan graph, tied together by constraints
//! that follow the kind of each node.
use vstd::prelude::*;

use super::config::{keys_distinct, pairs_map, OutputAmount, PlanConfig};
use super::full_plan_graph::{
    accepts, graph_wf, provides, PlanNodeWeight,
};
use super::PlanError;
use super::plan_graph::{
    edge_list, graph_edges_directed, graph_node_indices, graph_node_weight, plan_graph_edges,
    plan_graph_nodes, side_edges, FullPlanGraph, Side,
};
use crate::game::recipe::first_entry_for;
use crate::game::{Building, GameDatabase, ItemId, ItemPerMinute};

verus! {

/// A constraint of the linear program. Every node and every edge of the
/// graph has a variable: the rate at which the node runs or passes its
/// item on, and the rate at which the edge carries its item. Every
/// by-product node has a second variable, its excess.
#[derive(Debug, Clone, PartialEq)]
pub enum LpConstraint<A> {
    /// The edges that end at `node` carry, together, the node's rate.
    Inflow { node: usize, edges: Vec<usize> },
    /// The edges that start at `node` carry, together with the node's
    /// excess when `excess` holds, the node's rate.
    Outflow { node: usize, edges: Vec<usize>, excess: bool },
    /// The rate of an input node is at most the amount given for its item;
    /// without an amount the rate is at most zero.
    InputLimit { node: usize, limit: Option<A> },
    /// The rate of an output node is the rate requested for its item.
    OutputRate { node: usize, rate: A },
    /// The rate of a production node times the amount its recipe makes of
    /// the edge's item is what the edge carries.
    RecipeOutput { node: usize, edge: usize, amount: A },
    /// The rate of a production node times the amount its recipe consumes
    /// of the edge's item is what the edge carries.
    RecipeInput { node: usize, edge: usize, amount: A },
    /// The edges that start at a producer carry, together, the producer's
    /// rate times the amount its building makes.
    ProducerOutput { node: usize, edges: Vec<usize>, amount: A },
}

/// What the linear program optimises.
#[derive(Debug, Clone, PartialEq)]
pub enum LpObjective<A> {
    /// The sum of the rates of these output nodes, made as large as possible.
    Maximize(Vec<usize>),
    /// The sum of the rates of these input nodes, each weighted by the
    /// inverse of the resource limit of its item (none when the database
    /// records no limit), made as small as possible.
    Minimize(Vec<(usize, Option<A>)>),
}

/// The linear program of a full plan graph: its nodes in increasing order,
/// and the constraints of each node at the same position.
#[derive(Debug, Clone)]
pub struct LpModel<A> {
    pub nodes: Vec<usize>,
    pub constraints: Vec<Vec<LpConstraint<A>>>,
    pub objective: LpObjective<A>,
}

/// The amount of the first entry of `list` for `item`.
pub open spec fn first_amount<A>(list: Seq<ItemPerMinute<A>>, item: ItemId) -> A {
    list[choose|i: int| first_entry_for(list, item, i)].amount
}

/// Whether `es` lists the edges at one end of node `n`, each once.
pub open spec fn lists_edges(es: Seq<usize>, edges: Map<usize, (usize, usize, ItemId)>, n: usize, side: Side) -> bool {
    &&& es.no_duplicates()
    &&& forall|e: usize| side_edges(edges, n, side).contains(e) <==> es.contains(e)
}

/// The bound on an input node: the amount given for its item, if any.
pub open spec fn input_limit<A>(cfg: PlanConfig<A>, item: ItemId) -> Option<A> {
    match cfg.input_of(item) {
        Some(a) => Some(a.value),
        None => None,
    }
}

/// The resource limit that the database records for `item`, if any.
pub open spec fn resource_limit<A>(db: GameDatabase<A>, item: ItemId) -> Option<A> {
    if pairs_map(db.resource_limits@).dom().contains(item) {
        Some(pairs_map(db.resource_limits@)[item].value)
    } else {
        None
    }
}

/// Whether `c` ties the edges that end at `n` to its rate.
pub open spec fn inflow_of<A>(edges: Map<usize, (usize, usize, ItemId)>, n: usize, c: LpConstraint<A>) -> bool {
    c matches LpConstraint::Inflow { node, edges: es } && node == n && lists_edges(es@, edges, n, Side::Incoming)
}

/// Whether `c` ties the edges that start at `n`, and its excess when
/// `excess` holds, to its rate.
pub open spec fn outflow_of<A>(edges: Map<usize, (usize, usize, ItemId)>, n: usize, excess: bool, c: LpConstraint<A>) -> bool {
    c matches LpConstraint::Outflow { node, edges: es, excess: x } && node == n && x == excess
        && lists_edges(es@, edges, n, Side::Outgoing)
}

/// The constraints of a production node of recipe `r`: one per edge that
/// starts at it, for what the recipe makes, then one per edge that ends at
/// it, for what the recipe consumes.
pub open spec fn production_group<A>(
    cfg: PlanConfig<A>,
    edges: Map<usize, (usize, usize, ItemId)>,
    n: usize,
    r: usize,
    outs: Seq<(usize, ItemId)>,
    ins: Seq<(usize, ItemId)>,
) -> Seq<LpConstraint<A>> {
    let recipe = cfg.game_db.recipes@[r as int];
    outs.map_values(
        |p: (usize, ItemId)|
            LpConstraint::RecipeOutput { node: n, edge: p.0, amount: first_amount(recipe.outputs@, p.1) },
    ) + ins.map_values(
        |p: (usize, ItemId)|
            LpConstraint::RecipeInput { node: n, edge: p.0, amount: first_amount(recipe.inputs@, p.1) },
    )
}

/// Whether `c` ties the edges that start at the producer `n` to its rate
/// times `amount`.
pub open spec fn producer_output_of<A>(edges: Map<usize, (usize, usize, ItemId)>, n: usize, amount: A, c: LpConstraint<A>) -> bool {
    c matches LpConstraint::ProducerOutput { node, edges: es, amount: a } && node == n && a == amount
        && lists_edges(es@, edges, n, Side::Outgoing)
}

/// Whether some entry of `list` is for node `x`.
pub open spec fn has_entry_for<V>(list: Seq<(usize, V)>, x: usize) -> bool {
    exists|i: int| 0 <= i < list.len() && list[i].0 == x
}

/// Whether `entry` is the term of the input node it names: its weight is
/// the resource limit of the node's item.
pub open spec fn weighted_input<A>(cfg: PlanConfig<A>, nodes: Map<usize, PlanNodeWeight>, entry: (usize, Option<A>)) -> bool {
    nodes[entry.0] matches PlanNodeWeight::Input(i) && entry.1 == resource_limit(*cfg.game_db, i)
}

/// Whether `g` is the list of constraints of node `n`.
pub open spec fn node_group<A>(
    cfg: PlanConfig<A>,
    nodes: Map<usize, PlanNodeWeight>,
    edges: Map<usize, (usize, usize, ItemId)>,
    n: usize,
    g: Seq<LpConstraint<A>>,
) -> bool {
    match nodes[n] {
        PlanNodeWeight::Output(i) => match cfg.output_of(i) {
            Some(OutputAmount::PerMinute(a)) => g.len() == 2 && inflow_of(edges, n, g[0]) && g[1]
                == LpConstraint::<A>::OutputRate { node: n, rate: a.value },
            _ => g.len() == 1 && inflow_of(edges, n, g[0]),
        },
        PlanNodeWeight::Input(i) => g.len() == 2 && g[0] == LpConstraint::<A>::InputLimit {
            node: n,
            limit: input_limit(cfg, i),
        } && outflow_of(edges, n, false, g[1]),
        PlanNodeWeight::ByProduct(_) => g.len() == 2 && inflow_of(edges, n, g[0]) && outflow_of(
            edges,
            n,
            true,
            g[1],
        ),
        PlanNodeWeight::Production(r) => exists|outs: Seq<(usize, ItemId)>, ins: Seq<(usize, ItemId)>|
            edge_list(outs, edges, n, Side::Outgoing) && edge_list(ins, edges, n, Side::Incoming) && g
                == production_group(cfg, edges, n, r, outs, ins),
        PlanNodeWeight::Producer(b) => match cfg.game_db.buildings@[b as int] {
            Building::ItemProducer(ip) => g.len() == 1 && producer_output_of(
                edges,
                n,
                ip.output.amount,
                g[0],
            ),
            _ => g.len() == 0,
        },
    }
}

/// Whether some output node asks for as much of its item as possible.
pub open spec fn maximize_wanted<A>(cfg: PlanConfig<A>, nodes: Map<usize, PlanNodeWeight>) -> bool {
    exists|n: usize| #[trigger] nodes.dom().contains(n) && maximized_output(cfg, nodes, n)
}

/// Whether `n` is an output node whose item is asked for as much as possible.
pub open spec fn maximized_output<A>(cfg: PlanConfig<A>, nodes: Map<usize, PlanNodeWeight>, n: usize) -> bool {
    nodes[n] matches PlanNodeWeight::Output(i) && cfg.output_of(i) == Some(OutputAmount::<A>::Maximize)
}

/// Whether `n` is the input node of a resource.
pub open spec fn resource_input<A>(cfg: PlanConfig<A>, nodes: Map<usize, PlanNodeWeight>, n: usize) -> bool {
    nodes[n] matches PlanNodeWeight::Input(i) && cfg.game_db.items@[i as int].resource
}

/// Whether `obj` is the objective of the program: the maximised outputs
/// when there are any, otherwise the resource inputs weighted by their
/// limits; each node once, in increasing order.
pub open spec fn objective_of<A>(cfg: PlanConfig<A>, nodes: Map<usize, PlanNodeWeight>, obj: LpObjective<A>) -> bool {
    if maximize_wanted(cfg, nodes) {
        obj matches LpObjective::Maximize(list) && (forall|k: int, l: int|
            0 <= k < l < list@.len() ==> list@[k] < list@[l]) && forall|n: usize|
            list@.contains(n) <==> (nodes.dom().contains(n) && maximized_output(cfg, nodes, n))
    } else {
        obj matches LpObjective::Minimize(list) && (forall|k: int, l: int|
            0 <= k < l < list@.len() ==> list@[k].0 < list@[l].0) && (forall|n: usize|
            #[trigger] has_entry_for(list@, n) <==> (nodes.dom().contains(n) && resource_input(
                cfg,
                nodes,
                n,
            ))) && forall|k: int|
            0 <= k < list@.len() ==> weighted_input(cfg, nodes, #[trigger] list@[k])
    }
}

/// Whether `m` is the linear program of the graph: every node once, in
/// increasing order, each with its constraints, and the objective.
pub open spec fn model_of<A>(cfg: PlanConfig<A>, graph: FullPlanGraph, m: LpModel<A>) -> bool {
    let nodes = plan_graph_nodes(graph);
    let edges = plan_graph_edges(graph);
    &&& forall|k: int, l: int| 0 <= k < l < m.nodes@.len() ==> m.nodes@[k] < m.nodes@[l]
    &&& forall|n: usize| m.nodes@.contains(n) <==> nodes.dom().contains(n)
    &&& m.constraints@.len() == m.nodes@.len()
    &&& forall|k: int|
        0 <= k < m.nodes@.len() ==> node_group(cfg, nodes, edges, m.nodes@[k], #[trigger] m.constraints@[k]@)
    &&& objective_of(cfg, nodes, m.objective)
}

/// When the program minimises, its objective weighs exactly the input
/// nodes of the graph whose item is a resource of the database: every
/// weighed node is such a node, and every such node is weighed.
pub proof fn lemma_objective_weighs_resource_inputs<A>(cfg: PlanConfig<A>, graph: FullPlanGraph, m: LpModel<A>)
    requires
        model_of(cfg, graph, m),
    ensures
        m.objective matches LpObjective::Minimize(list) ==> (forall|k: int|
            0 <= k < list@.len() ==> plan_graph_nodes(graph).dom().contains(#[trigger] list@[k].0) && (
            plan_graph_nodes(graph)[list@[k].0] matches PlanNodeWeight::Input(i)
                && cfg.game_db.items@[i as int].resource)) && forall|n: usize|
            #[trigger] plan_graph_nodes(graph).dom().contains(n) && (plan_graph_nodes(graph)[n] matches PlanNodeWeight::Input(
                i,
            ) && cfg.game_db.items@[i as int].resource) ==> exists|k: int| 0 <= k < list@.len() && list@[k].0 == n,
{
    let nodes = plan_graph_nodes(graph);
    if let LpObjective::Minimize(list) = m.objective {
        if !maximize_wanted(cfg, nodes) {
            assert forall|k: int| 0 <= k < list@.len() implies nodes.dom().contains(#[trigger] list@[k].0) && (
            nodes[list@[k].0] matches PlanNodeWeight::Input(i) && cfg.game_db.items@[i as int].resource) by {
                assert(has_entry_for(list@, list@[k].0));
            }
            assert forall|n: usize|
                #[trigger] nodes.dom().contains(n) && (nodes[n] matches PlanNodeWeight::Input(i)
                    && cfg.game_db.items@[i as int].resource) implies exists|k: int|
                0 <= k < list@.len() && list@[k].0 == n by {
                assert(resource_input(cfg, nodes, n));
                assert(has_entry_for(list@, n));
            }
        }
    }
}

/// The first entry for an item is the one `first_amount` reads.
proof fn lemma_first_amount<A>(list: Seq<ItemPerMinute<A>>, item: ItemId, i: int)
    requires
        first_entry_for(list, item, i),
    ensures
        first_amount(list, item) == list[i].amount,
{
    let c = choose|c: int| first_entry_for(list, item, c);
    assert(first_entry_for(list, item, c));
    if c < i {
        assert(list[c].item != item);
    }
    if i < c {
        assert(list[i].item != item);
    }
}

/// The indices of a list of edges list them.
proof fn lemma_edge_ids(list: Seq<(usize, ItemId)>, edges: Map<usize, (usize, usize, ItemId)>, n: usize, side: Side)
    requires
        edge_list(list, edges, n, side),
    ensures
        lists_edges(list.map_values(|p: (usize, ItemId)| p.0), edges, n, side),
{
    let ids = list.map_values(|p: (usize, ItemId)| p.0);
    assert forall|i: int, j: int| 0 <= i < ids.len() && 0 <= j < ids.len() && i != j implies ids[i] != ids[j] by {
        if i < j {
            assert(list[i].0 != list[j].0);
        } else {
            assert(list[j].0 != list[i].0);
        }
    }
    assert forall|e: usize| side_edges(edges, n, side).contains(e) <==> ids.contains(e) by {
        if side_edges(edges, n, side).contains(e) {
            let i = choose|i: int| 0 <= i < list.len() && list[i].0 == e;
            assert(ids[i] == e);
        }
        if ids.contains(e) {
            let i = choose|i: int| 0 <= i < ids.len() && ids[i] == e;
            assert(list[i].0 == e);
        }
    }
}

/// The indices of a list of edges.
fn edge_ids(list: &Vec<(usize, ItemId)>) -> (r: Vec<usize>)
    ensures
        r@ == list@.map_values(|p: (usize, ItemId)| p.0),
{
    let mut r: Vec<usize> = Vec::new();
    let mut k: usize = 0;
    while k < list.len()
        invariant
            k <= list@.len(),
            r@ == list@.take(k as int).map_values(|p: (usize, ItemId)| p.0),
        decreases list.len() - k,
    {
        r.push(list[k].0);
        proof {
            assert(r@ =~= list@.take(k + 1).map_values(|p: (usize, ItemId)| p.0));
        }
        k = k + 1;
    }
    proof {
        assert(list@.take(k as int) =~= list@);
    }
    r
}

/// The inflow constraint of node `n`.
fn inflow<A>(graph: &FullPlanGraph, n: usize) -> (r: LpConstraint<A>)
    requires
        n < u32::MAX,
    ensures
        inflow_of(plan_graph_edges(*graph), n, r),
{
    let list = graph_edges_directed(graph, n, Side::Incoming);
    proof {
        lemma_edge_ids(list@, plan_graph_edges(*graph), n, Side::Incoming);
    }
    LpConstraint::Inflow { node: n, edges: edge_ids(&list) }
}

/// The outflow constraint of node `n`, with its excess when `excess` holds.
fn outflow<A>(graph: &FullPlanGraph, n: usize, excess: bool) -> (r: LpConstraint<A>)
    requires
        n < u32::MAX,
    ensures
        outflow_of(plan_graph_edges(*graph), n, excess, r),
{
    let list = graph_edges_directed(graph, n, Side::Outgoing);
    proof {
        lemma_edge_ids(list@, plan_graph_edges(*graph), n, Side::Outgoing);
    }
    LpConstraint::Outflow { node: n, edges: edge_ids(&list), excess }
}

/// The constraints of the production node `n` of recipe `r`.
fn production_constraints<A: Copy>(config: &PlanConfig<A>, graph: &FullPlanGraph, n: usize, r: usize) -> (g: Vec<
    LpConstraint<A>,
>)
    requires
        config.wf(),
        graph_wf(*config, *graph),
        plan_graph_nodes(*graph).dom().contains(n),
        plan_graph_nodes(*graph)[n] == PlanNodeWeight::Production(r),
    ensures
        node_group(*config, plan_graph_nodes(*graph), plan_graph_edges(*graph), n, g@),
{
    let ghost nodes = plan_graph_nodes(*graph);
    let ghost edges = plan_graph_edges(*graph);
    let db: &GameDatabase<A> = &*config.game_db;
    proof {
        assert(super::full_plan_graph::weight_valid(*config, nodes[n]));
        let k = choose|k: int| 0 <= k < config.enabled_recipes@.len() && config.enabled_recipes@[k] == r;
        assert(config.enabled_recipes@[k] < config.game_db.recipes@.len());
    }
    let recipe = db.recipe(r);
    let outs = graph_edges_directed(graph, n, Side::Outgoing);
    let ins = graph_edges_directed(graph, n, Side::Incoming);
    let ghost target = production_group(*config, edges, n, r, outs@, ins@);
    let mut g: Vec<LpConstraint<A>> = Vec::new();
    let mut k: usize = 0;
    while k < outs.len()
        invariant
            edge_list(outs@, edges, n, Side::Outgoing),
            edges == plan_graph_edges(*graph),
            nodes == plan_graph_nodes(*graph),
            graph_wf(*config, *graph),
            nodes[n] == PlanNodeWeight::Production(r),
            r < config.game_db.recipes@.len(),
            *recipe == config.game_db.recipes@[r as int],
            target == production_group(*config, edges, n, r, outs@, ins@),
            k <= outs@.len(),
            g@ == target.take(k as int),
        decreases outs.len() - k,
    {
        let (e, item) = outs[k];
        proof {
            assert(side_edges(edges, n, Side::Outgoing).contains(e));
            assert(edges.dom().contains(e));
            assert(provides(*config, nodes[edges[e].0], edges[e].2));
        }
        let entry = match recipe.find_output_by_item(item) {
            Some(x) => x,
            None => {
                proof {
                    assert(false);
                }
                unreached()
            },
        };
        proof {
            let i = choose|i: int| first_entry_for(recipe.outputs@, item, i) && *entry == recipe.outputs@[i];
            lemma_first_amount(recipe.outputs@, item, i);
        }
        g.push(LpConstraint::RecipeOutput { node: n, edge: e, amount: entry.amount });
        proof {
            assert(g@ =~= target.take(k + 1));
        }
        k = k + 1;
    }
    let mut k: usize = 0;
    while k < ins.len()
        invariant
            edge_list(ins@, edges, n, Side::Incoming),
            edges == plan_graph_edges(*graph),
            nodes == plan_graph_nodes(*graph),
            graph_wf(*config, *graph),
            nodes[n] == PlanNodeWeight::Production(r),
            r < config.game_db.recipes@.len(),
            *recipe == config.game_db.recipes@[r as int],
            target == production_group(*config, edges, n, r, outs@, ins@),
            k <= ins@.len(),
            g@ == target.take(outs@.len() + k),
        decreases ins.len() - k,
    {
        let (e, item) = ins[k];
        proof {
            assert(side_edges(edges, n, Side::Incoming).contains(e));
            assert(edges.dom().contains(e));
            assert(accepts(*config, nodes[edges[e].1], edges[e].2));
        }
        let entry = match recipe.find_input_by_item(item) {
            Some(x) => x,
            None => {
                proof {
                    assert(false);
                }
                unreached()
            },
        };
        proof {
            let i = choose|i: int| first_entry_for(recipe.inputs@, item, i) && *entry == recipe.inputs@[i];
            lemma_first_amount(recipe.inputs@, item, i);
        }
        g.push(LpConstraint::RecipeInput { node: n, edge: e, amount: entry.amount });
        proof {
            assert(g@ =~= target.take(outs@.len() + k + 1));
        }
        k = k + 1;
    }
    proof {
        assert(g@ =~= target);
    }
    g
}

/// The constraints of node `n`, by the kind of the node: an output node
/// takes in its rate, and a requested rate fixes it; an input node is
/// bounded by the amount given and passes its rate on; a by-product node
/// passes on what it takes in, less its excess; a production node follows
/// its recipe on each edge; an item producer passes on what its building
/// makes.
fn node_constraints<A: Copy>(config: &PlanConfig<A>, graph: &FullPlanGraph, n: usize) -> (g: Vec<
    LpConstraint<A>,
>)
    requires
        config.wf(),
        graph_wf(*config, *graph),
        plan_graph_nodes(*graph).dom().contains(n),
    ensures
        node_group(*config, plan_graph_nodes(*graph), plan_graph_edges(*graph), n, g@),
{
    let ghost nodes = plan_graph_nodes(*graph);
    proof {
        assert(n < u32::MAX);
    }
    let db: &GameDatabase<A> = &*config.game_db;
    match graph_node_weight(graph, n) {
        PlanNodeWeight::Output(item) => {
            let first = inflow(graph, n);
            match config.find_output(item) {
                Some(OutputAmount::PerMinute(a)) => {
                    let mut g = Vec::new();
                    g.push(first);
                    g.push(LpConstraint::OutputRate { node: n, rate: a.value });
                    g
                },
                _ => {
                    let mut g = Vec::new();
                    g.push(first);
                    g
                },
            }
        },
        PlanNodeWeight::Input(item) => {
            let limit = match config.find_input(item) {
                Some(a) => Some(a.value),
                None => None,
            };
            let mut g = Vec::new();
            g.push(LpConstraint::InputLimit { node: n, limit });
            g.push(outflow(graph, n, false));
            g
        },
        PlanNodeWeight::ByProduct(_) => {
            let mut g = Vec::new();
            g.push(inflow(graph, n));
            g.push(outflow(graph, n, true));
            g
        },
        PlanNodeWeight::Production(r) => production_constraints(config, graph, n, r),
        PlanNodeWeight::Producer(b) => {
            proof {
                assert(super::full_plan_graph::weight_valid(*config, nodes[n]));
            }
            match db.building(b) {
                Building::ItemProducer(ip) => {
                    let list = graph_edges_directed(graph, n, Side::Outgoing);
                    proof {
                        lemma_edge_ids(list@, plan_graph_edges(*graph), n, Side::Outgoing);
                    }
                    let mut g = Vec::new();
                    g.push(
                        LpConstraint::ProducerOutput {
                            node: n,
                            edges: edge_ids(&list),
                            amount: ip.output.amount,
                        },
                    );
                    g
                },
                _ => Vec::new(),
            }
        },
    }
}

/// The limit that a sequence of distinct pairs records for a key is the
/// value of the pair with that key.
proof fn lemma_pairs_map_at<K, V>(s: Seq<(K, V)>, k: int)
    requires
        keys_distinct(s),
        0 <= k < s.len(),
    ensures
        pairs_map(s).dom().contains(s[k].0),
        pairs_map(s)[s[k].0] == s[k].1,
{
    let m = pairs_map(s);
    assert(m.dom().contains(s[k].0));
    let w = choose|w: int| 0 <= w < s.len() && s[w].0 == s[k].0;
    assert(w == k);
}

/// The resource limit of `item`, read from the database.
fn limit_of<A: Copy>(db: &GameDatabase<A>, item: ItemId) -> (r: Option<A>)
    requires
        keys_distinct(db.resource_limits@),
    ensures
        r == resource_limit(*db, item),
{
    match db.get_resource_limit(item) {
        Some(a) => {
            proof {
                let k = choose|k: int|
                    db.limit_entry(item, k) && a == db.resource_limits@[k].1 && forall|j: int|
                        0 <= j < k ==> db.resource_limits@[j].0 != item;
                lemma_pairs_map_at(db.resource_limits@, k);
            }
            Some(a.value)
        },
        None => {
            proof {
                if pairs_map(db.resource_limits@).dom().contains(item) {
                    let w = choose|w: int| 0 <= w < db.resource_limits@.len() && db.resource_limits@[w].0 == item;
                    assert(db.limit_entry(item, w));
                }
            }
            None
        },
    }
}

/// Builds the linear program of the full plan graph. It maximises the
/// rates of the outputs that ask for as much as possible when there are
/// any; otherwise it minimises the use of resources, each weighed against
/// its limit.
pub fn build_lp_model<A: Copy>(config: &PlanConfig<A>, graph: &FullPlanGraph) -> (r: LpModel<A>)
    requires
        config.wf(),
        graph_wf(*config, *graph),
    ensures
        model_of(*config, *graph, r),
{
    let ghost nodes = plan_graph_nodes(*graph);
    let ghost edges = plan_graph_edges(*graph);
    let db: &GameDatabase<A> = &*config.game_db;
    let order = graph_node_indices(graph);
    let mut constraints: Vec<Vec<LpConstraint<A>>> = Vec::new();
    let mut maximized: Vec<usize> = Vec::new();
    let mut weighted: Vec<(usize, Option<A>)> = Vec::new();
    let mut k: usize = 0;
    while k < order.len()
        invariant
            config.wf(),
            graph_wf(*config, *graph),
            nodes == plan_graph_nodes(*graph),
            edges == plan_graph_edges(*graph),
            db == &*config.game_db,
            order@.to_set() == nodes.dom(),
            forall|i: int, j: int| 0 <= i < j < order@.len() ==> order@[i] < order@[j],
            k <= order@.len(),
            constraints@.len() == k,
            forall|i: int|
                0 <= i < k ==> node_group(*config, nodes, edges, order@[i], #[trigger] constraints@[i]@),
            forall|i: int, j: int| 0 <= i < j < maximized@.len() ==> maximized@[i] < maximized@[j],
            forall|x: usize|
                maximized@.contains(x) <==> (exists|i: int|
                    0 <= i < k && order@[i] == x && maximized_output(*config, nodes, x)),
            forall|i: int, j: int| 0 <= i < j < weighted@.len() ==> weighted@[i].0 < weighted@[j].0,
            forall|x: usize|
                #[trigger] has_entry_for(weighted@, x) <==> (exists|i: int|
                    0 <= i < k && order@[i] == x && resource_input(*config, nodes, x)),
            forall|i: int| 0 <= i < weighted@.len() ==> weighted_input(*config, nodes, #[trigger] weighted@[i]),
            forall|i: int| 0 <= i < maximized@.len() ==> exists|j: int| 0 <= j < k && order@[j] == #[trigger] maximized@[i],
            forall|i: int| 0 <= i < weighted@.len() ==> exists|j: int| 0 <= j < k && order@[j] == #[trigger] weighted@[i].0,
        decreases order.len() - k,
    {
        let n = order[k];
        proof {
            assert(order@.to_set().contains(n));
        }
        let g = node_constraints(config, graph, n);
        constraints.push(g);
        let ghost max_before = maximized@;
        let ghost weighted_before = weighted@;
        match graph_node_weight(graph, n) {
            PlanNodeWeight::Output(item) => {
                match config.find_output(item) {
                    Some(OutputAmount::Maximize) => {
                        maximized.push(n);
                    },
                    _ => {},
                }
            },
            PlanNodeWeight::Input(item) => {
                proof {
                    assert(super::full_plan_graph::weight_valid(*config, nodes[n]));
                }
                if db.item(item).resource {
                    let limit = limit_of(db, item);
                    weighted.push((n, limit));
                }
            },
            _ => {},
        }
        proof {
            assert forall|i: int, j: int| 0 <= i < j < maximized@.len() implies maximized@[i] < maximized@[j] by {
                if j == max_before.len() {
                    let w = choose|w: int| 0 <= w < k && order@[w] == #[trigger] max_before[i];
                    assert(order@[w] < order@[k as int]);
                }
            }
            assert forall|i: int, j: int| 0 <= i < j < weighted@.len() implies weighted@[i].0 < weighted@[j].0 by {
                if j == weighted_before.len() {
                    let w = choose|w: int| 0 <= w < k && order@[w] == #[trigger] weighted_before[i].0;
                    assert(order@[w] < order@[k as int]);
                }
            }
            assert forall|x: usize|
                maximized@.contains(x) <==> (exists|i: int|
                    0 <= i < k + 1 && order@[i] == x && maximized_output(*config, nodes, x)) by {
                if maximized@.contains(x) {
                    let i = choose|i: int| 0 <= i < maximized@.len() && maximized@[i] == x;
                    if i < max_before.len() {
                        assert(max_before.contains(x));
                    }
                }
                if exists|i: int| 0 <= i < k + 1 && order@[i] == x && maximized_output(*config, nodes, x) {
                    let i = choose|i: int| 0 <= i < k + 1 && order@[i] == x && maximized_output(*config, nodes, x);
                    if i < k {
                        assert(0 <= i < k && order@[i] == x && maximized_output(*config, nodes, x));
                        assert(max_before.contains(x));
                        let j = choose|j: int| 0 <= j < max_before.len() && max_before[j] == x;
                        assert(maximized@[j] == x);
                    } else {
                        assert(maximized@[max_before.len() as int] == x);
                    }
                }
            }
            assert forall|x: usize|
                #[trigger] has_entry_for(weighted@, x) <==> (exists|i: int|
                    0 <= i < k + 1 && order@[i] == x && resource_input(*config, nodes, x)) by {
                if has_entry_for(weighted@, x) {
                    let i = choose|i: int| 0 <= i < weighted@.len() && weighted@[i].0 == x;
                    if i < weighted_before.len() {
                        assert(weighted_before[i].0 == x);
                        assert(has_entry_for(weighted_before, x));
                    }
                }
                if exists|i: int| 0 <= i < k + 1 && order@[i] == x && resource_input(*config, nodes, x) {
                    let i = choose|i: int| 0 <= i < k + 1 && order@[i] == x && resource_input(*config, nodes, x);
                    if i < k {
                        assert(has_entry_for(weighted_before, x));
                        let j = choose|j: int| 0 <= j < weighted_before.len() && weighted_before[j].0 == x;
                        assert(weighted@[j].0 == x);
                    } else {
                        assert(weighted@[weighted_before.len() as int].0 == x);
                    }
                }
            }
            assert forall|i: int| 0 <= i < maximized@.len() implies exists|j: int| 0 <= j < k + 1 && order@[j] == #[trigger] maximized@[i] by {
                if i < max_before.len() {
                    let w = choose|w: int| 0 <= w < k && order@[w] == #[trigger] max_before[i];
                    assert(order@[w] == maximized@[i]);
                } else {
                    assert(order@[k as int] == maximized@[i]);
                }
            }
            assert forall|i: int| 0 <= i < weighted@.len() implies exists|j: int| 0 <= j < k + 1 && order@[j] == #[trigger] weighted@[i].0 by {
                if i < weighted_before.len() {
                    let w = choose|w: int| 0 <= w < k && order@[w] == #[trigger] weighted_before[i].0;
                    assert(order@[w] == weighted@[i].0);
                } else {
                    assert(order@[k as int] == weighted@[i].0);
                }
            }
        }
        k = k + 1;
    }
    proof {
        assert forall|x: usize| order@.contains(x) <==> nodes.dom().contains(x) by {
            assert(order@.to_set().contains(x) == order@.contains(x));
        }
    }
    let objective = if maximized.len() > 0 {
        proof {
            let x = maximized@[0];
            assert(maximized@.contains(x));
            let i = choose|i: int| 0 <= i < k && order@[i] == x && maximized_output(*config, nodes, x);
            assert(order@.to_set().contains(order@[i]));
            assert(nodes.dom().contains(x));
        }
        LpObjective::Maximize(maximized)
    } else {
        proof {
            if maximize_wanted(*config, nodes) {
                let x = choose|x: usize| #[trigger] nodes.dom().contains(x) && maximized_output(*config, nodes, x);
                assert(order@.to_set().contains(x));
                let i = choose|i: int| 0 <= i < order@.len() && order@[i] == x;
                assert(maximized@.contains(x));
            }
        }
        LpObjective::Minimize(weighted)
    };
    proof {
        assert forall|x: usize| maximized@.contains(x) <==> (nodes.dom().contains(x) && maximized_output(*config, nodes, x)) by {
            if nodes.dom().contains(x) && maximized_output(*config, nodes, x) {
                assert(order@.to_set().contains(x));
                let i = choose|i: int| 0 <= i < order@.len() && order@[i] == x;
            }
            if maximized@.contains(x) {
                let i = choose|i: int| 0 <= i < k && order@[i] == x && maximized_output(*config, nodes, x);
                assert(order@.to_set().contains(order@[i]));
            }
        }
    }
    LpModel { nodes: order, constraints, objective }
}

/// The linear program of a built plan graph, for a solver to solve: when
/// building the graph failed, the error is handed back unchanged and no
/// program is built; otherwise the graph is kept and its program built.
pub fn plan_program<A: Copy>(
    config: &PlanConfig<A>,
    built: Result<FullPlanGraph, PlanError>,
) -> (r: Result<(FullPlanGraph, LpModel<A>), PlanError>)
    requires
        config.wf(),
        built matches Ok(g) ==> graph_wf(*config, g),
    ensures
        match built {
            Ok(g) => r matches Ok((g2, m)) && g2 == g && model_of(*config, g, m),
            Err(e) => r == Err::<(FullPlanGraph, LpModel<A>), PlanError>(e),
        },
{
    match built {
        Ok(graph) => {
            let model = build_lp_model(config, &graph);
            Ok((graph, model))
        },
        Err(e) => Err(e),
    }
}

} // verus!
