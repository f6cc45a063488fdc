use std::sync::Arc;

use petgraph::stable_graph::NodeIndex;
use petgraph::Direction;
use satisfactory_planner::game::building::{BuildingDefinition, ItemAmountDefinition, ItemProducerDefinition, Manufacturer};
use satisfactory_planner::game::{
    Amount, GameDatabase, GameDatabaseDefinition, Item, ItemKeyAmountPair, ItemState,
    PowerConsumption, RecipeDefinition, RecipePower, Sign,
};
use satisfactory_planner::plan::full_plan_graph::{build_full_plan, create_production_by_product};
use satisfactory_planner::plan::{
    is_reachable, plan_program, ErrorResponse, FullPlanGraph, Side, LpConstraint, LpObjective, OutputAmount,
    PlanConfig, PlanConfigDefinition, PlanError, PlanNodeWeight,
};

const ORE: usize = 0;
const INGOT: usize = 1;
const PLATE: usize = 2;
const WATER: usize = 3;
const GIFT: usize = 4;
const ROD: usize = 5;

fn item(key: &str, name: &str, resource: bool, state: ItemState) -> Item {
    Item {
        key: key.to_string(),
        name: name.to_string(),
        resource,
        state,
        energy_mj: 0,
        sink_points: 1,
        bit_mask: None,
    }
}

fn pair(item: &str, amount: f64) -> ItemKeyAmountPair<f64> {
    ItemKeyAmountPair::new(item.to_string(), amount)
}

fn recipe(
    key: &str,
    name: &str,
    alternate: bool,
    inputs: Vec<ItemKeyAmountPair<f64>>,
    outputs: Vec<ItemKeyAmountPair<f64>>,
) -> RecipeDefinition<f64> {
    RecipeDefinition {
        key: key.to_string(),
        name: name.to_string(),
        alternate,
        outputs,
        inputs,
        craft_time_secs: 2.0,
        events: vec![],
        building: "Desc_SmelterMk1_C".to_string(),
        power: RecipePower { min_mw: 0.0, max_mw: 0.0 },
    }
}

fn game_db() -> Arc<GameDatabase<f64>> {
    let def = GameDatabaseDefinition {
        by_product_blacklist: vec!["Desc_Water_C".to_string()],
        items: vec![
            item("Desc_OreIron_C", "Iron Ore", true, ItemState::Solid),
            item("Desc_IronIngot_C", "Iron Ingot", false, ItemState::Solid),
            item("Desc_IronPlate_C", "Iron Plate", false, ItemState::Solid),
            item("Desc_Water_C", "Water", true, ItemState::Liquid),
            item("Desc_Gift_C", "FICSMAS Gift", false, ItemState::Solid),
            item("Desc_IronRod_C", "Iron Rod", false, ItemState::Solid),
        ],
        buildings: vec![
            BuildingDefinition::Manufacturer(Manufacturer {
                key: "Desc_SmelterMk1_C".to_string(),
                name: "Smelter".to_string(),
                power_consumption: PowerConsumption::Fixed { value_mw: 4, exponent: 1.6 },
                dimensions: None,
            }),
            BuildingDefinition::ItemProducer(ItemProducerDefinition {
                key: "Desc_TreeGiftProducer_C".to_string(),
                name: "FICSMAS Gift Tree".to_string(),
                power_consumption: PowerConsumption::Fixed { value_mw: 0, exponent: 1.6 },
                craft_time_secs: 60.0,
                output: ItemAmountDefinition { item: "Desc_Gift_C".to_string(), amount: 5.0 },
                dimensions: None,
            }),
        ],
        recipes: vec![
            recipe(
                "Recipe_IngotIron_C",
                "Iron Ingot",
                false,
                vec![pair("Desc_OreIron_C", 30.0)],
                vec![pair("Desc_IronIngot_C", 30.0)],
            ),
            recipe(
                "Recipe_Alternate_PureIronIngot_C",
                "Pure Iron Ingot",
                true,
                vec![pair("Desc_OreIron_C", 35.0), pair("Desc_Water_C", 20.0)],
                vec![pair("Desc_IronIngot_C", 65.0)],
            ),
            recipe(
                "Recipe_IronPlate_C",
                "Iron Plate",
                false,
                vec![pair("Desc_IronIngot_C", 30.0)],
                vec![pair("Desc_IronPlate_C", 20.0)],
            ),
            recipe(
                "Recipe_IronRod_C",
                "Iron Rod",
                false,
                vec![pair("Desc_IronIngot_C", 15.0), pair("Desc_Gift_C", 1.0)],
                vec![pair("Desc_IronRod_C", 15.0), pair("Desc_Water_C", 1.0)],
            ),
        ],
        resource_limits: vec![
            ("Desc_OreIron_C".to_string(), Amount::new(70380.0, Sign::Positive)),
            ("Desc_Water_C".to_string(), Amount::new(9007199254740991.0, Sign::Positive)),
        ],
    };
    Arc::new(GameDatabase::convert(def).unwrap())
}

fn positive(value: f64) -> Amount<f64> {
    Amount::new(value, Sign::Positive)
}

fn request(
    inputs: Vec<(&str, Amount<f64>)>,
    outputs: Vec<(&str, OutputAmount<f64>)>,
    recipes: Vec<&str>,
) -> PlanConfigDefinition<f64> {
    PlanConfigDefinition {
        inputs: inputs.into_iter().map(|(k, a)| (k.to_string(), a)).collect(),
        outputs: outputs.into_iter().map(|(k, a)| (k.to_string(), a)).collect(),
        recipes: recipes.into_iter().map(|r| r.to_string()).collect(),
    }
}

fn node_weights(graph: &FullPlanGraph) -> Vec<PlanNodeWeight> {
    graph.node_indices().map(|i| graph[i]).collect()
}

fn node_of(graph: &FullPlanGraph, weight: PlanNodeWeight) -> Option<NodeIndex> {
    graph.node_indices().find(|i| graph[*i] == weight)
}

#[test]
fn parse_resolves_names_and_keys() {
    let db = game_db();
    let config = PlanConfig::parse(
        request(
            vec![("iron ingot", Amount::new(10.0, Sign::Positive))],
            vec![("Iron Plate", OutputAmount::PerMinute(positive(60.0)))],
            vec!["Recipe_IngotIron_C", "Iron Plate"],
        ),
        Arc::clone(&db),
    )
    .unwrap();
    assert_eq!(config.outputs.len(), 1);
    assert_eq!(config.outputs[0].0, PLATE);
    assert_eq!(config.find_input(INGOT).unwrap().value, 10.0);
    assert_eq!(config.find_input(ORE).unwrap().value, 70380.0);
    assert!(config.find_input(PLATE).is_none());
    assert_eq!(config.enabled_recipes, vec![0, 2]);
    assert!(config.find_output(PLATE).unwrap().is_per_minute());
    assert_eq!(config.find_output(PLATE).unwrap().as_per_minute(), 60.0);
    assert!(config.has_input(ORE));
    assert!(!config.has_input(ROD));
}

#[test]
fn parse_lets_a_given_input_replace_a_limit() {
    let db = game_db();
    let config = PlanConfig::parse(
        request(
            vec![("Iron Ore", Amount::new(0.0, Sign::Zero))],
            vec![("Iron Plate", OutputAmount::Maximize)],
            vec![],
        ),
        db,
    )
    .unwrap();
    assert_eq!(config.find_input(ORE).unwrap().value, 0.0);
    assert!(config.has_zero_input(ORE));
    assert!(!config.has_zero_input(WATER));
    assert!(config.find_output(PLATE).unwrap().is_maximize());
}

#[test]
fn parse_rejects_an_unknown_output() {
    let e = PlanConfig::parse(
        request(vec![], vec![("Steel Beam", OutputAmount::Maximize)], vec![]),
        game_db(),
    )
    .unwrap_err();
    assert_eq!(e, PlanError::UnknownItem("Steel Beam".to_string()));
    assert_eq!(e.error_code(), "UnknownItem");
    assert_eq!(e.to_string(), "No item exists with the name or key `Steel Beam`");
}

#[test]
fn parse_rejects_a_resource_output() {
    let e = PlanConfig::parse(
        request(vec![], vec![("Desc_OreIron_C", OutputAmount::Maximize)], vec![]),
        game_db(),
    )
    .unwrap_err();
    assert_eq!(e, PlanError::UnexpectedResourceInOutputs("Iron Ore".to_string()));
    assert_eq!(
        e.to_string(),
        "The item `Iron Ore` is an extractable resource and is not allowed in outputs."
    );
}

#[test]
fn parse_rejects_a_rate_that_is_not_positive() {
    let e = PlanConfig::parse(
        request(
            vec![],
            vec![("Iron Plate", OutputAmount::PerMinute(Amount::new(0.0, Sign::Zero)))],
            vec![],
        ),
        game_db(),
    )
    .unwrap_err();
    assert_eq!(e, PlanError::InvalidOutputAmount("Iron Plate".to_string()));
    assert_eq!(e.error_code(), "InvalidOutputAmount");
    assert_eq!(e.to_string(), "The output for item `Iron Plate` must be greater than zero.");
}

#[test]
fn parse_rejects_a_negative_input() {
    let e = PlanConfig::parse(
        request(
            vec![("Iron Ingot", Amount::new(-1.0, Sign::Negative))],
            vec![("Iron Plate", OutputAmount::Maximize)],
            vec![],
        ),
        game_db(),
    )
    .unwrap_err();
    assert_eq!(e, PlanError::InvalidInputAmount("Iron Ingot".to_string()));
    assert_eq!(
        e.to_string(),
        "The input for item `Iron Ingot` must be greater than or equal to zero."
    );
}

#[test]
fn parse_rejects_an_unknown_recipe() {
    let e = PlanConfig::parse(
        request(vec![], vec![("Iron Plate", OutputAmount::Maximize)], vec!["iron plate"]),
        game_db(),
    )
    .unwrap_err();
    assert_eq!(e, PlanError::UnknownRecipe("iron plate".to_string()));
    assert_eq!(e.error_code(), "UnknownRecipe");
    assert_eq!(e.to_string(), "No recipe exists with the name or key `iron plate`");
}

#[test]
fn parse_checks_outputs_before_inputs() {
    let e = PlanConfig::parse(
        request(
            vec![("Nothing", positive(1.0))],
            vec![("Iron Plate", OutputAmount::PerMinute(Amount::new(-5.0, Sign::Negative)))],
            vec!["Unknown"],
        ),
        game_db(),
    )
    .unwrap_err();
    assert_eq!(e, PlanError::InvalidOutputAmount("Iron Plate".to_string()));
}

#[test]
fn error_response_carries_code_and_message() {
    let r = ErrorResponse::from_error(&PlanError::UnsolvablePlan);
    assert_eq!(r.error_code, "UnsolvablePlan");
    assert_eq!(
        r.message,
        "Unable to solve the given factory plan.  This can be caused by missing inputs, insufficient resources, or disabled recipes."
    );
}

#[test]
fn find_recipes_by_output_lists_enabled_producers() {
    let db = game_db();
    let config = PlanConfig::parse(
        request(
            vec![],
            vec![("Iron Plate", OutputAmount::Maximize)],
            vec!["Recipe_IngotIron_C", "Recipe_Alternate_PureIronIngot_C", "Recipe_IronRod_C"],
        ),
        db,
    )
    .unwrap();
    assert_eq!(config.find_recipes_by_output(INGOT), vec![0, 1]);
    assert_eq!(config.find_recipes_by_output(ROD), vec![3]);
    // water is blacklisted as a by-product, and it is not the first output
    assert_eq!(config.find_recipes_by_output(WATER), Vec::<usize>::new());
}

#[test]
fn full_plan_for_iron_plates() {
    let db = game_db();
    let config = PlanConfig::parse(
        request(
            vec![],
            vec![("Iron Plate", OutputAmount::PerMinute(positive(60.0)))],
            vec!["Recipe_IngotIron_C", "Recipe_IronPlate_C"],
        ),
        db,
    )
    .unwrap();
    let graph = build_full_plan(&config).unwrap();
    assert_eq!(node_weights(&graph).len(), 6);
    let output = node_of(&graph, PlanNodeWeight::Output(PLATE)).unwrap();
    let plates = node_of(&graph, PlanNodeWeight::ByProduct(PLATE)).unwrap();
    let plate = node_of(&graph, PlanNodeWeight::Production(2)).unwrap();
    let ingots = node_of(&graph, PlanNodeWeight::ByProduct(INGOT)).unwrap();
    let ingot = node_of(&graph, PlanNodeWeight::Production(0)).unwrap();
    let ore = node_of(&graph, PlanNodeWeight::Input(ORE)).unwrap();
    assert_eq!(graph.edge_count(), 5);
    assert_eq!(graph[graph.find_edge(plates, output).unwrap()], PLATE);
    assert_eq!(graph[graph.find_edge(plate, plates).unwrap()], PLATE);
    assert_eq!(graph[graph.find_edge(ingots, plate).unwrap()], INGOT);
    assert_eq!(graph[graph.find_edge(ingot, ingots).unwrap()], INGOT);
    assert_eq!(graph[graph.find_edge(ore, ingot).unwrap()], ORE);
}

#[test]
fn full_plan_with_a_given_intermediate() {
    let db = game_db();
    let config = PlanConfig::parse(
        request(
            vec![("Iron Ingot", positive(30.0))],
            vec![("Iron Plate", OutputAmount::PerMinute(positive(60.0)))],
            vec!["Recipe_IronPlate_C"],
        ),
        db,
    )
    .unwrap();
    let graph = build_full_plan(&config).unwrap();
    let ingots = node_of(&graph, PlanNodeWeight::ByProduct(INGOT)).unwrap();
    let given = node_of(&graph, PlanNodeWeight::Input(INGOT)).unwrap();
    assert!(graph.find_edge(given, ingots).is_some());
    assert!(node_of(&graph, PlanNodeWeight::Production(2)).is_some());
    assert_eq!(graph.node_count(), 5);
}

#[test]
fn full_plan_is_unsolvable_without_recipes() {
    let db = game_db();
    let config = PlanConfig::parse(
        request(vec![], vec![("Iron Plate", OutputAmount::Maximize)], vec![]),
        db,
    )
    .unwrap();
    assert_eq!(build_full_plan(&config).unwrap_err(), PlanError::UnsolvablePlan);
}

#[test]
fn full_plan_uses_an_item_producer() {
    let db = game_db();
    let config = PlanConfig::parse(
        request(
            vec![],
            vec![("Iron Rod", OutputAmount::Maximize)],
            vec!["Recipe_IngotIron_C", "Recipe_IronRod_C"],
        ),
        db,
    )
    .unwrap();
    let graph = build_full_plan(&config).unwrap();
    let tree = node_of(&graph, PlanNodeWeight::Producer(1)).unwrap();
    let rod = node_of(&graph, PlanNodeWeight::Production(3)).unwrap();
    assert_eq!(graph[graph.find_edge(tree, rod).unwrap()], GIFT);
    // the water the rod recipe also makes becomes a by-product node
    let water = node_of(&graph, PlanNodeWeight::ByProduct(WATER)).unwrap();
    assert_eq!(graph[graph.find_edge(rod, water).unwrap()], WATER);
    assert_eq!(graph.neighbors_directed(water, Direction::Outgoing).count(), 0);
}

#[test]
fn production_by_product_is_shared() {
    let db = game_db();
    let config = PlanConfig::parse(
        request(
            vec![],
            vec![("Iron Plate", OutputAmount::Maximize)],
            vec!["Recipe_IngotIron_C", "Recipe_IronPlate_C"],
        ),
        db,
    )
    .unwrap();
    let mut graph = build_full_plan(&config).unwrap();
    let output = node_of(&graph, PlanNodeWeight::Output(PLATE)).unwrap();
    create_production_by_product(&config, &mut graph, output.index(), PLATE);
    let nodes = graph.node_count();
    let edges = graph.edge_count();
    let by_product = node_of(&graph, PlanNodeWeight::ByProduct(PLATE)).unwrap();
    assert_eq!(graph[graph.find_edge(by_product, output).unwrap()], PLATE);
    create_production_by_product(&config, &mut graph, output.index(), PLATE);
    assert_eq!(graph.node_count(), nodes);
    assert_eq!(graph.edge_count(), edges);
}

#[test]
fn program_for_iron_plates_at_a_rate() {
    let db = game_db();
    let config = PlanConfig::parse(
        request(
            vec![],
            vec![("Iron Plate", OutputAmount::PerMinute(positive(60.0)))],
            vec!["Recipe_IngotIron_C", "Recipe_IronPlate_C"],
        ),
        db,
    )
    .unwrap();
    assert!(config.fits_index_space());
    let (graph, model) = plan_program(&config, build_full_plan(&config)).unwrap();
    let expected_nodes: Vec<usize> = graph.node_indices().map(|i| i.index()).collect();
    assert_eq!(model.nodes, expected_nodes);
    assert_eq!(model.constraints.len(), model.nodes.len());

    let output = node_of(&graph, PlanNodeWeight::Output(PLATE)).unwrap();
    let plates = node_of(&graph, PlanNodeWeight::ByProduct(PLATE)).unwrap();
    let plate = node_of(&graph, PlanNodeWeight::Production(2)).unwrap();
    let ingots = node_of(&graph, PlanNodeWeight::ByProduct(INGOT)).unwrap();
    let ore = node_of(&graph, PlanNodeWeight::Input(ORE)).unwrap();
    let edge = |a, b| graph.find_edge(a, b).unwrap().index();
    let at = |n: NodeIndex| model.nodes.iter().position(|m| *m == n.index()).unwrap();

    assert_eq!(
        model.constraints[at(output)],
        vec![
            LpConstraint::Inflow { node: output.index(), edges: vec![edge(plates, output)] },
            LpConstraint::OutputRate { node: output.index(), rate: 60.0 },
        ]
    );
    assert_eq!(
        model.constraints[at(plates)],
        vec![
            LpConstraint::Inflow { node: plates.index(), edges: vec![edge(plate, plates)] },
            LpConstraint::Outflow { node: plates.index(), edges: vec![edge(plates, output)], excess: true },
        ]
    );
    assert_eq!(
        model.constraints[at(plate)],
        vec![
            LpConstraint::RecipeOutput { node: plate.index(), edge: edge(plate, plates), amount: 20.0 },
            LpConstraint::RecipeInput { node: plate.index(), edge: edge(ingots, plate), amount: 30.0 },
        ]
    );
    assert_eq!(
        model.constraints[at(ore)][0],
        LpConstraint::InputLimit { node: ore.index(), limit: Some(70380.0) }
    );
    assert_eq!(
        model.objective,
        LpObjective::Minimize(vec![(ore.index(), Some(70380.0))])
    );
}

#[test]
fn program_maximizes_requested_outputs() {
    let db = game_db();
    let config = PlanConfig::parse(
        request(
            vec![("Iron Ingot", positive(30.0))],
            vec![("Iron Plate", OutputAmount::Maximize)],
            vec!["Recipe_IronPlate_C"],
        ),
        db,
    )
    .unwrap();
    let (graph, model) = plan_program(&config, build_full_plan(&config)).unwrap();
    let output = node_of(&graph, PlanNodeWeight::Output(PLATE)).unwrap();
    let given = node_of(&graph, PlanNodeWeight::Input(INGOT)).unwrap();
    assert_eq!(model.objective, LpObjective::Maximize(vec![output.index()]));
    assert_eq!(model.constraints[model.nodes.iter().position(|m| *m == output.index()).unwrap()].len(), 1);
    assert_eq!(
        model.constraints[model.nodes.iter().position(|m| *m == given.index()).unwrap()][0],
        LpConstraint::InputLimit { node: given.index(), limit: Some(30.0) }
    );
}

#[test]
fn program_for_an_item_producer() {
    let db = game_db();
    let config = PlanConfig::parse(
        request(
            vec![],
            vec![("Iron Rod", OutputAmount::Maximize)],
            vec!["Recipe_IngotIron_C", "Recipe_IronRod_C"],
        ),
        db,
    )
    .unwrap();
    let (graph, model) = plan_program(&config, build_full_plan(&config)).unwrap();
    let tree = node_of(&graph, PlanNodeWeight::Producer(1)).unwrap();
    let rod = node_of(&graph, PlanNodeWeight::Production(3)).unwrap();
    let position = model.nodes.iter().position(|m| *m == tree.index()).unwrap();
    assert_eq!(
        model.constraints[position],
        vec![LpConstraint::ProducerOutput {
            node: tree.index(),
            edges: vec![graph.find_edge(tree, rod).unwrap().index()],
            amount: 5.0,
        }]
    );
}

#[test]
fn an_output_is_judged_by_its_first_supplier() {
    // The gift tree feeds the output directly, but the output node is
    // judged by the edge added last, from the empty by-product node.
    let config = PlanConfig::parse(
        request(
            vec![],
            vec![("FICSMAS Gift", OutputAmount::PerMinute(positive(10.0)))],
            vec![],
        ),
        game_db(),
    )
    .unwrap();
    assert_eq!(plan_program(&config, build_full_plan(&config)).unwrap_err(), PlanError::UnsolvablePlan);
}

#[test]
fn program_of_an_unsolvable_request() {
    let config = PlanConfig::parse(
        request(vec![], vec![("Iron Rod", OutputAmount::Maximize)], vec!["Recipe_IronRod_C"]),
        game_db(),
    )
    .unwrap();
    assert_eq!(plan_program(&config, build_full_plan(&config)).unwrap_err(), PlanError::UnsolvablePlan);
}

#[test]
fn node_weight_queries() {
    let w = PlanNodeWeight::new_input(3);
    assert_eq!(w, PlanNodeWeight::Input(3));
    assert!(w.is_input_for_item(3));
    assert!(!w.is_input_for_item(4));
    assert!(!w.is_output_for_item(3));
    assert!(PlanNodeWeight::new_output(2).is_output_for_item(2));
    assert!(PlanNodeWeight::new_by_product(5).is_by_product_for_item(5));
    assert!(!PlanNodeWeight::new_by_product(5).is_by_product_for_item(2));
    assert!(PlanNodeWeight::new_production(1).is_production_for_recipe(1));
    assert!(!PlanNodeWeight::new_production(1).is_producer_for_building(1));
    assert!(PlanNodeWeight::new_producer(7).is_producer_for_building(7));
}

#[test]
fn recipe_queries() {
    let db = game_db();
    let rod = db.recipe(3);
    assert!(rod.has_input_item(GIFT));
    assert!(!rod.has_input_item(ORE));
    assert!(rod.has_output_item(WATER));
    assert!(rod.is_primary_output(ROD));
    assert!(!rod.is_primary_output(WATER));
    assert_eq!(rod.find_input_by_item(INGOT).unwrap().amount, 15.0);
    assert!(rod.find_output_by_item(ORE).is_none());
    assert!(db.recipe(0) == db.recipe(0));
    assert!(db.recipe(0) != db.recipe(1));
}

#[test]
fn reachability_follows_edge_directions() {
    let db = game_db();
    let config = PlanConfig::parse(
        request(
            vec![],
            vec![("Iron Plate", OutputAmount::PerMinute(positive(60.0)))],
            vec!["Recipe_IngotIron_C", "Recipe_IronPlate_C"],
        ),
        db,
    )
    .unwrap();
    let graph = build_full_plan(&config).unwrap();
    let output = node_of(&graph, PlanNodeWeight::Output(PLATE)).unwrap().index();
    let ore = node_of(&graph, PlanNodeWeight::Input(ORE)).unwrap().index();
    let ingot = node_of(&graph, PlanNodeWeight::Production(0)).unwrap().index();
    assert!(is_reachable(&graph, ore, output, Side::Outgoing));
    assert!(!is_reachable(&graph, output, ore, Side::Outgoing));
    assert!(is_reachable(&graph, output, ore, Side::Incoming));
    assert!(is_reachable(&graph, ingot, ingot, Side::Incoming));
    assert!(!is_reachable(&graph, ingot, ore, Side::Outgoing));
}

#[test]
fn full_plan_for_a_given_output() {
    let db = game_db();
    let config = PlanConfig::parse(
        request(
            vec![("Iron Ingot", positive(30.0))],
            vec![("Iron Ingot", OutputAmount::PerMinute(positive(30.0)))],
            vec![],
        ),
        db,
    )
    .unwrap();
    let graph = build_full_plan(&config).unwrap();
    let output = node_of(&graph, PlanNodeWeight::Output(INGOT)).unwrap();
    let ingots = node_of(&graph, PlanNodeWeight::ByProduct(INGOT)).unwrap();
    let given = node_of(&graph, PlanNodeWeight::Input(INGOT)).unwrap();
    assert_eq!(graph.node_count(), 3);
    assert_eq!(graph.edge_count(), 2);
    assert_eq!(graph[graph.find_edge(given, ingots).unwrap()], INGOT);
    assert_eq!(graph[graph.find_edge(ingots, output).unwrap()], INGOT);
    assert!(plan_program(&config, build_full_plan(&config)).is_ok());
}

#[test]
fn full_plan_for_a_resource_output_depends_on_its_amount() {
    let db = game_db();
    let mut config = PlanConfig {
        inputs: vec![(ORE, positive(100.0))],
        outputs: vec![(ORE, OutputAmount::Maximize)],
        game_db: db,
        enabled_recipes: vec![],
    };
    let graph = build_full_plan(&config).unwrap();
    let output = node_of(&graph, PlanNodeWeight::Output(ORE)).unwrap();
    let ore = node_of(&graph, PlanNodeWeight::Input(ORE)).unwrap();
    assert_eq!(graph.node_count(), 2);
    assert_eq!(graph[graph.find_edge(ore, output).unwrap()], ORE);

    config.inputs = vec![(ORE, Amount::new(0.0, Sign::Zero))];
    assert_eq!(build_full_plan(&config).unwrap_err(), PlanError::UnsolvablePlan);
    assert!(matches!(plan_program(&config, build_full_plan(&config)), Err(PlanError::UnsolvablePlan)));

    config.inputs = vec![];
    assert_eq!(build_full_plan(&config).unwrap_err(), PlanError::UnsolvablePlan);
}

#[test]
fn full_plan_removes_a_barren_by_product() {
    let db = game_db();
    let config = PlanConfig::parse(
        request(
            vec![],
            vec![("Iron Rod", OutputAmount::Maximize)],
            vec!["Recipe_IngotIron_C", "Recipe_IronRod_C"],
        ),
        db,
    )
    .unwrap();
    let graph = build_full_plan(&config).unwrap();
    // nothing feeds the by-product node of the gift, which only the tree makes
    assert!(node_of(&graph, PlanNodeWeight::ByProduct(GIFT)).is_none());
    assert!(node_of(&graph, PlanNodeWeight::Production(3)).is_some());
    assert!(node_of(&graph, PlanNodeWeight::ByProduct(INGOT)).is_some());
}

#[test]
fn parse_selects_recipes_by_kind() {
    let enabled = |recipes: Vec<&str>| {
        PlanConfig::parse(
            request(vec![], vec![("Iron Plate", OutputAmount::Maximize)], recipes),
            game_db(),
        )
        .unwrap()
        .enabled_recipes
    };
    assert_eq!(enabled(vec!["base"]), vec![0, 2, 3]);
    assert_eq!(enabled(vec!["alt"]), vec![1]);
    assert_eq!(enabled(vec!["alt", "Iron Plate"]), vec![1, 2]);
    assert_eq!(
        enabled(vec!["base", "alt", "Pure Iron Ingot", "exclude: Iron Ingot"]),
        vec![1, 2, 3]
    );
    assert_eq!(enabled(vec!["exclude:Recipe_IronPlate_C", "base"]), vec![0, 3]);
    assert_eq!(enabled(vec!["exclude: Iron Rod"]), Vec::<usize>::new());
}

#[test]
fn parse_rejects_an_unknown_exclusion() {
    let e = PlanConfig::parse(
        request(
            vec![],
            vec![("Iron Plate", OutputAmount::Maximize)],
            vec!["base", "exclude: Steel Beam"],
        ),
        game_db(),
    )
    .unwrap_err();
    assert_eq!(e, PlanError::UnknownRecipe("exclude: Steel Beam".to_string()));
}

#[test]
fn program_hands_back_a_failed_build() {
    let config = PlanConfig::parse(
        request(vec![], vec![("Iron Plate", OutputAmount::Maximize)], vec!["base"]),
        game_db(),
    )
    .unwrap();
    let e = PlanError::UnknownRecipe("Steel Beam".to_string());
    assert!(matches!(plan_program(&config, Err(e.clone())), Err(f) if f == e));
    assert!(matches!(
        plan_program(&config, Err(PlanError::UnsolvablePlan)),
        Err(PlanError::UnsolvablePlan)
    ));
}

#[test]
fn complete_request_keeps_every_production() {
    let config = PlanConfig::parse(
        request(
            vec![],
            vec![("Iron Plate", OutputAmount::PerMinute(positive(60.0)))],
            vec!["Recipe_IngotIron_C", "Recipe_Alternate_PureIronIngot_C", "Recipe_IronPlate_C"],
        ),
        game_db(),
    )
    .unwrap();
    let graph = build_full_plan(&config).unwrap();
    for recipe in [0, 1, 2] {
        assert!(node_of(&graph, PlanNodeWeight::Production(recipe)).is_some());
    }
    let water = node_of(&graph, PlanNodeWeight::Input(WATER)).unwrap();
    let pure = node_of(&graph, PlanNodeWeight::Production(1)).unwrap();
    assert_eq!(graph[graph.find_edge(water, pure).unwrap()], WATER);
}
