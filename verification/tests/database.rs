use satisfactory_planner::game::building::{
    BuildingDefinition, FuelDefinition, ItemAmountDefinition, ItemProducerDefinition, Manufacturer,
    PowerGeneratorDefinition, ResourceExtractorDefinition,
};
use satisfactory_planner::game::{
    Amount, Building, GameDatabase, GameDatabaseDefinition, GameDatabaseError, Item,
    ItemKeyAmountPair, ItemState, PowerConsumption, RecipeDefinition, RecipePower, Sign,
};

fn item(key: &str, name: &str, resource: bool, state: ItemState, bit: Option<u16>) -> Item {
    Item {
        key: key.to_string(),
        name: name.to_string(),
        resource,
        state,
        energy_mj: 0,
        sink_points: 1,
        bit_mask: bit,
    }
}

fn items() -> Vec<Item> {
    vec![
        item("Desc_OreIron_C", "Iron Ore", true, ItemState::Solid, Some(1)),
        item("Desc_IronIngot_C", "Iron Ingot", false, ItemState::Solid, None),
        item("Desc_IronPlate_C", "Iron Plate", false, ItemState::Solid, None),
        item("Desc_Water_C", "Water", true, ItemState::Liquid, Some(2)),
        item("Desc_Gift_C", "FICSMAS Gift", false, ItemState::Solid, None),
        item("Desc_Coal_C", "Coal", true, ItemState::Solid, Some(4)),
    ]
}

fn manufacturer(key: &str, name: &str) -> BuildingDefinition<f64> {
    BuildingDefinition::Manufacturer(Manufacturer {
        key: key.to_string(),
        name: name.to_string(),
        power_consumption: PowerConsumption::Fixed { value_mw: 4, exponent: 1.6 },
        dimensions: None,
    })
}

fn amount(item: &str, amount: f64) -> ItemAmountDefinition<f64> {
    ItemAmountDefinition { item: item.to_string(), amount }
}

fn buildings() -> Vec<BuildingDefinition<f64>> {
    vec![
        manufacturer("Desc_SmelterMk1_C", "Smelter"),
        manufacturer("Desc_ConstructorMk1_C", "Constructor"),
        BuildingDefinition::ItemProducer(ItemProducerDefinition {
            key: "Desc_TreeGiftProducer_C".to_string(),
            name: "FICSMAS Gift Tree".to_string(),
            power_consumption: PowerConsumption::Fixed { value_mw: 0, exponent: 1.6 },
            craft_time_secs: 60.0,
            output: amount("Desc_Gift_C", 5.0),
            dimensions: None,
        }),
        BuildingDefinition::ResourceExtractor(ResourceExtractorDefinition {
            key: "Desc_MinerMk1_C".to_string(),
            name: "Miner Mk.1".to_string(),
            power_consumption: PowerConsumption::Fixed { value_mw: 5, exponent: 1.6 },
            extraction_rate: 60.0,
            allowed_resources: vec!["Desc_OreIron_C".to_string(), "Desc_Coal_C".to_string()],
            extractor_type: None,
            dimensions: None,
        }),
        BuildingDefinition::PowerGenerator(PowerGeneratorDefinition {
            key: "Desc_GeneratorCoal_C".to_string(),
            name: "Coal Generator".to_string(),
            power_production_mw: 75,
            fuels: vec![FuelDefinition {
                fuel: amount("Desc_Coal_C", 1.0),
                supplemental: Some(amount("Desc_Water_C", 45.0)),
                by_product: None,
                burn_time_secs: 4.0,
            }],
            dimensions: None,
        }),
    ]
}

fn pair(item: &str, amount: f64) -> ItemKeyAmountPair<f64> {
    ItemKeyAmountPair::new(item.to_string(), amount)
}

fn recipe(
    key: &str,
    name: &str,
    building: &str,
    inputs: Vec<ItemKeyAmountPair<f64>>,
    outputs: Vec<ItemKeyAmountPair<f64>>,
) -> RecipeDefinition<f64> {
    RecipeDefinition {
        key: key.to_string(),
        name: name.to_string(),
        alternate: false,
        outputs,
        inputs,
        craft_time_secs: 2.0,
        events: vec![],
        building: building.to_string(),
        power: RecipePower { min_mw: 0.0, max_mw: 0.0 },
    }
}

fn recipes() -> Vec<RecipeDefinition<f64>> {
    vec![
        recipe(
            "Recipe_IngotIron_C",
            "Iron Ingot",
            "Desc_SmelterMk1_C",
            vec![pair("Desc_OreIron_C", 30.0)],
            vec![pair("Desc_IronIngot_C", 30.0)],
        ),
        recipe(
            "Recipe_IronPlate_C",
            "Iron Plate",
            "Desc_ConstructorMk1_C",
            vec![pair("Desc_IronIngot_C", 30.0)],
            vec![pair("Desc_IronPlate_C", 20.0)],
        ),
    ]
}

fn limit(key: &str, value: f64) -> (String, Amount<f64>) {
    (key.to_string(), Amount::new(value, Sign::Positive))
}

fn definition() -> GameDatabaseDefinition<f64> {
    GameDatabaseDefinition {
        by_product_blacklist: vec!["Desc_Water_C".to_string()],
        items: items(),
        buildings: buildings(),
        recipes: recipes(),
        resource_limits: vec![limit("Desc_OreIron_C", 70380.0), limit("Desc_Coal_C", 42300.0)],
    }
}

#[test]
fn convert_resolves_every_key() {
    let db = GameDatabase::convert(definition()).unwrap();
    assert_eq!(db.items.len(), 6);
    assert_eq!(db.by_product_blacklist, vec![3]);
    assert_eq!(db.buildings.len(), 5);
    assert_eq!(db.recipes.len(), 2);

    let ingot = &db.recipes[0];
    assert_eq!(ingot.key, "Recipe_IngotIron_C");
    assert_eq!(ingot.building, 0);
    assert_eq!(ingot.inputs[0].item, 0);
    assert_eq!(ingot.outputs[0].item, 1);
    assert_eq!(ingot.inputs[0].amount, 30.0);

    let plate = &db.recipes[1];
    assert_eq!(plate.building, 1);
    assert_eq!(plate.inputs[0].item, 1);
    assert_eq!(plate.outputs[0].item, 2);

    match &db.buildings[2] {
        Building::ItemProducer(ip) => {
            assert_eq!(ip.output.item, 4);
            assert_eq!(ip.output.amount, 5.0);
        }
        other => panic!("unexpected building {:?}", other),
    }
    match &db.buildings[3] {
        Building::ResourceExtractor(re) => assert_eq!(re.allowed_resources, vec![0, 5]),
        other => panic!("unexpected building {:?}", other),
    }
    match &db.buildings[4] {
        Building::PowerGenerator(pg) => {
            assert_eq!(pg.fuels.len(), 1);
            assert_eq!(pg.fuels[0].fuel.item, 5);
            assert_eq!(pg.fuels[0].supplemental.unwrap().item, 3);
            assert!(pg.fuels[0].by_product.is_none());
        }
        other => panic!("unexpected building {:?}", other),
    }

    assert_eq!(db.resource_limits.len(), 2);
    assert_eq!(db.get_resource_limit(0).unwrap().value, 70380.0);
    assert_eq!(db.get_resource_limit(5).unwrap().value, 42300.0);
    assert!(db.get_resource_limit(3).is_none());
}

#[test]
fn convert_keeps_the_last_limit_of_an_item() {
    let mut def = definition();
    def.resource_limits = vec![limit("Desc_OreIron_C", 1.0), limit("Desc_OreIron_C", 2.0)];
    let db = GameDatabase::convert(def).unwrap();
    assert_eq!(db.resource_limits.len(), 1);
    assert_eq!(db.get_resource_limit(0).unwrap().value, 2.0);
}

#[test]
fn convert_rejects_an_unknown_blacklisted_item() {
    let mut def = definition();
    def.by_product_blacklist.push("Desc_Nothing_C".to_string());
    let e = GameDatabase::convert(def).unwrap_err();
    assert_eq!(e, GameDatabaseError::UnknownItemKey("Desc_Nothing_C".to_string()));
    assert_eq!(e.to_string(), "Item `Desc_Nothing_C`: No such item exists.");
}

#[test]
fn convert_rejects_a_limit_on_a_non_resource() {
    let mut def = definition();
    def.resource_limits.push(limit("Desc_IronPlate_C", 5.0));
    let e = GameDatabase::convert(def).unwrap_err();
    assert_eq!(e, GameDatabaseError::ItemNotAResource("Desc_IronPlate_C".to_string()));
    assert_eq!(
        e.to_string(),
        "Item `Desc_IronPlate_C` is not a resource and can't appear in resource_limits."
    );
}

#[test]
fn convert_rejects_a_building_with_an_unknown_item() {
    let mut def = definition();
    def.buildings.push(BuildingDefinition::PowerGenerator(PowerGeneratorDefinition {
        key: "Desc_GeneratorFuel_C".to_string(),
        name: "Fuel Generator".to_string(),
        power_production_mw: 150,
        fuels: vec![FuelDefinition {
            fuel: amount("Desc_Coal_C", 1.0),
            supplemental: None,
            by_product: Some(amount("Desc_Ash_C", 1.0)),
            burn_time_secs: 5.0,
        }],
        dimensions: None,
    }));
    let e = GameDatabase::convert(def).unwrap_err();
    assert_eq!(e, GameDatabaseError::UnknownItemKey("Desc_Ash_C".to_string()));
}

#[test]
fn convert_rejects_a_recipe_of_an_unknown_building() {
    let mut def = definition();
    def.recipes.push(recipe(
        "Recipe_Wire_C",
        "Wire",
        "Desc_Nowhere_C",
        vec![pair("Desc_IronIngot_C", 1.0)],
        vec![pair("Desc_IronPlate_C", 1.0)],
    ));
    let e = GameDatabase::convert(def).unwrap_err();
    assert_eq!(e, GameDatabaseError::UnknownBuildingKey("Desc_Nowhere_C".to_string()));
    assert_eq!(e.to_string(), "Building `Desc_Nowhere_C`: No such building exists.");
}

#[test]
fn convert_rejects_a_recipe_outside_a_manufacturer() {
    let mut def = definition();
    def.recipes.push(recipe(
        "Recipe_Gift_C",
        "Gift",
        "Desc_TreeGiftProducer_C",
        vec![pair("Desc_IronIngot_C", 1.0)],
        vec![pair("Desc_Gift_C", 1.0)],
    ));
    let e = GameDatabase::convert(def).unwrap_err();
    assert_eq!(
        e,
        GameDatabaseError::NotAManufacturer("Gift".to_string(), "Desc_TreeGiftProducer_C".to_string())
    );
    assert_eq!(
        e.to_string(),
        "Recipe `Gift: Building `Desc_TreeGiftProducer_C` is not a manufacturer."
    );
}

#[test]
fn convert_rejects_a_recipe_without_inputs() {
    let mut def = definition();
    def.recipes.push(recipe(
        "Recipe_Free_C",
        "Free",
        "Desc_SmelterMk1_C",
        vec![],
        vec![pair("Desc_IronIngot_C", 1.0)],
    ));
    let e = GameDatabase::convert(def).unwrap_err();
    assert_eq!(e, GameDatabaseError::MissingRecipeInputs("Recipe_Free_C".to_string()));
    assert_eq!(
        e.to_string(),
        "Recipe `Recipe_Free_C`: At least one input is required but none were provided"
    );
}

#[test]
fn convert_rejects_a_recipe_without_outputs() {
    let mut def = definition();
    def.recipes.push(recipe(
        "Recipe_Void_C",
        "Void",
        "Desc_SmelterMk1_C",
        vec![pair("Desc_IronIngot_C", 1.0)],
        vec![],
    ));
    let e = GameDatabase::convert(def).unwrap_err();
    assert_eq!(e, GameDatabaseError::MissingRecipeOutputs("Recipe_Void_C".to_string()));
    assert_eq!(
        e.to_string(),
        "Recipe `Recipe_Void_C`: At least one output is required but none were provided"
    );
}

#[test]
fn convert_rejects_a_duplicate_recipe_key() {
    let mut def = definition();
    def.recipes.push(recipe(
        "Recipe_IngotIron_C",
        "Iron Ingot Again",
        "Desc_SmelterMk1_C",
        vec![pair("Desc_OreIron_C", 1.0)],
        vec![pair("Desc_IronIngot_C", 1.0)],
    ));
    let e = GameDatabase::convert(def).unwrap_err();
    assert_eq!(e, GameDatabaseError::DuplicateRecipeKey("Recipe_IngotIron_C".to_string()));
    assert_eq!(
        e.to_string(),
        "Recipe `Recipe_IngotIron_C`: Multiple recipes with the same key found."
    );
}

#[test]
fn convert_reports_the_blacklist_before_the_recipes() {
    let mut def = definition();
    def.by_product_blacklist.push("Desc_Nothing_C".to_string());
    def.recipes.push(recipe("Recipe_Void_C", "Void", "Desc_SmelterMk1_C", vec![], vec![]));
    let e = GameDatabase::convert(def).unwrap_err();
    assert_eq!(e, GameDatabaseError::UnknownItemKey("Desc_Nothing_C".to_string()));
}

#[test]
fn convert_item_amount_resolves_the_item() {
    let items = items();
    let r = GameDatabase::convert_item_amount(amount("Desc_IronPlate_C", 3.0), &items).unwrap();
    assert_eq!(r.item, 2);
    assert_eq!(r.amount, 3.0);
    let e = GameDatabase::<f64>::convert_item_amount(amount("Desc_Foo_C", 3.0), &items).unwrap_err();
    assert_eq!(e, GameDatabaseError::UnknownItemKey("Desc_Foo_C".to_string()));
}

#[test]
fn find_by_name_or_key() {
    let db = GameDatabase::convert(definition()).unwrap();
    assert_eq!(db.find_item("iron plate"), Some(2));
    assert_eq!(db.find_item("Desc_IronPlate_C"), Some(2));
    assert_eq!(db.find_item("desc_ironplate_c"), None);
    assert_eq!(db.find_item("Steel Beam"), None);
    assert_eq!(db.find_recipe("IRON INGOT"), Some(0));
    assert_eq!(db.find_recipe("Recipe_IronPlate_C"), Some(1));
    assert_eq!(db.find_recipe("Wire"), None);
    assert_eq!(db.find_building("smelter"), Some(0));
    assert_eq!(db.find_building("Desc_MinerMk1_C"), Some(3));
    assert_eq!(db.find_building("Refinery"), None);
}

#[test]
fn find_item_producers_lists_item_producers_of_the_item() {
    let db = GameDatabase::convert(definition()).unwrap();
    assert_eq!(db.find_item_producers(4), vec![2]);
    assert_eq!(db.find_item_producers(1), Vec::<usize>::new());
}

#[test]
fn database_getters() {
    let db = GameDatabase::convert(definition()).unwrap();
    assert_eq!(db.item(3).name, "Water");
    assert_eq!(db.building(1).name(), "Constructor");
    assert_eq!(db.building(1).key(), "Desc_ConstructorMk1_C");
    assert!(db.building(1).is_manufacturer());
    assert!(db.building(2).is_item_producer());
    // `is_resource_extractor` tests for the manufacturer kind.
    assert!(!db.building(3).is_resource_extractor());
    assert!(db.building(0).is_resource_extractor());
    assert_eq!(db.recipe(1).name, "Iron Plate");
}

#[test]
fn building_views() {
    let db = GameDatabase::convert(definition()).unwrap();
    let smelter = db.building(0);
    assert_eq!(smelter.to_string(), "Smelter");
    assert_eq!(smelter.as_manufacturer().key, "Desc_SmelterMk1_C");
    assert!(smelter.dimensions().is_none());
    assert_eq!(
        smelter.as_manufacturer().power_consumption.to_string(),
        "4 MW"
    );
    let variable: PowerConsumption<f64> =
        PowerConsumption::Variable { min_mw: 250, max_mw: 1500, exponent: 1.6 };
    assert_eq!(variable.to_string(), "250 - 1500 MW)");
    assert_eq!(PowerConsumption::<f64>::Fixed { value_mw: 0, exponent: 1.0 }.to_string(), "0 MW");
    assert_eq!(db.building(2).as_item_producer().output.item, 4);
    assert_eq!(db.building(3).as_resource_extractor().allowed_resources, vec![0, 5]);
    assert_eq!(db.building(4).as_power_generator().power_production_mw, 75);
    assert!(!db.building(4).is_resource_well());
    // `is_power_generator` tests for the manufacturer kind.
    assert!(!db.building(4).is_power_generator());
    assert!(db.building(0) == db.building(0));
    assert!(db.building(0) != db.building(1));
}
