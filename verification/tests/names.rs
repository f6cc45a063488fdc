use satisfactory_planner::game::{Fluid, Item, ItemState, Resource, ResourceValuePair};

const FLUIDS: [Fluid; 10] = [
    Fluid::Water,
    Fluid::CrudeOil,
    Fluid::NitrogenGas,
    Fluid::LiquidBiofuel,
    Fluid::HeavyOilResidue,
    Fluid::Fuel,
    Fluid::Turbofuel,
    Fluid::AluminaSolution,
    Fluid::SulfuricAcid,
    Fluid::NitricAcid,
];

#[test]
fn fluid_names_read_back() {
    for fluid in FLUIDS {
        assert_eq!(Fluid::from_str(fluid.display_name()), Some(fluid));
    }
}

#[test]
fn fluid_display_names() {
    assert_eq!(Fluid::HeavyOilResidue.display_name(), "Heavy Oil Residue");
    assert_eq!(Fluid::NitrogenGas.display_name(), "Nitrogen Gas");
    assert_eq!(Fluid::from_str("water"), None);
    assert_eq!(Fluid::from_str("Sulfuric Acid"), Some(Fluid::SulfuricAcid));
}

#[test]
fn raw_fluids() {
    let raw: Vec<Fluid> = FLUIDS.iter().copied().filter(|f| f.is_raw()).collect();
    assert_eq!(raw, vec![Fluid::Water, Fluid::CrudeOil, Fluid::NitrogenGas]);
}

#[test]
fn item_states() {
    let cases = [
        (ItemState::Solid, false, true, false, false),
        (ItemState::Liquid, true, false, true, false),
        (ItemState::Gas, true, false, false, true),
    ];
    for (state, fluid, solid, liquid, gas) in cases {
        assert_eq!(state.is_fluid(), fluid);
        assert_eq!(state.is_solid(), solid);
        assert_eq!(state.is_liquid(), liquid);
        assert_eq!(state.is_gas(), gas);
    }
}

fn items() -> Vec<Item> {
    vec![
        Item {
            key: "Desc_OreIron_C".to_string(),
            name: "Iron Ore".to_string(),
            resource: true,
            state: ItemState::Solid,
            energy_mj: 0,
            sink_points: 1,
            bit_mask: Some(1),
        },
        Item {
            key: "Desc_IronPlate_C".to_string(),
            name: "Iron Plate".to_string(),
            resource: false,
            state: ItemState::Solid,
            energy_mj: 0,
            sink_points: 6,
            bit_mask: None,
        },
    ]
}

#[test]
fn resources_of_items_and_fluids() {
    let items = items();
    let plate = Resource::Item(1);
    let water = Resource::Fluid(Fluid::Water);
    let fuel = Resource::Fluid(Fluid::Fuel);
    assert_eq!(plate.display_name(&items), "Iron Plate");
    assert_eq!(water.display_name(&items), "Water");
    assert!(Resource::Item(0).is_raw(&items));
    assert!(!plate.is_raw(&items));
    assert!(water.is_raw(&items));
    assert!(!fuel.is_raw(&items));
    assert_eq!(plate.sink_points(&items), Some(6));
    assert_eq!(water.sink_points(&items), None);
    assert_eq!(Resource::from_str("Iron Ore", &items), Some(Resource::Item(0)));
    assert_eq!(Resource::from_str("Turbofuel", &items), Some(Resource::Fluid(Fluid::Turbofuel)));
    assert_eq!(Resource::from_str("Steel Pipe", &items), None);
    assert_eq!(items[1].to_string(), "Iron Plate");
    assert!(items[0] == items[0].clone());
    assert!(items[0] != items[1]);
}

#[test]
fn resource_value_pairs() {
    let pair = ResourceValuePair::for_item(1, 2.5);
    assert_eq!(pair.to_tuple(), (Resource::Item(1), 2.5));
    let pair = ResourceValuePair::for_fluid(Fluid::CrudeOil, 7u32);
    assert_eq!(pair.to_tuple(), (Resource::Fluid(Fluid::CrudeOil), 7));
    let pair = ResourceValuePair::new(Resource::Fluid(Fluid::Water), 1u8);
    assert_eq!(pair.resource, Resource::Fluid(Fluid::Water));
    assert_eq!(pair.value, 1);
}

#[test]
fn resources_convert_from_items_and_fluids() {
    assert_eq!(Resource::from(3usize), Resource::Item(3));
    assert_eq!(Resource::from(Fluid::CrudeOil), Resource::Fluid(Fluid::CrudeOil));
    let pair = ResourceValuePair::from((Resource::Fluid(Fluid::Water), 7u32));
    assert_eq!(pair.resource, Resource::Fluid(Fluid::Water));
    assert_eq!(pair.value, 7);
    let pair: ResourceValuePair<u32> = (Resource::Item(2), 9u32).into();
    assert_eq!(pair.to_tuple(), (Resource::Item(2), 9));
}
