use satisfactory_planner::game::{Item, ItemState};
use satisfactory_planner::plan::{count_unique_resources, resource_combinations, ItemBitSet};

fn resource(key: &str, name: &str, bit: u16) -> Item {
    Item {
        key: key.to_string(),
        name: name.to_string(),
        resource: true,
        state: ItemState::Solid,
        energy_mj: 0,
        sink_points: 0,
        bit_mask: Some(1 << bit),
    }
}

fn create_bit_set(items: &[&Item]) -> ItemBitSet {
    items
        .iter()
        .fold(ItemBitSet { bits: 0 }, |acc, item| acc.union(&ItemBitSet::new(item)))
}

#[test]
fn resource_combinations_both_empty() {}

#[test]
fn resource_combinations_left_empty() {}

#[test]
fn resource_combinations_right_empty() {}

#[test]
fn resource_combinations_with_an_empty_side() {
    let iron_ore = resource("Desc_OreIron_C", "Iron Ore", 0);
    let sets = vec![create_bit_set(&[&iron_ore])];
    assert_eq!(resource_combinations(&[], &[]), vec![]);
    assert_eq!(resource_combinations(&sets, &[]), vec![]);
    assert_eq!(resource_combinations(&[], &sets), vec![]);
}

#[test]
fn resource_combinations_simple() {
    let iron_ore = resource("Desc_OreIron_C", "Iron Ore", 0);
    let coal = resource("Desc_Coal_C", "Coal", 1);

    assert_eq!(
        resource_combinations(
            &vec![create_bit_set(&[&iron_ore])],
            &vec![create_bit_set(&[&coal])]
        ),
        vec![create_bit_set(&[&iron_ore, &coal])]
    );
}

#[test]
fn resource_combinations_complex() {
    let iron_ore = resource("Desc_OreIron_C", "Iron Ore", 0);
    let copper_ore = resource("Desc_OreCopper_C", "Copper Ore", 1);
    let coal = resource("Desc_Coal_C", "Coal", 2);
    let water = resource("Desc_Water_C", "Water", 3);

    assert_eq!(
        resource_combinations(
            &vec![
                create_bit_set(&[&iron_ore]),
                create_bit_set(&[&iron_ore, &coal])
            ],
            &vec![
                create_bit_set(&[&copper_ore]),
                create_bit_set(&[&copper_ore, &water])
            ]
        ),
        vec![
            create_bit_set(&[&iron_ore, &copper_ore]),
            create_bit_set(&[&iron_ore, &copper_ore, &water]),
            create_bit_set(&[&iron_ore, &coal, &copper_ore]),
            create_bit_set(&[&iron_ore, &coal, &copper_ore, &water]),
        ]
    );
}

#[test]
fn resource_combinations_dedupes() {
    let iron_ore = resource("Desc_OreIron_C", "Iron Ore", 0);
    let copper_ore = resource("Desc_OreCopper_C", "Copper Ore", 1);
    let water = resource("Desc_Water_C", "Water", 2);

    assert_eq!(
        resource_combinations(
            &vec![
                create_bit_set(&[&iron_ore]),
                create_bit_set(&[&iron_ore, &water]),
            ],
            &vec![
                create_bit_set(&[&copper_ore]),
                create_bit_set(&[&copper_ore, &water]),
            ]
        ),
        vec![
            create_bit_set(&[&iron_ore, &copper_ore]),
            create_bit_set(&[&iron_ore, &copper_ore, &water]),
        ],
    );
}

#[test]
fn bit_set_union_and_subset() {
    let a = ItemBitSet { bits: 0b0011 };
    let b = ItemBitSet { bits: 0b0110 };
    assert_eq!(a.union(&b), ItemBitSet { bits: 0b0111 });
    assert_eq!(a.union(&b), b.union(&a));
    assert!(a.is_subset_of(&a.union(&b)));
    assert!(!a.is_subset_of(&b));
    assert!(a.is_subset_of(&a));
}

#[test]
fn bit_set_of_one_item() {
    let coal = resource("Desc_Coal_C", "Coal", 4);
    assert_eq!(ItemBitSet::new(&coal), ItemBitSet { bits: 16 });
}

#[test]
fn count_unique_resources_skips_comparable_sets() {
    assert_eq!(count_unique_resources(&[]), 0);
    let sets = [
        ItemBitSet { bits: 0b001 },
        ItemBitSet { bits: 0b011 },
        ItemBitSet { bits: 0b100 },
        ItemBitSet { bits: 0b110 },
        ItemBitSet { bits: 0b010 },
    ];
    // 0b011 contains the kept 0b001 and 0b110 contains the kept 0b100;
    // 0b010 is compared with the kept sets only, and is kept.
    assert_eq!(count_unique_resources(&sets), 3);
}
