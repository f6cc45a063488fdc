//! Turning a database definition, where items and buildings are named by
//! key, into a database, where they are referred to by position.
use vstd::prelude::*;

use super::building::{
    Building, BuildingDefinition, Fuel, FuelDefinition, ItemAmountDefinition, ItemProducer,
    PowerGenerator, ResourceExtractor, ResourceWell,
};
use super::database::{
    find_building_by_key, find_item_by_key, first_building_with_key, first_item_with_key,
    has_item_key, item_id_of, DatabaseErrorView, GameDatabase, GameDatabaseError,
};
use super::item::Item;
use super::item_value_pairs::{Amount, ItemKeyAmountPair, ItemPerMinute};
use super::recipe::{Recipe, RecipeDefinition};
use super::ItemId;
use crate::text::str_equals;
use crate::checks::{
    first_some, lemma_first_some_at, lemma_first_some_concat, lemma_first_some_none,
    lemma_first_some_none_all,
};
use crate::plan::config::{
    database_refs_valid, insert_all, insert_pair, keys_distinct, lemma_insert_all_push, pairs_map,
};

verus! {

/// A database as the database file describes it: items, buildings and
/// recipes refer to each other by key.
#[derive(Debug, Clone)]
pub struct GameDatabaseDefinition<A> {
    pub by_product_blacklist: Vec<String>,
    pub items: Vec<Item>,
    pub buildings: Vec<BuildingDefinition<A>>,
    pub recipes: Vec<RecipeDefinition<A>>,
    pub resource_limits: Vec<(String, Amount<A>)>,
}

/// The check that `key` names an item.
pub open spec fn key_check(items: Seq<Item>, key: Seq<char>) -> Option<DatabaseErrorView> {
    if has_item_key(items, key) {
        None
    } else {
        Some(DatabaseErrorView::UnknownItemKey(key))
    }
}

/// The check of an optional item amount.
pub open spec fn optional_check<A>(items: Seq<Item>, d: Option<ItemAmountDefinition<A>>) -> Option<DatabaseErrorView> {
    match d {
        Some(a) => key_check(items, a.item@),
        None => None,
    }
}

/// The item amount with its item resolved.
pub open spec fn amount_converted<A>(items: Seq<Item>, d: ItemAmountDefinition<A>) -> ItemPerMinute<A> {
    ItemPerMinute { item: item_id_of(items, d.item@) as ItemId, amount: d.amount }
}

/// The item amount pair with its item resolved.
pub open spec fn pair_converted<A>(items: Seq<Item>, d: ItemKeyAmountPair<A>) -> ItemPerMinute<A> {
    ItemPerMinute { item: item_id_of(items, d.item@) as ItemId, amount: d.amount }
}

pub open spec fn optional_converted<A>(items: Seq<Item>, d: Option<ItemAmountDefinition<A>>) -> Option<ItemPerMinute<A>> {
    match d {
        Some(a) => Some(amount_converted(items, a)),
        None => None,
    }
}

/// The checks of a fuel, in order: the fuel, the supplemental item, the
/// by-product.
pub open spec fn fuel_error<A>(items: Seq<Item>, f: FuelDefinition<A>) -> Option<DatabaseErrorView> {
    first_some(seq![
        key_check(items, f.fuel.item@),
        optional_check(items, f.supplemental),
        optional_check(items, f.by_product),
    ])
}

pub open spec fn fuel_converted<A>(items: Seq<Item>, f: FuelDefinition<A>) -> Fuel<A> {
    Fuel {
        fuel: amount_converted(items, f.fuel),
        supplemental: optional_converted(items, f.supplemental),
        by_product: optional_converted(items, f.by_product),
        burn_time_secs: f.burn_time_secs,
    }
}

pub open spec fn keys_error(items: Seq<Item>, keys: Seq<String>) -> Option<DatabaseErrorView> {
    first_some(keys.map_values(|k: String| key_check(items, k@)))
}

pub open spec fn keys_converted(items: Seq<Item>, keys: Seq<String>) -> Seq<ItemId> {
    keys.map_values(|k: String| item_id_of(items, k@) as ItemId)
}

/// When some item holds `key`, one of them is the first.
proof fn lemma_first_key_exists(items: Seq<Item>, key: Seq<char>, i: int)
    requires
        0 <= i < items.len(),
        items[i].key@ == key,
    ensures
        exists|j: int| first_item_with_key(items, key, j),
    decreases i,
{
    if exists|j: int| 0 <= j < i && items[j].key@ == key {
        let j = choose|j: int| 0 <= j < i && items[j].key@ == key;
        lemma_first_key_exists(items, key, j);
    } else {
        assert(first_item_with_key(items, key, i));
    }
}

/// Keys that all pass their check convert to the first item that holds
/// each of them, in order.
proof fn lemma_keys_resolved(items: Seq<Item>, keys: Seq<String>)
    requires
        keys_error(items, keys) is None,
        items.len() <= usize::MAX,
    ensures
        keys_converted(items, keys).len() == keys.len(),
        forall|k: int|
            0 <= k < keys.len() ==> first_item_with_key(
                items,
                keys[k]@,
                #[trigger] keys_converted(items, keys)[k] as int,
            ),
{
    let checks = keys.map_values(|k: String| key_check(items, k@));
    lemma_first_some_none_all(checks);
    assert forall|k: int| 0 <= k < keys.len() implies first_item_with_key(
        items,
        keys[k]@,
        #[trigger] keys_converted(items, keys)[k] as int,
    ) by {
        assert(checks[k] is None);
        assert(has_item_key(items, keys[k]@));
        let i = choose|i: int| 0 <= i < items.len() && items[i].key@ == keys[k]@;
        lemma_first_key_exists(items, keys[k]@, i);
        let j = choose|j: int| first_item_with_key(items, keys[k]@, j);
        lemma_item_id_of(items, keys[k]@, j);
        assert(keys_converted(items, keys)[k] == item_id_of(items, keys[k]@) as ItemId);
    }
}

/// A converted resource extractor or resource well lists, in order, the
/// position of the item of each allowed resource key of its definition:
/// one entry per key, the first item that holds that key.
pub proof fn lemma_allowed_resources_converted<A>(items: Seq<Item>, b: Building<A>, d: BuildingDefinition<A>)
    requires
        building_converted(items, b, d),
        building_error(items, d) is None,
        items.len() <= usize::MAX,
    ensures
        d matches BuildingDefinition::ResourceWell(rw) ==> (b matches Building::ResourceWell(x)
            && x.allowed_resources@.len() == rw.allowed_resources@.len() && forall|k: int|
            0 <= k < rw.allowed_resources@.len() ==> first_item_with_key(
                items,
                rw.allowed_resources@[k]@,
                #[trigger] x.allowed_resources@[k] as int,
            )),
        d matches BuildingDefinition::ResourceExtractor(re) ==> (b matches Building::ResourceExtractor(x)
            && x.allowed_resources@.len() == re.allowed_resources@.len() && forall|k: int|
            0 <= k < re.allowed_resources@.len() ==> first_item_with_key(
                items,
                re.allowed_resources@[k]@,
                #[trigger] x.allowed_resources@[k] as int,
            )),
{
    match d {
        BuildingDefinition::ResourceWell(rw) => {
            lemma_keys_resolved(items, rw.allowed_resources@);
        },
        BuildingDefinition::ResourceExtractor(re) => {
            lemma_keys_resolved(items, re.allowed_resources@);
        },
        _ => {},
    }
}

/// The error that converting a building reports, if any.
pub open spec fn building_error<A>(items: Seq<Item>, b: BuildingDefinition<A>) -> Option<DatabaseErrorView> {
    match b {
        BuildingDefinition::Manufacturer(_) => None,
        BuildingDefinition::PowerGenerator(pg) => first_some(
            pg.fuels@.map_values(|f: FuelDefinition<A>| fuel_error(items, f)),
        ),
        BuildingDefinition::ResourceExtractor(re) => keys_error(items, re.allowed_resources@),
        BuildingDefinition::ItemProducer(ip) => key_check(items, ip.output.item@),
        BuildingDefinition::ResourceWell(rw) => keys_error(items, rw.allowed_resources@),
    }
}

/// Whether `b` is the conversion of the definition `d`.
pub open spec fn building_converted<A>(items: Seq<Item>, b: Building<A>, d: BuildingDefinition<A>) -> bool {
    match d {
        BuildingDefinition::Manufacturer(m) => b == Building::Manufacturer(m),
        BuildingDefinition::PowerGenerator(pg) => b matches Building::PowerGenerator(g) && {
            &&& g.key == pg.key
            &&& g.name == pg.name
            &&& g.power_production_mw == pg.power_production_mw
            &&& g.fuels@ == pg.fuels@.map_values(|f: FuelDefinition<A>| fuel_converted(items, f))
            &&& g.dimensions == pg.dimensions
        },
        BuildingDefinition::ResourceExtractor(re) => b matches Building::ResourceExtractor(x) && {
            &&& x.key == re.key
            &&& x.name == re.name
            &&& x.power_consumption == re.power_consumption
            &&& x.extraction_rate == re.extraction_rate
            &&& x.allowed_resources@ == keys_converted(items, re.allowed_resources@)
            &&& x.extractor_type == re.extractor_type
            &&& x.dimensions == re.dimensions
        },
        BuildingDefinition::ItemProducer(ip) => b matches Building::ItemProducer(x) && {
            &&& x.key == ip.key
            &&& x.name == ip.name
            &&& x.power_consumption == ip.power_consumption
            &&& x.craft_time_secs == ip.craft_time_secs
            &&& x.output == amount_converted(items, ip.output)
            &&& x.dimensions == ip.dimensions
        },
        BuildingDefinition::ResourceWell(rw) => b matches Building::ResourceWell(x) && {
            &&& x.key == rw.key
            &&& x.name == rw.name
            &&& x.power_consumption == rw.power_consumption
            &&& x.allowed_resources@ == keys_converted(items, rw.allowed_resources@)
            &&& x.satellite_buildings == rw.satellite_buildings
            &&& x.extractor_type == rw.extractor_type
            &&& x.dimensions == rw.dimensions
        },
    }
}

/// The key of a building definition.
pub open spec fn definition_key<A>(d: BuildingDefinition<A>) -> Seq<char> {
    match d {
        BuildingDefinition::Manufacturer(m) => m.key@,
        BuildingDefinition::PowerGenerator(pg) => pg.key@,
        BuildingDefinition::ResourceExtractor(re) => re.key@,
        BuildingDefinition::ItemProducer(ip) => ip.key@,
        BuildingDefinition::ResourceWell(rw) => rw.key@,
    }
}

/// Whether some building definition has `key`.
pub open spec fn has_building_key<A>(defs: Seq<BuildingDefinition<A>>, key: Seq<char>) -> bool {
    exists|i: int| 0 <= i < defs.len() && definition_key(defs[i]) == key
}

/// The first position of a building definition with `key`.
pub open spec fn building_id_of<A>(defs: Seq<BuildingDefinition<A>>, key: Seq<char>) -> int {
    choose|i: int|
        0 <= i < defs.len() && definition_key(defs[i]) == key && forall|j: int|
            0 <= j < i ==> definition_key(defs[j]) != key
}

pub open spec fn pairs_error<A>(items: Seq<Item>, pairs: Seq<ItemKeyAmountPair<A>>) -> Option<DatabaseErrorView> {
    first_some(pairs.map_values(|p: ItemKeyAmountPair<A>| key_check(items, p.item@)))
}

pub open spec fn pairs_converted<A>(items: Seq<Item>, pairs: Seq<ItemKeyAmountPair<A>>) -> Seq<ItemPerMinute<A>> {
    pairs.map_values(|p: ItemKeyAmountPair<A>| pair_converted(items, p))
}

/// The error that converting a recipe reports, if any: its building must
/// exist and be a manufacturer, it must have inputs and outputs, and every
/// input, then every output, must name an item.
pub open spec fn recipe_error<A>(
    items: Seq<Item>,
    defs: Seq<BuildingDefinition<A>>,
    r: RecipeDefinition<A>,
) -> Option<DatabaseErrorView> {
    if !has_building_key(defs, r.building@) {
        Some(DatabaseErrorView::UnknownBuildingKey(r.building@))
    } else if !(defs[building_id_of(defs, r.building@)] is Manufacturer) {
        Some(DatabaseErrorView::NotAManufacturer(r.name@, r.building@))
    } else if r.inputs@.len() == 0 {
        Some(DatabaseErrorView::MissingRecipeInputs(r.key@))
    } else if r.outputs@.len() == 0 {
        Some(DatabaseErrorView::MissingRecipeOutputs(r.key@))
    } else {
        first_some(
            r.inputs@.map_values(|p: ItemKeyAmountPair<A>| key_check(items, p.item@))
                + r.outputs@.map_values(|p: ItemKeyAmountPair<A>| key_check(items, p.item@)),
        )
    }
}

/// Whether `r` is the conversion of the definition `d`.
pub open spec fn recipe_converted<A>(
    items: Seq<Item>,
    defs: Seq<BuildingDefinition<A>>,
    r: Recipe<A>,
    d: RecipeDefinition<A>,
) -> bool {
    &&& r.key == d.key
    &&& r.name == d.name
    &&& r.alternate == d.alternate
    &&& r.inputs@ == pairs_converted(items, d.inputs@)
    &&& r.outputs@ == pairs_converted(items, d.outputs@)
    &&& r.craft_time_secs == d.craft_time_secs
    &&& r.events == d.events
    &&& r.building == building_id_of(defs, d.building@) as usize
    &&& r.power == d.power
}

/// The check of one resource limit: its key must name an item that is a
/// resource.
pub open spec fn limit_check(items: Seq<Item>, key: Seq<char>) -> Option<DatabaseErrorView> {
    if !has_item_key(items, key) {
        Some(DatabaseErrorView::UnknownItemKey(key))
    } else if !items[item_id_of(items, key)].resource {
        Some(DatabaseErrorView::ItemNotAResource(items[item_id_of(items, key)].key@))
    } else {
        None
    }
}

/// The check of the recipe at position `i`: its key must not be the key of
/// an earlier recipe, then it must convert.
pub open spec fn recipe_check_at<A>(
    items: Seq<Item>,
    buildings: Seq<BuildingDefinition<A>>,
    recipes: Seq<RecipeDefinition<A>>,
    i: int,
) -> Option<DatabaseErrorView> {
    if exists|j: int| 0 <= j < i && recipes[j].key@ == recipes[i].key@ {
        Some(DatabaseErrorView::DuplicateRecipeKey(recipes[i].key@))
    } else {
        recipe_error(items, buildings, recipes[i])
    }
}

pub open spec fn recipe_check_seq<A>(
    items: Seq<Item>,
    buildings: Seq<BuildingDefinition<A>>,
    recipes: Seq<RecipeDefinition<A>>,
) -> Seq<Option<DatabaseErrorView>> {
    Seq::new(recipes.len(), |i: int| recipe_check_at(items, buildings, recipes, i))
}

pub open spec fn blacklist_checks<A>(def: GameDatabaseDefinition<A>) -> Seq<Option<DatabaseErrorView>> {
    def.by_product_blacklist@.map_values(|k: String| key_check(def.items@, k@))
}

pub open spec fn limit_checks<A>(def: GameDatabaseDefinition<A>) -> Seq<Option<DatabaseErrorView>> {
    def.resource_limits@.map_values(|e: (String, Amount<A>)| limit_check(def.items@, e.0@))
}

pub open spec fn building_checks<A>(def: GameDatabaseDefinition<A>) -> Seq<Option<DatabaseErrorView>> {
    def.buildings@.map_values(|b: BuildingDefinition<A>| building_error(def.items@, b))
}

pub open spec fn recipe_checks<A>(def: GameDatabaseDefinition<A>) -> Seq<Option<DatabaseErrorView>> {
    recipe_check_seq(def.items@, def.buildings@, def.recipes@)
}

/// The error that converting a definition reports, if any: the blacklist
/// is checked first, then the resource limits, then the buildings, then the
/// recipes, each in order.
pub open spec fn conversion_error<A>(def: GameDatabaseDefinition<A>) -> Option<DatabaseErrorView> {
    first_some(blacklist_checks(def) + limit_checks(def) + building_checks(def) + recipe_checks(def))
}

/// The first item with a key is the one `item_id_of` names.
pub proof fn lemma_item_id_of(items: Seq<Item>, key: Seq<char>, i: int)
    requires
        first_item_with_key(items, key, i),
    ensures
        item_id_of(items, key) == i,
        has_item_key(items, key),
{
    let c = item_id_of(items, key);
    assert(first_item_with_key(items, key, c));
    if c < i {
        assert(items[c].key@ != key);
    }
    if i < c {
        assert(items[i].key@ != key);
    }
}

/// Resolves the item of an item amount pair.
fn convert_pair<A>(pair: ItemKeyAmountPair<A>, items: &[Item]) -> (r: Result<ItemPerMinute<A>, GameDatabaseError>)
    ensures
        match r {
            Ok(p) => key_check(items@, pair.item@) is None && p == pair_converted(items@, pair)
                && p.item < items@.len(),
            Err(e) => key_check(items@, pair.item@) == Some(e@),
        },
{
    match find_item_by_key(pair.item.as_str(), items) {
        Ok(i) => {
            proof {
                lemma_item_id_of(items@, pair.item@, i as int);
            }
            Ok(ItemPerMinute::new(i, pair.amount))
        },
        Err(e) => Err(e),
    }
}

/// Resolves an optional item amount.
fn convert_optional<A>(item_amount: Option<ItemAmountDefinition<A>>, items: &[Item]) -> (r: Result<
    Option<ItemPerMinute<A>>,
    GameDatabaseError,
>)
    ensures
        match r {
            Ok(p) => optional_check(items@, item_amount) is None && p == optional_converted(
                items@,
                item_amount,
            ) && (p matches Some(x) ==> x.item < items@.len()),
            Err(e) => optional_check(items@, item_amount) == Some(e@),
        },
{
    match item_amount {
        Some(a) => match GameDatabase::<A>::convert_item_amount(a, items) {
            Ok(p) => Ok(Some(p)),
            Err(e) => Err(e),
        },
        None => Ok(None),
    }
}

/// Resolves a list of item keys, in order.
fn convert_keys(keys: &Vec<String>, items: &[Item]) -> (r: Result<Vec<ItemId>, GameDatabaseError>)
    ensures
        match r {
            Ok(v) => keys_error(items@, keys@) is None && v@ == keys_converted(items@, keys@)
                && forall|k: int| 0 <= k < v@.len() ==> v@[k] < items@.len(),
            Err(e) => keys_error(items@, keys@) == Some(e@),
        },
{
    let ghost checks = keys@.map_values(|k: String| key_check(items@, k@));
    let mut out: Vec<ItemId> = Vec::new();
    let mut i: usize = 0;
    while i < keys.len()
        invariant
            checks == keys@.map_values(|k: String| key_check(items@, k@)),
            i <= keys@.len(),
            forall|j: int| 0 <= j < i ==> checks[j] is None,
            out@ == keys_converted(items@, keys@).take(i as int),
            forall|k: int| 0 <= k < out@.len() ==> out@[k] < items@.len(),
        decreases keys.len() - i,
    {
        match find_item_by_key(keys[i].as_str(), items) {
            Ok(id) => {
                proof {
                    lemma_item_id_of(items@, keys@[i as int]@, id as int);
                }
                out.push(id);
                proof {
                    assert(out@ =~= keys_converted(items@, keys@).take(i + 1));
                }
            },
            Err(e) => {
                proof {
                    lemma_first_some_at(checks, i as int);
                }
                return Err(e);
            },
        }
        i = i + 1;
    }
    proof {
        lemma_first_some_none(checks);
        assert(out@ =~= keys_converted(items@, keys@));
    }
    Ok(out)
}


/// Converts the fuels of a power generator, in order.
fn convert_fuels<A>(fuels: Vec<FuelDefinition<A>>, items: &[Item]) -> (r: Result<Vec<Fuel<A>>, GameDatabaseError>)
    ensures
        match r {
            Ok(v) => first_some(fuels@.map_values(|f: FuelDefinition<A>| fuel_error(items@, f))) is None
                && v@ == fuels@.map_values(|f: FuelDefinition<A>| fuel_converted(items@, f)),
            Err(e) => first_some(fuels@.map_values(|f: FuelDefinition<A>| fuel_error(items@, f)))
                == Some(e@),
        },
{
    let ghost orig = fuels@;
    let ghost checks = orig.map_values(|f: FuelDefinition<A>| fuel_error(items@, f));
    let ghost converted = orig.map_values(|f: FuelDefinition<A>| fuel_converted(items@, f));
    let mut rest = fuels;
    let mut out: Vec<Fuel<A>> = Vec::new();
    let ghost mut i: int = 0;
    while rest.len() > 0
        invariant
            0 <= i <= orig.len(),
            orig == fuels@,
            checks == orig.map_values(|f: FuelDefinition<A>| fuel_error(items@, f)),
            converted == orig.map_values(|f: FuelDefinition<A>| fuel_converted(items@, f)),
            rest@ == orig.skip(i),
            out@ == converted.take(i),
            forall|j: int| 0 <= j < i ==> checks[j] is None,
        decreases rest.len(),
    {
        let f = rest.remove(0);
        proof {
            assert(f == orig[i]);
        }
        let ghost three = seq![
            key_check(items@, f.fuel.item@),
            optional_check(items@, f.supplemental),
            optional_check(items@, f.by_product),
        ];
        let FuelDefinition { fuel, supplemental, by_product, burn_time_secs } = f;
        let fuel = match GameDatabase::<A>::convert_item_amount(fuel, items) {
            Ok(p) => p,
            Err(e) => {
                proof {
                    lemma_first_some_at(three, 0);
                    lemma_first_some_at(checks, i);
                }
                return Err(e);
            },
        };
        let supplemental = match convert_optional(supplemental, items) {
            Ok(p) => p,
            Err(e) => {
                proof {
                    lemma_first_some_at(three, 1);
                    lemma_first_some_at(checks, i);
                }
                return Err(e);
            },
        };
        let by_product = match convert_optional(by_product, items) {
            Ok(p) => p,
            Err(e) => {
                proof {
                    lemma_first_some_at(three, 2);
                    lemma_first_some_at(checks, i);
                }
                return Err(e);
            },
        };
        proof {
            lemma_first_some_none(three);
        }
        out.push(Fuel { fuel, supplemental, by_product, burn_time_secs });
        proof {
            assert(out@ =~= converted.take(i + 1));
            assert(rest@ =~= orig.skip(i + 1));
            i = i + 1;
        }
    }
    proof {
        assert(i == orig.len());
        assert(out@ =~= converted);
        lemma_first_some_none(checks);
    }
    Ok(out)
}

/// Converts a building: every item key it mentions must name an item.
pub fn convert_building<A>(building: BuildingDefinition<A>, items: &[Item]) -> (r: Result<
    Building<A>,
    GameDatabaseError,
>)
    ensures
        match r {
            Ok(b) => {
                &&& building_error(items@, building) is None
                &&& building_converted(items@, b, building)
                &&& b.key_view() == definition_key(building)
                &&& (b is Manufacturer <==> building is Manufacturer)
                &&& (b matches Building::ItemProducer(ip) ==> ip.output.item < items@.len())
            },
            Err(e) => building_error(items@, building) == Some(e@),
        },
{
    match building {
        BuildingDefinition::Manufacturer(m) => Ok(Building::Manufacturer(m)),
        BuildingDefinition::PowerGenerator(pg) => {
            let ghost d = pg;
            let fuels = match convert_fuels(pg.fuels, items) {
                Ok(v) => v,
                Err(e) => return Err(e),
            };
            Ok(
                Building::PowerGenerator(
                    PowerGenerator {
                        key: pg.key,
                        name: pg.name,
                        power_production_mw: pg.power_production_mw,
                        fuels,
                        dimensions: pg.dimensions,
                    },
                ),
            )
        },
        BuildingDefinition::ResourceExtractor(re) => {
            let allowed_resources = match convert_keys(&re.allowed_resources, items) {
                Ok(v) => v,
                Err(e) => return Err(e),
            };
            Ok(
                Building::ResourceExtractor(
                    ResourceExtractor {
                        key: re.key,
                        name: re.name,
                        extraction_rate: re.extraction_rate,
                        allowed_resources,
                        extractor_type: re.extractor_type,
                        power_consumption: re.power_consumption,
                        dimensions: re.dimensions,
                    },
                ),
            )
        },
        BuildingDefinition::ItemProducer(ip) => {
            let output = match GameDatabase::<A>::convert_item_amount(ip.output, items) {
                Ok(p) => p,
                Err(e) => return Err(e),
            };
            Ok(
                Building::ItemProducer(
                    ItemProducer {
                        key: ip.key,
                        name: ip.name,
                        craft_time_secs: ip.craft_time_secs,
                        output,
                        power_consumption: ip.power_consumption,
                        dimensions: ip.dimensions,
                    },
                ),
            )
        },
        BuildingDefinition::ResourceWell(rw) => {
            let allowed_resources = match convert_keys(&rw.allowed_resources, items) {
                Ok(v) => v,
                Err(e) => return Err(e),
            };
            Ok(
                Building::ResourceWell(
                    ResourceWell {
                        key: rw.key,
                        name: rw.name,
                        allowed_resources,
                        satellite_buildings: rw.satellite_buildings,
                        extractor_type: rw.extractor_type,
                        power_consumption: rw.power_consumption,
                        dimensions: rw.dimensions,
                    },
                ),
            )
        },
    }
}

/// The first building definition with a key is the one `building_id_of`
/// names.
proof fn lemma_building_id_of<A>(defs: Seq<BuildingDefinition<A>>, key: Seq<char>, i: int)
    requires
        0 <= i < defs.len(),
        definition_key(defs[i]) == key,
        forall|j: int| 0 <= j < i ==> definition_key(defs[j]) != key,
    ensures
        building_id_of(defs, key) == i,
        has_building_key(defs, key),
{
    let c = building_id_of(defs, key);
    if c < i {
        assert(definition_key(defs[c]) != key);
    }
    if i < c {
        assert(definition_key(defs[i]) != key);
    }
}

/// Resolves the items of a list of item amount pairs, in order.
fn convert_pairs<A>(pairs: Vec<ItemKeyAmountPair<A>>, items: &[Item]) -> (r: Result<
    Vec<ItemPerMinute<A>>,
    GameDatabaseError,
>)
    ensures
        match r {
            Ok(v) => pairs_error(items@, pairs@) is None && v@ == pairs_converted(items@, pairs@)
                && forall|k: int| 0 <= k < v@.len() ==> v@[k].item < items@.len(),
            Err(e) => pairs_error(items@, pairs@) == Some(e@),
        },
{
    let ghost orig = pairs@;
    let ghost checks = orig.map_values(|p: ItemKeyAmountPair<A>| key_check(items@, p.item@));
    let ghost converted = pairs_converted(items@, orig);
    let mut rest = pairs;
    let mut out: Vec<ItemPerMinute<A>> = Vec::new();
    let ghost mut i: int = 0;
    while rest.len() > 0
        invariant
            0 <= i <= orig.len(),
            orig == pairs@,
            checks == orig.map_values(|p: ItemKeyAmountPair<A>| key_check(items@, p.item@)),
            converted == pairs_converted(items@, orig),
            rest@ == orig.skip(i),
            out@ == converted.take(i),
            forall|j: int| 0 <= j < i ==> checks[j] is None,
            forall|k: int| 0 <= k < out@.len() ==> out@[k].item < items@.len(),
        decreases rest.len(),
    {
        let p = rest.remove(0);
        proof {
            assert(p == orig[i]);
        }
        match convert_pair(p, items) {
            Ok(c) => {
                out.push(c);
                proof {
                    assert(out@ =~= converted.take(i + 1));
                    assert(rest@ =~= orig.skip(i + 1));
                    i = i + 1;
                }
            },
            Err(e) => {
                proof {
                    lemma_first_some_at(checks, i);
                }
                return Err(e);
            },
        }
    }
    proof {
        assert(out@ =~= converted);
        lemma_first_some_none(checks);
    }
    Ok(out)
}

/// Whether a converted recipe refers only to items and buildings that exist.
pub open spec fn recipe_refs_valid<A>(r: Recipe<A>, n_items: int, n_buildings: int) -> bool {
    &&& r.building < n_buildings
    &&& forall|k: int| 0 <= k < r.inputs@.len() ==> #[trigger] r.inputs@[k].item < n_items
    &&& forall|k: int| 0 <= k < r.outputs@.len() ==> #[trigger] r.outputs@[k].item < n_items
}

/// Converts a recipe: its building must exist among the converted
/// `buildings` and be a manufacturer, and its inputs and outputs must be
/// present and name items.
fn convert_recipe<A>(
    recipe: RecipeDefinition<A>,
    buildings: &[Building<A>],
    items: &[Item],
    Ghost(defs): Ghost<Seq<BuildingDefinition<A>>>,
) -> (r: Result<Recipe<A>, GameDatabaseError>)
    requires
        buildings@.len() == defs.len(),
        forall|b: int|
            #![trigger buildings@[b]]
            0 <= b < defs.len() ==> buildings@[b].key_view() == definition_key(defs[b]) && (
            buildings@[b] is Manufacturer <==> defs[b] is Manufacturer),
    ensures
        match r {
            Ok(x) => recipe_error(items@, defs, recipe) is None && recipe_converted(
                items@,
                defs,
                x,
                recipe,
            ) && recipe_refs_valid(x, items@.len() as int, buildings@.len() as int),
            Err(e) => recipe_error(items@, defs, recipe) == Some(e@),
        },
{
    let building = match find_building_by_key(recipe.building.as_str(), buildings) {
        Ok(b) => b,
        Err(e) => {
            proof {
                if has_building_key(defs, recipe.building@) {
                    let w = choose|w: int|
                        0 <= w < defs.len() && definition_key(defs[w]) == recipe.building@;
                    assert(buildings@[w].key_view() == recipe.building@);
                }
            }
            return Err(e);
        },
    };
    proof {
        assert forall|j: int| 0 <= j < building implies definition_key(defs[j])
            != recipe.building@ by {
            assert(buildings@[j].key_view() != recipe.building@);
        }
        assert(buildings@[building as int].key_view() == recipe.building@);
        lemma_building_id_of(defs, recipe.building@, building as int);
    }
    if !buildings[building].is_manufacturer() {
        return Err(GameDatabaseError::NotAManufacturer(recipe.name, recipe.building));
    }
    if recipe.inputs.len() == 0 {
        return Err(GameDatabaseError::MissingRecipeInputs(recipe.key));
    }
    if recipe.outputs.len() == 0 {
        return Err(GameDatabaseError::MissingRecipeOutputs(recipe.key));
    }
    let ghost input_checks = recipe.inputs@.map_values(
        |p: ItemKeyAmountPair<A>| key_check(items@, p.item@),
    );
    let ghost output_checks = recipe.outputs@.map_values(
        |p: ItemKeyAmountPair<A>| key_check(items@, p.item@),
    );
    proof {
        lemma_first_some_concat(input_checks, output_checks);
    }
    let RecipeDefinition {
        key,
        name,
        alternate,
        outputs,
        inputs,
        craft_time_secs,
        events,
        building: _,
        power,
    } = recipe;
    let inputs = match convert_pairs(inputs, items) {
        Ok(v) => v,
        Err(e) => return Err(e),
    };
    let outputs = match convert_pairs(outputs, items) {
        Ok(v) => v,
        Err(e) => return Err(e),
    };
    Ok(
        Recipe {
            key,
            name,
            alternate,
            outputs,
            inputs,
            craft_time_secs,
            events,
            building,
            power,
        },
    )
}

/// The resource limits with each item key resolved, in order.
pub open spec fn limits_resolved<A>(items: Seq<Item>, limits: Seq<(String, Amount<A>)>) -> Seq<
    (ItemId, Amount<A>),
> {
    limits.map_values(|e: (String, Amount<A>)| (item_id_of(items, e.0@) as ItemId, e.1))
}

/// Resolves the resource limits, in order; a later limit for the same item
/// replaces an earlier one.
fn convert_limits<A>(limits: Vec<(String, Amount<A>)>, items: &[Item]) -> (r: Result<
    Vec<(ItemId, Amount<A>)>,
    GameDatabaseError,
>)
    ensures
        match r {
            Ok(v) => {
                &&& first_some(limits@.map_values(|e: (String, Amount<A>)| limit_check(items@, e.0@)))
                    is None
                &&& keys_distinct(v@)
                &&& pairs_map(v@) == insert_all(Map::empty(), limits_resolved(items@, limits@))
                &&& forall|k: int| 0 <= k < v@.len() ==> #[trigger] v@[k].0 < items@.len()
            },
            Err(e) => first_some(
                limits@.map_values(|e: (String, Amount<A>)| limit_check(items@, e.0@)),
            ) == Some(e@),
        },
{
    let ghost orig = limits@;
    let ghost checks = orig.map_values(|e: (String, Amount<A>)| limit_check(items@, e.0@));
    let ghost resolved = limits_resolved(items@, orig);
    let mut rest = limits;
    let mut out: Vec<(ItemId, Amount<A>)> = Vec::new();
    let ghost mut i: int = 0;
    while rest.len() > 0
        invariant
            0 <= i <= orig.len(),
            orig == limits@,
            checks == orig.map_values(|e: (String, Amount<A>)| limit_check(items@, e.0@)),
            resolved == limits_resolved(items@, orig),
            rest@ == orig.skip(i),
            forall|j: int| 0 <= j < i ==> checks[j] is None,
            keys_distinct(out@),
            pairs_map(out@) == insert_all(Map::empty(), resolved.take(i)),
            forall|k: int| 0 <= k < out@.len() ==> #[trigger] out@[k].0 < items@.len(),
        decreases rest.len(),
    {
        let (key, limit) = rest.remove(0);
        proof {
            assert((key, limit) == orig[i]);
        }
        let id = match find_item_by_key(key.as_str(), items) {
            Ok(id) => id,
            Err(e) => {
                proof {
                    lemma_first_some_at(checks, i);
                }
                return Err(e);
            },
        };
        proof {
            lemma_item_id_of(items@, key@, id as int);
        }
        if !items[id].resource {
            proof {
                lemma_first_some_at(checks, i);
            }
            return Err(GameDatabaseError::ItemNotAResource(items[id].key.clone()));
        }
        proof {
            lemma_insert_all_push(Map::empty(), resolved, i);
        }
        let ghost before = out@;
        insert_pair(&mut out, id, limit);
        proof {
            assert forall|k: int| 0 <= k < out@.len() implies #[trigger] out@[k].0 < items@.len() by {
                if !(exists|w: int| 0 <= w < before.len() && before[w].0 == out@[k].0) {
                    assert(pairs_map(out@).dom().contains(out@[k].0));
                }
            }
            assert(rest@ =~= orig.skip(i + 1));
            i = i + 1;
        }
    }
    proof {
        assert(resolved.take(i) =~= resolved);
        lemma_first_some_none(checks);
    }
    Ok(out)
}

/// Whether `buildings` is the conversion of `defs`, position by position.
pub open spec fn buildings_converted<A>(
    items: Seq<Item>,
    buildings: Seq<Building<A>>,
    defs: Seq<BuildingDefinition<A>>,
) -> bool {
    &&& buildings.len() == defs.len()
    &&& forall|b: int|
        #![trigger buildings[b]]
        0 <= b < defs.len() ==> {
            &&& building_converted(items, buildings[b], defs[b])
            &&& buildings[b].key_view() == definition_key(defs[b])
            &&& (buildings[b] is Manufacturer <==> defs[b] is Manufacturer)
            &&& (buildings[b] matches Building::ItemProducer(ip) ==> ip.output.item < items.len())
        }
}

/// Converts the buildings, in order.
fn convert_buildings<A>(defs: Vec<BuildingDefinition<A>>, items: &[Item]) -> (r: Result<
    Vec<Building<A>>,
    GameDatabaseError,
>)
    ensures
        match r {
            Ok(v) => first_some(defs@.map_values(|b: BuildingDefinition<A>| building_error(items@, b)))
                is None && buildings_converted(items@, v@, defs@),
            Err(e) => first_some(
                defs@.map_values(|b: BuildingDefinition<A>| building_error(items@, b)),
            ) == Some(e@),
        },
{
    let ghost orig = defs@;
    let ghost checks = orig.map_values(|b: BuildingDefinition<A>| building_error(items@, b));
    let mut rest = defs;
    let mut out: Vec<Building<A>> = Vec::new();
    let ghost mut i: int = 0;
    while rest.len() > 0
        invariant
            0 <= i <= orig.len(),
            orig == defs@,
            checks == orig.map_values(|b: BuildingDefinition<A>| building_error(items@, b)),
            rest@ == orig.skip(i),
            forall|j: int| 0 <= j < i ==> checks[j] is None,
            buildings_converted(items@, out@, orig.take(i)),
        decreases rest.len(),
    {
        let d = rest.remove(0);
        proof {
            assert(d == orig[i]);
        }
        match convert_building(d, items) {
            Ok(b) => {
                out.push(b);
                proof {
                    let t = orig.take(i + 1);
                    assert forall|k: int| 0 <= k < t.len() implies t[k] == orig[k] by {}
                    assert(rest@ =~= orig.skip(i + 1));
                    i = i + 1;
                }
            },
            Err(e) => {
                proof {
                    lemma_first_some_at(checks, i);
                }
                return Err(e);
            },
        }
    }
    proof {
        assert(orig.take(i) =~= orig);
        lemma_first_some_none(checks);
    }
    Ok(out)
}

/// Whether `recipes` is the conversion of `defs`, position by position.
pub open spec fn recipes_converted<A>(
    items: Seq<Item>,
    buildings: Seq<BuildingDefinition<A>>,
    recipes: Seq<Recipe<A>>,
    defs: Seq<RecipeDefinition<A>>,
) -> bool {
    &&& recipes.len() == defs.len()
    &&& forall|r: int|
        #![trigger recipes[r]]
        0 <= r < defs.len() ==> recipe_converted(items, buildings, recipes[r], defs[r])
            && recipe_refs_valid(recipes[r], items.len() as int, buildings.len() as int)
}

/// Whether a recipe with `key` is among `recipes`.
fn has_recipe_key<A>(recipes: &Vec<Recipe<A>>, key: &String) -> (r: bool)
    ensures
        r == exists|j: int| 0 <= j < recipes@.len() && recipes@[j].key@ == key@,
{
    let mut i: usize = 0;
    while i < recipes.len()
        invariant
            i <= recipes@.len(),
            forall|j: int| 0 <= j < i ==> recipes@[j].key@ != key@,
        decreases recipes.len() - i,
    {
        if str_equals(recipes[i].key.as_str(), key.as_str()) {
            return true;
        }
        i = i + 1;
    }
    false
}

/// Converts the recipes, in order, against the converted `buildings`.
fn convert_recipes<A>(
    recipes: Vec<RecipeDefinition<A>>,
    buildings: &[Building<A>],
    items: &[Item],
    Ghost(defs): Ghost<Seq<BuildingDefinition<A>>>,
) -> (r: Result<Vec<Recipe<A>>, GameDatabaseError>)
    requires
        buildings_converted(items@, buildings@, defs),
    ensures
        match r {
            Ok(v) => first_some(recipe_check_seq(items@, defs, recipes@)) is None
                && recipes_converted(items@, defs, v@, recipes@),
            Err(e) => first_some(recipe_check_seq(items@, defs, recipes@)) == Some(e@),
        },
{
    let ghost orig = recipes@;
    let ghost checks = recipe_check_seq(items@, defs, orig);
    let mut rest = recipes;
    let mut out: Vec<Recipe<A>> = Vec::with_capacity(rest.len());
    let ghost mut i: int = 0;
    while rest.len() > 0
        invariant
            0 <= i <= orig.len(),
            orig == recipes@,
            buildings_converted(items@, buildings@, defs),
            checks == recipe_check_seq(items@, defs, orig),
            rest@ == orig.skip(i),
            forall|j: int| 0 <= j < i ==> checks[j] is None,
            recipes_converted(items@, defs, out@, orig.take(i)),
        decreases rest.len(),
    {
        let recipe = rest.remove(0);
        proof {
            assert(recipe == orig[i]);
            assert(checks[i] == recipe_check_at(items@, defs, orig, i));
        }
        if has_recipe_key(&out, &recipe.key) {
            proof {
                let j = choose|j: int| 0 <= j < out@.len() && out@[j].key@ == recipe.key@;
                assert(orig.take(i)[j] == orig[j]);
                lemma_first_some_at(checks, i);
            }
            return Err(GameDatabaseError::DuplicateRecipeKey(recipe.key));
        }
        proof {
            assert forall|j: int| 0 <= j < i implies orig[j].key@ != orig[i].key@ by {
                assert(orig.take(i)[j] == orig[j]);
                assert(out@[j].key@ != recipe.key@);
            }
        }
        match convert_recipe(recipe, buildings, items, Ghost(defs)) {
            Ok(x) => {
                out.push(x);
                proof {
                    let t = orig.take(i + 1);
                    assert forall|k: int| 0 <= k < t.len() implies t[k] == orig[k] by {}
                    assert forall|k: int| 0 <= k < i implies orig.take(i)[k] == orig[k] by {}
                    assert(rest@ =~= orig.skip(i + 1));
                    i = i + 1;
                }
            },
            Err(e) => {
                proof {
                    lemma_first_some_at(checks, i);
                }
                return Err(e);
            },
        }
    }
    proof {
        assert(orig.take(i) =~= orig);
        lemma_first_some_none(checks);
    }
    Ok(out)
}

impl<A> GameDatabase<A> {
    /// Resolves the item of an item amount.
    pub fn convert_item_amount(item_amount: ItemAmountDefinition<A>, items: &[Item]) -> (r: Result<
        ItemPerMinute<A>,
        GameDatabaseError,
    >)
        ensures
            match r {
                Ok(p) => key_check(items@, item_amount.item@) is None && p == amount_converted(
                    items@,
                    item_amount,
                ) && p.item < items@.len(),
                Err(e) => key_check(items@, item_amount.item@) == Some(e@),
            },
    {
        match find_item_by_key(item_amount.item.as_str(), items) {
            Ok(i) => {
                proof {
                    lemma_item_id_of(items@, item_amount.item@, i as int);
                }
                Ok(ItemPerMinute::new(i, item_amount.amount))
            },
            Err(e) => Err(e),
        }
    }

    /// Builds the database from its definition. The by-product blacklist is
    /// checked first, then the resource limits, then the buildings, then the
    /// recipes, and the first failing check is reported.
    pub fn convert(definition: GameDatabaseDefinition<A>) -> (r: Result<Self, GameDatabaseError>)
        ensures
            match r {
                Ok(db) => {
                    &&& conversion_error(definition) is None
                    &&& db.items@ == definition.items@
                    &&& db.by_product_blacklist@ == keys_converted(
                        definition.items@,
                        definition.by_product_blacklist@,
                    )
                    &&& pairs_map(db.resource_limits@) == insert_all(
                        Map::empty(),
                        limits_resolved(definition.items@, definition.resource_limits@),
                    )
                    &&& buildings_converted(definition.items@, db.buildings@, definition.buildings@)
                    &&& recipes_converted(
                        definition.items@,
                        definition.buildings@,
                        db.recipes@,
                        definition.recipes@,
                    )
                    &&& database_refs_valid(db)
                    &&& forall|i: int, j: int|
                        0 <= i < j < db.recipes@.len() ==> db.recipes@[i].key@ != db.recipes@[j].key@
                },
                Err(e) => conversion_error(definition) == Some(e@),
            },
    {
        let ghost def = definition;
        let ghost c1 = blacklist_checks(def);
        let ghost c2 = limit_checks(def);
        let ghost c3 = building_checks(def);
        let ghost c4 = recipe_checks(def);
        proof {
            lemma_first_some_concat(c1 + c2 + c3, c4);
            lemma_first_some_concat(c1 + c2, c3);
            lemma_first_some_concat(c1, c2);
        }
        let GameDatabaseDefinition { by_product_blacklist, items, buildings, recipes, resource_limits } =
            definition;
        let blacklist = match convert_keys(&by_product_blacklist, items.as_slice()) {
            Ok(v) => v,
            Err(e) => return Err(e),
        };
        let limits = match convert_limits(resource_limits, items.as_slice()) {
            Ok(v) => v,
            Err(e) => return Err(e),
        };
        let ghost defs = buildings@;
        let converted_buildings = match convert_buildings(buildings, items.as_slice()) {
            Ok(v) => v,
            Err(e) => return Err(e),
        };
        let converted_recipes = match convert_recipes(
            recipes,
            converted_buildings.as_slice(),
            items.as_slice(),
            Ghost(defs),
        ) {
            Ok(v) => v,
            Err(e) => return Err(e),
        };
        let db = GameDatabase {
            by_product_blacklist: blacklist,
            items,
            buildings: converted_buildings,
            recipes: converted_recipes,
            resource_limits: limits,
        };
        proof {
            let rdefs = def.recipes@;
            lemma_first_some_none_all(recipe_check_seq(db.items@, defs, rdefs));
            assert forall|i: int, j: int| 0 <= i < j < db.recipes@.len() implies db.recipes@[i].key@
                != db.recipes@[j].key@ by {
                assert(recipe_check_seq(db.items@, defs, rdefs)[j] is None);
                assert(recipe_converted(db.items@, defs, db.recipes@[i], rdefs[i]));
                assert(recipe_converted(db.items@, defs, db.recipes@[j], rdefs[j]));
                if rdefs[i].key@ == rdefs[j].key@ {
                    assert(exists|l: int| 0 <= l < j && rdefs[l].key@ == rdefs[j].key@);
                }
            }
            assert forall|r: int| 0 <= r < db.recipes@.len() implies db.recipes@[r].building
                < db.buildings@.len() by {
                assert(recipe_refs_valid(db.recipes@[r], db.items@.len() as int, defs.len() as int));
            }
            assert forall|b: int| 0 <= b < db.buildings@.len() implies (#[trigger] db.buildings@[b]
                matches Building::ItemProducer(ip) ==> ip.output.item < db.items@.len()) by {
                assert(buildings_converted(db.items@, db.buildings@, defs));
            }
        }
        Ok(db)
    }
}

} // verus!
