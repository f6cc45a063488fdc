use vstd::prelude::*;

use super::building::Building;
use super::item::Item;
use super::item_value_pairs::{Amount, ItemPerMinute};
use super::recipe::{Recipe, RecipeDefinition};
use super::{BuildingId, ItemId, RecipeId};
use crate::text::{equal_ignoring_ascii_case, str_eq_ignore_ascii_case, str_equals};

verus! {

/// Why a database definition could not be turned into a database.
#[derive(Debug, Clone, PartialEq, Eq)]
pub enum GameDatabaseError {
    MissingRecipeInputs(String),
    MissingRecipeOutputs(String),
    DuplicateRecipeKey(String),
    ItemNotAResource(String),
    UnknownItemKey(String),
    UnknownBuildingKey(String),
    NotAManufacturer(String, String),
}

/// A database error with its texts as character sequences.
pub enum DatabaseErrorView {
    MissingRecipeInputs(Seq<char>),
    MissingRecipeOutputs(Seq<char>),
    DuplicateRecipeKey(Seq<char>),
    ItemNotAResource(Seq<char>),
    UnknownItemKey(Seq<char>),
    UnknownBuildingKey(Seq<char>),
    NotAManufacturer(Seq<char>, Seq<char>),
}

impl View for GameDatabaseError {
    type V = DatabaseErrorView;

    open spec fn view(&self) -> DatabaseErrorView {
        match self {
            GameDatabaseError::MissingRecipeInputs(s) => DatabaseErrorView::MissingRecipeInputs(s@),
            GameDatabaseError::MissingRecipeOutputs(s) => DatabaseErrorView::MissingRecipeOutputs(s@),
            GameDatabaseError::DuplicateRecipeKey(s) => DatabaseErrorView::DuplicateRecipeKey(s@),
            GameDatabaseError::ItemNotAResource(s) => DatabaseErrorView::ItemNotAResource(s@),
            GameDatabaseError::UnknownItemKey(s) => DatabaseErrorView::UnknownItemKey(s@),
            GameDatabaseError::UnknownBuildingKey(s) => DatabaseErrorView::UnknownBuildingKey(s@),
            GameDatabaseError::NotAManufacturer(a, b) => DatabaseErrorView::NotAManufacturer(a@, b@),
        }
    }
}

/// The message that describes a database error.
pub open spec fn database_error_message(e: DatabaseErrorView) -> Seq<char> {
    match e {
        DatabaseErrorView::MissingRecipeInputs(s) => "Recipe `"@ + s
            + "`: At least one input is required but none were provided"@,
        DatabaseErrorView::MissingRecipeOutputs(s) => "Recipe `"@ + s
            + "`: At least one output is required but none were provided"@,
        DatabaseErrorView::DuplicateRecipeKey(s) => "Recipe `"@ + s
            + "`: Multiple recipes with the same key found."@,
        DatabaseErrorView::ItemNotAResource(s) => "Item `"@ + s
            + "` is not a resource and can't appear in resource_limits."@,
        DatabaseErrorView::UnknownItemKey(s) => "Item `"@ + s + "`: No such item exists."@,
        DatabaseErrorView::UnknownBuildingKey(s) => "Building `"@ + s + "`: No such building exists."@,
        DatabaseErrorView::NotAManufacturer(r, b) => "Recipe `"@ + r + ": Building `"@ + b
            + "` is not a manufacturer."@,
    }
}

/// `prefix`, then `middle`, then `suffix`.
fn surround(prefix: &str, middle: &str, suffix: &str) -> (r: String)
    ensures
        r@ == prefix@ + middle@ + suffix@,
{
    let mut r = String::from_str(prefix);
    r.append(middle);
    r.append(suffix);
    r
}

impl GameDatabaseError {
    /// The message that describes the error.
    pub fn to_string(&self) -> (r: String)
        ensures
            r@ == database_error_message(self@),
    {
        match self {
            GameDatabaseError::MissingRecipeInputs(s) => surround(
                "Recipe `",
                s.as_str(),
                "`: At least one input is required but none were provided",
            ),
            GameDatabaseError::MissingRecipeOutputs(s) => surround(
                "Recipe `",
                s.as_str(),
                "`: At least one output is required but none were provided",
            ),
            GameDatabaseError::DuplicateRecipeKey(s) => surround(
                "Recipe `",
                s.as_str(),
                "`: Multiple recipes with the same key found.",
            ),
            GameDatabaseError::ItemNotAResource(s) => surround(
                "Item `",
                s.as_str(),
                "` is not a resource and can't appear in resource_limits.",
            ),
            GameDatabaseError::UnknownItemKey(s) => surround(
                "Item `",
                s.as_str(),
                "`: No such item exists.",
            ),
            GameDatabaseError::UnknownBuildingKey(s) => surround(
                "Building `",
                s.as_str(),
                "`: No such building exists.",
            ),
            GameDatabaseError::NotAManufacturer(r, b) => {
                let mut m = surround("Recipe `", r.as_str(), ": Building `");
                m.append(b.as_str());
                m.append("` is not a manufacturer.");
                m
            },
        }
    }
}

/// The game database: items, buildings and recipes, with every reference
/// between them held as a position in the lists.
#[derive(Debug, Clone)]
pub struct GameDatabase<A> {
    pub by_product_blacklist: Vec<ItemId>,
    pub items: Vec<Item>,
    pub buildings: Vec<Building<A>>,
    pub recipes: Vec<Recipe<A>>,
    pub resource_limits: Vec<(ItemId, Amount<A>)>,
}

/// Whether `i` is the first position of `items` that holds `key`.
pub open spec fn first_item_with_key(items: Seq<Item>, key: Seq<char>, i: int) -> bool {
    &&& 0 <= i < items.len()
    &&& items[i].key@ == key
    &&& forall|j: int| 0 <= j < i ==> items[j].key@ != key
}

/// Whether some item holds `key`.
pub open spec fn has_item_key(items: Seq<Item>, key: Seq<char>) -> bool {
    exists|i: int| 0 <= i < items.len() && items[i].key@ == key
}

/// The first position of `items` that holds `key`.
pub open spec fn item_id_of(items: Seq<Item>, key: Seq<char>) -> int {
    choose|i: int| first_item_with_key(items, key, i)
}

/// Whether `i` is the first position of `buildings` that holds `key`.
pub open spec fn first_building_with_key<A>(buildings: Seq<Building<A>>, key: Seq<char>, i: int) -> bool {
    &&& 0 <= i < buildings.len()
    &&& buildings[i].key_view() == key
    &&& forall|j: int| 0 <= j < i ==> buildings[j].key_view() != key
}

/// Whether an item answers to `query`: by its name, ignoring ASCII case,
/// or by its exact key.
pub open spec fn item_answers_to(item: Item, query: Seq<char>) -> bool {
    equal_ignoring_ascii_case(item.name@, query) || item.key@ == query
}

/// Whether a building answers to `query`: by its name, ignoring ASCII case,
/// or by its exact key.
pub open spec fn building_answers_to<A>(building: Building<A>, query: Seq<char>) -> bool {
    equal_ignoring_ascii_case(building.name_view(), query) || building.key_view() == query
}

/// Whether a recipe answers to `query`: by its name, ignoring ASCII case,
/// or by its exact key.
pub open spec fn recipe_answers_to<A>(recipe: Recipe<A>, query: Seq<char>) -> bool {
    equal_ignoring_ascii_case(recipe.name@, query) || recipe.key@ == query
}

/// Whether building `b` makes `item` on its own.
pub open spec fn building_produces<A>(b: Building<A>, item: ItemId) -> bool {
    b matches Building::ItemProducer(ip) && ip.output.item == item
}

/// Looks up the first item with the given key.
pub fn find_item_by_key(item_key: &str, items: &[Item]) -> (r: Result<ItemId, GameDatabaseError>)
    ensures
        match r {
            Ok(i) => first_item_with_key(items@, item_key@, i as int),
            Err(e) => !has_item_key(items@, item_key@) && e@ == DatabaseErrorView::UnknownItemKey(
                item_key@,
            ),
        },
{
    let mut i: usize = 0;
    while i < items.len()
        invariant
            i <= items@.len(),
            forall|j: int| 0 <= j < i ==> items@[j].key@ != item_key@,
        decreases items.len() - i,
    {
        if str_equals(items[i].key.as_str(), item_key) {
            return Ok(i);
        }
        i = i + 1;
    }
    Err(GameDatabaseError::UnknownItemKey(String::from_str(item_key)))
}

/// Looks up the first building with the given key.
pub fn find_building_by_key<A>(building_key: &str, buildings: &[Building<A>]) -> (r: Result<
    BuildingId,
    GameDatabaseError,
>)
    ensures
        match r {
            Ok(i) => first_building_with_key(buildings@, building_key@, i as int),
            Err(e) => (forall|j: int|
                0 <= j < buildings@.len() ==> buildings@[j].key_view() != building_key@) && e@
                == DatabaseErrorView::UnknownBuildingKey(building_key@),
        },
{
    let mut i: usize = 0;
    while i < buildings.len()
        invariant
            i <= buildings@.len(),
            forall|j: int| 0 <= j < i ==> buildings@[j].key_view() != building_key@,
        decreases buildings.len() - i,
    {
        if str_equals(buildings[i].key(), building_key) {
            return Ok(i);
        }
        i = i + 1;
    }
    Err(GameDatabaseError::UnknownBuildingKey(String::from_str(building_key)))
}

impl<A> GameDatabase<A> {
    /// The item at position `id`.
    pub fn item(&self, id: ItemId) -> (r: &Item)
        requires
            id < self.items@.len(),
        ensures
            *r == self.items@[id as int],
    {
        &self.items[id]
    }

    /// The building at position `id`.
    pub fn building(&self, id: BuildingId) -> (r: &Building<A>)
        requires
            id < self.buildings@.len(),
        ensures
            *r == self.buildings@[id as int],
    {
        &self.buildings[id]
    }

    /// The recipe at position `id`.
    pub fn recipe(&self, id: RecipeId) -> (r: &Recipe<A>)
        requires
            id < self.recipes@.len(),
        ensures
            *r == self.recipes@[id as int],
    {
        &self.recipes[id]
    }

    /// The first recipe that answers to `name_or_key`.
    pub fn find_recipe(&self, name_or_key: &str) -> (r: Option<RecipeId>)
        ensures
            match r {
                Some(i) => {
                    &&& i < self.recipes@.len()
                    &&& recipe_answers_to(self.recipes@[i as int], name_or_key@)
                    &&& forall|j: int|
                        0 <= j < i ==> !recipe_answers_to(self.recipes@[j], name_or_key@)
                },
                None => forall|j: int|
                    0 <= j < self.recipes@.len() ==> !recipe_answers_to(
                        self.recipes@[j],
                        name_or_key@,
                    ),
            },
    {
        let mut i: usize = 0;
        while i < self.recipes.len()
            invariant
                i <= self.recipes@.len(),
                forall|j: int| 0 <= j < i ==> !recipe_answers_to(self.recipes@[j], name_or_key@),
            decreases self.recipes.len() - i,
        {
            let r = &self.recipes[i];
            if str_eq_ignore_ascii_case(r.name.as_str(), name_or_key) || str_equals(
                r.key.as_str(),
                name_or_key,
            ) {
                return Some(i);
            }
            i = i + 1;
        }
        None
    }

    /// The first item that answers to `name_or_key`.
    pub fn find_item(&self, name_or_key: &str) -> (r: Option<ItemId>)
        ensures
            match r {
                Some(i) => {
                    &&& i < self.items@.len()
                    &&& item_answers_to(self.items@[i as int], name_or_key@)
                    &&& forall|j: int| 0 <= j < i ==> !item_answers_to(self.items@[j], name_or_key@)
                },
                None => forall|j: int|
                    0 <= j < self.items@.len() ==> !item_answers_to(self.items@[j], name_or_key@),
            },
    {
        let mut i: usize = 0;
        while i < self.items.len()
            invariant
                i <= self.items@.len(),
                forall|j: int| 0 <= j < i ==> !item_answers_to(self.items@[j], name_or_key@),
            decreases self.items.len() - i,
        {
            let it = &self.items[i];
            if str_eq_ignore_ascii_case(it.name.as_str(), name_or_key) || str_equals(
                it.key.as_str(),
                name_or_key,
            ) {
                return Some(i);
            }
            i = i + 1;
        }
        None
    }

    /// The first building that answers to `name_or_key`.
    pub fn find_building(&self, name_or_key: &str) -> (r: Option<BuildingId>)
        ensures
            match r {
                Some(i) => {
                    &&& i < self.buildings@.len()
                    &&& building_answers_to(self.buildings@[i as int], name_or_key@)
                    &&& forall|j: int|
                        0 <= j < i ==> !building_answers_to(self.buildings@[j], name_or_key@)
                },
                None => forall|j: int|
                    0 <= j < self.buildings@.len() ==> !building_answers_to(
                        self.buildings@[j],
                        name_or_key@,
                    ),
            },
    {
        let mut i: usize = 0;
        while i < self.buildings.len()
            invariant
                i <= self.buildings@.len(),
                forall|j: int|
                    0 <= j < i ==> !building_answers_to(self.buildings@[j], name_or_key@),
            decreases self.buildings.len() - i,
        {
            let b = &self.buildings[i];
            if str_eq_ignore_ascii_case(b.name(), name_or_key) || str_equals(b.key(), name_or_key) {
                return Some(i);
            }
            i = i + 1;
        }
        None
    }

    /// The positions, in increasing order, of the item producers whose
    /// output is `item`.
    pub fn find_item_producers(&self, item: ItemId) -> (r: Vec<BuildingId>)
        ensures
            forall|k: int|
                0 <= k < r@.len() ==> r@[k] < self.buildings@.len() && building_produces(
                    self.buildings@[r@[k] as int],
                    item,
                ),
            forall|k: int, l: int| 0 <= k < l < r@.len() ==> r@[k] < r@[l],
            forall|b: int|
                0 <= b < self.buildings@.len() && building_produces(self.buildings@[b], item)
                    ==> r@.contains(b as BuildingId),
    {
        let mut r: Vec<BuildingId> = Vec::new();
        let mut i: usize = 0;
        while i < self.buildings.len()
            invariant
                i <= self.buildings@.len(),
                forall|k: int|
                    0 <= k < r@.len() ==> r@[k] < i && building_produces(
                        self.buildings@[r@[k] as int],
                        item,
                    ),
                forall|k: int, l: int| 0 <= k < l < r@.len() ==> r@[k] < r@[l],
                forall|b: int|
                    0 <= b < i && building_produces(self.buildings@[b], item) ==> r@.contains(
                        b as BuildingId,
                    ),
            decreases self.buildings.len() - i,
        {
            let b = &self.buildings[i];
            if b.is_item_producer() && b.as_item_producer().output.item == item {
                let ghost before = r@;
                r.push(i);
                proof {
                    assert forall|c: int|
                        0 <= c < i + 1 && building_produces(
                            self.buildings@[c],
                            item,
                        ) implies r@.contains(c as BuildingId) by {
                        if c < i {
                            let k = choose|k: int| 0 <= k < before.len() && before[k] == c as BuildingId;
                            assert(r@[k] == c as BuildingId);
                        } else {
                            assert(r@[before.len() as int] == c as BuildingId);
                        }
                    }
                }
            }
            i = i + 1;
        }
        r
    }

    /// Whether `limits` holds an entry for `item`.
    pub open spec fn limit_entry(self, item: ItemId, k: int) -> bool {
        0 <= k < self.resource_limits@.len() && self.resource_limits@[k].0 == item
    }

    /// The limit recorded for `item`, if the database records one.
    pub fn get_resource_limit(&self, item: ItemId) -> (r: Option<Amount<A>>)
        where A: Copy
        ensures
            match r {
                Some(a) => exists|k: int|
                    self.limit_entry(item, k) && a == self.resource_limits@[k].1 && forall|j: int|
                        0 <= j < k ==> self.resource_limits@[j].0 != item,
                None => forall|k: int| !self.limit_entry(item, k),
            },
    {
        let mut i: usize = 0;
        while i < self.resource_limits.len()
            invariant
                i <= self.resource_limits@.len(),
                forall|j: int| 0 <= j < i ==> self.resource_limits@[j].0 != item,
            decreases self.resource_limits.len() - i,
        {
            if self.resource_limits[i].0 == item {
                proof {
                    assert(self.limit_entry(item, i as int));
                }
                return Some(self.resource_limits[i].1);
            }
            i = i + 1;
        }
        None
    }
}

} // verus!
