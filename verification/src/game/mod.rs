pub mod building;
pub mod convert;
pub mod database;
pub mod fluid;
pub mod item;
pub mod item_value_pairs;
pub mod machine;
pub mod recipe;
pub mod resource;

pub use building::{Building, Dimensions, PowerConsumption};
pub use convert::GameDatabaseDefinition;
pub use database::{GameDatabase, GameDatabaseError};
pub use fluid::Fluid;
pub use item::{Item, ItemState};
pub use item_value_pairs::{Amount, ItemKeyAmountPair, ItemPerMinute, Sign};
pub use machine::MachineIO;
pub use recipe::{Recipe, RecipeDefinition, RecipePower};
pub use resource::{Resource, ResourceValuePair};

use vstd::prelude::*;

verus! {

/// The position of an item in the database's item list.
pub type ItemId = usize;

/// The position of a recipe in the database's recipe list.
pub type RecipeId = usize;

/// The position of a building in the database's building list.
pub type BuildingId = usize;

} // verus!
