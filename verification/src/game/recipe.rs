use vstd::prelude::*;

use super::item_value_pairs::{ItemKeyAmountPair, ItemPerMinute};
use super::{BuildingId, ItemId};

verus! {

/// The power range a recipe draws in a building of variable consumption.
#[derive(Debug, Copy, Clone)]
pub struct RecipePower<A> {
    pub min_mw: A,
    pub max_mw: A,
}

/// A recipe as the database file describes it: items and building by key.
#[derive(Debug, Clone)]
pub struct RecipeDefinition<A> {
    pub key: String,
    pub name: String,
    pub alternate: bool,
    pub outputs: Vec<ItemKeyAmountPair<A>>,
    pub inputs: Vec<ItemKeyAmountPair<A>>,
    pub craft_time_secs: A,
    pub events: Vec<String>,
    pub building: String,
    pub power: RecipePower<A>,
}

/// A recipe of the game database.
#[derive(Debug, Clone)]
pub struct Recipe<A> {
    pub key: String,
    pub name: String,
    pub alternate: bool,
    pub outputs: Vec<ItemPerMinute<A>>,
    pub inputs: Vec<ItemPerMinute<A>>,
    pub craft_time_secs: A,
    pub events: Vec<String>,
    pub building: BuildingId,
    pub power: RecipePower<A>,
}

/// Whether some entry of `list` is for `item`.
pub open spec fn lists_item<A>(list: Seq<ItemPerMinute<A>>, item: ItemId) -> bool {
    exists|i: int| 0 <= i < list.len() && list[i].item == item
}

/// The position of the first entry of `list` for `item`, if there is one.
pub open spec fn first_entry_for<A>(list: Seq<ItemPerMinute<A>>, item: ItemId, i: int) -> bool {
    &&& 0 <= i < list.len()
    &&& list[i].item == item
    &&& forall|j: int| 0 <= j < i ==> list[j].item != item
}

/// Finds the first entry of `list` for `item`.
fn find_entry<A>(list: &Vec<ItemPerMinute<A>>, item: ItemId) -> (r: Option<usize>)
    ensures
        match r {
            Some(i) => first_entry_for(list@, item, i as int),
            None => !lists_item(list@, item),
        },
{
    let mut i: usize = 0;
    while i < list.len()
        invariant
            i <= list.len(),
            forall|j: int| 0 <= j < i ==> list@[j].item != item,
        decreases list.len() - i,
    {
        if list[i].item == item {
            return Some(i);
        }
        i = i + 1;
    }
    None
}

impl<A> Recipe<A> {
    /// Whether the recipe produces `item`.
    pub open spec fn produces(self, item: ItemId) -> bool {
        lists_item(self.outputs@, item)
    }

    /// Whether the recipe consumes `item`.
    pub open spec fn consumes(self, item: ItemId) -> bool {
        lists_item(self.inputs@, item)
    }

    /// Whether `item` is the first output of the recipe.
    pub open spec fn primary_output_is(self, item: ItemId) -> bool {
        self.outputs@.len() > 0 && self.outputs@[0].item == item
    }

    /// The first input entry for `item`.
    pub fn find_input_by_item(&self, item: ItemId) -> (r: Option<&ItemPerMinute<A>>)
        ensures
            match r {
                Some(e) => exists|i: int| first_entry_for(self.inputs@, item, i) && *e == self.inputs@[i],
                None => !self.consumes(item),
            },
    {
        match find_entry(&self.inputs, item) {
            Some(i) => Some(&self.inputs[i]),
            None => None,
        }
    }

    /// The first output entry for `item`.
    pub fn find_output_by_item(&self, item: ItemId) -> (r: Option<&ItemPerMinute<A>>)
        ensures
            match r {
                Some(e) => exists|i: int| first_entry_for(self.outputs@, item, i) && *e == self.outputs@[i],
                None => !self.produces(item),
            },
    {
        match find_entry(&self.outputs, item) {
            Some(i) => Some(&self.outputs[i]),
            None => None,
        }
    }

    pub fn has_output_item(&self, item: ItemId) -> (r: bool)
        ensures
            r == self.produces(item),
    {
        find_entry(&self.outputs, item).is_some()
    }

    pub fn is_primary_output(&self, item: ItemId) -> (r: bool)
        ensures
            r == self.primary_output_is(item),
    {
        if self.outputs.len() > 0 {
            self.outputs[0].item == item
        } else {
            false
        }
    }

    pub fn has_input_item(&self, item: ItemId) -> (r: bool)
        ensures
            r == self.consumes(item),
    {
        find_entry(&self.inputs, item).is_some()
    }
}

/// Two recipes are the same recipe when their keys are equal.
impl<A> PartialEq for Recipe<A> {
    fn eq(&self, other: &Self) -> (r: bool) {
        self.key == other.key
    }
}

impl<A> vstd::std_specs::cmp::PartialEqSpecImpl for Recipe<A> {
    open spec fn obeys_eq_spec() -> bool {
        true
    }

    open spec fn eq_spec(&self, other: &Self) -> bool {
        self.key@ == other.key@
    }
}

impl<A> Eq for Recipe<A> {

}

} // verus!
