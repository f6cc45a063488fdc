use vstd::prelude::*;

verus! {

/// The physical state of an item.
#[derive(Debug, Copy, Clone, PartialEq, Eq, Structural, PartialOrd, Ord, Hash)]
pub enum ItemState {
    Solid,
    Liquid,
    Gas,
}

/// An item of the game database.
#[derive(Debug, Clone)]
pub struct Item {
    pub key: String,
    pub name: String,
    pub resource: bool,
    pub state: ItemState,
    pub energy_mj: u32,
    pub sink_points: u32,
    pub bit_mask: Option<u16>,
}

impl ItemState {
    /// Liquids and gases are fluids.
    pub fn is_fluid(&self) -> (r: bool)
        ensures
            r == !(*self is Solid),
    {
        !matches!(self, Self::Solid)
    }

    pub fn is_solid(&self) -> (r: bool)
        ensures
            r == (*self is Solid),
    {
        matches!(self, Self::Solid)
    }

    pub fn is_liquid(&self) -> (r: bool)
        ensures
            r == (*self is Liquid),
    {
        matches!(self, Self::Liquid)
    }

    pub fn is_gas(&self) -> (r: bool)
        ensures
            r == (*self is Gas),
    {
        matches!(self, Self::Gas)
    }
}

impl Item {
    /// The text that stands for the item: its name.
    pub fn to_string(&self) -> (r: String)
        ensures
            r@ == self.name@,
    {
        self.name.clone()
    }
}

/// Two items are the same item when their keys are equal.
impl PartialEq for Item {
    fn eq(&self, other: &Self) -> (r: bool) {
        self.key == other.key
    }
}

impl vstd::std_specs::cmp::PartialEqSpecImpl for Item {
    open spec fn obeys_eq_spec() -> bool {
        true
    }

    open spec fn eq_spec(&self, other: &Self) -> bool {
        self.key@ == other.key@
    }
}

impl Eq for Item {

}

} // verus!
