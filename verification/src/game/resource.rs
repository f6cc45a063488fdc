use vstd::prelude::*;

use super::fluid::{fluid_is_raw, fluid_name, Fluid};
use super::item::Item;
use crate::text::str_equals;
use super::ItemId;

verus! {

/// A resource: an item of the database or a fluid.
#[derive(Debug, Copy, Clone, PartialEq, Eq, Structural)]
pub enum Resource {
    Item(ItemId),
    Fluid(Fluid),
}

/// Whether the item positions of a resource are positions of `items`.
pub open spec fn resource_in(r: Resource, items: Seq<Item>) -> bool {
    r matches Resource::Item(i) ==> i < items.len()
}

/// The name of a resource: the item's name or the fluid's.
pub open spec fn resource_name(r: Resource, items: Seq<Item>) -> Seq<char> {
    match r {
        Resource::Item(i) => items[i as int].name@,
        Resource::Fluid(f) => fluid_name(f),
    }
}

impl Resource {
    /// The name shown for the resource.
    pub fn display_name<'a>(&self, items: &'a [Item]) -> (r: &'a str)
        requires
            resource_in(*self, items@),
        ensures
            r@ == resource_name(*self, items@),
    {
        match self {
            Resource::Item(i) => items[*i].name.as_str(),
            Resource::Fluid(f) => f.display_name(),
        }
    }

    /// Whether the resource is drawn from the world: a resource item or a
    /// raw fluid.
    pub fn is_raw(&self, items: &[Item]) -> (r: bool)
        requires
            resource_in(*self, items@),
        ensures
            r == match *self {
                Resource::Item(i) => items@[i as int].resource,
                Resource::Fluid(f) => fluid_is_raw(f),
            },
    {
        match self {
            Resource::Item(i) => items[*i].resource,
            Resource::Fluid(f) => f.is_raw(),
        }
    }

    /// The sink points of an item; fluids cannot be sunk.
    pub fn sink_points(&self, items: &[Item]) -> (r: Option<u32>)
        requires
            resource_in(*self, items@),
        ensures
            r == match *self {
                Resource::Item(i) => Some(items@[i as int].sink_points),
                Resource::Fluid(_) => None::<u32>,
            },
    {
        match self {
            Resource::Item(i) => Some(items[*i].sink_points),
            Resource::Fluid(_) => None,
        }
    }

    /// The resource whose name is exactly `value`: the first item with that
    /// name, otherwise the fluid with that name, if any.
    pub fn from_str(value: &str, items: &[Item]) -> (r: Option<Resource>)
        ensures
            match r {
                Some(Resource::Item(i)) => i < items@.len() && items@[i as int].name@ == value@
                    && forall|j: int| 0 <= j < i ==> items@[j].name@ != value@,
                Some(Resource::Fluid(f)) => fluid_name(f) == value@ && forall|j: int|
                    0 <= j < items@.len() ==> items@[j].name@ != value@,
                None => (forall|j: int| 0 <= j < items@.len() ==> items@[j].name@ != value@)
                    && forall|f: Fluid| fluid_name(f) != value@,
            },
    {
        let mut i: usize = 0;
        while i < items.len()
            invariant
                i <= items@.len(),
                forall|j: int| 0 <= j < i ==> items@[j].name@ != value@,
            decreases items.len() - i,
        {
            if str_equals(items[i].name.as_str(), value) {
                return Some(Resource::Item(i));
            }
            i = i + 1;
        }
        match Fluid::from_str(value) {
            Some(f) => Some(Resource::Fluid(f)),
            None => None,
        }
    }
}

/// An item position is the resource of that item.
impl From<ItemId> for Resource {
    fn from(value: ItemId) -> (r: Self) {
        Resource::Item(value)
    }
}

impl vstd::std_specs::convert::FromSpecImpl<ItemId> for Resource {
    open spec fn obeys_from_spec() -> bool {
        true
    }

    open spec fn from_spec(v: ItemId) -> Self {
        Resource::Item(v)
    }
}

/// A fluid is the resource of that fluid.
impl From<Fluid> for Resource {
    fn from(value: Fluid) -> (r: Self) {
        Resource::Fluid(value)
    }
}

impl vstd::std_specs::convert::FromSpecImpl<Fluid> for Resource {
    open spec fn obeys_from_spec() -> bool {
        true
    }

    open spec fn from_spec(v: Fluid) -> Self {
        Resource::Fluid(v)
    }
}

/// A resource and a value attached to it.
#[derive(Debug, Copy, Clone)]
pub struct ResourceValuePair<V> {
    pub resource: Resource,
    pub value: V,
}

impl<V: Copy> ResourceValuePair<V> {
    pub fn new(resource: Resource, value: V) -> (r: Self)
        ensures
            r.resource == resource,
            r.value == value,
    {
        Self { resource, value }
    }

    pub fn for_item(item: ItemId, value: V) -> (r: Self)
        ensures
            r.resource == Resource::Item(item),
            r.value == value,
    {
        Self { resource: Resource::Item(item), value }
    }

    pub fn for_fluid(fluid: Fluid, value: V) -> (r: Self)
        ensures
            r.resource == Resource::Fluid(fluid),
            r.value == value,
    {
        Self { resource: Resource::Fluid(fluid), value }
    }

    pub fn to_tuple(&self) -> (r: (Resource, V))
        ensures
            r == (self.resource, self.value),
    {
        (self.resource, self.value)
    }
}

/// A pair of a resource and a value.
impl<V> From<(Resource, V)> for ResourceValuePair<V> {
    fn from(value: (Resource, V)) -> (r: Self) {
        ResourceValuePair { resource: value.0, value: value.1 }
    }
}

impl<V> vstd::std_specs::convert::FromSpecImpl<(Resource, V)> for ResourceValuePair<V> {
    open spec fn obeys_from_spec() -> bool {
        true
    }

    open spec fn from_spec(v: (Resource, V)) -> Self {
        ResourceValuePair { resource: v.0, value: v.1 }
    }
}

} // verus!
