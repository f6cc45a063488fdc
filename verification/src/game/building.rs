use vstd::prelude::*;

use super::item_value_pairs::ItemPerMinute;
use super::ItemId;
use crate::text::{append_decimal, decimal, str_equals};

verus! {

/// How much power a building draws.
#[derive(Debug, Copy, Clone)]
pub enum PowerConsumption<A> {
    Fixed { value_mw: u32, exponent: A },
    Variable { min_mw: u32, max_mw: u32, exponent: A },
}

/// The size of a building.
#[derive(Debug, Copy, Clone)]
pub struct Dimensions<A> {
    pub length_m: A,
    pub width_m: A,
    pub height_m: A,
}

#[derive(Debug, Clone)]
pub struct Manufacturer<A> {
    pub key: String,
    pub name: String,
    pub power_consumption: PowerConsumption<A>,
    pub dimensions: Option<Dimensions<A>>,
}

/// An item amount as the database file writes it: the item by its key.
#[derive(Debug, Clone)]
pub struct ItemAmountDefinition<A> {
    pub item: String,
    pub amount: A,
}

#[derive(Debug, Clone)]
pub struct FuelDefinition<A> {
    pub fuel: ItemAmountDefinition<A>,
    pub supplemental: Option<ItemAmountDefinition<A>>,
    pub by_product: Option<ItemAmountDefinition<A>>,
    pub burn_time_secs: A,
}

#[derive(Debug, Clone)]
pub struct Fuel<A> {
    pub fuel: ItemPerMinute<A>,
    pub supplemental: Option<ItemPerMinute<A>>,
    pub by_product: Option<ItemPerMinute<A>>,
    pub burn_time_secs: A,
}

#[derive(Debug, Clone)]
pub struct PowerGeneratorDefinition<A> {
    pub key: String,
    pub name: String,
    pub power_production_mw: u32,
    pub fuels: Vec<FuelDefinition<A>>,
    pub dimensions: Option<Dimensions<A>>,
}

#[derive(Debug, Clone)]
pub struct PowerGenerator<A> {
    pub key: String,
    pub name: String,
    pub power_production_mw: u32,
    pub fuels: Vec<Fuel<A>>,
    pub dimensions: Option<Dimensions<A>>,
}

#[derive(Debug, Clone)]
pub struct ResourceExtractorDefinition<A> {
    pub key: String,
    pub name: String,
    pub power_consumption: PowerConsumption<A>,
    pub extraction_rate: A,
    pub allowed_resources: Vec<String>,
    pub extractor_type: Option<String>,
    pub dimensions: Option<Dimensions<A>>,
}

#[derive(Debug, Clone)]
pub struct ResourceExtractor<A> {
    pub key: String,
    pub name: String,
    pub power_consumption: PowerConsumption<A>,
    pub extraction_rate: A,
    pub allowed_resources: Vec<ItemId>,
    pub extractor_type: Option<String>,
    pub dimensions: Option<Dimensions<A>>,
}

#[derive(Debug, Clone)]
pub struct ResourceWellExtractor<A> {
    pub key: String,
    pub name: String,
    pub extraction_rate: A,
    pub power_consumption: PowerConsumption<A>,
    pub dimensions: Option<Dimensions<A>>,
}

#[derive(Debug, Clone)]
pub struct ResourceWellDefinition<A> {
    pub key: String,
    pub name: String,
    pub power_consumption: PowerConsumption<A>,
    pub allowed_resources: Vec<String>,
    pub satellite_buildings: Vec<ResourceWellExtractor<A>>,
    pub extractor_type: Option<String>,
    pub dimensions: Option<Dimensions<A>>,
}

#[derive(Debug, Clone)]
pub struct ResourceWell<A> {
    pub key: String,
    pub name: String,
    pub power_consumption: PowerConsumption<A>,
    pub allowed_resources: Vec<ItemId>,
    pub satellite_buildings: Vec<ResourceWellExtractor<A>>,
    pub extractor_type: Option<String>,
    pub dimensions: Option<Dimensions<A>>,
}

#[derive(Debug, Clone)]
pub struct ItemProducerDefinition<A> {
    pub key: String,
    pub name: String,
    pub power_consumption: PowerConsumption<A>,
    pub craft_time_secs: A,
    pub output: ItemAmountDefinition<A>,
    pub dimensions: Option<Dimensions<A>>,
}

#[derive(Debug, Clone)]
pub struct ItemProducer<A> {
    pub key: String,
    pub name: String,
    pub power_consumption: PowerConsumption<A>,
    pub craft_time_secs: A,
    pub output: ItemPerMinute<A>,
    pub dimensions: Option<Dimensions<A>>,
}

/// A building as the database file describes it: items by their keys.
#[derive(Debug, Clone)]
pub enum BuildingDefinition<A> {
    Manufacturer(Manufacturer<A>),
    PowerGenerator(PowerGeneratorDefinition<A>),
    ResourceExtractor(ResourceExtractorDefinition<A>),
    ResourceWell(ResourceWellDefinition<A>),
    ItemProducer(ItemProducerDefinition<A>),
}

/// A building of the game database.
#[derive(Debug, Clone)]
pub enum Building<A> {
    Manufacturer(Manufacturer<A>),
    PowerGenerator(PowerGenerator<A>),
    ResourceExtractor(ResourceExtractor<A>),
    ItemProducer(ItemProducer<A>),
    ResourceWell(ResourceWell<A>),
}

/// The text that describes a power consumption: the fixed draw, or the
/// range of a variable draw.
pub open spec fn power_text<A>(p: PowerConsumption<A>) -> Seq<char> {
    match p {
        PowerConsumption::Fixed { value_mw, .. } => decimal(value_mw as nat) + " MW"@,
        PowerConsumption::Variable { min_mw, max_mw, .. } => decimal(min_mw as nat) + " - "@
            + decimal(max_mw as nat) + " MW)"@,
    }
}

impl<A> PowerConsumption<A> {
    /// The text that describes the power consumption, such as `4 MW`.
    pub fn to_string(&self) -> (r: String)
        ensures
            r@ == power_text(*self),
    {
        let mut text = String::new();
        match self {
            PowerConsumption::Fixed { value_mw, .. } => {
                append_decimal(&mut text, *value_mw);
                text.append(" MW");
            },
            PowerConsumption::Variable { min_mw, max_mw, .. } => {
                append_decimal(&mut text, *min_mw);
                text.append(" - ");
                append_decimal(&mut text, *max_mw);
                text.append(" MW)");
            },
        }
        text
    }
}

impl<A> Building<A> {
    /// The key of the building, whatever its kind.
    pub open spec fn key_view(self) -> Seq<char> {
        match self {
            Building::Manufacturer(m) => m.key@,
            Building::PowerGenerator(pg) => pg.key@,
            Building::ResourceExtractor(re) => re.key@,
            Building::ItemProducer(ip) => ip.key@,
            Building::ResourceWell(rw) => rw.key@,
        }
    }

    /// The name of the building, whatever its kind.
    pub open spec fn name_view(self) -> Seq<char> {
        match self {
            Building::Manufacturer(m) => m.name@,
            Building::PowerGenerator(pg) => pg.name@,
            Building::ResourceExtractor(re) => re.name@,
            Building::ItemProducer(ip) => ip.name@,
            Building::ResourceWell(rw) => rw.name@,
        }
    }

    /// The dimensions of the building, whatever its kind.
    pub open spec fn dimensions_view(self) -> Option<Dimensions<A>> {
        match self {
            Building::Manufacturer(m) => m.dimensions,
            Building::PowerGenerator(pg) => pg.dimensions,
            Building::ResourceExtractor(re) => re.dimensions,
            Building::ItemProducer(ip) => ip.dimensions,
            Building::ResourceWell(rw) => rw.dimensions,
        }
    }

    pub fn key(&self) -> (r: &str)
        ensures
            r@ == self.key_view(),
    {
        match self {
            Self::Manufacturer(m) => m.key.as_str(),
            Self::PowerGenerator(pg) => pg.key.as_str(),
            Self::ResourceExtractor(re) => re.key.as_str(),
            Self::ItemProducer(ip) => ip.key.as_str(),
            Self::ResourceWell(rw) => rw.key.as_str(),
        }
    }

    pub fn name(&self) -> (r: &str)
        ensures
            r@ == self.name_view(),
    {
        match self {
            Self::Manufacturer(m) => m.name.as_str(),
            Self::PowerGenerator(pg) => pg.name.as_str(),
            Self::ResourceExtractor(re) => re.name.as_str(),
            Self::ItemProducer(ip) => ip.name.as_str(),
            Self::ResourceWell(rw) => rw.name.as_str(),
        }
    }

    pub fn dimensions(&self) -> (r: Option<&Dimensions<A>>)
        ensures
            match r {
                Some(d) => self.dimensions_view() == Some(*d),
                None => self.dimensions_view() is None,
            },
    {
        match self {
            Self::Manufacturer(m) => m.dimensions.as_ref(),
            Self::PowerGenerator(pg) => pg.dimensions.as_ref(),
            Self::ResourceExtractor(re) => re.dimensions.as_ref(),
            Self::ItemProducer(ip) => ip.dimensions.as_ref(),
            Self::ResourceWell(rw) => rw.dimensions.as_ref(),
        }
    }

    pub fn is_manufacturer(&self) -> (r: bool)
        ensures
            r == (*self is Manufacturer),
    {
        matches!(self, Self::Manufacturer(..))
    }

    pub fn as_manufacturer(&self) -> (r: &Manufacturer<A>)
        requires
            *self is Manufacturer,
        ensures
            *self == Building::Manufacturer(*r),
    {
        match self {
            Self::Manufacturer(m) => m,
            _ => {
                proof {
                    assert(false);
                }
                unreached()
            },
        }
    }

    /// This tests for the manufacturer kind, not the power generator kind.
    pub fn is_power_generator(&self) -> (r: bool)
        ensures
            r == (*self is Manufacturer),
    {
        matches!(self, Self::Manufacturer(..))
    }

    pub fn as_power_generator(&self) -> (r: &PowerGenerator<A>)
        requires
            *self is PowerGenerator,
        ensures
            *self == Building::PowerGenerator(*r),
    {
        match self {
            Self::PowerGenerator(pg) => pg,
            _ => {
                proof {
                    assert(false);
                }
                unreached()
            },
        }
    }

    /// This tests for the manufacturer kind, not the resource extractor kind.
    pub fn is_resource_extractor(&self) -> (r: bool)
        ensures
            r == (*self is Manufacturer),
    {
        matches!(self, Self::Manufacturer(..))
    }

    pub fn as_resource_extractor(&self) -> (r: &ResourceExtractor<A>)
        requires
            *self is ResourceExtractor,
        ensures
            *self == Building::ResourceExtractor(*r),
    {
        match self {
            Self::ResourceExtractor(re) => re,
            _ => {
                proof {
                    assert(false);
                }
                unreached()
            },
        }
    }

    pub fn is_item_producer(&self) -> (r: bool)
        ensures
            r == (*self is ItemProducer),
    {
        matches!(self, Self::ItemProducer(..))
    }

    pub fn as_item_producer(&self) -> (r: &ItemProducer<A>)
        requires
            *self is ItemProducer,
        ensures
            *self == Building::ItemProducer(*r),
    {
        match self {
            Self::ItemProducer(ip) => ip,
            _ => {
                proof {
                    assert(false);
                }
                unreached()
            },
        }
    }

    pub fn is_resource_well(&self) -> (r: bool)
        ensures
            r == (*self is ResourceWell),
    {
        matches!(self, Self::ResourceWell(..))
    }

    pub fn as_resource_well(&self) -> (r: &ResourceWell<A>)
        requires
            *self is ResourceWell,
        ensures
            *self == Building::ResourceWell(*r),
    {
        match self {
            Self::ResourceWell(rw) => rw,
            _ => {
                proof {
                    assert(false);
                }
                unreached()
            },
        }
    }
}

impl<A> Building<A> {
    /// The text that stands for the building: its name.
    pub fn to_string(&self) -> (r: String)
        ensures
            r@ == self.name_view(),
    {
        String::from_str(self.name())
    }
}

/// Two buildings are the same building when their keys are equal.
impl<A> PartialEq for Building<A> {
    fn eq(&self, other: &Self) -> (r: bool) {
        str_equals(self.key(), other.key())
    }
}

impl<A> vstd::std_specs::cmp::PartialEqSpecImpl for Building<A> {
    open spec fn obeys_eq_spec() -> bool {
        true
    }

    open spec fn eq_spec(&self, other: &Self) -> bool {
        self.key_view() == other.key_view()
    }
}

impl<A> Eq for Building<A> {

}

} // verus!
