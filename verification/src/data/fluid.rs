//! What the data generator derives from the fluid registry.
use vstd::prelude::*;

use super::naming::{shouty_snake_case, to_shouty_snake_case, to_upper_camel_case, upper_camel_case};

verus! {

/// The name of the constant for a fluid: its identifier in shouty snake case.
pub fn const_fluid_name_from_fluid_name(fluid: &str) -> (r: String)
    ensures
        r@ == shouty_snake_case(fluid@),
{
    to_shouty_snake_case(fluid)
}

/// The name of the property struct shared by fluids derived from `name`.
pub fn property_group_name_from_derived_name(name: &str) -> (r: String)
    ensures
        r@ == upper_camel_case(name@ + "_fluid_properties"@),
{
    let mut s = String::from_str(name);
    s.append("_fluid_properties");
    to_upper_camel_case(s.as_str())
}

/// A fluid property under its original name, and the enum that holds its values.
pub struct PropertyVariantMapping {
    pub original_name: String,
    pub property_enum: String,
}

/// A set of property mappings and the fluids that share it.
pub struct PropertyCollectionData {
    pub variant_mappings: Vec<PropertyVariantMapping>,
    pub fluid_names: Vec<String>,
}

impl PropertyCollectionData {
    pub fn add_fluid_name(&mut self, fluid_name: String)
        ensures
            final(self).fluid_names@ == old(self).fluid_names@.push(fluid_name),
            final(self).variant_mappings@ == old(self).variant_mappings@,
    {
        self.fluid_names.push(fluid_name);
    }

    pub fn from_mappings(variant_mappings: Vec<PropertyVariantMapping>) -> (r: Self)
        ensures
            r.variant_mappings@ == variant_mappings@,
            r.fluid_names@.len() == 0,
    {
        Self { variant_mappings, fluid_names: Vec::new() }
    }

    /// The name derived from the first fluid of the collection.
    pub fn derive_name(&self) -> (r: String)
        requires
            self.fluid_names.len() > 0,
        ensures
            r@ == self.fluid_names@[0]@ + "_like"@,
    {
        let mut s = self.fluid_names[0].clone();
        s.append("_like");
        s
    }
}

/// An enum of fluid property values.
pub struct PropertyStruct {
    pub name: String,
    pub values: Vec<String>,
}

/// How often a fluid spreads when the registry gives no value: water's speed.
pub fn default_flow_speed() -> (r: u32)
    ensures
        r == 5,
{
    5
}

/// How far a fluid spreads when the registry gives no value: water's distance.
pub fn default_flow_distance() -> (r: u32)
    ensures
        r == 4,
{
    4
}

} // verus!
