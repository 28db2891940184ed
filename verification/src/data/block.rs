//! What the data generator derives from the block registry: constant and type
//! names, property collections and the properties of generated enums.
use vstd::prelude::*;

use super::naming::{
    decimal, push_decimal, shouty_snake_case, to_shouty_snake_case, to_upper_camel_case,
    upper_camel_case,
};
use super::strings::{clone_strings, texts};

verus! {

/// The name of the constant for a block: its identifier in shouty snake case.
pub fn const_block_name_from_block_name(block: &str) -> (r: String)
    ensures
        r@ == shouty_snake_case(block@),
{
    to_shouty_snake_case(block)
}

/// The name of the property struct shared by blocks derived from `name`.
pub fn property_group_name_from_derived_name(name: &str) -> (r: String)
    ensures
        r@ == upper_camel_case(name@ + "_properties"@),
{
    let mut s = String::from_str(name);
    s.append("_properties");
    to_upper_camel_case(s.as_str())
}

/// A block property under its original name, and the enum that holds its values.
pub struct PropertyVariantMapping {
    pub original_name: String,
    pub property_enum: String,
}

/// A set of property mappings and the blocks that share it.
pub struct PropertyCollectionData {
    pub variant_mappings: Vec<PropertyVariantMapping>,
    pub block_names: Vec<String>,
}

impl PropertyCollectionData {
    pub fn add_block_name(&mut self, block_name: String)
        ensures
            final(self).block_names@ == old(self).block_names@.push(block_name),
            final(self).variant_mappings@ == old(self).variant_mappings@,
    {
        self.block_names.push(block_name);
    }

    pub fn from_mappings(variant_mappings: Vec<PropertyVariantMapping>) -> (r: Self)
        ensures
            r.variant_mappings@ == variant_mappings@,
            r.block_names@.len() == 0,
    {
        Self { variant_mappings, block_names: Vec::new() }
    }

    /// The name derived from the first block of the collection.
    pub fn derive_name(&self) -> (r: String)
        requires
            self.block_names.len() > 0,
        ensures
            r@ == self.block_names@[0]@ + "_like"@,
    {
        let mut s = self.block_names[0].clone();
        s.append("_like");
        s
    }
}

/// An enum of property values, named and listed as the generator emits it.
pub struct PropertyStruct {
    pub name: String,
    pub values: Vec<String>,
}

/// A block state given by its id and the index of its shared partial state.
pub struct BlockStateRef {
    pub id: u16,
    pub state_idx: u16,
}

/// A loot entry that drops the named item.
pub struct ItemEntryStruct {
    pub name: String,
}

/// A loot entry that drops the first of its children that applies.
pub struct AlternativeEntryStruct {
    pub children: Vec<LootPoolEntryStruct>,
}

pub enum LootPoolEntryTypesStruct {
    Empty,
    Item(ItemEntryStruct),
    LootTable,
    Dynamic,
    Tag,
    Alternatives(AlternativeEntryStruct),
    Sequence,
    Group,
}

pub enum LootConditionStruct {
    Inverted,
    AnyOf,
    AllOf,
    RandomChance,
    RandomChanceWithEnchantedBonus,
    EntityProperties,
    KilledByPlayer,
    EntityScores,
    BlockStateProperty { properties: Vec<(String, String)> },
    MatchTool,
    TableBonus,
    SurvivesExplosion,
    DamageSourceProperties,
    LocationCheck,
    WeatherCheck,
    Reference,
    TimeCheck,
    ValueCheck,
    EnchantmentActiveCheck,
}

pub struct LootPoolEntryStruct {
    pub content: LootPoolEntryTypesStruct,
    pub conditions: Option<Vec<LootConditionStruct>>,
}

#[derive(PartialEq, Eq, Structural, Clone, Copy, Debug)]
pub enum LootTableTypeStruct {
    /// Nothing will be dropped
    Empty,
    /// A block will be dropped
    Block,
    /// An item will be dropped
    Chest,
}

/// The kind of a block property and the values it ranges over.
pub enum GeneratedPropertyType {
    Boolean,
    Int { min: u8, max: u8 },
    Enum { values: Vec<String> },
}

/// A block property as the registry lists it.
pub struct GeneratedProperty {
    pub hash_key: i32,
    pub enum_name: String,
    pub serialized_name: String,
    pub property_type: GeneratedPropertyType,
}

/// A block property with the name of its enum and the names of its values.
pub struct Property {
    pub enum_name: String,
    pub serialized_name: String,
    pub values: Vec<String>,
}

/// The name of the enum that holds a property's values.
pub open spec fn property_enum_name(t: GeneratedPropertyType, enum_name: Seq<char>) -> Seq<char> {
    match t {
        GeneratedPropertyType::Boolean => "boolean"@,
        GeneratedPropertyType::Int { min, max } => "integer_"@ + decimal(min as nat) + "_to_"@
            + decimal(max as nat),
        GeneratedPropertyType::Enum { .. } => enum_name,
    }
}

/// The value names of a property: `true` and `false`; `L` and each number from
/// `min` to `max`; or the listed values.
pub open spec fn property_values(t: GeneratedPropertyType) -> Seq<Seq<char>> {
    match t {
        GeneratedPropertyType::Boolean => seq!["true"@, "false"@],
        GeneratedPropertyType::Int { min, max } => Seq::new(
            if min <= max {
                (max - min + 1) as nat
            } else {
                0
            },
            |k: int| "L"@ + decimal((min + k) as nat),
        ),
        GeneratedPropertyType::Enum { values } => texts(values@),
    }
}

impl GeneratedProperty {
    pub fn to_property(&self) -> (p: Property)
        ensures
            p.enum_name@ == property_enum_name(self.property_type, self.enum_name@),
            p.serialized_name@ == self.serialized_name@,
            texts(p.values@) == property_values(self.property_type),
    {
        let enum_name = match &self.property_type {
            GeneratedPropertyType::Boolean => String::from_str("boolean"),
            GeneratedPropertyType::Int { min, max } => {
                let mut s = String::from_str("integer_");
                push_decimal(&mut s, *min);
                s.append("_to_");
                push_decimal(&mut s, *max);
                s
            },
            GeneratedPropertyType::Enum { .. } => self.enum_name.clone(),
        };
        let values = match &self.property_type {
            GeneratedPropertyType::Boolean => {
                let mut v: Vec<String> = Vec::new();
                v.push(String::from_str("true"));
                v.push(String::from_str("false"));
                assert(texts(v@) =~= seq!["true"@, "false"@]);
                v
            },
            GeneratedPropertyType::Int { min, max } => {
                let min = *min;
                let max = *max;
                let mut v: Vec<String> = Vec::new();
                if min <= max {
                    let mut i: u16 = min as u16;
                    while i <= max as u16
                        invariant
                            min <= i <= max as u16 + 1,
                            texts(v@) =~= Seq::new(
                                (i - min) as nat,
                                |k: int| "L"@ + decimal((min + k) as nat),
                            ),
                        decreases max as u16 + 1 - i,
                    {
                        let mut s = String::from_str("L");
                        push_decimal(&mut s, i as u8);
                        let ghost prev = v@;
                        let ghost text = s@;
                        v.push(s);
                        proof {
                            assert(text == "L"@ + decimal(i as nat));
                            assert(texts(v@) =~= texts(prev).push(text));
                            assert forall|k: int| 0 <= k < (i + 1 - min) implies #[trigger] texts(
                                v@,
                            )[k] == "L"@ + decimal((min + k) as nat) by {
                                if k < i - min {
                                    assert(texts(v@)[k] == texts(prev)[k]);
                                }
                            }
                        }
                        i = i + 1;
                    }
                }
                v
            },
            GeneratedPropertyType::Enum { values } => clone_strings(values),
        };
        Property { enum_name, serialized_name: self.serialized_name.clone(), values }
    }
}

} // verus!
