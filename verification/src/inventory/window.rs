//! Properties of container windows (progress bars, levels, selections) and
//! the numbers they are sent under.
use vstd::prelude::*;

verus! {

/// A kind of window property with the number it is sent under.
pub trait WindowPropertyTrait: Sized {
    /// Whether the property has a number.
    spec fn has_id(&self) -> bool;

    /// The number of the property.
    spec fn property_id(&self) -> int;

    fn to_id(self) -> (r: i16)
        requires
            self.has_id(),
        ensures
            r as int == self.property_id();
}

/// A window property and its value.
pub struct WindowProperty<T: WindowPropertyTrait> {
    pub window_property: T,
    pub value: i16,
}

impl<T: WindowPropertyTrait> WindowProperty<T> {
    pub fn new(window_property: T, value: i16) -> (r: Self)
        ensures
            r.window_property == window_property,
            r.value == value,
    {
        Self { window_property, value }
    }

    /// The property's number and its value.
    pub fn into_tuple(self) -> (r: (i16, i16))
        requires
            self.window_property.has_id(),
        ensures
            r.0 as int == self.window_property.property_id(),
            r.1 == self.value,
    {
        (self.window_property.to_id(), self.value)
    }
}

pub enum Furnace {
    FireIcon,
    MaximumFuelBurnTime,
    ProgressArrow,
    MaximumProgress,
}

pub enum EnchantmentTable {
    LevelRequirement { slot: u8 },
    EnchantmentSeed,
    EnchantmentId { slot: u8 },
    EnchantmentLevel { slot: u8 },
}

impl WindowPropertyTrait for EnchantmentTable {
    /// The level requirements come first (by slot), then the seed (3), the
    /// enchantment ids (from 4) and their levels (from 7); the numbers are
    /// computed in a byte, so a slot may not carry them past 255.
    open spec fn has_id(&self) -> bool {
        match self {
            EnchantmentTable::EnchantmentId { slot } => 4 + *slot <= 255,
            EnchantmentTable::EnchantmentLevel { slot } => 7 + *slot <= 255,
            _ => true,
        }
    }

    open spec fn property_id(&self) -> int {
        match self {
            EnchantmentTable::LevelRequirement { slot } => *slot as int,
            EnchantmentTable::EnchantmentSeed => 3,
            EnchantmentTable::EnchantmentId { slot } => 4 + *slot,
            EnchantmentTable::EnchantmentLevel { slot } => 7 + *slot,
        }
    }

    fn to_id(self) -> (r: i16) {
        let id: u8 = match self {
            EnchantmentTable::LevelRequirement { slot } => slot,
            EnchantmentTable::EnchantmentSeed => 3,
            EnchantmentTable::EnchantmentId { slot } => 4 + slot,
            EnchantmentTable::EnchantmentLevel { slot } => 7 + slot,
        };
        id as i16
    }
}

pub enum Beacon {
    PowerLevel,
    FirstPotionEffect,
    SecondPotionEffect,
}

pub enum Anvil {
    RepairCost,
}

pub enum BrewingStand {
    BrewTime,
    FuelTime,
}

pub enum Stonecutter {
    SelectedRecipe,
}

pub enum Loom {
    SelectedPattern,
}

pub enum Lectern {
    PageNumber,
}

/// A tracked value of a screen.
pub struct ScreenProperty {
    pub old_value: i32,
    pub index: u8,
    pub value: i32,
}

impl ScreenProperty {
    pub fn get(&self) -> (r: i32)
        ensures
            r == self.value,
    {
        self.value
    }

    pub fn set(&mut self, value: i32)
        ensures
            final(self).value == value,
            final(self).old_value == old(self).old_value,
            final(self).index == old(self).index,
    {
        self.value = value;
    }
}

} // verus!
