//! Item stacks: an item, what distinguishes it from other stacks of that item,
//! and a count.
use vstd::prelude::*;

verus! {

/// The armor slot an item can be worn in, if any.
#[derive(Clone, Copy, Debug, PartialEq, Eq, Structural)]
pub enum ArmorFit {
    Unworn,
    /// Helmets, skulls and carved pumpkins.
    Head,
    /// Chestplates and elytras.
    Chest,
    Legs,
    Feet,
    /// Worn in the off hand, such as shields.
    OffHand,
}

/// A stack of items. `item` is the item's registry id (0 is air);
/// `components` stands for the item's data components, two stacks with the
/// same item and the same number having the same components; the maximum
/// stack size and the armor slot come from the item and its components.
#[derive(Clone, Copy, Debug, PartialEq, Eq, Structural)]
pub struct ItemStack {
    pub item: u16,
    pub components: u32,
    pub max_stack_size: u8,
    pub armor: ArmorFit,
    pub item_count: u8,
}

pub const AIR: u16 = 0;

/// Whether a stack holds nothing: no items, or air.
pub open spec fn spec_is_empty(s: ItemStack) -> bool {
    s.item_count == 0 || s.item == AIR
}

/// Whether two stacks hold the same item with the same components.
pub open spec fn same_kind(a: ItemStack, b: ItemStack) -> bool {
    a.item == b.item && a.components == b.components && a.max_stack_size == b.max_stack_size
        && a.armor == b.armor
}

/// `s` with `n` items.
pub open spec fn with_count(s: ItemStack, n: u8) -> ItemStack {
    ItemStack { item_count: n, ..s }
}

pub open spec fn min_u8(a: u8, b: u8) -> u8 {
    if a <= b {
        a
    } else {
        b
    }
}

impl ItemStack {
    /// The empty stack.
    pub fn empty() -> (r: ItemStack)
        ensures
            r == (ItemStack {
                item: AIR,
                components: 0,
                max_stack_size: 64,
                armor: ArmorFit::Unworn,
                item_count: 0,
            }),
    {
        ItemStack { item: AIR, components: 0, max_stack_size: 64, armor: ArmorFit::Unworn, item_count: 0 }
    }

    pub fn is_empty(&self) -> (r: bool)
        ensures
            r == spec_is_empty(*self),
    {
        self.item_count == 0 || self.item == AIR
    }

    pub fn get_max_stack_size(&self) -> (r: u8)
        ensures
            r == self.max_stack_size,
    {
        self.max_stack_size
    }

    /// Whether more than one item fits in a stack of this item.
    pub fn is_stackable(&self) -> (r: bool)
        ensures
            r == (self.max_stack_size > 1),
    {
        self.max_stack_size > 1
    }

    pub fn are_items_and_components_equal(&self, other: &ItemStack) -> (r: bool)
        ensures
            r == same_kind(*self, *other),
    {
        self.item == other.item && self.components == other.components && self.max_stack_size
            == other.max_stack_size && self.armor == other.armor
    }

    /// Whether the stacks are the same in every respect.
    pub fn are_equal(&self, other: &ItemStack) -> (r: bool)
        ensures
            r == (*self == *other),
    {
        self.are_items_and_components_equal(other) && self.item_count == other.item_count
    }

    pub fn copy_with_count(&self, count: u8) -> (r: ItemStack)
        ensures
            r == with_count(*self, count),
    {
        ItemStack { item_count: count, ..*self }
    }

    pub fn set_count(&mut self, count: u8)
        ensures
            *final(self) == with_count(*old(self), count),
    {
        self.item_count = count;
    }

    pub fn increment(&mut self, amount: u8)
        requires
            old(self).item_count + amount <= u8::MAX,
        ensures
            *final(self) == with_count(*old(self), (old(self).item_count + amount) as u8),
    {
        self.item_count = self.item_count + amount;
    }

    /// Removes up to `amount` items.
    pub fn decrement(&mut self, amount: u8)
        ensures
            *final(self) == with_count(
                *old(self),
                if old(self).item_count >= amount {
                    (old(self).item_count - amount) as u8
                } else {
                    0
                },
            ),
    {
        self.item_count = if self.item_count >= amount {
            self.item_count - amount
        } else {
            0
        };
    }

    /// Takes up to `amount` items off the stack into a new stack.
    pub fn split(&mut self, amount: u8) -> (r: ItemStack)
        ensures
            r == with_count(*old(self), min_u8(amount, old(self).item_count)),
            *final(self) == with_count(
                *old(self),
                (old(self).item_count - min_u8(amount, old(self).item_count)) as u8,
            ),
            r.item_count + final(self).item_count == old(self).item_count,
    {
        let taken = if amount <= self.item_count {
            amount
        } else {
            self.item_count
        };
        let r = self.copy_with_count(taken);
        self.item_count = self.item_count - taken;
        r
    }
}

} // verus!
