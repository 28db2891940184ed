//! The player's inventory as its window lays it out: the crafting output (0),
//! the crafting grid (1 to 4), armor (5 to 8), the main inventory (9 to 35),
//! the hotbar (36 to 44) and the off hand (45). Empty slots hold nothing.
use vstd::prelude::*;

use super::click::InventoryError;
use super::stack::{ArmorFit, ItemStack};

verus! {

pub const SLOT_CRAFT_OUTPUT: usize = 0;
pub const SLOT_CRAFT_INPUT_START: usize = 1;
pub const SLOT_CRAFT_INPUT_END: usize = 4;
pub const SLOT_HELM: usize = 5;
pub const SLOT_CHEST: usize = 6;
pub const SLOT_LEG: usize = 7;
pub const SLOT_BOOT: usize = 8;
pub const SLOT_INV_START: usize = 9;
pub const SLOT_INV_END: usize = 35;
pub const SLOT_HOTBAR_START: usize = 36;
pub const SLOT_HOTBAR_END: usize = 44;
pub const SLOT_OFFHAND: usize = 45;
pub const SLOT_HOTBAR_INDEX: usize = 8;
pub const SLOT_MAX: usize = 45;

/// What a slot of the layout accepts.
#[derive(Clone, Copy, Debug, PartialEq, Eq, Structural)]
pub enum SlotCondition {
    Anything,
    Helmet,
    Chestplate,
    Leggings,
    Boots,
}

/// Whether a slot with condition `c` accepts `item`.
pub open spec fn condition_holds(c: SlotCondition, item: ItemStack) -> bool {
    match c {
        SlotCondition::Anything => true,
        SlotCondition::Helmet => item.armor == ArmorFit::Head,
        SlotCondition::Chestplate => item.armor == ArmorFit::Chest,
        SlotCondition::Leggings => item.armor == ArmorFit::Legs,
        SlotCondition::Boots => item.armor == ArmorFit::Feet,
    }
}

/// The condition of a slot of the layout.
pub open spec fn spec_slot_condition(slot: int) -> SlotCondition {
    if slot == SLOT_HELM {
        SlotCondition::Helmet
    } else if slot == SLOT_CHEST {
        SlotCondition::Chestplate
    } else if slot == SLOT_LEG {
        SlotCondition::Leggings
    } else if slot == SLOT_BOOT {
        SlotCondition::Boots
    } else {
        SlotCondition::Anything
    }
}

impl SlotCondition {
    pub fn check(&self, item: &ItemStack) -> (r: bool)
        ensures
            r == condition_holds(*self, *item),
    {
        match self {
            SlotCondition::Anything => true,
            SlotCondition::Helmet => item.armor == ArmorFit::Head,
            SlotCondition::Chestplate => item.armor == ArmorFit::Chest,
            SlotCondition::Leggings => item.armor == ArmorFit::Legs,
            SlotCondition::Boots => item.armor == ArmorFit::Feet,
        }
    }
}

/// Which slots a search looks for.
#[derive(Clone, Copy, Debug, PartialEq, Eq, Structural)]
pub enum SlotFilter {
    /// An empty slot.
    Empty,
    /// A slot holding the item.
    WithItem(u16),
    /// A slot holding the item with fewer than the given count.
    NonFullWithItem(u16, u8),
}

pub open spec fn filter_holds(f: SlotFilter, s: Option<ItemStack>) -> bool {
    match f {
        SlotFilter::Empty => s is None,
        SlotFilter::WithItem(id) => s matches Some(st) && st.item == id,
        SlotFilter::NonFullWithItem(id, max) => s matches Some(st) && st.item == id && st.item_count < max,
    }
}

fn filter_check(f: SlotFilter, s: Option<ItemStack>) -> (r: bool)
    ensures
        r == filter_holds(f, s),
{
    match f {
        SlotFilter::Empty => s.is_none(),
        SlotFilter::WithItem(id) => match s {
            Some(st) => st.item == id,
            None => false,
        },
        SlotFilter::NonFullWithItem(id, max) => match s {
            Some(st) => st.item == id && st.item_count < max,
            None => false,
        },
    }
}

/// The player's inventory in the window layout: 46 slots in order.
pub struct PlayerInventory {
    pub slots: Vec<Option<ItemStack>>,
    /// The hotbar's selected slot, 0 to 8.
    pub selected: usize,
    pub state_id: u32,
    pub total_opened_containers: i32,
}

/// The first main slot (9 to 35) from `from` on that the filter accepts, or -1.
pub open spec fn first_main(slots: Seq<Option<ItemStack>>, f: SlotFilter, from: int) -> int
    decreases SLOT_INV_END + 1 - from,
{
    if from > SLOT_INV_END || from < SLOT_INV_START {
        -1
    } else if filter_holds(f, slots[from]) {
        from
    } else {
        first_main(slots, f, from + 1)
    }
}

/// The first hotbar slot other than the selected one, from `from` on, that the
/// filter accepts, or -1.
pub open spec fn first_hotbar(slots: Seq<Option<ItemStack>>, f: SlotFilter, selected: int, from: int) -> int
    decreases SLOT_HOTBAR_END + 1 - from,
{
    if from > SLOT_HOTBAR_END || from < SLOT_HOTBAR_START {
        -1
    } else if from - SLOT_HOTBAR_START != selected && filter_holds(f, slots[from]) {
        from
    } else {
        first_hotbar(slots, f, selected, from + 1)
    }
}

/// Where a search finds a slot: the selected hotbar slot, the rest of the
/// hotbar, the main inventory, then the off hand.
pub open spec fn find_slot(slots: Seq<Option<ItemStack>>, selected: int, f: SlotFilter) -> Option<usize> {
    if filter_holds(f, slots[SLOT_HOTBAR_START + selected]) {
        Some((SLOT_HOTBAR_START + selected) as usize)
    } else if first_hotbar(slots, f, selected, SLOT_HOTBAR_START as int) != -1 {
        Some(first_hotbar(slots, f, selected, SLOT_HOTBAR_START as int) as usize)
    } else if first_main(slots, f, SLOT_INV_START as int) != -1 {
        Some(first_main(slots, f, SLOT_INV_START as int) as usize)
    } else if filter_holds(f, slots[SLOT_OFFHAND as int]) {
        Some(SLOT_OFFHAND)
    } else {
        None
    }
}

impl PlayerInventory {
    pub open spec fn wf(&self) -> bool {
        self.slots@.len() == 46 && self.selected <= SLOT_HOTBAR_INDEX
    }

    pub const CONTAINER_ID: i8 = 0;

    pub fn new() -> (r: Self)
        ensures
            r.wf(),
            forall|i: int| 0 <= i < 46 ==> #[trigger] r.slots@[i] is None,
            r.selected == 0,
            r.state_id == 0,
            r.total_opened_containers == 2,
    {
        let mut slots: Vec<Option<ItemStack>> = Vec::new();
        let mut i: usize = 0;
        while i < 46
            invariant
                i <= 46,
                slots@.len() == i,
                forall|k: int| 0 <= k < i ==> #[trigger] slots@[k] is None,
            decreases 46 - i,
        {
            slots.push(None);
            i = i + 1;
        }
        PlayerInventory { slots, selected: 0, state_id: 0, total_opened_containers: 2 }
    }

    /// The condition of a slot, or an error for a slot past the off hand.
    pub fn slot_condition(&self, slot: usize) -> (r: Result<SlotCondition, InventoryError>)
        ensures
            slot > SLOT_MAX ==> r == Err::<SlotCondition, InventoryError>(InventoryError::InvalidSlot),
            slot <= SLOT_MAX ==> r == Ok::<SlotCondition, InventoryError>(spec_slot_condition(slot as int)),
    {
        if slot > SLOT_MAX {
            return Err(InventoryError::InvalidSlot);
        }
        Ok(if slot == SLOT_HELM {
            SlotCondition::Helmet
        } else if slot == SLOT_CHEST {
            SlotCondition::Chestplate
        } else if slot == SLOT_LEG {
            SlotCondition::Leggings
        } else if slot == SLOT_BOOT {
            SlotCondition::Boots
        } else {
            SlotCondition::Anything
        })
    }

    /// Sets the contents of a slot to the optional item. With
    /// `item_allowed_override` any item goes in; otherwise an item goes in only
    /// where the slot's condition accepts it, and `None` clears the slot.
    pub fn set_slot(&mut self, slot: usize, item: Option<ItemStack>, item_allowed_override: bool) -> (r: Result<(), InventoryError>)
        requires
            old(self).wf(),
        ensures
            final(self).wf(),
            final(self).selected == old(self).selected,
            slot > SLOT_MAX ==> r == Err::<(), InventoryError>(InventoryError::InvalidSlot)
                && final(self).slots@ == old(self).slots@,
            slot <= SLOT_MAX ==> r is Ok && final(self).slots@ == if item_allowed_override {
                old(self).slots@.update(slot as int, item)
            } else if item is None || (item matches Some(it) && condition_holds(spec_slot_condition(slot as int), it)) {
                old(self).slots@.update(slot as int, item)
            } else {
                old(self).slots@
            },
    {
        if item_allowed_override {
            if slot > SLOT_MAX {
                return Err(InventoryError::InvalidSlot);
            }
            self.slots.set(slot, item);
            return Ok(());
        }
        let condition = self.slot_condition(slot)?;
        match item {
            Some(it) => {
                if condition.check(&it) {
                    self.slots.set(slot, Some(it));
                }
            },
            None => {
                self.slots.set(slot, None);
            },
        }
        Ok(())
    }

    /// The content of a slot, or an error for a slot past the off hand.
    pub fn get_slot(&self, slot: usize) -> (r: Result<Option<ItemStack>, InventoryError>)
        requires
            self.wf(),
        ensures
            slot > SLOT_MAX ==> r == Err::<Option<ItemStack>, InventoryError>(InventoryError::InvalidSlot),
            slot <= SLOT_MAX ==> r == Ok::<Option<ItemStack>, InventoryError>(self.slots@[slot as int]),
    {
        if slot > SLOT_MAX {
            Err(InventoryError::InvalidSlot)
        } else {
            Ok(self.slots[slot])
        }
    }

    pub fn set_selected(&mut self, slot: usize)
        requires
            old(self).wf(),
            slot <= SLOT_HOTBAR_INDEX,
        ensures
            final(self).wf(),
            final(self).selected == slot,
            final(self).slots@ == old(self).slots@,
    {
        self.selected = slot;
    }

    /// The window slot of the selected hotbar slot.
    pub fn get_selected_slot(&self) -> (r: usize)
        requires
            self.wf(),
        ensures
            r == SLOT_HOTBAR_START + self.selected,
    {
        self.selected + SLOT_HOTBAR_START
    }

    /// Advances the state id, wrapping after 100.
    pub fn increment_state_id(&mut self)
        ensures
            final(self).state_id == old(self).state_id % 100 + 1,
            final(self).slots@ == old(self).slots@,
            final(self).selected == old(self).selected,
    {
        self.state_id = self.state_id % 100 + 1;
    }

    /// The stack in the selected hotbar slot.
    pub fn held_item(&self) -> (r: Option<ItemStack>)
        requires
            self.wf(),
        ensures
            r == self.slots@[SLOT_HOTBAR_START + self.selected],
    {
        self.slots[self.selected + SLOT_HOTBAR_START]
    }

    /// Takes `amount` items from the held stack, clearing the slot when none
    /// are left; whether a stack was held.
    pub fn decrease_current_stack(&mut self, amount: u8) -> (r: bool)
        requires
            old(self).wf(),
            old(self).slots@[SLOT_HOTBAR_START + old(self).selected] matches Some(st) ==> amount <= st.item_count,
        ensures
            final(self).wf(),
            final(self).selected == old(self).selected,
            ({
                let i = SLOT_HOTBAR_START + old(self).selected;
                match old(self).slots@[i] {
                    None => !r && final(self).slots@ == old(self).slots@,
                    Some(st) => r && final(self).slots@ == old(self).slots@.update(
                        i,
                        if st.item_count == amount {
                            None
                        } else {
                            Some(ItemStack { item_count: (st.item_count - amount) as u8, ..st })
                        },
                    ),
                }
            }),
    {
        let i = self.selected + SLOT_HOTBAR_START;
        match self.slots[i] {
            Some(st) => {
                let mut st = st;
                st.item_count = st.item_count - amount;
                if st.item_count == 0 {
                    self.slots.set(i, None);
                } else {
                    self.slots.set(i, Some(st));
                }
                true
            },
            None => false,
        }
    }

    /// The hotbar slot (0 to 8) to put an item in: the selected one when it is
    /// empty, else the first empty one, else the selected one.
    pub fn get_empty_hotbar_slot(&self) -> (r: usize)
        requires
            self.wf(),
        ensures
            r == if self.slots@[SLOT_HOTBAR_START + self.selected] is None {
                self.selected as int
            } else if first_empty_hotbar_from(self.slots@, SLOT_HOTBAR_START as int) != -1 {
                first_empty_hotbar_from(self.slots@, SLOT_HOTBAR_START as int) - SLOT_HOTBAR_START
            } else {
                self.selected as int
            },
    {
        if self.held_item().is_none() {
            return self.selected;
        }
        let mut slot: usize = SLOT_HOTBAR_START;
        while slot <= SLOT_HOTBAR_END
            invariant
                self.wf(),
                SLOT_HOTBAR_START <= slot <= SLOT_HOTBAR_END + 1,
                self.slots@[SLOT_HOTBAR_START + self.selected] is Some,
                first_empty_hotbar_from(self.slots@, SLOT_HOTBAR_START as int) == first_empty_hotbar_from(self.slots@, slot as int),
            decreases SLOT_HOTBAR_END + 1 - slot,
        {
            if self.slots[slot].is_none() {
                return slot - SLOT_HOTBAR_START;
            }
            slot = slot + 1;
        }
        self.selected
    }

    /// The first slot the filter accepts; see `find_slot`.
    pub fn get_slot_filtered(&self, filter: SlotFilter) -> (r: Option<usize>)
        requires
            self.wf(),
        ensures
            r == find_slot(self.slots@, self.selected as int, filter),
    {
        let selected_slot = self.get_selected_slot();
        if filter_check(filter, self.slots[selected_slot]) {
            return Some(selected_slot);
        }
        let mut i: usize = SLOT_HOTBAR_START;
        while i <= SLOT_HOTBAR_END
            invariant
                self.wf(),
                SLOT_HOTBAR_START <= i <= SLOT_HOTBAR_END + 1,
                !filter_holds(filter, self.slots@[SLOT_HOTBAR_START + self.selected]),
                first_hotbar(self.slots@, filter, self.selected as int, SLOT_HOTBAR_START as int)
                    == first_hotbar(self.slots@, filter, self.selected as int, i as int),
            decreases SLOT_HOTBAR_END + 1 - i,
        {
            if i - SLOT_HOTBAR_START != self.selected && filter_check(filter, self.slots[i]) {
                return Some(i);
            }
            i = i + 1;
        }
        let mut j: usize = SLOT_INV_START;
        while j <= SLOT_INV_END
            invariant
                self.wf(),
                SLOT_INV_START <= j <= SLOT_INV_END + 1,
                !filter_holds(filter, self.slots@[SLOT_HOTBAR_START + self.selected]),
                first_hotbar(self.slots@, filter, self.selected as int, SLOT_HOTBAR_START as int) == -1,
                first_main(self.slots@, filter, SLOT_INV_START as int) == first_main(self.slots@, filter, j as int),
            decreases SLOT_INV_END + 1 - j,
        {
            if filter_check(filter, self.slots[j]) {
                return Some(j);
            }
            j = j + 1;
        }
        if filter_check(filter, self.slots[SLOT_OFFHAND]) {
            Some(SLOT_OFFHAND)
        } else {
            None
        }
    }

    /// A slot holding the item with room left below `max_stack`.
    pub fn get_nonfull_slot_with_item(&self, item_id: u16, max_stack: u8) -> (r: Option<usize>)
        requires
            self.wf(),
        ensures
            r == find_slot(self.slots@, self.selected as int, SlotFilter::NonFullWithItem(item_id, max_stack)),
    {
        self.get_slot_filtered(SlotFilter::NonFullWithItem(item_id, max_stack))
    }

    /// A slot with room for the item, else an empty slot.
    pub fn get_pickup_item_slot(&self, item_id: u16, max_stack: u8) -> (r: Option<usize>)
        requires
            self.wf(),
        ensures
            r == match find_slot(self.slots@, self.selected as int, SlotFilter::NonFullWithItem(item_id, max_stack)) {
                Some(s) => Some(s),
                None => find_slot(self.slots@, self.selected as int, SlotFilter::Empty),
            },
    {
        match self.get_nonfull_slot_with_item(item_id, max_stack) {
            Some(s) => Some(s),
            None => self.get_empty_slot(),
        }
    }

    pub fn get_slot_with_item(&self, item_id: u16) -> (r: Option<usize>)
        requires
            self.wf(),
        ensures
            r == find_slot(self.slots@, self.selected as int, SlotFilter::WithItem(item_id)),
    {
        self.get_slot_filtered(SlotFilter::WithItem(item_id))
    }

    pub fn get_empty_slot(&self) -> (r: Option<usize>)
        requires
            self.wf(),
        ensures
            r == find_slot(self.slots@, self.selected as int, SlotFilter::Empty),
    {
        self.get_slot_filtered(SlotFilter::Empty)
    }

    /// The first empty slot of the main inventory and hotbar (9 to 44), in order.
    pub fn get_empty_slot_no_order(&self) -> (r: Option<usize>)
        requires
            self.wf(),
        ensures
            r == (if first_empty_items_from(self.slots@, SLOT_INV_START as int) == -1 {
                None
            } else {
                Some(first_empty_items_from(self.slots@, SLOT_INV_START as int) as usize)
            }),
    {
        let mut i: usize = SLOT_INV_START;
        while i <= SLOT_HOTBAR_END
            invariant
                self.wf(),
                SLOT_INV_START <= i <= SLOT_HOTBAR_END + 1,
                first_empty_items_from(self.slots@, SLOT_INV_START as int) == first_empty_items_from(self.slots@, i as int),
            decreases SLOT_HOTBAR_END + 1 - i,
        {
            if self.slots[i].is_none() {
                return Some(i);
            }
            i = i + 1;
        }
        None
    }

    /// Clears the crafting output (no recipe is matched here) and tells whether
    /// the crafting grid holds anything.
    pub fn craft(&mut self) -> (r: bool)
        requires
            old(self).wf(),
        ensures
            final(self).wf(),
            final(self).selected == old(self).selected,
            final(self).slots@ == old(self).slots@.update(SLOT_CRAFT_OUTPUT as int, None),
            r == exists|i: int| SLOT_CRAFT_INPUT_START <= i <= SLOT_CRAFT_INPUT_END && #[trigger] old(self).slots@[i] is Some,
    {
        let r = self.slots[1].is_some() || self.slots[2].is_some() || self.slots[3].is_some() || self.slots[4].is_some();
        self.slots.set(SLOT_CRAFT_OUTPUT, None);
        proof {
            if r {
                if old(self).slots@[1] is Some {} else if old(self).slots@[2] is Some {} else if old(self).slots@[3] is Some {} else {
                    assert(old(self).slots@[4] is Some);
                }
            }
        }
        r
    }

    pub fn crafting_output_slot(&self) -> (r: Option<usize>)
        ensures
            r == Some(SLOT_CRAFT_OUTPUT),
    {
        Some(SLOT_CRAFT_OUTPUT)
    }

    pub fn slot_in_crafting_input_slots(&self, slot: &usize) -> (r: bool)
        ensures
            r == (SLOT_CRAFT_INPUT_START <= *slot <= SLOT_CRAFT_INPUT_END),
    {
        SLOT_CRAFT_INPUT_START <= *slot && *slot <= SLOT_CRAFT_INPUT_END
    }
}

/// The first empty hotbar slot (36 to 44) from `from` on, or -1.
pub open spec fn first_empty_hotbar_from(slots: Seq<Option<ItemStack>>, from: int) -> int
    decreases SLOT_HOTBAR_END + 1 - from,
{
    if from > SLOT_HOTBAR_END || from < SLOT_HOTBAR_START {
        -1
    } else if slots[from] is None {
        from
    } else {
        first_empty_hotbar_from(slots, from + 1)
    }
}

/// The first empty slot from `from` on among slots 9 to 44, or -1.
pub open spec fn first_empty_items_from(slots: Seq<Option<ItemStack>>, from: int) -> int
    decreases SLOT_HOTBAR_END + 1 - from,
{
    if from > SLOT_HOTBAR_END || from < SLOT_INV_START {
        -1
    } else if slots[from] is None {
        from
    } else {
        first_empty_items_from(slots, from + 1)
    }
}

} // verus!
