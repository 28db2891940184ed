//! A player's inventory: 36 main slots (the first 9 form the hotbar), then the
//! feet, legs, chest and head armor slots and the off hand (slots 36 to 40).
use vstd::prelude::*;

use super::equipment::EquipmentSlot;
use super::stack::{same_kind, spec_is_empty, with_count, min_u8, ItemStack, ArmorFit, AIR};

verus! {

pub const MAIN_SIZE: usize = 36;
pub const HOTBAR_SIZE: usize = 9;
pub const OFF_HAND_SLOT: usize = 40;
pub const EQUIPMENT_SIZE: usize = 5;

/// The empty stack.
pub open spec fn empty_stack() -> ItemStack {
    ItemStack { item: AIR, components: 0, max_stack_size: 64, armor: ArmorFit::Unworn, item_count: 0 }
}

pub struct PlayerInventory {
    pub main_inventory: Vec<ItemStack>,
    /// Feet, legs, chest, head and off hand, in that order.
    pub equipment: Vec<ItemStack>,
    pub selected_slot: u8,
}

/// Whether `existing` can take more items of `stack`'s kind.
pub open spec fn spec_can_stack_add_more(existing: ItemStack, stack: ItemStack) -> bool {
    !spec_is_empty(existing) && same_kind(existing, stack) && existing.max_stack_size > 1
        && existing.item_count < existing.max_stack_size
}

/// The first empty main slot from `from` on, or -1.
pub open spec fn first_empty_from(main: Seq<ItemStack>, from: int) -> int
    decreases main.len() - from,
{
    if from >= main.len() || from < 0 {
        -1
    } else if spec_is_empty(main[from]) {
        from
    } else {
        first_empty_from(main, from + 1)
    }
}

/// The first main slot from `from` on that can take more of `stack`, or -1.
pub open spec fn first_with_room_from(main: Seq<ItemStack>, stack: ItemStack, from: int) -> int
    decreases main.len() - from,
{
    if from >= main.len() || from < 0 {
        -1
    } else if spec_can_stack_add_more(main[from], stack) {
        from
    } else {
        first_with_room_from(main, stack, from + 1)
    }
}

/// The first non-empty main slot from `from` on holding `stack`'s kind, or -1.
pub open spec fn first_same_kind_from(main: Seq<ItemStack>, stack: ItemStack, from: int) -> int
    decreases main.len() - from,
{
    if from >= main.len() || from < 0 {
        -1
    } else if !spec_is_empty(main[from]) && same_kind(main[from], stack) {
        from
    } else {
        first_same_kind_from(main, stack, from + 1)
    }
}

/// A slot's stack after `stack` is added to it, and how many items are left.
pub open spec fn add_to_slot(target: ItemStack, stack: ItemStack) -> (ItemStack, u8) {
    let base = if spec_is_empty(target) {
        with_count(stack, 0)
    } else {
        target
    };
    let room = (base.max_stack_size - base.item_count) as u8;
    let moved = min_u8(stack.item_count, room);
    (with_count(base, (base.item_count + moved) as u8), (stack.item_count - moved) as u8)
}

/// Whether adding to a slot's stack stays within the slot's room.
pub open spec fn addable(target: ItemStack) -> bool {
    !spec_is_empty(target) ==> target.item_count <= target.max_stack_size
}

/// The slot that can take more of `stack`: the selected slot, then the off
/// hand, then the first main slot; -1 when none can.
pub open spec fn occupied_with_room(slots: Seq<ItemStack>, selected: int, stack: ItemStack) -> int {
    if spec_can_stack_add_more(slots[selected], stack) {
        selected
    } else if spec_can_stack_add_more(slots[OFF_HAND_SLOT as int], stack) {
        OFF_HAND_SLOT as int
    } else {
        first_with_room_from(slots.subrange(0, MAIN_SIZE as int), stack, 0)
    }
}

/// The slot that `add_stack` fills: one with room, else the first empty main
/// slot; -1 when there is none.
pub open spec fn add_target(slots: Seq<ItemStack>, selected: int, stack: ItemStack) -> int {
    let o = occupied_with_room(slots, selected, stack);
    if o == -1 {
        first_empty_from(slots.subrange(0, MAIN_SIZE as int), 0)
    } else {
        o
    }
}

/// The slots after `stack` is added to slot `t`, and how many items are left.
pub open spec fn add_at(slots: Seq<ItemStack>, t: int, stack: ItemStack) -> (Seq<ItemStack>, u8) {
    (slots.update(t, add_to_slot(slots[t], stack).0), add_to_slot(slots[t], stack).1)
}

/// The slots after `add_stack`, and how many items are left.
pub open spec fn add_stack_effect(slots: Seq<ItemStack>, selected: int, stack: ItemStack) -> (
    Seq<ItemStack>,
    u8,
) {
    let t = add_target(slots, selected, stack);
    if t == -1 {
        (slots, stack.item_count)
    } else {
        add_at(slots, t, stack)
    }
}

/// One round of `insert_stack`: into the best slot (`slot` is -1) or into `slot`.
pub open spec fn insert_round(slots: Seq<ItemStack>, selected: int, slot: i16, stack: ItemStack) -> (
    Seq<ItemStack>,
    u8,
) {
    if slot == -1 {
        add_stack_effect(slots, selected, stack)
    } else {
        add_at(slots, slot as int, stack)
    }
}

/// Rounds of `insert_stack` until the stack is empty or a round adds nothing:
/// the slots, the stack that is left and its count before the last round.
pub open spec fn insert_rounds(slots: Seq<ItemStack>, selected: int, slot: i16, stack: ItemStack) -> (
    Seq<ItemStack>,
    ItemStack,
    u8,
)
    decreases stack.item_count,
{
    let (slots2, left) = insert_round(slots, selected, slot, stack);
    let stack2 = with_count(stack, left);
    if spec_is_empty(stack2) || left >= stack.item_count {
        (slots2, stack2, stack.item_count)
    } else {
        insert_rounds(slots2, selected, slot, stack2)
    }
}

impl PlayerInventory {
    /// The slots that hold equipment: the armor, feet to head, at 36 to 39
    /// and the off hand at 40.
    pub fn build_equipment_slots() -> (r: Vec<(usize, EquipmentSlot)>)
        ensures
            r@ == seq![
                (36usize, EquipmentSlot::Feet),
                (37usize, EquipmentSlot::Legs),
                (38usize, EquipmentSlot::Chest),
                (39usize, EquipmentSlot::Head),
                (40usize, EquipmentSlot::OffHand),
            ],
    {
        let mut slots: Vec<(usize, EquipmentSlot)> = Vec::new();
        slots.push((MAIN_SIZE, EquipmentSlot::Feet));
        slots.push((MAIN_SIZE + 1, EquipmentSlot::Legs));
        slots.push((MAIN_SIZE + 2, EquipmentSlot::Chest));
        slots.push((MAIN_SIZE + 3, EquipmentSlot::Head));
        slots.push((40, EquipmentSlot::OffHand));
        assert(slots@ =~= seq![
            (36usize, EquipmentSlot::Feet),
            (37usize, EquipmentSlot::Legs),
            (38usize, EquipmentSlot::Chest),
            (39usize, EquipmentSlot::Head),
            (40usize, EquipmentSlot::OffHand),
        ]);
        slots
    }

    /// The 41 slots in order.
    pub open spec fn slots(&self) -> Seq<ItemStack> {
        self.main_inventory@ + self.equipment@
    }

    pub open spec fn wf(&self) -> bool {
        &&& self.main_inventory@.len() == MAIN_SIZE
        &&& self.equipment@.len() == EQUIPMENT_SIZE
        &&& self.selected_slot < HOTBAR_SIZE
    }

    pub fn new() -> (r: PlayerInventory)
        ensures
            r.wf(),
            r.selected_slot == 0,
            forall|i: int| 0 <= i < 41 ==> #[trigger] r.slots()[i] == empty_stack(),
    {
        let mut main_inventory: Vec<ItemStack> = Vec::new();
        let mut i: usize = 0;
        while i < MAIN_SIZE
            invariant
                i <= MAIN_SIZE,
                main_inventory@.len() == i,
                forall|k: int| 0 <= k < i ==> #[trigger] main_inventory@[k] == empty_stack(),
            decreases MAIN_SIZE - i,
        {
            main_inventory.push(ItemStack::empty());
            i = i + 1;
        }
        let mut equipment: Vec<ItemStack> = Vec::new();
        let mut j: usize = 0;
        while j < EQUIPMENT_SIZE
            invariant
                j <= EQUIPMENT_SIZE,
                equipment@.len() == j,
                forall|k: int| 0 <= k < j ==> #[trigger] equipment@[k] == empty_stack(),
            decreases EQUIPMENT_SIZE - j,
        {
            equipment.push(ItemStack::empty());
            j = j + 1;
        }
        let r = PlayerInventory { main_inventory, equipment, selected_slot: 0 };
        assert forall|i: int| 0 <= i < 41 implies #[trigger] r.slots()[i] == empty_stack() by {
            if i >= 36 {
                assert(r.slots()[i] == r.equipment@[i - 36]);
            }
        }
        r
    }

    pub fn is_valid_hotbar_index(slot: usize) -> (r: bool)
        ensures
            r == (slot < HOTBAR_SIZE),
    {
        slot < HOTBAR_SIZE
    }

    pub fn get_selected_slot(&self) -> (r: u8)
        ensures
            r == self.selected_slot,
    {
        self.selected_slot
    }

    /// Selects a hotbar slot.
    pub fn set_selected_slot(&mut self, slot: u8)
        requires
            old(self).wf(),
            slot < HOTBAR_SIZE,
        ensures
            final(self).wf(),
            final(self).selected_slot == slot,
            final(self).slots() == old(self).slots(),
            final(self).main_inventory@ == old(self).main_inventory@,
            final(self).equipment@ == old(self).equipment@,
    {
        self.selected_slot = slot;
    }

    /// The stack in the selected hotbar slot.
    pub fn held_item(&self) -> (r: ItemStack)
        requires
            self.wf(),
        ensures
            r == self.main_inventory@[self.selected_slot as int],
    {
        self.main_inventory[self.selected_slot as usize]
    }

    pub fn size(&self) -> (r: usize)
        requires
            self.wf(),
        ensures
            r == 41,
    {
        self.main_inventory.len() + self.equipment.len()
    }

    /// Whether every slot is empty.
    pub fn is_empty(&self) -> (r: bool)
        requires
            self.wf(),
        ensures
            r == forall|i: int| 0 <= i < 41 ==> #[trigger] spec_is_empty(self.slots()[i]),
    {
        let mut i: usize = 0;
        while i < MAIN_SIZE
            invariant
                self.wf(),
                i <= MAIN_SIZE,
                forall|k: int| 0 <= k < i ==> #[trigger] spec_is_empty(self.main_inventory@[k]),
            decreases MAIN_SIZE - i,
        {
            if !self.main_inventory[i].is_empty() {
                assert(self.slots()[i as int] == self.main_inventory@[i as int]);
                return false;
            }
            i = i + 1;
        }
        let mut j: usize = 0;
        while j < EQUIPMENT_SIZE
            invariant
                self.wf(),
                j <= EQUIPMENT_SIZE,
                forall|k: int| 0 <= k < MAIN_SIZE ==> #[trigger] spec_is_empty(self.main_inventory@[k]),
                forall|k: int| 0 <= k < j ==> #[trigger] spec_is_empty(self.equipment@[k]),
            decreases EQUIPMENT_SIZE - j,
        {
            if !self.equipment[j].is_empty() {
                assert(self.slots()[36 + j] == self.equipment@[j as int]);
                return false;
            }
            j = j + 1;
        }
        assert forall|i: int| 0 <= i < 41 implies #[trigger] spec_is_empty(self.slots()[i]) by {
            if i < 36 {
                assert(self.slots()[i] == self.main_inventory@[i]);
            } else {
                assert(self.slots()[i] == self.equipment@[i - 36]);
            }
        }
        true
    }

    /// The stack in a slot.
    pub fn get_stack(&self, slot: usize) -> (r: ItemStack)
        requires
            self.wf(),
            slot < 41,
        ensures
            r == self.slots()[slot as int],
    {
        if slot < MAIN_SIZE {
            self.main_inventory[slot]
        } else {
            self.equipment[slot - MAIN_SIZE]
        }
    }

    /// Puts a stack in a slot; a slot number past the off hand changes nothing.
    pub fn set_stack(&mut self, slot: usize, stack: ItemStack)
        requires
            old(self).wf(),
        ensures
            final(self).wf(),
            final(self).selected_slot == old(self).selected_slot,
            final(self).slots() == if slot < 41 {
                old(self).slots().update(slot as int, stack)
            } else {
                old(self).slots()
            },
    {
        if slot < MAIN_SIZE {
            self.main_inventory.set(slot, stack);
        } else if slot < MAIN_SIZE + EQUIPMENT_SIZE {
            self.equipment.set(slot - MAIN_SIZE, stack);
        }
        proof {
            if slot < 41 {
                assert(self.slots() =~= old(self).slots().update(slot as int, stack));
            } else {
                assert(self.slots() =~= old(self).slots());
            }
        }
    }

    /// Takes the whole stack out of a slot.
    pub fn remove_stack(&mut self, slot: usize) -> (r: ItemStack)
        requires
            old(self).wf(),
            slot < 41,
        ensures
            final(self).wf(),
            final(self).selected_slot == old(self).selected_slot,
            r == old(self).slots()[slot as int],
            final(self).slots() == old(self).slots().update(slot as int, empty_stack()),
    {
        let removed = self.get_stack(slot);
        self.set_stack(slot, ItemStack::empty());
        removed
    }

    /// Takes up to `amount` items out of a slot. A main slot gives nothing when
    /// it is empty or `amount` is 0; an armor or off-hand slot gives nothing
    /// when it is empty.
    pub fn remove_stack_specific(&mut self, slot: usize, amount: u8) -> (r: ItemStack)
        requires
            old(self).wf(),
            slot < 41,
        ensures
            final(self).wf(),
            final(self).selected_slot == old(self).selected_slot,
            ({
                let s = old(self).slots()[slot as int];
                if spec_is_empty(s) || (slot < MAIN_SIZE && amount == 0) {
                    r == empty_stack() && final(self).slots() == old(self).slots()
                } else {
                    r == with_count(s, min_u8(amount, s.item_count)) && final(self).slots()
                        == old(self).slots().update(
                        slot as int,
                        with_count(s, (s.item_count - min_u8(amount, s.item_count)) as u8),
                    )
                }
            }),
    {
        let mut s = self.get_stack(slot);
        if s.is_empty() || (slot < MAIN_SIZE && amount == 0) {
            return ItemStack::empty();
        }
        let taken = s.split(amount);
        self.set_stack(slot, s);
        taken
    }

    /// The first empty main slot, or -1.
    pub fn get_empty_slot(&self) -> (r: i16)
        requires
            self.wf(),
        ensures
            r as int == first_empty_from(self.main_inventory@, 0),
            r as int == first_empty_from(self.slots().subrange(0, MAIN_SIZE as int), 0),
    {
        proof {
            assert(self.slots().subrange(0, MAIN_SIZE as int) =~= self.main_inventory@);
        }
        let mut i: usize = 0;
        while i < MAIN_SIZE
            invariant
                self.wf(),
                i <= MAIN_SIZE,
                self.slots().subrange(0, MAIN_SIZE as int) == self.main_inventory@,
                first_empty_from(self.main_inventory@, 0) == first_empty_from(
                    self.main_inventory@,
                    i as int,
                ),
            decreases MAIN_SIZE - i,
        {
            if self.main_inventory[i].is_empty() {
                return i as i16;
            }
            i = i + 1;
        }
        -1
    }

    pub fn can_stack_add_more(&self, existing_stack: &ItemStack, stack: &ItemStack) -> (r: bool)
        ensures
            r == spec_can_stack_add_more(*existing_stack, *stack),
    {
        !existing_stack.is_empty() && existing_stack.are_items_and_components_equal(stack)
            && existing_stack.is_stackable() && existing_stack.item_count
            < existing_stack.get_max_stack_size()
    }

    pub fn get_occupied_slot_with_room_for_stack(&self, stack: &ItemStack) -> (r: i16)
        requires
            self.wf(),
        ensures
            r as int == occupied_with_room(self.slots(), self.selected_slot as int, *stack),
    {
        proof {
            assert(self.slots().subrange(0, MAIN_SIZE as int) =~= self.main_inventory@);
            assert(self.slots()[self.selected_slot as int] == self.main_inventory@[self.selected_slot as int]);
            assert(self.slots()[OFF_HAND_SLOT as int] == self.equipment@[4]);
        }
        if self.can_stack_add_more(&self.main_inventory[self.selected_slot as usize], stack) {
            self.selected_slot as i16
        } else if self.can_stack_add_more(&self.equipment[4], stack) {
            OFF_HAND_SLOT as i16
        } else {
            let mut i: usize = 0;
            while i < MAIN_SIZE
                invariant
                    self.wf(),
                    i <= MAIN_SIZE,
                    !spec_can_stack_add_more(self.main_inventory@[self.selected_slot as int], *stack),
                    !spec_can_stack_add_more(self.equipment@[4], *stack),
                    self.slots().subrange(0, MAIN_SIZE as int) == self.main_inventory@,
                    self.slots()[self.selected_slot as int] == self.main_inventory@[self.selected_slot as int],
                    self.slots()[OFF_HAND_SLOT as int] == self.equipment@[4],
                    first_with_room_from(self.main_inventory@, *stack, 0) == first_with_room_from(
                        self.main_inventory@,
                        *stack,
                        i as int,
                    ),
                decreases MAIN_SIZE - i,
            {
                if self.can_stack_add_more(&self.main_inventory[i], stack) {
                    return i as i16;
                }
                i = i + 1;
            }
            -1
        }
    }

    /// Adds `stack` to a slot and returns how many items did not fit. An empty
    /// slot first takes on the stack's kind.
    pub fn add_stack_to_slot(&mut self, slot: usize, stack: ItemStack) -> (r: usize)
        requires
            old(self).wf(),
            slot < 41,
            addable(old(self).slots()[slot as int]),
        ensures
            final(self).wf(),
            final(self).selected_slot == old(self).selected_slot,
            final(self).slots() == old(self).slots().update(
                slot as int,
                add_to_slot(old(self).slots()[slot as int], stack).0,
            ),
            r == add_to_slot(old(self).slots()[slot as int], stack).1,
    {
        let mut stack_count = stack.item_count;
        let mut self_stack = self.get_stack(slot);
        if self_stack.is_empty() {
            self_stack = stack.copy_with_count(0);
        }
        let count_left = self_stack.get_max_stack_size() - self_stack.item_count;
        let count_min = if stack_count <= count_left {
            stack_count
        } else {
            count_left
        };
        if count_min != 0 {
            stack_count = stack_count - count_min;
            self_stack.increment(count_min);
        }
        self.set_stack(slot, self_stack);
        stack_count as usize
    }

    /// Adds `stack` where it fits best and returns how many items did not fit.
    pub fn add_stack(&mut self, stack: ItemStack) -> (r: usize)
        requires
            old(self).wf(),
        ensures
            final(self).wf(),
            final(self).selected_slot == old(self).selected_slot,
            final(self).slots() == add_stack_effect(old(self).slots(), old(self).selected_slot as int, stack).0,
            r == add_stack_effect(old(self).slots(), old(self).selected_slot as int, stack).1,
            -1 <= add_target(old(self).slots(), old(self).selected_slot as int, stack) < 41,
    {
        proof {
            assert(self.slots().subrange(0, MAIN_SIZE as int) =~= self.main_inventory@);
        }
        let mut slot_index = self.get_occupied_slot_with_room_for_stack(&stack);
        proof {
            lemma_first_with_room(self.main_inventory@, stack, 0);
            lemma_first_empty(self.main_inventory@, 0);
            if slot_index != -1 {
                assert(spec_can_stack_add_more(self.slots()[slot_index as int], stack)) by {
                    if slot_index as int == OFF_HAND_SLOT as int {
                        assert(self.slots()[40] == self.equipment@[4]);
                    } else {
                        assert(self.slots()[slot_index as int] == self.main_inventory@[slot_index as int]);
                    }
                }
            }
        }
        if slot_index == -1 {
            slot_index = self.get_empty_slot();
            proof {
                if slot_index != -1 {
                    assert(self.slots()[slot_index as int] == self.main_inventory@[slot_index as int]);
                }
            }
        }
        if slot_index == -1 {
            stack.item_count as usize
        } else {
            self.add_stack_to_slot(slot_index as usize, stack)
        }
    }

    /// Rounds of adding `stack` until it is empty or a round adds nothing;
    /// returns the count before the last round.
    fn insert_rounds_exec(&mut self, slot: i16, stack: &mut ItemStack) -> (i: u8)
        requires
            old(self).wf(),
            slot == -1 || (0 <= slot < 41 && addable(old(self).slots()[slot as int])),
        ensures
            final(self).wf(),
            final(self).selected_slot == old(self).selected_slot,
            (final(self).slots(), *final(stack), i) == insert_rounds(
                old(self).slots(),
                old(self).selected_slot as int,
                slot,
                *old(stack),
            ),
        decreases old(stack).item_count,
    {
        let i = stack.item_count;
        let left = if slot == -1 {
            self.add_stack(*stack)
        } else {
            self.add_stack_to_slot(slot as usize, *stack)
        };
        stack.set_count(left as u8);
        if stack.is_empty() || stack.item_count >= i {
            return i;
        }
        self.insert_rounds_exec(slot, stack)
    }

    /// Adds `stack` (to `slot`, or where it fits best when `slot` is -1) until
    /// it is used up or nothing more fits; `stack` keeps what is left. Whether
    /// the last round added anything.
    pub fn insert_stack(&mut self, slot: i16, stack: &mut ItemStack) -> (r: bool)
        requires
            old(self).wf(),
            slot == -1 || (0 <= slot < 41 && addable(old(self).slots()[slot as int])),
        ensures
            final(self).wf(),
            final(self).selected_slot == old(self).selected_slot,
            spec_is_empty(*old(stack)) ==> !r && final(self).slots() == old(self).slots()
                && *final(stack) == *old(stack),
            !spec_is_empty(*old(stack)) ==> ({
                let (slots, left, i) = insert_rounds(
                    old(self).slots(),
                    old(self).selected_slot as int,
                    slot,
                    *old(stack),
                );
                &&& final(self).slots() == slots
                &&& *final(stack) == left
                &&& r == (left.item_count < i)
            }),
    {
        if stack.is_empty() {
            return false;
        }
        let i = self.insert_rounds_exec(slot, stack);
        stack.item_count < i
    }

    /// Adds `stack` where it fits best; see `insert_stack`.
    pub fn insert_stack_anywhere(&mut self, stack: &mut ItemStack) -> (r: bool)
        requires
            old(self).wf(),
        ensures
            final(self).wf(),
            final(self).selected_slot == old(self).selected_slot,
            spec_is_empty(*old(stack)) ==> !r && final(self).slots() == old(self).slots()
                && *final(stack) == *old(stack),
            !spec_is_empty(*old(stack)) ==> ({
                let (slots, left, i) = insert_rounds(
                    old(self).slots(),
                    old(self).selected_slot as int,
                    -1i16,
                    *old(stack),
                );
                &&& final(self).slots() == slots
                &&& *final(stack) == left
                &&& r == (left.item_count < i)
            }),
    {
        self.insert_stack(-1, stack)
    }

    /// The first non-empty main slot holding `stack`'s kind, or -1.
    pub fn get_slot_with_stack(&self, stack: &ItemStack) -> (r: i16)
        requires
            self.wf(),
        ensures
            r as int == first_same_kind_from(self.main_inventory@, *stack, 0),
    {
        let mut i: usize = 0;
        while i < MAIN_SIZE
            invariant
                self.wf(),
                i <= MAIN_SIZE,
                first_same_kind_from(self.main_inventory@, *stack, 0) == first_same_kind_from(
                    self.main_inventory@,
                    *stack,
                    i as int,
                ),
            decreases MAIN_SIZE - i,
        {
            if !self.main_inventory[i].is_empty()
                && self.main_inventory[i].are_items_and_components_equal(stack) {
                return i as i16;
            }
            i = i + 1;
        }
        -1
    }

    /// The hotbar slot to put a picked item in: the first empty one from the
    /// selected slot on (wrapping around), else the selected slot.
    pub fn get_swappable_hotbar_slot(&self) -> (r: usize)
        requires
            self.wf(),
        ensures
            r == swappable_hotbar_slot(self.main_inventory@, self.selected_slot as int),
            r < HOTBAR_SIZE,
    {
        let selected_slot = self.selected_slot as usize;
        let mut i: usize = 0;
        while i < HOTBAR_SIZE
            invariant
                self.wf(),
                selected_slot == self.selected_slot,
                i <= HOTBAR_SIZE,
                first_empty_hotbar(self.main_inventory@, self.selected_slot as int, 0)
                    == first_empty_hotbar(self.main_inventory@, self.selected_slot as int, i as int),
            decreases HOTBAR_SIZE - i,
        {
            let check_index = (i + selected_slot) % 9;
            if self.main_inventory[check_index].is_empty() {
                return check_index;
            }
            i = i + 1;
        }
        selected_slot
    }

    /// Puts `stack` in the swappable hotbar slot and selects it; what was there
    /// moves to the first empty main slot, if there is one.
    pub fn swap_stack_with_hotbar(&mut self, stack: ItemStack)
        requires
            old(self).wf(),
        ensures
            final(self).wf(),
            ({
                let sel = swappable_hotbar_slot(old(self).main_inventory@, old(self).selected_slot as int);
                let prev = old(self).slots()[sel];
                let e = first_empty_from(old(self).main_inventory@, 0);
                let moved = if !spec_is_empty(prev) && e != -1 {
                    old(self).slots().update(e, prev)
                } else {
                    old(self).slots()
                };
                &&& final(self).selected_slot == sel
                &&& final(self).slots() == moved.update(sel, stack)
            }),
    {
        let sel = self.get_swappable_hotbar_slot();
        self.set_selected_slot(sel as u8);
        proof {
            assert(self.slots()[sel as int] == self.main_inventory@[sel as int]);
            lemma_first_empty(self.main_inventory@, 0);
        }
        let current = self.main_inventory[sel];
        if !current.is_empty() {
            let empty_slot = self.get_empty_slot();
            if empty_slot != -1 {
                self.set_stack(empty_slot as usize, current);
            }
        }
        self.set_stack(sel, stack);
    }

    /// Exchanges a main slot with the swappable hotbar slot, which becomes selected.
    pub fn swap_slot_with_hotbar(&mut self, slot: usize)
        requires
            old(self).wf(),
            slot < MAIN_SIZE,
        ensures
            final(self).wf(),
            ({
                let sel = swappable_hotbar_slot(old(self).main_inventory@, old(self).selected_slot as int);
                &&& final(self).selected_slot == sel
                &&& final(self).slots() == old(self).slots().update(sel, old(self).slots()[slot as int]).update(
                    slot as int,
                    old(self).slots()[sel],
                )
            }),
    {
        let sel = self.get_swappable_hotbar_slot();
        self.set_selected_slot(sel as u8);
        let stack = self.main_inventory[sel];
        let other = self.main_inventory[slot];
        proof {
            assert(self.slots()[sel as int] == self.main_inventory@[sel as int]);
            assert(self.slots()[slot as int] == self.main_inventory@[slot as int]);
        }
        self.set_stack(sel, other);
        self.set_stack(slot, stack);
    }

    fn offer_exec(&mut self, stack: ItemStack, notify_client: bool, notes: &mut Vec<(i16, ItemStack)>) -> (dropped: Option<ItemStack>)
        requires
            old(self).wf(),
            offerable(old(self).slots(), stack) || spec_is_empty(stack),
        ensures
            final(self).wf(),
            final(self).selected_slot == old(self).selected_slot,
            ({
                let (slots, n, d) = offer_rounds(old(self).slots(), old(self).selected_slot as int, stack, notify_client);
                &&& final(self).slots() == slots
                &&& final(notes)@ == old(notes)@ + n
                &&& dropped == d
            }),
        decreases stack.item_count,
    {
        let mut stack = stack;
        if stack.is_empty() {
            assert(old(notes)@ + Seq::<(i16, ItemStack)>::empty() =~= old(notes)@);
            return None;
        }
        let mut room = self.get_occupied_slot_with_room_for_stack(&stack);
        if room == -1 {
            room = self.get_empty_slot();
        }
        proof {
            lemma_first_with_room(self.slots().subrange(0, MAIN_SIZE as int), stack, 0);
            lemma_first_empty(self.slots().subrange(0, MAIN_SIZE as int), 0);
            assert(self.slots().subrange(0, MAIN_SIZE as int) =~= self.main_inventory@);
        }
        if room == -1 {
            assert(old(notes)@ + Seq::<(i16, ItemStack)>::empty() =~= old(notes)@);
            return Some(stack);
        }
        let ghost slots0 = self.slots();
        let target = self.get_stack(room as usize);
        proof {
            let o = occupied_with_room(slots0, self.selected_slot as int, stack);
            if o == -1 {
                assert(slots0[room as int] == self.main_inventory@[room as int]);
                assert(spec_is_empty(slots0[room as int]));
            } else if o == OFF_HAND_SLOT as int {
            } else if o == self.selected_slot as int {
            } else {
                assert(slots0.subrange(0, MAIN_SIZE as int)[o] == slots0[o]);
            }
        }
        let items_fit = stack.get_max_stack_size() - target.item_count;
        let mut part = stack.split(items_fit);
        let ghost part0 = part;
        let inserted = self.insert_stack(room, &mut part);
        if inserted && notify_client {
            notes.push((room, stack));
        }
        proof {
            let n0 = if inserted && notify_client { seq![(room, stack)] } else { Seq::<(i16, ItemStack)>::empty() };
            assert(notes@ == old(notes)@ + n0);
            assert forall|i: int| 0 <= i < MAIN_SIZE && #[trigger] spec_is_empty(self.slots()[i])
                implies self.slots()[i].item_count == 0 by {
                if !spec_is_empty(part0) {
                    lemma_insert_rounds_at(slots0, self.selected_slot as int, room, part0);
                }
                if i != room as int {
                    assert(self.slots()[i] == slots0[i]);
                }
            }
        }
        let dropped = self.offer_exec(stack, notify_client, notes);
        proof {
            let n0 = if inserted && notify_client { seq![(room, stack)] } else { Seq::<(i16, ItemStack)>::empty() };
            assert(old(notes)@ + n0 + offer_rounds(self.slots(), self.selected_slot as int, stack, notify_client).1
                =~= old(notes)@ + (n0 + offer_rounds(self.slots(), self.selected_slot as int, stack, notify_client).1));
        }
        dropped
    }

    /// Offers `stack` to the inventory; see `offer_rounds`.
    pub fn offer(&mut self, stack: ItemStack, notify_client: bool) -> (r: OfferOutcome)
        requires
            old(self).wf(),
            offerable(old(self).slots(), stack) || spec_is_empty(stack),
        ensures
            final(self).wf(),
            final(self).selected_slot == old(self).selected_slot,
            ({
                let (slots, n, d) = offer_rounds(old(self).slots(), old(self).selected_slot as int, stack, notify_client);
                &&& final(self).slots() == slots
                &&& r.notifications@ == n
                &&& r.dropped == d
            }),
    {
        let mut notifications: Vec<(i16, ItemStack)> = Vec::new();
        let dropped = self.offer_exec(stack, notify_client, &mut notifications);
        assert(Seq::<(i16, ItemStack)>::empty() + offer_rounds(old(self).slots(), old(self).selected_slot as int, stack, notify_client).1
            =~= offer_rounds(old(self).slots(), old(self).selected_slot as int, stack, notify_client).1);
        OfferOutcome { notifications, dropped }
    }

    /// Offers `stack` and notifies the client of each slot that took some.
    pub fn offer_or_drop_stack(&mut self, stack: ItemStack) -> (r: OfferOutcome)
        requires
            old(self).wf(),
            offerable(old(self).slots(), stack) || spec_is_empty(stack),
        ensures
            final(self).wf(),
            final(self).selected_slot == old(self).selected_slot,
            ({
                let (slots, n, d) = offer_rounds(old(self).slots(), old(self).selected_slot as int, stack, true);
                &&& final(self).slots() == slots
                &&& r.notifications@ == n
                &&& r.dropped == d
            }),
    {
        self.offer(stack, true)
    }

    /// Empties every slot.
    pub fn clear(&mut self)
        requires
            old(self).wf(),
        ensures
            final(self).wf(),
            final(self).selected_slot == old(self).selected_slot,
            forall|i: int| 0 <= i < 41 ==> #[trigger] final(self).slots()[i] == empty_stack(),
    {
        let mut i: usize = 0;
        while i < 41
            invariant
                self.wf(),
                self.selected_slot == old(self).selected_slot,
                i <= 41,
                forall|k: int| 0 <= k < i ==> #[trigger] self.slots()[k] == empty_stack(),
            decreases 41 - i,
        {
            self.set_stack(i, ItemStack::empty());
            i = i + 1;
        }
    }
}

/// What `insert_stack` does: nothing for an empty stack, else its rounds; the
/// slots, the stack that is left and whether the last round added anything.
pub open spec fn insert_stack_effect(slots: Seq<ItemStack>, selected: int, slot: i16, stack: ItemStack) -> (
    Seq<ItemStack>,
    ItemStack,
    bool,
) {
    if spec_is_empty(stack) {
        (slots, stack, false)
    } else {
        let (s, left, i) = insert_rounds(slots, selected, slot, stack);
        (s, left, left.item_count < i)
    }
}

/// Whether offering `stack` is well defined: its kind holds at least one item
/// per stack, and empty main slots hold no items.
pub open spec fn offerable(slots: Seq<ItemStack>, stack: ItemStack) -> bool {
    &&& stack.max_stack_size > 0
    &&& forall|i: int| 0 <= i < MAIN_SIZE && #[trigger] spec_is_empty(slots[i]) ==> slots[i].item_count == 0
}

/// Offering `stack`: while items are left, as many as the best slot can take
/// are inserted there (a client is told of each slot that took some, with the
/// stack that is left); what finds no slot is dropped. The slots, the
/// notifications and the dropped stack.
pub open spec fn offer_rounds(slots: Seq<ItemStack>, selected: int, stack: ItemStack, notify: bool) -> (
    Seq<ItemStack>,
    Seq<(i16, ItemStack)>,
    Option<ItemStack>,
)
    decreases stack.item_count,
{
    if spec_is_empty(stack) {
        (slots, Seq::empty(), None)
    } else {
        let room = add_target(slots, selected, stack);
        if room == -1 {
            (slots, Seq::empty(), Some(stack))
        } else {
            let fit = (stack.max_stack_size - slots[room].item_count) as u8;
            let taken = min_u8(fit, stack.item_count);
            let part = with_count(stack, taken);
            let rest = with_count(stack, (stack.item_count - taken) as u8);
            let (slots2, _part_left, inserted) = insert_stack_effect(slots, selected, room as i16, part);
            let note = if inserted && notify {
                seq![(room as i16, rest)]
            } else {
                Seq::empty()
            };
            if taken == 0 {
                (slots2, note, None)
            } else {
                let (slots3, notes3, dropped) = offer_rounds(slots2, selected, rest, notify);
                (slots3, note + notes3, dropped)
            }
        }
    }
}

/// What offering a stack leads to outside the inventory: the slots a client is
/// told about, and the stack to drop.
pub struct OfferOutcome {
    pub notifications: Vec<(i16, ItemStack)>,
    pub dropped: Option<ItemStack>,
}

/// Inserting into slot `t` changes no other slot, keeps `t` within its room,
/// and leaves `t` holding no items when it ends empty.
pub proof fn lemma_insert_rounds_at(slots: Seq<ItemStack>, selected: int, t: i16, stack: ItemStack)
    requires
        slots.len() == 41,
        0 <= t < 41,
        addable(slots[t as int]),
        spec_is_empty(slots[t as int]) ==> slots[t as int].item_count == 0,
        stack.item != AIR,
    ensures
        ({
            let (s2, left, i) = insert_rounds(slots, selected, t, stack);
            &&& s2.len() == 41
            &&& forall|k: int| 0 <= k < 41 && k != t ==> #[trigger] s2[k] == slots[k]
            &&& addable(s2[t as int])
            &&& spec_is_empty(s2[t as int]) ==> s2[t as int].item_count == 0
            &&& left == with_count(stack, left.item_count)
        }),
    decreases stack.item_count,
{
    let (slots2, left) = insert_round(slots, selected, t, stack);
    let stack2 = with_count(stack, left);
    if !(spec_is_empty(stack2) || left >= stack.item_count) {
        lemma_insert_rounds_at(slots2, selected, t, stack2);
    }
}

/// The slot `add_stack` picks is a slot of the inventory that has room.
pub proof fn lemma_add_target(slots: Seq<ItemStack>, selected: int, stack: ItemStack)
    requires
        slots.len() == 41,
        0 <= selected < 9,
    ensures
        -1 <= add_target(slots, selected, stack) < 41,
        add_target(slots, selected, stack) != -1 ==> addable(slots[add_target(slots, selected, stack)]),
        add_target(slots, selected, stack) != -1 ==> spec_can_stack_add_more(
            slots[add_target(slots, selected, stack)],
            stack,
        ) || (add_target(slots, selected, stack) < MAIN_SIZE && spec_is_empty(
            slots[add_target(slots, selected, stack)],
        )),
{
    let main = slots.subrange(0, MAIN_SIZE as int);
    lemma_first_with_room(main, stack, 0);
    lemma_first_empty(main, 0);
    let o = occupied_with_room(slots, selected, stack);
    if o != -1 && o != selected && o != OFF_HAND_SLOT as int {
        assert(main[o] == slots[o]);
    }
    if o == -1 {
        let e = first_empty_from(main, 0);
        if e != -1 {
            assert(main[e] == slots[e]);
        }
    }
}

/// A round of inserting keeps every slot within its room and the stack's kind.
pub proof fn lemma_insert_round_keeps(slots: Seq<ItemStack>, selected: int, slot: i16, stack: ItemStack)
    requires
        slots.len() == 41,
        0 <= selected < 9,
        slot == -1 || (0 <= slot < 41 && addable(slots[slot as int])),
    ensures
        insert_round(slots, selected, slot, stack).0.len() == 41,
        slot != -1 ==> addable(insert_round(slots, selected, slot, stack).0[slot as int]),
{
    if slot == -1 {
        lemma_add_target(slots, selected, stack);
    }
}

/// The first empty hotbar slot, looking from the selected slot on (wrapping
/// around) and starting `from` steps in; -1 when there is none.
pub open spec fn first_empty_hotbar(main: Seq<ItemStack>, selected: int, from: int) -> int
    decreases HOTBAR_SIZE - from,
{
    if from >= HOTBAR_SIZE || from < 0 {
        -1
    } else if spec_is_empty(main[(from + selected) % 9]) {
        (from + selected) % 9
    } else {
        first_empty_hotbar(main, selected, from + 1)
    }
}

/// The first empty hotbar slot from the selected one on, else the selected one.
pub open spec fn swappable_hotbar_slot(main: Seq<ItemStack>, selected: int) -> int {
    let e = first_empty_hotbar(main, selected, 0);
    if e == -1 {
        selected
    } else {
        e
    }
}

/// The first empty slot found from `from` on is empty, and none before it is.
pub proof fn lemma_first_empty(main: Seq<ItemStack>, from: int)
    requires
        0 <= from <= main.len(),
    ensures
        -1 <= first_empty_from(main, from) < main.len(),
        first_empty_from(main, from) != -1 ==> from <= first_empty_from(main, from)
            && spec_is_empty(main[first_empty_from(main, from)]),
        forall|j: int|
            from <= j < main.len() && (first_empty_from(main, from) == -1 || j < first_empty_from(
                main,
                from,
            )) ==> !spec_is_empty(#[trigger] main[j]),
    decreases main.len() - from,
{
    if from < main.len() {
        lemma_first_empty(main, from + 1);
    }
}

pub proof fn lemma_first_with_room(main: Seq<ItemStack>, stack: ItemStack, from: int)
    requires
        0 <= from <= main.len(),
    ensures
        -1 <= first_with_room_from(main, stack, from) < main.len(),
        first_with_room_from(main, stack, from) != -1 ==> from <= first_with_room_from(
            main,
            stack,
            from,
        ) && spec_can_stack_add_more(main[first_with_room_from(main, stack, from)], stack),
    decreases main.len() - from,
{
    if from < main.len() {
        lemma_first_with_room(main, stack, from + 1);
    }
}

} // verus!
