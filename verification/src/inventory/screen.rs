//! A container window: its slots, each showing one inventory stack, the stack
//! on the cursor, and the moves a click makes between them.
use vstd::prelude::*;

use super::stack::{min_u8, same_kind, spec_is_empty, with_count, ArmorFit, ItemStack};
use super::player_inventory::{empty_stack, PlayerInventory};
use super::crafting::{min_filled_count, recipe_wf, CraftingRecipeTypes};

verus! {

/// What a slot accepts and how much of it.
#[derive(Clone, Copy, Debug, PartialEq, Eq, Structural)]
pub enum SlotKind {
    /// Any item, up to the inventory's limit per stack.
    Normal { max_count: u8 },
    /// One item that can be worn in the given place.
    Armor { fit: ArmorFit },
    /// The crafting result: it takes nothing in and hands out its whole
    /// stack; taking it uses one item of every stack of the window's crafting
    /// grid, and it then shows what the grid makes.
    Result,
}

/// The windows whose shift-clicks follow their own routes. Where a window's
/// slot 0 is a result slot (`SlotKind::Result`), the window's first stack is
/// the crafting result and the stacks after it are the crafting grid, row by
/// row, shown by slots 1 on.
#[derive(Clone, Copy, Debug, PartialEq, Eq, Structural)]
pub enum ScreenKind {
    /// The player's own window: result, 2 by 2 grid, armor, inventory, off
    /// hand.
    Player,
    /// A crafting table: result, 3 by 3 grid, then the player's inventory.
    CraftingTable,
}

/// The side of the crafting grid of a window of this kind.
pub open spec fn grid_side(kind: ScreenKind) -> usize {
    match kind {
        ScreenKind::Player => 2,
        ScreenKind::CraftingTable => 3,
    }
}

/// The number of slots of the crafting grid of a window of this kind.
pub open spec fn grid_len(kind: ScreenKind) -> int {
    match kind {
        ScreenKind::Player => 4,
        ScreenKind::CraftingTable => 9,
    }
}

/// A slot of a window: the stack it shows and what it accepts.
#[derive(Clone, Copy, Debug, PartialEq, Eq, Structural)]
pub struct SlotRule {
    pub stack_index: usize,
    pub kind: SlotKind,
}

/// The most items the slot holds of any stack.
pub open spec fn kind_max(kind: SlotKind) -> u8 {
    match kind {
        SlotKind::Normal { max_count } => max_count,
        SlotKind::Armor { .. } => 1,
        SlotKind::Result => 255,
    }
}

/// The most items the slot holds of `stack`'s kind.
pub open spec fn max_for(kind: SlotKind, stack: ItemStack) -> u8 {
    min_u8(kind_max(kind), stack.max_stack_size)
}

/// The crafting grid of a window of this kind: its stacks after the first.
pub open spec fn grid_stacks(kind: ScreenKind, stacks: Seq<ItemStack>) -> Seq<ItemStack> {
    stacks.subrange(1, 1 + grid_len(kind))
}

/// The most items a slot holds: the result slot as many as the smallest stack
/// of the crafting grid, any other by its kind.
pub open spec fn slot_max(window: ScreenKind, stacks: Seq<ItemStack>, kind: SlotKind) -> u8 {
    match kind {
        SlotKind::Result => min_filled_count(grid_stacks(window, stacks), grid_len(window)),
        _ => kind_max(kind),
    }
}

/// Whether the slot accepts `stack`: armor slots take what is worn there.
pub open spec fn accepts(kind: SlotKind, stack: ItemStack) -> bool {
    match kind {
        SlotKind::Normal { .. } => true,
        SlotKind::Armor { fit } => match fit {
            ArmorFit::Head | ArmorFit::Chest | ArmorFit::Legs | ArmorFit::Feet => stack.armor == fit,
            _ => true,
        },
        SlotKind::Result => false,
    }
}

/// A window's state: the window's own stacks and the viewing player's
/// inventory (whose stacks follow the window's own in slot numbering), the
/// slots, the cursor stack and the slots of a drag in progress.
pub struct ScreenState {
    /// Which window this is; it decides where shift-clicks move stacks.
    pub kind: ScreenKind,
    pub own: Vec<ItemStack>,
    pub player: PlayerInventory,
    pub slots: Vec<SlotRule>,
    pub cursor: ItemStack,
    pub drag_slots: Vec<u32>,
    /// The revision of the window's contents, from 0 to 32767.
    pub revision: u32,
    /// The recipes a result slot matches its grid against, in the order
    /// they are tried.
    pub recipes: Vec<CraftingRecipeTypes>,
    /// The index of the recipe the result slot last matched, which it tries
    /// first.
    pub recipe_cache: Option<usize>,
}

/// What removing up to `amount` items from a stack leaves and gives: nothing
/// from an empty stack or for 0 items, else a split.
pub open spec fn take_effect(s: ItemStack, amount: u8) -> (ItemStack, ItemStack) {
    if spec_is_empty(s) || amount == 0 {
        (s, empty_stack())
    } else {
        (
            with_count(s, (s.item_count - min_u8(amount, s.item_count)) as u8),
            with_count(s, min_u8(amount, s.item_count)),
        )
    }
}

/// Taking between `min` and `max` items from a slot's stack: the stack left in
/// the slot and what was taken. A slot whose stack it does not accept gives
/// nothing when it holds more than `max`.
pub open spec fn try_take_effect(kind: SlotKind, s: ItemStack, min: u8, max: u8) -> (ItemStack, Option<ItemStack>) {
    if !accepts(kind, s) && s.item_count > max {
        (s, None)
    } else {
        let (left, taken) = take_effect(s, min_u8(min, max));
        if spec_is_empty(taken) {
            (left, None)
        } else if spec_is_empty(left) {
            (empty_stack(), Some(taken))
        } else {
            (left, Some(taken))
        }
    }
}

/// Inserting up to `count` items of `stack` into a slot's stack `s`: the
/// slot's stack and what is left of `stack`.
pub open spec fn insert_count_effect(kind: SlotKind, s: ItemStack, stack: ItemStack, count: u8) -> (ItemStack, ItemStack) {
    if spec_is_empty(stack) || !accepts(kind, stack) {
        (s, stack)
    } else {
        let m = min_u8(min_u8(count, stack.item_count), (max_for(kind, stack) - s.item_count) as u8);
        if m == 0 {
            (s, stack)
        } else if spec_is_empty(s) {
            (with_count(stack, m), with_count(stack, (stack.item_count - m) as u8))
        } else if same_kind(stack, s) {
            (with_count(s, (s.item_count + m) as u8), with_count(stack, (stack.item_count - m) as u8))
        } else {
            (s, stack)
        }
    }
}

/// Whether inserting `stack` into a slot's stack `s` stays within the slot's room.
pub open spec fn insertable(kind: SlotKind, s: ItemStack, stack: ItemStack) -> bool {
    !spec_is_empty(stack) && accepts(kind, stack) ==> s.item_count <= max_for(kind, stack)
}

/// The `k`-th slot visited in `start..end`, from the front or from the back.
pub open spec fn visit(start: int, end: int, from_last: bool, k: int) -> int {
    if from_last {
        end - 1 - k
    } else {
        start + k
    }
}

/// The stacks after slot `i` (by its rule) shows `v`.
pub open spec fn put(stacks: Seq<ItemStack>, rules: Seq<SlotRule>, i: int, v: ItemStack) -> Seq<ItemStack> {
    stacks.update(rules[i].stack_index as int, v)
}

/// The first pass of `insert_item` from the `k`-th visited slot on: items of
/// `stack` are added to slots holding its kind, up to their room.
pub open spec fn merge_pass(
    stacks: Seq<ItemStack>,
    rules: Seq<SlotRule>,
    stack: ItemStack,
    start: int,
    end: int,
    from_last: bool,
    k: int,
    success: bool,
) -> (Seq<ItemStack>, ItemStack, bool)
    decreases end - start - k,
{
    if k < 0 || k >= end - start || spec_is_empty(stack) {
        (stacks, stack, success)
    } else {
        let i = visit(start, end, from_last, k);
        let s = stacks[rules[i].stack_index as int];
        let m = max_for(rules[i].kind, s);
        if !spec_is_empty(s) && same_kind(s, stack) && s.item_count + stack.item_count <= m {
            merge_pass(
                put(stacks, rules, i, with_count(s, (s.item_count + stack.item_count) as u8)),
                rules,
                with_count(stack, 0),
                start,
                end,
                from_last,
                k + 1,
                true,
            )
        } else if !spec_is_empty(s) && same_kind(s, stack) && s.item_count < m {
            merge_pass(
                put(stacks, rules, i, with_count(s, m)),
                rules,
                with_count(stack, (stack.item_count - (m - s.item_count)) as u8),
                start,
                end,
                from_last,
                k + 1,
                true,
            )
        } else {
            merge_pass(stacks, rules, stack, start, end, from_last, k + 1, success)
        }
    }
}

/// The second pass of `insert_item` from the `k`-th visited slot on: the rest
/// of `stack`, up to the slot's room, goes to the first empty slot that accepts it.
pub open spec fn place_pass(
    stacks: Seq<ItemStack>,
    rules: Seq<SlotRule>,
    stack: ItemStack,
    start: int,
    end: int,
    from_last: bool,
    k: int,
) -> (Seq<ItemStack>, ItemStack, bool)
    decreases end - start - k,
{
    if k < 0 || k >= end - start {
        (stacks, stack, false)
    } else {
        let i = visit(start, end, from_last, k);
        let s = stacks[rules[i].stack_index as int];
        if spec_is_empty(s) && accepts(rules[i].kind, stack) {
            let taken = min_u8(max_for(rules[i].kind, stack), stack.item_count);
            (
                put(stacks, rules, i, with_count(stack, taken)),
                with_count(stack, (stack.item_count - taken) as u8),
                true,
            )
        } else {
            place_pass(stacks, rules, stack, start, end, from_last, k + 1)
        }
    }
}

/// The first pass of `insert_item`, taken only for stackable items.
pub open spec fn insert_item_first(
    stacks: Seq<ItemStack>,
    rules: Seq<SlotRule>,
    stack: ItemStack,
    start: int,
    end: int,
    from_last: bool,
) -> (Seq<ItemStack>, ItemStack, bool) {
    if stack.max_stack_size > 1 {
        merge_pass(stacks, rules, stack, start, end, from_last, 0, false)
    } else {
        (stacks, stack, false)
    }
}

/// What `insert_item` does: the stacks, what is left of `stack`, and whether
/// any items moved.
pub open spec fn insert_item_effect(
    stacks: Seq<ItemStack>,
    rules: Seq<SlotRule>,
    stack: ItemStack,
    start: int,
    end: int,
    from_last: bool,
) -> (Seq<ItemStack>, ItemStack, bool) {
    let (s1, st1, ok1) = if stack.max_stack_size > 1 {
        merge_pass(stacks, rules, stack, start, end, from_last, 0, false)
    } else {
        (stacks, stack, false)
    };
    if spec_is_empty(st1) {
        (s1, st1, ok1)
    } else {
        let (s2, st2, ok2) = place_pass(s1, rules, st1, start, end, from_last, 0);
        (s2, st2, ok1 || ok2)
    }
}

/// A pass that reports no move changed nothing.
pub proof fn lemma_merge_pass_unchanged(
    stacks: Seq<ItemStack>,
    rules: Seq<SlotRule>,
    stack: ItemStack,
    start: int,
    end: int,
    from_last: bool,
    k: int,
)
    ensures
        !merge_pass(stacks, rules, stack, start, end, from_last, k, false).2 ==> merge_pass(
            stacks,
            rules,
            stack,
            start,
            end,
            from_last,
            k,
            false,
        ).0 == stacks && merge_pass(stacks, rules, stack, start, end, from_last, k, false).1 == stack,
        merge_pass(stacks, rules, stack, start, end, from_last, k, true).2,
    decreases end - start - k,
{
    if !(k < 0 || k >= end - start || spec_is_empty(stack)) {
        let i = visit(start, end, from_last, k);
        let s = stacks[rules[i].stack_index as int];
        let m = max_for(rules[i].kind, s);
        if !spec_is_empty(s) && same_kind(s, stack) && s.item_count + stack.item_count <= m {
            lemma_merge_pass_unchanged(put(stacks, rules, i, with_count(s, (s.item_count + stack.item_count) as u8)), rules, with_count(stack, 0), start, end, from_last, k + 1);
        } else if !spec_is_empty(s) && same_kind(s, stack) && s.item_count < m {
            lemma_merge_pass_unchanged(put(stacks, rules, i, with_count(s, m)), rules, with_count(stack, (stack.item_count - (m - s.item_count)) as u8), start, end, from_last, k + 1);
        } else {
            lemma_merge_pass_unchanged(stacks, rules, stack, start, end, from_last, k + 1);
        }
    }
}

/// A placing pass that reports no move changed nothing.
pub proof fn lemma_place_pass_unchanged(
    stacks: Seq<ItemStack>,
    rules: Seq<SlotRule>,
    stack: ItemStack,
    start: int,
    end: int,
    from_last: bool,
    k: int,
)
    ensures
        !place_pass(stacks, rules, stack, start, end, from_last, k).2 ==> place_pass(
            stacks,
            rules,
            stack,
            start,
            end,
            from_last,
            k,
        ).0 == stacks && place_pass(stacks, rules, stack, start, end, from_last, k).1 == stack,
    decreases end - start - k,
{
    if !(k < 0 || k >= end - start) {
        lemma_place_pass_unchanged(stacks, rules, stack, start, end, from_last, k + 1);
    }
}

/// The passes only take items from the stack they move.
pub proof fn lemma_passes_shrink(
    stacks: Seq<ItemStack>,
    rules: Seq<SlotRule>,
    stack: ItemStack,
    start: int,
    end: int,
    from_last: bool,
    k: int,
    success: bool,
)
    ensures
        merge_pass(stacks, rules, stack, start, end, from_last, k, success).1 == with_count(
            stack,
            merge_pass(stacks, rules, stack, start, end, from_last, k, success).1.item_count,
        ),
        merge_pass(stacks, rules, stack, start, end, from_last, k, success).1.item_count
            <= stack.item_count,
        place_pass(stacks, rules, stack, start, end, from_last, k).1 == with_count(
            stack,
            place_pass(stacks, rules, stack, start, end, from_last, k).1.item_count,
        ),
        place_pass(stacks, rules, stack, start, end, from_last, k).1.item_count <= stack.item_count,
    decreases end - start - k,
{
    if !(k < 0 || k >= end - start) {
        lemma_passes_shrink(stacks, rules, stack, start, end, from_last, k + 1, success);
        if !spec_is_empty(stack) {
            let i = visit(start, end, from_last, k);
            let s = stacks[rules[i].stack_index as int];
            let m = max_for(rules[i].kind, s);
            if !spec_is_empty(s) && same_kind(s, stack) && s.item_count + stack.item_count <= m {
                lemma_passes_shrink(put(stacks, rules, i, with_count(s, (s.item_count + stack.item_count) as u8)), rules, with_count(stack, 0), start, end, from_last, k + 1, true);
            } else if !spec_is_empty(s) && same_kind(s, stack) && s.item_count < m {
                lemma_passes_shrink(put(stacks, rules, i, with_count(s, m)), rules, with_count(stack, (stack.item_count - (m - s.item_count)) as u8), start, end, from_last, k + 1, true);
            }
        }
    }
}

/// What `insert_item` leaves of the stack is the same kind, and no more.
pub proof fn lemma_insert_item_shrinks(
    stacks: Seq<ItemStack>,
    rules: Seq<SlotRule>,
    stack: ItemStack,
    start: int,
    end: int,
    from_last: bool,
)
    ensures
        insert_item_effect(stacks, rules, stack, start, end, from_last).1 == with_count(
            stack,
            insert_item_effect(stacks, rules, stack, start, end, from_last).1.item_count,
        ),
        insert_item_effect(stacks, rules, stack, start, end, from_last).1.item_count
            <= stack.item_count,
{
    lemma_passes_shrink(stacks, rules, stack, start, end, from_last, 0, false);
    let (s1, st1, ok1) = insert_item_first(stacks, rules, stack, start, end, from_last);
    lemma_passes_shrink(s1, rules, st1, start, end, from_last, 0, false);
}

/// The passes keep the number of stacks.
pub proof fn lemma_passes_len(
    stacks: Seq<ItemStack>,
    rules: Seq<SlotRule>,
    stack: ItemStack,
    start: int,
    end: int,
    from_last: bool,
    k: int,
    success: bool,
)
    requires
        forall|i: int| 0 <= i < rules.len() ==> #[trigger] rules[i].stack_index < stacks.len(),
        start >= end || (0 <= start && end <= rules.len()),
    ensures
        merge_pass(stacks, rules, stack, start, end, from_last, k, success).0.len() == stacks.len(),
        place_pass(stacks, rules, stack, start, end, from_last, k).0.len() == stacks.len(),
    decreases end - start - k,
{
    if !(k < 0 || k >= end - start) {
        lemma_passes_len(stacks, rules, stack, start, end, from_last, k + 1, success);
        let i = visit(start, end, from_last, k);
        assert(rules[i].stack_index < stacks.len());
        if !spec_is_empty(stack) {
            let s = stacks[rules[i].stack_index as int];
            let m = max_for(rules[i].kind, s);
            if !spec_is_empty(s) && same_kind(s, stack) && s.item_count + stack.item_count <= m {
                lemma_passes_len(put(stacks, rules, i, with_count(s, (s.item_count + stack.item_count) as u8)), rules, with_count(stack, 0), start, end, from_last, k + 1, true);
            } else if !spec_is_empty(s) && same_kind(s, stack) && s.item_count < m {
                lemma_passes_len(put(stacks, rules, i, with_count(s, m)), rules, with_count(stack, (stack.item_count - (m - s.item_count)) as u8), start, end, from_last, k + 1, true);
            }
        }
    }
}

/// `insert_item` keeps the number of stacks.
pub proof fn lemma_insert_item_len(
    stacks: Seq<ItemStack>,
    rules: Seq<SlotRule>,
    stack: ItemStack,
    start: int,
    end: int,
    from_last: bool,
)
    requires
        forall|i: int| 0 <= i < rules.len() ==> #[trigger] rules[i].stack_index < stacks.len(),
        start >= end || (0 <= start && end <= rules.len()),
    ensures
        insert_item_effect(stacks, rules, stack, start, end, from_last).0.len() == stacks.len(),
{
    lemma_passes_len(stacks, rules, stack, start, end, from_last, 0, false);
    let (s1, st1, ok1) = insert_item_first(stacks, rules, stack, start, end, from_last);
    lemma_passes_len(s1, rules, st1, start, end, from_last, 0, false);
}

/// When `insert_item` reports that nothing moved, nothing changed.
pub proof fn lemma_insert_item_unchanged(
    stacks: Seq<ItemStack>,
    rules: Seq<SlotRule>,
    stack: ItemStack,
    start: int,
    end: int,
    from_last: bool,
)
    ensures
        !insert_item_effect(stacks, rules, stack, start, end, from_last).2 ==> insert_item_effect(
            stacks,
            rules,
            stack,
            start,
            end,
            from_last,
        ).0 == stacks && insert_item_effect(stacks, rules, stack, start, end, from_last).1 == stack,
{
    lemma_merge_pass_unchanged(stacks, rules, stack, start, end, from_last, 0);
    let (s1, st1, ok1) = insert_item_first(stacks, rules, stack, start, end, from_last);
    lemma_place_pass_unchanged(s1, rules, st1, start, end, from_last, 0);
}

impl ScreenState {
    /// Every stack the window shows: its own, then the player's 41.
    pub open spec fn stacks(&self) -> Seq<ItemStack> {
        self.own@ + self.player.slots()
    }

    pub open spec fn wf(&self) -> bool {
        &&& self.player.wf()
        &&& forall|i: int| 0 <= i < self.slots@.len() ==> #[trigger] self.slots@[i].stack_index < self.own@.len() + 41
        &&& forall|i: int| 0 <= i < self.recipes@.len() ==> recipe_wf(#[trigger] self.recipes@[i])
    }

    /// The stack slot `i` shows.
    pub open spec fn slot_stack(&self, i: int) -> ItemStack {
        self.stacks()[self.slots@[i].stack_index as int]
    }

    /// The stacks after slot `i` shows `v`.
    pub open spec fn with_slot(&self, i: int, v: ItemStack) -> Seq<ItemStack> {
        self.stacks().update(self.slots@[i].stack_index as int, v)
    }

    /// Advances the revision and returns it: one more than before, kept
    /// within 15 bits.
    pub fn next_revision(&mut self) -> (r: u32)
        ensures
            final(self).kind == old(self).kind,
            final(self).recipes@ == old(self).recipes@,
            final(self).recipe_cache == old(self).recipe_cache,
            r == (if old(self).revision == u32::MAX { 0 } else { old(self).revision + 1 }) % 32768,
            final(self).revision == r,
            final(self).view() == old(self).view(),
    {
        let next = self.revision.wrapping_add(1);
        let r = next & 32767;
        assert(next & 32767 == next % 32768) by (bit_vector);
        self.revision = r;
        r
    }

    /// The stack slot `slot` shows.
    pub fn get_stack(&self, slot: usize) -> (r: ItemStack)
        requires
            self.wf(),
            slot < self.slots@.len(),
        ensures
            r == self.slot_stack(slot as int),
    {
        let index = self.slots[slot].stack_index;
        if index < self.own.len() {
            self.own[index]
        } else {
            self.player.get_stack(index - self.own.len())
        }
    }

    /// Puts `stack` in the slot.
    pub fn set_stack(&mut self, slot: usize, stack: ItemStack)
        requires
            old(self).wf(),
            slot < old(self).slots@.len(),
        ensures
            final(self).kind == old(self).kind,
            final(self).recipes@ == old(self).recipes@,
            final(self).recipe_cache == old(self).recipe_cache,
            final(self).revision == old(self).revision,
            final(self).wf(),
            final(self).slots@ == old(self).slots@,
            final(self).own@.len() == old(self).own@.len(),
            final(self).player.selected_slot == old(self).player.selected_slot,
            final(self).stacks() == old(self).with_slot(slot as int, stack),
            final(self).cursor == old(self).cursor,
            final(self).drag_slots@ == old(self).drag_slots@,
            final(self).own@.len() == old(self).own@.len(),
            final(self).player.selected_slot == old(self).player.selected_slot,
    {
        let index = self.slots[slot].stack_index;
        if index < self.own.len() {
            self.own.set(index, stack);
        } else {
            self.player.set_stack(index - self.own.len(), stack);
        }
        assert(self.stacks() =~= old(self).with_slot(slot as int, stack));
    }

    /// The most items the slot holds: for the result, the smallest count in
    /// the crafting grid (how many times the result can be taken), or 255.
    pub fn get_max_item_count(&self, slot: usize) -> (r: u8)
        requires
            self.wf(),
            slot < self.slots@.len(),
        ensures
            r == slot_max(self.kind, self.stacks(), self.slots@[slot as int].kind),
    {
        match self.slots[slot].kind {
            SlotKind::Result => self.grid_min_count(),
            _ => self.kind_max_count(slot),
        }
    }

    /// The smallest count among the crafting grid's stacks that are not
    /// empty, or 255.
    fn grid_min_count(&self) -> (r: u8)
        requires
            self.wf(),
        ensures
            r == min_filled_count(grid_stacks(self.kind, self.stacks()), grid_len(self.kind)),
    {
        let n: usize = if self.kind == ScreenKind::Player { 4 } else { 9 };
        let ghost g = grid_stacks(self.kind, self.stacks());
        let mut count: u8 = 255;
        let mut i: usize = 0;
        while i < n
            invariant
                self.wf(),
                n == grid_len(self.kind),
                g == grid_stacks(self.kind, self.stacks()),
                i <= n,
                count == min_filled_count(g, i as int),
            decreases n - i,
        {
            let stack = self.stack_at(i + 1);
            assert(stack == g[i as int]);
            if !stack.is_empty() {
                count = if stack.item_count < count { stack.item_count } else { count };
            }
            i = i + 1;
        }
        count
    }

    /// The stack at place `index` of the window's stacks.
    pub fn stack_at(&self, index: usize) -> (r: ItemStack)
        requires
            self.wf(),
            index < self.own@.len() + 41,
        ensures
            r == self.stacks()[index as int],
    {
        if index < self.own.len() {
            self.own[index]
        } else {
            self.player.get_stack(index - self.own.len())
        }
    }

    /// Puts `stack` at place `index` of the window's stacks.
    pub fn set_stack_at(&mut self, index: usize, stack: ItemStack)
        requires
            old(self).wf(),
            index < old(self).own@.len() + 41,
        ensures
            final(self).kind == old(self).kind,
            final(self).recipes@ == old(self).recipes@,
            final(self).recipe_cache == old(self).recipe_cache,
            final(self).revision == old(self).revision,
            final(self).wf(),
            final(self).slots@ == old(self).slots@,
            final(self).own@.len() == old(self).own@.len(),
            final(self).player.selected_slot == old(self).player.selected_slot,
            final(self).stacks() == old(self).stacks().update(index as int, stack),
            final(self).cursor == old(self).cursor,
            final(self).drag_slots@ == old(self).drag_slots@,
    {
        if index < self.own.len() {
            self.own.set(index, stack);
        } else {
            self.player.set_stack(index - self.own.len(), stack);
        }
        assert(self.stacks() =~= old(self).stacks().update(index as int, stack));
    }

    fn kind_max_count(&self, slot: usize) -> (r: u8)
        requires
            slot < self.slots@.len(),
        ensures
            r == kind_max(self.slots@[slot as int].kind),
    {
        match self.slots[slot].kind {
            SlotKind::Normal { max_count } => max_count,
            SlotKind::Armor { .. } => 1,
            SlotKind::Result => 255,
        }
    }

    /// The most items of `stack`'s kind the slot holds by its kind, and no
    /// more than the kind stacks to.
    pub fn get_max_item_count_for_stack(&self, slot: usize, stack: &ItemStack) -> (r: u8)
        requires
            slot < self.slots@.len(),
        ensures
            r == max_for(self.slots@[slot as int].kind, *stack),
    {
        let m = self.kind_max_count(slot);
        if m <= stack.max_stack_size {
            m
        } else {
            stack.max_stack_size
        }
    }

    pub fn can_insert(&self, slot: usize, stack: &ItemStack) -> (r: bool)
        requires
            slot < self.slots@.len(),
        ensures
            r == accepts(self.slots@[slot as int].kind, *stack),
    {
        match self.slots[slot].kind {
            SlotKind::Normal { .. } => true,
            SlotKind::Armor { fit } => match fit {
                ArmorFit::Head | ArmorFit::Chest | ArmorFit::Legs | ArmorFit::Feet => stack.armor == fit,
                _ => true,
            },
            SlotKind::Result => false,
        }
    }

    /// Whether items may be taken from the slot.
    pub fn can_take_items(&self, slot: usize) -> (r: bool)
        requires
            slot < self.slots@.len(),
        ensures
            r,
    {
        true
    }

    /// Whether the slot's stack may be changed: the slot accepts it and items
    /// may be taken.
    pub fn allow_modification(&self, slot: usize) -> (r: bool)
        requires
            self.wf(),
            slot < self.slots@.len(),
        ensures
            r == accepts(self.slots@[slot as int].kind, self.slot_stack(slot as int)),
    {
        let current = self.get_stack(slot);
        self.can_insert(slot, &current) && self.can_take_items(slot)
    }

    /// Removes up to `amount` items from the slot.
    pub fn take_stack(&mut self, slot: usize, amount: u8) -> (r: ItemStack)
        requires
            old(self).wf(),
            slot < old(self).slots@.len(),
        ensures
            final(self).kind == old(self).kind,
            final(self).recipes@ == old(self).recipes@,
            final(self).recipe_cache == old(self).recipe_cache,
            final(self).revision == old(self).revision,
            final(self).wf(),
            final(self).slots@ == old(self).slots@,
            final(self).own@.len() == old(self).own@.len(),
            final(self).player.selected_slot == old(self).player.selected_slot,
            final(self).cursor == old(self).cursor,
            final(self).drag_slots@ == old(self).drag_slots@,
            final(self).stacks() == old(self).with_slot(slot as int, take_effect(old(self).slot_stack(slot as int), amount).0),
            r == take_effect(old(self).slot_stack(slot as int), amount).1,
    {
        let mut s = self.get_stack(slot);
        if s.is_empty() || amount == 0 {
            proof {
                assert(old(self).with_slot(slot as int, s) =~= old(self).stacks());
            }
            return ItemStack::empty();
        }
        let taken = s.split(amount);
        self.set_stack(slot, s);
        taken
    }

    /// Takes between `min` and `max` items from the slot; see `try_take_effect`.
    pub fn try_take_stack_range(&mut self, slot: usize, min: u8, max: u8) -> (r: Option<ItemStack>)
        requires
            old(self).wf(),
            slot < old(self).slots@.len(),
        ensures
            final(self).kind == old(self).kind,
            final(self).recipes@ == old(self).recipes@,
            final(self).recipe_cache == old(self).recipe_cache,
            final(self).revision == old(self).revision,
            final(self).wf(),
            final(self).slots@ == old(self).slots@,
            final(self).own@.len() == old(self).own@.len(),
            final(self).player.selected_slot == old(self).player.selected_slot,
            final(self).cursor == old(self).cursor,
            final(self).drag_slots@ == old(self).drag_slots@,
            final(self).stacks() == old(self).with_slot(
                slot as int,
                try_take_effect(old(self).slots@[slot as int].kind, old(self).slot_stack(slot as int), min, max).0,
            ),
            r == try_take_effect(old(self).slots@[slot as int].kind, old(self).slot_stack(slot as int), min, max).1,
    {
        if !self.can_take_items(slot) {
            return None;
        }
        let current = self.get_stack(slot);
        if !self.allow_modification(slot) && current.item_count > max {
            proof {
                assert(old(self).with_slot(slot as int, current) =~= old(self).stacks());
            }
            return None;
        }
        let m = if min <= max {
            min
        } else {
            max
        };
        let taken = self.take_stack(slot, m);
        if taken.is_empty() {
            None
        } else {
            let left = self.get_stack(slot);
            if left.is_empty() {
                self.set_stack(slot, ItemStack::empty());
                proof {
                    assert(self.stacks() =~= old(self).with_slot(slot as int, empty_stack()));
                }
            }
            Some(taken)
        }
    }

    /// Takes between `min` and `max` items from the slot, or the empty stack.
    pub fn safe_take(&mut self, slot: usize, min: u8, max: u8) -> (r: ItemStack)
        requires
            old(self).wf(),
            slot < old(self).slots@.len(),
        ensures
            final(self).kind == old(self).kind,
            final(self).recipes@ == old(self).recipes@,
            final(self).recipe_cache == old(self).recipe_cache,
            final(self).revision == old(self).revision,
            final(self).wf(),
            final(self).slots@ == old(self).slots@,
            final(self).own@.len() == old(self).own@.len(),
            final(self).player.selected_slot == old(self).player.selected_slot,
            final(self).cursor == old(self).cursor,
            final(self).drag_slots@ == old(self).drag_slots@,
            final(self).stacks() == old(self).with_slot(
                slot as int,
                try_take_effect(old(self).slots@[slot as int].kind, old(self).slot_stack(slot as int), min, max).0,
            ),
            r == match try_take_effect(old(self).slots@[slot as int].kind, old(self).slot_stack(slot as int), min, max).1 {
                Some(t) => t,
                None => empty_stack(),
            },
    {
        match self.try_take_stack_range(slot, min, max) {
            Some(t) => t,
            None => ItemStack::empty(),
        }
    }

    /// Inserts up to `count` items of `stack` into the slot; `stack` keeps the rest.
    pub fn insert_stack_count(&mut self, slot: usize, stack: &mut ItemStack, count: u8)
        requires
            old(self).wf(),
            slot < old(self).slots@.len(),
            insertable(old(self).slots@[slot as int].kind, old(self).slot_stack(slot as int), *old(stack)),
        ensures
            final(self).kind == old(self).kind,
            final(self).recipes@ == old(self).recipes@,
            final(self).recipe_cache == old(self).recipe_cache,
            final(self).revision == old(self).revision,
            final(self).wf(),
            final(self).slots@ == old(self).slots@,
            final(self).own@.len() == old(self).own@.len(),
            final(self).player.selected_slot == old(self).player.selected_slot,
            final(self).cursor == old(self).cursor,
            final(self).drag_slots@ == old(self).drag_slots@,
            ({
                let (s, left) = insert_count_effect(
                    old(self).slots@[slot as int].kind,
                    old(self).slot_stack(slot as int),
                    *old(stack),
                    count,
                );
                &&& final(self).stacks() == old(self).with_slot(slot as int, s)
                &&& *final(stack) == left
            }),
    {
        if !stack.is_empty() && self.can_insert(slot, stack) {
            let mut stack_self = self.get_stack(slot);
            let room = self.get_max_item_count_for_stack(slot, stack) - stack_self.item_count;
            let a = if count <= stack.item_count {
                count
            } else {
                stack.item_count
            };
            let min_count = if a <= room {
                a
            } else {
                room
            };
            if min_count == 0 {
                proof {
                    assert(old(self).with_slot(slot as int, stack_self) =~= old(self).stacks());
                }
                return;
            }
            if stack_self.is_empty() {
                let part = stack.split(min_count);
                self.set_stack(slot, part);
            } else if stack.are_items_and_components_equal(&stack_self) {
                stack.decrement(min_count);
                stack_self.increment(min_count);
                self.set_stack(slot, stack_self);
            } else {
                proof {
                    assert(old(self).with_slot(slot as int, stack_self) =~= old(self).stacks());
                }
            }
        } else {
            proof {
                assert(old(self).with_slot(slot as int, old(self).slot_stack(slot as int)) =~= old(self).stacks());
            }
        }
    }

    /// Moves items of `stack` into the slots `start..end` (from the back when
    /// `from_last`): first onto stacks of its kind, then into the first empty
    /// slot that accepts it. Whether any items moved.
    pub fn insert_item(&mut self, stack: &mut ItemStack, start: i32, end: i32, from_last: bool) -> (r: bool)
        requires
            old(self).wf(),
            start >= end || (0 <= start && end <= old(self).slots@.len()),
        ensures
            final(self).kind == old(self).kind,
            final(self).recipes@ == old(self).recipes@,
            final(self).recipe_cache == old(self).recipe_cache,
            final(self).revision == old(self).revision,
            final(self).wf(),
            final(self).slots@ == old(self).slots@,
            final(self).own@.len() == old(self).own@.len(),
            final(self).player.selected_slot == old(self).player.selected_slot,
            final(self).cursor == old(self).cursor,
            final(self).drag_slots@ == old(self).drag_slots@,
            (final(self).stacks(), *final(stack), r) == insert_item_effect(
                old(self).stacks(),
                old(self).slots@,
                *old(stack),
                start as int,
                end as int,
                from_last,
            ),
    {
        let n: usize = if start < end {
            (end - start) as usize
        } else {
            0
        };
        let mut success = false;
        if stack.is_stackable() {
            let mut k: usize = 0;
            while k < n && !stack.is_empty()
                invariant
                    self.kind == old(self).kind,
                    self.recipes@ == old(self).recipes@,
                    self.recipe_cache == old(self).recipe_cache,
                    self.revision == old(self).revision,
                    self.wf(),
                    self.slots@ == old(self).slots@,
                    self.own@.len() == old(self).own@.len(),
                    self.player.selected_slot == old(self).player.selected_slot,
                    self.cursor == old(self).cursor,
                    self.drag_slots@ == old(self).drag_slots@,
                    n as int == if start < end { end - start } else { 0 },
                    start >= end || (0 <= start && end <= self.slots@.len()),
                    k <= n,
                    merge_pass(self.stacks(), self.slots@, *stack, start as int, end as int, from_last, k as int, success)
                        == merge_pass(old(self).stacks(), old(self).slots@, *old(stack), start as int, end as int, from_last, 0, false),
                decreases n - k,
            {
                let i: usize = if from_last {
                    (end - 1 - k as i32) as usize
                } else {
                    (start + k as i32) as usize
                };
                assert(i as int == visit(start as int, end as int, from_last, k as int));
                let mut slot_stack = self.get_stack(i);
                if !slot_stack.is_empty() && slot_stack.are_items_and_components_equal(stack) {
                    let combined: u16 = slot_stack.item_count as u16 + stack.item_count as u16;
                    let max_slot_count = self.get_max_item_count_for_stack(i, &slot_stack);
                    if combined <= max_slot_count as u16 {
                        stack.set_count(0);
                        slot_stack.set_count(combined as u8);
                        self.set_stack(i, slot_stack);
                        success = true;
                    } else if slot_stack.item_count < max_slot_count {
                        stack.decrement(max_slot_count - slot_stack.item_count);
                        slot_stack.set_count(max_slot_count);
                        self.set_stack(i, slot_stack);
                        success = true;
                    }
                }
                k = k + 1;
            }
        }
        if !stack.is_empty() {
            let mut k: usize = 0;
            while k < n
                invariant
                    self.kind == old(self).kind,
                    self.recipes@ == old(self).recipes@,
                    self.recipe_cache == old(self).recipe_cache,
                    self.revision == old(self).revision,
                    self.wf(),
                    self.slots@ == old(self).slots@,
                    self.own@.len() == old(self).own@.len(),
                    self.player.selected_slot == old(self).player.selected_slot,
                    self.cursor == old(self).cursor,
                    self.drag_slots@ == old(self).drag_slots@,
                    n as int == if start < end { end - start } else { 0 },
                    start >= end || (0 <= start && end <= self.slots@.len()),
                    k <= n,
                    !spec_is_empty(insert_item_first(old(self).stacks(), old(self).slots@, *old(stack), start as int, end as int, from_last).1),
                    place_pass(self.stacks(), self.slots@, *stack, start as int, end as int, from_last, k as int)
                        == place_pass(
                            insert_item_first(old(self).stacks(), old(self).slots@, *old(stack), start as int, end as int, from_last).0,
                            old(self).slots@,
                            insert_item_first(old(self).stacks(), old(self).slots@, *old(stack), start as int, end as int, from_last).1,
                            start as int,
                            end as int,
                            from_last,
                            0,
                        ),
                decreases n - k,
            {
                let i: usize = if from_last {
                    (end - 1 - k as i32) as usize
                } else {
                    (start + k as i32) as usize
                };
                assert(i as int == visit(start as int, end as int, from_last, k as int));
                let slot_stack = self.get_stack(i);
                let ghost stacks_k = self.stacks();
                let ghost stack_k = *stack;
                if slot_stack.is_empty() && self.can_insert(i, stack) {
                    let max_count = self.get_max_item_count_for_stack(i, stack);
                    let amount = if max_count <= stack.item_count {
                        max_count
                    } else {
                        stack.item_count
                    };
                    let part = stack.split(amount);
                    self.set_stack(i, part);
                    assert(place_pass(stacks_k, self.slots@, stack_k, start as int, end as int, from_last, k as int)
                        == (self.stacks(), *stack, true));
                    return true;
                }
                k = k + 1;
            }
        }
        success
    }
}

} // verus!
