//! What a click in a window does: picking up and putting down stacks,
//! throwing, cloning, gathering, dragging and swapping with the hotbar.
use vstd::prelude::*;

use super::click::SlotActionType;
use super::crafting::{
    crafting_quick_move_effect, filled_total, lemma_crafting_quick_move_facts, lemma_take_result_progress,
    result_placed, slot_placed, take_result, CraftingRecipeTypes,
};
use super::player_inventory::{empty_stack, insert_rounds};
use super::screen::{
    accepts, insert_count_effect, insert_item_effect, insertable, max_for, try_take_effect,
    grid_len, grid_stacks, ScreenKind, ScreenState, SlotKind, SlotRule,
};
use super::stack::{min_u8, same_kind, spec_is_empty, with_count, ArmorFit, ItemStack};

verus! {

pub const SLOT_INDEX_OUTSIDE: i32 = -999;

/// The state of a window as its clicks see it.
pub ghost struct ScreenView {
    pub kind: ScreenKind,
    pub stacks: Seq<ItemStack>,
    pub rules: Seq<SlotRule>,
    pub cursor: ItemStack,
    pub drag: Seq<u32>,
    /// How many of the stacks are the window's own; the player's follow.
    pub own_len: int,
    /// The player's selected hotbar slot.
    pub selected: int,
    /// The recipes the result slot matches the crafting grid against.
    pub recipes: Seq<CraftingRecipeTypes>,
    /// The recipe the result slot last matched.
    pub recipe_cache: Option<usize>,
}

/// `a - b`, or 0 when `b` is larger.
pub open spec fn sat_sub(a: u8, b: u8) -> u8 {
    if a >= b {
        (a - b) as u8
    } else {
        0
    }
}

/// A left or right click on a slot holding `s` with `cursor` on the cursor:
/// the slot's stack and the cursor's stack afterwards.
pub open spec fn pickup_effect(kind: SlotKind, s: ItemStack, cursor: ItemStack, left: bool) -> (ItemStack, ItemStack) {
    if spec_is_empty(s) {
        if !spec_is_empty(cursor) {
            insert_count_effect(kind, s, cursor, if left { cursor.item_count } else { 1 })
        } else {
            (s, cursor)
        }
    } else if spec_is_empty(cursor) {
        let take = if left { s.item_count } else { ((s.item_count + 1) / 2) as u8 };
        let (s2, t) = try_take_effect(kind, s, take, 255);
        match t {
            Some(t) => (s2, t),
            None => (s2, cursor),
        }
    } else if accepts(kind, cursor) {
        if same_kind(s, cursor) {
            insert_count_effect(kind, s, cursor, if left { cursor.item_count } else { 1 })
        } else if cursor.item_count <= max_for(kind, cursor) {
            (cursor, s)
        } else {
            (s, cursor)
        }
    } else if same_kind(s, cursor) {
        let (s2, t) = try_take_effect(kind, s, s.item_count, sat_sub(cursor.max_stack_size, cursor.item_count));
        match t {
            Some(t) => (s2, with_count(cursor, (cursor.item_count + t.item_count) as u8)),
            None => (s2, cursor),
        }
    } else {
        (s, cursor)
    }
}

/// Whether a click on a slot holding `s` stays within the slot's room where it
/// puts items down.
pub open spec fn pickup_ok(kind: SlotKind, s: ItemStack, cursor: ItemStack) -> bool {
    (spec_is_empty(s) || (!spec_is_empty(cursor) && same_kind(s, cursor))) ==> insertable(kind, s, cursor)
}


/// Throwing all of a slot's stack: items are taken while the slot still holds
/// the thrown kind; the slot's stack and the thrown stacks.
pub open spec fn throw_all(kind: SlotKind, s: ItemStack, prev: ItemStack) -> (ItemStack, Seq<ItemStack>)
    decreases s.item_count,
{
    if !same_kind(s, prev) || spec_is_empty(s) {
        (s, Seq::empty())
    } else {
        let (s2, t) = try_take_effect(kind, s, prev.item_count, 255);
        let d = match t {
            Some(t) => t,
            None => empty_stack(),
        };
        if s2.item_count < s.item_count || !same_kind(s2, prev) {
            let (s3, ds) = throw_all(kind, s2, prev);
            (s3, seq![d] + ds)
        } else {
            (s2, seq![d])
        }
    }
}

/// Gathering items of the cursor's kind into the cursor from the `k`-th slot
/// on, `to_pick` more at most: the stacks and the cursor.
pub open spec fn pickup_all_pass(
    stacks: Seq<ItemStack>,
    rules: Seq<SlotRule>,
    cursor: ItemStack,
    k: int,
    to_pick: u8,
) -> (Seq<ItemStack>, ItemStack)
    decreases rules.len() - k,
{
    if k < 0 || k >= rules.len() || to_pick == 0 {
        (stacks, cursor)
    } else {
        let idx = rules[k].stack_index as int;
        let s = stacks[idx];
        if !same_kind(s, cursor) || !accepts(rules[k].kind, s) {
            pickup_all_pass(stacks, rules, cursor, k + 1, to_pick)
        } else {
            let (s2, t) = try_take_effect(
                rules[k].kind,
                s,
                min_u8(s.item_count, to_pick),
                (cursor.max_stack_size - cursor.item_count) as u8,
            );
            let n = match t {
                Some(t) => t.item_count,
                None => 0,
            };
            pickup_all_pass(
                stacks.update(idx, s2),
                rules,
                with_count(cursor, (cursor.item_count + n) as u8),
                k + 1,
                (to_pick - n) as u8,
            )
        }
    }
}


/// How many items a drag puts in each slot: an even share of what the cursor
/// held (left button), one (right button) or a full stack (middle button).
pub open spec fn drag_share(button: int, initial: u8, slots: nat, cursor: ItemStack) -> u8 {
    if button == 0 {
        (initial / (slots as u8)) as u8
    } else if button == 1 {
        1
    } else {
        cursor.max_stack_size
    }
}

/// Whether a drag may put items in a slot holding `s`.
pub open spec fn drag_target(kind: SlotKind, s: ItemStack, cursor: ItemStack) -> bool {
    (same_kind(s, cursor) || spec_is_empty(s)) && accepts(kind, cursor)
}

/// Ending a drag from its `k`-th slot on: the stacks and the cursor. The
/// middle button (creative) leaves the cursor as it is.
pub open spec fn drag_pass(
    stacks: Seq<ItemStack>,
    rules: Seq<SlotRule>,
    cursor: ItemStack,
    drag: Seq<u32>,
    k: int,
    button: int,
    initial: u8,
) -> (Seq<ItemStack>, ItemStack)
    decreases drag.len() - k,
{
    if k < 0 || k >= drag.len() {
        (stacks, cursor)
    } else {
        let i = drag[k] as int;
        let idx = rules[i].stack_index as int;
        let s = stacks[idx];
        let kind = rules[i].kind;
        if drag_target(kind, s, cursor) {
            let share = drag_share(button, initial, drag.len(), cursor);
            let ins = min_u8(min_u8(share, (max_for(kind, s) - s.item_count) as u8), cursor.item_count);
            if ins > 0 {
                let base = if spec_is_empty(s) { with_count(cursor, 0) } else { s };
                let stacks2 = stacks.update(idx, with_count(base, (base.item_count + ins) as u8));
                let cursor2 = if button != 2 {
                    with_count(cursor, (cursor.item_count - ins) as u8)
                } else {
                    cursor
                };
                if spec_is_empty(cursor2) {
                    (stacks2, cursor2)
                } else {
                    drag_pass(stacks2, rules, cursor2, drag, k + 1, button, initial)
                }
            } else {
                drag_pass(stacks, rules, cursor, drag, k + 1, button, initial)
            }
        } else {
            drag_pass(stacks, rules, cursor, drag, k + 1, button, initial)
        }
    }
}

/// Whether every slot a drag fills, from its `k`-th slot on, holds no more
/// than its room when it is reached.
pub open spec fn drag_fits(
    stacks: Seq<ItemStack>,
    rules: Seq<SlotRule>,
    cursor: ItemStack,
    drag: Seq<u32>,
    k: int,
    button: int,
    initial: u8,
) -> bool
    decreases drag.len() - k,
{
    if k < 0 || k >= drag.len() {
        true
    } else {
        let i = drag[k] as int;
        let idx = rules[i].stack_index as int;
        let s = stacks[idx];
        let kind = rules[i].kind;
        if drag_target(kind, s, cursor) {
            s.item_count <= max_for(kind, s) && {
                let share = drag_share(button, initial, drag.len(), cursor);
                let ins = min_u8(min_u8(share, (max_for(kind, s) - s.item_count) as u8), cursor.item_count);
                if ins > 0 {
                    let base = if spec_is_empty(s) { with_count(cursor, 0) } else { s };
                    let stacks2 = stacks.update(idx, with_count(base, (base.item_count + ins) as u8));
                    let cursor2 = if button != 2 {
                        with_count(cursor, (cursor.item_count - ins) as u8)
                    } else {
                        cursor
                    };
                    spec_is_empty(cursor2) || drag_fits(stacks2, rules, cursor2, drag, k + 1, button, initial)
                } else {
                    drag_fits(stacks, rules, cursor, drag, k + 1, button, initial)
                }
            }
        } else {
            drag_fits(stacks, rules, cursor, drag, k + 1, button, initial)
        }
    }
}

/// Whether ending a drag is well defined: every drag slot is a slot of the
/// window, the slots it fills hold no more than their room, an even share
/// divides by a non-zero count, and the button is known.
pub open spec fn drag_ok(stacks: Seq<ItemStack>, rules: Seq<SlotRule>, cursor: ItemStack, drag: Seq<u32>, button: int) -> bool {
    &&& forall|k: int| 0 <= k < drag.len() ==> (#[trigger] drag[k]) < rules.len()
    &&& drag_fits(stacks, rules, cursor, drag, 0, button, cursor.item_count)
    &&& button == 0 ==> (drag.len() as u8) != 0
    &&& button != 3
}


/// Swapping a slot with the player's hotbar slot (or off hand) `button`: the
/// stacks and the stacks to drop. `p` is the flat index of the player's slot.
pub open spec fn swap_effect(v: ScreenView, slot: int, button: int) -> (Seq<ItemStack>, Seq<ItemStack>) {
    let p = v.own_len + button;
    let src = v.rules[slot].stack_index as int;
    let kind = v.rules[slot].kind;
    let b = v.stacks[p];
    let s = v.stacks[src];
    if spec_is_empty(b) && spec_is_empty(s) {
        (v.stacks, Seq::empty())
    } else if spec_is_empty(b) {
        (v.stacks.update(p, s).update(src, empty_stack()), Seq::empty())
    } else if !accepts(kind, b) {
        (v.stacks, Seq::empty())
    } else if b.item_count <= max_for(kind, b) {
        if spec_is_empty(s) {
            (v.stacks.update(p, empty_stack()).update(src, b), Seq::empty())
        } else {
            (v.stacks.update(p, s).update(src, b), Seq::empty())
        }
    } else {
        let m = max_for(kind, b);
        let s1 = v.stacks.update(src, with_count(b, m));
        if spec_is_empty(s) {
            (s1, Seq::empty())
        } else {
            let rest = with_count(b, (b.item_count - m) as u8);
            let (ps, left, i) = insert_rounds(s1.subrange(v.own_len, v.own_len + 41), v.selected, -1i16, rest);
            (s1.subrange(0, v.own_len) + ps, if left.item_count < i { Seq::empty() } else { seq![left] })
        }
    }
}

/// Swapping a slot with the player's hotbar slot (or off hand) `button`, as a
/// change of the view: a result moved to an empty hotbar slot is taken, which
/// crafts; see `swap_effect` and `take_result`.
pub open spec fn swap_view(v: ScreenView, slot: int, button: int) -> (ScreenView, Seq<ItemStack>) {
    let (st, ds) = swap_effect(v, slot, button);
    let b = v.stacks[v.own_len + button];
    let s = v.stacks[v.rules[slot].stack_index as int];
    if v.rules[slot].kind is Result && spec_is_empty(b) && !spec_is_empty(s) {
        (take_result(with_stacks(v, st)), ds)
    } else {
        (with_stacks(v, st), ds)
    }
}

/// The player's own window; its state is a `ScreenState` of kind `Player`.
pub struct PlayerScreenHandler {}

impl PlayerScreenHandler {
    /// Whether slot `slot` of the player's window is a hotbar slot or the off
    /// hand (slots 36 to 45).
    pub fn is_in_hotbar(slot: u8) -> (r: bool)
        ensures
            r == (36 <= slot <= 45),
    {
        36 <= slot && slot <= 45
    }
}

/// The armor slot of the player's window that a worn item goes to, or -1.
pub open spec fn armor_slot_for(fit: ArmorFit) -> int {
    match fit {
        ArmorFit::Head => 5,
        ArmorFit::Chest => 6,
        ArmorFit::Legs => 7,
        ArmorFit::Feet => 8,
        _ => -1,
    }
}

/// Where shift-clicking slot `slot` of the player's window (holding `s`) moves
/// it: the slot range and whether it is filled from the back.
pub open spec fn quick_move_range(v: ScreenView, slot: int, s: ItemStack) -> (int, int, bool) {
    let a = armor_slot_for(s.armor);
    if slot == 0 {
        (9, 45, true)
    } else if 1 <= slot < 9 {
        (9, 45, false)
    } else if a != -1 && spec_is_empty(v.stacks[v.rules[a].stack_index as int]) {
        (a, a + 1, false)
    } else if s.armor == ArmorFit::OffHand {
        (45, 46, false)
    } else if 9 <= slot < 36 {
        (36, 45, false)
    } else if 36 <= slot < 45 {
        (9, 36, false)
    } else {
        (9, 45, false)
    }
}

/// Whether the window is laid out as the player's: 46 slots, each showing its
/// own stack.
pub open spec fn player_layout(rules: Seq<SlotRule>) -> bool {
    &&& rules.len() == 46
    &&& forall|i: int, j: int| 0 <= i < j < rules.len() ==> #[trigger] rules[i].stack_index != #[trigger] rules[j].stack_index
}

/// Shift-clicking a slot of the player's window: the stacks, the stack that
/// moved (empty when nothing did) and the stacks to drop.
pub open spec fn quick_move_effect(v: ScreenView, slot: int) -> (ScreenView, ItemStack, Seq<ItemStack>) {
    let src = v.rules[slot].stack_index as int;
    let s = v.stacks[src];
    if spec_is_empty(s) {
        (v, empty_stack(), Seq::empty())
    } else {
        let (start, end, from_last) = quick_move_range(v, slot, s);
        let (st2, left, ok) = insert_item_effect(v.stacks, v.rules, s, start, end, from_last);
        if !ok {
            (v, empty_stack(), Seq::empty())
        } else {
            let st3 = st2.update(src, if spec_is_empty(left) { empty_stack() } else { left });
            if left.item_count == s.item_count {
                (with_stacks(v, st3), empty_stack(), Seq::empty())
            } else {
                (
                    if v.rules[slot].kind is Result { take_result(with_stacks(v, st3)) } else { with_stacks(v, st3) },
                    s,
                    if slot == 0 && !spec_is_empty(left) { seq![left] } else { Seq::empty() },
                )
            }
        }
    }
}


/// The view after the window's stacks become `stacks`.
pub open spec fn with_stacks(v: ScreenView, stacks: Seq<ItemStack>) -> ScreenView {
    ScreenView { stacks, ..v }
}

/// Shift-clicking slot `slot`, by the route of the window's kind: the
/// stacks after, the stack taken from the slot and what is dropped.
pub open spec fn shift_click_effect(v: ScreenView, slot: int) -> (ScreenView, ItemStack, Seq<ItemStack>) {
    match v.kind {
        ScreenKind::Player => quick_move_effect(v, slot),
        ScreenKind::CraftingTable => crafting_quick_move_effect(v, slot),
    }
}

/// Whether slot `slot` can be shift-clicked: the window has the 46 slots of
/// its kind, and (in the player's window) an off-hand item is not shift-clicked
/// out of the off hand, which would move it back into itself for ever.
pub open spec fn shift_click_ok(v: ScreenView, slot: int) -> bool {
    &&& player_layout(v.rules)
    &&& 0 <= slot < 46
    &&& v.kind == ScreenKind::Player ==> !(slot == 45 && v.stacks[v.rules[45].stack_index as int].armor
        == ArmorFit::OffHand)
    &&& slot_placed(v, slot)
}

/// What shift-clicking a slot again and again uses up: the items of the
/// crafting grid for the result slot, else the slot's own items.
pub open spec fn shift_click_measure(v: ScreenView, slot: int) -> nat {
    if v.rules[slot].kind is Result {
        filled_total(grid_stacks(v.kind, v.stacks))
    } else {
        v.stacks[v.rules[slot].stack_index as int].item_count as nat
    }
}

/// Shift-clicking a slot again while the slot still holds the kind that
/// moved: the view and the stacks to drop.
pub open spec fn quick_move_loop(v: ScreenView, slot: int) -> (ScreenView, Seq<ItemStack>)
    decreases shift_click_measure(v, slot),
{
    let src = v.rules[slot].stack_index as int;
    let (v2, moved, ds) = shift_click_effect(v, slot);
    let st2 = v2.stacks;
    if !spec_is_empty(moved) && same_kind(st2[src], moved) && shift_click_measure(v2, slot)
        < shift_click_measure(v, slot) {
        let (v3, ds3) = quick_move_loop(v2, slot);
        (v3, ds + ds3)
    } else {
        (v2, ds)
    }
}

/// A left or right click on the result slot, which shows the window's first
/// stack `r`: the whole result goes to an empty cursor, or onto a cursor of its
/// kind with room for all of it, and taking it crafts; else nothing changes.
pub open spec fn result_pickup(v: ScreenView) -> ScreenView {
    let r = v.stacks[0];
    let c = v.cursor;
    if spec_is_empty(r) {
        v
    } else if spec_is_empty(c) {
        ScreenView { cursor: r, ..take_result(v) }
    } else if same_kind(r, c) && r.item_count <= sat_sub(c.max_stack_size, c.item_count) {
        ScreenView { cursor: with_count(c, (c.item_count + r.item_count) as u8), ..take_result(v) }
    } else {
        v
    }
}

/// A left or right click on a slot, as a change of the view.
pub open spec fn pickup_view(v: ScreenView, slot: int, left: bool) -> ScreenView {
    if v.rules[slot].kind is Result {
        result_pickup(v)
    } else {
        let idx = v.rules[slot].stack_index as int;
        let (s, c) = pickup_effect(v.rules[slot].kind, v.stacks[idx], v.cursor, left);
        ScreenView { stacks: v.stacks.update(idx, s), cursor: c, ..v }
    }
}

/// A click outside the window: the view and the stacks to drop.
pub open spec fn outside_view(v: ScreenView, left: bool) -> (ScreenView, Seq<ItemStack>) {
    if spec_is_empty(v.cursor) {
        (v, Seq::empty())
    } else if left {
        (ScreenView { cursor: empty_stack(), ..v }, seq![v.cursor])
    } else {
        (
            ScreenView { cursor: with_count(v.cursor, (v.cursor.item_count - min_u8(1, v.cursor.item_count)) as u8), ..v },
            seq![with_count(v.cursor, min_u8(1, v.cursor.item_count))],
        )
    }
}

/// Throwing from a slot: the view and the thrown stacks.
pub open spec fn throw_view(v: ScreenView, slot: int, all: bool) -> (ScreenView, Seq<ItemStack>) {
    let idx = v.rules[slot].stack_index as int;
    let kind = v.rules[slot].kind;
    let prev = v.stacks[idx];
    if spec_is_empty(prev) {
        (v, Seq::empty())
    } else if kind is Result && !all {
        // the whole result is thrown, and the grid is used up twice
        (take_result(take_result(v)), seq![prev])
    } else if all {
        (with_stacks(v, v.stacks.update(idx, throw_all(kind, prev, prev).0)), throw_all(kind, prev, prev).1)
    } else {
        let (s2, t) = try_take_effect(kind, prev, 1, 255);
        (
            with_stacks(v, v.stacks.update(idx, s2)),
            match t {
                Some(t) => if spec_is_empty(t) { Seq::empty() } else { seq![t] },
                None => Seq::empty(),
            },
        )
    }
}

/// Adding a slot to the drag in progress.
pub open spec fn drag_add_view(v: ScreenView, slot: int) -> ScreenView {
    let s = v.stacks[v.rules[slot].stack_index as int];
    let kind = v.rules[slot].kind;
    let c = v.cursor;
    if !spec_is_empty(c) && accepts(kind, c) && (same_kind(s, c) || spec_is_empty(s)) && max_for(kind, s) > s.item_count {
        ScreenView { drag: v.drag.push(slot as u32), ..v }
    } else {
        v
    }
}

/// What a click does to a window: the view afterwards and the stacks the
/// player drops. `creative` tells whether the player has infinite materials.
pub open spec fn click_effect(v: ScreenView, slot_index: i32, button: i32, action: SlotActionType, creative: bool) -> (
    ScreenView,
    Seq<ItemStack>,
) {
    if action == SlotActionType::PickupAll && button == 0 {
        let (st, c) = pickup_all_pass(v.stacks, v.rules, v.cursor, 0, (v.cursor.max_stack_size - v.cursor.item_count) as u8);
        (ScreenView { stacks: st, cursor: c, ..v }, Seq::empty())
    } else if action == SlotActionType::QuickCraft {
        let t = button & 3;
        let b = (button >> 2) & 3;
        if t == 0 {
            (ScreenView { drag: Seq::empty(), ..v }, Seq::empty())
        } else if t == 1 {
            if slot_index < 0 {
                (v, Seq::empty())
            } else {
                (drag_add_view(v, slot_index as int), Seq::empty())
            }
        } else if t == 2 && v.drag.len() > 0 {
            if v.drag.len() == 1 {
                let v1 = ScreenView { drag: Seq::empty(), ..v };
                if b == 0 || b == 1 {
                    (pickup_view(v1, v.drag[0] as int, b == 0), Seq::empty())
                } else {
                    (v1, Seq::empty())
                }
            } else if b == 2 && !creative {
                (v, Seq::empty())
            } else {
                let (st, c) = drag_pass(v.stacks, v.rules, v.cursor, v.drag, 0, b as int, v.cursor.item_count);
                (ScreenView { stacks: st, cursor: c, drag: Seq::empty(), ..v }, Seq::empty())
            }
        } else {
            (v, Seq::empty())
        }
    } else if action == SlotActionType::Throw {
        if slot_index >= 0 && spec_is_empty(v.cursor) {
            throw_view(v, slot_index as int, button == 1)
        } else {
            (v, Seq::empty())
        }
    } else if action == SlotActionType::Clone {
        if creative && slot_index >= 0 {
            let s = v.stacks[v.rules[slot_index as int].stack_index as int];
            (ScreenView { cursor: with_count(s, s.max_stack_size), ..v }, Seq::empty())
        } else {
            (v, Seq::empty())
        }
    } else if (action == SlotActionType::Pickup || action == SlotActionType::QuickMove) && (button == 0 || button == 1) {
        if slot_index == SLOT_INDEX_OUTSIDE {
            outside_view(v, button == 0)
        } else if slot_index < 0 {
            (v, Seq::empty())
        } else if action == SlotActionType::QuickMove {
            quick_move_loop(v, slot_index as int)
        } else {
            (pickup_view(v, slot_index as int, button == 0), Seq::empty())
        }
    } else if (action == SlotActionType::Swap && 0 <= button < 9) || button == 40 {
        swap_view(v, slot_index as int, button as int)
    } else {
        (v, Seq::empty())
    }
}

/// The inputs on which a click is well defined: every slot it reaches is a
/// slot of the window, and the counts it computes stay in range.
pub open spec fn click_ok(v: ScreenView, slot_index: i32, button: i32, action: SlotActionType, creative: bool) -> bool {
    if action == SlotActionType::PickupAll && button == 0 {
        v.cursor.item_count <= v.cursor.max_stack_size
    } else if action == SlotActionType::QuickCraft {
        let t = button & 3;
        let b = (button >> 2) & 3;
        if t == 1 {
            slot_index >= 0 ==> slot_index < v.rules.len()
        } else if t == 2 && v.drag.len() > 0 {
            if v.drag.len() == 1 {
                (b == 0 || b == 1) ==> {
                    let slot = v.drag[0] as int;
                    &&& slot < v.rules.len()
                    &&& pickup_ok(v.rules[slot].kind, v.stacks[v.rules[slot].stack_index as int], v.cursor)
                    &&& slot_placed(v, slot)
                }
            } else if b == 2 && !creative {
                true
            } else {
                drag_ok(v.stacks, v.rules, v.cursor, v.drag, b as int)
            }
        } else {
            true
        }
    } else if action == SlotActionType::Throw {
        slot_index >= 0 && spec_is_empty(v.cursor) ==> {
            &&& slot_index < v.rules.len()
            &&& slot_placed(v, slot_index as int)
            // throwing all of a result that is shown again would never end
            &&& button == 1 ==> !(v.rules[slot_index as int].kind is Result) || spec_is_empty(
                v.stacks[v.rules[slot_index as int].stack_index as int],
            )
        }
    } else if action == SlotActionType::Clone {
        creative && slot_index >= 0 ==> slot_index < v.rules.len()
    } else if (action == SlotActionType::Pickup || action == SlotActionType::QuickMove) && (button == 0 || button == 1) {
        if slot_index == SLOT_INDEX_OUTSIDE || slot_index < 0 {
            true
        } else if action == SlotActionType::QuickMove {
            shift_click_ok(v, slot_index as int)
        } else {
            &&& slot_index < v.rules.len()
            &&& pickup_ok(v.rules[slot_index as int].kind, v.stacks[v.rules[slot_index as int].stack_index as int], v.cursor)
            &&& slot_placed(v, slot_index as int)
        }
    } else if (action == SlotActionType::Swap && 0 <= button < 9) || button == 40 {
        0 <= slot_index < v.rules.len() && slot_placed(v, slot_index as int)
    } else {
        true
    }
}

/// What shift-clicking leaves in the clicked slot: its stack, the empty stack
/// or fewer items of its kind (for the result slot, what the grid then
/// makes); a reported move took the slot's stack, and a move that leaves its
/// kind in the slot used up what the slot draws on.
pub proof fn lemma_quick_move_facts(v: ScreenView, slot: int)
    requires
        shift_click_ok(v, slot),
        forall|i: int| 0 <= i < v.rules.len() ==> #[trigger] v.rules[i].stack_index < v.stacks.len(),
    ensures
        ({
            let src = v.rules[slot].stack_index as int;
            let s = v.stacks[src];
            let (v2, moved, _) = shift_click_effect(v, slot);
            let st = v2.stacks;
            &&& v2 == (ScreenView { stacks: v2.stacks, recipe_cache: v2.recipe_cache, ..v })
            &&& st.len() == v.stacks.len()
            &&& !(v.rules[slot].kind is Result) ==> (st[src] == s || st[src] == empty_stack() || st[src]
                == with_count(s, st[src].item_count))
            &&& !(v.rules[slot].kind is Result) ==> (!spec_is_empty(moved) ==> (st[src].item_count < s.item_count
                || !same_kind(st[src], moved)))
            &&& !spec_is_empty(moved) ==> moved == s
            &&& !spec_is_empty(moved) && same_kind(st[src], moved) ==> shift_click_measure(v2, slot)
                < shift_click_measure(v, slot)
        }),
{
    match v.kind {
        ScreenKind::Player => lemma_player_quick_move_facts(v, slot),
        ScreenKind::CraftingTable => lemma_crafting_quick_move_facts(v, slot),
    }
    if v.rules[slot].kind is Result {
        lemma_result_shift_progress(v);
    }
}

/// Shift-clicking the result slot again while it shows the kind that moved
/// used up items of the grid.
proof fn lemma_result_shift_progress(v: ScreenView)
    requires
        shift_click_ok(v, 0),
        v.rules[0].kind is Result,
        forall|i: int| 0 <= i < v.rules.len() ==> #[trigger] v.rules[i].stack_index < v.stacks.len(),
    ensures
        ({
            let (v2, moved, _) = shift_click_effect(v, 0);
            !spec_is_empty(moved) && same_kind(v2.stacks[0], moved) ==> shift_click_measure(v2, 0)
                < shift_click_measure(v, 0)
        }),
{
    let s = v.stacks[0];
    let n = grid_len(v.kind);
    assert(v.rules[0].stack_index == 0);
    assert(v.rules[n].stack_index == n);
    assert(v.rules[n].stack_index < v.stacks.len());
    if !spec_is_empty(s) {
        let start: int = if v.kind == ScreenKind::Player { 9 } else { 10 };
        let end: int = if v.kind == ScreenKind::Player { 45 } else { 46 };
        super::screen::lemma_insert_item_len(v.stacks, v.rules, s, start, end, true);
        let (st2, left, ok) = insert_item_effect(v.stacks, v.rules, s, start, end, true);
        assert forall|j: int| 1 <= j <= n implies #[trigger] st2[j] == v.stacks[j] by {
            assert(v.rules[j].stack_index == j);
            assert forall|i: int| start <= i < end implies #[trigger] v.rules[i].stack_index != j by {
                assert(v.rules[j].stack_index != v.rules[i].stack_index);
            }
            super::laws::lemma_insert_item_frame(v.stacks, v.rules, s, start, end, true, j);
        }
        if ok && left.item_count != s.item_count {
            let st3 = st2.update(0, if spec_is_empty(left) { empty_stack() } else { left });
            assert(grid_stacks(v.kind, st3) =~= grid_stacks(v.kind, v.stacks));
            let t = take_result(with_stacks(v, st3)).stacks;
            if same_kind(t[0], s) {
                lemma_take_result_progress(with_stacks(v, st3), s);
            }
        }
    }
}

/// The player's window: what shift-clicking leaves in the clicked slot.
proof fn lemma_player_quick_move_facts(v: ScreenView, slot: int)
    requires
        player_layout(v.rules),
        0 <= slot < 46,
        forall|i: int| 0 <= i < v.rules.len() ==> #[trigger] v.rules[i].stack_index < v.stacks.len(),
    ensures
        ({
            let src = v.rules[slot].stack_index as int;
            let s = v.stacks[src];
            let (v2, moved, _) = quick_move_effect(v, slot);
            let st = v2.stacks;
            &&& v2 == (ScreenView { stacks: v2.stacks, recipe_cache: v2.recipe_cache, ..v })
            &&& st.len() == v.stacks.len()
            &&& !(v.rules[slot].kind is Result) ==> st[src] == s || st[src] == empty_stack() || st[src] == with_count(
                s,
                st[src].item_count,
            )
            &&& !(v.rules[slot].kind is Result) ==> (!spec_is_empty(moved) ==> moved == s && (st[src].item_count
                < s.item_count || !same_kind(st[src], moved)))
            &&& !spec_is_empty(moved) ==> moved == s
        }),
{
    let src = v.rules[slot].stack_index as int;
    let s = v.stacks[src];
    if !spec_is_empty(s) {
        let (start, end, from_last) = quick_move_range(v, slot, s);
        super::screen::lemma_insert_item_shrinks(v.stacks, v.rules, s, start, end, from_last);
        super::screen::lemma_insert_item_len(v.stacks, v.rules, s, start, end, from_last);
        let (st2, left, ok) = insert_item_effect(v.stacks, v.rules, s, start, end, from_last);
        if ok {
            let st3 = st2.update(src, if spec_is_empty(left) { empty_stack() } else { left });
            assert(st3[src] == (if spec_is_empty(left) { empty_stack() } else { left }));
        }
    }
}

impl ScreenState {
    pub open spec fn view(&self) -> ScreenView {
        ScreenView {
            kind: self.kind,
            stacks: self.stacks(),
            rules: self.slots@,
            cursor: self.cursor,
            drag: self.drag_slots@,
            own_len: self.own@.len() as int,
            selected: self.player.selected_slot as int,
            recipes: self.recipes@,
            recipe_cache: self.recipe_cache,
        }
    }

    /// A left or right click on slot `slot`; see `pickup_effect`.
    pub fn pickup_slot(&mut self, slot: usize, left: bool)
        requires
            old(self).wf(),
            slot < old(self).slots@.len(),
            pickup_ok(old(self).slots@[slot as int].kind, old(self).slot_stack(slot as int), old(self).cursor),
            slot_placed(old(self).view(), slot as int),
        ensures
            final(self).kind == old(self).kind,
            final(self).recipes@ == old(self).recipes@,
            !(old(self).slots@[slot as int].kind is Result) ==> final(self).recipe_cache == old(self).recipe_cache,
            final(self).revision == old(self).revision,
            final(self).wf(),
            final(self).slots@ == old(self).slots@,
            final(self).own@.len() == old(self).own@.len(),
            final(self).player.selected_slot == old(self).player.selected_slot,
            final(self).drag_slots@ == old(self).drag_slots@,
            old(self).slots@[slot as int].kind is Result ==> final(self).view() == result_pickup(old(self).view()),
            !(old(self).slots@[slot as int].kind is Result) ==> ({
                let (s, c) = pickup_effect(old(self).slots@[slot as int].kind, old(self).slot_stack(slot as int), old(self).cursor, left);
                &&& final(self).stacks() == old(self).with_slot(slot as int, s)
                &&& final(self).cursor == c
            }),
    {
        if self.slots[slot].kind == SlotKind::Result {
            let r = self.get_stack(slot);
            let c = self.cursor;
            if r.is_empty() {
                return;
            }
            if c.is_empty() {
                self.take_result();
                self.cursor = r;
                return;
            }
            let room = if c.max_stack_size >= c.item_count {
                c.max_stack_size - c.item_count
            } else {
                0
            };
            if r.are_items_and_components_equal(&c) && r.item_count <= room {
                self.take_result();
                let mut c2 = c;
                c2.increment(r.item_count);
                self.cursor = c2;
            }
            return;
        }
        let slot_stack = self.get_stack(slot);
        let mut cursor = self.cursor;
        proof {
            assert(old(self).with_slot(slot as int, slot_stack) =~= old(self).stacks());
        }
        if slot_stack.is_empty() {
            if !cursor.is_empty() {
                let transfer = if left {
                    cursor.item_count
                } else {
                    1
                };
                self.insert_stack_count(slot, &mut cursor, transfer);
                self.cursor = cursor;
            }
        } else if self.can_take_items(slot) {
            if cursor.is_empty() {
                let take = if left {
                    slot_stack.item_count
                } else {
                    slot_stack.item_count / 2 + slot_stack.item_count % 2
                };
                assert(take == (if left { slot_stack.item_count } else { ((slot_stack.item_count + 1) / 2) as u8 }));
                let taken = self.try_take_stack_range(slot, take, u8::MAX);
                if let Some(t) = taken {
                    self.cursor = t;
                }
            } else if self.can_insert(slot, &cursor) {
                if slot_stack.are_items_and_components_equal(&cursor) {
                    let insert = if left {
                        cursor.item_count
                    } else {
                        1
                    };
                    self.insert_stack_count(slot, &mut cursor, insert);
                    self.cursor = cursor;
                } else if cursor.item_count <= self.get_max_item_count_for_stack(slot, &cursor) {
                    let old_cursor = cursor;
                    self.cursor = slot_stack;
                    self.set_stack(slot, old_cursor);
                }
            } else if slot_stack.are_items_and_components_equal(&cursor) {
                let room = if cursor.max_stack_size >= cursor.item_count {
                    cursor.max_stack_size - cursor.item_count
                } else {
                    0
                };
                let taken = self.try_take_stack_range(slot, slot_stack.item_count, room);
                if let Some(t) = taken {
                    proof {
                        assert(t.item_count <= room);
                    }
                    cursor.increment(t.item_count);
                    self.cursor = cursor;
                }
            }
        }
    }

    /// Drops from the cursor when clicking outside the window: all of it on a
    /// left click, one item on a right click.
    pub fn click_outside(&mut self, left: bool) -> (drops: Vec<ItemStack>)
        requires
            old(self).wf(),
        ensures
            final(self).kind == old(self).kind,
            final(self).recipes@ == old(self).recipes@,
            final(self).recipe_cache == old(self).recipe_cache,
            final(self).revision == old(self).revision,
            final(self).wf(),
            final(self).slots@ == old(self).slots@,
            final(self).own@.len() == old(self).own@.len(),
            final(self).player.selected_slot == old(self).player.selected_slot,
            final(self).drag_slots@ == old(self).drag_slots@,
            final(self).stacks() == old(self).stacks(),
            spec_is_empty(old(self).cursor) ==> drops@ == Seq::<ItemStack>::empty()
                && final(self).cursor == old(self).cursor,
            !spec_is_empty(old(self).cursor) && left ==> drops@ == seq![old(self).cursor]
                && final(self).cursor == empty_stack(),
            !spec_is_empty(old(self).cursor) && !left ==> drops@ == seq![with_count(old(self).cursor, min_u8(1, old(self).cursor.item_count))]
                && final(self).cursor == with_count(old(self).cursor, (old(self).cursor.item_count - min_u8(1, old(self).cursor.item_count)) as u8),
    {
        let mut drops: Vec<ItemStack> = Vec::new();
        if !self.cursor.is_empty() {
            if left {
                drops.push(self.cursor);
                self.cursor = ItemStack::empty();
            } else {
                let mut cursor = self.cursor;
                let one = cursor.split(1);
                drops.push(one);
                self.cursor = cursor;
            }
        }
        drops
    }

    /// Throws from a slot while the cursor is empty: one item, or (button 1)
    /// the whole stack, taken repeatedly while the slot holds that kind.
    pub fn throw_from_slot(&mut self, slot: usize, all: bool) -> (drops: Vec<ItemStack>)
        requires
            old(self).wf(),
            slot < old(self).slots@.len(),
            slot_placed(old(self).view(), slot as int),
            all ==> !(old(self).slots@[slot as int].kind is Result) || spec_is_empty(old(self).slot_stack(slot as int)),
        ensures
            final(self).kind == old(self).kind,
            final(self).recipes@ == old(self).recipes@,
            !(old(self).slots@[slot as int].kind is Result && !all && !spec_is_empty(old(self).slot_stack(slot as int)))
                ==> final(self).recipe_cache == old(self).recipe_cache,
            final(self).revision == old(self).revision,
            final(self).wf(),
            final(self).slots@ == old(self).slots@,
            final(self).own@.len() == old(self).own@.len(),
            final(self).player.selected_slot == old(self).player.selected_slot,
            final(self).drag_slots@ == old(self).drag_slots@,
            final(self).cursor == old(self).cursor,
            ({
                let kind = old(self).slots@[slot as int].kind;
                let prev = old(self).slot_stack(slot as int);
                if spec_is_empty(prev) {
                    final(self).stacks() == old(self).stacks() && drops@ == Seq::<ItemStack>::empty()
                } else if kind is Result && !all {
                    &&& final(self).view() == take_result(take_result(old(self).view()))
                    &&& drops@ == seq![prev]
                } else if all {
                    final(self).stacks() == old(self).with_slot(slot as int, throw_all(kind, prev, prev).0)
                        && drops@ == throw_all(kind, prev, prev).1
                } else {
                    let (s2, t) = try_take_effect(kind, prev, 1, 255);
                    &&& final(self).stacks() == old(self).with_slot(slot as int, s2)
                    &&& drops@ == match t {
                        Some(t) => if spec_is_empty(t) { Seq::<ItemStack>::empty() } else { seq![t] },
                        None => Seq::<ItemStack>::empty(),
                    }
                }
            }),
    {
        let mut drops: Vec<ItemStack> = Vec::new();
        let prev = self.get_stack(slot);
        let ghost kind = self.slots@[slot as int].kind;
        if prev.is_empty() {
            return drops;
        }
        if !all && self.slots[slot].kind == SlotKind::Result {
            // the result is taken, and its grid used, once by the take and
            // once more as it is thrown
            self.take_result();
            self.take_result();
            drops.push(prev);
            proof {
                assert(drops@ =~= seq![prev]);
            }
            return drops;
        }
        if all {
            loop
                invariant
                    self.kind == old(self).kind,
                    self.recipes@ == old(self).recipes@,
                    self.recipe_cache == old(self).recipe_cache,
                    self.revision == old(self).revision,
                    self.wf(),
                    slot < self.slots@.len(),
                    self.slots@ == old(self).slots@,
                    self.own@.len() == old(self).own@.len(),
                    self.player.selected_slot == old(self).player.selected_slot,
                    self.drag_slots@ == old(self).drag_slots@,
                    self.cursor == old(self).cursor,
                    kind == self.slots@[slot as int].kind,
                    prev == old(self).slot_stack(slot as int),
                    !spec_is_empty(prev),
                    same_kind(self.slot_stack(slot as int), prev) ==> !spec_is_empty(self.slot_stack(slot as int)),
                    ({
                        let (s_end, ds) = throw_all(kind, self.slot_stack(slot as int), prev);
                        &&& old(self).with_slot(slot as int, throw_all(kind, prev, prev).0) == self.with_slot(slot as int, s_end)
                        &&& throw_all(kind, prev, prev).1 == drops@ + ds
                    }),
                ensures
                    self.wf(),
                    self.slots@ == old(self).slots@,
                    self.own@.len() == old(self).own@.len(),
                    self.player.selected_slot == old(self).player.selected_slot,
                    self.drag_slots@ == old(self).drag_slots@,
                    self.cursor == old(self).cursor,
                    self.stacks() == old(self).with_slot(slot as int, throw_all(kind, prev, prev).0),
                    drops@ == throw_all(kind, prev, prev).1,
                decreases self.slot_stack(slot as int).item_count,
            {
                let current = self.get_stack(slot);
                if !current.are_items_and_components_equal(&prev) {
                    assert(throw_all(kind, current, prev).1 == Seq::<ItemStack>::empty());
                    assert(drops@ + Seq::<ItemStack>::empty() =~= drops@);
                    assert(self.with_slot(slot as int, current) =~= self.stacks());
                    break;
                }
                let ghost before = self.slot_stack(slot as int);
                let ghost drops_before = drops@;
                let ghost stacks_before = self.stacks();
                let d = self.safe_take(slot, prev.item_count, u8::MAX);
                drops.push(d);
                proof {
                    let (s2, t) = try_take_effect(kind, before, prev.item_count, 255);
                    assert(self.slot_stack(slot as int) == s2);
                    assert(s2.item_count < before.item_count || !same_kind(s2, prev));
                    assert(drops_before.push(d) + throw_all(kind, s2, prev).1 =~= drops_before + (seq![d] + throw_all(kind, s2, prev).1));
                    assert(self.with_slot(slot as int, throw_all(kind, s2, prev).0) =~= stacks_before.update(
                        self.slots@[slot as int].stack_index as int, throw_all(kind, s2, prev).0));
                }
                if !self.get_stack(slot).are_items_and_components_equal(&prev) {
                    proof {
                        let s2 = self.slot_stack(slot as int);
                        assert(throw_all(kind, s2, prev).1 == Seq::<ItemStack>::empty());
                        assert(drops@ + Seq::<ItemStack>::empty() =~= drops@);
                        assert(self.with_slot(slot as int, s2) =~= self.stacks());
                    }
                    break;
                }
            }
        } else {
            let d = self.safe_take(slot, 1, u8::MAX);
            if !d.is_empty() {
                drops.push(d);
            }
        }
        drops
    }

    /// In creative mode, puts a full stack of the slot's item on the cursor.
    pub fn clone_slot(&mut self, slot: usize)
        requires
            old(self).wf(),
            slot < old(self).slots@.len(),
        ensures
            final(self).kind == old(self).kind,
            final(self).recipes@ == old(self).recipes@,
            final(self).recipe_cache == old(self).recipe_cache,
            final(self).revision == old(self).revision,
            final(self).wf(),
            final(self).slots@ == old(self).slots@,
            final(self).own@.len() == old(self).own@.len(),
            final(self).player.selected_slot == old(self).player.selected_slot,
            final(self).drag_slots@ == old(self).drag_slots@,
            final(self).stacks() == old(self).stacks(),
            final(self).cursor == with_count(
                old(self).slot_stack(slot as int),
                old(self).slot_stack(slot as int).max_stack_size,
            ),
    {
        let stack = self.get_stack(slot);
        self.cursor = stack.copy_with_count(stack.get_max_stack_size());
    }

    /// Gathers items of the cursor's kind from every slot that may be changed,
    /// until the cursor is full.
    pub fn pickup_all(&mut self)
        requires
            old(self).wf(),
            old(self).cursor.item_count <= old(self).cursor.max_stack_size,
        ensures
            final(self).kind == old(self).kind,
            final(self).recipes@ == old(self).recipes@,
            final(self).recipe_cache == old(self).recipe_cache,
            final(self).revision == old(self).revision,
            final(self).wf(),
            final(self).slots@ == old(self).slots@,
            final(self).own@.len() == old(self).own@.len(),
            final(self).player.selected_slot == old(self).player.selected_slot,
            final(self).drag_slots@ == old(self).drag_slots@,
            (final(self).stacks(), final(self).cursor) == pickup_all_pass(
                old(self).stacks(),
                old(self).slots@,
                old(self).cursor,
                0,
                (old(self).cursor.max_stack_size - old(self).cursor.item_count) as u8,
            ),
    {
        let mut to_pick_up: u8 = self.cursor.get_max_stack_size() - self.cursor.item_count;
        let mut k: usize = 0;
        while k < self.slots.len()
            invariant
                self.kind == old(self).kind,
                self.recipes@ == old(self).recipes@,
                self.recipe_cache == old(self).recipe_cache,
                self.revision == old(self).revision,
                self.wf(),
                self.slots@ == old(self).slots@,
                self.own@.len() == old(self).own@.len(),
                self.player.selected_slot == old(self).player.selected_slot,
                self.drag_slots@ == old(self).drag_slots@,
                k <= self.slots@.len(),
                to_pick_up as int == self.cursor.max_stack_size - self.cursor.item_count,
                self.cursor.max_stack_size == old(self).cursor.max_stack_size,
                pickup_all_pass(self.stacks(), self.slots@, self.cursor, k as int, to_pick_up)
                    == pickup_all_pass(old(self).stacks(), old(self).slots@, old(self).cursor, 0,
                        (old(self).cursor.max_stack_size - old(self).cursor.item_count) as u8),
            ensures
                self.wf(),
                self.slots@ == old(self).slots@,
                self.own@.len() == old(self).own@.len(),
                self.player.selected_slot == old(self).player.selected_slot,
                self.drag_slots@ == old(self).drag_slots@,
                (self.stacks(), self.cursor) == pickup_all_pass(old(self).stacks(), old(self).slots@, old(self).cursor, 0,
                    (old(self).cursor.max_stack_size - old(self).cursor.item_count) as u8),
            decreases self.slots@.len() - k,
        {
            if to_pick_up == 0 {
                break;
            }
            let item_stack = self.get_stack(k);
            if !item_stack.are_items_and_components_equal(&self.cursor) {
                k = k + 1;
                continue;
            }
            if !self.allow_modification(k) {
                k = k + 1;
                continue;
            }
            let amount = if item_stack.item_count <= to_pick_up {
                item_stack.item_count
            } else {
                to_pick_up
            };
            let room = self.cursor.get_max_stack_size() - self.cursor.item_count;
            let ghost stacks_before = self.stacks();
            let taken = self.safe_take(k, amount, room);
            proof {
                assert(self.stacks() =~= stacks_before.update(self.slots@[k as int].stack_index as int,
                    try_take_effect(self.slots@[k as int].kind, item_stack, amount, room).0));
            }
            to_pick_up = to_pick_up - taken.item_count;
            let mut cursor = self.cursor;
            cursor.increment(taken.item_count);
            self.cursor = cursor;
            k = k + 1;
        }
    }

    /// Adds a slot to the drag in progress when the cursor's stack can go there.
    pub fn drag_add_slot(&mut self, slot: usize)
        requires
            old(self).wf(),
            slot < old(self).slots@.len(),
            slot <= u32::MAX,
        ensures
            final(self).kind == old(self).kind,
            final(self).recipes@ == old(self).recipes@,
            final(self).recipe_cache == old(self).recipe_cache,
            final(self).revision == old(self).revision,
            final(self).wf(),
            final(self).slots@ == old(self).slots@,
            final(self).own@.len() == old(self).own@.len(),
            final(self).player.selected_slot == old(self).player.selected_slot,
            final(self).stacks() == old(self).stacks(),
            final(self).cursor == old(self).cursor,
            ({
                let s = old(self).slot_stack(slot as int);
                let kind = old(self).slots@[slot as int].kind;
                let c = old(self).cursor;
                if !spec_is_empty(c) && accepts(kind, c) && (same_kind(s, c) || spec_is_empty(s))
                    && max_for(kind, s) > s.item_count {
                    final(self).drag_slots@ == old(self).drag_slots@.push(slot as u32)
                } else {
                    final(self).drag_slots@ == old(self).drag_slots@
                }
            }),
    {
        let stack = self.get_stack(slot);
        if !self.cursor.is_empty() && self.can_insert(slot, &self.cursor)
            && (stack.are_items_and_components_equal(&self.cursor) || stack.is_empty())
            && self.get_max_item_count_for_stack(slot, &stack) > stack.item_count {
            self.drag_slots.push(slot as u32);
        }
    }

    /// Puts the cursor's items in the drag slots; see `drag_pass`.
    pub fn drag_spread(&mut self, button: u8)
        requires
            old(self).wf(),
            drag_ok(old(self).stacks(), old(self).slots@, old(self).cursor, old(self).drag_slots@, button as int),
        ensures
            final(self).kind == old(self).kind,
            final(self).recipes@ == old(self).recipes@,
            final(self).recipe_cache == old(self).recipe_cache,
            final(self).revision == old(self).revision,
            final(self).wf(),
            final(self).slots@ == old(self).slots@,
            final(self).own@.len() == old(self).own@.len(),
            final(self).player.selected_slot == old(self).player.selected_slot,
            final(self).drag_slots@ == old(self).drag_slots@,
            (final(self).stacks(), final(self).cursor) == drag_pass(
                old(self).stacks(),
                old(self).slots@,
                old(self).cursor,
                old(self).drag_slots@,
                0,
                button as int,
                old(self).cursor.item_count,
            ),
    {
        let initial_count = self.cursor.item_count;
        let n = self.drag_slots.len();
        let mut k: usize = 0;
        while k < n
            invariant_except_break
                self.kind == old(self).kind,
                self.recipes@ == old(self).recipes@,
                self.recipe_cache == old(self).recipe_cache,
                self.revision == old(self).revision,
                drag_fits(self.stacks(), self.slots@, self.cursor, self.drag_slots@, k as int, button as int, initial_count),
                drag_pass(self.stacks(), self.slots@, self.cursor, self.drag_slots@, k as int, button as int, initial_count)
                    == drag_pass(old(self).stacks(), old(self).slots@, old(self).cursor, old(self).drag_slots@, 0,
                        button as int, initial_count),
            invariant
                self.kind == old(self).kind,
                self.recipes@ == old(self).recipes@,
                self.recipe_cache == old(self).recipe_cache,
                self.revision == old(self).revision,
                self.wf(),
                self.slots@ == old(self).slots@,
                self.own@.len() == old(self).own@.len(),
                self.player.selected_slot == old(self).player.selected_slot,
                self.drag_slots@ == old(self).drag_slots@,
                n == self.drag_slots@.len(),
                k <= n,
                initial_count == old(self).cursor.item_count,
                forall|j: int| 0 <= j < self.drag_slots@.len() ==> (#[trigger] self.drag_slots@[j]) < self.slots@.len(),
                button == 0 ==> (n as u8) != 0,
                button != 3,
            ensures
                self.wf(),
                self.slots@ == old(self).slots@,
                self.own@.len() == old(self).own@.len(),
                self.player.selected_slot == old(self).player.selected_slot,
                self.drag_slots@ == old(self).drag_slots@,
                (self.stacks(), self.cursor) == drag_pass(old(self).stacks(), old(self).slots@, old(self).cursor,
                    old(self).drag_slots@, 0, button as int, initial_count),
            decreases n - k,
        {
            let slot = self.drag_slots[k] as usize;
            let stack = self.get_stack(slot);
            let cursor = self.cursor;
            if (stack.are_items_and_components_equal(&cursor) || stack.is_empty()) && self.can_insert(slot, &cursor) {
                let share: u8 = if button == 0 {
                    initial_count / (n as u8)
                } else if button == 1 {
                    1
                } else {
                    cursor.get_max_stack_size()
                };
                let room = self.get_max_item_count_for_stack(slot, &stack) - stack.item_count;
                let a = if share <= room { share } else { room };
                let ins = if a <= cursor.item_count { a } else { cursor.item_count };
                if ins > 0 {
                    let mut new_stack = if stack.is_empty() {
                        cursor.copy_with_count(0)
                    } else {
                        stack
                    };
                    new_stack.increment(ins);
                    let ghost stacks_before = self.stacks();
                    let ghost cursor_before = self.cursor;
                    let ghost k_before = k as int;
                    self.set_stack(slot, new_stack);
                    let mut c = cursor;
                    if button != 2 {
                        c.decrement(ins);
                    }
                    self.cursor = c;
                    proof {
                        assert(self.stacks() == stacks_before.update(self.slots@[slot as int].stack_index as int, new_stack));
                    }
                    if c.is_empty() {
                        assert(drag_pass(stacks_before, self.slots@, cursor_before, self.drag_slots@, k_before, button as int, initial_count)
                            == (self.stacks(), self.cursor));
                        break;
                    }
                }
            }
            k = k + 1;
        }
    }

    /// Swaps slot `slot` with the player's slot `button`; see `swap_effect`.
    pub fn swap_with_hotbar(&mut self, slot: usize, button: usize) -> (drops: Vec<ItemStack>)
        requires
            old(self).wf(),
            slot < old(self).slots@.len(),
            button < 9 || button == 40,
            slot_placed(old(self).view(), slot as int),
        ensures
            final(self).kind == old(self).kind,
            final(self).recipes@ == old(self).recipes@,
            final(self).revision == old(self).revision,
            final(self).wf(),
            final(self).slots@ == old(self).slots@,
            final(self).drag_slots@ == old(self).drag_slots@,
            final(self).cursor == old(self).cursor,
            final(self).own@.len() == old(self).own@.len(),
            final(self).player.selected_slot == old(self).player.selected_slot,
            (final(self).view(), drops@) == swap_view(old(self).view(), slot as int, button as int),
    {
        let mut drops: Vec<ItemStack> = Vec::new();
        let button_stack = self.player.get_stack(button);
        let source_stack = self.get_stack(slot);
        let ghost own_len = self.own@.len() as int;
        let ghost p = own_len + button;
        let ghost src = self.slots@[slot as int].stack_index as int;
        proof {
            assert(self.stacks()[p] == button_stack);
        }
        if !button_stack.is_empty() || !source_stack.is_empty() {
            if button_stack.is_empty() {
                let ghost st0 = self.stacks();
                self.player.set_stack(button, source_stack);
                assert(self.stacks() =~= st0.update(p, source_stack));
                self.set_stack(slot, ItemStack::empty());
                if self.slots[slot].kind == SlotKind::Result {
                    self.take_result();
                }
            } else if self.can_take_items(slot) && self.can_insert(slot, &button_stack) {
                let max_count = self.get_max_item_count_for_stack(slot, &button_stack);
                if button_stack.item_count > max_count {
                    let mut rest = button_stack;
                    let part = rest.split(max_count);
                    self.set_stack(slot, part);
                    if !source_stack.is_empty() {
                        let ghost st1 = self.stacks();
                        let ghost ps0 = self.player.slots();
                        assert(ps0 =~= st1.subrange(own_len, own_len + 41));
                        let inserted = self.player.insert_stack_anywhere(&mut rest);
                        assert(self.stacks() =~= st1.subrange(0, own_len) + self.player.slots());
                        if !inserted {
                            drops.push(rest);
                        }
                        proof {
                            assert(drops@ =~= (if inserted { Seq::<ItemStack>::empty() } else { seq![rest] }));
                        }
                    }
                } else {
                    let ghost st0 = self.stacks();
                    if source_stack.is_empty() {
                        self.player.set_stack(button, ItemStack::empty());
                        assert(self.stacks() =~= st0.update(p, empty_stack()));
                    } else {
                        self.player.set_stack(button, source_stack);
                        assert(self.stacks() =~= st0.update(p, source_stack));
                    }
                    self.set_stack(slot, button_stack);
                }
            }
        }
        drops
    }

    /// Shift-clicks slot `slot` of the player's window; see `quick_move_effect`.
    pub fn quick_move(&mut self, slot: usize) -> (r: (ItemStack, Vec<ItemStack>))
        requires
            old(self).wf(),
            player_layout(old(self).slots@),
            slot < 46,
            !(slot == 45 && old(self).slot_stack(slot as int).armor == ArmorFit::OffHand),
            slot_placed(old(self).view(), slot as int),
        ensures
            final(self).kind == old(self).kind,
            final(self).recipes@ == old(self).recipes@,
            final(self).revision == old(self).revision,
            final(self).wf(),
            final(self).slots@ == old(self).slots@,
            final(self).own@.len() == old(self).own@.len(),
            final(self).player.selected_slot == old(self).player.selected_slot,
            final(self).drag_slots@ == old(self).drag_slots@,
            final(self).cursor == old(self).cursor,
            (final(self).view(), r.0, r.1@) == quick_move_effect(old(self).view(), slot as int),
    {
        let mut drops: Vec<ItemStack> = Vec::new();
        let s = self.get_stack(slot);
        if s.is_empty() {
            return (ItemStack::empty(), drops);
        }
        let a: i32 = match s.armor {
            ArmorFit::Head => 5,
            ArmorFit::Chest => 6,
            ArmorFit::Legs => 7,
            ArmorFit::Feet => 8,
            _ => -1,
        };
        let range: (i32, i32, bool) = if slot == 0 {
            (9, 45, true)
        } else if 1 <= slot && slot < 9 {
            (9, 45, false)
        } else if a != -1 && self.get_stack(a as usize).is_empty() {
            (a, a + 1, false)
        } else if s.armor == ArmorFit::OffHand {
            (45, 46, false)
        } else if 9 <= slot && slot < 36 {
            (36, 45, false)
        } else if 36 <= slot && slot < 45 {
            (9, 36, false)
        } else {
            (9, 45, false)
        };
        assert(range.0 as int == quick_move_range(old(self).view(), slot as int, s).0
            && range.1 as int == quick_move_range(old(self).view(), slot as int, s).1
            && range.2 == quick_move_range(old(self).view(), slot as int, s).2);
        let mut moving = s;
        proof {
            super::screen::lemma_insert_item_unchanged(self.stacks(), self.slots@, s, range.0 as int, range.1 as int, range.2);
        }
        let ok = self.insert_item(&mut moving, range.0, range.1, range.2);
        if !ok {
            return (ItemStack::empty(), drops);
        }
        if moving.is_empty() {
            self.set_stack(slot, ItemStack::empty());
        } else {
            self.set_stack(slot, moving);
        }
        if moving.item_count == s.item_count {
            return (ItemStack::empty(), drops);
        }
        if self.slots[slot].kind == SlotKind::Result {
            self.take_result();
        }
        if slot == 0 && !moving.is_empty() {
            drops.push(moving);
        }
        proof {
            assert(drops@ =~= (if slot == 0 && !spec_is_empty(moving) { seq![moving] } else { Seq::<ItemStack>::empty() }));
        }
        (s, drops)
    }

    /// Shift-clicks slot `slot` by the route of the window's kind; see
    /// `shift_click_effect`.
    pub fn shift_click(&mut self, slot: usize) -> (r: (ItemStack, Vec<ItemStack>))
        requires
            old(self).wf(),
            shift_click_ok(old(self).view(), slot as int),
        ensures
            final(self).kind == old(self).kind,
            final(self).recipes@ == old(self).recipes@,
            final(self).revision == old(self).revision,
            final(self).wf(),
            final(self).slots@ == old(self).slots@,
            final(self).own@.len() == old(self).own@.len(),
            final(self).player.selected_slot == old(self).player.selected_slot,
            final(self).drag_slots@ == old(self).drag_slots@,
            final(self).cursor == old(self).cursor,
            (final(self).view(), r.0, r.1@) == shift_click_effect(old(self).view(), slot as int),
    {
        match self.kind {
            ScreenKind::Player => self.quick_move(slot),
            ScreenKind::CraftingTable => self.crafting_table_quick_move(slot),
        }
    }

    fn quick_move_rest(&mut self, slot: usize, moved: ItemStack, drops: &mut Vec<ItemStack>)
        requires
            old(self).wf(),
            shift_click_ok(old(self).view(), slot as int),
        ensures
            final(self).kind == old(self).kind,
            final(self).recipes@ == old(self).recipes@,
            final(self).revision == old(self).revision,
            final(self).wf(),
            final(self).slots@ == old(self).slots@,
            final(self).drag_slots@ == old(self).drag_slots@,
            final(self).cursor == old(self).cursor,
            final(self).own@.len() == old(self).own@.len(),
            final(self).player.selected_slot == old(self).player.selected_slot,
            !spec_is_empty(moved) && same_kind(old(self).slot_stack(slot as int), moved) ==> (
                final(self).view(), final(drops)@) == ({
                    let (v3, ds) = quick_move_loop(old(self).view(), slot as int);
                    (v3, old(drops)@ + ds)
                }),
            !(!spec_is_empty(moved) && same_kind(old(self).slot_stack(slot as int), moved)) ==> final(self).view()
                == old(self).view() && final(drops)@ == old(drops)@,
        decreases shift_click_measure(old(self).view(), slot as int),
    {
        if moved.is_empty() || !self.get_stack(slot).are_items_and_components_equal(&moved) {
            return;
        }
        let ghost v0 = self.view();
        let ghost d0 = drops@;
        let ghost src = self.slots@[slot as int].stack_index as int;
        proof {
            lemma_quick_move_facts(v0, slot as int);
        }
        let (m2, d2) = self.shift_click(slot);
        let mut d2 = d2;
        drops.append(&mut d2);
        proof {
            assert(self.view() == shift_click_effect(v0, slot as int).0);
        }
        if m2.is_empty() || !self.get_stack(slot).are_items_and_components_equal(&m2) {
            proof {
                assert(drops@ =~= d0 + shift_click_effect(v0, slot as int).2);
            }
            return;
        }
        proof {
            lemma_quick_move_facts(v0, slot as int);
        }
        let ghost v1 = self.view();
        let ghost d1 = drops@;
        self.quick_move_rest(slot, m2, drops);
        proof {
            if !spec_is_empty(m2) && same_kind(v1.stacks[src], m2) {
                assert(drops@ =~= d0 + (shift_click_effect(v0, slot as int).2 + quick_move_loop(v1, slot as int).1));
            } else {
                assert(drops@ =~= d0 + shift_click_effect(v0, slot as int).2);
            }
        }
    }

    fn click_quick_craft(&mut self, slot_index: i32, button: i32, creative: bool)
        requires
            old(self).wf(),
            click_ok(old(self).view(), slot_index, button, SlotActionType::QuickCraft, creative),
        ensures
            final(self).kind == old(self).kind,
            final(self).recipes@ == old(self).recipes@,
            final(self).revision == old(self).revision,
            final(self).wf(),
            final(self).slots@ == old(self).slots@,
            (final(self).view(), Seq::<ItemStack>::empty()) == click_effect(old(self).view(), slot_index, button, SlotActionType::QuickCraft, creative),
    {
        let drag_type = button & 3;
        let drag_button = (button >> 2) & 3;
        assert(0 <= ((button >> 2) & 3) <= 3) by (bit_vector);
        if drag_type == 0 {
            self.drag_slots.clear();
        } else if drag_type == 1 {
            if slot_index >= 0 {
                self.drag_add_slot(slot_index as usize);
            }
        } else if drag_type == 2 && self.drag_slots.len() > 0 {
            if self.drag_slots.len() == 1 {
                let slot = self.drag_slots[0] as usize;
                self.drag_slots.clear();
                if drag_button == 0 || drag_button == 1 {
                    self.pickup_slot(slot, drag_button == 0);
                }
            } else if drag_button == 2 && !creative {
            } else {
                self.drag_spread(drag_button as u8);
                self.drag_slots.clear();
            }
        }
    }

    fn click_pickup_or_move(&mut self, slot_index: i32, button: i32, action: SlotActionType) -> (drops: Vec<ItemStack>)
        requires
            old(self).wf(),
            action == SlotActionType::Pickup || action == SlotActionType::QuickMove,
            button == 0 || button == 1,
            click_ok(old(self).view(), slot_index, button, action, false),
        ensures
            final(self).kind == old(self).kind,
            final(self).recipes@ == old(self).recipes@,
            final(self).revision == old(self).revision,
            final(self).wf(),
            final(self).slots@ == old(self).slots@,
            (final(self).view(), drops@) == click_effect(old(self).view(), slot_index, button, action, false),
    {
        let mut drops: Vec<ItemStack> = Vec::new();
        if slot_index == SLOT_INDEX_OUTSIDE {
            drops = self.click_outside(button == 0);
        } else if slot_index >= 0 {
            if action == SlotActionType::QuickMove {
                proof {
                    lemma_quick_move_facts(old(self).view(), slot_index as int);
                }
                let (moved, d) = self.shift_click(slot_index as usize);
                drops = d;
                let ghost v1 = self.view();
                let ghost d1 = drops@;
                proof {
                    lemma_quick_move_facts(old(self).view(), slot_index as int);
                }
                self.quick_move_rest(slot_index as usize, moved, &mut drops);
                proof {
                    let v0 = old(self).view();
                    let slot = slot_index as int;
                    let src = v0.rules[slot].stack_index as int;
                    let s0 = v0.stacks[src];
                    lemma_quick_move_facts(v0, slot);
                    if !spec_is_empty(moved) && same_kind(v1.stacks[src], moved) {
                        assert(drops@ =~= d1 + quick_move_loop(v1, slot).1);
                    } else {
                        assert(drops@ =~= d1 + Seq::<ItemStack>::empty());
                    }
                }
            } else {
                self.pickup_slot(slot_index as usize, button == 0);
            }
        }
        drops
    }

    /// Handles a click; see `click_effect`. Returns the stacks the player drops.
    pub fn on_slot_click(&mut self, slot_index: i32, button: i32, action: SlotActionType, creative: bool) -> (drops: Vec<ItemStack>)
        requires
            old(self).wf(),
            click_ok(old(self).view(), slot_index, button, action, creative),
        ensures
            final(self).kind == old(self).kind,
            final(self).recipes@ == old(self).recipes@,
            final(self).revision == old(self).revision,
            final(self).wf(),
            final(self).slots@ == old(self).slots@,
            (final(self).view(), drops@) == click_effect(old(self).view(), slot_index, button, action, creative),
    {
        let mut drops: Vec<ItemStack> = Vec::new();
        if action == SlotActionType::PickupAll && button == 0 {
            self.pickup_all();
        } else if action == SlotActionType::QuickCraft {
            self.click_quick_craft(slot_index, button, creative);
        } else if action == SlotActionType::Throw {
            if slot_index >= 0 && self.cursor.is_empty() {
                drops = self.throw_from_slot(slot_index as usize, button == 1);
            }
        } else if action == SlotActionType::Clone {
            if creative && slot_index >= 0 {
                self.clone_slot(slot_index as usize);
            }
        } else if (action == SlotActionType::Pickup || action == SlotActionType::QuickMove) && (button == 0 || button == 1) {
            drops = self.click_pickup_or_move(slot_index, button, action);
        } else if (action == SlotActionType::Swap && 0 <= button && button < 9) || button == 40 {
            drops = self.swap_with_hotbar(slot_index as usize, button as usize);
        }
        drops
    }
}

} // verus!
