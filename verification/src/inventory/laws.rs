//! Laws of inventories and windows: moving items between a stack and the
//! slots neither creates nor destroys items, and items go where the player
//! expects them.
use vstd::prelude::*;

use super::player_inventory::{
    add_at, add_stack_effect, add_target, add_to_slot, addable, insert_round, insert_rounds,
    insert_stack_effect, lemma_add_target, lemma_insert_rounds_at, offer_rounds, offerable,
    MAIN_SIZE,
};
use super::stack::{min_u8, same_kind, spec_is_empty, with_count, ArmorFit, ItemStack, AIR};
use super::screen::{
    insert_item_effect, insert_item_first, max_for, merge_pass, place_pass, put, visit, SlotRule,
};
use super::clicks::{
    drag_fits, drag_pass, quick_move_effect, lemma_quick_move_facts, pickup_ok, pickup_view, player_layout, quick_move_loop, quick_move_range,
    shift_click_effect, shift_click_ok, with_stacks, ScreenView,
};
use super::player_inventory::empty_stack;
use super::screen::{grid_len, grid_stacks, ScreenKind};
use super::crafting::{refill, filled_total, lemma_use_one_total, result_placed, use_grid, use_one, window_grid};

verus! {

/// The items a stack holds: none when it is empty.
pub open spec fn count_in(s: ItemStack) -> int {
    if spec_is_empty(s) {
        0
    } else {
        s.item_count as int
    }
}

/// The items held by a sequence of slots.
pub open spec fn total(slots: Seq<ItemStack>) -> int
    decreases slots.len(),
{
    if slots.len() == 0 {
        0
    } else {
        total(slots.drop_last()) + count_in(slots.last())
    }
}

/// Replacing one slot changes the total by the difference of the two stacks.
pub proof fn lemma_total_update(slots: Seq<ItemStack>, t: int, v: ItemStack)
    requires
        0 <= t < slots.len(),
    ensures
        total(slots.update(t, v)) == total(slots) - count_in(slots[t]) + count_in(v),
    decreases slots.len(),
{
    let u = slots.update(t, v);
    if t == slots.len() - 1 {
        assert(u.drop_last() =~= slots.drop_last());
    } else {
        assert(u.drop_last() =~= slots.drop_last().update(t, v));
        lemma_total_update(slots.drop_last(), t, v);
    }
}

/// Adding a stack to a slot moves items from the stack into the slot: the
/// slots gain exactly what the stack loses.
pub proof fn law_add_conserves_items(slots: Seq<ItemStack>, t: int, stack: ItemStack)
    requires
        0 <= t < slots.len(),
        addable(slots[t]),
        !spec_is_empty(stack),
    ensures
        total(add_at(slots, t, stack).0) + add_at(slots, t, stack).1 == total(slots)
            + stack.item_count,
{
    lemma_total_update(slots, t, add_to_slot(slots[t], stack).0);
}

/// Inserting a stack, in any number of rounds, moves items from the stack into
/// the slots: the slots gain exactly what the stack loses.
pub proof fn law_insert_conserves_items(
    slots: Seq<ItemStack>,
    selected: int,
    slot: i16,
    stack: ItemStack,
)
    requires
        slots.len() == 41,
        0 <= selected < 9,
        slot == -1 || (0 <= slot < 41 && addable(slots[slot as int])),
        !spec_is_empty(stack),
    ensures
        ({
            let (s2, left, _) = insert_rounds(slots, selected, slot, stack);
            total(s2) + left.item_count == total(slots) + stack.item_count
        }),
    decreases stack.item_count,
{
    let (slots2, left) = insert_round(slots, selected, slot, stack);
    let stack2 = with_count(stack, left);
    if slot == -1 {
        let t = add_target(slots, selected, stack);
        super::player_inventory::lemma_add_target(slots, selected, stack);
        if t != -1 {
            law_add_conserves_items(slots, t, stack);
        }
    } else {
        law_add_conserves_items(slots, slot as int, stack);
    }
    if !(spec_is_empty(stack2) || left >= stack.item_count) {
        super::player_inventory::lemma_insert_round_keeps(slots, selected, slot, stack);
        law_insert_conserves_items(slots2, selected, slot, stack2);
    }
}

/// Offering a stack loses no items and makes none: what the slots gain and
/// what is dropped add up to the stack.
pub proof fn law_offer_conserves_items(slots: Seq<ItemStack>, selected: int, stack: ItemStack, notify: bool)
    requires
        slots.len() == 41,
        0 <= selected < 9,
        offerable(slots, stack) || spec_is_empty(stack),
    ensures
        ({
            let (s2, _, dropped) = offer_rounds(slots, selected, stack, notify);
            total(s2) + (match dropped {
                Some(d) => count_in(d),
                None => 0,
            }) == total(slots) + count_in(stack)
        }),
    decreases stack.item_count,
{
    if !spec_is_empty(stack) {
        let room = add_target(slots, selected, stack);
        lemma_add_target(slots, selected, stack);
        if room != -1 {
            let fit = (stack.max_stack_size - slots[room].item_count) as u8;
            let taken = min_u8(fit, stack.item_count);
            let part = with_count(stack, taken);
            let rest = with_count(stack, (stack.item_count - taken) as u8);
            if spec_is_empty(slots[room]) {
                assert(slots[room].item_count == 0);
            }
            assert(fit > 0 && fit as int == stack.max_stack_size - slots[room].item_count);
            assert(taken > 0);
            lemma_insert_rounds_at(slots, selected, room as i16, part);
            law_insert_conserves_items(slots, selected, room as i16, part);
            let (s2, part_left, i) = insert_rounds(slots, selected, room as i16, part);
            // the first round takes the whole part, so nothing of it is left
            assert(add_to_slot(slots[room], part).1 == 0);
            assert(part_left.item_count == 0);
            assert forall|k: int| 0 <= k < MAIN_SIZE && #[trigger] spec_is_empty(s2[k]) implies s2[k].item_count == 0 by {
                if k != room {
                    assert(s2[k] == slots[k]);
                }
            }
            law_offer_conserves_items(s2, selected, rest, notify);
        }
    }
}

/// A left or right click on a slot other than a crafting result moves items
/// between the slot and the cursor: together they hold as many items
/// afterwards as before.
pub proof fn law_pickup_conserves_items(v: ScreenView, slot: int, left: bool)
    requires
        0 <= slot < v.rules.len(),
        !(v.rules[slot].kind is Result),
        0 <= v.rules[slot].stack_index < v.stacks.len(),
        pickup_ok(v.rules[slot].kind, v.stacks[v.rules[slot].stack_index as int], v.cursor),
    ensures
        total(pickup_view(v, slot, left).stacks) + count_in(pickup_view(v, slot, left).cursor)
            == total(v.stacks) + count_in(v.cursor),
{
    let idx = v.rules[slot].stack_index as int;
    let nv = pickup_view(v, slot, left);
    lemma_total_update(v.stacks, idx, nv.stacks[idx]);
    assert(nv.stacks == v.stacks.update(idx, nv.stacks[idx]));
}

/// Moving a stack into a range of slots neither creates nor destroys items:
/// the slots gain what the stack loses.
pub proof fn law_insert_item_conserves_items(
    stacks: Seq<ItemStack>,
    rules: Seq<SlotRule>,
    stack: ItemStack,
    start: int,
    end: int,
    from_last: bool,
)
    requires
        forall|i: int| 0 <= i < rules.len() ==> #[trigger] rules[i].stack_index < stacks.len(),
        start >= end || (0 <= start && end <= rules.len()),
        stack.item != AIR,
    ensures
        total(insert_item_effect(stacks, rules, stack, start, end, from_last).0) + insert_item_effect(
            stacks,
            rules,
            stack,
            start,
            end,
            from_last,
        ).1.item_count == total(stacks) + stack.item_count,
{
    lemma_merge_conserves(stacks, rules, stack, start, end, from_last, 0, false);
    let (s1, st1, ok1) = insert_item_first(stacks, rules, stack, start, end, from_last);
    super::screen::lemma_passes_len(stacks, rules, stack, start, end, from_last, 0, false);
    super::screen::lemma_passes_shrink(stacks, rules, stack, start, end, from_last, 0, false);
    if !spec_is_empty(st1) {
        lemma_place_conserves(s1, rules, st1, start, end, from_last, 0);
    }
}

proof fn lemma_merge_conserves(
    stacks: Seq<ItemStack>,
    rules: Seq<SlotRule>,
    stack: ItemStack,
    start: int,
    end: int,
    from_last: bool,
    k: int,
    success: bool,
)
    requires
        forall|i: int| 0 <= i < rules.len() ==> #[trigger] rules[i].stack_index < stacks.len(),
        start >= end || (0 <= start && end <= rules.len()),
        stack.item != AIR,
    ensures
        total(merge_pass(stacks, rules, stack, start, end, from_last, k, success).0) + merge_pass(
            stacks,
            rules,
            stack,
            start,
            end,
            from_last,
            k,
            success,
        ).1.item_count == total(stacks) + stack.item_count,
    decreases end - start - k,
{
    if !(k < 0 || k >= end - start || spec_is_empty(stack)) {
        let i = visit(start, end, from_last, k);
        let idx = rules[i].stack_index as int;
        assert(rules[i].stack_index < stacks.len());
        let s = stacks[idx];
        let m = max_for(rules[i].kind, s);
        if !spec_is_empty(s) && same_kind(s, stack) && s.item_count + stack.item_count <= m {
            let ns = with_count(s, (s.item_count + stack.item_count) as u8);
            lemma_total_update(stacks, idx, ns);
            lemma_merge_conserves(put(stacks, rules, i, ns), rules, with_count(stack, 0), start, end, from_last, k + 1, true);
        } else if !spec_is_empty(s) && same_kind(s, stack) && s.item_count < m {
            let ns = with_count(s, m);
            lemma_total_update(stacks, idx, ns);
            lemma_merge_conserves(put(stacks, rules, i, ns), rules, with_count(stack, (stack.item_count - (m - s.item_count)) as u8), start, end, from_last, k + 1, true);
        } else {
            lemma_merge_conserves(stacks, rules, stack, start, end, from_last, k + 1, success);
        }
    }
}

proof fn lemma_place_conserves(
    stacks: Seq<ItemStack>,
    rules: Seq<SlotRule>,
    stack: ItemStack,
    start: int,
    end: int,
    from_last: bool,
    k: int,
)
    requires
        forall|i: int| 0 <= i < rules.len() ==> #[trigger] rules[i].stack_index < stacks.len(),
        start >= end || (0 <= start && end <= rules.len()),
        stack.item != AIR,
    ensures
        total(place_pass(stacks, rules, stack, start, end, from_last, k).0) + place_pass(
            stacks,
            rules,
            stack,
            start,
            end,
            from_last,
            k,
        ).1.item_count == total(stacks) + stack.item_count,
    decreases end - start - k,
{
    if !(k < 0 || k >= end - start) {
        let i = visit(start, end, from_last, k);
        let idx = rules[i].stack_index as int;
        assert(rules[i].stack_index < stacks.len());
        let s = stacks[idx];
        if spec_is_empty(s) && super::screen::accepts(rules[i].kind, stack) {
            let taken = min_u8(max_for(rules[i].kind, stack), stack.item_count);
            lemma_total_update(stacks, idx, with_count(stack, taken));
        } else {
            lemma_place_conserves(stacks, rules, stack, start, end, from_last, k + 1);
        }
    }
}

/// A pass of `insert_item` leaves alone every stack that no slot of its range
/// shows.
proof fn lemma_merge_frame(
    stacks: Seq<ItemStack>,
    rules: Seq<SlotRule>,
    stack: ItemStack,
    start: int,
    end: int,
    from_last: bool,
    k: int,
    success: bool,
    j: int,
)
    requires
        0 <= j < stacks.len(),
        forall|i: int| 0 <= i < rules.len() ==> #[trigger] rules[i].stack_index < stacks.len(),
        start >= end || (0 <= start && end <= rules.len()),
        forall|i: int| start <= i < end ==> #[trigger] rules[i].stack_index != j,
    ensures
        merge_pass(stacks, rules, stack, start, end, from_last, k, success).0[j] == stacks[j],
    decreases end - start - k,
{
    if !(k < 0 || k >= end - start || spec_is_empty(stack)) {
        let i = visit(start, end, from_last, k);
        assert(rules[i].stack_index != j);
        assert(rules[i].stack_index < stacks.len());
        let s = stacks[rules[i].stack_index as int];
        let m = max_for(rules[i].kind, s);
        if !spec_is_empty(s) && same_kind(s, stack) && s.item_count + stack.item_count <= m {
            let ns = with_count(s, (s.item_count + stack.item_count) as u8);
            lemma_merge_frame(put(stacks, rules, i, ns), rules, with_count(stack, 0), start, end, from_last, k + 1, true, j);
        } else if !spec_is_empty(s) && same_kind(s, stack) && s.item_count < m {
            let ns = with_count(s, m);
            lemma_merge_frame(
                put(stacks, rules, i, ns),
                rules,
                with_count(stack, (stack.item_count - (m - s.item_count)) as u8),
                start,
                end,
                from_last,
                k + 1,
                true,
                j,
            );
        } else {
            lemma_merge_frame(stacks, rules, stack, start, end, from_last, k + 1, success, j);
        }
    }
}

proof fn lemma_place_frame(
    stacks: Seq<ItemStack>,
    rules: Seq<SlotRule>,
    stack: ItemStack,
    start: int,
    end: int,
    from_last: bool,
    k: int,
    j: int,
)
    requires
        0 <= j < stacks.len(),
        forall|i: int| 0 <= i < rules.len() ==> #[trigger] rules[i].stack_index < stacks.len(),
        start >= end || (0 <= start && end <= rules.len()),
        forall|i: int| start <= i < end ==> #[trigger] rules[i].stack_index != j,
    ensures
        place_pass(stacks, rules, stack, start, end, from_last, k).0[j] == stacks[j],
    decreases end - start - k,
{
    if !(k < 0 || k >= end - start) {
        let i = visit(start, end, from_last, k);
        assert(rules[i].stack_index != j);
        assert(rules[i].stack_index < stacks.len());
        lemma_place_frame(stacks, rules, stack, start, end, from_last, k + 1, j);
    }
}

/// `insert_item` leaves alone every stack that no slot of its range shows.
pub proof fn lemma_insert_item_frame(
    stacks: Seq<ItemStack>,
    rules: Seq<SlotRule>,
    stack: ItemStack,
    start: int,
    end: int,
    from_last: bool,
    j: int,
)
    requires
        0 <= j < stacks.len(),
        forall|i: int| 0 <= i < rules.len() ==> #[trigger] rules[i].stack_index < stacks.len(),
        start >= end || (0 <= start && end <= rules.len()),
        forall|i: int| start <= i < end ==> #[trigger] rules[i].stack_index != j,
    ensures
        insert_item_effect(stacks, rules, stack, start, end, from_last).0[j] == stacks[j],
{
    lemma_merge_frame(stacks, rules, stack, start, end, from_last, 0, false, j);
    super::screen::lemma_passes_len(stacks, rules, stack, start, end, from_last, 0, false);
    let (s1, st1, ok1) = insert_item_first(stacks, rules, stack, start, end, from_last);
    lemma_place_frame(s1, rules, st1, start, end, from_last, 0, j);
}

/// Inserting the stack of slot `slot` into a range of other slots, then
/// leaving what is left in `slot`, keeps the number of items.
proof fn lemma_move_out_conserves(
    v: ScreenView,
    slot: int,
    start: int,
    end: int,
    from_last: bool,
)
    requires
        player_layout(v.rules),
        0 <= slot < 46,
        forall|i: int| 0 <= i < v.rules.len() ==> #[trigger] v.rules[i].stack_index < v.stacks.len(),
        0 <= start <= end <= 46,
        !(start <= slot < end),
        !spec_is_empty(v.stacks[v.rules[slot].stack_index as int]),
    ensures
        ({
            let src = v.rules[slot].stack_index as int;
            let s = v.stacks[src];
            let (st2, left, _) = insert_item_effect(v.stacks, v.rules, s, start, end, from_last);
            &&& st2.len() == v.stacks.len()
            &&& total(st2.update(src, if spec_is_empty(left) { empty_stack() } else { left })) == total(v.stacks)
        }),
{
    let src = v.rules[slot].stack_index as int;
    let s = v.stacks[src];
    assert forall|i: int| start <= i < end implies #[trigger] v.rules[i].stack_index != src by {
        assert(v.rules[i].stack_index != v.rules[slot].stack_index);
    }
    lemma_insert_item_frame(v.stacks, v.rules, s, start, end, from_last, src);
    law_insert_item_conserves_items(v.stacks, v.rules, s, start, end, from_last);
    super::screen::lemma_insert_item_len(v.stacks, v.rules, s, start, end, from_last);
    super::screen::lemma_insert_item_shrinks(v.stacks, v.rules, s, start, end, from_last);
    let (st2, left, _) = insert_item_effect(v.stacks, v.rules, s, start, end, from_last);
    lemma_total_update(st2, src, if spec_is_empty(left) { empty_stack() } else { left });
}

/// One shift-click from any slot but the crafting result moves items without
/// making or losing any, and drops nothing.
proof fn lemma_shift_click_step(v: ScreenView, slot: int)
    requires
        shift_click_ok(v, slot),
        slot != 0,
        forall|i: int| 0 <= i < v.rules.len() ==> #[trigger] v.rules[i].stack_index < v.stacks.len(),
    ensures
        shift_click_effect(v, slot).0.stacks.len() == v.stacks.len(),
        total(shift_click_effect(v, slot).0.stacks) == total(v.stacks),
        shift_click_effect(v, slot).2 == Seq::<ItemStack>::empty(),
{
    let src = v.rules[slot].stack_index as int;
    let s = v.stacks[src];
    if !spec_is_empty(s) {
        match v.kind {
            ScreenKind::Player => {
                let (start, end, from_last) = quick_move_range(v, slot, s);
                if start <= slot < end {
                    // the armor route is taken only while the armor slot is empty
                    assert(v.rules[slot].stack_index == v.rules[start].stack_index);
                }
                lemma_move_out_conserves(v, slot, start, end, from_last);
            },
            ScreenKind::CraftingTable => {
                if 1 <= slot <= 9 {
                    lemma_move_out_conserves(v, slot, 10, 46, false);
                } else {
                    lemma_move_out_conserves(v, slot, 1, 10, false);
                    if slot < 37 {
                        lemma_move_out_conserves(v, slot, 37, 46, false);
                    } else {
                        lemma_move_out_conserves(v, slot, 10, 37, false);
                    }
                    super::screen::lemma_insert_item_unchanged(v.stacks, v.rules, s, 1, 10, false);
                }
            },
        }
    }
}

/// Shift-clicking a slot other than the crafting result, as often as a click
/// repeats it, moves items between slots without making or losing any, and
/// drops nothing.
pub proof fn law_shift_click_conserves_items(v: ScreenView, slot: int)
    requires
        shift_click_ok(v, slot),
        slot != 0,
        forall|i: int| 0 <= i < v.rules.len() ==> #[trigger] v.rules[i].stack_index < v.stacks.len(),
    ensures
        total(quick_move_loop(v, slot).0.stacks) == total(v.stacks),
        quick_move_loop(v, slot).1 == Seq::<ItemStack>::empty(),
    decreases v.stacks[v.rules[slot].stack_index as int].item_count,
{
    let src = v.rules[slot].stack_index as int;
    lemma_shift_click_step(v, slot);
    lemma_quick_move_facts(v, slot);
    let (v2, moved, ds) = shift_click_effect(v, slot);
    let st2 = v2.stacks;
    if !spec_is_empty(moved) && same_kind(st2[src], moved) && st2[src].item_count < v.stacks[src].item_count {
        law_shift_click_conserves_items(v2, slot);
        assert(ds + quick_move_loop(v2, slot).1 =~= Seq::<ItemStack>::empty());
    }
}

/// Taking the crafting result onto an empty cursor crafts: the cursor gets
/// the whole result, every stack of the grid gives up one item (so the grid
/// holds fewer items), and the result slot then shows what the grid makes.
pub proof fn law_taking_the_result_crafts(v: ScreenView, left: bool)
    requires
        result_placed(v),
        v.rules[0].kind is Result,
        v.stacks.len() >= 1 + grid_len(v.kind),
        !spec_is_empty(v.stacks[0]),
        spec_is_empty(v.cursor),
    ensures
        ({
            let after = pickup_view(v, 0, left);
            let g = grid_stacks(v.kind, v.stacks);
            let g2 = grid_stacks(v.kind, after.stacks);
            &&& after.cursor == v.stacks[0]
            &&& g2.len() == g.len()
            &&& forall|j: int| 0 <= j < g.len() ==> #[trigger] g2[j] == use_one(g[j])
            &&& (exists|j: int| 0 <= j < g.len() && !spec_is_empty(#[trigger] g[j])) ==> filled_total(g2) < filled_total(g)
            &&& after.stacks[0] == refill(window_grid(v.kind, after.stacks), v.recipes, v.recipe_cache).0
            &&& after.recipe_cache == refill(window_grid(v.kind, after.stacks), v.recipes, v.recipe_cache).1
        }),
{
    let after = pickup_view(v, 0, left);
    let g = grid_stacks(v.kind, v.stacks);
    let g2 = grid_stacks(v.kind, after.stacks);
    let used = use_grid(v.kind, v.stacks);
    assert(g2 =~= grid_stacks(v.kind, used));
    assert forall|j: int| 0 <= j < g.len() implies #[trigger] g2[j] == use_one(g[j]) by {
        assert(g2[j] == used[1 + j]);
    }
    assert(window_grid(v.kind, after.stacks) == window_grid(v.kind, used));
    lemma_use_one_total(g, g2);
}

/// Adding a stack fills the selected hotbar slot first: when that slot holds
/// a stackable stack of the same kind with room, items go into it and every
/// other slot is left as it was.
pub proof fn law_add_fills_the_selected_slot_first(slots: Seq<ItemStack>, selected: int, stack: ItemStack)
    requires
        slots.len() == 41,
        0 <= selected < 9,
        !spec_is_empty(stack),
        !spec_is_empty(slots[selected]),
        same_kind(slots[selected], stack),
        slots[selected].max_stack_size > 1,
        slots[selected].item_count < slots[selected].max_stack_size,
    ensures
        add_stack_effect(slots, selected, stack).0.len() == 41,
        add_stack_effect(slots, selected, stack).0[selected].item_count > slots[selected].item_count,
        same_kind(add_stack_effect(slots, selected, stack).0[selected], stack),
        forall|j: int| 0 <= j < 41 && j != selected ==> #[trigger] add_stack_effect(slots, selected, stack).0[j] == slots[j],
{
}

/// Ending a drag with the right button puts at most one item into the stack
/// of each drag slot, exactly one into the first while the cursor holds items
/// and that slot takes them with room to spare, and changes no stack that no
/// remaining drag slot shows, when the drag slots show distinct stacks.
pub proof fn law_right_drag_places_one_each(
    stacks: Seq<ItemStack>,
    rules: Seq<SlotRule>,
    cursor: ItemStack,
    drag: Seq<u32>,
    k: int,
    initial: u8,
)
    requires
        0 <= k,
        forall|m: int| 0 <= m < drag.len() ==> (#[trigger] drag[m]) < rules.len(),
        forall|i: int| 0 <= i < rules.len() ==> #[trigger] rules[i].stack_index < stacks.len(),
        forall|a: int, b: int|
            0 <= a < b < drag.len() ==> rules[#[trigger] drag[a] as int].stack_index != rules[#[trigger] drag[b] as int].stack_index,
        drag_fits(stacks, rules, cursor, drag, k, 1, initial),
    ensures
        drag_pass(stacks, rules, cursor, drag, k, 1, initial).0.len() == stacks.len(),
        forall|j: int|
            0 <= j < stacks.len() ==> count_in(#[trigger] drag_pass(stacks, rules, cursor, drag, k, 1, initial).0[j])
                <= count_in(stacks[j]) + 1,
        forall|j: int|
            0 <= j < stacks.len() && (forall|m: int| k <= m < drag.len() ==> rules[#[trigger] drag[m] as int].stack_index != j)
                ==> #[trigger] drag_pass(stacks, rules, cursor, drag, k, 1, initial).0[j] == stacks[j],
        ({
            let idx = rules[drag[k] as int].stack_index as int;
            let kind = rules[drag[k] as int].kind;
            k < drag.len() && !spec_is_empty(cursor) && super::clicks::drag_target(kind, stacks[idx], cursor)
                && stacks[idx].item_count < max_for(kind, stacks[idx]) ==> count_in(
                drag_pass(stacks, rules, cursor, drag, k, 1, initial).0[idx],
            ) == count_in(stacks[idx]) + 1
        }),
    decreases drag.len() - k,
{
    if k < drag.len() {
        let i = drag[k] as int;
        let idx = rules[i].stack_index as int;
        let s = stacks[idx];
        let kind = rules[i].kind;
        if super::clicks::drag_target(kind, s, cursor) {
            let share = super::clicks::drag_share(1, initial, drag.len(), cursor);
            let ins = min_u8(min_u8(share, (max_for(kind, s) - s.item_count) as u8), cursor.item_count);
            if ins > 0 {
                let base = if spec_is_empty(s) { with_count(cursor, 0) } else { s };
                let stacks2 = stacks.update(idx, with_count(base, (base.item_count + ins) as u8));
                let cursor2 = with_count(cursor, (cursor.item_count - ins) as u8);
                if !spec_is_empty(cursor2) {
                    law_right_drag_places_one_each(stacks2, rules, cursor2, drag, k + 1, initial);
                    let st = drag_pass(stacks2, rules, cursor2, drag, k + 1, 1, initial).0;
                    assert forall|m: int| k + 1 <= m < drag.len() implies rules[#[trigger] drag[m] as int].stack_index != idx by {
                        assert(rules[drag[k] as int].stack_index != rules[drag[m] as int].stack_index);
                    }
                    assert(st[idx] == stacks2[idx]);
                    assert forall|j: int|
                        0 <= j < stacks.len() && (forall|m: int| k <= m < drag.len() ==> rules[#[trigger] drag[m] as int].stack_index != j)
                        implies #[trigger] st[j] == stacks[j] by {
                        assert(rules[drag[k] as int].stack_index != j);
                    }
                } else {
                    assert forall|j: int|
                        0 <= j < stacks.len() && (forall|m: int| k <= m < drag.len() ==> rules[#[trigger] drag[m] as int].stack_index != j)
                        implies #[trigger] stacks2[j] == stacks[j] by {
                        assert(rules[drag[k] as int].stack_index != j);
                    }
                }
            } else {
                law_right_drag_places_one_each(stacks, rules, cursor, drag, k + 1, initial);
            }
        } else {
            law_right_drag_places_one_each(stacks, rules, cursor, drag, k + 1, initial);
        }
    }
}

/// Shift-clicking a stack that is worn nowhere in the player's window moves
/// it between the hotbar and the main inventory: from a hotbar slot (36 to
/// 44) no stack changes but the clicked one and those of slots 9 to 35, and
/// from a main slot (9 to 35) none but the clicked one and those of slots 36
/// to 44.
pub proof fn law_quick_move_between_hotbar_and_main(v: ScreenView, slot: int, j: int)
    requires
        player_layout(v.rules),
        9 <= slot < 45,
        forall|i: int| 0 <= i < v.rules.len() ==> #[trigger] v.rules[i].stack_index < v.stacks.len(),
        v.stacks[v.rules[slot].stack_index as int].armor == ArmorFit::Unworn,
        !(v.rules[slot].kind is Result),
        0 <= j < v.stacks.len(),
        j != v.rules[slot].stack_index,
        36 <= slot ==> forall|i: int| 9 <= i < 36 ==> #[trigger] v.rules[i].stack_index != j,
        slot < 36 ==> forall|i: int| 36 <= i < 45 ==> #[trigger] v.rules[i].stack_index != j,
    ensures
        quick_move_effect(v, slot).0.stacks[j] == v.stacks[j],
{
    let src = v.rules[slot].stack_index as int;
    let s = v.stacks[src];
    if !spec_is_empty(s) {
        let (start, end, from_last) = quick_move_range(v, slot, s);
        if 36 <= slot {
            assert(start == 9 && end == 36 && !from_last);
        } else {
            assert(start == 36 && end == 45 && !from_last);
        }
        lemma_insert_item_frame(v.stacks, v.rules, s, start, end, from_last, j);
        super::screen::lemma_insert_item_len(v.stacks, v.rules, s, start, end, from_last);
        let (st2, left, ok) = insert_item_effect(v.stacks, v.rules, s, start, end, from_last);
        if ok {
            let st3 = st2.update(src, if spec_is_empty(left) { empty_stack() } else { left });
            assert(st3[j] == st2[j]);
        }
    }
}

} // verus!
