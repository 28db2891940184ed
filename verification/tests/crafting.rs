use pumpkin::inventory::crafting::{
    is_symmetrical_horizontally, recipe_matches, CraftingGrid, CraftingRecipeTypes, Ingredient,
    RecipeResultStruct, ResultSlot,
};
use pumpkin::inventory::click::SlotActionType;
use pumpkin::inventory::player_inventory::PlayerInventory;
use pumpkin::inventory::screen::{ScreenKind, ScreenState, SlotKind, SlotRule};
use pumpkin::inventory::stack::{ArmorFit, ItemStack};

const PLANKS: u16 = 5;
const STICK: u16 = 6;
const STONE: u16 = 1;
const SHERD: u16 = 7;
const BRICK: u16 = 8;

fn stack(item: u16, count: u8) -> ItemStack {
    ItemStack { item, components: 0, max_stack_size: 64, armor: ArmorFit::Unworn, item_count: count }
}

fn made(item: u16, count: u8) -> RecipeResultStruct {
    RecipeResultStruct { item, count, max_stack_size: 64, armor: ArmorFit::Unworn }
}

fn only(item: u16) -> Ingredient {
    Ingredient { items: vec![item] }
}

fn grid(cells: [(u16, u8); 9]) -> CraftingGrid {
    CraftingGrid { width: 3, height: 3, stacks: cells.iter().map(|&(i, c)| stack(i, c)).collect() }
}

const E: (u16, u8) = (0, 0);

fn sticks() -> CraftingRecipeTypes {
    CraftingRecipeTypes::CraftingShaped {
        key: vec![('#', only(PLANKS))],
        pattern: vec![vec!['#'], vec!['#']],
        result: made(STICK, 4),
    }
}

fn corner() -> CraftingRecipeTypes {
    CraftingRecipeTypes::CraftingShaped {
        key: vec![('#', only(STONE))],
        pattern: vec![vec!['#', ' '], vec!['#', '#']],
        result: made(9, 1),
    }
}

#[test]
fn symmetry_of_patterns() {
    assert!(is_symmetrical_horizontally(&vec![vec!['#', '#'], vec!['#', '#']]));
    assert!(is_symmetrical_horizontally(&vec![vec!['a', 'b', 'a']]));
    assert!(!is_symmetrical_horizontally(&vec![vec!['#', ' '], vec!['#', '#']]));
    assert!(!is_symmetrical_horizontally(&vec![vec!['#', '#'], vec!['#']]));
    assert!(is_symmetrical_horizontally(&vec![]));
}

#[test]
fn shaped_recipe_matches_where_the_items_lie() {
    let g = grid([E, (PLANKS, 1), E, E, (PLANKS, 3), E, E, E, E]);
    assert_eq!(recipe_matches(&sticks(), 2, 1, 1, 0, 2, &g), Some(made(STICK, 4)));
    // the wrong size, or a different count, matches nothing
    assert_eq!(recipe_matches(&sticks(), 1, 1, 1, 0, 2, &g), None);
    assert_eq!(recipe_matches(&sticks(), 2, 1, 1, 0, 3, &g), None);
    // the wrong item matches nothing
    let g2 = grid([E, (STONE, 1), E, E, (PLANKS, 3), E, E, E, E]);
    assert_eq!(recipe_matches(&sticks(), 2, 1, 1, 0, 2, &g2), None);
}

#[test]
fn asymmetrical_recipe_matches_mirrored() {
    let written = grid([(STONE, 1), E, E, (STONE, 1), (STONE, 1), E, E, E, E]);
    assert_eq!(recipe_matches(&corner(), 2, 2, 0, 0, 3, &written), Some(made(9, 1)));
    let mirrored = grid([E, (STONE, 1), E, (STONE, 1), (STONE, 1), E, E, E, E]);
    assert_eq!(recipe_matches(&corner(), 2, 2, 0, 0, 3, &mirrored), Some(made(9, 1)));
    let upside_down = grid([(STONE, 1), (STONE, 1), E, (STONE, 1), E, E, E, E, E]);
    assert_eq!(recipe_matches(&corner(), 2, 2, 0, 0, 3, &upside_down), None);
}

#[test]
fn shapeless_recipe_takes_ingredients_in_order() {
    let recipe = CraftingRecipeTypes::CraftingShapeless {
        ingredients: vec![only(PLANKS), only(STONE)],
        result: made(10, 2),
    };
    let g = grid([(STONE, 1), E, E, E, E, E, E, E, (PLANKS, 1)]);
    assert_eq!(recipe_matches(&recipe, 3, 3, 0, 0, 2, &g), Some(made(10, 2)));
    assert_eq!(recipe_matches(&recipe, 3, 3, 0, 0, 3, &g), None);
    // each stack takes the first unused ingredient that accepts it, so a grid
    // that could be matched another way may not be
    let greedy = CraftingRecipeTypes::CraftingShapeless {
        ingredients: vec![Ingredient { items: vec![PLANKS, STONE] }, only(PLANKS)],
        result: made(10, 2),
    };
    let g2 = grid([(PLANKS, 1), (STONE, 1), E, E, E, E, E, E, E]);
    assert_eq!(recipe_matches(&greedy, 1, 2, 0, 0, 2, &g2), None);
    let g3 = grid([(STONE, 1), (PLANKS, 1), E, E, E, E, E, E, E]);
    assert_eq!(recipe_matches(&greedy, 1, 2, 0, 0, 2, &g3), Some(made(10, 2)));
}

#[test]
fn transmute_and_special_recipes() {
    let recipe = CraftingRecipeTypes::CraftingTransmute { input: only(STONE), material: only(PLANKS), result: made(11, 1) };
    let g = grid([(STONE, 1), (PLANKS, 1), E, E, E, E, E, E, E]);
    assert_eq!(recipe_matches(&recipe, 1, 2, 0, 0, 2, &g), Some(made(11, 1)));
    let g2 = grid([(STONE, 1), (STICK, 1), E, E, E, E, E, E, E]);
    assert_eq!(recipe_matches(&recipe, 1, 2, 0, 0, 2, &g2), None);
    assert_eq!(recipe_matches(&CraftingRecipeTypes::CraftingSpecial, 1, 2, 0, 0, 2, &g), None);
}

#[test]
fn decorated_pot_needs_four_sides() {
    let recipe = CraftingRecipeTypes::CraftingDecoratedPot {
        ingredients: Ingredient { items: vec![SHERD, BRICK] },
        pot: made(12, 1),
    };
    let g = grid([E, (SHERD, 1), E, (BRICK, 1), E, (BRICK, 1), E, (SHERD, 1), E]);
    assert_eq!(recipe_matches(&recipe, 3, 3, 0, 0, 4, &g), Some(made(12, 1)));
    let g2 = grid([E, (SHERD, 1), E, (STONE, 1), E, (BRICK, 1), E, (SHERD, 1), E]);
    assert_eq!(recipe_matches(&recipe, 3, 3, 0, 0, 4, &g2), None);
}

#[test]
fn result_slot_finds_and_remembers_recipes() {
    let recipes = vec![corner(), sticks(), sticks()];
    let mut slot = ResultSlot::new(grid([E, E, E, E, (PLANKS, 2), E, E, (PLANKS, 5), E]));
    assert!(!slot.has_stack());
    assert_eq!(slot.match_recipe(&recipes), Some((made(STICK, 4), 1)));
    assert_eq!(slot.recipe_cache, Some(1));
    // the remembered recipe is tried first
    slot.recipe_cache = Some(2);
    assert_eq!(slot.match_recipe(&recipes), Some((made(STICK, 4), 2)));
    let shown = slot.refill_output(&recipes);
    assert_eq!(shown, stack(STICK, 4));
    assert_eq!(slot.take_stack(1), stack(STICK, 4));
    assert_eq!(slot.get_max_item_count(), 2);
    slot.on_take_item();
    assert_eq!(slot.inventory.stacks[4], stack(PLANKS, 1));
    assert_eq!(slot.inventory.stacks[7], stack(PLANKS, 4));
    assert_eq!(slot.get_max_item_count(), 1);
    assert!(!slot.can_insert(&stack(PLANKS, 1)));
    assert_eq!(slot.get_index(), 999);
}

#[test]
fn result_slot_empty_grid_makes_nothing() {
    let recipes = vec![sticks()];
    let mut slot = ResultSlot::new(grid([E; 9]));
    assert_eq!(slot.match_recipe(&recipes), None);
    assert_eq!(slot.refill_output(&recipes), ItemStack::empty());
    assert_eq!(slot.take_stack(3), ItemStack::empty());
    assert_eq!(slot.get_max_item_count(), 255);
}

fn crafting_window() -> ScreenState {
    let mut slots = Vec::new();
    for i in 0..10 {
        slots.push(SlotRule { stack_index: i, kind: SlotKind::Normal { max_count: 99 } });
    }
    for i in 9..36 {
        slots.push(SlotRule { stack_index: 10 + i, kind: SlotKind::Normal { max_count: 99 } });
    }
    for i in 0..9 {
        slots.push(SlotRule { stack_index: 10 + i, kind: SlotKind::Normal { max_count: 99 } });
    }
    ScreenState {
        kind: ScreenKind::CraftingTable,
        own: vec![ItemStack::empty(); 10],
        player: PlayerInventory::new(),
        slots,
        cursor: ItemStack::empty(),
        drag_slots: vec![],
        revision: 0,
        recipes: vec![],
        recipe_cache: None,
    }
}

#[test]
fn crafting_table_quick_move_routes() {
    let mut w = crafting_window();
    // a stack of the main inventory goes to the grid
    w.player.set_stack(9, stack(STONE, 5));
    let (moved, drops) = w.crafting_table_quick_move(10);
    assert_eq!(moved, stack(STONE, 5));
    assert!(drops.is_empty());
    assert_eq!(w.own[1], stack(STONE, 5));
    assert!(w.player.get_stack(9).is_empty());
    // from the grid it goes to the player's slots, the first free one
    let (moved, _) = w.crafting_table_quick_move(1);
    assert_eq!(moved, stack(STONE, 5));
    assert!(w.own[1].is_empty());
    assert_eq!(w.player.get_stack(9), stack(STONE, 5));
    // the result goes to the player's slots from the last: the hotbar's end
    w.own[0] = stack(STICK, 4);
    let (moved, _) = w.crafting_table_quick_move(0);
    assert_eq!(moved, stack(STICK, 4));
    assert_eq!(w.player.get_stack(8), stack(STICK, 4));
    // an empty slot moves nothing
    let (moved, drops) = w.crafting_table_quick_move(5);
    assert!(moved.is_empty());
    assert!(drops.is_empty());
}

#[test]
fn crafting_table_shift_click_through_clicks() {
    let mut w = crafting_window();
    // the hotbar's stack goes to the grid
    w.player.set_stack(2, stack(PLANKS, 30));
    let drops = w.on_slot_click(39, 0, SlotActionType::QuickMove, false);
    assert!(drops.is_empty());
    assert_eq!(w.own[1], stack(PLANKS, 30));
    assert!(w.player.get_stack(2).is_empty());
    // with the grid taking nothing of another kind, a main stack goes to the hotbar
    for i in 1..10 {
        w.own[i] = stack(STICK, 64);
    }
    w.player.set_stack(20, stack(STONE, 10));
    w.on_slot_click(21, 0, SlotActionType::QuickMove, false);
    assert!(w.player.get_stack(20).is_empty());
    assert_eq!(w.player.get_stack(0), stack(STONE, 10));
}

fn window_items(w: &ScreenState) -> u32 {
    let mut n: u32 = 0;
    for s in w.own.iter() {
        if !s.is_empty() {
            n += s.item_count as u32;
        }
    }
    for i in 0..41 {
        let s = w.player.get_stack(i);
        if !s.is_empty() {
            n += s.item_count as u32;
        }
    }
    n
}

#[test]
fn shift_clicks_keep_the_items() {
    let mut w = crafting_window();
    w.own[1] = stack(STONE, 60);
    w.player.set_stack(12, stack(STONE, 40));
    let before = window_items(&w);
    let drops = w.on_slot_click(13, 0, SlotActionType::QuickMove, false);
    assert!(drops.is_empty());
    assert_eq!(window_items(&w), before);
    assert_eq!(w.own[1], stack(STONE, 64));
    assert_eq!(w.own[2], stack(STONE, 36));
    assert!(w.player.get_stack(12).is_empty());
}

#[test]
fn result_slot_follows_grid_changes() {
    let recipes = vec![sticks()];
    let mut slot = ResultSlot::new(grid([E, (PLANKS, 1), E, E, (PLANKS, 1), E, E, E, E]));
    assert_eq!(slot.on_slot_update(10, &recipes), None);
    assert!(slot.result.is_empty());
    assert_eq!(slot.on_slot_update(4, &recipes), Some(stack(STICK, 4)));
    assert_eq!(slot.result, stack(STICK, 4));
    slot.inventory.stacks[4] = ItemStack::empty();
    assert_eq!(slot.on_slot_update(9, &recipes), Some(ItemStack::empty()));
}

const LOG: u16 = 10;

fn logs_to_planks() -> CraftingRecipeTypes {
    CraftingRecipeTypes::CraftingShapeless { ingredients: vec![only(LOG)], result: made(PLANKS, 4) }
}

/// The player's window with its result slot: slot 0 shows the result (own
/// stack 0), slots 1 to 4 the 2 by 2 grid, then armor, inventory, hotbar and
/// off hand.
fn player_crafting_window(result: ItemStack, grid: [ItemStack; 4]) -> ScreenState {
    let mut slots = vec![SlotRule { stack_index: 0, kind: SlotKind::Result }];
    for i in 1..5 {
        slots.push(SlotRule { stack_index: i, kind: SlotKind::Normal { max_count: 99 } });
    }
    let fits = [ArmorFit::Head, ArmorFit::Chest, ArmorFit::Legs, ArmorFit::Feet];
    for i in 0..4 {
        slots.push(SlotRule { stack_index: 5 + 39 - i, kind: SlotKind::Armor { fit: fits[i] } });
    }
    for i in 9..36 {
        slots.push(SlotRule { stack_index: 5 + i, kind: SlotKind::Normal { max_count: 99 } });
    }
    for i in 0..9 {
        slots.push(SlotRule { stack_index: 5 + i, kind: SlotKind::Normal { max_count: 99 } });
    }
    slots.push(SlotRule { stack_index: 5 + 40, kind: SlotKind::Normal { max_count: 99 } });
    let mut own = vec![result];
    own.extend_from_slice(&grid);
    ScreenState {
        kind: ScreenKind::Player,
        own,
        player: PlayerInventory::new(),
        slots,
        cursor: ItemStack::empty(),
        drag_slots: vec![],
        revision: 0,
        recipes: vec![logs_to_planks()],
        recipe_cache: None,
    }
}

fn no_stack() -> ItemStack {
    ItemStack::empty()
}

#[test]
fn taking_the_result_uses_the_ingredients() {
    let mut w = player_crafting_window(stack(PLANKS, 4), [stack(LOG, 1), no_stack(), no_stack(), no_stack()]);
    let drops = w.on_slot_click(0, 0, SlotActionType::Pickup, false);
    assert!(drops.is_empty());
    assert_eq!(w.cursor, stack(PLANKS, 4));
    assert!(w.own[1].is_empty());
    // the grid is empty now, so the result shows nothing
    assert!(w.own[0].is_empty());
}

#[test]
fn taking_the_result_onto_a_cursor_of_its_kind() {
    let mut w = player_crafting_window(stack(PLANKS, 4), [no_stack(), stack(LOG, 2), no_stack(), no_stack()]);
    w.cursor = stack(PLANKS, 10);
    // a right click takes the whole result too
    w.on_slot_click(0, 1, SlotActionType::Pickup, false);
    assert_eq!(w.cursor, stack(PLANKS, 14));
    assert_eq!(w.own[2], stack(LOG, 1));
    assert_eq!(w.own[0], stack(PLANKS, 4));
    // a cursor without room for the whole result takes nothing
    w.cursor = stack(PLANKS, 62);
    w.on_slot_click(0, 0, SlotActionType::Pickup, false);
    assert_eq!(w.cursor, stack(PLANKS, 62));
    assert_eq!(w.own[2], stack(LOG, 1));
}

#[test]
fn the_result_slot_takes_nothing_in() {
    let mut w = player_crafting_window(no_stack(), [no_stack(), no_stack(), no_stack(), no_stack()]);
    w.cursor = stack(STONE, 3);
    w.on_slot_click(0, 0, SlotActionType::Pickup, false);
    assert_eq!(w.cursor, stack(STONE, 3));
    assert!(w.own[0].is_empty());
    assert!(!w.can_insert(0, &stack(STONE, 3)));
}

#[test]
fn the_result_slot_holds_as_many_as_the_smallest_ingredient() {
    let w = player_crafting_window(stack(PLANKS, 4), [stack(LOG, 3), no_stack(), stack(LOG, 5), no_stack()]);
    assert_eq!(w.get_max_item_count(0), 3);
    let empty = player_crafting_window(no_stack(), [no_stack(), no_stack(), no_stack(), no_stack()]);
    assert_eq!(empty.get_max_item_count(0), 255);
}

#[test]
fn shift_clicking_the_result_crafts_until_the_grid_runs_out() {
    let mut w = player_crafting_window(stack(PLANKS, 4), [stack(LOG, 3), no_stack(), no_stack(), no_stack()]);
    let drops = w.on_slot_click(0, 0, SlotActionType::QuickMove, false);
    assert!(drops.is_empty());
    // three crafts, into the hotbar's last slot
    assert_eq!(w.player.get_stack(8), stack(PLANKS, 12));
    assert!(w.own[1].is_empty());
    assert!(w.own[0].is_empty());
}

#[test]
fn throwing_the_result_drops_all_of_it() {
    let mut w = player_crafting_window(stack(PLANKS, 4), [stack(LOG, 3), no_stack(), no_stack(), no_stack()]);
    let drops = w.on_slot_click(0, 0, SlotActionType::Throw, false);
    assert_eq!(drops, vec![stack(PLANKS, 4)]);
    // the grid is used as the result is taken and again as it is thrown
    assert_eq!(w.own[1], stack(LOG, 1));
    assert_eq!(w.own[0], stack(PLANKS, 4));
}

#[test]
fn swapping_the_result_into_the_hotbar_crafts() {
    let mut w = player_crafting_window(stack(PLANKS, 4), [stack(LOG, 1), no_stack(), no_stack(), no_stack()]);
    w.on_slot_click(0, 2, SlotActionType::Swap, false);
    assert_eq!(w.player.get_stack(2), stack(PLANKS, 4));
    assert!(w.own[1].is_empty());
    assert!(w.own[0].is_empty());
    // a hotbar stack cannot be put in the result slot
    w.on_slot_click(0, 2, SlotActionType::Swap, false);
    assert_eq!(w.player.get_stack(2), stack(PLANKS, 4));
    assert!(w.own[0].is_empty());
}

#[test]
fn the_result_slot_keeps_to_the_recipe_it_remembers() {
    let mut w = player_crafting_window(stack(STICK, 2), [stack(LOG, 2), no_stack(), no_stack(), no_stack()]);
    w.recipes.push(CraftingRecipeTypes::CraftingShapeless { ingredients: vec![only(LOG)], result: made(STICK, 2) });
    w.recipe_cache = Some(1);
    w.on_slot_click(0, 0, SlotActionType::Pickup, false);
    assert_eq!(w.cursor, stack(STICK, 2));
    assert_eq!(w.own[1], stack(LOG, 1));
    // the remembered recipe still matches, so the result shows sticks again
    assert_eq!(w.own[0], stack(STICK, 2));
    assert_eq!(w.recipe_cache, Some(1));
    // without a remembered recipe the first one that matches is used
    let mut fresh = player_crafting_window(stack(PLANKS, 4), [stack(LOG, 2), no_stack(), no_stack(), no_stack()]);
    fresh.recipes.push(CraftingRecipeTypes::CraftingShapeless { ingredients: vec![only(LOG)], result: made(STICK, 2) });
    fresh.on_slot_click(0, 0, SlotActionType::Pickup, false);
    assert_eq!(fresh.own[0], stack(PLANKS, 4));
    assert_eq!(fresh.recipe_cache, Some(0));
}
