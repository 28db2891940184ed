use pumpkin::inventory::click::{
    Click, ClickType, DropType, InventoryError, KeyClick, MouseClick, MouseDragState,
    MouseDragType, Slot, SlotActionType,
};
use pumpkin::inventory::clicks::{PlayerScreenHandler, SLOT_INDEX_OUTSIDE};
use pumpkin::inventory::player_inventory::PlayerInventory;
use pumpkin::inventory::screen::{ScreenKind, ScreenState, SlotKind, SlotRule};
use pumpkin::inventory::stack::{ArmorFit, ItemStack};
use pumpkin::inventory::window::{EnchantmentTable, ScreenProperty, WindowProperty, WindowPropertyTrait};
use pumpkin::inventory::window_inventory;

fn stone(count: u8) -> ItemStack {
    ItemStack { item: 1, components: 0, max_stack_size: 64, armor: ArmorFit::Unworn, item_count: count }
}

fn dirt(count: u8) -> ItemStack {
    ItemStack { item: 2, components: 0, max_stack_size: 64, armor: ArmorFit::Unworn, item_count: count }
}

fn helmet() -> ItemStack {
    ItemStack { item: 3, components: 0, max_stack_size: 1, armor: ArmorFit::Head, item_count: 1 }
}

#[test]
fn decoding_clicks() {
    assert_eq!(
        Click::new(SlotActionType::Pickup, 0, 5),
        Ok(Click { slot: Slot::Normal(5), click_type: ClickType::MouseClick(MouseClick::Left) })
    );
    assert_eq!(
        Click::new(SlotActionType::Pickup, 1, -999),
        Ok(Click { slot: Slot::OutsideInventory, click_type: ClickType::MouseClick(MouseClick::Right) })
    );
    assert_eq!(
        Click::new(SlotActionType::Pickup, 1, -3),
        Ok(Click { slot: Slot::Normal(0), click_type: ClickType::MouseClick(MouseClick::Right) })
    );
    assert_eq!(Click::new(SlotActionType::Pickup, 2, 5), Err(InventoryError::InvalidPacket));
    assert_eq!(Click::new(SlotActionType::QuickMove, 0, -1), Err(InventoryError::InvalidSlot));
    assert_eq!(
        Click::new(SlotActionType::Swap, 40, 7),
        Ok(Click { slot: Slot::Normal(7), click_type: ClickType::KeyClick(KeyClick::Offhand) })
    );
    assert_eq!(
        Click::new(SlotActionType::Swap, 3, 7),
        Ok(Click { slot: Slot::Normal(7), click_type: ClickType::KeyClick(KeyClick::Slot(3)) })
    );
    assert_eq!(Click::new(SlotActionType::Swap, 9, 7), Err(InventoryError::InvalidSlot));
    assert_eq!(
        Click::new(SlotActionType::Throw, 1, -999),
        Ok(Click { slot: Slot::OutsideInventory, click_type: ClickType::DropType(DropType::FullStack) })
    );
    assert_eq!(Click::new(SlotActionType::Throw, 2, 1), Err(InventoryError::InvalidPacket));
    assert_eq!(
        Click::new(SlotActionType::QuickCraft, 4, 0),
        Ok(Click {
            slot: Slot::OutsideInventory,
            click_type: ClickType::MouseDrag { drag_state: MouseDragState::Start(MouseDragType::Right) },
        })
    );
    assert_eq!(
        Click::new(SlotActionType::QuickCraft, 5, 12),
        Ok(Click {
            slot: Slot::Normal(12),
            click_type: ClickType::MouseDrag { drag_state: MouseDragState::AddSlot(12) },
        })
    );
    assert_eq!(Click::new(SlotActionType::QuickCraft, 5, -1), Err(InventoryError::InvalidSlot));
    assert_eq!(Click::new(SlotActionType::QuickCraft, 3, 0), Err(InventoryError::InvalidPacket));
    assert_eq!(
        Click::new(SlotActionType::PickupAll, 0, 2),
        Ok(Click { slot: Slot::Normal(2), click_type: ClickType::DoubleClick })
    );
    assert_eq!(
        Click::new(SlotActionType::Clone, 2, 9),
        Ok(Click { slot: Slot::Normal(9), click_type: ClickType::CreativePickItem })
    );
}

#[test]
fn drop_types() {
    assert_eq!(DropType::from_i8(0), Ok(DropType::SingleItem));
    assert_eq!(DropType::from_i8(1), Ok(DropType::FullStack));
    assert_eq!(DropType::from_i8(2), Err(InventoryError::InvalidPacket));
}

#[test]
fn enchantment_table_property_numbers() {
    assert_eq!(EnchantmentTable::LevelRequirement { slot: 2 }.to_id(), 2);
    assert_eq!(EnchantmentTable::EnchantmentSeed.to_id(), 3);
    assert_eq!(EnchantmentTable::EnchantmentId { slot: 1 }.to_id(), 5);
    assert_eq!(EnchantmentTable::EnchantmentLevel { slot: 2 }.to_id(), 9);
    assert_eq!(WindowProperty::new(EnchantmentTable::EnchantmentSeed, 77).into_tuple(), (3, 77));
}

#[test]
fn screen_property_get_set() {
    let mut p = ScreenProperty { old_value: 0, index: 1, value: 4 };
    assert_eq!(p.get(), 4);
    p.set(-9);
    assert_eq!(p.get(), -9);
}

#[test]
fn stack_split_moves_items() {
    let mut s = stone(10);
    let taken = s.split(4);
    assert_eq!(taken.item_count, 4);
    assert_eq!(s.item_count, 6);
    let rest = s.split(100);
    assert_eq!(rest.item_count, 6);
    assert!(s.is_empty());
}

#[test]
fn player_inventory_inserts_into_matching_then_empty_slots() {
    let mut inv = PlayerInventory::new();
    inv.set_stack(3, stone(60));
    let mut s = stone(10);
    assert!(inv.insert_stack_anywhere(&mut s));
    assert!(s.is_empty());
    assert_eq!(inv.get_stack(3).item_count, 64);
    assert_eq!(inv.get_stack(0).item_count, 6);
    assert_eq!(inv.get_stack(0).item, 1);
}

#[test]
fn player_inventory_full_insert_keeps_the_rest() {
    let mut inv = PlayerInventory::new();
    for i in 0..36 {
        inv.set_stack(i, dirt(64));
    }
    let mut s = stone(5);
    assert!(!inv.insert_stack_anywhere(&mut s));
    assert_eq!(s.item_count, 5);
    let outcome = inv.offer(stone(5), true);
    assert_eq!(outcome.dropped, Some(stone(5)));
    assert!(outcome.notifications.is_empty());
}

#[test]
fn offering_fills_and_notifies() {
    let mut inv = PlayerInventory::new();
    inv.set_stack(0, stone(63));
    let outcome = inv.offer_or_drop_stack(stone(3));
    assert_eq!(outcome.dropped, None);
    assert_eq!(inv.get_stack(0).item_count, 64);
    assert_eq!(inv.get_stack(1).item_count, 2);
    assert_eq!(outcome.notifications.len(), 2);
}

#[test]
fn hotbar_swaps() {
    let mut inv = PlayerInventory::new();
    inv.set_stack(0, stone(1));
    assert_eq!(inv.get_swappable_hotbar_slot(), 1);
    inv.swap_slot_with_hotbar(20);
    assert_eq!(inv.get_selected_slot(), 1);
    inv.set_stack(20, dirt(2));
    inv.swap_slot_with_hotbar(20);
    assert_eq!(inv.get_stack(1).item, 2);
    assert!(inv.get_stack(20).is_empty());
    assert_eq!(inv.get_slot_with_stack(&dirt(1)), 1);
    assert_eq!(inv.get_empty_slot(), 2);
    inv.clear();
    assert!(inv.is_empty());
}

fn screen(own: Vec<ItemStack>) -> ScreenState {
    let n = own.len();
    let mut slots = Vec::new();
    for i in 0..n {
        slots.push(SlotRule { stack_index: i, kind: SlotKind::Normal { max_count: 99 } });
    }
    ScreenState { kind: ScreenKind::Player, own, player: PlayerInventory::new(), slots, cursor: ItemStack::empty(), drag_slots: vec![], revision: 0, recipes: vec![], recipe_cache: None }
}

#[test]
fn pickup_and_put_down() {
    let mut s = screen(vec![stone(10), ItemStack::empty()]);
    // right click takes half, rounded up
    let drops = s.on_slot_click(0, 1, SlotActionType::Pickup, false);
    assert!(drops.is_empty());
    assert_eq!(s.cursor.item_count, 5);
    assert_eq!(s.own[0].item_count, 5);
    // right click on an empty slot puts one down
    s.on_slot_click(1, 1, SlotActionType::Pickup, false);
    assert_eq!(s.own[1].item_count, 1);
    assert_eq!(s.cursor.item_count, 4);
    // left click on a slot of the same kind puts everything down
    s.on_slot_click(0, 0, SlotActionType::Pickup, false);
    assert_eq!(s.own[0].item_count, 9);
    assert!(s.cursor.is_empty());
}

#[test]
fn pickup_swaps_different_kinds() {
    let mut s = screen(vec![stone(3)]);
    s.cursor = dirt(7);
    s.on_slot_click(0, 0, SlotActionType::Pickup, false);
    assert_eq!(s.own[0], dirt(7));
    assert_eq!(s.cursor, stone(3));
}

#[test]
fn armor_slots_take_only_what_is_worn_there() {
    let mut s = screen(vec![ItemStack::empty()]);
    s.slots[0].kind = SlotKind::Armor { fit: ArmorFit::Head };
    s.cursor = stone(1);
    s.on_slot_click(0, 0, SlotActionType::Pickup, false);
    assert!(s.own[0].is_empty());
    s.cursor = helmet();
    s.on_slot_click(0, 0, SlotActionType::Pickup, false);
    assert_eq!(s.own[0], helmet());
    assert!(s.cursor.is_empty());
}

#[test]
fn clicking_outside_drops_from_the_cursor() {
    let mut s = screen(vec![]);
    s.cursor = stone(5);
    let drops = s.on_slot_click(SLOT_INDEX_OUTSIDE, 1, SlotActionType::Pickup, false);
    assert_eq!(drops, vec![stone(1)]);
    assert_eq!(s.cursor.item_count, 4);
    let drops = s.on_slot_click(SLOT_INDEX_OUTSIDE, 0, SlotActionType::Pickup, false);
    assert_eq!(drops, vec![stone(4)]);
    assert!(s.cursor.is_empty());
}

#[test]
fn throwing_from_a_slot() {
    let mut s = screen(vec![stone(3)]);
    let drops = s.on_slot_click(0, 0, SlotActionType::Throw, false);
    assert_eq!(drops, vec![stone(1)]);
    let drops = s.on_slot_click(0, 1, SlotActionType::Throw, false);
    assert_eq!(drops, vec![stone(2)]);
    assert!(s.own[0].is_empty());
}

#[test]
fn double_click_gathers() {
    let mut s = screen(vec![stone(10), dirt(3), stone(20)]);
    s.cursor = stone(1);
    s.on_slot_click(0, 0, SlotActionType::PickupAll, false);
    assert_eq!(s.cursor.item_count, 31);
    assert!(s.own[0].is_empty());
    assert_eq!(s.own[1], dirt(3));
    assert!(s.own[2].is_empty());
}

#[test]
fn dragging_spreads_evenly() {
    let mut s = screen(vec![ItemStack::empty(), ItemStack::empty(), ItemStack::empty()]);
    s.cursor = stone(10);
    s.on_slot_click(-999, 0, SlotActionType::QuickCraft, false);
    s.on_slot_click(0, 1, SlotActionType::QuickCraft, false);
    s.on_slot_click(1, 1, SlotActionType::QuickCraft, false);
    s.on_slot_click(2, 1, SlotActionType::QuickCraft, false);
    assert_eq!(s.drag_slots, vec![0, 1, 2]);
    s.on_slot_click(-999, 2, SlotActionType::QuickCraft, false);
    assert_eq!(s.own[0].item_count, 3);
    assert_eq!(s.own[1].item_count, 3);
    assert_eq!(s.own[2].item_count, 3);
    assert_eq!(s.cursor.item_count, 1);
    assert!(s.drag_slots.is_empty());
}

#[test]
fn creative_clone_fills_the_cursor() {
    let mut s = screen(vec![stone(2)]);
    s.on_slot_click(0, 2, SlotActionType::Clone, false);
    assert!(s.cursor.is_empty());
    s.on_slot_click(0, 2, SlotActionType::Clone, true);
    assert_eq!(s.cursor, stone(64));
}

#[test]
fn swapping_with_the_hotbar() {
    let mut s = screen(vec![stone(4)]);
    s.player.set_stack(2, dirt(9));
    s.on_slot_click(0, 2, SlotActionType::Swap, false);
    assert_eq!(s.own[0], dirt(9));
    assert_eq!(s.player.get_stack(2), stone(4));
}

#[test]
fn insert_item_merges_then_places() {
    let mut s = screen(vec![stone(60), ItemStack::empty(), stone(10)]);
    let mut st = stone(20);
    assert!(s.insert_item(&mut st, 0, 3, false));
    // stacks hold at most 64 stone, so the first takes 4 and the third the rest
    assert!(st.is_empty());
    assert_eq!(s.own[0].item_count, 64);
    assert!(s.own[1].is_empty());
    assert_eq!(s.own[2].item_count, 26);
}

#[test]
fn player_window_quick_move() {
    // the player's window: 46 slots over the player's 41 stacks and 5 of its own
    let mut slots = Vec::new();
    for i in 0..5 {
        slots.push(SlotRule { stack_index: i, kind: SlotKind::Normal { max_count: 99 } });
    }
    let fits = [ArmorFit::Head, ArmorFit::Chest, ArmorFit::Legs, ArmorFit::Feet];
    for i in 0..4 {
        slots.push(SlotRule { stack_index: 5 + 39 - i, kind: SlotKind::Armor { fit: fits[i] } });
    }
    for i in 9..36 {
        slots.push(SlotRule { stack_index: 5 + i, kind: SlotKind::Normal { max_count: 99 } });
    }
    for i in 0..9 {
        slots.push(SlotRule { stack_index: 5 + i, kind: SlotKind::Normal { max_count: 99 } });
    }
    slots.push(SlotRule { stack_index: 5 + 40, kind: SlotKind::Normal { max_count: 99 } });
    let own = vec![ItemStack::empty(); 5];
    let mut s = ScreenState { kind: ScreenKind::Player, own, player: PlayerInventory::new(), slots, cursor: ItemStack::empty(), drag_slots: vec![], revision: 0, recipes: vec![], recipe_cache: None };
    // a helmet in the main inventory goes to the head slot
    s.player.set_stack(12, helmet());
    let drops = s.on_slot_click(12, 0, SlotActionType::QuickMove, false);
    assert!(drops.is_empty());
    assert_eq!(s.player.get_stack(39), helmet());
    assert!(s.player.get_stack(12).is_empty());
    // stone in the main inventory goes to the hotbar
    s.player.set_stack(10, stone(5));
    s.on_slot_click(10, 0, SlotActionType::QuickMove, false);
    assert!(s.player.get_stack(10).is_empty());
    assert_eq!(s.player.get_stack(0), stone(5));
}

#[test]
fn window_layout_inventory() {
    let mut inv = window_inventory::PlayerInventory::new();
    assert_eq!(inv.set_slot(46, Some(stone(1)), false), Err(InventoryError::InvalidSlot));
    assert_eq!(inv.set_slot(5, Some(stone(1)), false), Ok(()));
    assert_eq!(inv.get_slot(5), Ok(None));
    assert_eq!(inv.set_slot(5, Some(helmet()), false), Ok(()));
    assert_eq!(inv.get_slot(5), Ok(Some(helmet())));
    // clearing a slot needs no override
    assert_eq!(inv.set_slot(5, None, false), Ok(()));
    assert_eq!(inv.get_slot(5), Ok(None));
    assert_eq!(inv.set_slot(5, Some(helmet()), false), Ok(()));
    assert_eq!(inv.get_selected_slot(), 36);
    inv.set_slot(36, Some(stone(3)), false).unwrap();
    assert_eq!(inv.get_empty_hotbar_slot(), 1);
    assert!(inv.decrease_current_stack(3));
    assert_eq!(inv.held_item(), None);
    assert_eq!(inv.get_slot_with_item(3), None);
    assert_eq!(inv.get_empty_slot(), Some(36));
    inv.set_slot(20, Some(stone(10)), false).unwrap();
    assert_eq!(inv.get_nonfull_slot_with_item(1, 64), Some(20));
    assert_eq!(inv.get_pickup_item_slot(2, 64), Some(36));
    assert_eq!(inv.get_empty_slot_no_order(), Some(9));
    inv.state_id = 100;
    inv.increment_state_id();
    assert_eq!(inv.state_id, 1);
    inv.set_slot(2, Some(stone(1)), true).unwrap();
    assert!(inv.craft());
}

#[test]
fn revisions_wrap_within_fifteen_bits() {
    let mut s = screen(vec![]);
    assert_eq!(s.next_revision(), 1);
    s.revision = 32767;
    assert_eq!(s.next_revision(), 0);
    s.revision = u32::MAX;
    assert_eq!(s.next_revision(), 0);
}

#[test]
fn player_window_hotbar_slots() {
    assert!(!PlayerScreenHandler::is_in_hotbar(35));
    assert!(PlayerScreenHandler::is_in_hotbar(36));
    assert!(PlayerScreenHandler::is_in_hotbar(45));
    assert!(!PlayerScreenHandler::is_in_hotbar(46));
    assert!(!PlayerScreenHandler::is_in_hotbar(0));
}
