use pumpkin::inventory::player_inventory::PlayerInventory;
use pumpkin::inventory::screen::{ScreenKind, ScreenState, SlotKind, SlotRule};
use pumpkin::inventory::stack::{ArmorFit, ItemStack};
use pumpkin::inventory::sync::{OptionalItemStackHash, ScreenSync, TrackedStack};
use pumpkin::inventory::window::ScreenProperty;

fn stone(count: u8) -> ItemStack {
    ItemStack { item: 1, components: 0, max_stack_size: 64, armor: ArmorFit::Unworn, item_count: count }
}

#[test]
fn tracked_stack_compares_stacks_and_hashes() {
    let mut t = TrackedStack::empty();
    assert!(!t.is_in_sync(&stone(1), true));
    t.set_received_stack(stone(2));
    assert!(t.is_in_sync(&stone(2), false));
    assert!(!t.is_in_sync(&stone(3), true));
    t.set_received_hash(OptionalItemStackHash(77));
    assert_eq!(t.received_stack, None);
    assert!(!t.is_in_sync(&stone(3), false));
    assert!(t.is_in_sync(&stone(3), true));
    // a matching hash is replaced by the stack
    assert_eq!(t.received_stack, Some(stone(3)));
    assert!(!t.is_in_sync(&stone(4), true));
}

fn three_slots() -> ScreenSync {
    let mut sync = ScreenSync::new();
    assert_eq!(sync.add_slot(), 0);
    assert_eq!(sync.add_slot(), 1);
    assert_eq!(sync.add_slot(), 2);
    sync
}

#[test]
fn content_updates_send_what_changed() {
    let mut sync = three_slots();
    let stacks = vec![stone(5), ItemStack::empty(), stone(9)];
    let updates = sync.send_content_updates(&stacks, &vec![false; 3], stone(1), false);
    assert_eq!(updates.changed_slots, vec![0, 2]);
    assert_eq!(updates.sent_slots, vec![0, 1, 2]);
    assert!(updates.cursor_sent);
    assert_eq!(sync.tracked_stacks, stacks);
    // nothing changed since
    let again = sync.send_content_updates(&stacks, &vec![false; 3], stone(1), false);
    assert!(again.changed_slots.is_empty());
    assert!(again.sent_slots.is_empty());
    assert!(!again.cursor_sent);
    // one slot changes
    let changed = vec![stone(5), stone(2), stone(9)];
    let third = sync.send_content_updates(&changed, &vec![false; 3], stone(1), false);
    assert_eq!(third.changed_slots, vec![1]);
    assert_eq!(third.sent_slots, vec![1]);
}

#[test]
fn client_hashes_count_as_in_step() {
    let mut sync = three_slots();
    assert!(sync.set_received_hash(1, OptionalItemStackHash(3)));
    assert!(!sync.set_received_hash(3, OptionalItemStackHash(3)));
    let stacks = vec![ItemStack::empty(), stone(4), ItemStack::empty()];
    let updates = sync.send_content_updates(&stacks, &vec![false, true, false], ItemStack::empty(), false);
    assert_eq!(updates.sent_slots, vec![0, 2]);
    assert_eq!(sync.previous_tracked_stacks[1].received_stack, Some(stone(4)));
}

#[test]
fn disabled_sync_sends_nothing() {
    let mut sync = three_slots();
    sync.disable_sync = true;
    let stacks = vec![stone(1), stone(2), stone(3)];
    let updates = sync.send_content_updates(&stacks, &vec![false; 3], stone(1), false);
    assert_eq!(updates.changed_slots, vec![0, 1, 2]);
    assert!(updates.sent_slots.is_empty());
    assert!(!updates.cursor_sent);
    assert_eq!(sync.previous_tracked_stacks[0], TrackedStack::empty());
}

#[test]
fn sync_state_records_the_whole_window() {
    let mut sync = three_slots();
    sync.add_property();
    sync.add_property();
    let stacks = vec![stone(1), stone(2), stone(3)];
    let properties = vec![ScreenProperty { old_value: 0, index: 0, value: 12 }];
    let changed = sync.update_to_client(&stacks, stone(8), &properties);
    assert_eq!(changed, vec![0, 1, 2]);
    assert_eq!(sync.previous_tracked_stacks[2].received_stack, Some(stone(3)));
    assert_eq!(sync.previous_cursor_stack.received_stack, Some(stone(8)));
    assert_eq!(sync.tracked_property_values, vec![12, 0]);
    sync.set_received_cursor_hash(OptionalItemStackHash(1));
    assert!(!sync.check_cursor_stack_updates(stone(8), true));
    assert!(sync.check_cursor_stack_updates(stone(9), false));
    sync.set_received_stack(0, stone(7));
    assert!(!sync.check_slot_updates(0, stone(7), false));
    assert!(sync.check_slot_updates(0, stone(6), false));
}

#[test]
fn player_slots_follow_the_window_slots() {
    let mut w = ScreenState {
        kind: ScreenKind::Player,
        own: vec![ItemStack::empty(); 10],
        player: PlayerInventory::new(),
        slots: vec![],
        cursor: ItemStack::empty(),
        drag_slots: vec![],
        revision: 0,
        recipes: vec![],
        recipe_cache: None,
    };
    for i in 0..10 {
        assert_eq!(w.add_slot(SlotRule { stack_index: i, kind: SlotKind::Normal { max_count: 64 } }), i);
    }
    w.add_player_slots(99);
    assert_eq!(w.slots.len(), 46);
    assert_eq!(w.slots[10], SlotRule { stack_index: 19, kind: SlotKind::Normal { max_count: 99 } });
    assert_eq!(w.slots[36].stack_index, 45);
    assert_eq!(w.slots[37].stack_index, 10);
    assert_eq!(w.get_slot_index(10), Some(37));
    assert_eq!(w.get_slot_index(3), Some(3));
    assert_eq!(w.get_slot_index(60), None);
}

#[test]
fn closing_a_window_returns_the_cursor_stack() {
    let mut w = ScreenState {
        kind: ScreenKind::Player,
        own: vec![],
        player: PlayerInventory::new(),
        slots: vec![],
        cursor: stone(20),
        drag_slots: vec![],
        revision: 0,
        recipes: vec![],
        recipe_cache: None,
    };
    let outcome = w.default_on_closed();
    assert!(w.cursor.is_empty());
    assert_eq!(outcome.dropped, None);
    assert_eq!(w.player.get_stack(0), stone(20));
    // an empty cursor offers nothing
    let again = w.default_on_closed();
    assert!(again.notifications.is_empty());
    assert_eq!(again.dropped, None);
}
