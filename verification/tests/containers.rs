use pumpkin::inventory::equipment::{EntityEquipment, EquipmentSlot};
use pumpkin::inventory::player_inventory::PlayerInventory;
use pumpkin::inventory::open_container::{BlockPos, CraftingTable, OpenContainer};
use pumpkin::inventory::stack::{ArmorFit, ItemStack};

fn stone(count: u8) -> ItemStack {
    ItemStack { item: 1, components: 0, max_stack_size: 64, armor: ArmorFit::Unworn, item_count: count }
}

#[test]
fn equipment_starts_empty() {
    let equipment = EntityEquipment::new();
    assert!(equipment.is_empty());
    assert!(equipment.get(&EquipmentSlot::Head).is_empty());
}

#[test]
fn equipment_put_returns_previous_stack() {
    let mut equipment = EntityEquipment::new();
    let first = equipment.put(&EquipmentSlot::MainHand, stone(3));
    assert!(first.is_empty());
    assert!(!equipment.is_empty());
    assert_eq!(equipment.get(&EquipmentSlot::MainHand), stone(3));
    let second = equipment.put(&EquipmentSlot::MainHand, stone(7));
    assert_eq!(second, stone(3));
    assert_eq!(equipment.get(&EquipmentSlot::MainHand), stone(7));
    assert!(equipment.get(&EquipmentSlot::OffHand).is_empty());
}

#[test]
fn equipment_clear_empties_every_slot() {
    let mut equipment = EntityEquipment::new();
    equipment.put(&EquipmentSlot::Feet, stone(1));
    equipment.put(&EquipmentSlot::Body, stone(2));
    equipment.clear();
    assert!(equipment.is_empty());
    assert!(equipment.get(&EquipmentSlot::Feet).is_empty());
}

#[test]
fn container_opened_by_one_player() {
    let pos = BlockPos { x: 1, y: 64, z: -3 };
    let container = OpenContainer::new_empty_container(7, Some(pos), 42u32);
    assert_eq!(container.get_number_of_players(), 1);
    assert_eq!(container.try_open(7), Some(&42u32));
    assert_eq!(container.try_open(8), None);
    assert!(container.is_location(pos));
    assert!(!container.is_location(BlockPos { x: 0, y: 0, z: 0 }));
}

#[test]
fn container_players_come_and_go() {
    let mut container = OpenContainer::new_empty_container(1, None, ());
    container.add_player(2);
    container.add_player(2);
    assert_eq!(container.players, vec![1, 2]);
    container.remove_player(1);
    assert_eq!(container.players, vec![2]);
    container.remove_player(5);
    assert_eq!(container.players, vec![2]);
    container.clear_all_players();
    assert_eq!(container.get_number_of_players(), 0);
    assert!(!container.is_location(BlockPos { x: 0, y: 0, z: 0 }));
    container.set_location(Some(BlockPos { x: 0, y: 0, z: 0 }));
    assert_eq!(container.get_location(), Some(BlockPos { x: 0, y: 0, z: 0 }));
}

#[test]
fn crafting_table_uses_one_item_per_slot() {
    let mut table = CraftingTable { input: vec![Some(stone(2)), None, Some(stone(1))], output: Some(stone(4)) };
    table.recipe_used();
    assert_eq!(table.input, vec![Some(stone(1)), None, None]);
    assert_eq!(table.output, Some(stone(4)));
    assert_eq!(table.all_slots_ref(), vec![Some(stone(4)), Some(stone(1)), None, None]);
}

#[test]
fn crafting_table_craft_clears_output() {
    let mut table = CraftingTable { input: vec![None, None], output: Some(stone(4)) };
    assert!(table.craft());
    assert_eq!(table.output, None);
    assert!(!table.craft());
    assert_eq!(table.crafting_output_slot(), Some(0));
    assert!(table.slot_in_crafting_input_slots(&1));
    assert!(table.slot_in_crafting_input_slots(&9));
    assert!(!table.slot_in_crafting_input_slots(&0));
    assert!(!table.slot_in_crafting_input_slots(&10));
}

#[test]
fn player_equipment_slots() {
    let slots = PlayerInventory::build_equipment_slots();
    assert_eq!(
        slots,
        vec![
            (36, EquipmentSlot::Feet),
            (37, EquipmentSlot::Legs),
            (38, EquipmentSlot::Chest),
            (39, EquipmentSlot::Head),
            (40, EquipmentSlot::OffHand),
        ]
    );
}
