//! Decoding the clicks that a client reports in a container window.
use vstd::prelude::*;

verus! {

/// Why an inventory action was refused.
#[derive(Clone, Copy, Debug, PartialEq, Eq, Structural)]
pub enum InventoryError {
    InvalidSlot,
    InvalidPacket,
    MultiplePlayersDragging,
    OutOfOrderDragging,
}

/// The action a client reports with a container click.
#[derive(Clone, Copy, Debug, PartialEq, Eq, Structural)]
pub enum SlotActionType {
    Pickup,
    QuickMove,
    Swap,
    Clone,
    Throw,
    QuickCraft,
    PickupAll,
}

#[derive(Clone, Copy, Debug, PartialEq, Eq, Structural)]
pub enum MouseClick {
    Left,
    Right,
}

#[derive(Clone, Copy, Debug, PartialEq, Eq, Structural)]
pub enum KeyClick {
    Slot(u8),
    Offhand,
}

/// The slot a click is about.
#[derive(Clone, Copy, Debug, PartialEq, Eq, Structural)]
pub enum Slot {
    Normal(usize),
    OutsideInventory,
}

#[derive(Clone, Copy, Debug, PartialEq, Eq, Structural)]
pub enum DropType {
    SingleItem,
    FullStack,
}

#[derive(Clone, Copy, Debug, PartialEq, Eq, Structural)]
pub enum MouseDragType {
    Left,
    Right,
    Middle,
}

#[derive(Clone, Copy, Debug, PartialEq, Eq, Structural)]
pub enum MouseDragState {
    Start(MouseDragType),
    AddSlot(usize),
    End,
}

#[derive(Clone, Copy, Debug, PartialEq, Eq, Structural)]
pub enum ClickType {
    MouseClick(MouseClick),
    ShiftClick,
    KeyClick(KeyClick),
    CreativePickItem,
    DropType(DropType),
    MouseDrag { drag_state: MouseDragState },
    DoubleClick,
}

/// A decoded click: what was done, and to which slot.
#[derive(Clone, Copy, Debug, PartialEq, Eq, Structural)]
pub struct Click {
    pub slot: Slot,
    pub click_type: ClickType,
}

pub const BUTTON_CLICK_LEFT: i8 = 0;
pub const BUTTON_CLICK_RIGHT: i8 = 1;
pub const KEY_CLICK_OFFHAND: i8 = 40;
pub const KEY_CLICK_HOTBAR_START: i8 = 0;
pub const KEY_CLICK_HOTBAR_END: i8 = 9;
pub const SLOT_INDEX_OUTSIDE: i16 = -999;

/// A slot number that must name a slot: a negative one is refused.
pub open spec fn spec_slot_index(slot: i16) -> Result<Slot, InventoryError> {
    if slot < 0 {
        Err(InventoryError::InvalidSlot)
    } else {
        Ok(Slot::Normal(slot as usize))
    }
}

/// A slot number where -999 means outside the window and any other negative
/// number falls back to slot 0.
pub open spec fn spec_slot_or_outside(slot: i16) -> Slot {
    if slot == SLOT_INDEX_OUTSIDE {
        Slot::OutsideInventory
    } else if slot < 0 {
        Slot::Normal(0)
    } else {
        Slot::Normal(slot as usize)
    }
}

/// The drop that a button stands for.
pub open spec fn spec_drop_type(button: i8) -> Result<DropType, InventoryError> {
    if button == 0 {
        Ok(DropType::SingleItem)
    } else if button == 1 {
        Ok(DropType::FullStack)
    } else {
        Err(InventoryError::InvalidPacket)
    }
}

/// The click that a reported action, button and slot stand for.
pub open spec fn spec_click(mode: SlotActionType, button: i8, slot: i16) -> Result<Click, InventoryError> {
    match mode {
        SlotActionType::Pickup => if button == BUTTON_CLICK_LEFT || button == BUTTON_CLICK_RIGHT {
            Ok(Click {
                click_type: ClickType::MouseClick(
                    if button == BUTTON_CLICK_LEFT {
                        MouseClick::Left
                    } else {
                        MouseClick::Right
                    },
                ),
                slot: spec_slot_or_outside(slot),
            })
        } else {
            Err(InventoryError::InvalidPacket)
        },
        SlotActionType::QuickMove => match spec_slot_index(slot) {
            Ok(s) => Ok(Click { slot: s, click_type: ClickType::ShiftClick }),
            Err(e) => Err(e),
        },
        SlotActionType::Swap => {
            let key = if KEY_CLICK_HOTBAR_START <= button < KEY_CLICK_HOTBAR_END {
                Ok(KeyClick::Slot(button as u8))
            } else if button == KEY_CLICK_OFFHAND {
                Ok(KeyClick::Offhand)
            } else {
                Err(InventoryError::InvalidSlot)
            };
            match (key, spec_slot_index(slot)) {
                (Ok(k), Ok(s)) => Ok(Click { click_type: ClickType::KeyClick(k), slot: s }),
                (Err(e), _) => Err(e),
                (_, Err(e)) => Err(e),
            }
        },
        SlotActionType::Clone => match spec_slot_index(slot) {
            Ok(s) => Ok(Click { click_type: ClickType::CreativePickItem, slot: s }),
            Err(e) => Err(e),
        },
        SlotActionType::Throw => match spec_drop_type(button) {
            Ok(d) => Ok(Click { click_type: ClickType::DropType(d), slot: spec_slot_or_outside(slot) }),
            Err(e) => Err(e),
        },
        SlotActionType::QuickCraft => if button == 0 || button == 4 || button == 8 {
            Ok(Click {
                slot: Slot::OutsideInventory,
                click_type: ClickType::MouseDrag {
                    drag_state: MouseDragState::Start(
                        if button == 0 {
                            MouseDragType::Left
                        } else if button == 4 {
                            MouseDragType::Right
                        } else {
                            MouseDragType::Middle
                        },
                    ),
                },
            })
        } else if button == 1 || button == 5 || button == 9 {
            if slot < 0 {
                Err(InventoryError::InvalidSlot)
            } else {
                Ok(Click {
                    slot: Slot::Normal(slot as usize),
                    click_type: ClickType::MouseDrag {
                        drag_state: MouseDragState::AddSlot(slot as usize),
                    },
                })
            }
        } else if button == 2 || button == 6 || button == 10 {
            Ok(Click {
                slot: Slot::OutsideInventory,
                click_type: ClickType::MouseDrag { drag_state: MouseDragState::End },
            })
        } else {
            Err(InventoryError::InvalidPacket)
        },
        SlotActionType::PickupAll => match spec_slot_index(slot) {
            Ok(s) => Ok(Click { click_type: ClickType::DoubleClick, slot: s }),
            Err(e) => Err(e),
        },
    }
}

fn slot_index(slot: i16) -> (r: Result<usize, InventoryError>)
    ensures
        match spec_slot_index(slot) {
            Ok(Slot::Normal(s)) => r == Ok::<usize, InventoryError>(s),
            Ok(Slot::OutsideInventory) => false,
            Err(e) => r == Err::<usize, InventoryError>(e),
        },
{
    if slot < 0 {
        Err(InventoryError::InvalidSlot)
    } else {
        Ok(slot as usize)
    }
}

fn slot_or_outside(slot: i16) -> (r: Slot)
    ensures
        r == spec_slot_or_outside(slot),
{
    if slot == SLOT_INDEX_OUTSIDE {
        Slot::OutsideInventory
    } else if slot < 0 {
        Slot::Normal(0)
    } else {
        Slot::Normal(slot as usize)
    }
}

impl DropType {
    /// The drop that a button stands for: 0 one item, 1 the whole stack.
    pub fn from_i8(value: i8) -> (r: Result<Self, InventoryError>)
        ensures
            r == spec_drop_type(value),
    {
        if value == 0 {
            Ok(Self::SingleItem)
        } else if value == 1 {
            Ok(Self::FullStack)
        } else {
            Err(InventoryError::InvalidPacket)
        }
    }
}

impl Click {
    /// Decodes a reported click.
    pub fn new(mode: SlotActionType, button: i8, slot: i16) -> (r: Result<Self, InventoryError>)
        ensures
            r == spec_click(mode, button, slot),
    {
        match mode {
            SlotActionType::Pickup => Self::new_normal_click(button, slot),
            SlotActionType::QuickMove => Self::new_shift_click(slot),
            SlotActionType::Swap => Self::new_key_click(button, slot),
            SlotActionType::Clone => {
                let s = slot_index(slot)?;
                Ok(Self { click_type: ClickType::CreativePickItem, slot: Slot::Normal(s) })
            },
            SlotActionType::Throw => Self::new_drop_item(button, slot),
            SlotActionType::QuickCraft => Self::new_drag_item(button, slot),
            SlotActionType::PickupAll => {
                let s = slot_index(slot)?;
                Ok(Self { click_type: ClickType::DoubleClick, slot: Slot::Normal(s) })
            },
        }
    }

    fn new_normal_click(button: i8, slot: i16) -> (r: Result<Self, InventoryError>)
        ensures
            r == spec_click(SlotActionType::Pickup, button, slot),
    {
        let slot = slot_or_outside(slot);
        let button = if button == BUTTON_CLICK_LEFT {
            MouseClick::Left
        } else if button == BUTTON_CLICK_RIGHT {
            MouseClick::Right
        } else {
            return Err(InventoryError::InvalidPacket);
        };
        Ok(Self { click_type: ClickType::MouseClick(button), slot })
    }

    fn new_shift_click(slot: i16) -> (r: Result<Self, InventoryError>)
        ensures
            r == spec_click(SlotActionType::QuickMove, 0, slot),
    {
        let s = slot_index(slot)?;
        Ok(Self { slot: Slot::Normal(s), click_type: ClickType::ShiftClick })
    }

    fn new_key_click(button: i8, slot: i16) -> (r: Result<Self, InventoryError>)
        ensures
            r == spec_click(SlotActionType::Swap, button, slot),
    {
        let key = if KEY_CLICK_HOTBAR_START <= button && button < KEY_CLICK_HOTBAR_END {
            KeyClick::Slot(button as u8)
        } else if button == KEY_CLICK_OFFHAND {
            KeyClick::Offhand
        } else {
            return Err(InventoryError::InvalidSlot);
        };
        let s = slot_index(slot)?;
        Ok(Self { click_type: ClickType::KeyClick(key), slot: Slot::Normal(s) })
    }

    fn new_drop_item(button: i8, slot: i16) -> (r: Result<Self, InventoryError>)
        ensures
            r == spec_click(SlotActionType::Throw, button, slot),
    {
        let drop_type = DropType::from_i8(button)?;
        let slot = slot_or_outside(slot);
        Ok(Self { click_type: ClickType::DropType(drop_type), slot })
    }

    fn new_drag_item(button: i8, slot: i16) -> (r: Result<Self, InventoryError>)
        ensures
            r == spec_click(SlotActionType::QuickCraft, button, slot),
    {
        let state = if button == 0 {
            MouseDragState::Start(MouseDragType::Left)
        } else if button == 4 {
            MouseDragState::Start(MouseDragType::Right)
        } else if button == 8 {
            MouseDragState::Start(MouseDragType::Middle)
        } else if button == 1 || button == 5 || button == 9 {
            let s = slot_index(slot)?;
            MouseDragState::AddSlot(s)
        } else if button == 2 || button == 6 || button == 10 {
            MouseDragState::End
        } else {
            return Err(InventoryError::InvalidPacket);
        };
        Ok(Self {
            slot: match state {
                MouseDragState::AddSlot(s) => Slot::Normal(s),
                _ => Slot::OutsideInventory,
            },
            click_type: ClickType::MouseDrag { drag_state: state },
        })
    }
}

} // verus!
