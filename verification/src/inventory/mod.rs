//! Inventories and container windows: decoding clicks, item stacks and the
//! moves between slots.

pub mod click;
pub mod window;
pub mod stack;
pub mod player_inventory;
pub mod laws;
pub mod screen;
pub mod clicks;
pub mod window_inventory;
pub mod equipment;
pub mod open_container;
pub mod crafting;
pub mod sync;
