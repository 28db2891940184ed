//! Game data: registry tags, block states and the names and properties that
//! the data generator derives from the registries.

pub mod naming;
pub mod strings;
pub mod block;
pub mod fluid;
pub mod tag;
pub mod block_state;
pub mod registry;
pub mod property_groups;
