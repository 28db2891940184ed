//! Verified core of a Minecraft server toolkit: the NBT binary format,
//! inventory bookkeeping, registry tags and configuration defaults.

pub mod nbt;
pub mod data;
pub mod config;
pub mod inventory;
