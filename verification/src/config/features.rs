//! The feature configuration and the holder through which the server reads it.
use vstd::prelude::*;

use super::chunk::{ChunkCompression, ChunkConfig, ChunkFormat, Compression};

verus! {

/// Settings that only make the game more fun.
#[derive(Clone, Copy, Debug, PartialEq, Eq, Structural)]
pub struct FunConfig {
    pub april_fools: bool,
}

impl Default for FunConfig {
    /// April fools jokes are on.
    fn default() -> (r: Self)
        ensures
            r.april_fools,
    {
        Self { april_fools: true }
    }
}

/// How players fight each other.
#[derive(Clone, Copy, Debug, PartialEq, Eq, Structural)]
pub struct PVPConfig {
    /// Whether PVP is enabled.
    pub enabled: bool,
    /// Whether to use the red hurt animation and FOV bobbing.
    pub hurt_animation: bool,
    /// Whether players in creative mode are protected against PVP.
    pub protect_creative: bool,
    /// Whether PVP knockback is enabled.
    pub knockback: bool,
    /// Whether players swing when attacking.
    pub swing: bool,
}

impl Default for PVPConfig {
    /// Everything on.
    fn default() -> (r: Self)
        ensures
            r.enabled && r.hurt_animation && r.protect_creative && r.knockback && r.swing,
    {
        Self {
            enabled: true,
            hurt_animation: true,
            protect_creative: true,
            knockback: true,
            swing: true,
        }
    }
}

/// The feature configuration: the sections whose settings the server reads.
#[derive(Clone, Copy, Debug, PartialEq, Eq, Structural)]
pub struct AdvancedConfiguration {
    pub chunk: ChunkConfig,
    pub pvp: PVPConfig,
}

impl Default for AdvancedConfiguration {
    /// Every section at its default.
    fn default() -> (r: Self)
        ensures
            r.chunk == (ChunkConfig {
                compression: ChunkCompression { algorithm: Compression::LZ4, level: 6 },
                format: ChunkFormat::Anvil,
                write_in_place: false,
            }),
            r.pvp == (PVPConfig {
                enabled: true,
                hurt_animation: true,
                protect_creative: true,
                knockback: true,
                swing: true,
            }),
    {
        AdvancedConfiguration { chunk: ChunkConfig::default(), pvp: PVPConfig::default() }
    }
}

/// The feature configuration in force: loaded once, replaceable in tests.
pub struct ConfigStore {
    pub current: AdvancedConfiguration,
}

impl ConfigStore {
    /// A store holding `config`.
    pub fn new(config: AdvancedConfiguration) -> (r: Self)
        ensures
            r.current == config,
    {
        ConfigStore { current: config }
    }
}

/// The feature configuration in force.
pub fn advanced_config(store: &ConfigStore) -> (r: &AdvancedConfiguration)
    ensures
        *r == store.current,
{
    &store.current
}

/// Puts `config` in force in place of the loaded one.
pub fn override_config_for_testing(store: &mut ConfigStore, config: AdvancedConfiguration)
    ensures
        final(store).current == config,
{
    store.current = config;
}

} // verus!
