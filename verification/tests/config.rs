use pumpkin::config::basic::{BasicConfiguration, ConfigError};
use pumpkin::config::chunk::{ChunkCompression, ChunkConfig, ChunkFormat, Compression};
use pumpkin::config::features::{
    advanced_config, override_config_for_testing, AdvancedConfiguration, ConfigStore, FunConfig,
    PVPConfig,
};

#[test]
fn chunk_defaults() {
    let c = ChunkConfig::default();
    assert_eq!(c.compression, ChunkCompression { algorithm: Compression::LZ4, level: 6 });
    assert_eq!(c.format, ChunkFormat::Anvil);
    assert!(!c.write_in_place);
}

#[test]
fn fun_and_pvp_defaults() {
    assert!(FunConfig::default().april_fools);
    let p = PVPConfig::default();
    assert!(p.enabled && p.hurt_animation && p.protect_creative && p.knockback && p.swing);
}

#[test]
fn override_replaces_the_config_in_force() {
    let mut store = ConfigStore::new(AdvancedConfiguration::default());
    assert_eq!(advanced_config(&store).chunk.compression.level, 6);
    let mut changed = AdvancedConfiguration::default();
    changed.pvp.enabled = false;
    override_config_for_testing(&mut store, changed);
    assert!(!advanced_config(&store).pvp.enabled);
}

#[test]
fn basic_defaults_validate() {
    let c = BasicConfiguration::default();
    assert_eq!(c.max_players, 100000);
    assert_eq!(c.view_distance, 10);
    assert_eq!(c.motd, "A blazingly fast Pumpkin server!");
    assert_eq!(c.validate(), Ok(()));
    assert_eq!(c.get_world_path(), "./world");
}

#[test]
fn validation_errors() {
    let mut c = BasicConfiguration::default();
    c.view_distance = 1;
    assert_eq!(c.validate(), Err(ConfigError::ViewDistanceTooSmall));
    c.view_distance = 33;
    assert_eq!(c.validate(), Err(ConfigError::ViewDistanceTooLarge));
    c.view_distance = 32;
    assert_eq!(c.validate(), Ok(()));
    c.encryption = false;
    assert_eq!(c.validate(), Err(ConfigError::EncryptionRequired));
    c.online_mode = false;
    assert_eq!(c.validate(), Ok(()));
}
