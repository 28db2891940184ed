//! The basic server configuration: the settings held as plain values, their
//! defaults, and the checks a loaded configuration must pass.
use vstd::prelude::*;

verus! {

/// The basic settings of a server. The bind address, difficulty, op level and
/// game mode are held by the loader beside these.
#[derive(Clone, Debug)]
pub struct BasicConfiguration {
    /// The seed for world generation.
    pub seed: String,
    /// The maximum number of players allowed on the server. Specifying `0` disables the limit.
    pub max_players: u32,
    /// The maximum view distance for players.
    pub view_distance: u8,
    /// The maximum simulated view distance.
    pub simulation_distance: u8,
    /// Whether the Nether dimension is enabled.
    pub allow_nether: bool,
    /// Whether the server is in hardcore mode.
    pub hardcore: bool,
    /// Whether online mode is enabled. Requires valid Minecraft accounts.
    pub online_mode: bool,
    /// Whether packet encryption is enabled. Required when online mode is enabled.
    pub encryption: bool,
    /// Message of the Day; the server's description displayed on the status screen.
    pub motd: String,
    /// If the server force the gamemode on join
    pub force_gamemode: bool,
    /// Whether to remove IPs from logs or not
    pub scrub_ips: bool,
    /// Whether to use a server favicon
    pub use_favicon: bool,
    /// Path to server favicon
    pub favicon_path: String,
    /// The default level name
    pub default_level_name: String,
    /// Whether chat messages should be signed or not
    pub allow_chat_reports: bool,
}

impl Default for BasicConfiguration {
    fn default() -> (r: Self)
        ensures
            r.seed@ == ""@,
            r.max_players == 100000,
            r.view_distance == 10,
            r.simulation_distance == 10,
            r.allow_nether,
            !r.hardcore,
            r.online_mode,
            r.encryption,
            r.motd@ == "A blazingly fast Pumpkin server!"@,
            !r.force_gamemode,
            r.scrub_ips,
            r.use_favicon,
            r.favicon_path@ == "icon.png"@,
            r.default_level_name@ == "world"@,
            !r.allow_chat_reports,
    {
        BasicConfiguration {
            seed: String::from_str(""),
            max_players: 100000,
            view_distance: 10,
            simulation_distance: 10,
            allow_nether: true,
            hardcore: false,
            online_mode: true,
            encryption: true,
            motd: String::from_str("A blazingly fast Pumpkin server!"),
            force_gamemode: false,
            scrub_ips: true,
            use_favicon: true,
            favicon_path: String::from_str("icon.png"),
            default_level_name: String::from_str("world"),
            allow_chat_reports: false,
        }
    }
}

/// Why a configuration was rejected.
#[derive(Clone, Copy, Debug, PartialEq, Eq, Structural)]
pub enum ConfigError {
    /// View distance must be at least 2
    ViewDistanceTooSmall,
    /// View distance must be less than 32
    ViewDistanceTooLarge,
    /// When online mode is enabled, encryption must be enabled
    EncryptionRequired,
}

impl BasicConfiguration {
    /// Checks the settings, in order: the view distance is at least 2 and at
    /// most 32, and online mode comes with encryption.
    pub fn validate(&self) -> (r: Result<(), ConfigError>)
        ensures
            self.view_distance < 2 ==> r == Err::<(), ConfigError>(
                ConfigError::ViewDistanceTooSmall,
            ),
            2 <= self.view_distance && self.view_distance > 32 ==> r == Err::<(), ConfigError>(
                ConfigError::ViewDistanceTooLarge,
            ),
            2 <= self.view_distance <= 32 && self.online_mode && !self.encryption ==> r == Err::<
                (),
                ConfigError,
            >(ConfigError::EncryptionRequired),
            r is Ok <==> (2 <= self.view_distance <= 32 && (self.online_mode ==> self.encryption)),
    {
        if self.view_distance < 2 {
            return Err(ConfigError::ViewDistanceTooSmall);
        }
        if self.view_distance > 32 {
            return Err(ConfigError::ViewDistanceTooLarge);
        }
        if self.online_mode && !self.encryption {
            return Err(ConfigError::EncryptionRequired);
        }
        Ok(())
    }

    /// The path of the world folder: `./` and the level name.
    pub fn get_world_path(&self) -> (r: String)
        ensures
            r@ == "./"@ + self.default_level_name@,
    {
        let mut s = String::from_str("./");
        s.append(self.default_level_name.as_str());
        s
    }
}

} // verus!
