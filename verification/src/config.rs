//! The server's configuration records, as plain data.  The surrounding
//! application parses and serializes the on-disk text form; the library
//! holds the values, their defaults, and a verified structural equality
//! used to detect unsaved edits.

use vstd::prelude::*;
use vstd::string::StringExecFns;

verus! {

/// The `General` table of a server configuration.
#[derive(Debug)]
pub struct GeneralConfig {
    pub port: u16,
    pub auth_key: String,
    pub allow_guests: bool,
    pub log_chat: bool,
    pub debug: bool,
    pub ip: String,
    pub private: bool,
    pub information_packet: bool,
    pub name: String,
    pub tags: String,
    pub max_cars: i32,
    pub max_players: i32,
    pub map: String,
    pub description: String,
    pub resource_folder: String,
}

/// Mathematical model of a `GeneralConfig`.
pub ghost struct GeneralConfigModel {
    pub port: u16,
    pub auth_key: Seq<char>,
    pub allow_guests: bool,
    pub log_chat: bool,
    pub debug: bool,
    pub ip: Seq<char>,
    pub private: bool,
    pub information_packet: bool,
    pub name: Seq<char>,
    pub tags: Seq<char>,
    pub max_cars: i32,
    pub max_players: i32,
    pub map: Seq<char>,
    pub description: Seq<char>,
    pub resource_folder: Seq<char>,
}

impl View for GeneralConfig {
    type V = GeneralConfigModel;

    open spec fn view(&self) -> GeneralConfigModel {
        GeneralConfigModel {
            port: self.port,
            auth_key: self.auth_key@,
            allow_guests: self.allow_guests,
            log_chat: self.log_chat,
            debug: self.debug,
            ip: self.ip@,
            private: self.private,
            information_packet: self.information_packet,
            name: self.name@,
            tags: self.tags@,
            max_cars: self.max_cars,
            max_players: self.max_players,
            map: self.map@,
            description: self.description@,
            resource_folder: self.resource_folder@,
        }
    }
}

/// The `Misc` table of a server configuration.
#[derive(Debug)]
pub struct MiscConfig {
    pub im_scared_of_updates: bool,
    pub update_reminder_time: String,
}

/// Mathematical model of a `MiscConfig`.
pub ghost struct MiscConfigModel {
    pub im_scared_of_updates: bool,
    pub update_reminder_time: Seq<char>,
}

impl View for MiscConfig {
    type V = MiscConfigModel;

    open spec fn view(&self) -> MiscConfigModel {
        MiscConfigModel {
            im_scared_of_updates: self.im_scared_of_updates,
            update_reminder_time: self.update_reminder_time@,
        }
    }
}

/// A whole server configuration.
#[derive(Debug)]
pub struct ServerConfig {
    pub general: GeneralConfig,
    pub misc: MiscConfig,
}

/// Mathematical model of a `ServerConfig`.
pub ghost struct ServerConfigModel {
    pub general: GeneralConfigModel,
    pub misc: MiscConfigModel,
}

impl View for ServerConfig {
    type V = ServerConfigModel;

    open spec fn view(&self) -> ServerConfigModel {
        ServerConfigModel { general: self.general@, misc: self.misc@ }
    }
}

impl Clone for GeneralConfig {
    /// A clone carries the same values.
    fn clone(&self) -> (r: Self)
        ensures
            r == *self,
    {
        GeneralConfig {
            port: self.port,
            auth_key: self.auth_key.clone(),
            allow_guests: self.allow_guests,
            log_chat: self.log_chat,
            debug: self.debug,
            ip: self.ip.clone(),
            private: self.private,
            information_packet: self.information_packet,
            name: self.name.clone(),
            tags: self.tags.clone(),
            max_cars: self.max_cars,
            max_players: self.max_players,
            map: self.map.clone(),
            description: self.description.clone(),
            resource_folder: self.resource_folder.clone(),
        }
    }
}

impl Clone for MiscConfig {
    /// A clone carries the same values.
    fn clone(&self) -> (r: Self)
        ensures
            r == *self,
    {
        MiscConfig {
            im_scared_of_updates: self.im_scared_of_updates,
            update_reminder_time: self.update_reminder_time.clone(),
        }
    }
}

impl Clone for ServerConfig {
    /// A clone carries the same values.
    fn clone(&self) -> (r: Self)
        ensures
            r == *self,
    {
        ServerConfig { general: self.general.clone(), misc: self.misc.clone() }
    }
}

impl Default for GeneralConfig {
    /// The stock configuration a fresh server starts from.
    fn default() -> (r: Self)
        ensures
            r.port == 30814,
            r.auth_key@ == Seq::<char>::empty(),
            r.allow_guests,
            r.log_chat,
            !r.debug,
            r.ip@ == "::"@,
            r.private,
            r.information_packet,
            r.name@ == "BeamMP Server"@,
            r.tags@ == "Freeroam"@,
            r.max_cars == 1,
            r.max_players == 8,
            r.map@ == "/levels/gridmap_v2/info.json"@,
            r.description@ == "BeamMP Default Description"@,
            r.resource_folder@ == "Resources"@,
    {
        GeneralConfig {
            port: 30814,
            auth_key: String::new(),
            allow_guests: true,
            log_chat: true,
            debug: false,
            ip: String::from_str("::"),
            private: true,
            information_packet: true,
            name: String::from_str("BeamMP Server"),
            tags: String::from_str("Freeroam"),
            max_cars: 1,
            max_players: 8,
            map: String::from_str("/levels/gridmap_v2/info.json"),
            description: String::from_str("BeamMP Default Description"),
            resource_folder: String::from_str("Resources"),
        }
    }
}

impl Default for MiscConfig {
    /// The stock miscellaneous settings.
    fn default() -> (r: Self)
        ensures
            r.im_scared_of_updates,
            r.update_reminder_time@ == "30s"@,
    {
        MiscConfig { im_scared_of_updates: true, update_reminder_time: String::from_str("30s") }
    }
}

impl Default for ServerConfig {
    /// The stock configuration, assembled from the two tables' defaults.
    fn default() -> (r: Self)
        ensures
            r.general.port == 30814,
            r.general.name@ == "BeamMP Server"@,
            r.general.resource_folder@ == "Resources"@,
            r.misc.im_scared_of_updates,
    {
        ServerConfig { general: GeneralConfig::default(), misc: MiscConfig::default() }
    }
}

/// Structural equality of two configurations: every field agrees.
pub fn config_eq(a: &ServerConfig, b: &ServerConfig) -> (r: bool)
    ensures
        r == (a@ == b@),
{
    let general = a.general.port == b.general.port && a.general.auth_key == b.general.auth_key
        && a.general.allow_guests == b.general.allow_guests && a.general.log_chat
        == b.general.log_chat && a.general.debug == b.general.debug && a.general.ip == b.general.ip
        && a.general.private == b.general.private && a.general.information_packet
        == b.general.information_packet && a.general.name == b.general.name && a.general.tags
        == b.general.tags && a.general.max_cars == b.general.max_cars && a.general.max_players
        == b.general.max_players && a.general.map == b.general.map && a.general.description
        == b.general.description && a.general.resource_folder == b.general.resource_folder;
    let misc = a.misc.im_scared_of_updates == b.misc.im_scared_of_updates
        && a.misc.update_reminder_time == b.misc.update_reminder_time;
    general && misc
}

} // verus!
