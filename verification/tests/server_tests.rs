use beammp_manager::config::GeneralConfig;
use beammp_manager::config::MiscConfig;
use beammp_manager::config::ServerConfig;
use beammp_manager::errors::CoreError;
use beammp_manager::server::ServerEntry;
use beammp_manager::server::ServerList;
use beammp_manager::settings::AppSettings;

fn named_config(name: &str) -> ServerConfig {
    let mut config = ServerConfig::default();
    config.general.name = name.to_string();
    config
}

#[test]
fn general_config_default_values() {
    let g = GeneralConfig::default();
    assert_eq!(g.port, 30814);
    assert_eq!(g.auth_key, "");
    assert!(g.allow_guests);
    assert!(g.log_chat);
    assert!(!g.debug);
    assert_eq!(g.ip, "::");
    assert!(g.private);
    assert!(g.information_packet);
    assert_eq!(g.name, "BeamMP Server");
    assert_eq!(g.tags, "Freeroam");
    assert_eq!(g.max_cars, 1);
    assert_eq!(g.max_players, 8);
    assert_eq!(g.map, "/levels/gridmap_v2/info.json");
    assert_eq!(g.description, "BeamMP Default Description");
    assert_eq!(g.resource_folder, "Resources");
}

#[test]
fn misc_config_default_values() {
    let m = MiscConfig::default();
    assert!(m.im_scared_of_updates);
    assert_eq!(m.update_reminder_time, "30s");
}

#[test]
fn new_entry_requires_the_config_file() {
    let r = ServerEntry::new("servers/alpha".to_string(), None);
    assert!(matches!(r, Err(CoreError::ConfigNotFound)));
}

#[test]
fn new_entry_takes_its_name_from_the_config() {
    let entry =
        ServerEntry::new("servers/alpha".to_string(), Some(Ok(named_config("My Server")))).unwrap();
    assert_eq!(entry.name, "My Server");
    assert_eq!(entry.path, "servers/alpha");
    assert_eq!(entry.id.len(), 36);
    assert!(entry.loaded_config.is_some());
    assert!(entry.edited_config.is_some());
    assert!(entry.config_error.is_none());
}

#[test]
fn new_entry_falls_back_to_the_directory_name() {
    let entry = ServerEntry::new("servers/alpha".to_string(), Some(Ok(named_config("")))).unwrap();
    assert_eq!(entry.name, "alpha");
}

#[test]
fn new_entry_keeps_the_parse_error() {
    let entry =
        ServerEntry::new("servers/alpha".to_string(), Some(Err("parse error: bad".to_string())))
            .unwrap();
    assert_eq!(entry.name, "alpha");
    assert_eq!(entry.config_error, Some("parse error: bad".to_string()));
    assert!(entry.loaded_config.is_none());
    assert!(entry.edited_config.is_none());
}

#[test]
fn fresh_identifiers_differ() {
    let a = ServerEntry::new("servers/a".to_string(), Some(Ok(ServerConfig::default()))).unwrap();
    let b = ServerEntry::new("servers/a".to_string(), Some(Ok(ServerConfig::default()))).unwrap();
    assert_ne!(a.id, b.id);
}

#[test]
fn dirty_revert_and_save_cycle() {
    let mut entry =
        ServerEntry::new("servers/alpha".to_string(), Some(Ok(named_config("S")))).unwrap();
    assert!(!entry.is_config_dirty());

    entry.edited_config.as_mut().unwrap().general.max_players = 32;
    assert!(entry.is_config_dirty());

    entry.revert_config();
    assert!(!entry.is_config_dirty());
    assert_eq!(entry.edited_config.as_ref().unwrap().general.max_players, 8);

    entry.edited_config.as_mut().unwrap().general.max_players = 64;
    let to_write = entry.save_config().unwrap();
    assert_eq!(to_write.general.max_players, 64);
    assert_eq!(entry.loaded_config.as_ref().unwrap().general.max_players, 64);
    assert!(!entry.is_config_dirty());
}

#[test]
fn save_without_an_edited_config_fails() {
    let mut entry =
        ServerEntry::new("servers/alpha".to_string(), Some(Err("unreadable".to_string()))).unwrap();
    let r = entry.save_config();
    assert!(matches!(r, Err(CoreError::NoConfigToSave)));
}

#[test]
fn server_list_add_and_remove() {
    let mut list = ServerList::default();
    assert!(list.servers.is_empty());

    let entry =
        ServerEntry::new("servers/alpha".to_string(), Some(Ok(named_config("Alpha")))).unwrap();
    let name = list.add_server(entry);
    assert_eq!(name, "Alpha");
    assert_eq!(list.servers.len(), 1);

    let other =
        ServerEntry::new("servers/beta".to_string(), Some(Ok(named_config("Beta")))).unwrap();
    list.add_server(other);
    assert_eq!(list.servers.len(), 2);

    list.remove_server(5);
    assert_eq!(list.servers.len(), 2);

    list.remove_server(0);
    assert_eq!(list.servers.len(), 1);
    assert_eq!(list.servers[0].name, "Beta");
}

#[test]
fn app_settings_default_values() {
    let s = AppSettings::default();
    assert!(s.minimize_to_tray);
    assert!(!s.start_minimized);
}

#[test]
fn error_messages_are_short_phrases() {
    assert_eq!(CoreError::ExecutableNotFound.message(), "server executable not found");
    assert_eq!(CoreError::UnreadableArchive.message(), "unreadable content package");
}
