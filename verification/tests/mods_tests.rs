use beammp_manager::errors::CoreError;
use beammp_manager::mods::add_client_mod;
use beammp_manager::mods::disable_client_mod;
use beammp_manager::mods::disable_server_mod;
use beammp_manager::mods::enable_client_mod;
use beammp_manager::mods::enable_server_mod;
use beammp_manager::mods::resource_root;
use beammp_manager::mods::scan_client_mods;
use beammp_manager::mods::scan_server_mods;
use beammp_manager::mods::set_enabled;
use beammp_manager::mods::sort_mods;
use beammp_manager::mods::ClientFileEntry;
use beammp_manager::mods::DirEntry;
use beammp_manager::mods::ModClass;
use beammp_manager::mods::ModEntry;
use std::io::Write;

fn dir(name: &str) -> DirEntry {
    DirEntry { name: name.to_string(), is_dir: true }
}

fn file(name: &str) -> DirEntry {
    DirEntry { name: name.to_string(), is_dir: false }
}

fn client_file(name: &str) -> ClientFileEntry {
    ClientFileEntry { name: name.to_string(), is_file: true, data: Vec::new() }
}

fn unit(relative_path: &str) -> ModEntry {
    ModEntry {
        relative_path: relative_path.to_string(),
        full_path: format!("root/{}", relative_path),
        enabled: true,
        is_level: false,
        is_vehicle: false,
    }
}

#[test]
fn resource_root_paths() {
    assert_eq!(resource_root("srv", "Resources", ModClass::Server, true), "srv/Resources/Server");
    assert_eq!(
        resource_root("srv", "Resources", ModClass::Server, false),
        "srv/Resources_disabled/Server"
    );
    assert_eq!(resource_root("srv", "Res", ModClass::Client, true), "srv/Res/Client");
    assert_eq!(resource_root("srv", "Res", ModClass::Client, false), "srv/Res_disabled/Client");
}

#[test]
fn sort_is_bytewise_on_paths() {
    let mut mods = vec![unit("b/x"), unit("a/y"), unit("a")];
    sort_mods(&mut mods);
    let order: Vec<&str> = mods.iter().map(|m| m.relative_path.as_str()).collect();
    assert_eq!(order, vec!["a", "a/y", "b/x"]);
}

#[test]
fn scan_server_mods_keeps_directories_only_and_sorts() {
    let enabled = vec![dir("zeta"), file("notes.txt"), dir("alpha")];
    let disabled = vec![dir("midway")];
    let mods = scan_server_mods("srv", "Resources", &enabled, &disabled);
    let seen: Vec<(&str, &str, bool)> = mods
        .iter()
        .map(|m| (m.relative_path.as_str(), m.full_path.as_str(), m.enabled))
        .collect();
    assert_eq!(
        seen,
        vec![
            ("alpha", "srv/Resources/Server/alpha", true),
            ("midway", "srv/Resources_disabled/Server/midway", false),
            ("zeta", "srv/Resources/Server/zeta", true),
        ]
    );
    assert!(mods.iter().all(|m| !m.is_level && !m.is_vehicle));
}

#[test]
fn scan_client_mods_scenario_enabled_and_disabled() {
    let enabled = vec![client_file("a.zip")];
    let disabled = vec![client_file("b.zip")];
    let mods = scan_client_mods("srv", "Resources", &enabled, &disabled);
    assert_eq!(mods.len(), 2);
    assert_eq!(mods[0].relative_path, "a.zip");
    assert!(mods[0].enabled);
    assert_eq!(mods[0].full_path, "srv/Resources/Client/a.zip");
    assert_eq!(mods[1].relative_path, "b.zip");
    assert!(!mods[1].enabled);
    assert_eq!(mods[1].full_path, "srv/Resources_disabled/Client/b.zip");
}

#[test]
fn scan_client_mods_filters_and_excludes_reserved_name() {
    let enabled = vec![
        client_file("mods.json"),
        client_file("MODS.JSON"),
        client_file("readme.txt"),
        client_file("pack.ZIP"),
        ClientFileEntry { name: "folder.zip".to_string(), is_file: false, data: Vec::new() },
        client_file(".zip"),
    ];
    let mods = scan_client_mods("srv", "Resources", &enabled, &Vec::new());
    let names: Vec<&str> = mods.iter().map(|m| m.relative_path.as_str()).collect();
    assert_eq!(names, vec!["pack.ZIP"]);
}

#[test]
fn scan_client_mods_classifies_from_bytes() {
    let cursor = std::io::Cursor::new(Vec::new());
    let mut writer = zip::ZipWriter::new(cursor);
    let options = zip::write::SimpleFileOptions::default()
        .compression_method(zip::CompressionMethod::Stored);
    writer.start_file("levels/gridmap/info.json", options).unwrap();
    writer.write_all(b"{}").unwrap();
    let data = writer.finish().unwrap().into_inner();

    let enabled = vec![ClientFileEntry { name: "map.zip".to_string(), is_file: true, data }];
    let mods = scan_client_mods("srv", "Resources", &enabled, &Vec::new());
    assert_eq!(mods.len(), 1);
    assert!(mods[0].is_level);
    assert!(!mods[0].is_vehicle);
}

#[test]
fn toggle_round_trip_restores_paths() {
    let disable = disable_server_mod("srv", "Resources", "mymod", true, false).unwrap();
    let enable = enable_server_mod("srv", "Resources", "mymod", true, false).unwrap();
    assert_eq!(disable.source, "srv/Resources/Server/mymod");
    assert_eq!(disable.target, "srv/Resources_disabled/Server/mymod");
    assert_eq!(enable.source, disable.target);
    assert_eq!(enable.target, disable.source);
}

#[test]
fn toggle_paths_for_client_units() {
    let disable = disable_client_mod("srv", "Resources", "a.zip", true, false).unwrap();
    assert_eq!(disable.source, "srv/Resources/Client/a.zip");
    assert_eq!(disable.target, "srv/Resources_disabled/Client/a.zip");
    assert_eq!(disable.target_parent, "srv/Resources_disabled/Client");
    let enable = enable_client_mod("srv", "Resources", "a.zip", true, false).unwrap();
    assert_eq!(enable.source, "srv/Resources_disabled/Client/a.zip");
    assert_eq!(enable.target, "srv/Resources/Client/a.zip");
    assert_eq!(enable.target_parent, "srv/Resources/Client");
}

#[test]
fn unit_is_under_exactly_one_root() {
    // The enabled and disabled backing paths of one unit never coincide.
    let disable = disable_server_mod("srv", "Resources", "m", true, false).unwrap();
    assert_ne!(disable.source, disable.target);
    let enabled = vec![dir("m")];
    let mods = scan_server_mods("srv", "Resources", &enabled, &Vec::new());
    assert_eq!(mods.len(), 1);
    assert_eq!(mods[0].full_path, "srv/Resources/Server/m");
    assert_ne!(mods[0].full_path, "srv/Resources_disabled/Server/m");
}

#[test]
fn set_enabled_reports_missing_and_already_moved_units() {
    let r = set_enabled("srv", "Resources", ModClass::Server, "m", true, false, false);
    assert!(matches!(r, Err(CoreError::NotFound)));
    let r = set_enabled("srv", "Resources", ModClass::Server, "m", true, false, true);
    assert!(matches!(r, Err(CoreError::AlreadyInTargetState)));
    let r = set_enabled("srv", "Resources", ModClass::Server, "m", true, true, false);
    assert!(r.is_ok());
}

#[test]
fn add_client_mod_plans_copy_into_client_root() {
    let plan = add_client_mod("srv", "Resources", "/downloads/pack.zip").unwrap();
    assert_eq!(plan.client_dir, "srv/Resources/Client");
    assert_eq!(plan.target, "srv/Resources/Client/pack.zip");
}

#[test]
fn add_client_mod_accepts_uppercase_extension() {
    let plan = add_client_mod("srv", "Resources", "c:/packs/Pack.ZIP").unwrap();
    assert_eq!(plan.target, "srv/Resources/Client/Pack.ZIP");
}

#[test]
fn add_client_mod_rejects_other_files() {
    assert!(matches!(
        add_client_mod("srv", "Resources", "/downloads/pack.rar"),
        Err(CoreError::InvalidFormat)
    ));
    assert!(matches!(
        add_client_mod("srv", "Resources", "/downloads/noext"),
        Err(CoreError::InvalidFormat)
    ));
    assert!(matches!(
        add_client_mod("srv", "Resources", "/downloads/.zip"),
        Err(CoreError::InvalidFormat)
    ));
    assert!(matches!(
        add_client_mod("srv", "Resources", "/downloads/"),
        Err(CoreError::InvalidFormat)
    ));
}
