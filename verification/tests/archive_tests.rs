use std::io::Write;

use beammp_manager::archive::check_zip_content_type;
use beammp_manager::archive::get_mod_details;
use beammp_manager::errors::CoreError;

fn build_zip(entries: &[(&str, &[u8])]) -> Vec<u8> {
    let cursor = std::io::Cursor::new(Vec::new());
    let mut writer = zip::ZipWriter::new(cursor);
    let options = zip::write::SimpleFileOptions::default()
        .compression_method(zip::CompressionMethod::Stored);
    for (name, body) in entries {
        writer.start_file(*name, options).unwrap();
        writer.write_all(body).unwrap();
    }
    writer.finish().unwrap().into_inner()
}

#[test]
fn classify_level_and_vehicle_package() {
    let data = build_zip(&[
        ("levels/mymap/info.json", b"{}"),
        ("vehicles/mycar/part.jbeam", b"{}"),
    ]);
    assert_eq!(check_zip_content_type(&data), (true, true));
}

#[test]
fn classify_level_only_package() {
    let data = build_zip(&[("levels/west/info.json", b"{}"), ("scripts/run.lua", b"x")]);
    assert_eq!(check_zip_content_type(&data), (true, false));
}

#[test]
fn classify_is_case_insensitive_on_folders() {
    let data = build_zip(&[("LEVELS/Foo/info.json", b"{}"), ("Vehicle/Bar/a.jbeam", b"x")]);
    assert_eq!(check_zip_content_type(&data), (true, true));
}

#[test]
fn classify_requires_folder_position() {
    // "levels" as a bare file name, or as the last segment, is not a level
    // folder; neither is a folder that merely starts with the word.
    let data = build_zip(&[
        ("levels", b"x"),
        ("foo/levels", b"x"),
        ("levelsofdetail/a.txt", b"x"),
        ("mylevels/a.txt", b"x"),
    ]);
    assert_eq!(check_zip_content_type(&data), (false, false));
}

#[test]
fn classify_nested_level_folder() {
    let data = build_zip(&[("somepack/levels/town/info.json", b"{}")]);
    assert_eq!(check_zip_content_type(&data), (true, false));
}

#[test]
fn classify_unreadable_degrades_to_false() {
    let data = vec![1u8, 2, 3, 4, 5];
    assert_eq!(check_zip_content_type(&data), (false, false));
}

#[test]
fn details_of_level_and_vehicle_package() {
    let data = build_zip(&[
        ("levels/mymap/info.json", b"{}"),
        ("vehicles/mycar/part.jbeam", b"{}"),
    ]);
    let details = get_mod_details(&data).unwrap();
    assert!(details.has_levels);
    assert!(details.has_vehicles);
    assert_eq!(details.level_names, vec!["mymap".to_string()]);
    assert_eq!(details.vehicle_names, vec!["mycar".to_string()]);
    assert_eq!(details.total_files, 2);
    assert_eq!(details.total_size, 4);
}

#[test]
fn details_names_are_deduplicated_and_sorted() {
    let data = build_zip(&[
        ("levels/zeta/info.json", b"aa"),
        ("levels/alpha/info.json", b"bb"),
        ("levels/zeta/map.png", b"cc"),
        ("nested/levels/midway/x.json", b"dd"),
    ]);
    let details = get_mod_details(&data).unwrap();
    assert_eq!(
        details.level_names,
        vec!["alpha".to_string(), "midway".to_string(), "zeta".to_string()]
    );
    assert!(details.vehicle_names.is_empty());
    assert_eq!(details.total_files, 4);
    assert_eq!(details.total_size, 8);
}

#[test]
fn details_level_folder_without_name_sets_flag_only() {
    let cursor = std::io::Cursor::new(Vec::new());
    let mut writer = zip::ZipWriter::new(cursor);
    let options = zip::write::SimpleFileOptions::default()
        .compression_method(zip::CompressionMethod::Stored);
    writer.add_directory("levels", options).unwrap();
    let data = writer.finish().unwrap().into_inner();
    let details = get_mod_details(&data).unwrap();
    assert!(details.has_levels);
    assert!(details.level_names.is_empty());
}

#[test]
fn details_names_are_case_sensitive() {
    let data = build_zip(&[
        ("levels/Alpha/info.json", b"x"),
        ("levels/alpha/info.json", b"y"),
    ]);
    let details = get_mod_details(&data).unwrap();
    assert_eq!(details.level_names, vec!["Alpha".to_string(), "alpha".to_string()]);
}

#[test]
fn details_of_unreadable_package_fail() {
    let data = vec![0u8; 16];
    let r = get_mod_details(&data);
    assert!(matches!(r, Err(CoreError::UnreadableArchive)));
}

#[test]
fn classification_is_idempotent_and_leaves_bytes_untouched() {
    let data = build_zip(&[
        ("levels/mymap/info.json", b"{}"),
        ("vehicles/mycar/part.jbeam", b"{}"),
    ]);
    let before = data.clone();
    let first = check_zip_content_type(&data);
    let second = check_zip_content_type(&data);
    assert_eq!(first, second);
    let d1 = get_mod_details(&data).unwrap();
    let d2 = get_mod_details(&data).unwrap();
    assert_eq!(d1.has_levels, d2.has_levels);
    assert_eq!(d1.has_vehicles, d2.has_vehicles);
    assert_eq!(d1.level_names, d2.level_names);
    assert_eq!(d1.vehicle_names, d2.vehicle_names);
    assert_eq!(d1.total_files, d2.total_files);
    assert_eq!(d1.total_size, d2.total_size);
    assert_eq!(data, before);
}
