use mc_world_manager::codec::{encode_path, PathDecodeError};
use mc_world_manager::registry::{join_paths, PathRegistry, SubfolderEntry};

fn world(p: &str) -> SubfolderEntry {
    SubfolderEntry { path: Some(p.to_string()), has_region: true }
}

#[test]
fn add_path_appends_encoded_record() {
    let mut reg = PathRegistry::new();
    reg.add_path("saves/A");
    reg.add_path("saves/A");
    assert_eq!(reg.get_path_count(), 2);
    assert_eq!(reg.records()[0], encode_path("saves/A"));
    assert!(reg.contains_path("saves/A"));
    assert!(!reg.contains_path("saves/B"));
}

#[test]
fn get_all_paths_decodes_records() {
    let mut reg = PathRegistry::new();
    reg.add_path("saves/A");
    reg.add_path("saves/Ö");
    assert_eq!(reg.get_all_paths(), Ok(vec!["saves/A".to_string(), "saves/Ö".to_string()]));
}

#[test]
fn get_all_paths_reports_bad_record() {
    let reg = PathRegistry::from_records(vec![encode_path("x"), "%%%".to_string()]);
    assert_eq!(reg.get_all_paths(), Err(PathDecodeError::NotBase64));
}

#[test]
fn bulk_insert_twice_keeps_one_record() {
    let mut reg = PathRegistry::new();
    let listing = vec![world("saves/A"), world("saves/B")];
    let first = reg.insert_subfolders_of_folder(&listing);
    assert_eq!(first, vec![encode_path("saves/A"), encode_path("saves/B")]);
    let second = reg.insert_subfolders_of_folder(&vec![world("saves/A")]);
    assert!(second.is_empty());
    assert_eq!(reg.get_path_count(), 2);
    let n = reg.records().iter().filter(|r| **r == encode_path("saves/A")).count();
    assert_eq!(n, 1);
}

#[test]
fn bulk_insert_dedups_within_listing() {
    let mut reg = PathRegistry::new();
    let added = reg.insert_subfolders_of_folder(&vec![world("w"), world("w")]);
    assert_eq!(added.len(), 1);
    assert_eq!(reg.get_path_count(), 1);
}

#[test]
fn bulk_insert_skips_unreadable_entry() {
    let mut reg = PathRegistry::new();
    let listing = vec![
        world("saves/A"),
        SubfolderEntry { path: None, has_region: true },
        SubfolderEntry { path: Some("saves/notes".to_string()), has_region: false },
        world("saves/C"),
    ];
    reg.insert_subfolders_of_folder(&listing);
    assert_eq!(reg.get_all_paths(), Ok(vec!["saves/A".to_string(), "saves/C".to_string()]));
}

#[test]
fn bulk_insert_respects_existing_records() {
    let mut reg = PathRegistry::from_records(vec![encode_path("saves/A")]);
    let added = reg.insert_subfolders_of_folder(&vec![world("saves/A"), world("saves/B")]);
    assert_eq!(added, vec![encode_path("saves/B")]);
    assert_eq!(reg.get_path_count(), 2);
}

#[test]
fn get_all_paths_reports_first_bad_record() {
    let reg = PathRegistry::from_records(vec![encode_path("x"), "/w==".to_string(), "%%%".to_string()]);
    assert_eq!(reg.get_all_paths(), Err(PathDecodeError::NotUtf8));
}

#[test]
fn join_paths_separates_with_commas() {
    assert_eq!(join_paths(&vec![]), "");
    assert_eq!(join_paths(&vec!["a".to_string()]), "a");
    assert_eq!(join_paths(&vec!["C:\\x".to_string(), "".to_string(), "b c".to_string()]), "C:\\x,,b c");
}

#[test]
fn listing_after_add_holds_the_path() {
    let mut reg = PathRegistry::from_records(vec![encode_path("first")]);
    reg.add_path("/home/ü/saves/Welt");
    let listed = reg.get_all_paths().unwrap();
    assert!(listed.contains(&"/home/ü/saves/Welt".to_string()));
}
