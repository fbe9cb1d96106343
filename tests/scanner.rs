use mc_world_manager::scanner::{classify_hit, classify_search_hits, HitClass, SearchHit};

fn hit(folder: &str, has_region: bool, has_server_eula: bool) -> SearchHit {
    SearchHit { folder: folder.to_string(), has_region, has_server_eula }
}

#[test]
fn world_server_and_invalid_classification() {
    assert_eq!(classify_hit(&hit("saves/W", true, false)), HitClass::World);
    assert_eq!(classify_hit(&hit("server/world", true, true)), HitClass::Server);
    assert_eq!(classify_hit(&hit("saves/W", false, false)), HitClass::Invalid);
    assert_eq!(classify_hit(&hit("server/world", false, true)), HitClass::Invalid);
}

#[test]
fn search_hits_are_sorted_in_order() {
    let hits = vec![
        hit("a", true, false),
        hit("b", false, false),
        hit("c", true, true),
        hit("d", true, false),
        hit("e", false, true),
    ];
    let found = classify_search_hits(&hits);
    assert_eq!(found.world_paths, vec!["a".to_string(), "d".to_string()]);
    assert_eq!(found.server_paths, vec!["c".to_string()]);
    assert_eq!(found.invalid_path_count, 2);
}

#[test]
fn no_hits_found_nothing() {
    let found = classify_search_hits(&vec![]);
    assert!(found.world_paths.is_empty());
    assert!(found.server_paths.is_empty());
    assert_eq!(found.invalid_path_count, 0);
}

#[test]
fn eula_and_region_reclassify_hit() {
    let base = vec![hit("x", false, false), hit("saves/W", true, false)];
    let f = classify_search_hits(&base);
    assert_eq!(f.world_paths, vec!["saves/W".to_string()]);
    assert_eq!(f.invalid_path_count, 1);
    let server = vec![hit("x", false, false), hit("saves/W", true, true)];
    let g = classify_search_hits(&server);
    assert!(g.world_paths.is_empty());
    assert_eq!(g.server_paths, vec!["saves/W".to_string()]);
    assert_eq!(g.invalid_path_count, 1);
    let bare = vec![hit("x", false, false), hit("saves/W", false, false)];
    let h = classify_search_hits(&bare);
    assert!(h.world_paths.is_empty() && h.server_paths.is_empty());
    assert_eq!(h.invalid_path_count, 2);
}
