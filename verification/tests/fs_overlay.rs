use temuera_headless::fs_overlay::{is_special_dir, special_dir_names, stable_path_hash, CaseOverlay};

#[test]
fn special_dirs_are_case_insensitive() {
    assert!(is_special_dir("erb"));
    assert!(is_special_dir("Resources"));
    assert!(!is_special_dir("sav"));
}

#[test]
fn special_dir_list_is_in_order() {
    assert_eq!(special_dir_names(), vec!["CSV", "ERB", "DAT", "DEBUG", "RESOURCES", "resources"]);
    assert!(is_special_dir("debug"));
    assert!(!is_special_dir("debug2"));
}

#[test]
fn path_hash_is_fnv1a_in_hex() {
    assert_eq!(stable_path_hash(""), "cbf29ce484222325");
    assert_eq!(stable_path_hash("a"), "af63dc4c8601ec8c");
    assert_eq!(stable_path_hash("/games/era").len(), 16);
}

#[test]
fn overlay_root_is_kept() {
    let overlay = CaseOverlay::new("/tmp/x".to_owned());
    assert_eq!(overlay.root(), "/tmp/x");
}
