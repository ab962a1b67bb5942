use blink_core::pinned::{normalize_path, parse_record_line, PinnedFolderStore};

#[test]
fn normalization_drops_trailing_slashes() {
    assert_eq!(normalize_path("/a/b/"), "/a/b");
    assert_eq!(normalize_path("/a/b"), "/a/b");
    assert_eq!(normalize_path("///"), "/");
    assert_eq!(normalize_path("/"), "/");
    assert_eq!(normalize_path(""), "/");
}

#[test]
fn record_lines_split_at_the_first_bar() {
    let (path, name) = parse_record_line("/home/u/docs|Docs").unwrap();
    assert_eq!(path, "/home/u/docs");
    assert_eq!(name, Some("Docs".to_string()));

    let (path, name) = parse_record_line("/home/u/plain").unwrap();
    assert_eq!(path, "/home/u/plain");
    assert_eq!(name, None);

    // only the first bar separates; later ones belong to the name
    let (path, name) = parse_record_line("/p|a|b").unwrap();
    assert_eq!(path, "/p");
    assert_eq!(name, Some("a|b".to_string()));

    assert!(parse_record_line("# heading").is_none());
    assert!(parse_record_line("   ").is_none());
}

#[test]
fn pinning_is_idempotent_and_ordered() {
    let mut store = PinnedFolderStore::new();
    assert!(store.add("/a".to_string(), "A".to_string()));
    assert!(store.add("/b".to_string(), "B".to_string()));
    assert!(!store.add("/a".to_string(), "again".to_string()));
    assert_eq!(store.len(), 2);
    assert!(store.is_pinned("/a"));
    assert!(!store.is_pinned("/c"));
    assert_eq!(store.get(0), ("/a".to_string(), "A".to_string()));
    assert_eq!(store.get(1), ("/b".to_string(), "B".to_string()));
}

#[test]
fn removing_and_toggling() {
    let mut store = PinnedFolderStore::new();
    store.add("/a".to_string(), "A".to_string());
    store.add("/b".to_string(), "B".to_string());
    assert!(store.remove("/a"));
    assert!(!store.remove("/a"));
    assert_eq!(store.len(), 1);
    assert_eq!(store.get(0).0, "/b");
    // toggling pins the absent and unpins the present
    assert!(store.toggle_pin("/c".to_string(), "C".to_string()));
    assert!(store.is_pinned("/c"));
    assert!(!store.toggle_pin("/c".to_string(), "C".to_string()));
    assert!(!store.is_pinned("/c"));
}

#[test]
fn renaming_changes_the_display_name_only() {
    let mut store = PinnedFolderStore::new();
    store.add("/a".to_string(), "Old".to_string());
    assert!(store.rename("/a", "New".to_string()));
    assert_eq!(store.get(0), ("/a".to_string(), "New".to_string()));
    assert!(!store.rename("/missing", "X".to_string()));
}

#[test]
fn records_render_one_line_per_folder() {
    let mut store = PinnedFolderStore::new();
    store.add("/home/u/docs".to_string(), "Docs".to_string());
    store.add("/srv".to_string(), "Server".to_string());
    assert_eq!(
        store.render_records(),
        "# Blink pinned folders\n/home/u/docs|Docs\n/srv|Server\n"
    );
}
