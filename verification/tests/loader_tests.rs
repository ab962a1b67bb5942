use blink_core::loader::DirectoryLoader;
use blink_core::scanner::{RawEntry, Scanner};

fn scanned(dir: &str, names: &[&str]) -> Vec<blink_core::scanner::FileEntry> {
    let raws = names
        .iter()
        .map(|n| RawEntry {
            name: n.to_string(),
            is_directory: false,
            size: 1,
            modified: "now".to_string(),
        })
        .collect();
    Scanner::scan_with_hidden(dir, raws, false)
}

#[test]
fn a_stale_scan_never_clobbers_a_newer_dispatch() {
    let mut loader = DirectoryLoader::new();
    // scan one is dispatched, then scan two before one returns
    let g1 = loader.dispatch("/slow".to_string());
    let g2 = loader.dispatch("/fast".to_string());
    assert_ne!(g1, g2);
    // scan one returns late: its result is discarded
    let stale = scanned("/slow", &["old"]);
    assert!(!loader.on_scan_complete(g1, stale));
    assert_eq!(loader.entry_count(), 0);
    // scan two returns: applied
    let fresh = scanned("/fast", &["new-a", "new-b"]);
    assert!(loader.on_scan_complete(g2, fresh));
    assert_eq!(loader.entry_count(), 2);
    // scan one tries again: still discarded
    let stale = scanned("/slow", &["old"]);
    assert!(!loader.on_scan_complete(g1, stale));
    assert_eq!(loader.entry_count(), 2);
}

#[test]
fn the_generation_grows_with_every_dispatch() {
    let mut loader = DirectoryLoader::new();
    assert_eq!(loader.current_generation(), 0);
    let g1 = loader.dispatch("/a".to_string());
    assert_eq!(g1, 1);
    assert_eq!(loader.current_generation(), 1);
    let g2 = loader.dispatch("/b".to_string());
    assert_eq!(g2, 2);
}

#[test]
fn a_current_scan_is_applied_exactly_when_its_ticket_is_live() {
    let mut loader = DirectoryLoader::new();
    let g = loader.dispatch("/dir".to_string());
    assert!(loader.on_scan_complete(g, scanned("/dir", &["x"])));
    assert_eq!(loader.entry_count(), 1);
    // a ticket that never existed is discarded too
    assert!(!loader.on_scan_complete(g + 1, scanned("/dir", &["y"])));
    assert_eq!(loader.entry_count(), 1);
}

#[test]
fn dispatch_empties_the_view_synchronously() {
    let mut loader = DirectoryLoader::new();
    let g = loader.dispatch("/dir".to_string());
    assert!(loader.on_scan_complete(g, scanned("/dir", &["x"])));
    assert_eq!(loader.entry_count(), 1);
    let _g2 = loader.dispatch("/elsewhere".to_string());
    assert_eq!(loader.entry_count(), 0);
}
