use blink_core::clipboard::{Clipboard, ClipboardMode, PasteError};

fn strings(v: &[&str]) -> Vec<String> {
    v.iter().map(|s| s.to_string()).collect()
}

#[test]
fn a_fresh_clipboard_holds_nothing() {
    let cb = Clipboard::new();
    assert!(cb.is_empty());
    assert_eq!(cb.mode(), ClipboardMode::Empty);
    assert_eq!(cb.get_paths().len(), 0);
}

#[test]
fn copy_and_cut_replace_both_fields() {
    let mut cb = Clipboard::new();
    cb.copy(strings(&["/a/x", "/a/y"]));
    assert_eq!(cb.mode(), ClipboardMode::Copy);
    assert_eq!(cb.get_paths(), strings(&["/a/x", "/a/y"]));
    cb.cut(strings(&["/b/z"]));
    assert_eq!(cb.mode(), ClipboardMode::Cut);
    assert_eq!(cb.get_paths(), strings(&["/b/z"]));
    cb.clear();
    assert!(cb.is_empty());
    assert_eq!(cb.mode(), ClipboardMode::Empty);
}

#[test]
fn paste_plans_collision_free_destinations() {
    let mut cb = Clipboard::new();
    cb.copy(strings(&["/src/a.txt"]));
    let existing = strings(&["a.txt"]);
    let (items, err) = cb.paste("/dst", &existing);
    assert!(err.is_none());
    assert_eq!(items.len(), 1);
    assert_eq!(items[0].source, "/src/a.txt");
    assert_eq!(items[0].dest, "/dst/a (1).txt");
}

#[test]
fn paste_keeps_two_like_named_sources_apart() {
    let mut cb = Clipboard::new();
    cb.copy(strings(&["/one/f.txt", "/two/f.txt"]));
    let (items, err) = cb.paste("/dst", &Vec::new());
    assert!(err.is_none());
    assert_eq!(items.len(), 2);
    assert_eq!(items[0].dest, "/dst/f.txt");
    assert_eq!(items[1].dest, "/dst/f (1).txt");
}

#[test]
fn copy_paste_is_repeatable_but_cut_paste_empties_the_clipboard() {
    let mut cb = Clipboard::new();
    cb.copy(strings(&["/s/a"]));
    let _ = cb.paste("/d", &Vec::new());
    assert_eq!(cb.mode(), ClipboardMode::Copy);
    assert_eq!(cb.get_paths(), strings(&["/s/a"]));

    cb.cut(strings(&["/s/a"]));
    let (items, err) = cb.paste("/d", &Vec::new());
    assert!(err.is_none());
    assert_eq!(items.len(), 1);
    assert!(cb.is_empty());
    assert_eq!(cb.mode(), ClipboardMode::Empty);
}

#[test]
fn an_inactive_clipboard_pastes_nothing() {
    let mut cb = Clipboard::new();
    let (items, err) = cb.paste("/d", &Vec::new());
    assert!(items.is_empty());
    assert!(err.is_none());
}

#[test]
fn a_path_without_a_name_stops_the_plan() {
    let mut cb = Clipboard::new();
    cb.cut(strings(&["/s/ok.txt", "/", "/s/never.txt"]));
    let (items, err) = cb.paste("/d", &Vec::new());
    assert_eq!(items.len(), 1);
    assert_eq!(items[0].dest, "/d/ok.txt");
    assert_eq!(err, Some(PasteError::InvalidFileName));
    // the cut was not completed, so the clipboard stays
    assert_eq!(cb.mode(), ClipboardMode::Cut);
    assert_eq!(cb.get_paths().len(), 3);
}
