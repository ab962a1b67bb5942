use blink_core::scanner::{FileEntry, RawEntry, Scanner};

fn raw(name: &str, is_directory: bool, size: u64) -> RawEntry {
    RawEntry {
        name: name.to_string(),
        is_directory,
        size,
        modified: "2024-01-01 00:00".to_string(),
    }
}

fn names(entries: &[FileEntry]) -> Vec<String> {
    entries.iter().map(|e| e.name.clone()).collect()
}

#[test]
fn sort_puts_directories_first_then_case_insensitive_names() {
    let listing = vec![
        raw("b.txt", false, 10),
        raw("A", true, 0),
        raw("a.txt", false, 10),
        raw("B", true, 0),
    ];
    let out = Scanner::scan_with_hidden("/d", listing, false);
    assert_eq!(names(&out), vec!["A", "B", "a.txt", "b.txt"]);
}

#[test]
fn sort_is_case_insensitive_within_groups() {
    let listing = vec![
        raw("zeta", false, 1),
        raw("Alpha", false, 1),
        raw("beta", false, 1),
    ];
    let out = Scanner::scan_with_hidden("/d", listing, false);
    assert_eq!(names(&out), vec!["Alpha", "beta", "zeta"]);
}

#[test]
fn hidden_names_are_filtered_unless_asked_for() {
    let listing = vec![raw(".hidden", false, 1), raw("shown", false, 1)];
    let out = Scanner::scan_with_hidden("/d", listing, false);
    assert_eq!(names(&out), vec!["shown"]);

    let listing = vec![raw(".hidden", false, 1), raw("shown", false, 1)];
    let out = Scanner::scan_with_hidden("/d", listing, true);
    assert_eq!(names(&out), vec![".hidden", "shown"]);
}

#[test]
fn scan_defaults_to_hiding_dot_names() {
    let listing = vec![raw(".config", true, 0), raw("file", false, 1)];
    let out = Scanner::scan("/home/u", listing);
    assert_eq!(names(&out), vec!["file"]);
}

#[test]
fn scan_joins_paths_and_zeroes_directory_sizes() {
    let listing = vec![raw("sub", true, 777), raw("f.txt", false, 5)];
    let out = Scanner::scan_with_hidden("/home/u", listing, false);
    assert_eq!(out[0].path, "/home/u/sub");
    assert_eq!(out[0].size, 0);
    assert!(out[0].is_directory);
    assert_eq!(out[1].path, "/home/u/f.txt");
    assert_eq!(out[1].size, 5);

    let listing = vec![raw("f.txt", false, 5)];
    let out = Scanner::scan_with_hidden("/", listing, false);
    assert_eq!(out[0].path, "/f.txt");
}

#[test]
fn size_display_uses_the_largest_reached_unit() {
    let mk = |size, is_directory| FileEntry {
        name: "x".to_string(),
        path: "/x".to_string(),
        is_directory,
        size,
        modified: String::new(),
        icon_name: String::new(),
    };
    assert_eq!(mk(0, false).size_display(), "0 B");
    assert_eq!(mk(1023, false).size_display(), "1023 B");
    assert_eq!(mk(1024, false).size_display(), "1.0 KB");
    assert_eq!(mk(1536, false).size_display(), "1.5 KB");
    assert_eq!(mk(1024 * 1024, false).size_display(), "1.0 MB");
    assert_eq!(mk(3 * 1024 * 1024 * 1024 / 2, false).size_display(), "1.5 GB");
    assert_eq!(mk(123456, false).size_display(), "120.6 KB");
    assert_eq!(mk(10, true).size_display(), "--");
}

#[test]
fn an_empty_listing_scans_to_nothing() {
    let out = Scanner::scan_with_hidden("/empty", Vec::new(), false);
    assert!(out.is_empty());
}

#[test]
fn names_equal_up_to_case_both_survive_the_sort() {
    let listing = vec![raw("Readme", false, 1), raw("README", false, 1)];
    let out = Scanner::scan_with_hidden("/d", listing, false);
    let mut got = names(&out);
    got.sort();
    assert_eq!(got, vec!["README", "Readme"]);
}

#[test]
fn the_largest_size_still_renders() {
    let e = FileEntry {
        name: "x".to_string(),
        path: "/x".to_string(),
        is_directory: false,
        size: u64::MAX,
        modified: String::new(),
        icon_name: String::new(),
    };
    assert_eq!(e.size_display(), "17179869184.0 GB");
}

#[test]
fn icons_follow_the_lowercased_extension() {
    assert_eq!(Scanner::get_icon_name("report.PDF", false), "application-pdf");
    assert_eq!(Scanner::get_icon_name("archive.tar.gz", false), "package-x-generic");
    assert_eq!(Scanner::get_icon_name("noext", false), "text-x-generic");
    assert_eq!(Scanner::get_icon_name("song.mp3", false), "audio-x-generic");
    assert_eq!(Scanner::get_icon_name("main.rs", false), "text-x-script");
    assert_eq!(Scanner::get_icon_name("anything", true), "folder");
    assert_eq!(Scanner::get_icon_name(".bashrc", false), "text-x-generic");
    assert_eq!(Scanner::get_icon_name("setup.sh", false), "application-x-executable");
}

#[test]
fn unreadable_modified_time_shows_unknown() {
    assert_eq!(Scanner::format_modified(None), "Unknown");
    // chrono rejects this instant as out of range
    assert_eq!(Scanner::format_modified(Some(i64::MAX)), "Unknown");
}

#[test]
fn representable_modified_time_renders_sixteen_characters() {
    let s = Scanner::format_modified(Some(0));
    assert_eq!(s.len(), 16);
    assert_eq!(&s[4..5], "-");
    assert_eq!(&s[7..8], "-");
}
