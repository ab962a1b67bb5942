use blink_core::file_ops::{FileOperations, ProgressInfo};

fn strings(v: &[&str]) -> Vec<String> {
    v.iter().map(|s| s.to_string()).collect()
}

#[test]
fn paste_into_taken_names_counts_up_from_the_first_free_suffix() {
    let existing = strings(&["photo.jpg", "photo (1).jpg"]);
    let picked = FileOperations::next_free_name("photo.jpg", &existing);
    assert_eq!(picked, "photo (2).jpg");
}

#[test]
fn a_free_name_is_kept_unchanged() {
    let existing = strings(&["other.txt"]);
    assert_eq!(FileOperations::next_free_name("photo.jpg", &existing), "photo.jpg");
    assert_eq!(FileOperations::next_free_name("x", &Vec::new()), "x");
}

#[test]
fn suffix_goes_before_the_last_dot_extension() {
    let existing = strings(&["archive.tar.gz"]);
    assert_eq!(
        FileOperations::next_free_name("archive.tar.gz", &existing),
        "archive.tar (1).gz"
    );
    let existing = strings(&[".bashrc"]);
    assert_eq!(FileOperations::next_free_name(".bashrc", &existing), ".bashrc (1)");
    let existing = strings(&["noext"]);
    assert_eq!(FileOperations::next_free_name("noext", &existing), "noext (1)");
}

#[test]
fn gaps_in_the_numbering_are_taken_first() {
    let existing = strings(&["f.txt", "f (2).txt"]);
    assert_eq!(FileOperations::next_free_name("f.txt", &existing), "f (1).txt");
}

#[test]
fn total_size_sums_bytes_and_counts_files() {
    assert_eq!(FileOperations::calculate_total_size(&vec![1, 2, 3]), (6, 3));
    assert_eq!(FileOperations::calculate_total_size(&Vec::new()), (0, 0));
    assert_eq!(
        FileOperations::calculate_total_size(&vec![u64::MAX, 1]),
        (u64::MAX, 2)
    );
}

#[test]
fn rename_stays_in_the_parent_directory() {
    assert_eq!(
        FileOperations::rename_destination("/a/b.txt", "c.txt"),
        Some("/a/c.txt".to_string())
    );
    assert_eq!(FileOperations::rename_destination("/a", "x"), Some("/x".to_string()));
    assert_eq!(FileOperations::rename_destination("plain", "x"), Some("x".to_string()));
    assert_eq!(FileOperations::rename_destination("/", "x"), None);
    assert_eq!(FileOperations::rename_destination("", "x"), None);
}

#[test]
fn progress_counters_only_grow() {
    let mut p = ProgressInfo::new(100, 2);
    assert_eq!(p.bytes_copied, 0);
    assert_eq!(p.files_copied, 0);
    let mut last_bytes = 0;
    let mut last_files = 0;
    p.add_bytes(10);
    assert!(p.bytes_copied >= last_bytes);
    last_bytes = p.bytes_copied;
    p.set_current_file_if_empty("a.txt");
    assert_eq!(p.current_file, "a.txt");
    p.set_current_file_if_empty("b.txt");
    assert_eq!(p.current_file, "a.txt");
    p.add_bytes(40);
    assert!(p.bytes_copied >= last_bytes);
    assert_eq!(p.bytes_copied, 50);
    if p.files_copied < p.total_files {
        p.file_done();
    }
    assert!(p.files_copied >= last_files);
    last_files = p.files_copied;
    assert!(p.files_copied <= p.total_files);
    assert!(!p.is_complete());
    p.add_bytes(50);
    if p.files_copied < p.total_files {
        p.file_done();
    }
    assert!(p.files_copied >= last_files);
    assert!(p.files_copied <= p.total_files);
    assert!(p.is_complete());
    assert_eq!(p.bytes_copied, 100);
}

#[test]
fn byte_accounting_saturates_instead_of_wrapping() {
    let mut p = ProgressInfo::new(u64::MAX, 1);
    p.add_bytes(u64::MAX - 5);
    p.add_bytes(100);
    assert_eq!(p.bytes_copied, u64::MAX);
}

#[test]
fn renaming_the_current_file_label() {
    let mut p = ProgressInfo::new(10, 1);
    p.set_current_file("one");
    assert_eq!(p.current_file, "one");
    p.set_current_file("two");
    assert_eq!(p.current_file, "two");
}
