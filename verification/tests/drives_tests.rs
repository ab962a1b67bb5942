use blink_core::drives::{DriveInfo, DriveScanner};

#[test]
fn real_devices_show_and_virtual_filesystems_do_not() {
    assert!(DriveScanner::should_show_mount("/dev/sda1", "/", "ext4"));
    assert!(DriveScanner::should_show_mount("/dev/sdb1", "/media/usb", "vfat"));
    assert!(DriveScanner::should_show_mount("server:/share", "/mnt/nfs", "nfs4"));
    assert!(!DriveScanner::should_show_mount("proc", "/proc", "proc"));
    assert!(!DriveScanner::should_show_mount("tmpfs", "/tmp", "tmpfs"));
    assert!(!DriveScanner::should_show_mount("/dev/sda2", "/boot/efi", "vfat"));
    assert!(!DriveScanner::should_show_mount("/dev/loop0", "/snap/core", "squashfs"));
    assert!(!DriveScanner::should_show_mount("overlay", "/mnt/overlay", "overlay"));
}

#[test]
fn drive_names_follow_the_mount_point() {
    assert_eq!(DriveScanner::get_drive_name("/dev/sda1", "/"), "System");
    assert_eq!(DriveScanner::get_drive_name("/dev/sda2", "/home"), "Home");
    assert_eq!(DriveScanner::get_drive_name("/dev/sdb1", "/mnt/data"), "data");
    // a mount point whose last segment is empty falls back to the device
    assert_eq!(DriveScanner::get_drive_name("/dev/sdb1", "/media/"), "sdb1");
}

#[test]
fn drive_icons_follow_device_and_mount() {
    assert_eq!(DriveScanner::get_drive_icon("host:/srv", "nfs", "/mnt/n"), "folder-remote");
    assert_eq!(
        DriveScanner::get_drive_icon("/dev/sdc1", "vfat", "/media/usb"),
        "drive-removable-media"
    );
    assert_eq!(
        DriveScanner::get_drive_icon("/dev/mmcblk0p1", "vfat", "/mnt/sd"),
        "media-flash-sd-mmc"
    );
    assert_eq!(
        DriveScanner::get_drive_icon("/dev/nvme0n1p2", "ext4", "/data"),
        "drive-harddisk-solidstate"
    );
    assert_eq!(
        DriveScanner::get_drive_icon("/dev/sda1", "ext4", "/"),
        "drive-harddisk-system"
    );
    assert_eq!(
        DriveScanner::get_drive_icon("/dev/sda3", "ext4", "/data"),
        "drive-harddisk"
    );
}

#[test]
fn mount_table_rows_need_four_fields() {
    let row = DriveScanner::parse_mount_line("/dev/sda1 / ext4 rw,relatime 0 0").unwrap();
    assert_eq!(row.0, "/dev/sda1");
    assert_eq!(row.1, "/");
    assert_eq!(row.2, "ext4");
    assert!(DriveScanner::parse_mount_line("too few fields").is_none());
    assert!(DriveScanner::parse_mount_line("").is_none());
}

#[test]
fn disk_usage_reads_the_reports_second_line() {
    let report = "Filesystem 1B-blocks Used Available Use% Mounted on\n/dev/sda1 1000 500 400 56% /\n";
    assert_eq!(DriveScanner::parse_disk_usage(report), (1000, 400));
    // malformed numbers count as zero
    let report = "Filesystem 1B-blocks Used Available\n/dev/sda1 many 500 some\n";
    assert_eq!(DriveScanner::parse_disk_usage(report), (0, 0));
    assert_eq!(DriveScanner::parse_disk_usage("only one line"), (0, 0));
    assert_eq!(DriveScanner::parse_disk_usage(""), (0, 0));
}

#[test]
fn the_size_line_shows_free_of_total_in_gibibytes() {
    let gib: u64 = 1024 * 1024 * 1024;
    let mk = |total, available| DriveInfo {
        name: "d".to_string(),
        mount_point: "/".to_string(),
        device: "/dev/sda1".to_string(),
        fs_type: "ext4".to_string(),
        total_size: total,
        available_size: available,
        icon_name: String::new(),
    };
    assert_eq!(mk(2 * gib, gib).size_display(), "1.0 GB free of 2.0 GB");
    assert_eq!(mk(3 * gib / 2, gib / 2).size_display(), "0.5 GB free of 1.5 GB");
    assert_eq!(mk(0, 0).size_display(), "");
}

#[test]
fn drives_sort_by_mount_point() {
    let mk = |mount: &str| DriveInfo {
        name: "d".to_string(),
        mount_point: mount.to_string(),
        device: "/dev/x".to_string(),
        fs_type: "ext4".to_string(),
        total_size: 0,
        available_size: 0,
        icon_name: String::new(),
    };
    let sorted = DriveScanner::sort_drives(vec![mk("/mnt/b"), mk("/"), mk("/mnt/a")]);
    let mounts: Vec<String> = sorted.iter().map(|d| d.mount_point.clone()).collect();
    assert_eq!(mounts, vec!["/", "/mnt/a", "/mnt/b"]);
}
