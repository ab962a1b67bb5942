//! Drive enumeration logic: which mounts of the mount table deserve a
//! sidebar row, what to call them, which icon they get, how their sizes
//! read, and the parsing of the mount table and of the disk-usage
//! report. Reading the table and running the usage query are
//! input/output done outside the library.
use vstd::prelude::*;

use crate::scanner::{size_tenths, tenths_rep, GB};
use vstd::multiset::Multiset;

use crate::text::{
    chars_eq_str, chars_to_string, contains_exec, contains_seq, dec_val, fields_exec, fields_of,
    lex_le, parse_u64, split_all, split_all_char, starts_with_exec, str_to_chars,
};

verus! {

/// One mounted filesystem shown as a drive.
pub struct DriveInfo {
    /// The display name.
    pub name: String,
    /// Where the filesystem is mounted.
    pub mount_point: String,
    /// The device, the mount table's first column.
    pub device: String,
    /// The filesystem type.
    pub fs_type: String,
    /// Total capacity in bytes; zero when unknown.
    pub total_size: u64,
    /// Free room in bytes.
    pub available_size: u64,
    /// The sidebar icon.
    pub icon_name: String,
}

/// The mathematical value of a [`DriveInfo`].
pub struct DriveInfoView {
    pub name: Seq<char>,
    pub mount_point: Seq<char>,
    pub device: Seq<char>,
    pub fs_type: Seq<char>,
    pub total_size: u64,
    pub available_size: u64,
    pub icon_name: Seq<char>,
}

impl View for DriveInfo {
    type V = DriveInfoView;

    open spec fn view(&self) -> DriveInfoView {
        DriveInfoView {
            name: self.name@,
            mount_point: self.mount_point@,
            device: self.device@,
            fs_type: self.fs_type@,
            total_size: self.total_size,
            available_size: self.available_size,
            icon_name: self.icon_name@,
        }
    }
}

/// What the size line shows: free and total gibibytes with one decimal
/// place, or nothing when the capacity is unknown.
pub open spec fn drive_size_display(total: u64, available: u64) -> Seq<char> {
    if total == 0 {
        Seq::empty()
    } else {
        tenths_rep(size_tenths(available as nat, GB as nat)) + seq![
            ' ',
            'G',
            'B',
            ' ',
            'f',
            'r',
            'e',
            'e',
            ' ',
            'o',
            'f',
            ' ',
        ] + tenths_rep(size_tenths(total as nat, GB as nat)) + seq![' ', 'G', 'B']
    }
}

impl DriveInfo {
    /// Renders the size line for this drive.
    pub fn size_display(&self) -> (r: String)
        ensures
            r@ == drive_size_display(self.total_size, self.available_size),
    {
        if self.total_size == 0 {
            return String::new();
        }
        let mut out: Vec<char> = Vec::new();
        crate::scanner::push_tenths(&mut out, crate::scanner::tenths_exec(
            self.available_size,
            GB,
        ));
        out.push(' ');
        out.push('G');
        out.push('B');
        out.push(' ');
        out.push('f');
        out.push('r');
        out.push('e');
        out.push('e');
        out.push(' ');
        out.push('o');
        out.push('f');
        out.push(' ');
        crate::scanner::push_tenths(&mut out, crate::scanner::tenths_exec(self.total_size, GB));
        out.push(' ');
        out.push('G');
        out.push('B');
        proof {
            assert(out@ =~= drive_size_display(self.total_size, self.available_size));
        }
        chars_to_string(&out)
    }
}

/// Whether a name is one of the virtual filesystem types that never show
/// as drives.
pub open spec fn is_virtual_fs(fs: Seq<char>) -> bool {
    ||| fs == "sysfs"@
    ||| fs == "proc"@
    ||| fs == "devtmpfs"@
    ||| fs == "devpts"@
    ||| fs == "tmpfs"@
    ||| fs == "securityfs"@
    ||| fs == "cgroup"@
    ||| fs == "cgroup2"@
    ||| fs == "pstore"@
    ||| fs == "bpf"@
    ||| fs == "debugfs"@
    ||| fs == "tracefs"@
    ||| fs == "configfs"@
    ||| fs == "fusectl"@
    ||| fs == "hugetlbfs"@
    ||| fs == "mqueue"@
    ||| fs == "ramfs"@
    ||| fs == "autofs"@
    ||| fs == "rpc_pipefs"@
    ||| fs == "nfsd"@
    ||| fs == "overlay"@
    ||| fs == "nsfs"@
    ||| fs == "fuse.portal"@
}

/// Whether the mount point falls under a system directory that never
/// shows.
pub open spec fn is_system_mount(mount: Seq<char>) -> bool {
    ||| "/sys"@.is_prefix_of(mount)
    ||| "/proc"@.is_prefix_of(mount)
    ||| "/dev"@.is_prefix_of(mount)
    ||| "/run"@.is_prefix_of(mount)
    ||| "/snap"@.is_prefix_of(mount)
    ||| "/boot/efi"@.is_prefix_of(mount)
    ||| "/var/lib"@.is_prefix_of(mount)
    ||| "/var/cache"@.is_prefix_of(mount)
}

/// Whether a mount shows as a drive: no virtual filesystem, no system
/// directory, and the mount is a real block device, a network share, a
/// removable medium or the root.
pub open spec fn should_show_mount_spec(device: Seq<char>, mount: Seq<char>, fs: Seq<char>) -> bool {
    &&& !is_virtual_fs(fs)
    &&& !is_system_mount(mount)
    &&& {
        ||| "/dev/"@.is_prefix_of(device)
        ||| contains_seq(device, ":/"@)
        ||| fs == "nfs"@
        ||| fs == "nfs4"@
        ||| fs == "cifs"@
        ||| fs == "smb"@
        ||| "/media/"@.is_prefix_of(mount)
        ||| "/mnt/"@.is_prefix_of(mount)
        ||| mount == "/"@
    }
}

/// Tests whether a literal prefix begins the characters.
fn starts_with_lit(s: &Vec<char>, prefix: &str) -> (r: bool)
    ensures
        r == prefix@.is_prefix_of(s@),
{
    let pv = str_to_chars(prefix);
    starts_with_exec(s, &pv)
}

/// The characters after the last `/`; all of them when there is none.
pub open spec fn last_segment(s: Seq<char>) -> Seq<char> {
    match crate::file_ops::last_slash(s) {
        Option::None => s,
        Option::Some(k) => s.skip(k + 1),
    }
}

/// The display name of a drive: the root is `System`, the home mount is
/// `Home`, any other mount shows its own directory name, and a mount
/// whose name is empty falls back to the device's last path segment.
pub open spec fn drive_name_spec(device: Seq<char>, mount: Seq<char>) -> Seq<char> {
    if mount == "/"@ {
        "System"@
    } else if mount == "/home"@ {
        "Home"@
    } else if last_segment(mount).len() > 0 {
        last_segment(mount)
    } else {
        last_segment(device)
    }
}

/// Extracts the characters after the last `/`.
fn last_segment_exec(s: &str) -> (r: Vec<char>)
    ensures
        r@ == last_segment(s@),
{
    let sv = str_to_chars(s);
    let ln = sv.len();
    let mut k: usize = ln;
    while k > 0 && sv[k - 1] != '/'
        invariant
            k <= ln,
            ln == sv@.len(),
            forall|j: int| k <= j < ln ==> sv@[j] != '/',
        decreases k,
    {
        k -= 1;
    }
    if k == 0 {
        proof {
            crate::file_ops::lemma_last_slash_none(s@);
        }
        let mut out: Vec<char> = Vec::new();
        crate::file_ops::append_chars(&mut out, &sv);
        proof {
            assert(out@ =~= s@);
        }
        return out;
    }
    proof {
        assert(sv@[k - 1] == '/');
        crate::file_ops::lemma_last_slash_at(s@, k - 1);
    }
    let mut out: Vec<char> = Vec::new();
    let mut j: usize = k;
    while j < ln
        invariant
            k <= j <= ln,
            ln == sv@.len(),
            out@ == sv@.subrange(k as int, j as int),
        decreases ln - j,
    {
        out.push(sv[j]);
        j += 1;
        proof {
            assert(out@ =~= sv@.subrange(k as int, j as int));
        }
    }
    proof {
        assert(out@ =~= s@.skip(k as int));
    }
    out
}

/// The icon of a drive: network shares, removable media, flash cards,
/// solid-state devices and the system disk each get their own.
pub open spec fn drive_icon_spec(device: Seq<char>, fs: Seq<char>, mount: Seq<char>) -> Seq<char> {
    if contains_seq(device, ":/"@) || fs == "nfs"@ || fs == "cifs"@ || fs == "smb"@ {
        "folder-remote"@
    } else if contains_seq(mount, "/media/"@) || contains_seq(mount, "/run/media/"@) {
        "drive-removable-media"@
    } else if contains_seq(device, "mmcblk"@) {
        "media-flash-sd-mmc"@
    } else if contains_seq(device, "nvme"@) {
        "drive-harddisk-solidstate"@
    } else if mount == "/"@ {
        "drive-harddisk-system"@
    } else {
        "drive-harddisk"@
    }
}

/// The order of the drive list: lexicographic by mount point.
pub open spec fn drive_le(a: DriveInfoView, b: DriveInfoView) -> bool {
    lex_le(a.mount_point, b.mount_point)
}

/// The views of a sequence of drives.
pub open spec fn drive_views(s: Seq<DriveInfo>) -> Seq<DriveInfoView> {
    s.map_values(|d: DriveInfo| d@)
}

/// A drive list is sorted when every earlier drive relates to every
/// later one under `drive_le`.
pub open spec fn drives_sorted(s: Seq<DriveInfoView>) -> bool {
    forall|i: int, j: int| 0 <= i < j < s.len() ==> drive_le(s[i], s[j])
}

/// Compares two drives by mount point.
fn mount_le(a: &DriveInfo, b: &DriveInfo) -> (r: bool)
    ensures
        r == drive_le(a@, b@),
{
    let av = crate::text::str_to_chars(a.mount_point.as_str());
    let bv = crate::text::str_to_chars(b.mount_point.as_str());
    crate::text::lex_le_exec(&av, &bv)
}

/// Inserts a drive into a sorted list, keeping it sorted.
fn insert_drive_sorted(out: &mut Vec<DriveInfo>, x: DriveInfo)
    requires
        drives_sorted(drive_views(old(out)@)),
    ensures
        drives_sorted(drive_views(final(out)@)),
        drive_views(final(out)@).to_multiset() == drive_views(old(out)@).to_multiset().insert(x@),
{
    let ghost xv = x@;
    let mut j: usize = 0;
    while j < out.len() && mount_le(&out[j], &x)
        invariant
            j <= out@.len(),
            forall|k: int| 0 <= k < j ==> drive_le(#[trigger] drive_views(out@)[k], xv),
            xv == x@,
        decreases out@.len() - j,
    {
        j += 1;
    }
    proof {
        if j < out@.len() {
            crate::text::lemma_lex_le_total(drive_views(out@)[j as int].mount_point, xv.mount_point);
        }
    }
    let ghost before = out@;
    out.insert(j, x);
    proof {
        broadcast use vstd::seq_lib::to_multiset_insert;

        assert(out@ == before.insert(j as int, x));
        assert(drive_views(out@) =~= drive_views(before).insert(j as int, xv));
        let s = drive_views(out@);
        let old_s = drive_views(before);
        assert forall|p: int, q: int| 0 <= p < q < s.len() implies drive_le(s[p], s[q]) by {
            if q < j {
                assert(drive_le(old_s[p], old_s[q]));
            } else if p > j {
                assert(drive_le(old_s[p - 1], old_s[q - 1]));
            } else if p == j && q > j {
                if q - 1 > j {
                    assert(drive_le(old_s[j as int], old_s[q - 1]));
                    crate::text::lemma_lex_le_transitive(
                        xv.mount_point,
                        old_s[j as int].mount_point,
                        old_s[q - 1].mount_point,
                    );
                }
            } else if q == j {
                assert(drive_le(old_s[p], xv));
            } else {
                assert(drive_le(old_s[p], xv));
                if q - 1 == j {
                    crate::text::lemma_lex_le_transitive(
                        old_s[p].mount_point,
                        xv.mount_point,
                        old_s[j as int].mount_point,
                    );
                } else {
                    crate::text::lemma_lex_le_transitive(
                        old_s[p].mount_point,
                        xv.mount_point,
                        old_s[j as int].mount_point,
                    );
                    assert(drive_le(old_s[j as int], old_s[q - 1]));
                    crate::text::lemma_lex_le_transitive(
                        old_s[p].mount_point,
                        old_s[j as int].mount_point,
                        old_s[q - 1].mount_point,
                    );
                }
            }
        }
    }
}

/// The drive scanner: the pure decisions of drive enumeration.
pub struct DriveScanner;

impl DriveScanner {
    /// Decides whether one mount-table row shows as a drive.
    pub fn should_show_mount(device: &str, mount_point: &str, fs_type: &str) -> (r: bool)
        ensures
            r == should_show_mount_spec(device@, mount_point@, fs_type@),
    {
        let fs = str_to_chars(fs_type);
        let virtual_fs = chars_eq_str(&fs, "sysfs") || chars_eq_str(&fs, "proc") || chars_eq_str(
            &fs,
            "devtmpfs",
        ) || chars_eq_str(&fs, "devpts") || chars_eq_str(&fs, "tmpfs") || chars_eq_str(
            &fs,
            "securityfs",
        ) || chars_eq_str(&fs, "cgroup") || chars_eq_str(&fs, "cgroup2") || chars_eq_str(&fs, "pstore")
            || chars_eq_str(&fs, "bpf") || chars_eq_str(&fs, "debugfs") || chars_eq_str(&fs, "tracefs")
            || chars_eq_str(&fs, "configfs") || chars_eq_str(&fs, "fusectl") || chars_eq_str(
            &fs,
            "hugetlbfs",
        ) || chars_eq_str(&fs, "mqueue") || chars_eq_str(&fs, "ramfs") || chars_eq_str(&fs, "autofs")
            || chars_eq_str(&fs, "rpc_pipefs") || chars_eq_str(&fs, "nfsd") || chars_eq_str(
            &fs,
            "overlay",
        ) || chars_eq_str(&fs, "nsfs") || chars_eq_str(&fs, "fuse.portal");
        if virtual_fs {
            return false;
        }
        let mv = str_to_chars(mount_point);
        if starts_with_lit(&mv, "/sys") || starts_with_lit(&mv, "/proc") || starts_with_lit(
            &mv,
            "/dev",
        ) || starts_with_lit(&mv, "/run") || starts_with_lit(&mv, "/snap") || starts_with_lit(
            &mv,
            "/boot/efi",
        ) || starts_with_lit(&mv, "/var/lib") || starts_with_lit(&mv, "/var/cache") {
            return false;
        }
        let dv = str_to_chars(device);
        let colon = str_to_chars(":/");
        starts_with_lit(&dv, "/dev/") || contains_exec(&dv, &colon) || chars_eq_str(&fs, "nfs")
            || chars_eq_str(&fs, "nfs4") || chars_eq_str(&fs, "cifs") || chars_eq_str(&fs, "smb")
            || starts_with_lit(&mv, "/media/") || starts_with_lit(&mv, "/mnt/") || chars_eq_str(
            &mv,
            "/",
        )
    }

    /// Names one drive.
    pub fn get_drive_name(device: &str, mount_point: &str) -> (r: String)
        ensures
            r@ == drive_name_spec(device@, mount_point@),
    {
        let mv = str_to_chars(mount_point);
        if chars_eq_str(&mv, "/") {
            return String::from_str("System");
        }
        if chars_eq_str(&mv, "/home") {
            return String::from_str("Home");
        }
        let seg = last_segment_exec(mount_point);
        if seg.len() > 0 {
            return chars_to_string(&seg);
        }
        let dseg = last_segment_exec(device);
        chars_to_string(&dseg)
    }

    /// Chooses one drive's icon.
    pub fn get_drive_icon(device: &str, fs_type: &str, mount_point: &str) -> (r: String)
        ensures
            r@ == drive_icon_spec(device@, fs_type@, mount_point@),
    {
        let dv = str_to_chars(device);
        let fs = str_to_chars(fs_type);
        let mv = str_to_chars(mount_point);
        let colon = str_to_chars(":/");
        let s: &str = if contains_exec(&dv, &colon) || chars_eq_str(&fs, "nfs") || chars_eq_str(
            &fs,
            "cifs",
        ) || chars_eq_str(&fs, "smb") {
            "folder-remote"
        } else {
            let media = str_to_chars("/media/");
            let run_media = str_to_chars("/run/media/");
            let mmc = str_to_chars("mmcblk");
            let nvme = str_to_chars("nvme");
            if contains_exec(&mv, &media) || contains_exec(&mv, &run_media) {
                "drive-removable-media"
            } else if contains_exec(&dv, &mmc) {
                "media-flash-sd-mmc"
            } else if contains_exec(&dv, &nvme) {
                "drive-harddisk-solidstate"
            } else if chars_eq_str(&mv, "/") {
                "drive-harddisk-system"
            } else {
                "drive-harddisk"
            }
        };
        String::from_str(s)
    }

    /// Reads one mount-table row: its first three fields, when the row
    /// has the four a well-formed table carries.
    pub fn parse_mount_line(line: &str) -> (r: Option<(String, String, String)>)
        ensures
            match r {
                Some(t) => fields_of(line@).len() >= 4 && t.0@ == fields_of(line@)[0] && t.1@
                    == fields_of(line@)[1] && t.2@ == fields_of(line@)[2],
                None => fields_of(line@).len() < 4,
            },
    {
        let lv = str_to_chars(line);
        let fields = fields_exec(&lv);
        if fields.len() < 4 {
            return None;
        }
        proof {
            assert(fields.deep_view()[0] == fields_of(line@)[0]);
            assert(fields.deep_view()[1] == fields_of(line@)[1]);
            assert(fields.deep_view()[2] == fields_of(line@)[2]);
        }
        Some(
            (
                chars_to_string(&fields[0]),
                chars_to_string(&fields[1]),
                chars_to_string(&fields[2]),
            ),
        )
    }

    /// Sorts a drive list by mount point. The result holds exactly the
    /// given drives.
    pub fn sort_drives(drives: Vec<DriveInfo>) -> (r: Vec<DriveInfo>)
        ensures
            drives_sorted(drive_views(r@)),
            drive_views(r@).to_multiset() == drive_views(drives@).to_multiset(),
    {
        let mut out: Vec<DriveInfo> = Vec::new();
        let mut rest = drives;
        proof {
            assert(drive_views(out@) =~= Seq::<DriveInfoView>::empty());
            vstd::seq_lib::lemma_multiset_commutative(
                Seq::<DriveInfoView>::empty(),
                drive_views(rest@),
            );
            assert(drive_views(out@).to_multiset().add(drive_views(rest@).to_multiset())
                =~= drive_views(rest@).to_multiset());
        }
        while rest.len() > 0
            invariant
                drives_sorted(drive_views(out@)),
                drive_views(out@).to_multiset().add(drive_views(rest@).to_multiset())
                    == drive_views(drives@).to_multiset(),
            decreases rest@.len(),
        {
            let ghost rest_before = rest@;
            let x = rest.remove(0);
            proof {
                broadcast use vstd::seq_lib::to_multiset_remove;

                assert(rest@ == rest_before.remove(0));
                assert(drive_views(rest@) =~= drive_views(rest_before).remove(0));
                assert(drive_views(rest_before)[0] == x@);
                broadcast use vstd::seq_lib::group_to_multiset_ensures;

                assert(drive_views(rest_before).contains(x@));
                assert(drive_views(rest_before).to_multiset().count(x@) > 0);
            }
            insert_drive_sorted(&mut out, x);
            proof {
                broadcast use vstd::multiset::group_multiset_axioms;

                assert(drive_views(out@).to_multiset().add(drive_views(rest@).to_multiset())
                    =~= drive_views(drives@).to_multiset());
            }
        }
        proof {
            broadcast use vstd::seq_lib::group_to_multiset_ensures;
            broadcast use vstd::multiset::group_multiset_axioms;
            broadcast use vstd::multiset::lemma_multiset_empty_len;

            assert(drive_views(rest@) =~= Seq::<DriveInfoView>::empty());
            assert(drive_views(rest@).to_multiset().len() == 0);
            assert(drive_views(rest@).to_multiset() =~= Multiset::<DriveInfoView>::empty());
            assert(drive_views(out@).to_multiset() =~= drive_views(drives@).to_multiset());
        }
        out
    }

    /// Reads a disk-usage report: total and available bytes stand in the
    /// second and fourth fields of the report's second line; anything
    /// malformed or out of range counts as zero.
    pub fn parse_disk_usage(output: &str) -> (r: (u64, u64))
        ensures
            ({
                let lines = split_all(output@, '\n');
                if lines.len() >= 2 && fields_of(lines[1]).len() >= 4 {
                    let fs = fields_of(lines[1]);
                    &&& r.0 == (if fs[1].len() > 0 && crate::text::all_digits(fs[1]) && dec_val(
                        fs[1],
                    ) <= u64::MAX {
                        dec_val(fs[1])
                    } else {
                        0
                    })
                    &&& r.1 == (if fs[3].len() > 0 && crate::text::all_digits(fs[3]) && dec_val(
                        fs[3],
                    ) <= u64::MAX {
                        dec_val(fs[3])
                    } else {
                        0
                    })
                } else {
                    r == (0u64, 0u64)
                }
            }),
    {
        let ov = str_to_chars(output);
        let lines = split_all_char(&ov, '\n');
        proof {
            assert(lines.deep_view().len() == lines@.len());
        }
        if lines.len() < 2 {
            return (0, 0);
        }
        let fields = fields_exec(&lines[1]);
        proof {
            assert(lines.deep_view()[1] == lines@[1]@);
            assert(lines@[1]@ == split_all(output@, '\n')[1]);
            assert(fields.deep_view().len() == fields@.len());
        }
        if fields.len() < 4 {
            return (0, 0);
        }
        proof {
            assert(fields.deep_view()[1] == fields@[1]@);
            assert(fields.deep_view()[3] == fields@[3]@);
            assert(fields@[1]@ == fields_of(split_all(output@, '\n')[1])[1]);
            assert(fields@[3]@ == fields_of(split_all(output@, '\n')[1])[3]);
        }
        let total = match parse_u64(&fields[1]) {
            Some(v) => v,
            None => 0,
        };
        let available = match parse_u64(&fields[3]) {
            Some(v) => v,
            None => 0,
        };
        (total, available)
    }
}

} // verus!
