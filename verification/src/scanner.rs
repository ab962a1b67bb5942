//! Directory scanner: turns the raw listing of one directory into the
//! rows the view shows, filtered for hidden names and sorted with
//! directories first and case-insensitive names within each group.
//! Reading the directory itself is input handled outside the library;
//! the scanner receives each child as a [`RawEntry`] of plain values.
use vstd::multiset::Multiset;
use vstd::prelude::*;

use crate::text::{
    chars_eq_str, chars_to_string, dec_rep, digit_char, digit_char_exec, ext_of, ext_of_exec,
    lex_le, lower, lower_chars, lemma_lex_le_total, lemma_lex_le_transitive, str_to_chars,
    u64_to_chars,
};

verus! {

/// One row of a directory listing.
pub struct FileEntry {
    /// The file's own name, the last path component.
    pub name: String,
    /// The absolute path: the scanned directory joined with `name`.
    pub path: String,
    /// Whether the entry is a directory.
    pub is_directory: bool,
    /// Size in bytes; zero for directories.
    pub size: u64,
    /// The modification instant, already rendered for display.
    pub modified: String,
    /// The icon chosen from the name and kind.
    pub icon_name: String,
}

/// The mathematical value of a [`FileEntry`].
pub struct FileEntryView {
    pub name: Seq<char>,
    pub path: Seq<char>,
    pub is_directory: bool,
    pub size: u64,
    pub modified: Seq<char>,
    pub icon_name: Seq<char>,
}

impl View for FileEntry {
    type V = FileEntryView;

    open spec fn view(&self) -> FileEntryView {
        FileEntryView {
            name: self.name@,
            path: self.path@,
            is_directory: self.is_directory,
            size: self.size,
            modified: self.modified@,
            icon_name: self.icon_name@,
        }
    }
}

impl Clone for FileEntry {
    /// Clones every field unchanged.
    fn clone(&self) -> (r: Self)
        ensures
            r@ == self@,
    {
        FileEntry {
            name: self.name.clone(),
            path: self.path.clone(),
            is_directory: self.is_directory,
            size: self.size,
            modified: self.modified.clone(),
            icon_name: self.icon_name.clone(),
        }
    }
}

/// One child of a directory as the filesystem reports it, before the
/// scanner shapes it: the bare name, the kind, the byte size, and the
/// modification instant already rendered (`Unknown` when unreadable).
pub struct RawEntry {
    pub name: String,
    pub is_directory: bool,
    pub size: u64,
    pub modified: String,
}

/// The mathematical value of a [`RawEntry`].
pub struct RawEntryView {
    pub name: Seq<char>,
    pub is_directory: bool,
    pub size: u64,
    pub modified: Seq<char>,
}

impl View for RawEntry {
    type V = RawEntryView;

    open spec fn view(&self) -> RawEntryView {
        RawEntryView {
            name: self.name@,
            is_directory: self.is_directory,
            size: self.size,
            modified: self.modified@,
        }
    }
}

/// A name is hidden when it starts with a dot.
pub open spec fn is_hidden_name(name: Seq<char>) -> bool {
    name.len() > 0 && name[0] == '.'
}

/// Whether a scan keeps an entry: hidden names are kept only when the
/// caller asks for hidden files.
pub open spec fn scan_keeps(e: RawEntryView, show_hidden: bool) -> bool {
    show_hidden || !is_hidden_name(e.name)
}

/// Tests whether a name is hidden.
pub fn is_hidden_name_exec(name: &str) -> (r: bool)
    ensures
        r == is_hidden_name(name@),
{
    let n = name.unicode_len();
    n > 0 && name.get_char(0) == '.'
}

/// The icon the scanner assigns: `folder` for directories, otherwise a
/// theme name chosen by the lower-cased extension.
pub open spec fn scanner_icon(name: Seq<char>, is_directory: bool) -> Seq<char> {
    if is_directory {
        "folder"@
    } else {
        let ext = lower(ext_of(name));
        if ext == "pdf"@ {
            "application-pdf"@
        } else if ext == "doc"@ || ext == "docx"@ || ext == "odt"@ {
            "x-office-document"@
        } else if ext == "xls"@ || ext == "xlsx"@ || ext == "ods"@ {
            "x-office-spreadsheet"@
        } else if ext == "ppt"@ || ext == "pptx"@ || ext == "odp"@ {
            "x-office-presentation"@
        } else if ext == "txt"@ || ext == "md"@ || ext == "rst"@ {
            "text-x-generic"@
        } else if ext == "png"@ || ext == "jpg"@ || ext == "jpeg"@ || ext == "gif"@ || ext
            == "bmp"@ || ext == "svg"@ || ext == "webp"@ {
            "image-x-generic"@
        } else if ext == "mp3"@ || ext == "wav"@ || ext == "flac"@ || ext == "ogg"@ || ext
            == "m4a"@ {
            "audio-x-generic"@
        } else if ext == "mp4"@ || ext == "mkv"@ || ext == "avi"@ || ext == "mov"@ || ext
            == "webm"@ {
            "video-x-generic"@
        } else if ext == "zip"@ || ext == "tar"@ || ext == "gz"@ || ext == "bz2"@ || ext == "xz"@
            || ext == "rar"@ || ext == "7z"@ {
            "package-x-generic"@
        } else if ext == "rs"@ || ext == "py"@ || ext == "js"@ || ext == "ts"@ || ext == "c"@
            || ext == "cpp"@ || ext == "h"@ || ext == "java"@ || ext == "go"@ || ext == "rb"@ {
            "text-x-script"@
        } else if ext == "html"@ || ext == "css"@ || ext == "xml"@ || ext == "json"@ || ext
            == "yaml"@ || ext == "yml"@ || ext == "toml"@ {
            "text-x-script"@
        } else if ext == "sh"@ || ext == "bash"@ {
            "application-x-executable"@
        } else if ext == "exe"@ || ext == "msi"@ {
            "application-x-executable"@
        } else if ext == "deb"@ || ext == "rpm"@ || ext == "AppImage"@ {
            "application-x-executable"@
        } else {
            "text-x-generic"@
        }
    }
}

/// The scanner's well-formedness of an entry given the directory it was
/// read from: path joined, directory sizes zeroed, icon assigned.
pub open spec fn entry_of(dir: Seq<char>, e: RawEntryView) -> FileEntryView {
    FileEntryView {
        name: e.name,
        path: join_path(dir, e.name),
        is_directory: e.is_directory,
        size: if e.is_directory {
            0
        } else {
            e.size
        },
        modified: e.modified,
        icon_name: scanner_icon(e.name, e.is_directory),
    }
}

/// Joins a directory path and a child name with a `/` separator, not
/// doubling one the directory already ends in.
pub open spec fn join_path(dir: Seq<char>, name: Seq<char>) -> Seq<char> {
    if dir.len() > 0 && dir.last() == '/' {
        dir + name
    } else {
        dir + seq!['/'] + name
    }
}

/// Joins a directory path and a child name.
pub fn join_path_exec(dir: &str, name: &str) -> (r: String)
    ensures
        r@ == join_path(dir@, name@),
{
    let dv = str_to_chars(dir);
    let nv = str_to_chars(name);
    let mut out: Vec<char> = dv;
    if out.len() == 0 || out[out.len() - 1] != '/' {
        out.push('/');
    }
    let mut j: usize = 0;
    while j < nv.len()
        invariant
            j <= nv@.len(),
            out@ == if dir@.len() > 0 && dir@.last() == '/' {
                dir@ + nv@.subrange(0, j as int)
            } else {
                dir@ + seq!['/'] + nv@.subrange(0, j as int)
            },
            nv@ == name@,
        decreases nv@.len() - j,
    {
        out.push(nv[j]);
        j += 1;
        proof {
            if dir@.len() > 0 && dir@.last() == '/' {
                assert(out@ =~= dir@ + nv@.subrange(0, j as int));
            } else {
                assert(out@ =~= dir@ + seq!['/'] + nv@.subrange(0, j as int));
            }
        }
    }
    proof {
        assert(nv@.subrange(0, nv@.len() as int) =~= name@);
        if dir@.len() > 0 && dir@.last() == '/' {
            assert(out@ =~= join_path(dir@, name@));
        } else {
            assert(out@ =~= join_path(dir@, name@));
        }
    }
    chars_to_string(&out)
}

/// Order of the listing: directories before files; within one group,
/// case-insensitive lexicographic by name.
pub open spec fn entry_le(a: FileEntryView, b: FileEntryView) -> bool {
    if a.is_directory != b.is_directory {
        a.is_directory
    } else {
        lex_le(lower(a.name), lower(b.name))
    }
}

/// `entry_le` relates every pair of entries one way or the other.
pub proof fn lemma_entry_le_total(a: FileEntryView, b: FileEntryView)
    ensures
        entry_le(a, b) || entry_le(b, a),
{
    if a.is_directory == b.is_directory {
        lemma_lex_le_total(lower(a.name), lower(b.name));
    }
}

/// `entry_le` is transitive.
pub proof fn lemma_entry_le_transitive(a: FileEntryView, b: FileEntryView, c: FileEntryView)
    requires
        entry_le(a, b),
        entry_le(b, c),
    ensures
        entry_le(a, c),
{
    if a.is_directory == b.is_directory && b.is_directory == c.is_directory {
        lemma_lex_le_transitive(lower(a.name), lower(b.name), lower(c.name));
    }
}

/// Compares two entries in the listing order.
pub fn entry_le_exec(a: &FileEntry, b: &FileEntry) -> (r: bool)
    ensures
        r == entry_le(a@, b@),
{
    if a.is_directory != b.is_directory {
        a.is_directory
    } else {
        let la = lower_chars(a.name.as_str());
        let lb = lower_chars(b.name.as_str());
        crate::text::lex_le_exec(&la, &lb)
    }
}

/// The views of a sequence of entries.
pub open spec fn views_of(s: Seq<FileEntry>) -> Seq<FileEntryView> {
    s.map_values(|e: FileEntry| e@)
}

/// A listing is sorted when every earlier entry relates to every later
/// one under `entry_le`.
pub open spec fn entries_sorted(s: Seq<FileEntryView>) -> bool {
    forall|i: int, j: int| 0 <= i < j < s.len() ==> entry_le(s[i], s[j])
}

/// Inserts an entry into a sorted listing, keeping it sorted.
fn insert_sorted(out: &mut Vec<FileEntry>, x: FileEntry)
    requires
        entries_sorted(views_of(old(out)@)),
    ensures
        entries_sorted(views_of(final(out)@)),
        views_of(final(out)@).to_multiset() == views_of(old(out)@).to_multiset().insert(x@),
{
    let ghost xv = x@;
    let mut j: usize = 0;
    while j < out.len() && entry_le_exec(&out[j], &x)
        invariant
            j <= out@.len(),
            forall|k: int| 0 <= k < j ==> entry_le(#[trigger] views_of(out@)[k], xv),
            xv == x@,
        decreases out@.len() - j,
    {
        j += 1;
    }
    proof {
        if j < out@.len() {
            lemma_entry_le_total(views_of(out@)[j as int], xv);
        }
    }
    let ghost before = out@;
    out.insert(j, x);
    proof {
        broadcast use vstd::seq_lib::to_multiset_insert;

        assert(out@ == before.insert(j as int, x));
        assert(views_of(out@) =~= views_of(before).insert(j as int, xv));
        let s = views_of(out@);
        let old_s = views_of(before);
        assert forall|p: int, q: int| 0 <= p < q < s.len() implies entry_le(s[p], s[q]) by {
            if q < j {
                assert(entry_le(old_s[p], old_s[q]));
            } else if p > j {
                assert(entry_le(old_s[p - 1], old_s[q - 1]));
            } else if p == j && q > j {
                // x against a later element: x <= out[j] <= later
                if j < old_s.len() {
                    if q - 1 > j {
                        lemma_entry_le_transitive(xv, old_s[j as int], old_s[q - 1]);
                    }
                }
            } else if q == j {
                assert(entry_le(old_s[p], xv));
            } else {
                // p < j < q
                assert(entry_le(old_s[p], xv));
                if q - 1 >= j {
                    if q - 1 == j {
                        if j < old_s.len() {
                            lemma_entry_le_transitive(old_s[p], xv, old_s[j as int]);
                        }
                    } else {
                        lemma_entry_le_transitive(old_s[p], xv, old_s[j as int]);
                        lemma_entry_le_transitive(old_s[p], old_s[j as int], old_s[q - 1]);
                    }
                }
            }
        }
    }
}

/// Sorts a listing: directories first, then case-insensitive names.
/// The result holds exactly the given entries.
pub fn sort_entries(entries: Vec<FileEntry>) -> (r: Vec<FileEntry>)
    ensures
        entries_sorted(views_of(r@)),
        views_of(r@).to_multiset() == views_of(entries@).to_multiset(),
{
    let mut out: Vec<FileEntry> = Vec::new();
    let mut rest = entries;
    proof {
        assert(views_of(out@) =~= Seq::<FileEntryView>::empty());
        vstd::seq_lib::lemma_multiset_commutative(
            Seq::<FileEntryView>::empty(),
            views_of(rest@),
        );
        assert(views_of(out@).to_multiset().add(views_of(rest@).to_multiset())
            =~= views_of(entries@).to_multiset());
    }
    while rest.len() > 0
        invariant
            entries_sorted(views_of(out@)),
            views_of(out@).to_multiset().add(views_of(rest@).to_multiset()) == views_of(
                entries@,
            ).to_multiset(),
        decreases rest@.len(),
    {
        let ghost rest_before = rest@;
        let x = rest.remove(0);
        proof {
            broadcast use vstd::seq_lib::to_multiset_remove;

            assert(rest@ == rest_before.remove(0));
            assert(views_of(rest@) =~= views_of(rest_before).remove(0));
            assert(views_of(rest_before)[0] == x@);
            assert(views_of(rest@).to_multiset() == views_of(rest_before).to_multiset().remove(
                x@,
            ));
            broadcast use vstd::seq_lib::group_to_multiset_ensures;

            assert(views_of(rest_before).contains(x@));
            assert(views_of(rest_before).to_multiset().count(x@) > 0);
        }
        insert_sorted(&mut out, x);
        proof {
            broadcast use vstd::multiset::group_multiset_axioms;

            assert(views_of(out@).to_multiset().add(views_of(rest@).to_multiset())
                =~= views_of(entries@).to_multiset());
        }
    }
    proof {
        broadcast use vstd::seq_lib::group_to_multiset_ensures;
        broadcast use vstd::multiset::group_multiset_axioms;
        broadcast use vstd::multiset::lemma_multiset_empty_len;

        assert(views_of(rest@) =~= Seq::<FileEntryView>::empty());
        assert(views_of(rest@).to_multiset().len() == 0);
        assert(views_of(rest@).to_multiset() =~= Multiset::<FileEntryView>::empty());
        assert(views_of(out@).to_multiset() =~= views_of(entries@).to_multiset());
    }
    out
}

/// Bytes per kibibyte.
pub const KB: u64 = 1024;

/// Bytes per mebibyte.
pub const MB: u64 = 1024 * 1024;

/// Bytes per gibibyte.
pub const GB: u64 = 1024 * 1024 * 1024;

/// `size` in units of one tenth of `unit`, rounded to the nearest tenth
/// (half rounds up).
pub open spec fn size_tenths(size: nat, unit: nat) -> nat {
    (size * 10 + unit / 2) / unit
}

/// A number of tenths rendered with one decimal place: `23` shows as
/// `2.3`.
pub open spec fn tenths_rep(t: nat) -> Seq<char> {
    dec_rep(t / 10) + seq!['.'] + seq![digit_char(t % 10)]
}

/// What the size column shows: `--` for a directory, whole bytes below
/// one kibibyte, and one decimal place in the largest unit the size
/// reaches otherwise.
pub open spec fn size_display_spec(size: u64, is_directory: bool) -> Seq<char> {
    if is_directory {
        seq!['-', '-']
    } else if size >= GB {
        tenths_rep(size_tenths(size as nat, GB as nat)) + seq![' ', 'G', 'B']
    } else if size >= MB {
        tenths_rep(size_tenths(size as nat, MB as nat)) + seq![' ', 'M', 'B']
    } else if size >= KB {
        tenths_rep(size_tenths(size as nat, KB as nat)) + seq![' ', 'K', 'B']
    } else {
        dec_rep(size as nat) + seq![' ', 'B']
    }
}

/// Computes the rounded tenths of `size` in `unit`, one of the three
/// byte-unit constants.
pub(crate) fn tenths_exec(size: u64, unit: u64) -> (t: u64)
    requires
        unit == KB || unit == MB || unit == GB,
    ensures
        t == size_tenths(size as nat, unit as nat),
{
    let s = size as u128;
    let u = unit as u128;
    let x = s * 10 + u / 2;
    let t = x / u;
    proof {
        vstd::arithmetic::div_mod::lemma_div_is_ordered(
            x as int,
            0xffff_ffff_ffff_ffffu128 * 10 + 0x2000_0000 as int,
            u as int,
        );
        vstd::arithmetic::div_mod::lemma_div_is_ordered_by_denominator(
            0xffff_ffff_ffff_ffffu128 * 10 + 0x2000_0000 as int,
            1024,
            u as int,
        );
    }
    t as u64
}

/// Appends the one-decimal rendering of `t` tenths.
pub(crate) fn push_tenths(out: &mut Vec<char>, t: u64)
    ensures
        final(out)@ == old(out)@ + tenths_rep(t as nat),
{
    let whole = u64_to_chars(t / 10);
    let mut i: usize = 0;
    while i < whole.len()
        invariant
            i <= whole@.len(),
            out@ == old(out)@ + whole@.subrange(0, i as int),
            whole@ == dec_rep((t / 10) as nat),
        decreases whole@.len() - i,
    {
        out.push(whole[i]);
        i += 1;
        proof {
            assert(out@ =~= old(out)@ + whole@.subrange(0, i as int));
        }
    }
    proof {
        assert(old(out)@ + whole@.subrange(0, whole@.len() as int) =~= old(out)@ + whole@);
    }
    out.push('.');
    out.push(digit_char_exec(t % 10));
    proof {
        assert(final(out)@ =~= old(out)@ + tenths_rep(t as nat));
    }
}

impl FileEntry {
    /// Renders the size column for this entry.
    pub fn size_display(&self) -> (r: String)
        ensures
            r@ == size_display_spec(self.size, self.is_directory),
    {
        let mut out: Vec<char> = Vec::new();
        if self.is_directory {
            out.push('-');
            out.push('-');
            proof {
                assert(out@ =~= size_display_spec(self.size, self.is_directory));
            }
            return chars_to_string(&out);
        }
        if self.size >= GB {
            push_tenths(&mut out, tenths_exec(self.size, GB));
            out.push(' ');
            out.push('G');
            out.push('B');
            proof {
                assert(out@ =~= size_display_spec(self.size, self.is_directory));
            }
        } else if self.size >= MB {
            push_tenths(&mut out, tenths_exec(self.size, MB));
            out.push(' ');
            out.push('M');
            out.push('B');
            proof {
                assert(out@ =~= size_display_spec(self.size, self.is_directory));
            }
        } else if self.size >= KB {
            push_tenths(&mut out, tenths_exec(self.size, KB));
            out.push(' ');
            out.push('K');
            out.push('B');
            proof {
                assert(out@ =~= size_display_spec(self.size, self.is_directory));
            }
        } else {
            let digits = u64_to_chars(self.size);
            let mut i: usize = 0;
            while i < digits.len()
                invariant
                    i <= digits@.len(),
                    out@ == digits@.subrange(0, i as int),
                decreases digits@.len() - i,
            {
                out.push(digits[i]);
                i += 1;
                proof {
                    assert(out@ =~= digits@.subrange(0, i as int));
                }
            }
            out.push(' ');
            out.push('B');
            proof {
                assert(digits@.subrange(0, digits@.len() as int) =~= digits@);
                assert(out@ =~= size_display_spec(self.size, self.is_directory));
            }
        }
        chars_to_string(&out)
    }
}

/// The text shown when a modification instant cannot be read or
/// rendered.
pub open spec fn unknown_label() -> Seq<char> {
    "Unknown"@
}

/// Relies on chrono's `DateTime::from_timestamp` and `format`: renders
/// the instant `secs` seconds after the Unix epoch, in the machine's
/// local time zone, as `YYYY-MM-DD HH:MM`; `None` when chrono rejects
/// the timestamp as out of range.
#[verifier::external_body]
fn chrono_format_epoch(secs: i64) -> (r: Option<String>) {
    chrono::DateTime::from_timestamp(secs, 0).map(
        |dt| dt.with_timezone(&chrono::Local).format("%Y-%m-%d %H:%M").to_string(),
    )
}

/// Chooses the modified-column text from an optionally rendered
/// instant: the rendered text when there is one, `Unknown` otherwise.
pub fn modified_label(formatted: Option<String>) -> (r: String)
    ensures
        match formatted {
            Some(s) => r@ == s@,
            None => r@ == unknown_label(),
        },
{
    match formatted {
        Some(s) => s,
        None => String::from_str("Unknown"),
    }
}

/// The views of a sequence of raw entries.
pub open spec fn raw_views_of(s: Seq<RawEntry>) -> Seq<RawEntryView> {
    s.map_values(|e: RawEntry| e@)
}

/// What a scan of `raws` produces before sorting: the kept entries, in
/// input order, each shaped by `entry_of`.
pub open spec fn scan_views(dir: Seq<char>, raws: Seq<RawEntryView>, show_hidden: bool) -> Seq<
    FileEntryView,
>
    decreases raws.len(),
{
    if raws.len() == 0 {
        Seq::empty()
    } else {
        let rest = scan_views(dir, raws.drop_first(), show_hidden);
        if scan_keeps(raws.first(), show_hidden) {
            seq![entry_of(dir, raws.first())] + rest
        } else {
            rest
        }
    }
}

/// `scan_views` distributes over concatenation.
pub proof fn lemma_scan_views_concat(
    dir: Seq<char>,
    a: Seq<RawEntryView>,
    b: Seq<RawEntryView>,
    show_hidden: bool,
)
    ensures
        scan_views(dir, a + b, show_hidden) == scan_views(dir, a, show_hidden) + scan_views(
            dir,
            b,
            show_hidden,
        ),
    decreases a.len(),
{
    if a.len() == 0 {
        assert(a + b =~= b);
        assert(scan_views(dir, a, show_hidden) + scan_views(dir, b, show_hidden) =~= scan_views(
            dir,
            b,
            show_hidden,
        ));
    } else {
        assert((a + b).first() == a.first());
        assert((a + b).drop_first() =~= a.drop_first() + b);
        lemma_scan_views_concat(dir, a.drop_first(), b, show_hidden);
        if scan_keeps(a.first(), show_hidden) {
            assert(scan_views(dir, a + b, show_hidden) =~= scan_views(dir, a, show_hidden)
                + scan_views(dir, b, show_hidden));
        }
    }
}

/// The scanner: shapes, filters and sorts one directory's raw listing.
pub struct Scanner;

impl Scanner {
    /// Chooses the icon for a name: `folder` for directories, else by
    /// the lower-cased extension.
    pub fn get_icon_name(name: &str, is_directory: bool) -> (r: String)
        ensures
            r@ == scanner_icon(name@, is_directory),
    {
        if is_directory {
            return String::from_str("folder");
        }
        let nc = str_to_chars(name);
        let e = crate::text::lower_vec(&ext_of_exec(&nc));
        let s: &str = if chars_eq_str(&e, "pdf") {
            "application-pdf"
        } else if chars_eq_str(&e, "doc") || chars_eq_str(&e, "docx") || chars_eq_str(&e, "odt") {
            "x-office-document"
        } else if chars_eq_str(&e, "xls") || chars_eq_str(&e, "xlsx") || chars_eq_str(&e, "ods") {
            "x-office-spreadsheet"
        } else if chars_eq_str(&e, "ppt") || chars_eq_str(&e, "pptx") || chars_eq_str(&e, "odp") {
            "x-office-presentation"
        } else if chars_eq_str(&e, "txt") || chars_eq_str(&e, "md") || chars_eq_str(&e, "rst") {
            "text-x-generic"
        } else if chars_eq_str(&e, "png") || chars_eq_str(&e, "jpg") || chars_eq_str(&e, "jpeg")
            || chars_eq_str(&e, "gif") || chars_eq_str(&e, "bmp") || chars_eq_str(&e, "svg")
            || chars_eq_str(&e, "webp") {
            "image-x-generic"
        } else if chars_eq_str(&e, "mp3") || chars_eq_str(&e, "wav") || chars_eq_str(&e, "flac")
            || chars_eq_str(&e, "ogg") || chars_eq_str(&e, "m4a") {
            "audio-x-generic"
        } else if chars_eq_str(&e, "mp4") || chars_eq_str(&e, "mkv") || chars_eq_str(&e, "avi")
            || chars_eq_str(&e, "mov") || chars_eq_str(&e, "webm") {
            "video-x-generic"
        } else if chars_eq_str(&e, "zip") || chars_eq_str(&e, "tar") || chars_eq_str(&e, "gz")
            || chars_eq_str(&e, "bz2") || chars_eq_str(&e, "xz") || chars_eq_str(&e, "rar")
            || chars_eq_str(&e, "7z") {
            "package-x-generic"
        } else if chars_eq_str(&e, "rs") || chars_eq_str(&e, "py") || chars_eq_str(&e, "js")
            || chars_eq_str(&e, "ts") || chars_eq_str(&e, "c") || chars_eq_str(&e, "cpp")
            || chars_eq_str(&e, "h") || chars_eq_str(&e, "java") || chars_eq_str(&e, "go")
            || chars_eq_str(&e, "rb") {
            "text-x-script"
        } else if chars_eq_str(&e, "html") || chars_eq_str(&e, "css") || chars_eq_str(&e, "xml")
            || chars_eq_str(&e, "json") || chars_eq_str(&e, "yaml") || chars_eq_str(&e, "yml")
            || chars_eq_str(&e, "toml") {
            "text-x-script"
        } else if chars_eq_str(&e, "sh") || chars_eq_str(&e, "bash") {
            "application-x-executable"
        } else if chars_eq_str(&e, "exe") || chars_eq_str(&e, "msi") {
            "application-x-executable"
        } else if chars_eq_str(&e, "deb") || chars_eq_str(&e, "rpm") || chars_eq_str(
            &e,
            "AppImage",
        ) {
            "application-x-executable"
        } else {
            "text-x-generic"
        };
        String::from_str(s)
    }

    /// Renders a modification instant read from file metadata, given as
    /// seconds after the Unix epoch; `None` (no readable time) and
    /// instants the calendar cannot represent both show as `Unknown`.
    pub fn format_modified(secs: Option<i64>) -> (r: String)
        ensures
            secs is None ==> r@ == unknown_label(),
    {
        match secs {
            None => modified_label(None),
            Some(s) => modified_label(chrono_format_epoch(s)),
        }
    }

    /// Shapes one raw entry read from `dir_path` into a listing row.
    fn make_entry(dir_path: &str, e: &RawEntry) -> (fe: FileEntry)
        ensures
            fe@ == entry_of(dir_path@, e@),
    {
        FileEntry {
            name: e.name.clone(),
            path: join_path_exec(dir_path, e.name.as_str()),
            is_directory: e.is_directory,
            size: if e.is_directory {
                0
            } else {
                e.size
            },
            modified: e.modified.clone(),
            icon_name: Self::get_icon_name(e.name.as_str(), e.is_directory),
        }
    }

    /// Scans with hidden entries left out.
    pub fn scan(dir_path: &str, raw: Vec<RawEntry>) -> (r: Vec<FileEntry>)
        ensures
            entries_sorted(views_of(r@)),
            views_of(r@).to_multiset() == scan_views(dir_path@, raw_views_of(raw@), false)
                .to_multiset(),
    {
        Self::scan_with_hidden(dir_path, raw, false)
    }

    /// Shapes, filters and sorts one directory listing: entries whose
    /// name starts with a dot are kept only when `show_hidden` holds;
    /// each kept raw entry appears exactly once, shaped by `entry_of`;
    /// the result is sorted with directories first and case-insensitive
    /// names within each group.
    pub fn scan_with_hidden(dir_path: &str, raw: Vec<RawEntry>, show_hidden: bool) -> (r: Vec<
        FileEntry,
    >)
        ensures
            entries_sorted(views_of(r@)),
            views_of(r@).to_multiset() == scan_views(dir_path@, raw_views_of(raw@), show_hidden)
                .to_multiset(),
    {
        let ghost rvs = raw_views_of(raw@);
        let mut built: Vec<FileEntry> = Vec::new();
        let mut i: usize = 0;
        proof {
            assert(rvs.subrange(0, 0) =~= Seq::<RawEntryView>::empty());
            assert(views_of(built@) =~= scan_views(dir_path@, rvs.subrange(0, 0), show_hidden));
        }
        while i < raw.len()
            invariant
                i <= raw@.len(),
                rvs == raw_views_of(raw@),
                views_of(built@) == scan_views(dir_path@, rvs.subrange(0, i as int), show_hidden),
            decreases raw@.len() - i,
        {
            let keep = show_hidden || !is_hidden_name_exec(raw[i].name.as_str());
            let ghost built_before = built@;
            if keep {
                let fe = Self::make_entry(dir_path, &raw[i]);
                built.push(fe);
            }
            proof {
                let prefix = rvs.subrange(0, i as int);
                let one = seq![rvs[i as int]];
                assert(rvs.subrange(0, i as int + 1) =~= prefix + one);
                lemma_scan_views_concat(dir_path@, prefix, one, show_hidden);
                assert(rvs[i as int] == raw@[i as int]@);
                assert(one.first() == rvs[i as int]);
                assert(one.drop_first() =~= Seq::<RawEntryView>::empty());
                assert(scan_views(dir_path@, Seq::<RawEntryView>::empty(), show_hidden) =~= Seq::<
                    FileEntryView,
                >::empty());
                if scan_keeps(rvs[i as int], show_hidden) {
                    assert(scan_views(dir_path@, one, show_hidden) =~= seq![
                        entry_of(dir_path@, rvs[i as int]),
                    ]);
                    assert(views_of(built@) =~= views_of(built_before) + seq![
                        entry_of(dir_path@, rvs[i as int]),
                    ]);
                } else {
                    assert(scan_views(dir_path@, one, show_hidden) =~= Seq::<
                        FileEntryView,
                    >::empty());
                    assert(views_of(built@) =~= views_of(built_before) + scan_views(
                        dir_path@,
                        one,
                        show_hidden,
                    ));
                }
            }
            i += 1;
        }
        proof {
            assert(rvs.subrange(0, raw@.len() as int) =~= rvs);
        }
        sort_entries(built)
    }
}

} // verus!
