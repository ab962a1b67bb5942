//! The filename search engine. A search walks a subtree on its own
//! thread; here live its decisions: case-insensitive substring matching,
//! hidden-name filtering, the skip list of noisy system directories, the
//! cooperative cancellation flag, and the hard bounds that cap both the
//! work counter and the number of accumulated results. The walk itself
//! is input/output and drives this state from outside the library.
use vstd::prelude::*;

use crate::scanner::{is_hidden_name, FileEntry, FileEntryView};
use crate::text::{
    chars_eq_str, contains_exec, contains_seq, ext_of, ext_of_exec, lower, lower_chars, lower_vec,
    str_to_chars,
};

verus! {

/// The most results a search accumulates.
pub const MAX_RESULTS: usize = 5000;

/// The most matches counted before the search stops descending.
pub const MAX_OPS: usize = 5000;

/// The icon the search assigns to a result: `folder` for directories,
/// otherwise by the lower-cased extension.
pub open spec fn search_icon(name: Seq<char>, is_directory: bool) -> Seq<char> {
    if is_directory {
        "folder"@
    } else {
        let ext = lower(ext_of(name));
        if ext == "pdf"@ {
            "application-pdf"@
        } else if ext == "doc"@ || ext == "docx"@ || ext == "odt"@ {
            "x-office-document"@
        } else if ext == "xls"@ || ext == "xlsx"@ || ext == "ods"@ {
            "x-office-spreadsheet"@
        } else if ext == "txt"@ || ext == "md"@ || ext == "rst"@ {
            "text-x-generic"@
        } else if ext == "png"@ || ext == "jpg"@ || ext == "jpeg"@ || ext == "gif"@ || ext
            == "bmp"@ || ext == "svg"@ || ext == "webp"@ {
            "image-x-generic"@
        } else if ext == "mp3"@ || ext == "wav"@ || ext == "flac"@ || ext == "ogg"@ || ext
            == "m4a"@ {
            "audio-x-generic"@
        } else if ext == "mp4"@ || ext == "mkv"@ || ext == "avi"@ || ext == "mov"@ || ext
            == "webm"@ {
            "video-x-generic"@
        } else if ext == "zip"@ || ext == "tar"@ || ext == "gz"@ || ext == "bz2"@ || ext == "xz"@
            || ext == "rar"@ || ext == "7z"@ {
            "package-x-generic"@
        } else if ext == "rs"@ || ext == "py"@ || ext == "js"@ || ext == "ts"@ || ext == "c"@
            || ext == "cpp"@ || ext == "h"@ || ext == "java"@ || ext == "go"@ || ext == "rb"@ {
            "text-x-script"@
        } else if ext == "html"@ || ext == "css"@ || ext == "xml"@ || ext == "json"@ || ext
            == "yaml"@ || ext == "yml"@ || ext == "toml"@ {
            "text-x-script"@
        } else if ext == "sh"@ || ext == "bash"@ {
            "application-x-executable"@
        } else {
            "text-x-generic"@
        }
    }
}

/// Whether `name` matches the already lower-cased query: the query's
/// characters occur contiguously in the lower-cased name. An empty query
/// matches everything.
pub open spec fn name_matches(name: Seq<char>, query_lower: Seq<char>) -> bool {
    contains_seq(lower(name), query_lower)
}

/// A search result as built from what the walk read about one entry.
pub open spec fn search_entry_of(
    name: Seq<char>,
    path: Seq<char>,
    is_directory: bool,
    size: u64,
    modified: Seq<char>,
) -> FileEntryView {
    FileEntryView {
        name: name,
        path: path,
        is_directory: is_directory,
        size: if is_directory {
            0
        } else {
            size
        },
        modified: modified,
        icon_name: search_icon(name, is_directory),
    }
}

/// A path lies under `prefix` when the prefix's characters begin it and
/// end at a component boundary.
pub open spec fn path_under(p: Seq<char>, prefix: Seq<char>) -> bool {
    prefix.is_prefix_of(p) && (p.len() == prefix.len() || p[prefix.len() as int] == '/')
}

/// Whether a search descends into the directory at `path`: a fixed set
/// of pseudo-filesystem and noise directories is skipped.
pub open spec fn descends_into(path: Seq<char>) -> bool {
    &&& !path_under(path, "/proc"@)
    &&& !path_under(path, "/sys"@)
    &&& !path_under(path, "/dev"@)
    &&& !path_under(path, "/run"@)
    &&& !path_under(path, "/tmp"@)
    &&& !path_under(path, "/var/cache"@)
    &&& !path_under(path, "/var/tmp"@)
    &&& !path_under(path, "/snap"@)
    &&& !path_under(path, "/.snapshots"@)
}

/// Tests whether a path lies under a prefix, at a component boundary.
fn path_under_exec(p: &Vec<char>, prefix: &str) -> (r: bool)
    ensures
        r == path_under(p@, prefix@),
{
    let pv = str_to_chars(prefix);
    if !crate::text::starts_with_exec(p, &pv) {
        return false;
    }
    if p.len() == pv.len() {
        return true;
    }
    p[pv.len()] == '/'
}

/// The search engine: one live search's query, accumulated results,
/// work counter, and cancellation flag.
pub struct GlobalSearch {
    results: Vec<FileEntry>,
    count: usize,
    searching: bool,
    query_lower: String,
}

/// The mathematical value of a [`GlobalSearch`].
pub struct SearchView {
    pub results: Seq<FileEntryView>,
    pub count: int,
    pub searching: bool,
    pub query_lower: Seq<char>,
}

impl View for GlobalSearch {
    type V = SearchView;

    closed spec fn view(&self) -> SearchView {
        SearchView {
            results: crate::scanner::views_of(self.results@),
            count: self.count as int,
            searching: self.searching,
            query_lower: self.query_lower@,
        }
    }
}

impl SearchView {
    /// The hard bound: a search never holds more results than
    /// [`MAX_RESULTS`].
    pub open spec fn wf(self) -> bool {
        self.results.len() <= MAX_RESULTS && 0 <= self.count
    }
}

impl GlobalSearch {
    /// An idle engine holding nothing.
    pub fn new() -> (r: Self)
        ensures
            r@.results.len() == 0,
            r@.count == 0,
            !r@.searching,
            r@.wf(),
    {
        let r = GlobalSearch {
            results: Vec::new(),
            count: 0,
            searching: false,
            query_lower: String::new(),
        };
        proof {
            assert(r@.results =~= Seq::<FileEntryView>::empty());
        }
        r
    }

    /// Begins a new search: whatever ran before is superseded, the
    /// results empty, the counter resets, and the query is folded to
    /// lower case once up front.
    pub fn start_search(&mut self, query: &str)
        ensures
            final(self)@.results.len() == 0,
            final(self)@.count == 0,
            final(self)@.searching,
            final(self)@.query_lower == lower(query@),
            final(self)@.wf(),
    {
        self.results = Vec::new();
        self.count = 0;
        self.searching = true;
        let q = lower_chars(query);
        self.query_lower = crate::text::chars_to_string(&q);
        proof {
            assert(self@.results =~= Seq::<FileEntryView>::empty());
        }
    }

    /// Flips the cancellation flag; the walk observes it before every
    /// entry and every descent and stops promptly. Collected results
    /// stay.
    pub fn cancel(&mut self)
        ensures
            !final(self)@.searching,
            final(self)@.results == old(self)@.results,
            final(self)@.count == old(self)@.count,
            final(self)@.query_lower == old(self)@.query_lower,
            old(self)@.wf() ==> final(self)@.wf(),
    {
        self.searching = false;
    }

    /// Whether the walk may go on: not cancelled and neither bound
    /// passed. Checked before each directory and each descent.
    pub fn should_continue(&self) -> (r: bool)
        ensures
            r == (self@.searching && self@.count <= MAX_OPS && self@.results.len() <= MAX_RESULTS),
    {
        proof {
            assert(self@.results.len() == self.results@.len());
        }
        self.searching && self.count <= MAX_OPS && self.results.len() <= MAX_RESULTS
    }

    /// Offers one directory entry the walk encountered. The entry is
    /// recorded exactly when the search is live, the result bound is not
    /// yet reached, the name is not filtered as hidden, and the
    /// lower-cased name contains the query; recording appends the shaped
    /// result and counts one match. Anything else leaves the engine
    /// untouched.
    pub fn offer(
        &mut self,
        name: &str,
        path: &str,
        is_directory: bool,
        size: u64,
        modified: String,
        show_hidden: bool,
    ) -> (matched: bool)
        requires
            old(self)@.count <= MAX_OPS,
            old(self)@.wf(),
        ensures
            matched == (old(self)@.searching && old(self)@.results.len() < MAX_RESULTS && (
            show_hidden || !is_hidden_name(name@)) && name_matches(name@, old(self)@.query_lower)),
            matched ==> final(self)@ == (SearchView {
                results: old(self)@.results.push(
                    search_entry_of(name@, path@, is_directory, size, modified@),
                ),
                count: old(self)@.count + 1,
                ..old(self)@
            }),
            !matched ==> final(self)@ == old(self)@,
            final(self)@.wf(),
            final(self)@.results.len() >= old(self)@.results.len(),
            final(self)@.count >= old(self)@.count,
    {
        if !self.searching {
            return false;
        }
        proof {
            assert(self@.results.len() == self.results@.len());
        }
        if self.results.len() >= MAX_RESULTS {
            return false;
        }
        if !show_hidden && is_hidden_name_local(name) {
            return false;
        }
        let name_low = lower_chars(name);
        let qv = str_to_chars(self.query_lower.as_str());
        if !contains_exec(&name_low, &qv) {
            return false;
        }
        let entry = FileEntry {
            name: String::from_str(name),
            path: String::from_str(path),
            is_directory,
            size: if is_directory {
                0
            } else {
                size
            },
            modified,
            icon_name: Self::get_icon_name(name, is_directory),
        };
        let ghost before = self@;
        self.results.push(entry);
        self.count = self.count + 1;
        proof {
            assert(self@.results =~= before.results.push(
                search_entry_of(name@, path@, is_directory, size, modified@),
            ));
        }
        true
    }

    /// Whether the walk descends into the directory at `path`: the
    /// fixed noise list is skipped.
    pub fn should_descend(path: &str) -> (r: bool)
        ensures
            r == descends_into(path@),
    {
        let pv = str_to_chars(path);
        !path_under_exec(&pv, "/proc") && !path_under_exec(&pv, "/sys") && !path_under_exec(
            &pv,
            "/dev",
        ) && !path_under_exec(&pv, "/run") && !path_under_exec(&pv, "/tmp") && !path_under_exec(
            &pv,
            "/var/cache",
        ) && !path_under_exec(&pv, "/var/tmp") && !path_under_exec(&pv, "/snap")
            && !path_under_exec(&pv, "/.snapshots")
    }

    /// A copy of the accumulated results, as the completion callback
    /// receives them.
    pub fn results_snapshot(&self) -> (r: Vec<FileEntry>)
        ensures
            crate::scanner::views_of(r@) == self@.results,
    {
        let mut out: Vec<FileEntry> = Vec::new();
        let mut i: usize = 0;
        while i < self.results.len()
            invariant
                i <= self.results@.len(),
                out@.len() == i,
                forall|k: int| 0 <= k < i ==> out@[k]@ == self.results@[k]@,
            decreases self.results@.len() - i,
        {
            out.push(self.results[i].clone());
            i += 1;
        }
        proof {
            assert(crate::scanner::views_of(out@) =~= self@.results);
        }
        out
    }

    /// How many matches the search counted.
    pub fn match_count(&self) -> (r: usize)
        ensures
            r == self@.count,
    {
        self.count
    }

    /// The icon for one search result.
    pub fn get_icon_name(name: &str, is_directory: bool) -> (r: String)
        ensures
            r@ == search_icon(name@, is_directory),
    {
        if is_directory {
            return String::from_str("folder");
        }
        let nc = str_to_chars(name);
        let e = lower_vec(&ext_of_exec(&nc));
        let s: &str = if chars_eq_str(&e, "pdf") {
            "application-pdf"
        } else if chars_eq_str(&e, "doc") || chars_eq_str(&e, "docx") || chars_eq_str(&e, "odt") {
            "x-office-document"
        } else if chars_eq_str(&e, "xls") || chars_eq_str(&e, "xlsx") || chars_eq_str(&e, "ods") {
            "x-office-spreadsheet"
        } else if chars_eq_str(&e, "txt") || chars_eq_str(&e, "md") || chars_eq_str(&e, "rst") {
            "text-x-generic"
        } else if chars_eq_str(&e, "png") || chars_eq_str(&e, "jpg") || chars_eq_str(&e, "jpeg")
            || chars_eq_str(&e, "gif") || chars_eq_str(&e, "bmp") || chars_eq_str(&e, "svg")
            || chars_eq_str(&e, "webp") {
            "image-x-generic"
        } else if chars_eq_str(&e, "mp3") || chars_eq_str(&e, "wav") || chars_eq_str(&e, "flac")
            || chars_eq_str(&e, "ogg") || chars_eq_str(&e, "m4a") {
            "audio-x-generic"
        } else if chars_eq_str(&e, "mp4") || chars_eq_str(&e, "mkv") || chars_eq_str(&e, "avi")
            || chars_eq_str(&e, "mov") || chars_eq_str(&e, "webm") {
            "video-x-generic"
        } else if chars_eq_str(&e, "zip") || chars_eq_str(&e, "tar") || chars_eq_str(&e, "gz")
            || chars_eq_str(&e, "bz2") || chars_eq_str(&e, "xz") || chars_eq_str(&e, "rar")
            || chars_eq_str(&e, "7z") {
            "package-x-generic"
        } else if chars_eq_str(&e, "rs") || chars_eq_str(&e, "py") || chars_eq_str(&e, "js")
            || chars_eq_str(&e, "ts") || chars_eq_str(&e, "c") || chars_eq_str(&e, "cpp")
            || chars_eq_str(&e, "h") || chars_eq_str(&e, "java") || chars_eq_str(&e, "go")
            || chars_eq_str(&e, "rb") {
            "text-x-script"
        } else if chars_eq_str(&e, "html") || chars_eq_str(&e, "css") || chars_eq_str(&e, "xml")
            || chars_eq_str(&e, "json") || chars_eq_str(&e, "yaml") || chars_eq_str(&e, "yml")
            || chars_eq_str(&e, "toml") {
            "text-x-script"
        } else if chars_eq_str(&e, "sh") || chars_eq_str(&e, "bash") {
            "application-x-executable"
        } else {
            "text-x-generic"
        };
        String::from_str(s)
    }
}

/// Whether a filename matches a filter query, both compared in lower
/// case; the view's name filter uses the same rule as the search.
pub fn matches_query(name: &str, query_lower: &str) -> (r: bool)
    ensures
        r == name_matches(name@, query_lower@),
{
    let name_low = lower_chars(name);
    let qv = str_to_chars(query_lower);
    contains_exec(&name_low, &qv)
}

/// Tests whether a name is hidden.
fn is_hidden_name_local(name: &str) -> (r: bool)
    ensures
        r == is_hidden_name(name@),
{
    crate::scanner::is_hidden_name_exec(name)
}

} // verus!
