//! The pinned-folder store: an ordered list of pinned paths with their
//! display names, persisted as `path|name` records, one per line. The
//! file reads and writes, and the canonicalization of live paths, are
//! input/output done outside the library; the fallback normalization and
//! every list operation live here.
use vstd::prelude::*;

use crate::text::{chars_to_string, first_index_of, split_once_char, str_to_chars};

verus! {

/// One pinned folder: its path and the name the sidebar shows.
pub struct PinnedFolder {
    pub path: String,
    pub name: String,
}

/// The mathematical value of a [`PinnedFolder`].
pub struct PinnedFolderView {
    pub path: Seq<char>,
    pub name: Seq<char>,
}

impl View for PinnedFolder {
    type V = PinnedFolderView;

    open spec fn view(&self) -> PinnedFolderView {
        PinnedFolderView { path: self.path@, name: self.name@ }
    }
}

/// The views of a list of pinned folders.
pub open spec fn folder_views(s: Seq<PinnedFolder>) -> Seq<PinnedFolderView> {
    s.map_values(|e: PinnedFolder| e@)
}

/// The textual fallback normalization of a path, used where the
/// filesystem cannot canonicalize it: trailing `/` dropped, and the
/// bare root for a path of nothing but `/`.
pub open spec fn normalize_spec(p: Seq<char>) -> Seq<char>
    decreases p.len(),
{
    if p.len() == 0 {
        seq!['/']
    } else if p.last() == '/' {
        normalize_spec(p.drop_last())
    } else {
        p
    }
}

/// Drops trailing slashes; a path of nothing but slashes is the root.
pub fn normalize_path(path: &str) -> (r: String)
    ensures
        r@ == normalize_spec(path@),
{
    let pv = str_to_chars(path);
    let mut b: usize = pv.len();
    proof {
        assert(path@.subrange(0, path@.len() as int) =~= path@);
    }
    while b > 0 && pv[b - 1] == '/'
        invariant
            b <= pv@.len(),
            pv@ == path@,
            normalize_spec(path@) == normalize_spec(path@.subrange(0, b as int)),
        decreases b,
    {
        proof {
            assert(path@.subrange(0, b as int).last() == path@[b - 1]);
            assert(path@.subrange(0, b as int).drop_last() =~= path@.subrange(0, b as int - 1));
        }
        b -= 1;
    }
    if b == 0 {
        proof {
            reveal_strlit("/");
            assert(path@.subrange(0, 0) =~= Seq::<char>::empty());
            assert("/"@ =~= seq!['/']);
        }
        return String::from_str("/");
    }
    let mut out: Vec<char> = Vec::new();
    let mut i: usize = 0;
    while i < b
        invariant
            i <= b <= pv@.len(),
            pv@ == path@,
            out@ == path@.subrange(0, i as int),
        decreases b - i,
    {
        out.push(pv[i]);
        i += 1;
        proof {
            assert(out@ =~= path@.subrange(0, i as int));
        }
    }
    proof {
        assert(path@.subrange(0, b as int).last() != '/');
    }
    chars_to_string(&out)
}

/// What one persisted record line carries: nothing for blank lines and
/// comments; otherwise the path before the first `|` and the display
/// name after it, or the whole line as a path with no name of its own.
pub open spec fn parse_record_spec(line: Seq<char>) -> Option<(Seq<char>, Option<Seq<char>>)> {
    let t = crate::config::trim_spec(line);
    if t.len() == 0 || t[0] == '#' {
        Option::None
    } else {
        match first_index_of(t, '|') {
            Option::None => Option::Some((t, Option::None)),
            Option::Some(k) => Option::Some(
                (
                    crate::config::trim_spec(t.subrange(0, k)),
                    Option::Some(crate::config::trim_spec(t.skip(k + 1))),
                ),
            ),
        }
    }
}

/// Reads one record line of the pinned-folder file.
pub fn parse_record_line(line: &str) -> (r: Option<(String, Option<String>)>)
    ensures
        match r {
            Some(p) => parse_record_spec(line@) == Option::Some(
                (
                    p.0@,
                    match p.1 {
                        Some(n) => Option::Some(n@),
                        None => Option::None,
                    },
                ),
            ),
            None => parse_record_spec(line@) is None,
        },
{
    let lv = str_to_chars(line);
    let t = crate::config::trim_exec(&lv);
    if t.len() == 0 || t[0] == '#' {
        return None;
    }
    match split_once_char(&t, '|') {
        None => Some((chars_to_string(&t), None)),
        Some((left, right)) => {
            proof {
                assert(left@ == t@.subrange(0, left@.len() as int));
            }
            let path = chars_to_string(&crate::config::trim_exec(&left));
            let name = chars_to_string(&crate::config::trim_exec(&right));
            Some((path, Some(name)))
        },
    }
}

/// One record as it is written back: `path|name` and a line break.
pub open spec fn render_record_spec(f: PinnedFolderView) -> Seq<char> {
    f.path + seq!['|'] + f.name + seq!['\n']
}

/// The persistent list of pinned folders, in pin order.
pub struct PinnedFolderStore {
    folders: Vec<PinnedFolder>,
}

impl View for PinnedFolderStore {
    type V = Seq<PinnedFolderView>;

    closed spec fn view(&self) -> Seq<PinnedFolderView> {
        folder_views(self.folders@)
    }
}

/// The position of a path in the store, if pinned.
pub open spec fn find_path(s: Seq<PinnedFolderView>, path: Seq<char>) -> Option<int>
    decreases s.len(),
{
    if s.len() == 0 {
        Option::None
    } else if s.first().path == path {
        Option::Some(0)
    } else {
        match find_path(s.drop_first(), path) {
            Option::None => Option::None,
            Option::Some(k) => Option::Some(k + 1),
        }
    }
}

/// Characterizes the found position.
proof fn lemma_find_path_at(s: Seq<PinnedFolderView>, path: Seq<char>, d: int)
    requires
        0 <= d < s.len(),
        s[d].path == path,
        forall|k: int| 0 <= k < d ==> s[k].path != path,
    ensures
        find_path(s, path) == Option::Some(d),
    decreases s.len(),
{
    if d > 0 {
        lemma_find_path_at(s.drop_first(), path, d - 1);
    }
}

/// When no entry carries the path, none is found.
proof fn lemma_find_path_none(s: Seq<PinnedFolderView>, path: Seq<char>)
    requires
        forall|k: int| 0 <= k < s.len() ==> s[k].path != path,
    ensures
        find_path(s, path) is None,
    decreases s.len(),
{
    if s.len() > 0 {
        lemma_find_path_none(s.drop_first(), path);
    }
}

impl PinnedFolderStore {
    /// An empty store. Loading the persisted records into it happens
    /// outside the library, one parsed record at a time.
    pub fn new() -> (r: Self)
        ensures
            r@.len() == 0,
    {
        let r = PinnedFolderStore { folders: Vec::new() };
        proof {
            assert(r@ =~= Seq::<PinnedFolderView>::empty());
        }
        r
    }

    /// How many folders are pinned.
    pub fn len(&self) -> (r: usize)
        ensures
            r == self@.len(),
    {
        proof {
            assert(self@.len() == self.folders@.len());
        }
        self.folders.len()
    }

    /// The folder at one position.
    pub fn get(&self, i: usize) -> (r: (String, String))
        requires
            i < self@.len(),
        ensures
            r.0@ == self@[i as int].path,
            r.1@ == self@[i as int].name,
    {
        proof {
            assert(self@.len() == self.folders@.len());
        }
        (self.folders[i].path.clone(), self.folders[i].name.clone())
    }

    /// Appends a folder, as loading a record or pinning anew does. The
    /// caller normalizes the path first.
    pub fn push(&mut self, path: String, name: String)
        ensures
            final(self)@ == old(self)@.push(PinnedFolderView { path: path@, name: name@ }),
    {
        let ghost pv = path@;
        let ghost nv = name@;
        self.folders.push(PinnedFolder { path, name });
        proof {
            assert(final(self)@ =~= old(self)@.push(PinnedFolderView { path: pv, name: nv }));
        }
    }

    /// The position of a path, if pinned.
    pub fn find_index(&self, path: &str) -> (r: Option<usize>)
        ensures
            match r {
                Some(i) => find_path(self@, path@) == Option::Some(i as int),
                None => find_path(self@, path@) is None,
            },
    {
        let n = self.folders.len();
        let mut i: usize = 0;
        while i < n
            invariant
                i <= n,
                n == self.folders@.len(),
                forall|k: int| 0 <= k < i ==> folder_views(self.folders@)[k].path != path@,
            decreases n - i,
        {
            if crate::text::chars_eq_str(&str_to_chars(self.folders[i].path.as_str()), path) {
                proof {
                    assert(folder_views(self.folders@)[i as int].path == path@);
                    lemma_find_path_at(self@, path@, i as int);
                }
                return Some(i);
            }
            proof {
                assert(folder_views(self.folders@)[i as int].path == self.folders@[i as int].path@);
            }
            i += 1;
        }
        proof {
            lemma_find_path_none(self@, path@);
        }
        None
    }

    /// Whether a path is pinned.
    pub fn is_pinned(&self, path: &str) -> (r: bool)
        ensures
            r == (find_path(self@, path@) is Some),
    {
        self.find_index(path).is_some()
    }

    /// Pins a path under a display name: appended when absent, untouched
    /// when already pinned.
    pub fn add(&mut self, path: String, name: String) -> (added: bool)
        ensures
            added == (find_path(old(self)@, path@) is None),
            added ==> final(self)@ == old(self)@.push(
                PinnedFolderView { path: path@, name: name@ },
            ),
            !added ==> final(self)@ == old(self)@,
    {
        if self.is_pinned(path.as_str()) {
            return false;
        }
        self.push(path, name);
        true
    }

    /// Unpins a path: its entry is removed when pinned; nothing happens
    /// otherwise, and the caller learns which.
    pub fn remove(&mut self, path: &str) -> (removed: bool)
        ensures
            removed == (find_path(old(self)@, path@) is Some),
            removed ==> final(self)@ == old(self)@.remove(
                find_path(old(self)@, path@).unwrap(),
            ),
            !removed ==> final(self)@ == old(self)@,
    {
        match self.find_index(path) {
            None => false,
            Some(i) => {
                proof {
                    lemma_find_path_in_bounds(self@, path@);
                }
                let ghost before = self.folders@;
                self.folders.remove(i);
                proof {
                    assert(final(self)@ =~= folder_views(before).remove(i as int));
                }
                true
            },
        }
    }

    /// Toggles a path's pin: pinned becomes unpinned and the other way
    /// round; the result says whether it is pinned afterwards.
    pub fn toggle_pin(&mut self, path: String, name: String) -> (now_pinned: bool)
        ensures
            now_pinned == (find_path(old(self)@, path@) is None),
            now_pinned ==> final(self)@ == old(self)@.push(
                PinnedFolderView { path: path@, name: name@ },
            ),
            !now_pinned ==> final(self)@ == old(self)@.remove(
                find_path(old(self)@, path@).unwrap(),
            ),
    {
        if self.is_pinned(path.as_str()) {
            self.remove(path.as_str());
            false
        } else {
            self.push(path, name);
            true
        }
    }

    /// Renames a pinned folder's display name; fails without change when
    /// the path is not pinned.
    pub fn rename(&mut self, path: &str, new_name: String) -> (renamed: bool)
        ensures
            renamed == (find_path(old(self)@, path@) is Some),
            renamed ==> final(self)@ == old(self)@.update(
                find_path(old(self)@, path@).unwrap(),
                PinnedFolderView {
                    path: old(self)@[find_path(old(self)@, path@).unwrap()].path,
                    name: new_name@,
                },
            ),
            !renamed ==> final(self)@ == old(self)@,
    {
        match self.find_index(path) {
            None => false,
            Some(i) => {
                proof {
                    lemma_find_path_in_bounds(self@, path@);
                }
                let ghost before = self.folders@;
                let entry = self.folders.remove(i);
                let kept_path = entry.path;
                self.folders.insert(i, PinnedFolder { path: kept_path, name: new_name });
                proof {
                    assert(final(self)@ =~= folder_views(before).update(
                        i as int,
                        PinnedFolderView {
                            path: folder_views(before)[i as int].path,
                            name: final(self).folders@[i as int].name@,
                        },
                    ));
                }
                true
            },
        }
    }

    /// Renders the whole store as the persisted file body: a heading
    /// comment, then one `path|name` record per folder, in order.
    pub fn render_records(&self) -> (r: String)
        ensures
            r@ == "# Blink pinned folders\n"@ + render_all(self@),
    {
        let mut out: Vec<char> = str_to_chars("# Blink pinned folders\n");
        let ghost head = "# Blink pinned folders\n"@;
        let n = self.folders.len();
        let mut i: usize = 0;
        proof {
            assert(self@.subrange(0, 0) =~= Seq::<PinnedFolderView>::empty());
            assert(out@ =~= head + render_all(self@.subrange(0, 0)));
        }
        while i < n
            invariant
                i <= n,
                n == self.folders@.len(),
                out@ == head + render_all(folder_views(self.folders@).subrange(0, i as int)),
            decreases n - i,
        {
            let pv = str_to_chars(self.folders[i].path.as_str());
            crate::file_ops::append_chars(&mut out, &pv);
            out.push('|');
            let nv = str_to_chars(self.folders[i].name.as_str());
            crate::file_ops::append_chars(&mut out, &nv);
            out.push('\n');
            i += 1;
            proof {
                let views = folder_views(self.folders@);
                assert(views.subrange(0, i as int).drop_last() =~= views.subrange(0, i as int - 1));
                assert(views.subrange(0, i as int).last() == views[i - 1]);
                assert(out@ =~= head + render_all(views.subrange(0, i as int)));
            }
        }
        proof {
            assert(folder_views(self.folders@).subrange(0, n as int) =~= self@);
        }
        chars_to_string(&out)
    }
}

/// The records of a whole store, concatenated.
pub open spec fn render_all(s: Seq<PinnedFolderView>) -> Seq<char>
    decreases s.len(),
{
    if s.len() == 0 {
        Seq::empty()
    } else {
        render_all(s.drop_last()) + render_record_spec(s.last())
    }
}

/// A found position lies in the store.
proof fn lemma_find_path_in_bounds(s: Seq<PinnedFolderView>, path: Seq<char>)
    ensures
        find_path(s, path) matches Option::Some(i) ==> 0 <= i < s.len() && s[i].path == path,
    decreases s.len(),
{
    if s.len() > 0 {
        lemma_find_path_in_bounds(s.drop_first(), path);
    }
}

} // verus!
