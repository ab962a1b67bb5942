//! The directory load controller. Every request to show a directory is
//! tagged with a fresh generation number; scans run in the background
//! and may return out of order, and a result is applied only when its
//! generation is still the newest. A slow stale scan can therefore never
//! overwrite the listing of a directory the user has since moved on
//! from.
use vstd::prelude::*;

use crate::scanner::{views_of, FileEntry, FileEntryView};

verus! {

/// The controller: the live generation, the path on show, and the
/// entries the view holds.
pub struct DirectoryLoader {
    current_generation: u64,
    current_path: String,
    entries: Vec<FileEntry>,
}

/// The mathematical value of a [`DirectoryLoader`].
pub struct LoaderView {
    pub current_generation: u64,
    pub current_path: Seq<char>,
    pub entries: Seq<FileEntryView>,
}

impl View for DirectoryLoader {
    type V = LoaderView;

    closed spec fn view(&self) -> LoaderView {
        LoaderView {
            current_generation: self.current_generation,
            current_path: self.current_path@,
            entries: views_of(self.entries@),
        }
    }
}

/// What dispatching a load does: the view empties, the path turns to the
/// requested one, and the generation grows by one; the new generation is
/// the ticket the scan carries.
pub open spec fn dispatch_spec(s: LoaderView, path: Seq<char>) -> (LoaderView, u64)
    recommends
        s.current_generation < u64::MAX,
{
    let g = (s.current_generation + 1) as u64;
    (
        LoaderView { current_generation: g, current_path: path, entries: Seq::empty() },
        g,
    )
}

/// What a returning scan does: its result replaces the entries only when
/// its ticket equals the live generation; a stale result changes
/// nothing.
pub open spec fn complete_spec(s: LoaderView, g: u64, result: Seq<FileEntryView>) -> (
    LoaderView,
    bool,
) {
    if g == s.current_generation {
        (LoaderView { entries: result, ..s }, true)
    } else {
        (s, false)
    }
}

impl DirectoryLoader {
    /// A controller before any load: generation zero, nothing on show.
    pub fn new() -> (r: Self)
        ensures
            r@.current_generation == 0,
            r@.current_path.len() == 0,
            r@.entries.len() == 0,
    {
        let r = DirectoryLoader {
            current_generation: 0,
            current_path: String::new(),
            entries: Vec::new(),
        };
        proof {
            assert(r@.entries =~= Seq::<FileEntryView>::empty());
        }
        r
    }

    /// Requests a load of `path`: clears the view, advances the
    /// generation and returns the ticket the scan must come back with.
    pub fn dispatch(&mut self, path: String) -> (g: u64)
        requires
            old(self)@.current_generation < u64::MAX,
        ensures
            (final(self)@, g) == dispatch_spec(old(self)@, path@),
    {
        self.current_generation = self.current_generation + 1;
        self.current_path = path;
        self.entries = Vec::new();
        proof {
            assert(self@.entries =~= Seq::<FileEntryView>::empty());
            assert(self@ == dispatch_spec(old(self)@, self.current_path@).0);
        }
        self.current_generation
    }

    /// Hands in a finished scan carrying ticket `g`: the entries are
    /// applied if and only if the ticket is still the live generation.
    pub fn on_scan_complete(&mut self, g: u64, result: Vec<FileEntry>) -> (applied: bool)
        ensures
            (final(self)@, applied) == complete_spec(old(self)@, g, views_of(result@)),
            applied == (g == old(self)@.current_generation),
    {
        if g == self.current_generation {
            self.entries = result;
            true
        } else {
            false
        }
    }

    /// The live generation.
    pub fn current_generation(&self) -> (r: u64)
        ensures
            r == self@.current_generation,
    {
        self.current_generation
    }

    /// A copy of the entries on show.
    pub fn entries_snapshot(&self) -> (r: Vec<FileEntry>)
        ensures
            views_of(r@) == self@.entries,
    {
        let mut out: Vec<FileEntry> = Vec::new();
        let mut i: usize = 0;
        while i < self.entries.len()
            invariant
                i <= self.entries@.len(),
                out@.len() == i,
                forall|k: int| 0 <= k < i ==> out@[k]@ == self.entries@[k]@,
            decreases self.entries@.len() - i,
        {
            out.push(self.entries[i].clone());
            i += 1;
        }
        proof {
            assert(views_of(out@) =~= self@.entries);
        }
        out
    }

    /// How many entries the view holds.
    pub fn entry_count(&self) -> (r: usize)
        ensures
            r == self@.entries.len(),
    {
        proof {
            assert(self@.entries.len() == self.entries@.len());
        }
        self.entries.len()
    }
}

/// Generation discard: when a second load is dispatched before the first
/// scan returns, the first scan's result is discarded — the view can
/// only ever reflect the newest request. The second scan's own result is
/// still applied when it returns first.
pub proof fn lemma_stale_scan_discarded(
    s: LoaderView,
    p1: Seq<char>,
    p2: Seq<char>,
    r1: Seq<FileEntryView>,
    r2: Seq<FileEntryView>,
)
    requires
        s.current_generation + 2 <= u64::MAX,
    ensures
        ({
            let (s1, g1) = dispatch_spec(s, p1);
            let (s2, g2) = dispatch_spec(s1, p2);
            &&& !complete_spec(s2, g1, r1).1
            &&& complete_spec(s2, g1, r1).0 == s2
            &&& complete_spec(s2, g2, r2).1
            &&& complete_spec(s2, g2, r2).0.entries == r2
            &&& complete_spec(complete_spec(s2, g2, r2).0, g1, r1).0.entries == r2
        }),
{
}

} // verus!
