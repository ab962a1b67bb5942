//! File-operation bookkeeping: the shared progress aggregate a transfer
//! worker updates and a poller reads, byte/file totals computed before a
//! transfer, collision-avoiding destination naming, and the pure part of
//! rename. The byte moving itself is input/output and happens outside
//! the library; everything the engine decides or accumulates is here.
use vstd::prelude::*;

use crate::text::{chars_eq_str, chars_to_string, dec_rep, str_to_chars, u64_to_chars};

verus! {

/// The progress aggregate one paste shares between its worker (writer)
/// and the polling user interface (reader).
pub struct ProgressInfo {
    /// Name of the file being transferred at the moment.
    pub current_file: String,
    /// Bytes written so far, over all files.
    pub bytes_copied: u64,
    /// Bytes the whole batch holds, computed up front.
    pub total_bytes: u64,
    /// Files finished so far.
    pub files_copied: usize,
    /// Files the whole batch holds, computed up front.
    pub total_files: usize,
}

/// The mathematical value of a [`ProgressInfo`].
pub struct ProgressView {
    pub current_file: Seq<char>,
    pub bytes_copied: u64,
    pub total_bytes: u64,
    pub files_copied: usize,
    pub total_files: usize,
}

impl View for ProgressInfo {
    type V = ProgressView;

    open spec fn view(&self) -> ProgressView {
        ProgressView {
            current_file: self.current_file@,
            bytes_copied: self.bytes_copied,
            total_bytes: self.total_bytes,
            files_copied: self.files_copied,
            total_files: self.total_files,
        }
    }
}

impl ProgressView {
    /// The count of finished files never passes the announced total.
    pub open spec fn wf(self) -> bool {
        self.files_copied <= self.total_files
    }
}

impl ProgressInfo {
    /// A fresh aggregate for a batch of the given extent: nothing copied
    /// yet, no file underway.
    pub fn new(total_bytes: u64, total_files: usize) -> (r: Self)
        ensures
            r@.bytes_copied == 0,
            r@.files_copied == 0,
            r@.total_bytes == total_bytes,
            r@.total_files == total_files,
            r@.current_file.len() == 0,
            r@.wf(),
    {
        ProgressInfo {
            current_file: String::new(),
            bytes_copied: 0,
            total_bytes,
            files_copied: 0,
            total_files,
        }
    }

    /// Accounts one written chunk: the byte counter grows by the chunk
    /// length, saturating at the counter's capacity; nothing else moves.
    pub fn add_bytes(&mut self, n: u64)
        ensures
            final(self)@.bytes_copied == if old(self)@.bytes_copied + n <= u64::MAX {
                (old(self)@.bytes_copied + n) as u64
            } else {
                u64::MAX
            },
            final(self)@.bytes_copied >= old(self)@.bytes_copied,
            final(self)@.files_copied == old(self)@.files_copied,
            final(self)@.total_bytes == old(self)@.total_bytes,
            final(self)@.total_files == old(self)@.total_files,
            final(self)@.current_file == old(self)@.current_file,
            old(self)@.wf() ==> final(self)@.wf(),
    {
        if self.bytes_copied <= u64::MAX - n {
            self.bytes_copied = self.bytes_copied + n;
        } else {
            self.bytes_copied = u64::MAX;
        }
    }

    /// Accounts one finished file. The caller announces files only up to
    /// the total it stated.
    pub fn file_done(&mut self)
        requires
            old(self)@.files_copied < old(self)@.total_files,
        ensures
            final(self)@.files_copied == old(self)@.files_copied + 1,
            final(self)@.bytes_copied == old(self)@.bytes_copied,
            final(self)@.total_bytes == old(self)@.total_bytes,
            final(self)@.total_files == old(self)@.total_files,
            final(self)@.current_file == old(self)@.current_file,
            final(self)@.wf(),
    {
        self.files_copied = self.files_copied + 1;
    }

    /// Names the file now underway.
    pub fn set_current_file(&mut self, name: &str)
        ensures
            final(self)@.current_file == name@,
            final(self)@.bytes_copied == old(self)@.bytes_copied,
            final(self)@.files_copied == old(self)@.files_copied,
            final(self)@.total_bytes == old(self)@.total_bytes,
            final(self)@.total_files == old(self)@.total_files,
            old(self)@.wf() ==> final(self)@.wf(),
    {
        self.current_file = String::from_str(name);
    }

    /// Names the file underway only when none was named yet, as the
    /// single-file transfer path does.
    pub fn set_current_file_if_empty(&mut self, name: &str)
        ensures
            final(self)@.current_file == if old(self)@.current_file.len() == 0 {
                name@
            } else {
                old(self)@.current_file
            },
            final(self)@.bytes_copied == old(self)@.bytes_copied,
            final(self)@.files_copied == old(self)@.files_copied,
            final(self)@.total_bytes == old(self)@.total_bytes,
            final(self)@.total_files == old(self)@.total_files,
            old(self)@.wf() ==> final(self)@.wf(),
    {
        if self.current_file.as_str().is_empty() {
            self.current_file = String::from_str(name);
        }
    }

    /// Whether the batch is complete: every announced file finished.
    pub fn is_complete(&self) -> (r: bool)
        ensures
            r == (self@.files_copied >= self@.total_files),
    {
        self.files_copied >= self.total_files
    }
}

/// Everything a transfer worker ever does to the aggregate, as the
/// sampling side sees it.
pub enum ProgressOp {
    AddBytes(u64),
    FileDone,
    SetCurrentFile(Seq<char>),
}

/// One operation's effect on the aggregate's value, as the exec methods
/// implement it; a file is counted only below the announced total.
pub open spec fn progress_apply(p: ProgressView, op: ProgressOp) -> ProgressView {
    match op {
        ProgressOp::AddBytes(n) => ProgressView {
            bytes_copied: if p.bytes_copied + n <= u64::MAX {
                (p.bytes_copied + n) as u64
            } else {
                u64::MAX
            },
            ..p
        },
        ProgressOp::FileDone => {
            if p.files_copied < p.total_files {
                ProgressView { files_copied: (p.files_copied + 1) as usize, ..p }
            } else {
                p
            }
        },
        ProgressOp::SetCurrentFile(name) => ProgressView { current_file: name, ..p },
    }
}

/// The aggregate after a whole run of operations.
pub open spec fn progress_run(p: ProgressView, ops: Seq<ProgressOp>) -> ProgressView
    decreases ops.len(),
{
    if ops.len() == 0 {
        p
    } else {
        progress_run(progress_apply(p, ops.first()), ops.drop_first())
    }
}

/// Progress is monotone: over any run of worker operations, the byte and
/// file counters never decrease, the file counter never passes the
/// announced total once below it, and the totals stand still — so every
/// pair of samples a poller draws is ordered.
pub proof fn lemma_progress_monotone(p: ProgressView, ops: Seq<ProgressOp>)
    ensures
        progress_run(p, ops).bytes_copied >= p.bytes_copied,
        progress_run(p, ops).files_copied >= p.files_copied,
        progress_run(p, ops).total_bytes == p.total_bytes,
        progress_run(p, ops).total_files == p.total_files,
        p.wf() ==> progress_run(p, ops).wf(),
    decreases ops.len(),
{
    if ops.len() > 0 {
        lemma_progress_monotone(progress_apply(p, ops.first()), ops.drop_first());
    }
}

/// The sum of a batch's sizes, as an unbounded integer.
pub open spec fn sum_of(s: Seq<u64>) -> int
    decreases s.len(),
{
    if s.len() == 0 {
        0
    } else {
        sum_of(s.drop_last()) + s.last()
    }
}

/// Where a file name splits into stem and extension: the position of the
/// last `.` that is not the first character, or the whole length when
/// there is no such `.`. The extension, dot included, starts here.
pub open spec fn stem_len(s: Seq<char>) -> nat
    decreases s.len(),
{
    if s.len() <= 1 {
        s.len()
    } else if s.last() == '.' {
        (s.len() - 1) as nat
    } else {
        let p = stem_len(s.drop_last());
        if p == s.drop_last().len() {
            s.len()
        } else {
            p
        }
    }
}

/// The stem of a file name: what precedes the extension.
pub open spec fn stem_of(name: Seq<char>) -> Seq<char> {
    name.subrange(0, stem_len(name) as int)
}

/// The extension of a file name, leading dot included; empty when the
/// name has none.
pub open spec fn ext_part_of(name: Seq<char>) -> Seq<char> {
    name.skip(stem_len(name) as int)
}

/// When the last dot of `s` not in first position stands at `d`, the
/// stem ends there.
proof fn lemma_stem_len_at(s: Seq<char>, d: int)
    requires
        1 <= d < s.len(),
        s[d] == '.',
        forall|j: int| d < j < s.len() ==> s[j] != '.',
    ensures
        stem_len(s) == d,
    decreases s.len(),
{
    if d == s.len() - 1 {
    } else {
        assert(s.last() != '.');
        lemma_stem_len_at(s.drop_last(), d);
    }
}

/// When no dot stands anywhere but possibly first, the whole name is the
/// stem.
proof fn lemma_stem_len_none(s: Seq<char>)
    requires
        forall|j: int| 1 <= j < s.len() ==> s[j] != '.',
    ensures
        stem_len(s) == s.len(),
    decreases s.len(),
{
    if s.len() <= 1 {
    } else {
        assert(s.last() != '.');
        lemma_stem_len_none(s.drop_last());
    }
}

/// The name tried on collision-avoidance attempt `n`: the plain name for
/// the first attempt, then `stem (n)ext` for increasing `n`.
pub open spec fn candidate_name(stem: Seq<char>, ext: Seq<char>, n: nat) -> Seq<char> {
    if n == 0 {
        stem + ext
    } else {
        stem + seq![' ', '('] + dec_rep(n) + seq![')'] + ext
    }
}

/// Distinct attempts synthesize distinct names.
pub proof fn lemma_candidate_injective(stem: Seq<char>, ext: Seq<char>, a: nat, b: nat)
    requires
        candidate_name(stem, ext, a) == candidate_name(stem, ext, b),
    ensures
        a == b,
{
    crate::text::lemma_dec_rep_len(a);
    crate::text::lemma_dec_rep_len(b);
    if a == 0 && b != 0 {
        assert(candidate_name(stem, ext, a).len() == stem.len() + ext.len());
        assert(candidate_name(stem, ext, b).len() == stem.len() + 2 + dec_rep(b).len() + 1
            + ext.len());
    } else if a != 0 && b == 0 {
        assert(candidate_name(stem, ext, b).len() == stem.len() + ext.len());
        assert(candidate_name(stem, ext, a).len() == stem.len() + 2 + dec_rep(a).len() + 1
            + ext.len());
    } else if a != 0 && b != 0 {
        let da = dec_rep(a);
        let db = dec_rep(b);
        assert(candidate_name(stem, ext, a).len() == stem.len() + 2 + da.len() + 1 + ext.len());
        assert(candidate_name(stem, ext, b).len() == stem.len() + 2 + db.len() + 1 + ext.len());
        assert(da.len() == db.len());
        let lo = stem.len() as int + 2;
        assert(da =~= candidate_name(stem, ext, a).subrange(lo, lo + da.len()));
        assert(db =~= candidate_name(stem, ext, b).subrange(lo, lo + db.len()));
        crate::text::lemma_dec_rep_injective(a, b);
    }
}

/// The views of a sequence of names.
pub open spec fn name_views(s: Seq<String>) -> Seq<Seq<char>> {
    s.map_values(|x: String| x@)
}

/// When the first `n` candidate names all occur among the existing
/// names, there are at least `n` existing names: the attempt counter can
/// never pass the directory's size.
proof fn lemma_candidate_bound(stem: Seq<char>, ext: Seq<char>, ex: Seq<Seq<char>>, n: nat)
    requires
        forall|m: nat| m < n ==> ex.contains(#[trigger] candidate_name(stem, ext, m)),
    ensures
        n <= ex.len(),
{
    broadcast use vstd::seq_lib::seq_to_set_is_finite;
    broadcast use vstd::set::group_set_axioms;

    let cs = Seq::new(n, |i: int| candidate_name(stem, ext, i as nat));
    assert forall|i: int, j: int| 0 <= i < cs.len() && 0 <= j < cs.len() && i != j implies cs[i]
        != cs[j] by {
        if cs[i] == cs[j] {
            lemma_candidate_injective(stem, ext, i as nat, j as nat);
        }
    }
    assert(cs.no_duplicates());
    cs.unique_seq_to_set();
    assert forall|x: Seq<char>| cs.to_set().contains(x) implies ex.to_set().contains(x) by {
        assert(cs.contains(x));
        let i = choose|i: int| 0 <= i < cs.len() && cs[i] == x;
        assert(ex.contains(candidate_name(stem, ext, i as nat)));
    }
    assert(cs.to_set().subset_of(ex.to_set()));
    vstd::set_lib::lemma_len_subset(cs.to_set(), ex.to_set());
    ex.lemma_cardinality_of_set();
}

/// Appends a copy of `v`.
pub fn append_chars(out: &mut Vec<char>, v: &Vec<char>)
    ensures
        final(out)@ == old(out)@ + v@,
{
    let mut i: usize = 0;
    while i < v.len()
        invariant
            i <= v@.len(),
            out@ == old(out)@ + v@.subrange(0, i as int),
        decreases v@.len() - i,
    {
        out.push(v[i]);
        i += 1;
        proof {
            assert(out@ =~= old(out)@ + v@.subrange(0, i as int));
        }
    }
    proof {
        assert(old(out)@ + v@.subrange(0, v@.len() as int) =~= old(out)@ + v@);
    }
}

/// Builds the candidate name of attempt `n`.
fn build_candidate(stem: &Vec<char>, ext: &Vec<char>, n: u64) -> (c: Vec<char>)
    ensures
        c@ == candidate_name(stem@, ext@, n as nat),
{
    let mut c: Vec<char> = Vec::new();
    append_chars(&mut c, stem);
    if n > 0 {
        c.push(' ');
        c.push('(');
        let digits = u64_to_chars(n);
        append_chars(&mut c, &digits);
        c.push(')');
    }
    append_chars(&mut c, ext);
    proof {
        assert(c@ =~= candidate_name(stem@, ext@, n as nat));
    }
    c
}

/// Tests whether a candidate occurs among the existing names.
fn names_contain(existing: &Vec<String>, cand: &Vec<char>) -> (r: bool)
    ensures
        r == name_views(existing@).contains(cand@),
{
    let mut i: usize = 0;
    while i < existing.len()
        invariant
            i <= existing@.len(),
            forall|k: int| 0 <= k < i ==> name_views(existing@)[k] != cand@,
        decreases existing@.len() - i,
    {
        if chars_eq_str(cand, existing[i].as_str()) {
            proof {
                assert(name_views(existing@)[i as int] == cand@);
            }
            return true;
        }
        i += 1;
    }
    proof {
        assert(!name_views(existing@).contains(cand@));
    }
    false
}

/// The file-operation engine's pure accounting; the filesystem calls
/// around these computations happen outside the library.
pub struct FileOperations;

impl FileOperations {
    /// Totals a batch for progress tracking, given the byte size of each
    /// regular file the batch holds (directories contribute their
    /// descendant files): the byte total, saturating at the counter's
    /// capacity, and the file count.
    pub fn calculate_total_size(sizes: &Vec<u64>) -> (r: (u64, usize))
        ensures
            r.0 == if sum_of(sizes@) <= u64::MAX {
                sum_of(sizes@)
            } else {
                u64::MAX as int
            },
            r.1 == sizes@.len(),
    {
        let mut total: u64 = 0;
        let mut i: usize = 0;
        proof {
            assert(sizes@.subrange(0, 0) =~= Seq::<u64>::empty());
        }
        while i < sizes.len()
            invariant
                i <= sizes@.len(),
                total == if sum_of(sizes@.subrange(0, i as int)) <= u64::MAX {
                    sum_of(sizes@.subrange(0, i as int))
                } else {
                    u64::MAX as int
                },
            decreases sizes@.len() - i,
        {
            let n = sizes[i];
            if total <= u64::MAX - n {
                total = total + n;
            } else {
                total = u64::MAX;
            }
            i += 1;
            proof {
                assert(sizes@.subrange(0, i as int).drop_last() =~= sizes@.subrange(
                    0,
                    i as int - 1,
                ));
                assert(sizes@.subrange(0, i as int).last() == sizes@[i - 1]);
            }
        }
        proof {
            assert(sizes@.subrange(0, sizes@.len() as int) =~= sizes@);
        }
        (total, sizes.len())
    }

    /// Picks the destination name for pasting `name` where the names in
    /// `existing` are taken: the first attempt in the order plain name,
    /// `stem (1)ext`, `stem (2)ext`, … that is not taken. In particular
    /// a free plain name is kept unchanged, and nothing existing is ever
    /// named.
    pub fn next_free_name(name: &str, existing: &Vec<String>) -> (r: String)
        ensures
            !name_views(existing@).contains(r@),
            exists|n: nat|
                r@ == candidate_name(stem_of(name@), ext_part_of(name@), n) && (forall|m: nat|
                    m < n ==> name_views(existing@).contains(
                        #[trigger] candidate_name(stem_of(name@), ext_part_of(name@), m),
                    )),
    {
        let ghost ex = name_views(existing@);
        let nv = str_to_chars(name);
        let ln = nv.len();
        // locate the split between stem and extension
        let mut k: usize = ln;
        while k > 1 && nv[k - 1] != '.'
            invariant
                k <= ln,
                ln == nv@.len(),
                forall|j: int| k <= j < ln ==> nv@[j] != '.',
            decreases k,
        {
            k -= 1;
        }
        let split: usize = if k > 1 {
            k - 1
        } else {
            ln
        };
        proof {
            if k > 1 {
                assert(nv@[k - 1] == '.');
                lemma_stem_len_at(nv@, k - 1);
            } else {
                lemma_stem_len_none(nv@);
            }
            assert(split == stem_len(name@));
        }
        let mut stem: Vec<char> = Vec::new();
        let mut ext: Vec<char> = Vec::new();
        let mut i: usize = 0;
        while i < split
            invariant
                split <= ln,
                ln == nv@.len(),
                i <= split,
                stem@ == nv@.subrange(0, i as int),
            decreases split - i,
        {
            stem.push(nv[i]);
            i += 1;
            proof {
                assert(stem@ =~= nv@.subrange(0, i as int));
            }
        }
        let mut j: usize = split;
        while j < ln
            invariant
                split <= j <= ln,
                ln == nv@.len(),
                ext@ == nv@.subrange(split as int, j as int),
            decreases ln - j,
        {
            ext.push(nv[j]);
            j += 1;
            proof {
                assert(ext@ =~= nv@.subrange(split as int, j as int));
            }
        }
        proof {
            assert(stem@ =~= stem_of(name@));
            assert(nv@.subrange(split as int, ln as int) =~= name@.skip(split as int));
            assert(ext@ =~= ext_part_of(name@));
        }
        let el = existing.len();
        let mut n: u64 = 0;
        loop
            invariant
                ex == name_views(existing@),
                ex.len() == el,
                stem@ == stem_of(name@),
                ext@ == ext_part_of(name@),
                forall|m: nat|
                    m < n ==> ex.contains(#[trigger] candidate_name(stem@, ext@, m)),
                n <= ex.len(),
            decreases ex.len() - n,
        {
            let cand = build_candidate(&stem, &ext, n);
            if !names_contain(existing, &cand) {
                let r = chars_to_string(&cand);
                proof {
                    assert(r@ == candidate_name(stem_of(name@), ext_part_of(name@), n as nat) && (
                    forall|m: nat|
                        m < n as nat ==> name_views(existing@).contains(
                            #[trigger] candidate_name(stem_of(name@), ext_part_of(name@), m),
                        )));
                }
                return r;
            }
            proof {
                assert forall|m: nat| m < n + 1 implies ex.contains(
                    #[trigger] candidate_name(stem@, ext@, m),
                ) by {
                    if m == n as nat {
                        assert(ex.contains(cand@));
                    }
                }
                lemma_candidate_bound(stem@, ext@, ex, (n + 1) as nat);
            }
            n += 1;
        }
    }

    /// Where a rename within the same parent directory lands: the path's
    /// parent joined with the new name. `None` when the path has no
    /// parent (the root, or an empty path), which callers surface as an
    /// invalid-input error.
    pub fn rename_destination(path: &str, new_name: &str) -> (r: Option<String>)
        ensures
            match r {
                Some(s) => parent_of(path@) is Some && s@ == rename_dest_spec(path@, new_name@),
                None => parent_of(path@) is None,
            },
    {
        let pv = str_to_chars(path);
        let ln = pv.len();
        let mut k: usize = ln;
        while k > 0 && pv[k - 1] != '/'
            invariant
                k <= ln,
                ln == pv@.len(),
                forall|j: int| k <= j < ln ==> pv@[j] != '/',
            decreases k,
        {
            k -= 1;
        }
        if k == 0 {
            // no separator: a bare name has the empty parent, nothing has none
            proof {
                lemma_last_slash_none(path@);
            }
            if ln == 0 {
                return None;
            }
            proof {
                assert(parent_of(path@) == Some(Seq::<char>::empty()));
            }
            return Some(String::from_str(new_name));
        }
        proof {
            assert(pv@[k - 1] == '/');
            lemma_last_slash_at(path@, k - 1);
        }
        if k == 1 {
            // separator in first position: the parent is the root, unless
            // the path is the root itself
            if ln == 1 {
                proof {
                    assert(parent_of(path@) is None);
                }
                return None;
            }
            let mut out: Vec<char> = Vec::new();
            out.push('/');
            let joined = crate::scanner::join_path_exec("/", new_name);
            proof {
                reveal_strlit("/");
                assert("/"@ =~= seq!['/']);
                assert(parent_of(path@) == Some(seq!['/']));
                assert(rename_dest_spec(path@, new_name@) == crate::scanner::join_path(
                    seq!['/'],
                    new_name@,
                ));
            }
            return Some(joined);
        }
        // separator at k - 1 >= 1: parent is everything before it
        let mut parent: Vec<char> = Vec::new();
        let mut i: usize = 0;
        while i < k - 1
            invariant
                1 <= k <= ln,
                ln == pv@.len(),
                i <= k - 1,
                parent@ == pv@.subrange(0, i as int),
            decreases k - i,
        {
            parent.push(pv[i]);
            i += 1;
            proof {
                assert(parent@ =~= pv@.subrange(0, i as int));
            }
        }
        let parent_s = chars_to_string(&parent);
        proof {
            assert(parent@ =~= path@.subrange(0, k - 1));
            assert(parent_of(path@) == Some(path@.subrange(0, k - 1)));
        }
        Some(crate::scanner::join_path_exec(parent_s.as_str(), new_name))
    }
}

/// The index of the last `/` of a path, when it has one.
pub open spec fn last_slash(p: Seq<char>) -> Option<int>
    decreases p.len(),
{
    if p.len() == 0 {
        None
    } else if p.last() == '/' {
        Some(p.len() - 1)
    } else {
        last_slash(p.drop_last())
    }
}

/// The parent of a path: what precedes its last `/`; the empty parent
/// for a bare name; the root `/` keeps paths directly under it; the root
/// itself and the empty path have none.
pub open spec fn parent_of(p: Seq<char>) -> Option<Seq<char>> {
    match last_slash(p) {
        None => if p.len() == 0 {
            None
        } else {
            Some(Seq::empty())
        },
        Some(k) => if k == 0 {
            if p.len() == 1 {
                None
            } else {
                Some(seq!['/'])
            }
        } else {
            Some(p.subrange(0, k))
        },
    }
}

/// Where a rename of `p` to `new_name` lands: the new name under `p`'s
/// parent.
pub open spec fn rename_dest_spec(p: Seq<char>, new_name: Seq<char>) -> Seq<char>
    recommends
        parent_of(p) is Some,
{
    let parent = parent_of(p).unwrap();
    if parent.len() == 0 {
        new_name
    } else {
        crate::scanner::join_path(parent, new_name)
    }
}

/// When no `/` occurs in `p`, it has no last slash.
pub proof fn lemma_last_slash_none(p: Seq<char>)
    requires
        forall|j: int| 0 <= j < p.len() ==> p[j] != '/',
    ensures
        last_slash(p) is None,
    decreases p.len(),
{
    if p.len() > 0 {
        lemma_last_slash_none(p.drop_last());
    }
}

/// When a `/` stands at `d` and none after it, `d` is the last slash.
pub proof fn lemma_last_slash_at(p: Seq<char>, d: int)
    requires
        0 <= d < p.len(),
        p[d] == '/',
        forall|j: int| d < j < p.len() ==> p[j] != '/',
    ensures
        last_slash(p) == Some(d),
    decreases p.len(),
{
    if d == p.len() - 1 {
    } else {
        assert(p.last() != '/');
        lemma_last_slash_at(p.drop_last(), d);
    }
}

} // verus!
