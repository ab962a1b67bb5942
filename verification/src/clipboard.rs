//! Clipboard state and paste planning. The clipboard holds a mode and a
//! snapshot of source paths; pasting turns them into transfer items
//! whose destination names avoid every collision by the `stem (n)ext`
//! rule. Carrying the bytes is the file-operation engine's work outside
//! the library; the planning and the clipboard's state changes are here.
use vstd::prelude::*;

use crate::file_ops::{
    candidate_name, ext_part_of, last_slash, name_views, stem_of, FileOperations,
};
use crate::scanner::{join_path, join_path_exec};

verus! {

/// What a paste will do with the clipboard's paths.
#[derive(Debug, Clone, Copy, PartialEq, Eq, Structural)]
pub enum ClipboardMode {
    /// Nothing held.
    Empty,
    /// Sources are copied and the clipboard stays; pasting repeats.
    Copy,
    /// Sources are moved and a completed paste empties the clipboard.
    Cut,
}

/// The clipboard: a mode and the paths it was filled with.
pub struct Clipboard {
    paths: Vec<String>,
    mode: ClipboardMode,
}

/// The mathematical value of a [`Clipboard`].
pub struct ClipboardView {
    pub paths: Seq<Seq<char>>,
    pub mode: ClipboardMode,
}

impl View for Clipboard {
    type V = ClipboardView;

    closed spec fn view(&self) -> ClipboardView {
        ClipboardView { paths: name_views(self.paths@), mode: self.mode }
    }
}

/// One planned transfer of a paste: which path to read and where to
/// write it.
pub struct PasteItem {
    pub source: String,
    pub dest: String,
}

/// The mathematical value of a [`PasteItem`].
pub struct PasteItemView {
    pub source: Seq<char>,
    pub dest: Seq<char>,
}

impl View for PasteItem {
    type V = PasteItemView;

    open spec fn view(&self) -> PasteItemView {
        PasteItemView { source: self.source@, dest: self.dest@ }
    }
}

/// The views of a sequence of paste items.
pub open spec fn item_views(s: Seq<PasteItem>) -> Seq<PasteItemView> {
    s.map_values(|e: PasteItem| e@)
}

/// Why a paste plan stopped early.
#[derive(Debug, Clone, Copy, PartialEq, Eq, Structural)]
pub enum PasteError {
    /// A clipboard path has no usable final component.
    InvalidFileName,
}

/// The final component of a path: what follows its last `/`, or all of
/// it when it has none. A path with nothing after its last `/`, and the
/// empty path, have none.
pub open spec fn file_name_of(p: Seq<char>) -> Option<Seq<char>> {
    match last_slash(p) {
        Option::None => if p.len() == 0 {
            Option::None
        } else {
            Option::Some(p)
        },
        Option::Some(k) => if k == p.len() - 1 {
            Option::None
        } else {
            Option::Some(p.skip(k + 1))
        },
    }
}

/// A destination name is the free candidate of rank `n` for source name
/// `src_name` against the taken names `taken`: itself free, with every
/// earlier candidate taken.
pub open spec fn chosen_with(
    name: Seq<char>,
    src_name: Seq<char>,
    taken: Seq<Seq<char>>,
    n: nat,
) -> bool {
    &&& !taken.contains(name)
    &&& name == candidate_name(stem_of(src_name), ext_part_of(src_name), n)
    &&& forall|m: nat|
        m < n ==> taken.contains(
            #[trigger] candidate_name(stem_of(src_name), ext_part_of(src_name), m),
        )
}

/// A destination name is right for source name `src_name` against the
/// taken names `taken` when it is free, and is the first free name in
/// the candidate order (plain name, then `stem (n)ext` for growing `n`).
pub open spec fn fresh_minimal(name: Seq<char>, src_name: Seq<char>, taken: Seq<Seq<char>>) -> bool {
    exists|n: nat| chosen_with(name, src_name, taken, n)
}

/// An emptied clipboard.
pub open spec fn cleared_clipboard() -> ClipboardView {
    ClipboardView { paths: Seq::empty(), mode: ClipboardMode::Empty }
}

/// Extracts the final component of a path.
pub fn file_name_exec(p: &str) -> (r: Option<String>)
    ensures
        match r {
            Some(s) => file_name_of(p@) == Option::Some(s@),
            None => file_name_of(p@) is None,
        },
{
    let pv = crate::text::str_to_chars(p);
    let ln = pv.len();
    let mut k: usize = ln;
    while k > 0 && pv[k - 1] != '/'
        invariant
            k <= ln,
            ln == pv@.len(),
            forall|j: int| k <= j < ln ==> pv@[j] != '/',
        decreases k,
    {
        k -= 1;
    }
    if k == 0 {
        proof {
            crate::file_ops::lemma_last_slash_none(p@);
        }
        if ln == 0 {
            return None;
        }
        let mut out: Vec<char> = Vec::new();
        crate::file_ops::append_chars(&mut out, &pv);
        proof {
            assert(out@ =~= p@);
        }
        return Some(crate::text::chars_to_string(&out));
    }
    proof {
        assert(pv@[k - 1] == '/');
        crate::file_ops::lemma_last_slash_at(p@, k - 1);
    }
    if k == ln {
        return None;
    }
    let mut out: Vec<char> = Vec::new();
    let mut j: usize = k;
    while j < ln
        invariant
            k <= j <= ln,
            ln == pv@.len(),
            out@ == pv@.subrange(k as int, j as int),
        decreases ln - j,
    {
        out.push(pv[j]);
        j += 1;
        proof {
            assert(out@ =~= pv@.subrange(k as int, j as int));
        }
    }
    proof {
        assert(out@ =~= p@.skip(k as int));
    }
    Some(crate::text::chars_to_string(&out))
}

impl Clipboard {
    /// An empty clipboard holding nothing.
    pub fn new() -> (r: Self)
        ensures
            r@ == cleared_clipboard(),
    {
        let r = Clipboard { paths: Vec::new(), mode: ClipboardMode::Empty };
        proof {
            assert(r@.paths =~= Seq::<Seq<char>>::empty());
        }
        r
    }

    /// Fills the clipboard for copying: both fields replaced at once.
    pub fn copy(&mut self, paths: Vec<String>)
        ensures
            final(self)@.paths == name_views(paths@),
            final(self)@.mode == ClipboardMode::Copy,
    {
        self.paths = paths;
        self.mode = ClipboardMode::Copy;
    }

    /// Fills the clipboard for cutting: both fields replaced at once.
    pub fn cut(&mut self, paths: Vec<String>)
        ensures
            final(self)@.paths == name_views(paths@),
            final(self)@.mode == ClipboardMode::Cut,
    {
        self.paths = paths;
        self.mode = ClipboardMode::Cut;
    }

    /// Whether the clipboard holds no paths.
    pub fn is_empty(&self) -> (r: bool)
        ensures
            r == (self@.paths.len() == 0),
    {
        self.paths.len() == 0
    }

    /// The clipboard's mode.
    pub fn mode(&self) -> (r: ClipboardMode)
        ensures
            r == self@.mode,
    {
        self.mode
    }

    /// A copy of the held paths.
    pub fn get_paths(&self) -> (r: Vec<String>)
        ensures
            name_views(r@) == self@.paths,
    {
        let mut out: Vec<String> = Vec::new();
        let mut i: usize = 0;
        while i < self.paths.len()
            invariant
                i <= self.paths@.len(),
                out@.len() == i,
                forall|k: int| 0 <= k < i ==> out@[k]@ == self.paths@[k]@,
            decreases self.paths@.len() - i,
        {
            out.push(self.paths[i].clone());
            i += 1;
        }
        proof {
            assert(name_views(out@) =~= self@.paths);
        }
        out
    }

    /// Plans a paste of the held paths into the directory `destination`,
    /// which currently holds the names in `existing`. Items come in
    /// clipboard order; each source's destination name is the first
    /// collision-free candidate against the names already taken — the
    /// directory's own and the plan's earlier choices — so nothing
    /// existing is overwritten and no two planned items collide.
    /// Planning stops at the first path without a usable final
    /// component. A cut clipboard empties itself once the whole plan is
    /// made; otherwise the clipboard is untouched.
    #[verifier::rlimit(100)]
    pub fn paste(&mut self, destination: &str, existing: &Vec<String>) -> (r: (
        Vec<PasteItem>,
        Option<PasteError>,
    ))
        ensures
            ({
                let cb = old(self)@;
                let items = item_views(r.0@);
                let active = cb.mode != ClipboardMode::Empty && cb.paths.len() > 0;
                &&& !active ==> items.len() == 0 && r.1 is None && final(self)@ == cb
                &&& active ==> {
                    &&& items.len() <= cb.paths.len()
                    &&& forall|j: int|
                        0 <= j < items.len() ==> (#[trigger] items[j]).source == cb.paths[j]
                    &&& forall|j: int|
                        0 <= j < items.len() ==> file_name_of(#[trigger] cb.paths[j]) is Some
                    &&& (r.1 is None ==> items.len() == cb.paths.len())
                    &&& (r.1 is Some ==> items.len() < cb.paths.len() && file_name_of(
                        cb.paths[items.len() as int],
                    ) is None && r.1 == Option::Some(PasteError::InvalidFileName))
                    &&& exists|chosen: Seq<Seq<char>>|
                        chosen.len() == items.len() && (forall|j: int|
                            0 <= j < items.len() ==> (#[trigger] items[j]).dest == join_path(
                                destination@,
                                chosen[j],
                            ) && fresh_minimal(
                                chosen[j],
                                file_name_of(cb.paths[j]).unwrap(),
                                name_views(existing@) + chosen.subrange(0, j),
                            ))
                    &&& final(self)@ == if cb.mode == ClipboardMode::Cut && r.1 is None {
                        cleared_clipboard()
                    } else {
                        cb
                    }
                }
            }),
    {
        if self.mode == ClipboardMode::Empty || self.paths.len() == 0 {
            return (Vec::new(), None);
        }
        let ghost exn = name_views(existing@);
        let mut taken: Vec<String> = Vec::new();
        let mut t: usize = 0;
        while t < existing.len()
            invariant
                t <= existing@.len(),
                taken@.len() == t,
                forall|k: int| 0 <= k < t ==> taken@[k]@ == existing@[k]@,
            decreases existing@.len() - t,
        {
            taken.push(existing[t].clone());
            t += 1;
        }
        proof {
            assert(name_views(taken@) =~= exn);
            assert(exn + Seq::<Seq<char>>::empty() =~= exn);
        }
        let mut items: Vec<PasteItem> = Vec::new();
        let ghost mut chosen: Seq<Seq<char>> = Seq::empty();
        let ghost mut counters: Seq<nat> = Seq::empty();
        let mut err: Option<PasteError> = None;
        let mut i: usize = 0;
        while i < self.paths.len() && err.is_none()
            invariant
                self@ == old(self)@,
                exn == name_views(existing@),
                i <= self@.paths.len(),
                items@.len() == i,
                chosen.len() == i,
                counters.len() == i,
                name_views(taken@) == exn + chosen,
                forall|j: int|
                    0 <= j < i ==> (#[trigger] item_views(items@)[j]).source == self@.paths[j],
                forall|j: int| 0 <= j < i ==> file_name_of(#[trigger] self@.paths[j]) is Some,
                forall|j: int|
                    0 <= j < i ==> (#[trigger] item_views(items@)[j]).dest == join_path(
                        destination@,
                        chosen[j],
                    ),
                forall|j: int|
                    0 <= j < i ==> chosen_with(
                        #[trigger] chosen[j],
                        file_name_of(self@.paths[j]).unwrap(),
                        exn + chosen.subrange(0, j),
                        counters[j],
                    ),
                err is Some ==> i < self@.paths.len() && file_name_of(self@.paths[i as int])
                    is None && err == Option::Some(PasteError::InvalidFileName),
            decreases self@.paths.len() - i, (if err.is_none() {
                1int
            } else {
                0
            }),
        {
            let looked_up = file_name_exec(self.paths[i].as_str());
            if looked_up.is_none() {
                err = Some(PasteError::InvalidFileName);
            } else {
            let fname = looked_up.unwrap();
            let dest_name = FileOperations::next_free_name(fname.as_str(), &taken);
            let dest = join_path_exec(destination, dest_name.as_str());
            let ghost items_before = items@;
            let ghost chosen_before = chosen;
            let ghost counters_before = counters;
            let ghost taken_before = taken@;
            let ghost nw = choose|n: nat|
                dest_name@ == candidate_name(stem_of(fname@), ext_part_of(fname@), n) && (forall|
                    m: nat,
                |
                    m < n ==> name_views(taken_before).contains(
                        #[trigger] candidate_name(stem_of(fname@), ext_part_of(fname@), m),
                    ));
            proof {
                assert(chosen_with(dest_name@, fname@, name_views(taken_before), nw));
            }
            items.push(PasteItem { source: self.paths[i].clone(), dest });
            proof {
                chosen = chosen.push(dest_name@);
                counters = counters.push(nw);
            }
            taken.push(dest_name);
            i += 1;
            proof {
                assert(taken@ == taken_before.push(dest_name));
                assert(name_views(taken_before).len() == taken_before.len());
                assert(taken_before.len() == exn.len() + chosen_before.len());
                assert(chosen == chosen_before.push(dest_name@));
                assert(taken@.len() == taken_before.len() + 1);
                assert(name_views(taken@).len() == taken@.len());
                assert((exn + chosen).len() == taken@.len());
                assert forall|k: int| 0 <= k < taken@.len() implies #[trigger] name_views(
                    taken@,
                )[k] == (exn + chosen)[k] by {
                    assert(name_views(taken@)[k] == taken@[k]@);
                    if k < exn.len() {
                        assert(taken@[k] == taken_before[k]);
                        assert(name_views(taken_before)[k] == taken_before[k]@);
                        assert(name_views(taken_before)[k] == (exn + chosen_before)[k]);
                        assert((exn + chosen_before)[k] == exn[k]);
                        assert((exn + chosen)[k] == exn[k]);
                    } else if k < taken_before.len() {
                        assert(taken@[k] == taken_before[k]);
                        assert(name_views(taken_before)[k] == taken_before[k]@);
                        assert(name_views(taken_before)[k] == (exn + chosen_before)[k]);
                        assert((exn + chosen_before)[k] == chosen_before[k - exn.len()]);
                        assert(chosen[k - exn.len()] == chosen_before[k - exn.len()]);
                        assert((exn + chosen)[k] == chosen[k - exn.len()]);
                    } else {
                        assert(taken@[k] == dest_name);
                        assert(k == exn.len() + chosen.len() - 1);
                        assert((exn + chosen)[k] == chosen[chosen.len() - 1]);
                        assert(chosen[chosen.len() - 1] == dest_name@);
                    }
                }
                assert(name_views(taken@) =~= exn + chosen);
                assert(chosen.subrange(0, i as int - 1) =~= chosen_before);
                assert forall|j: int| 0 <= j < i implies (#[trigger] item_views(items@)[j]).dest
                    == join_path(destination@, chosen[j]) by {
                    if j < i - 1 {
                        assert(item_views(items@)[j] == item_views(items_before)[j]);
                    } else {
                        assert(item_views(items@)[j] == items@[j]@);
                        assert(items@[j]@.dest == dest@);
                        assert(chosen[j] == dest_name@);
                    }
                }
                assert forall|j: int| 0 <= j < i implies chosen_with(
                    #[trigger] chosen[j],
                    file_name_of(self@.paths[j]).unwrap(),
                    exn + chosen.subrange(0, j),
                    counters[j],
                ) by {
                    if j < i - 1 {
                        assert(chosen[j] == chosen_before[j]);
                        assert(counters[j] == counters_before[j]);
                        assert(chosen.subrange(0, j) =~= chosen_before.subrange(0, j));
                        assert(chosen_with(
                            chosen_before[j],
                            file_name_of(self@.paths[j]).unwrap(),
                            exn + chosen_before.subrange(0, j),
                            counters_before[j],
                        ));
                    } else {
                        assert(chosen.subrange(0, j) =~= chosen_before);
                        assert(chosen[j] == dest_name@);
                        assert(counters[j] == nw);
                        assert(file_name_of(self@.paths[j]) == Option::Some(fname@));
                        assert(name_views(taken_before) == exn + chosen_before);
                        assert(chosen_with(dest_name@, fname@, exn + chosen_before, nw));
                    }
                }
                assert forall|j: int| 0 <= j < i implies (#[trigger] item_views(items@)[j]).source
                    == self@.paths[j] by {
                    if j < i - 1 {
                        assert(item_views(items@)[j] == item_views(items_before)[j]);
                    } else {
                        assert(item_views(items@)[j] == items@[j]@);
                    }
                }
            }
            }
        }
        proof {
            let items_v = item_views(items@);
            assert forall|j: int| 0 <= j < items_v.len() implies (#[trigger] items_v[j]).dest
                == join_path(destination@, chosen[j]) && fresh_minimal(
                chosen[j],
                file_name_of(old(self)@.paths[j]).unwrap(),
                name_views(existing@) + chosen.subrange(0, j),
            ) by {
                assert(chosen_with(
                    chosen[j],
                    file_name_of(old(self)@.paths[j]).unwrap(),
                    exn + chosen.subrange(0, j),
                    counters[j],
                ));
            }
            assert(chosen.len() == items_v.len() && (forall|j: int|
                0 <= j < items_v.len() ==> (#[trigger] items_v[j]).dest == join_path(
                    destination@,
                    chosen[j],
                ) && fresh_minimal(
                    chosen[j],
                    file_name_of(old(self)@.paths[j]).unwrap(),
                    name_views(existing@) + chosen.subrange(0, j),
                )));
        }
        if err.is_none() && self.mode == ClipboardMode::Cut {
            self.paths = Vec::new();
            self.mode = ClipboardMode::Empty;
            proof {
                assert(self@.paths =~= Seq::<Seq<char>>::empty());
            }
        }
        (items, err)
    }

    /// Empties the clipboard.
    pub fn clear(&mut self)
        ensures
            final(self)@ == cleared_clipboard(),
    {
        self.paths = Vec::new();
        self.mode = ClipboardMode::Empty;
        proof {
            assert(final(self)@.paths =~= Seq::<Seq<char>>::empty());
        }
    }
}

} // verus!
