//! The paste worker's state machine. A paste runs on a worker thread
//! that must stop at every name conflict and ask the user interface for
//! a resolution, one conflict outstanding at a time, and must announce
//! its end exactly once. The machine here holds that protocol: the
//! worker's thread loop performs filesystem work and drives the machine,
//! and every ordering rule — no second conflict before the first is
//! resolved, a cancel abandons every remaining file, one terminal event
//! — is a contract or a proved law of the transition function.
use vstd::prelude::*;

use crate::clipboard::{file_name_of, ClipboardMode};
use crate::scanner::{join_path, join_path_exec};

verus! {

/// The user's answer to one name conflict.
pub enum ConflictResolution {
    /// Write over the existing destination.
    Replace,
    /// Try again under this name.
    Rename(String),
    /// Abandon the whole remaining paste.
    Cancel,
}

/// The mathematical value of a [`ConflictResolution`].
pub enum ResolutionView {
    Replace,
    Rename(Seq<char>),
    Cancel,
}

impl View for ConflictResolution {
    type V = ResolutionView;

    open spec fn view(&self) -> ResolutionView {
        match self {
            ConflictResolution::Replace => ResolutionView::Replace,
            ConflictResolution::Rename(n) => ResolutionView::Rename(n@),
            ConflictResolution::Cancel => ResolutionView::Cancel,
        }
    }
}

/// What the worker tells the user interface.
pub enum PasteEvent {
    /// The named destination already exists; a resolution is owed.
    Conflict(String),
    /// The paste is over; always the last event, sent exactly once.
    Finished(ClipboardMode),
}

/// The mathematical value of a [`PasteEvent`].
pub enum EventView {
    Conflict(Seq<char>),
    Finished(ClipboardMode),
}

impl View for PasteEvent {
    type V = EventView;

    open spec fn view(&self) -> EventView {
        match self {
            PasteEvent::Conflict(p) => EventView::Conflict(p@),
            PasteEvent::Finished(m) => EventView::Finished(*m),
        }
    }
}

/// Where the worker stands for the file under its index.
pub enum WorkerPhase {
    /// Ready to take up the next path.
    Ready,
    /// A candidate destination is named; its existence must be checked.
    Checking(String),
    /// A conflict event went out for this candidate; exactly one
    /// resolution is owed before anything else happens.
    AwaitingResolution(String),
    /// The transfer to this destination may proceed.
    Transferring(String),
    /// Every file is handled or the paste was cancelled; the finished
    /// event is owed.
    Finishing,
    /// The finished event went out; nothing follows.
    Done,
}

/// The mathematical value of a [`WorkerPhase`].
pub enum PhaseView {
    Ready,
    Checking(Seq<char>),
    AwaitingResolution(Seq<char>),
    Transferring(Seq<char>),
    Finishing,
    Done,
}

impl View for WorkerPhase {
    type V = PhaseView;

    open spec fn view(&self) -> PhaseView {
        match self {
            WorkerPhase::Ready => PhaseView::Ready,
            WorkerPhase::Checking(c) => PhaseView::Checking(c@),
            WorkerPhase::AwaitingResolution(c) => PhaseView::AwaitingResolution(c@),
            WorkerPhase::Transferring(c) => PhaseView::Transferring(c@),
            WorkerPhase::Finishing => PhaseView::Finishing,
            WorkerPhase::Done => PhaseView::Done,
        }
    }
}

/// One paste worker: the snapshot it was started with and where it
/// stands.
pub struct PasteWorker {
    paths: Vec<String>,
    mode: ClipboardMode,
    dest_dir: String,
    idx: usize,
    phase: WorkerPhase,
}

/// The mathematical value of a [`PasteWorker`].
pub struct WorkerView {
    pub paths: Seq<Seq<char>>,
    pub mode: ClipboardMode,
    pub dest_dir: Seq<char>,
    pub idx: int,
    pub phase: PhaseView,
}

impl View for PasteWorker {
    type V = WorkerView;

    closed spec fn view(&self) -> WorkerView {
        WorkerView {
            paths: crate::file_ops::name_views(self.paths@),
            mode: self.mode,
            dest_dir: self.dest_dir@,
            idx: self.idx as int,
            phase: self.phase@,
        }
    }
}

/// What the worker's thread loop feeds the machine: its own progress
/// and the answers that arrive from the user interface.
pub enum WorkerInput {
    /// Take up the next path.
    Start,
    /// The candidate's existence check came back.
    Exists(bool),
    /// A resolution arrived from the user interface.
    Resolution(ResolutionView),
    /// The transfer of the current file ended, well or badly.
    TransferDone,
    /// Ask for the terminal event.
    Finish,
}

impl WorkerView {
    /// The index stays within the snapshot while any file is underway.
    pub open spec fn wf(self) -> bool {
        &&& 0 <= self.idx <= self.paths.len()
        &&& (self.phase is Checking || self.phase is AwaitingResolution || self.phase
            is Transferring) ==> self.idx < self.paths.len()
    }

    /// Whether a conflict is outstanding: a resolution is owed and the
    /// worker may not move on or ask again until it arrives.
    pub open spec fn awaiting(self) -> bool {
        self.phase is AwaitingResolution
    }
}

/// The machine's transition function: the state after an input and the
/// event it emits, if any. Inputs that do not belong to the current
/// phase change nothing and emit nothing.
pub open spec fn worker_step(s: WorkerView, inp: WorkerInput) -> (WorkerView, Option<EventView>) {
    match inp {
        WorkerInput::Start => {
            if s.phase is Ready {
                if s.idx >= s.paths.len() {
                    (WorkerView { phase: PhaseView::Finishing, ..s }, Option::None)
                } else {
                    match file_name_of(s.paths[s.idx]) {
                        Option::None => (WorkerView { idx: s.idx + 1, ..s }, Option::None),
                        Option::Some(name) => (
                            WorkerView {
                                phase: PhaseView::Checking(join_path(s.dest_dir, name)),
                                ..s
                            },
                            Option::None,
                        ),
                    }
                }
            } else {
                (s, Option::None)
            }
        },
        WorkerInput::Exists(b) => {
            if s.phase matches PhaseView::Checking(c) {
                let c = s.phase->Checking_0;
                if b {
                    (
                        WorkerView { phase: PhaseView::AwaitingResolution(c), ..s },
                        Option::Some(EventView::Conflict(c)),
                    )
                } else {
                    (WorkerView { phase: PhaseView::Transferring(c), ..s }, Option::None)
                }
            } else {
                (s, Option::None)
            }
        },
        WorkerInput::Resolution(r) => {
            if s.phase matches PhaseView::AwaitingResolution(c) {
                let c = s.phase->AwaitingResolution_0;
                match r {
                    ResolutionView::Replace => (
                        WorkerView { phase: PhaseView::Transferring(c), ..s },
                        Option::None,
                    ),
                    ResolutionView::Rename(n) => (
                        WorkerView {
                            phase: PhaseView::Checking(join_path(s.dest_dir, n)),
                            ..s
                        },
                        Option::None,
                    ),
                    ResolutionView::Cancel => (
                        WorkerView { phase: PhaseView::Finishing, ..s },
                        Option::None,
                    ),
                }
            } else {
                (s, Option::None)
            }
        },
        WorkerInput::TransferDone => {
            if s.phase is Transferring {
                (WorkerView { idx: s.idx + 1, phase: PhaseView::Ready, ..s }, Option::None)
            } else {
                (s, Option::None)
            }
        },
        WorkerInput::Finish => {
            if s.phase is Finishing {
                (
                    WorkerView { phase: PhaseView::Done, ..s },
                    Option::Some(EventView::Finished(s.mode)),
                )
            } else {
                (s, Option::None)
            }
        },
    }
}

impl PasteWorker {
    /// A worker over a snapshot of clipboard paths, pasting into
    /// `dest_dir` with the given mode, standing before the first path.
    pub fn new(paths: Vec<String>, mode: ClipboardMode, dest_dir: String) -> (r: Self)
        ensures
            r@.paths == crate::file_ops::name_views(paths@),
            r@.mode == mode,
            r@.dest_dir == dest_dir@,
            r@.idx == 0,
            r@.phase is Ready,
            r@.wf(),
    {
        PasteWorker { paths, mode, dest_dir, idx: 0, phase: WorkerPhase::Ready }
    }

    /// Takes up the next path: names the candidate destination to check,
    /// skips a path without a usable name, or turns to finishing when
    /// none remain.
    pub fn start_file(&mut self) -> (r: Option<String>)
        requires
            old(self)@.phase is Ready,
            old(self)@.wf(),
        ensures
            final(self)@ == worker_step(old(self)@, WorkerInput::Start).0,
            worker_step(old(self)@, WorkerInput::Start).1 is None,
            final(self)@.wf(),
            match r {
                Some(c) => final(self)@.phase == PhaseView::Checking(c@),
                None => final(self)@.phase is Finishing || final(self)@.phase is Ready,
            },
    {
        if self.idx >= self.paths.len() {
            self.phase = WorkerPhase::Finishing;
            return None;
        }
        match crate::clipboard::file_name_exec(self.paths[self.idx].as_str()) {
            None => {
                self.idx = self.idx + 1;
                None
            },
            Some(name) => {
                let candidate = join_path_exec(self.dest_dir.as_str(), name.as_str());
                let out = candidate.clone();
                self.phase = WorkerPhase::Checking(candidate);
                Some(out)
            },
        }
    }

    /// Learns whether the candidate destination exists: a conflict event
    /// to forward when it does, clearance to transfer when it does not.
    pub fn on_exists(&mut self, exists: bool) -> (r: Option<PasteEvent>)
        requires
            old(self)@.phase is Checking,
            old(self)@.wf(),
        ensures
            ({
                let (s2, out) = worker_step(old(self)@, WorkerInput::Exists(exists));
                &&& final(self)@ == s2
                &&& final(self)@.wf()
                &&& match r {
                    Some(e) => out == Option::Some(e@),
                    None => out is None,
                }
            }),
    {
        let c = match &self.phase {
            WorkerPhase::Checking(c) => c.clone(),
            _ => {
                proof {
                    assert(false);
                }
                String::new()
            },
        };
        if exists {
            let out = PasteEvent::Conflict(c.clone());
            self.phase = WorkerPhase::AwaitingResolution(c);
            Some(out)
        } else {
            self.phase = WorkerPhase::Transferring(c);
            None
        }
    }

    /// Receives one resolution. Replace clears the standing candidate
    /// for transfer; a rename names a fresh candidate to check; cancel
    /// abandons every remaining file. A resolution that arrives when
    /// none is owed changes nothing, so a duplicate answer cannot
    /// desynchronize the files that follow.
    pub fn on_resolution(&mut self, r: &ConflictResolution)
        requires
            old(self)@.wf(),
        ensures
            final(self)@ == worker_step(old(self)@, WorkerInput::Resolution(r@)).0,
            worker_step(old(self)@, WorkerInput::Resolution(r@)).1 is None,
            final(self)@.wf(),
    {
        let c = match &self.phase {
            WorkerPhase::AwaitingResolution(c) => c.clone(),
            _ => {
                return ;
            },
        };
        match r {
            ConflictResolution::Replace => {
                self.phase = WorkerPhase::Transferring(c);
            },
            ConflictResolution::Rename(n) => {
                self.phase = WorkerPhase::Checking(
                    join_path_exec(self.dest_dir.as_str(), n.as_str()),
                );
            },
            ConflictResolution::Cancel => {
                self.phase = WorkerPhase::Finishing;
            },
        }
    }

    /// What to transfer now: the source path, the destination, and the
    /// mode that decides between copy and move.
    pub fn current_transfer(&self) -> (r: (String, String, ClipboardMode))
        requires
            self@.phase is Transferring,
            self@.wf(),
        ensures
            r.0@ == self@.paths[self@.idx],
            self@.phase == PhaseView::Transferring(r.1@),
            r.2 == self@.mode,
    {
        let dest = match &self.phase {
            WorkerPhase::Transferring(d) => d.clone(),
            _ => {
                proof {
                    assert(false);
                }
                String::new()
            },
        };
        (self.paths[self.idx].clone(), dest, self.mode)
    }

    /// The current transfer ended — well or badly; an error skips only
    /// this file. The worker moves to the next path.
    pub fn on_transfer_done(&mut self)
        requires
            old(self)@.phase is Transferring,
            old(self)@.wf(),
        ensures
            final(self)@ == worker_step(old(self)@, WorkerInput::TransferDone).0,
            worker_step(old(self)@, WorkerInput::TransferDone).1 is None,
            final(self)@.wf(),
            final(self)@.phase is Ready,
            final(self)@.idx == old(self)@.idx + 1,
    {
        let n = self.paths.len();
        proof {
            assert(self@.paths.len() == self.paths@.len());
            assert(self.idx < n);
        }
        self.idx = self.idx + 1;
        self.phase = WorkerPhase::Ready;
    }

    /// Emits the terminal event. It can be drawn only out of the
    /// finishing phase, and leaves the worker done for good: over any
    /// run, exactly one finished event goes out.
    pub fn finish_event(&mut self) -> (r: PasteEvent)
        requires
            old(self)@.phase is Finishing,
            old(self)@.wf(),
        ensures
            final(self)@ == worker_step(old(self)@, WorkerInput::Finish).0,
            worker_step(old(self)@, WorkerInput::Finish).1 == Option::Some(r@),
            final(self)@.wf(),
            final(self)@.phase is Done,
            r@ == EventView::Finished(old(self)@.mode),
    {
        self.phase = WorkerPhase::Done;
        PasteEvent::Finished(self.mode)
    }

    /// Whether the terminal event is owed.
    pub fn is_finishing(&self) -> (r: bool)
        ensures
            r == (self@.phase is Finishing),
    {
        match &self.phase {
            WorkerPhase::Finishing => true,
            _ => false,
        }
    }

    /// Whether the worker is done for good.
    pub fn is_done(&self) -> (r: bool)
        ensures
            r == (self@.phase is Done),
    {
        match &self.phase {
            WorkerPhase::Done => true,
            _ => false,
        }
    }
}

/// Single-outstanding conflicts: the machine emits a conflict event only
/// out of a checking phase — never while one is already outstanding —
/// and while a resolution is owed, nothing but a resolution moves the
/// machine at all.
pub proof fn lemma_single_outstanding(s: WorkerView, inp: WorkerInput)
    ensures
        (worker_step(s, inp).1 matches Option::Some(e) && e is Conflict) ==> !s.awaiting()
            && s.phase is Checking,
        s.awaiting() && !(inp is Resolution) ==> worker_step(s, inp) == (s, Option::None::<
            EventView,
        >),
{
}

/// A resolution that nobody asked for is ignored entirely: sending two
/// answers for one conflict leaves every later file untouched.
pub proof fn lemma_extra_resolution_ignored(s: WorkerView, r: ResolutionView)
    requires
        !s.awaiting(),
    ensures
        worker_step(s, WorkerInput::Resolution(r)) == (s, Option::None::<EventView>),
{
}

/// Cancelling an outstanding conflict turns the machine to finishing at
/// once.
pub proof fn lemma_cancel_finishes(s: WorkerView)
    requires
        s.awaiting(),
    ensures
        worker_step(s, WorkerInput::Resolution(ResolutionView::Cancel)).0.phase is Finishing,
{
}

/// The machine's outputs over a whole run of inputs, with its final
/// state.
pub open spec fn worker_run(s: WorkerView, inputs: Seq<WorkerInput>) -> (WorkerView, Seq<
    EventView,
>)
    decreases inputs.len(),
{
    if inputs.len() == 0 {
        (s, Seq::empty())
    } else {
        let (s2, out) = worker_step(s, inputs.first());
        let (s3, rest) = worker_run(s2, inputs.drop_first());
        match out {
            Option::Some(e) => (s3, seq![e] + rest),
            Option::None => (s3, rest),
        }
    }
}

/// Once the machine is finishing or done, one step keeps it so, never
/// transfers, never asks about a conflict, and emits the finished event
/// only on the single move from finishing to done.
pub proof fn lemma_terminal_step(s: WorkerView, inp: WorkerInput)
    requires
        s.phase is Finishing || s.phase is Done,
    ensures
        worker_step(s, inp).0.phase is Finishing || worker_step(s, inp).0.phase is Done,
        !(worker_step(s, inp).0.phase is Transferring),
        !(worker_step(s, inp).1 matches Option::Some(e) && e is Conflict),
        (worker_step(s, inp).1 matches Option::Some(e) && e is Finished) ==> s.phase is Finishing
            && worker_step(s, inp).0.phase is Done,
{
}

/// Cancel aborts the remainder: from a finishing or done state — where a
/// cancelled paste stands — no run of inputs ever reaches a transfer, no
/// further conflict is asked, and at most one finished event goes out:
/// one at most when finishing, none at all when already done.
pub proof fn lemma_cancel_aborts_remainder(s: WorkerView, inputs: Seq<WorkerInput>)
    requires
        s.phase is Finishing || s.phase is Done,
    ensures
        forall|k: int|
            0 <= k < worker_run(s, inputs).1.len() ==> !(#[trigger] worker_run(s, inputs).1[k]
                is Conflict),
        s.phase is Finishing ==> count_finished(worker_run(s, inputs).1) <= 1,
        s.phase is Done ==> count_finished(worker_run(s, inputs).1) == 0,
    decreases inputs.len(),
{
    if inputs.len() > 0 {
        let (s2, out) = worker_step(s, inputs.first());
        lemma_terminal_step(s, inputs.first());
        lemma_cancel_aborts_remainder(s2, inputs.drop_first());
        let rest = worker_run(s2, inputs.drop_first()).1;
        match out {
            Option::Some(e) => {
                assert(worker_run(s, inputs).1 == seq![e] + rest);
                assert(e is Finished);
                assert(s2.phase is Done);
                assert(count_finished(seq![e] + rest) == 1 + count_finished(rest)) by {
                    assert((seq![e] + rest).first() == e);
                    assert((seq![e] + rest).drop_first() =~= rest);
                }
            },
            Option::None => {
                if s.phase is Done {
                    assert(s2.phase is Done);
                }
            },
        }
    }
}

/// How many finished events a run emitted.
pub open spec fn count_finished(events: Seq<EventView>) -> int
    decreases events.len(),
{
    if events.len() == 0 {
        0
    } else {
        (if events.first() is Finished {
            1int
        } else {
            0
        }) + count_finished(events.drop_first())
    }
}

/// How many conflict events a run emitted.
pub open spec fn count_conflicts(events: Seq<EventView>) -> int
    decreases events.len(),
{
    if events.len() == 0 {
        0
    } else {
        (if events.first() is Conflict {
            1int
        } else {
            0
        }) + count_conflicts(events.drop_first())
    }
}

/// How many resolutions a run of inputs carried.
pub open spec fn count_resolutions(inputs: Seq<WorkerInput>) -> int
    decreases inputs.len(),
{
    if inputs.len() == 0 {
        0
    } else {
        (if inputs.first() is Resolution {
            1int
        } else {
            0
        }) + count_resolutions(inputs.drop_first())
    }
}

/// Conflicts are strictly serialized: every conflict beyond the first
/// had to be preceded by a resolution, so over any run the machine never
/// emits more conflicts than it received resolutions for, plus the one
/// it may have outstanding — and with one already outstanding, none at
/// all without a resolution first.
pub proof fn lemma_conflicts_are_serialized(s: WorkerView, inputs: Seq<WorkerInput>)
    ensures
        count_conflicts(worker_run(s, inputs).1) <= count_resolutions(inputs) + (if s.awaiting() {
            0int
        } else {
            1
        }),
    decreases inputs.len(),
{
    if inputs.len() > 0 {
        let (s2, out) = worker_step(s, inputs.first());
        lemma_conflicts_are_serialized(s2, inputs.drop_first());
        let rest = worker_run(s2, inputs.drop_first()).1;
        match out {
            Option::Some(e) => {
                assert(worker_run(s, inputs).1 == seq![e] + rest);
                assert(count_conflicts(seq![e] + rest) == (if e is Conflict {
                    1int
                } else {
                    0
                }) + count_conflicts(rest)) by {
                    assert((seq![e] + rest).first() == e);
                    assert((seq![e] + rest).drop_first() =~= rest);
                }
                if e is Conflict {
                    assert(!s.awaiting() && s2.awaiting());
                }
            },
            Option::None => {
            },
        }
    }
}

} // verus!
