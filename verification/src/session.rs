//! The debugging session: the stepper, the captured execution trace, the
//! live and hit breakpoint collections, and the decisions of the free-run
//! loop.
//!
//! The host process owns the loop itself — it is the only party that can
//! advance the machine — but every decision inside it is made here: when a
//! breakpoint matches, when a `Finish` request fires, and when the loop
//! halts.

use vstd::pervasive::VecAdditionalExecFns;
use vstd::prelude::*;

use crate::breakpoint::{
    spec_bp_matches, spec_matched, spec_retained, Breakpoint, BreakpointEnv, BreakpointType,
    BreakpointView,
};
use crate::stacktrace::{CallStackView, FrameView, LocationView};
use crate::stepper::{DebugExecutor, ExecutionError, StepError, StepOutcome};
use crate::trace::ExecutionTrace;

verus! {

/// How the textual front end interprets keystrokes.
#[derive(Debug, Clone, Copy, PartialEq, Eq, Structural)]
pub enum InputMode {
    Normal,
    Insert,
    Command,
}

impl Default for InputMode {
    fn default() -> (r: Self)
        ensures
            r == InputMode::Normal,
    {
        InputMode::Normal
    }
}

/// An unrecoverable session failure.
#[derive(Debug, Clone, Copy, PartialEq, Eq, Structural)]
pub enum SessionError {
    /// Every breakpoint identifier is taken by a live or hit breakpoint:
    /// the bounded identifier space is exhausted.
    BreakpointIdsExhausted,
}

impl SessionError {
    /// A human-readable description of the failure.
    pub fn message(&self) -> (r: &'static str)
        ensures
            r@ =~= "unable to allocate a breakpoint id: too many breakpoints"@,
    {
        "unable to allocate a breakpoint id: too many breakpoints"
    }
}

/// The mathematical values of a list of breakpoints.
pub open spec fn bp_views(s: Seq<Breakpoint>) -> Seq<BreakpointView> {
    Seq::new(s.len(), |i: int| s[i]@)
}

/// Whether some breakpoint of `s` holds the identifier `id`.
pub open spec fn spec_id_in(s: Seq<BreakpointView>, id: u8) -> bool {
    exists|i: int| 0 <= i < s.len() && (#[trigger] s[i]).id == id
}

/// All identifiers in `s` are distinct.
pub open spec fn spec_ids_unique(s: Seq<BreakpointView>) -> bool {
    forall|i: int, j: int|
        0 <= i < j < s.len() ==> (#[trigger] s[i]).id != (#[trigger] s[j]).id
}

/// How many distinct identifiers the breakpoints of `live` and `hit`
/// hold between them.
pub open spec fn spec_held_ids(live: Seq<BreakpointView>, hit: Seq<BreakpointView>) -> int {
    count_trues(State::marks_of(live + hit, (live + hit).len() as int))
}

/// How many entries of `s` are true.
pub open spec fn count_trues(s: Seq<bool>) -> int
    decreases s.len(),
{
    if s.len() == 0 {
        0
    } else {
        count_trues(s.drop_last()) + (if s.last() {
            1int
        } else {
            0int
        })
    }
}

proof fn lemma_count_trues_bounds(s: Seq<bool>)
    ensures
        0 <= count_trues(s) <= s.len(),
    decreases s.len(),
{
    if s.len() > 0 {
        lemma_count_trues_bounds(s.drop_last());
    }
}

/// Setting one entry to true raises the count by at most one.
proof fn lemma_count_trues_update(s: Seq<bool>, i: int)
    requires
        0 <= i < s.len(),
    ensures
        count_trues(s.update(i, true)) == count_trues(s) + (if s[i] {
            0int
        } else {
            1int
        }),
    decreases s.len(),
{
    if s.len() > 0 {
        if i == s.len() - 1 {
            assert(s.update(i, true).drop_last() =~= s.drop_last());
        } else {
            assert(s.update(i, true).drop_last() =~= s.drop_last().update(i, true));
            lemma_count_trues_update(s.drop_last(), i);
        }
    }
}

/// A sequence with fewer trues than entries has a false entry.
proof fn lemma_count_trues_lt_has_false(s: Seq<bool>)
    requires
        count_trues(s) < s.len(),
    ensures
        exists|i: int| 0 <= i < s.len() && !(#[trigger] s[i]),
    decreases s.len(),
{
    if s.len() > 0 {
        if !s.last() {
            assert(!s[s.len() - 1]);
        } else {
            lemma_count_trues_lt_has_false(s.drop_last());
            let i = choose|i: int| 0 <= i < s.drop_last().len() && !(#[trigger] s.drop_last()[i]);
            assert(!s[i]);
        }
    }
}

/// A sequence whose entries are all true has as many trues as entries.
proof fn lemma_count_trues_all_true(s: Seq<bool>)
    requires
        forall|k: int| 0 <= k < s.len() ==> (#[trigger] s[k]),
    ensures
        count_trues(s) == s.len(),
    decreases s.len(),
{
    if s.len() > 0 {
        lemma_count_trues_all_true(s.drop_last());
    }
}

/// The debugging session's state: the stepper, the trace captured by a
/// separate full run, the first fault if one occurred, and the breakpoint
/// collections.
pub struct State {
    /// The stepper driving the interactive run.
    pub executor: DebugExecutor,
    /// The trace of a completed shadow run, for historical memory reads.
    pub execution_trace: Option<ExecutionTrace>,
    /// The first fault the machine reported, kept for post-mortem
    /// inspection.
    pub execution_failed: Option<ExecutionError>,
    /// How the front end interprets keystrokes.
    pub input_mode: InputMode,
    /// The live breakpoints.
    pub breakpoints: Vec<Breakpoint>,
    /// Breakpoints that have matched; one-shot ones land here when
    /// consumed, persistent ones are recorded here on each hit. Their
    /// identifiers stay reserved.
    pub breakpoints_hit: Vec<Breakpoint>,
    /// Whether the free-run loop is halted.
    pub stopped: bool,
}

impl State {
    /// Identifiers are unique among the live breakpoints. (The hit list
    /// may hold a copy of a persistent breakpoint for every match it
    /// scored.)
    pub open spec fn wf(self) -> bool {
        spec_ids_unique(bp_views(self.breakpoints@))
    }

    /// A session around a fresh stepper: no breakpoints, no trace, halted.
    pub fn new(executor: DebugExecutor) -> (r: State)
        ensures
            r.executor == executor,
            r.execution_trace is None,
            r.execution_failed is None,
            r.input_mode == InputMode::Normal,
            r.breakpoints@ =~= Seq::<Breakpoint>::empty(),
            r.breakpoints_hit@ =~= Seq::<Breakpoint>::empty(),
            r.stopped,
            r.wf(),
    {
        let r = State {
            executor,
            execution_trace: None,
            execution_failed: None,
            input_mode: InputMode::Normal,
            breakpoints: Vec::new(),
            breakpoints_hit: Vec::new(),
            stopped: true,
        };
        proof {
            assert(bp_views(r.breakpoints@) =~= Seq::<BreakpointView>::empty());
        }
        r
    }

    /// Whether a live or hit breakpoint holds `id`.
    fn id_used(&self, id: u8) -> (r: bool)
        ensures
            r == (spec_id_in(bp_views(self.breakpoints@), id) || spec_id_in(
                bp_views(self.breakpoints_hit@),
                id,
            )),
    {
        let mut i: usize = 0;
        while i < self.breakpoints.len()
            invariant
                i <= self.breakpoints@.len(),
                forall|k: int| 0 <= k < i ==> (#[trigger] bp_views(self.breakpoints@)[k]).id != id,
            decreases self.breakpoints@.len() - i,
        {
            if self.breakpoints[i].id == id {
                assert(bp_views(self.breakpoints@)[i as int].id == id);
                return true;
            }
            i = i + 1;
        }
        let mut j: usize = 0;
        while j < self.breakpoints_hit.len()
            invariant
                j <= self.breakpoints_hit@.len(),
                forall|k: int|
                    0 <= k < j ==> (#[trigger] bp_views(self.breakpoints_hit@)[k]).id != id,
            decreases self.breakpoints_hit@.len() - j,
        {
            if self.breakpoints_hit[j].id == id {
                assert(bp_views(self.breakpoints_hit@)[j as int].id == id);
                return true;
            }
            j = j + 1;
        }
        false
    }

    /// Allocate the lowest identifier no live or hit breakpoint holds.
    /// Fails exactly when 255 distinct identifiers are already held: the
    /// bounded identifier space admits no more concurrently
    /// distinguishable breakpoints. (Repeated hit-list copies of one
    /// persistent breakpoint hold a single identifier.)
    fn next_breakpoint_id(&self) -> (r: Result<u8, SessionError>)
        ensures
            r is Err <==> spec_held_ids(
                bp_views(self.breakpoints@),
                bp_views(self.breakpoints_hit@),
            ) >= 255,
            r matches Ok(id) ==> {
                &&& !spec_id_in(bp_views(self.breakpoints@), id)
                &&& !spec_id_in(bp_views(self.breakpoints_hit@), id)
                &&& forall|k: int|
                    0 <= k < id ==> #[trigger] spec_id_in(bp_views(self.breakpoints@), k as u8)
                        || spec_id_in(bp_views(self.breakpoints_hit@), k as u8)
            },
    {
        let ghost all = bp_views(self.breakpoints@) + bp_views(self.breakpoints_hit@);
        let mut marks: Vec<bool> = Vec::new();
        let mut i: usize = 0;
        while i < 256
            invariant
                i <= 256,
                marks@.len() == i,
                forall|k: int| 0 <= k < i ==> !(#[trigger] marks@[k]),
            decreases 256 - i,
        {
            marks.push(false);
            i = i + 1;
        }
        proof {
            assert(marks@ =~= Self::marks_of(all, 0));
        }
        let nb: usize = self.breakpoints.len();
        let mut j: usize = 0;
        while j < nb
            invariant
                j <= nb,
                nb == self.breakpoints@.len(),
                all == bp_views(self.breakpoints@) + bp_views(self.breakpoints_hit@),
                marks@.len() == 256,
                marks@ == Self::marks_of(all, j as int),
            decreases nb - j,
        {
            let id: u8 = self.breakpoints[j].id;
            proof {
                assert(all[j as int] == bp_views(self.breakpoints@)[j as int]);
            }
            marks.set(id as usize, true);
            proof {
                assert(marks@ =~= Self::marks_of(all, j + 1));
            }
            j = j + 1;
        }
        let mut j2: usize = 0;
        while j2 < self.breakpoints_hit.len()
            invariant
                j2 <= self.breakpoints_hit@.len(),
                nb == self.breakpoints@.len(),
                all == bp_views(self.breakpoints@) + bp_views(self.breakpoints_hit@),
                marks@.len() == 256,
                marks@ == Self::marks_of(all, nb + j2),
            decreases self.breakpoints_hit@.len() - j2,
        {
            let id: u8 = self.breakpoints_hit[j2].id;
            proof {
                assert(all[nb + j2] == bp_views(self.breakpoints_hit@)[j2 as int]);
            }
            marks.set(id as usize, true);
            proof {
                assert(marks@ =~= Self::marks_of(all, nb + j2 + 1));
            }
            j2 = j2 + 1;
        }
        proof {
            assert(nb + self.breakpoints_hit@.len() == all.len());
        }
        let mut count: usize = 0;
        let mut c: usize = 0;
        proof {
            assert(marks@.take(0) =~= Seq::<bool>::empty());
        }
        while c < 256
            invariant
                c <= 256,
                marks@.len() == 256,
                marks@ == Self::marks_of(all, all.len() as int),
                all == bp_views(self.breakpoints@) + bp_views(self.breakpoints_hit@),
                count <= c,
                count == count_trues(marks@.take(c as int)),
            decreases 256 - c,
        {
            proof {
                assert(marks@.take(c + 1).drop_last() =~= marks@.take(c as int));
                assert(marks@.take(c + 1).last() == marks@[c as int]);
            }
            if marks[c] {
                count = count + 1;
            }
            c = c + 1;
        }
        proof {
            assert(marks@.take(256) =~= marks@);
        }
        if count >= 255 {
            return Err(SessionError::BreakpointIdsExhausted);
        }
        let mut t: usize = 0;
        while t < 256
            invariant
                t <= 256,
                marks@.len() == 256,
                marks@ == Self::marks_of(all, all.len() as int),
                all == bp_views(self.breakpoints@) + bp_views(self.breakpoints_hit@),
                count == count_trues(marks@),
                count < 255,
                forall|k: int| 0 <= k < t ==> (#[trigger] marks@[k]),
            decreases 256 - t,
        {
            if !marks[t] {
                proof {
                    let nbi = bp_views(self.breakpoints@).len() as int;
                    Self::lemma_marks_complete(all, all.len() as int, t as int);
                    if spec_id_in(bp_views(self.breakpoints@), t as u8) {
                        let w = choose|w: int|
                            0 <= w < bp_views(self.breakpoints@).len() && (#[trigger] bp_views(
                                self.breakpoints@,
                            )[w]).id == t as u8;
                        assert(all[w].id == t as u8);
                        assert(marks@[t as int]);
                    }
                    if spec_id_in(bp_views(self.breakpoints_hit@), t as u8) {
                        let w = choose|w: int|
                            0 <= w < bp_views(self.breakpoints_hit@).len() && (#[trigger] bp_views(
                                self.breakpoints_hit@,
                            )[w]).id == t as u8;
                        assert(all[nbi + w].id == t as u8);
                        assert(marks@[t as int]);
                    }
                    assert forall|k: int|
                        0 <= k < t implies #[trigger] spec_id_in(
                        bp_views(self.breakpoints@),
                        k as u8,
                    ) || spec_id_in(bp_views(self.breakpoints_hit@), k as u8) by {
                        Self::lemma_marks_complete(all, all.len() as int, k);
                        let w = choose|w: int| 0 <= w < all.len() && (#[trigger] all[w]).id == k as u8;
                        if w < nbi {
                            assert(bp_views(self.breakpoints@)[w].id == k as u8);
                        } else {
                            assert(bp_views(self.breakpoints_hit@)[w - nbi].id == k as u8);
                        }
                    }
                }
                return Ok(t as u8);
            }
            t = t + 1;
        }
        proof {
            assert forall|k: int| 0 <= k < marks@.len() implies (#[trigger] marks@[k]) by {}
            lemma_count_trues_all_true(marks@);
            assert(false);
        }
        Err(SessionError::BreakpointIdsExhausted)
    }

    /// The identifier coverage of the first `n` breakpoints of `s`, as a
    /// 256-entry table.
    pub open spec fn marks_of(s: Seq<BreakpointView>, n: int) -> Seq<bool>
        decreases n,
    {
        if n <= 0 {
            Seq::new(256, |i: int| false)
        } else {
            Self::marks_of(s, n - 1).update(s[n - 1].id as int, true)
        }
    }

    proof fn lemma_marks_count(s: Seq<BreakpointView>, n: int)
        requires
            0 <= n <= s.len(),
        ensures
            Self::marks_of(s, n).len() == 256,
            count_trues(Self::marks_of(s, n)) <= n,
        decreases n,
    {
        if n <= 0 {
            Self::lemma_marks_empty_count(Self::marks_of(s, 0), 256);
            assert(Self::marks_of(s, 0).take(256) =~= Self::marks_of(s, 0));
        } else {
            Self::lemma_marks_count(s, n - 1);
            lemma_count_trues_update(Self::marks_of(s, n - 1), s[n - 1].id as int);
        }
    }

    proof fn lemma_marks_empty_count(s: Seq<bool>, n: int)
        requires
            s == Seq::new(256, |i: int| false),
            0 <= n <= 256,
        ensures
            count_trues(s.take(n)) == 0,
        decreases n,
    {
        if n > 0 {
            assert(s.take(n).drop_last() =~= s.take(n - 1));
            assert(!s.take(n).last());
            Self::lemma_marks_empty_count(s, n - 1);
        } else {
            assert(s.take(0) =~= Seq::<bool>::empty());
        }
        if n == 256 {
            assert(s.take(256) =~= s);
        }
    }

    /// The mark table records exactly the identifiers of the first `n`
    /// breakpoints.
    proof fn lemma_marks_complete(s: Seq<BreakpointView>, n: int, k: int)
        requires
            0 <= n <= s.len(),
            0 <= k < 256,
        ensures
            Self::marks_of(s, n)[k] <==> (exists|j: int|
                0 <= j < n && (#[trigger] s[j]).id == k as u8),
        decreases n,
    {
        Self::lemma_marks_count(s, n);
        if n > 0 {
            Self::lemma_marks_complete(s, n - 1, k);
            Self::lemma_marks_count(s, n - 1);
            if s[n - 1].id as int == k {
                assert(Self::marks_of(s, n)[k]);
                assert(s[n - 1].id == k as u8);
            } else {
                assert(Self::marks_of(s, n)[k] == Self::marks_of(s, n - 1)[k]);
                if Self::marks_of(s, n)[k] {
                    let j = choose|j: int| 0 <= j < n - 1 && (#[trigger] s[j]).id == k as u8;
                    assert(0 <= j < n && s[j].id == k as u8);
                }
                if exists|j: int| 0 <= j < n && (#[trigger] s[j]).id == k as u8 {
                    let j = choose|j: int| 0 <= j < n && (#[trigger] s[j]).id == k as u8;
                    assert(j < n - 1);
                }
            }
        }
    }

    /// Breakpoints with pairwise distinct identifiers cover exactly as
    /// many table entries as there are breakpoints.
    proof fn lemma_marks_count_distinct(s: Seq<BreakpointView>, n: int)
        requires
            0 <= n <= s.len(),
            spec_ids_unique(s),
        ensures
            count_trues(Self::marks_of(s, n)) == n,
        decreases n,
    {
        Self::lemma_marks_count(s, n);
        lemma_count_trues_bounds(Self::marks_of(s, n));
        if n > 0 {
            Self::lemma_marks_count_distinct(s, n - 1);
            Self::lemma_marks_count(s, n - 1);
            lemma_count_trues_update(Self::marks_of(s, n - 1), s[n - 1].id as int);
            Self::lemma_marks_complete(s, n - 1, s[n - 1].id as int);
            if Self::marks_of(s, n - 1)[s[n - 1].id as int] {
                let j = choose|j: int| 0 <= j < n - 1 && (#[trigger] s[j]).id == s[n - 1].id;
                assert(s[j].id != s[n - 1].id);
            }
        }
    }

    /// Create a breakpoint watching `ty`, at the stepper's current cycle.
    ///
    /// A `Finish` request flags the frame that is current right now, so
    /// that only that exact frame's exit — not a same-named recursive
    /// sibling's — halts the free-run loop. Returns the new breakpoint's
    /// identifier; fails exactly when the identifier space is exhausted,
    /// leaving everything unchanged.
    pub fn create_breakpoint(&mut self, ty: BreakpointType) -> (r: Result<u8, SessionError>)
        requires
            old(self).wf(),
            old(self).breakpoints@.len() < usize::MAX,
        ensures
            final(self).wf(),
            r is Err <==> spec_held_ids(
                bp_views(old(self).breakpoints@),
                bp_views(old(self).breakpoints_hit@),
            ) >= 255,
            r is Err ==> *final(self) == *old(self),
            r matches Ok(id) ==> {
                &&& !spec_id_in(bp_views(old(self).breakpoints@), id)
                &&& !spec_id_in(bp_views(old(self).breakpoints_hit@), id)
                &&& (forall|k: int|
                    0 <= k < id ==> #[trigger] spec_id_in(bp_views(old(self).breakpoints@), k as u8)
                        || spec_id_in(bp_views(old(self).breakpoints_hit@), k as u8))
                &&& bp_views(final(self).breakpoints@) == bp_views(old(self).breakpoints@).push(
                    BreakpointView {
                        id,
                        creation_cycle: old(self).executor.cycle,
                        ty: ty@,
                    },
                )
                &&& final(self).breakpoints_hit@ == old(self).breakpoints_hit@
                &&& final(self).execution_trace == old(self).execution_trace
                &&& final(self).execution_failed == old(self).execution_failed
                &&& final(self).input_mode == old(self).input_mode
                &&& final(self).stopped == old(self).stopped
                &&& (ty@ is Finish ==> final(self).executor@ == (crate::stepper::ExecutorView {
                    callstack: CallStackView {
                        frames: (if old(self).executor@.callstack.frames.len() > 0 {
                            old(self).executor@.callstack.frames.update(
                                old(self).executor@.callstack.frames.len() - 1,
                                (FrameView {
                                    break_on_exit: true,
                                    ..old(self).executor@.callstack.frames.last()
                                }),
                            )
                        } else {
                            old(self).executor@.callstack.frames
                        }),
                        ..old(self).executor@.callstack
                    },
                    ..old(self).executor@
                }))
                &&& (!(ty@ is Finish) ==> final(self).executor == old(self).executor)
            },
    {
        let ghost ty_view = ty@;
        let id: u8 = match self.next_breakpoint_id() {
            Ok(id) => id,
            Err(e) => {
                return Err(e);
            },
        };
        let creation_cycle: u32 = self.executor.cycle;
        let is_finish: bool = match &ty {
            BreakpointType::Finish => true,
            _ => false,
        };
        if is_finish {
            self.executor.callstack.break_on_exit_current();
        }
        let bp = Breakpoint { id, creation_cycle, ty };
        self.breakpoints.push(bp);
        proof {
            assert(bp_views(self.breakpoints@) =~= bp_views(old(self).breakpoints@).push(
                BreakpointView { id, creation_cycle: old(self).executor.cycle, ty: ty_view },
            ));
            let all_old = bp_views(old(self).breakpoints@);
            let all_new = bp_views(self.breakpoints@);
            assert forall|i: int, j: int|
                0 <= i < j < all_new.len() implies (#[trigger] all_new[i]).id != (
            #[trigger] all_new[j]).id by {
                let nb = all_old.len() as int;
                if j < nb {
                    assert(all_new[i] == all_old[i]);
                    assert(all_new[j] == all_old[j]);
                } else {
                    assert(all_new[j].id == id);
                    assert(all_new[i] == all_old[i]);
                    if all_old[i].id == id {
                        assert(spec_id_in(bp_views(old(self).breakpoints@), id));
                    }
                }
            }
            if ty_view is Finish {
                assert(self.executor@.callstack.frames =~= (if old(self).executor@.callstack.frames.len() > 0 {
                    old(self).executor@.callstack.frames.update(
                        old(self).executor@.callstack.frames.len() - 1,
                        (FrameView {
                            break_on_exit: true,
                            ..old(self).executor@.callstack.frames.last()
                        }),
                    )
                } else {
                    old(self).executor@.callstack.frames
                }));
            }
        }
        Ok(id)
    }

    /// The live breakpoints of `s` whose identifier is not `id`.
    pub open spec fn spec_without_id(s: Seq<BreakpointView>, id: u8) -> Seq<BreakpointView>
        decreases s.len(),
    {
        if s.len() == 0 {
            Seq::empty()
        } else {
            Self::spec_without_id(s.drop_last(), id) + (if s.last().id == id {
                Seq::empty()
            } else {
                seq![s.last()]
            })
        }
    }

    /// Delete the live breakpoint holding `id`. Reports whether one did.
    pub fn delete_breakpoint(&mut self, id: u8) -> (r: bool)
        requires
            old(self).wf(),
        ensures
            final(self).wf(),
            r == spec_id_in(bp_views(old(self).breakpoints@), id),
            bp_views(final(self).breakpoints@) == Self::spec_without_id(
                bp_views(old(self).breakpoints@),
                id,
            ),
            final(self).breakpoints_hit@ == old(self).breakpoints_hit@,
            final(self).executor == old(self).executor,
            final(self).execution_trace == old(self).execution_trace,
            final(self).execution_failed == old(self).execution_failed,
            final(self).stopped == old(self).stopped,
    {
        let mut kept: Vec<Breakpoint> = Vec::new();
        let mut found: bool = false;
        let mut i: usize = 0;
        proof {
            assert(bp_views(self.breakpoints@).take(0) =~= Seq::<BreakpointView>::empty());
            assert(Self::spec_without_id(bp_views(self.breakpoints@).take(0), id) =~= Seq::<
                BreakpointView,
            >::empty());
            assert(bp_views(kept@) =~= Seq::<BreakpointView>::empty());
        }
        while i < self.breakpoints.len()
            invariant
                i <= self.breakpoints@.len(),
                bp_views(kept@) == Self::spec_without_id(
                    bp_views(self.breakpoints@).take(i as int),
                    id,
                ),
                found == spec_id_in(bp_views(self.breakpoints@).take(i as int), id),
            decreases self.breakpoints@.len() - i,
        {
            let ghost pre = bp_views(self.breakpoints@).take(i as int);
            proof {
                assert(bp_views(self.breakpoints@).take(i + 1).drop_last() =~= pre);
                assert(bp_views(self.breakpoints@).take(i + 1).last() == bp_views(
                    self.breakpoints@,
                )[i as int]);
            }
            if self.breakpoints[i].id == id {
                found = true;
                proof {
                    assert(bp_views(self.breakpoints@).take(i + 1)[i as int].id == id);
                    assert(spec_id_in(bp_views(self.breakpoints@).take(i + 1), id));
                }
            } else {
                kept.push(self.breakpoints[i].clone());
                proof {
                    assert(bp_views(kept@) =~= Self::spec_without_id(
                        bp_views(self.breakpoints@).take(i + 1),
                        id,
                    ));
                }
            }
            proof {
                if !found {
                    assert forall|k: int|
                        0 <= k < i + 1 implies (#[trigger] bp_views(self.breakpoints@).take(
                        i + 1,
                    )[k]).id != id by {
                        if k < i {
                            assert(pre[k] == bp_views(self.breakpoints@).take(i + 1)[k]);
                        }
                    }
                }
            }
            i = i + 1;
        }
        proof {
            assert(bp_views(self.breakpoints@).take(self.breakpoints@.len() as int) =~= bp_views(
                self.breakpoints@,
            ));
        }
        self.breakpoints = kept;
        proof {
            assert forall|i2: int, j2: int|
                0 <= i2 < j2 < bp_views(self.breakpoints@).len() implies (#[trigger] bp_views(
                self.breakpoints@,
            )[i2]).id != (#[trigger] bp_views(self.breakpoints@)[j2]).id by {
                Self::lemma_without_id_distinct(bp_views(old(self).breakpoints@), id, i2, j2);
            }
        }
        found
    }

    /// Everything retained by `spec_without_id` comes from the original
    /// list, in order, and no retained entry holds the removed identifier.
    proof fn lemma_without_id_membership(s: Seq<BreakpointView>, id: u8)
        ensures
            forall|k: int|
                0 <= k < Self::spec_without_id(s, id).len() ==> (exists|m: int|
                    0 <= m < s.len() && #[trigger] Self::spec_without_id(s, id)[k] == s[m]
                        && s[m].id != id),
            Self::spec_without_id(s, id).len() <= s.len(),
        decreases s.len(),
    {
        if s.len() > 0 {
            Self::lemma_without_id_membership(s.drop_last(), id);
            let sub = Self::spec_without_id(s.drop_last(), id);
            assert forall|k: int|
                0 <= k < Self::spec_without_id(s, id).len() implies (exists|m: int|
                0 <= m < s.len() && #[trigger] Self::spec_without_id(s, id)[k] == s[m] && s[m].id
                    != id) by {
                if k < sub.len() {
                    let m = choose|m: int|
                        0 <= m < s.drop_last().len() && #[trigger] sub[k] == s.drop_last()[m]
                            && s.drop_last()[m].id != id;
                    assert(Self::spec_without_id(s, id)[k] == s[m] && s[m].id != id);
                } else {
                    assert(Self::spec_without_id(s, id)[k] == s[s.len() - 1]);
                }
            }
        }
    }

    /// Distinct retained entries keep distinct identifiers.
    proof fn lemma_without_id_distinct(live: Seq<BreakpointView>, id: u8, i: int, j: int)
        requires
            forall|a: int, b: int|
                0 <= a < b < live.len() ==> (#[trigger] live[a]).id != (#[trigger] live[b]).id,
            0 <= i < j < Self::spec_without_id(live, id).len(),
        ensures
            Self::spec_without_id(live, id)[i].id != Self::spec_without_id(live, id)[j].id,
        decreases live.len(),
    {
        if live.len() > 0 {
            let sub = Self::spec_without_id(live.drop_last(), id);
            assert(forall|a: int, b: int|
                0 <= a < b < live.drop_last().len() ==> (#[trigger] live.drop_last()[a]).id != (
                #[trigger] live.drop_last()[b]).id);
            if j < sub.len() {
                Self::lemma_without_id_distinct(live.drop_last(), id, i, j);
            } else {
                Self::lemma_without_id_membership(live.drop_last(), id);
                let m = choose|m: int|
                    0 <= m < live.drop_last().len() && #[trigger] sub[i] == live.drop_last()[m];
                assert(live[m] == live.drop_last()[m]);
                assert(Self::spec_without_id(live, id)[j] == live[live.len() - 1]);
                assert(live[m].id != live[live.len() - 1].id);
            }
        }
    }
}

/// The index of the most recently created pending `Finish` request in `s`,
/// or a negative value if none is pending.
pub open spec fn spec_last_finish_idx(s: Seq<BreakpointView>) -> int
    decreases s.len(),
{
    if s.len() == 0 {
        -1
    } else if s.last().ty is Finish {
        s.len() - 1
    } else {
        spec_last_finish_idx(s.drop_last())
    }
}

/// Whether a `Finish` request is pending in `s`.
pub open spec fn spec_has_finish(s: Seq<BreakpointView>) -> bool {
    spec_last_finish_idx(s) >= 0
}

proof fn lemma_last_finish_idx(s: Seq<BreakpointView>)
    ensures
        -1 <= spec_last_finish_idx(s) < s.len(),
        spec_last_finish_idx(s) >= 0 ==> s[spec_last_finish_idx(s)].ty is Finish,
        forall|k: int|
            spec_last_finish_idx(s) < k < s.len() ==> !((#[trigger] s[k]).ty is Finish),
    decreases s.len(),
{
    if s.len() > 0 && !(s.last().ty is Finish) {
        lemma_last_finish_idx(s.drop_last());
        assert forall|k: int|
            spec_last_finish_idx(s) < k < s.len() implies !((#[trigger] s[k]).ty is Finish) by {
            if k < s.len() - 1 {
                assert(s.drop_last()[k] == s[k]);
            }
        }
    }
}

/// The procedure name of the innermost open frame, if one is known.
pub open spec fn spec_current_proc(cs: CallStackView) -> Option<Seq<char>> {
    if cs.frames.len() > 0 {
        cs.frames.last().procedure
    } else {
        None
    }
}

/// The source position the innermost frame's most recent operation
/// resolved to, if any.
pub open spec fn spec_current_loc(cs: CallStackView) -> Option<LocationView> {
    if cs.frames.len() > 0 && cs.frames.last().recent.len() > 0 {
        cs.frames.last().recent.last().location
    } else {
        None
    }
}

/// The reconstructed state breakpoints are evaluated against after a step,
/// for a free run that began at `start_cycle`.
pub open spec fn spec_env_of(exec: crate::stepper::ExecutorView, start_cycle: u32) -> BreakpointEnv {
    BreakpointEnv {
        current_cycle: exec.cycle,
        cycles_stepped: exec.cycle - start_cycle,
        is_boundary: exec.current_asmop is Some,
        procedure: spec_current_proc(exec.callstack),
        location: spec_current_loc(exec.callstack),
    }
}

impl State {
    /// Whether `bp` matches the given reconstructed state.
    fn bp_matches(
        bp: &Breakpoint,
        current_cycle: u32,
        cycles_stepped: u32,
        is_boundary: bool,
        procedure: &Option<String>,
        location: &Option<crate::stacktrace::ResolvedLocation>,
    ) -> (r: bool)
        ensures
            r == spec_bp_matches(
                bp@,
                BreakpointEnv {
                    current_cycle,
                    cycles_stepped: cycles_stepped as int,
                    is_boundary,
                    procedure: crate::stacktrace::opt_str_view(*procedure),
                    location: crate::stacktrace::opt_loc_view(*location),
                },
            ),
    {
        match &bp.ty {
            BreakpointType::AtCycle(n) => current_cycle == *n,
            BreakpointType::AfterNCycles(n) => cycles_stepped >= *n,
            BreakpointType::InProcedure(name) => is_boundary && (match procedure {
                Some(p) => crate::parse::str_eq(name.as_str(), p.as_str()),
                None => false,
            }),
            BreakpointType::AtSourceLocation { file, line } => is_boundary && (match location {
                Some(l) => crate::parse::str_eq(file.as_str(), l.uri.as_str()) && (match line {
                    Some(n) => *n == l.line,
                    None => true,
                }),
                None => false,
            }),
            BreakpointType::Next => cycles_stepped > 0 && is_boundary,
            BreakpointType::Finish => false,
        }
    }

    /// Evaluate every live breakpoint against the given reconstructed
    /// state: each match is recorded in the hit list, one-shot matches
    /// leave the live list, and the caller learns whether anything
    /// matched.
    #[verifier::loop_isolation(false)]
    fn scan_breakpoints(
        &mut self,
        current_cycle: u32,
        cycles_stepped: u32,
        is_boundary: bool,
        procedure: &Option<String>,
        location: &Option<crate::stacktrace::ResolvedLocation>,
    ) -> (hit_any: bool)
        requires
            old(self).wf(),
            old(self).breakpoints@.len() + old(self).breakpoints_hit@.len() <= usize::MAX,
        ensures
            ({
                let env = BreakpointEnv {
                    current_cycle,
                    cycles_stepped: cycles_stepped as int,
                    is_boundary,
                    procedure: crate::stacktrace::opt_str_view(*procedure),
                    location: crate::stacktrace::opt_loc_view(*location),
                };
                &&& final(self).wf()
                &&& bp_views(final(self).breakpoints@) == spec_retained(
                    bp_views(old(self).breakpoints@),
                    env,
                )
                &&& bp_views(final(self).breakpoints_hit@) == bp_views(old(self).breakpoints_hit@)
                    + spec_matched(bp_views(old(self).breakpoints@), env)
                &&& hit_any == (spec_matched(bp_views(old(self).breakpoints@), env).len() > 0)
                &&& final(self).executor == old(self).executor
                &&& final(self).execution_trace == old(self).execution_trace
                &&& final(self).execution_failed == old(self).execution_failed
                &&& final(self).input_mode == old(self).input_mode
                &&& final(self).stopped == old(self).stopped
            }),
    {
        let ghost env = BreakpointEnv {
            current_cycle,
            cycles_stepped: cycles_stepped as int,
            is_boundary,
            procedure: crate::stacktrace::opt_str_view(*procedure),
            location: crate::stacktrace::opt_loc_view(*location),
        };
        let ghost live0 = bp_views(self.breakpoints@);
        let mut kept: Vec<Breakpoint> = Vec::new();
        let mut hit_any: bool = false;
        let mut i: usize = 0;
        proof {
            assert(live0.take(0) =~= Seq::<BreakpointView>::empty());
            assert(bp_views(kept@) =~= spec_retained(live0.take(0), env));
            assert(bp_views(self.breakpoints_hit@) =~= bp_views(old(self).breakpoints_hit@)
                + spec_matched(live0.take(0), env));
        }
        while i < self.breakpoints.len()
            invariant
                i <= self.breakpoints@.len(),
                self.breakpoints == old(self).breakpoints,
                self.executor == old(self).executor,
                self.execution_trace == old(self).execution_trace,
                self.execution_failed == old(self).execution_failed,
                self.input_mode == old(self).input_mode,
                self.stopped == old(self).stopped,
                live0 == bp_views(self.breakpoints@),
                live0.len() + old(self).breakpoints_hit@.len() <= usize::MAX,
                bp_views(kept@) == spec_retained(live0.take(i as int), env),
                bp_views(self.breakpoints_hit@) == bp_views(old(self).breakpoints_hit@)
                    + spec_matched(live0.take(i as int), env),
                hit_any == (spec_matched(live0.take(i as int), env).len() > 0),
            decreases self.breakpoints@.len() - i,
        {
            proof {
                assert(live0.take(i + 1).drop_last() =~= live0.take(i as int));
                assert(live0.take(i + 1).last() == live0[i as int]);
                crate::session::lemma_matched_len(live0.take(i as int), env);
            }
            let bp = &self.breakpoints[i];
            proof {
                assert(bp@ == live0[i as int]);
            }
            let matched: bool = Self::bp_matches(
                bp,
                current_cycle,
                cycles_stepped,
                is_boundary,
                procedure,
                location,
            );
            let ghost pre_hits = self.breakpoints_hit@;
            if matched {
                hit_any = true;
                self.breakpoints_hit.push(bp.clone());
                proof {
                    assert forall|k: int|
                        0 <= k < self.breakpoints_hit@.len() implies #[trigger] bp_views(
                        self.breakpoints_hit@,
                    )[k] == bp_views(pre_hits).push(live0[i as int])[k] by {
                        if k < pre_hits.len() {
                            assert(self.breakpoints_hit@[k] == pre_hits[k]);
                        } else {
                            assert(self.breakpoints_hit@[k]@ == live0[i as int]);
                        }
                    }
                    assert(bp_views(self.breakpoints_hit@) =~= bp_views(pre_hits).push(
                        live0[i as int],
                    ));
                }
                if !bp.is_one_shot() {
                    kept.push(bp.clone());
                }
            } else {
                kept.push(bp.clone());
            }
            proof {
                assert(bp_views(kept@) =~= spec_retained(live0.take(i + 1), env));
                assert(bp_views(self.breakpoints_hit@) =~= bp_views(old(self).breakpoints_hit@)
                    + spec_matched(live0.take(i + 1), env));
            }
            i = i + 1;
        }
        proof {
            assert(live0.take(live0.len() as int) =~= live0);
        }
        self.breakpoints = kept;
        proof {
            lemma_retained_distinct_all(live0, env);
        }
        hit_any
    }

    /// Observe one iteration of the free-run loop, for a run that began at
    /// `start_cycle`: advance the stepper by the host-reported outcome and
    /// decide whether the loop halts.
    ///
    /// The loop halts immediately on termination or fault, without
    /// consuming any breakpoint match. Otherwise, if the frame that exited
    /// this cycle was flagged by a `Finish` request, that request alone is
    /// consumed and the loop halts — a `Finish` match takes priority over
    /// every pending breakpoint. Failing that, every live breakpoint is
    /// evaluated against the reconstructed state, and the loop halts
    /// exactly when one matched.
    #[verifier::loop_isolation(false)]
    pub fn free_run_step(&mut self, start_cycle: u32, outcome: StepOutcome) -> (halt: bool)
        requires
            old(self).wf(),
            start_cycle <= old(self).executor.cycle,
            !old(self).executor@.stopped ==> old(self).executor.cycle < u32::MAX,
            !old(self).executor@.stopped ==> old(self).executor@.contexts.len() + 1 <= usize::MAX,
            !old(self).executor@.stopped ==> (outcome matches StepOutcome::Advanced {
                events,
                ..
            } ==> old(self).executor@.callstack.frames.len() + events@.len() <= usize::MAX),
            old(self).breakpoints@.len() + old(self).breakpoints_hit@.len() <= usize::MAX,
        ensures
            final(self).wf(),
            final(self).execution_trace == old(self).execution_trace,
            final(self).input_mode == old(self).input_mode,
            old(self).executor@.stopped ==> halt && final(self).stopped && final(self).executor@
                == old(self).executor@ && final(self).breakpoints == old(self).breakpoints
                && final(self).breakpoints_hit == old(self).breakpoints_hit && final(self).execution_failed == old(self).execution_failed,
            !old(self).executor@.stopped && outcome is Finished ==> halt && final(self).stopped
                && final(self).breakpoints == old(self).breakpoints && final(self).breakpoints_hit
                == old(self).breakpoints_hit && final(self).execution_failed == old(self).execution_failed && final(self).executor@ == (crate::stepper::ExecutorView {
                stopped: true,
                ..old(self).executor@
            }),
            !old(self).executor@.stopped ==> (outcome matches StepOutcome::Failed(e) ==> halt
                && final(self).stopped && final(self).breakpoints == old(self).breakpoints
                && final(self).breakpoints_hit == old(self).breakpoints_hit && (final(self).execution_failed matches Some(v) && v@ == e@) && final(self).executor@
                == (crate::stepper::ExecutorView { stopped: true, ..old(self).executor@ })),
            !old(self).executor@.stopped ==> (outcome matches StepOutcome::Advanced {
                stack,
                ctx,
                op,
                asmop,
                events,
            } ==> crate::stepper::spec_step_advanced(
                old(self).executor@,
                final(self).executor@,
                stack@,
                ctx,
                crate::stacktrace::opt_str_view(op),
                crate::stacktrace::opt_asmop_view(asmop),
                events@,
            )),
            !old(self).executor@.stopped ==> (outcome matches StepOutcome::Advanced {
                events,
                ..
            } ==> (match crate::stacktrace::spec_apply_events(
                old(self).executor@.callstack.frames,
                old(self).executor@.callstack.assertions,
                None,
                events@,
                (old(self).executor@.cycle + 1) as u32,
            ) {
                None => halt && final(self).stopped && final(self).breakpoints == old(self).breakpoints && final(self).breakpoints_hit == old(self).breakpoints_hit && (
                final(self).execution_failed matches Some(v) && v@.cycle == old(self).executor@.cycle + 1),
                Some(applied) => {
                    let fired = (applied.exited matches Some(f) && f.break_on_exit)
                        && spec_has_finish(bp_views(old(self).breakpoints@));
                    &&& (fired ==> {
                        &&& halt
                        &&& final(self).stopped
                        &&& bp_views(final(self).breakpoints@) == bp_views(
                            old(self).breakpoints@,
                        ).remove(spec_last_finish_idx(bp_views(old(self).breakpoints@)))
                        &&& bp_views(final(self).breakpoints_hit@) == bp_views(
                            old(self).breakpoints_hit@,
                        ).push(
                            bp_views(old(self).breakpoints@)[spec_last_finish_idx(
                                bp_views(old(self).breakpoints@),
                            )],
                        )
                        &&& final(self).execution_failed == old(self).execution_failed
                    })
                    &&& (!fired ==> {
                        let env = spec_env_of(final(self).executor@, start_cycle);
                        &&& bp_views(final(self).breakpoints@) == spec_retained(
                            bp_views(old(self).breakpoints@),
                            env,
                        )
                        &&& bp_views(final(self).breakpoints_hit@) == bp_views(
                            old(self).breakpoints_hit@,
                        ) + spec_matched(bp_views(old(self).breakpoints@), env)
                        &&& halt == (spec_matched(bp_views(old(self).breakpoints@), env).len()
                            > 0)
                        &&& final(self).stopped == (old(self).stopped || halt)
                        &&& final(self).execution_failed == old(self).execution_failed
                    })
                },
            })),
    {
        if self.executor.stopped {
            self.stopped = true;
            return true;
        }
        let step_result = self.executor.step(outcome);
        let exited = match step_result {
            Err(StepError::Vm(e)) => {
                self.execution_failed = Some(e);
                self.stopped = true;
                return true;
            },
            Err(StepError::UnmatchedFrameEnd { cycle }) => {
                self.execution_failed = Some(
                    ExecutionError {
                        cycle,
                        message: String::from_str("frame exit event with no open frame"),
                    },
                );
                self.stopped = true;
                return true;
            },
            Ok(exited) => exited,
        };
        if self.executor.stopped {
            self.stopped = true;
            return true;
        }
        let exited_flagged: bool = match &exited {
            Some(f) => f.should_break_on_exit(),
            None => false,
        };
        proof {
            lemma_last_finish_idx(bp_views(self.breakpoints@));
        }
        let ghost exec_after = self.executor;
        if exited_flagged {
            let mut j: usize = self.breakpoints.len();
            let ghost live = bp_views(self.breakpoints@);
            proof {
                assert(live.take(live.len() as int) =~= live);
            }
            while j > 0
                invariant
                    j <= live.len(),
                    self.breakpoints == old(self).breakpoints,
                    self.breakpoints_hit == old(self).breakpoints_hit,
                    self.executor == exec_after,
                    self.execution_failed == old(self).execution_failed,
                    self.execution_trace == old(self).execution_trace,
                    self.input_mode == old(self).input_mode,
                    self.stopped == old(self).stopped,
                    live == bp_views(self.breakpoints@),
                    spec_last_finish_idx(live.take(j as int)) == spec_last_finish_idx(live),
                decreases j,
            {
                proof {
                    assert(live.take(j as int).drop_last() =~= live.take(j - 1));
                    assert(live.take(j as int).last() == live[j - 1]);
                }
                j = j - 1;
                let is_finish: bool = match &self.breakpoints[j].ty {
                    BreakpointType::Finish => true,
                    _ => false,
                };
                if is_finish {
                    proof {
                        assert(live.take(j + 1).last().ty is Finish);
                        assert(spec_last_finish_idx(live) == j);
                    }
                    let bp = self.breakpoints.remove(j);
                    self.breakpoints_hit.push(bp);
                    self.stopped = true;
                    proof {
                        assert(bp_views(self.breakpoints@) =~= live.remove(
                            spec_last_finish_idx(live),
                        ));
                        assert(bp_views(self.breakpoints_hit@) =~= bp_views(
                            old(self).breakpoints_hit@,
                        ).push(live[spec_last_finish_idx(live)]));
                        lemma_remove_keeps_distinct(live, spec_last_finish_idx(live));
                    }
                    return true;
                }
            }
            proof {
                assert(live.take(0) =~= Seq::<BreakpointView>::empty());
                assert(!spec_has_finish(live));
            }
        }
        proof {
            assert(!(outcome is Finished));
            assert(!(outcome is Failed));
            assert(outcome is Advanced);
            assert(self.executor@.cycle == old(self).executor@.cycle + 1);
        }
        let current_cycle: u32 = self.executor.cycle;
        let cycles_stepped: u32 = current_cycle - start_cycle;
        let is_boundary: bool = self.executor.current_asmop.is_some();
        let mut procedure: Option<String> = None;
        let mut location: Option<crate::stacktrace::ResolvedLocation> = None;
        match self.executor.callstack.current_frame() {
            Some(f) => {
                procedure = match &f.procedure {
                    Some(p) => Some(p.clone()),
                    None => None,
                };
                let m: usize = f.recent.len();
                if m > 0 {
                    location = match &f.recent[m - 1].location {
                        Some(l) => Some(l.clone()),
                        None => None,
                    };
                    proof {
                        assert(f@.recent.last() == f.recent@[m - 1]@);
                    }
                }
            },
            None => {},
        }
        proof {
            assert(crate::stacktrace::opt_str_view(procedure) == spec_current_proc(
                self.executor@.callstack,
            ));
            assert(crate::stacktrace::opt_loc_view(location) == spec_current_loc(
                self.executor@.callstack,
            ));
        }
        let hit_any: bool = self.scan_breakpoints(
            current_cycle,
            cycles_stepped,
            is_boundary,
            &procedure,
            &location,
        );
        if hit_any {
            self.stopped = true;
        }
        hit_any
    }
}

/// No more breakpoints match than exist.
proof fn lemma_matched_len(s: Seq<BreakpointView>, env: BreakpointEnv)
    ensures
        0 <= spec_matched(s, env).len() <= s.len(),
        0 <= spec_retained(s, env).len() <= s.len(),
    decreases s.len(),
{
    if s.len() > 0 {
        lemma_matched_len(s.drop_last(), env);
    }
}

/// Everything retained by a scan comes from the live list, in order.
proof fn lemma_retained_membership(s: Seq<BreakpointView>, env: BreakpointEnv)
    ensures
        forall|k: int|
            0 <= k < spec_retained(s, env).len() ==> (exists|m: int|
                0 <= m < s.len() && #[trigger] spec_retained(s, env)[k] == s[m]),
        spec_retained(s, env).len() <= s.len(),
    decreases s.len(),
{
    if s.len() > 0 {
        lemma_retained_membership(s.drop_last(), env);
        let sub = spec_retained(s.drop_last(), env);
        assert forall|k: int|
            0 <= k < spec_retained(s, env).len() implies (exists|m: int|
            0 <= m < s.len() && #[trigger] spec_retained(s, env)[k] == s[m]) by {
            if k < sub.len() {
                let m = choose|m: int|
                    0 <= m < s.drop_last().len() && #[trigger] sub[k] == s.drop_last()[m];
                assert(spec_retained(s, env)[k] == s[m]);
            } else {
                assert(spec_retained(s, env)[k] == s[s.len() - 1]);
            }
        }
    }
}

/// A scan keeps distinct identifiers distinct.
proof fn lemma_retained_distinct(s: Seq<BreakpointView>, env: BreakpointEnv, i: int, j: int)
    requires
        forall|a: int, b: int|
            0 <= a < b < s.len() ==> (#[trigger] s[a]).id != (#[trigger] s[b]).id,
        0 <= i < j < spec_retained(s, env).len(),
    ensures
        spec_retained(s, env)[i].id != spec_retained(s, env)[j].id,
    decreases s.len(),
{
    if s.len() > 0 {
        let sub = spec_retained(s.drop_last(), env);
        assert(forall|a: int, b: int|
            0 <= a < b < s.drop_last().len() ==> (#[trigger] s.drop_last()[a]).id != (
            #[trigger] s.drop_last()[b]).id);
        if j < sub.len() {
            lemma_retained_distinct(s.drop_last(), env, i, j);
        } else {
            lemma_retained_membership(s.drop_last(), env);
            let m = choose|m: int|
                0 <= m < s.drop_last().len() && #[trigger] sub[i] == s.drop_last()[m];
            assert(s[m] == s.drop_last()[m]);
            assert(spec_retained(s, env)[j] == s[s.len() - 1]);
            assert(s[m].id != s[s.len() - 1].id);
        }
    }
}

/// A scan of a list with unique identifiers retains unique identifiers.
proof fn lemma_retained_distinct_all(s: Seq<BreakpointView>, env: BreakpointEnv)
    requires
        spec_ids_unique(s),
    ensures
        spec_ids_unique(spec_retained(s, env)),
{
    assert forall|i: int, j: int|
        0 <= i < j < spec_retained(s, env).len() implies (#[trigger] spec_retained(s, env)[i]).id
        != (#[trigger] spec_retained(s, env)[j]).id by {
        lemma_retained_distinct(s, env, i, j);
    }
}

/// Removing one entry keeps the remaining identifiers distinct.
proof fn lemma_remove_keeps_distinct(s: Seq<BreakpointView>, idx: int)
    requires
        spec_ids_unique(s),
        0 <= idx < s.len(),
    ensures
        spec_ids_unique(s.remove(idx)),
{
    assert forall|i: int, j: int|
        0 <= i < j < s.remove(idx).len() implies (#[trigger] s.remove(idx)[i]).id != (
    #[trigger] s.remove(idx)[j]).id by {
        let i2 = if i < idx { i } else { i + 1 };
        let j2 = if j < idx { j } else { j + 1 };
        assert(s.remove(idx)[i] == s[i2]);
        assert(s.remove(idx)[j] == s[j2]);
    }
}

/// The watched conditions of a list of breakpoints, in order.
pub open spec fn bp_types(s: Seq<BreakpointView>) -> Seq<crate::breakpoint::BreakpointTypeView> {
    Seq::new(s.len(), |i: int| s[i].ty)
}

/// `exec` with its innermost frame flagged to break on exit, unchanged
/// when no frame is open.
pub open spec fn spec_flag_current(exec: crate::stepper::ExecutorView) -> crate::stepper::ExecutorView {
    crate::stepper::ExecutorView {
        callstack: CallStackView {
            frames: (if exec.callstack.frames.len() > 0 {
                exec.callstack.frames.update(
                    exec.callstack.frames.len() - 1,
                    (FrameView { break_on_exit: true, ..exec.callstack.frames.last() }),
                )
            } else {
                exec.callstack.frames
            }),
            ..exec.callstack
        },
        ..exec
    }
}

/// Whether some breakpoint in `s` watches for a frame exit.
pub open spec fn spec_types_have_finish(s: Seq<crate::breakpoint::BreakpointTypeView>) -> bool {
    exists|i: int| 0 <= i < s.len() && (#[trigger] s[i]) is Finish
}

impl State {
    /// Rebind the session to a fresh run: adopt the new stepper and
    /// captured trace, clear the fault and the hit list, halt the loop,
    /// and recreate every live breakpoint — same conditions, in order,
    /// with identifiers reallocated from zero upward. A recreated finish
    /// request flags the new run's current frame.
    #[verifier::loop_isolation(false)]
    pub fn reload(&mut self, executor: DebugExecutor, execution_trace: Option<ExecutionTrace>)
        requires
            old(self).wf(),
            old(self).breakpoints@.len() <= 255,
        ensures
            final(self).wf(),
            bp_types(bp_views(final(self).breakpoints@)) == bp_types(
                bp_views(old(self).breakpoints@),
            ),
            forall|k: int|
                0 <= k < bp_views(final(self).breakpoints@).len() ==> (#[trigger] bp_views(
                    final(self).breakpoints@,
                )[k]).id == k as u8,
            final(self).breakpoints_hit@ =~= Seq::<Breakpoint>::empty(),
            final(self).execution_failed is None,
            final(self).execution_trace == execution_trace,
            final(self).stopped,
            final(self).input_mode == old(self).input_mode,
            spec_types_have_finish(bp_types(bp_views(old(self).breakpoints@))) ==> final(self).executor@ == spec_flag_current(executor@),
            !spec_types_have_finish(bp_types(bp_views(old(self).breakpoints@))) ==> final(self).executor == executor,
    {
        let ghost exec0 = executor@;
        let ghost exec_val = executor;
        let ghost old_types = bp_types(bp_views(old(self).breakpoints@));
        let mut pending: Vec<Breakpoint> = Vec::new();
        core::mem::swap(&mut pending, &mut self.breakpoints);
        self.breakpoints_hit = Vec::new();
        self.execution_failed = None;
        self.execution_trace = execution_trace;
        self.executor = executor;
        self.stopped = true;
        proof {
            assert(bp_views(self.breakpoints@) =~= Seq::<BreakpointView>::empty());
            assert(bp_types(bp_views(self.breakpoints@)) =~= old_types.take(0));
        }
        let n: usize = pending.len();
        let mut i: usize = 0;
        while i < n
            invariant
                i <= n,
                n == pending@.len(),
                old_types == bp_types(bp_views(pending@)),
                self.wf(),
                self.breakpoints@.len() == i,
                self.breakpoints_hit@.len() == 0,
                self.execution_failed is None,
                self.execution_trace == execution_trace,
                self.stopped,
                self.input_mode == old(self).input_mode,
                bp_types(bp_views(self.breakpoints@)) == old_types.take(i as int),
                forall|k: int|
                    0 <= k < i ==> (#[trigger] bp_views(self.breakpoints@)[k]).id == k as u8,
                spec_types_have_finish(old_types.take(i as int)) ==> self.executor@
                    == spec_flag_current(exec0),
                !spec_types_have_finish(old_types.take(i as int)) ==> self.executor == exec_val,
            decreases n - i,
        {
            let ghost pre_types = bp_types(bp_views(self.breakpoints@));
            let ghost pre_exec = self.executor@;
            let ty: BreakpointType = pending[i].ty.clone();
            let ghost ty_view = ty@;
            proof {
                assert(bp_views(pending@)[i as int].ty == old_types[i as int]);
                assert(ty_view == old_types[i as int]);
            }
            let ghost pre_live = bp_views(self.breakpoints@);
            let ghost pre_hit = bp_views(self.breakpoints_hit@);
            proof {
                assert(pre_live + pre_hit =~= pre_live);
                Self::lemma_marks_count_distinct(pre_live, pre_live.len() as int);
                assert(spec_held_ids(pre_live, pre_hit) == i);
            }
            let got: u8 = match self.create_breakpoint(ty) {
                Ok(id) => id,
                Err(_) => {
                    proof {
                        assert(false);
                    }
                    0
                },
            };
            proof {
                assert(got as int == i as int) by {
                    if (got as int) < i as int {
                        assert(pre_live[got as int].id == got);
                        assert(spec_id_in(pre_live, got));
                    }
                    if (got as int) > i as int {
                        assert(spec_id_in(pre_live, i as u8) || spec_id_in(pre_hit, i as u8));
                        if spec_id_in(pre_live, i as u8) {
                            let w = choose|w: int|
                                0 <= w < pre_live.len() && (#[trigger] pre_live[w]).id == i as u8;
                            assert(pre_live[w].id == w as u8);
                        }
                    }
                }
                assert forall|k: int|
                    0 <= k < i + 1 implies (#[trigger] bp_views(self.breakpoints@)[k]).id
                    == k as u8 by {
                    if k < i {
                        assert(bp_views(self.breakpoints@)[k] == pre_live[k]);
                    } else {
                        assert(bp_views(self.breakpoints@)[k].id == got);
                    }
                }
            }
            proof {
                assert(bp_types(bp_views(self.breakpoints@)) =~= old_types.take(i + 1)) by {
                    assert(old_types.take(i + 1).drop_last() =~= old_types.take(i as int));
                    assert(forall|k: int|
                        0 <= k < i ==> #[trigger] bp_types(bp_views(self.breakpoints@))[k]
                            == pre_types[k]);
                }
                if ty_view is Finish {
                    assert(old_types.take(i + 1)[i as int] is Finish);
                    assert(spec_types_have_finish(old_types.take(i + 1)));
                    assert(self.executor@ == spec_flag_current(pre_exec)) by {
                        assert(self.executor@.callstack.frames =~= spec_flag_current(
                            pre_exec,
                        ).callstack.frames);
                    }
                    if pre_exec == spec_flag_current(exec0) {
                        assert(self.executor@ == spec_flag_current(spec_flag_current(exec0)));
                        assert(spec_flag_current(spec_flag_current(exec0)) == spec_flag_current(
                            exec0,
                        )) by {
                            assert(spec_flag_current(spec_flag_current(exec0)).callstack.frames
                                =~= spec_flag_current(exec0).callstack.frames);
                        }
                    }
                } else {
                    assert(spec_types_have_finish(old_types.take(i + 1))
                        == spec_types_have_finish(old_types.take(i as int))) by {
                        if spec_types_have_finish(old_types.take(i + 1)) {
                            let k = choose|k: int|
                                0 <= k < old_types.take(i + 1).len() && (#[trigger] old_types.take(
                                    i + 1,
                                )[k]) is Finish;
                            if k < i {
                                assert(old_types.take(i as int)[k] is Finish);
                            }
                        }
                        if spec_types_have_finish(old_types.take(i as int)) {
                            let k = choose|k: int|
                                0 <= k < old_types.take(i as int).len() && (#[trigger] old_types.take(
                                    i as int,
                                )[k]) is Finish;
                            assert(old_types.take(i + 1)[k] is Finish);
                        }
                    }
                }
            }
            i = i + 1;
        }
        proof {
            assert(old_types.take(n as int) =~= old_types);
        }
    }
}

} // verus!
