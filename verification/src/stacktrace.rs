//! Reconstruction of the source-level call stack from the machine's
//! frame-enter/frame-exit trace events.
//!
//! The machine does not expose its call/return structure directly: the host
//! reports a `FrameStart` event when a procedure frame is entered and a
//! `FrameEnd` event when it is left, each tagged with the cycle at which it
//! fired. This module folds that stream, together with the per-cycle
//! operation data, into a nested stack of call frames with resolved source
//! locations.

use vstd::prelude::*;

verus! {

/// How many recently retired operations each frame remembers.
pub const RECENT_OPS_LIMIT: usize = 5;

/// A host-reported marker of frame entry or exit, or of an assertion
/// failure, always paired with the cycle at which it fired.
#[derive(Debug, Clone, Copy, PartialEq, Eq, Structural)]
pub enum TraceEvent {
    /// A procedure call frame was entered.
    FrameStart,
    /// The innermost procedure call frame was left.
    FrameEnd,
    /// An assertion in the machine failed, with an optional error code.
    AssertionFailed(Option<u32>),
}

/// An assertion failure observed at a given cycle.
#[derive(Debug, Clone, Copy, PartialEq, Eq, Structural)]
pub struct AssertionFailure {
    pub cycle: u32,
    pub code: Option<u32>,
}

/// A resolved source position: a source file and a position inside it.
#[derive(Debug)]
pub struct ResolvedLocation {
    /// The identifier of the source file.
    pub uri: String,
    /// The one-based line number.
    pub line: u32,
    /// The one-based column number.
    pub col: u32,
}

/// The mathematical value of a resolved source position.
pub struct LocationView {
    pub uri: Seq<char>,
    pub line: u32,
    pub col: u32,
}

impl View for ResolvedLocation {
    type V = LocationView;

    open spec fn view(&self) -> LocationView {
        LocationView { uri: self.uri@, line: self.line, col: self.col }
    }
}

impl Clone for ResolvedLocation {
    fn clone(&self) -> (r: Self)
        ensures
            r@ == self@,
    {
        ResolvedLocation { uri: self.uri.clone(), line: self.line, col: self.col }
    }
}

/// The value of an optional resolved location.
pub open spec fn opt_loc_view(o: Option<ResolvedLocation>) -> Option<LocationView> {
    match o {
        Some(l) => Some(l@),
        None => None,
    }
}

/// The value of an optional string.
pub open spec fn opt_str_view(o: Option<String>) -> Option<Seq<char>> {
    match o {
        Some(s) => Some(s@),
        None => None,
    }
}

/// Assembly-level metadata attached to an operation: the procedure it was
/// compiled from and, where known, its source position.
#[derive(Debug)]
pub struct AsmOpInfo {
    /// The fully qualified name of the originating procedure.
    pub procedure: String,
    /// The display form of the assembly statement.
    pub op: String,
    /// The resolved source position of the statement, if known.
    pub location: Option<ResolvedLocation>,
}

/// The mathematical value of assembly-level operation metadata.
pub struct AsmOpView {
    pub procedure: Seq<char>,
    pub op: Seq<char>,
    pub location: Option<LocationView>,
}

impl View for AsmOpInfo {
    type V = AsmOpView;

    open spec fn view(&self) -> AsmOpView {
        AsmOpView { procedure: self.procedure@, op: self.op@, location: opt_loc_view(self.location) }
    }
}

impl Clone for AsmOpInfo {
    fn clone(&self) -> (r: Self)
        ensures
            r@ == self@,
    {
        AsmOpInfo {
            procedure: self.procedure.clone(),
            op: self.op.clone(),
            location: match &self.location {
                Some(l) => Some(l.clone()),
                None => None,
            },
        }
    }
}

/// The value of optional assembly metadata.
pub open spec fn opt_asmop_view(o: Option<AsmOpInfo>) -> Option<AsmOpView> {
    match o {
        Some(a) => Some(a@),
        None => None,
    }
}

/// Everything one step of the machine reports to the reconstructor: the
/// operation retired this cycle (absent for bookkeeping cycles), its
/// assembly-level metadata, the cycle, and the active address space.
#[derive(Debug)]
pub struct StepInfo {
    /// The display form of the operation retired this cycle, if any.
    pub op: Option<String>,
    /// Assembly-level metadata for the operation, if any.
    pub asmop: Option<AsmOpInfo>,
    /// The cycle that was just executed.
    pub cycle: u32,
    /// The address space active after the step.
    pub ctx: u32,
}

/// The mathematical value of a step report.
pub struct StepView {
    pub op: Option<Seq<char>>,
    pub asmop: Option<AsmOpView>,
    pub cycle: u32,
    pub ctx: u32,
}

impl View for StepInfo {
    type V = StepView;

    open spec fn view(&self) -> StepView {
        StepView {
            op: opt_str_view(self.op),
            asmop: opt_asmop_view(self.asmop),
            cycle: self.cycle,
            ctx: self.ctx,
        }
    }
}

/// Whether a step carried an operation or assembly metadata to attribute to
/// the innermost frame.
pub open spec fn step_has_op(s: StepView) -> bool {
    s.op is Some || s.asmop is Some
}

/// One remembered operation in a frame's sliding window.
#[derive(Debug)]
pub struct OpDetail {
    /// The display form of the operation, if one was retired.
    pub op: Option<String>,
    /// The source position the operation resolved to, if known.
    pub location: Option<ResolvedLocation>,
    /// The cycle at which the operation retired.
    pub cycle: u32,
}

/// The mathematical value of a remembered operation.
pub struct OpDetailView {
    pub op: Option<Seq<char>>,
    pub location: Option<LocationView>,
    pub cycle: u32,
}

impl View for OpDetail {
    type V = OpDetailView;

    open spec fn view(&self) -> OpDetailView {
        OpDetailView {
            op: opt_str_view(self.op),
            location: opt_loc_view(self.location),
            cycle: self.cycle,
        }
    }
}

/// The window entry a step contributes.
pub open spec fn spec_detail_of(s: StepView) -> OpDetailView {
    OpDetailView {
        op: s.op,
        location: match s.asmop {
            Some(a) => a.location,
            None => None,
        },
        cycle: s.cycle,
    }
}

/// The debugger's reconstruction of one active procedure invocation.
#[derive(Debug)]
pub struct CallFrame {
    /// The owning procedure's name, once an operation revealed it.
    pub procedure: Option<String>,
    /// A bounded window of recently retired operations, oldest first.
    pub recent: Vec<OpDetail>,
    /// Whether the free-run loop should halt when this very frame exits.
    pub break_on_exit: bool,
    /// The most recently resolved source position inside this frame.
    pub last_location: Option<ResolvedLocation>,
    /// The cycle at which the frame was entered.
    pub start_cycle: u32,
}

/// The mathematical value of a call frame.
pub struct FrameView {
    pub procedure: Option<Seq<char>>,
    pub recent: Seq<OpDetailView>,
    pub break_on_exit: bool,
    pub last_location: Option<LocationView>,
    pub start_cycle: u32,
}

impl View for CallFrame {
    type V = FrameView;

    open spec fn view(&self) -> FrameView {
        FrameView {
            procedure: opt_str_view(self.procedure),
            recent: Seq::new(self.recent@.len(), |i: int| self.recent@[i]@),
            break_on_exit: self.break_on_exit,
            last_location: opt_loc_view(self.last_location),
            start_cycle: self.start_cycle,
        }
    }
}

/// The frame created when a `FrameStart` event fires at `cycle`.
pub open spec fn spec_new_frame(cycle: u32) -> FrameView {
    FrameView {
        procedure: None,
        recent: Seq::empty(),
        break_on_exit: false,
        last_location: None,
        start_cycle: cycle,
    }
}

/// The frame `f` after the step `s` is attributed to it: the step's
/// operation enters the bounded window (oldest entry evicted when full),
/// the procedure name is learned from the first assembly metadata seen, and
/// the resolved location is updated when the step carries one.
pub open spec fn spec_attribute(f: FrameView, s: StepView) -> FrameView {
    FrameView {
        procedure: match s.asmop {
            Some(a) => if f.procedure is None {
                Some(a.procedure)
            } else {
                f.procedure
            },
            None => f.procedure,
        },
        recent: if f.recent.len() < RECENT_OPS_LIMIT {
            f.recent.push(spec_detail_of(s))
        } else {
            f.recent.skip(1).push(spec_detail_of(s))
        },
        break_on_exit: f.break_on_exit,
        last_location: match s.asmop {
            Some(a) => if a.location is Some {
                a.location
            } else {
                f.last_location
            },
            None => f.last_location,
        },
        start_cycle: f.start_cycle,
    }
}

impl CallFrame {
    /// A frame entered at `cycle`, before any operation ran inside it.
    pub fn new(cycle: u32) -> (r: CallFrame)
        ensures
            r@ == spec_new_frame(cycle),
    {
        let r = CallFrame {
            procedure: None,
            recent: Vec::new(),
            break_on_exit: false,
            last_location: None,
            start_cycle: cycle,
        };
        proof {
            assert(r@.recent =~= spec_new_frame(cycle).recent);
        }
        r
    }

    /// Whether the free-run loop should halt when this frame exits.
    pub fn should_break_on_exit(&self) -> (r: bool)
        ensures
            r == self@.break_on_exit,
    {
        self.break_on_exit
    }

    /// Mark this frame so that its exit halts the free-run loop.
    pub fn break_on_exit(&mut self)
        ensures
            final(self)@ == (FrameView { break_on_exit: true, ..old(self)@ }),
    {
        self.break_on_exit = true;
        proof {
            assert(self@.recent =~= old(self)@.recent);
        }
    }

    /// The most recently resolved source position inside this frame.
    pub fn last_resolved(&self) -> (r: &Option<ResolvedLocation>)
        ensures
            opt_loc_view(*r) == self@.last_location,
    {
        &self.last_location
    }

    /// Attribute one step to this frame.
    pub fn apply_step(&mut self, step: &StepInfo)
        ensures
            final(self)@ == spec_attribute(old(self)@, step@),
    {
        let op: Option<String> = match &step.op {
            Some(s) => Some(s.clone()),
            None => None,
        };
        let location: Option<ResolvedLocation> = match &step.asmop {
            Some(a) => match &a.location {
                Some(l) => Some(l.clone()),
                None => None,
            },
            None => None,
        };
        let detail = OpDetail { op, location, cycle: step.cycle };
        assert(detail@ == spec_detail_of(step@));
        if self.recent.len() >= RECENT_OPS_LIMIT {
            let ghost before = self.recent@;
            self.recent.remove(0);
            proof {
                assert(self.recent@ =~= before.skip(1));
            }
        }
        self.recent.push(detail);
        if self.procedure.is_none() {
            match &step.asmop {
                Some(a) => {
                    self.procedure = Some(a.procedure.clone());
                },
                None => {},
            }
        }
        match &step.asmop {
            Some(a) => match &a.location {
                Some(l) => {
                    self.last_location = Some(l.clone());
                },
                None => {},
            },
            None => {},
        }
        proof {
            assert(self@.recent =~= spec_attribute(old(self)@, step@).recent);
        }
    }
}

/// Why the reconstructor gave up: an internal-consistency failure of the
/// host's instrumentation, not a user error.
#[derive(Debug, Clone, Copy, PartialEq, Eq, Structural)]
pub enum StackError {
    /// A `FrameEnd` event fired with no open frame to close, at this cycle.
    UnmatchedFrameEnd { cycle: u32 },
}

/// The cycle's reported exited frame, updated by one more popped frame:
/// a frame flagged to break on exit is never displaced by an unflagged
/// one, so whenever any popped frame of the batch was flagged, the
/// reported frame is a flagged one.
pub open spec fn spec_exited_update(prev: Option<FrameView>, popped: FrameView) -> Option<
    FrameView,
> {
    match prev {
        Some(f) => if f.break_on_exit && !popped.break_on_exit {
            Some(f)
        } else {
            Some(popped)
        },
        None => Some(popped),
    }
}

/// The outcome of folding a batch of trace events into a frame stack: the
/// new stack, the assertion log, and the frame reported as the cycle's
/// exited frame — the most recently popped flagged frame, or the most
/// recently popped frame when none was flagged.
pub struct AppliedEvents {
    pub frames: Seq<FrameView>,
    pub assertions: Seq<AssertionFailure>,
    pub exited: Option<FrameView>,
}

/// Fold `events` in order into the stack `frames`: `FrameStart` pushes a
/// fresh frame, `FrameEnd` pops the innermost one (or fails on an empty
/// stack), and assertion failures are logged without changing the stack's
/// shape.
pub open spec fn spec_apply_events(
    frames: Seq<FrameView>,
    assertions: Seq<AssertionFailure>,
    exited: Option<FrameView>,
    events: Seq<TraceEvent>,
    cycle: u32,
) -> Option<AppliedEvents>
    decreases events.len(),
{
    if events.len() == 0 {
        Some(AppliedEvents { frames, assertions, exited })
    } else {
        match events[0] {
            TraceEvent::FrameStart => spec_apply_events(
                frames.push(spec_new_frame(cycle)),
                assertions,
                exited,
                events.skip(1),
                cycle,
            ),
            TraceEvent::FrameEnd => if frames.len() == 0 {
                None
            } else {
                spec_apply_events(
                    frames.drop_last(),
                    assertions,
                    spec_exited_update(exited, frames.last()),
                    events.skip(1),
                    cycle,
                )
            },
            TraceEvent::AssertionFailed(code) => spec_apply_events(
                frames,
                assertions.push(AssertionFailure { cycle, code }),
                exited,
                events.skip(1),
                cycle,
            ),
        }
    }
}

/// The number of `FrameStart` events in `events`.
pub open spec fn num_frame_starts(events: Seq<TraceEvent>) -> int
    decreases events.len(),
{
    if events.len() == 0 {
        0
    } else {
        (if events[0] is FrameStart {
            1int
        } else {
            0int
        }) + num_frame_starts(events.skip(1))
    }
}

/// The number of `FrameEnd` events in `events`.
pub open spec fn num_frame_ends(events: Seq<TraceEvent>) -> int
    decreases events.len(),
{
    if events.len() == 0 {
        0
    } else {
        (if events[0] is FrameEnd {
            1int
        } else {
            0int
        }) + num_frame_ends(events.skip(1))
    }
}

/// An event stream is well nested from a stack of depth `depth` when no
/// `FrameEnd` ever fires with every frame already closed.
pub open spec fn well_nested_from(events: Seq<TraceEvent>, depth: int) -> bool
    decreases events.len(),
{
    if events.len() == 0 {
        true
    } else {
        match events[0] {
            TraceEvent::FrameStart => well_nested_from(events.skip(1), depth + 1),
            TraceEvent::FrameEnd => depth > 0 && well_nested_from(events.skip(1), depth - 1),
            TraceEvent::AssertionFailed(_) => well_nested_from(events.skip(1), depth),
        }
    }
}

/// For every well-nested event stream, folding the events succeeds — the
/// stack's size never goes negative — and the resulting stack holds exactly
/// the frames still open: the ones it started with, plus one per
/// `FrameStart`, minus one per `FrameEnd`.
pub proof fn lemma_well_nested_events_preserve_stack(
    frames: Seq<FrameView>,
    assertions: Seq<AssertionFailure>,
    exited: Option<FrameView>,
    events: Seq<TraceEvent>,
    cycle: u32,
)
    requires
        well_nested_from(events, frames.len() as int),
    ensures
        spec_apply_events(frames, assertions, exited, events, cycle) is Some,
        spec_apply_events(frames, assertions, exited, events, cycle)->Some_0.frames.len()
            == frames.len() + num_frame_starts(events) - num_frame_ends(events),
        num_frame_ends(events) <= frames.len() + num_frame_starts(events),
    decreases events.len(),
{
    if events.len() > 0 {
        match events[0] {
            TraceEvent::FrameStart => {
                lemma_well_nested_events_preserve_stack(
                    frames.push(spec_new_frame(cycle)),
                    assertions,
                    exited,
                    events.skip(1),
                    cycle,
                );
            },
            TraceEvent::FrameEnd => {
                lemma_well_nested_events_preserve_stack(
                    frames.drop_last(),
                    assertions,
                    spec_exited_update(exited, frames.last()),
                    events.skip(1),
                    cycle,
                );
            },
            TraceEvent::AssertionFailed(code) => {
                lemma_well_nested_events_preserve_stack(
                    frames,
                    assertions.push(AssertionFailure { cycle, code }),
                    exited,
                    events.skip(1),
                    cycle,
                );
            },
        }
    }
}

/// The reconstructed stack of call frames: the root frame is pushed at
/// execution start, and the stack is never empty while execution is in
/// progress unless the event stream itself closed every frame.
#[derive(Debug)]
pub struct CallStack {
    frames: Vec<CallFrame>,
    assertions: Vec<AssertionFailure>,
}

/// The mathematical value of a call stack.
pub struct CallStackView {
    pub frames: Seq<FrameView>,
    pub assertions: Seq<AssertionFailure>,
}

impl View for CallStack {
    type V = CallStackView;

    closed spec fn view(&self) -> CallStackView {
        CallStackView {
            frames: Seq::new(self.frames@.len(), |i: int| self.frames@[i]@),
            assertions: self.assertions@,
        }
    }
}

impl CallStack {
    /// A stack holding only the root frame, entered at cycle zero.
    pub fn new() -> (r: CallStack)
        ensures
            r@.frames =~= seq![spec_new_frame(0)],
            r@.assertions =~= Seq::<AssertionFailure>::empty(),
    {
        let mut frames: Vec<CallFrame> = Vec::new();
        frames.push(CallFrame::new(0));
        CallStack { frames, assertions: Vec::new() }
    }

    /// How many frames are currently open.
    pub fn depth(&self) -> (r: usize)
        ensures
            r == self@.frames.len(),
    {
        self.frames.len()
    }

    /// The currently open frames, outermost first.
    pub fn frames(&self) -> (r: &Vec<CallFrame>)
        ensures
            r@.len() == self@.frames.len(),
            forall|i: int| 0 <= i < r@.len() ==> (#[trigger] r@[i])@ == self@.frames[i],
    {
        &self.frames
    }

    /// The innermost open frame, if any frame is open.
    pub fn current_frame(&self) -> (r: Option<&CallFrame>)
        ensures
            self@.frames.len() == 0 <==> r is None,
            r matches Some(f) ==> f@ == self@.frames.last(),
    {
        if self.frames.len() == 0 {
            None
        } else {
            Some(&self.frames[self.frames.len() - 1])
        }
    }

    /// The assertion failures observed so far, oldest first.
    pub fn assertion_failures(&self) -> (r: &Vec<AssertionFailure>)
        ensures
            r@ == self@.assertions,
    {
        &self.assertions
    }

    /// Mark the innermost frame so that its exit halts the free-run loop.
    /// Reports whether a frame was open to mark.
    pub fn break_on_exit_current(&mut self) -> (r: bool)
        ensures
            r == (old(self)@.frames.len() > 0),
            !r ==> final(self)@.frames =~= old(self)@.frames,
            r ==> final(self)@.frames =~= old(self)@.frames.update(
                old(self)@.frames.len() - 1,
                (FrameView { break_on_exit: true, ..old(self)@.frames.last() }),
            ),
            final(self)@.assertions == old(self)@.assertions,
    {
        let n: usize = self.frames.len();
        if n == 0 {
            return false;
        }
        let mut f: CallFrame = match self.frames.pop() {
            Some(f) => f,
            None => {
                proof {
                    assert(false);
                }
                CallFrame::new(0)
            },
        };
        f.break_on_exit();
        self.frames.push(f);
        proof {
            assert(final(self)@.frames =~= old(self)@.frames.update(
                old(self)@.frames.len() - 1,
                (FrameView { break_on_exit: true, ..old(self)@.frames.last() }),
            ));
        }
        true
    }

    /// Observe one step: fold this cycle's trace events into the stack
    /// (every `FrameEnd` is processed before any later `FrameStart` of the
    /// batch, in host order), then attribute the step's operation to the
    /// innermost frame. Returns the cycle's exited frame, if any
    /// `FrameEnd` fired: the most recently popped frame flagged to break
    /// on exit, or the most recently popped frame when none was flagged,
    /// so a flagged frame's exit is reported even when an enclosing frame
    /// exits in the same cycle. A `FrameEnd` with no open frame is a
    /// fatal host-instrumentation inconsistency, reported with its cycle;
    /// the stack is then left exactly as it was, so the state at the
    /// point of failure stays inspectable.
    #[verifier::loop_isolation(false)]
    pub fn next(&mut self, step: &StepInfo, events: &Vec<TraceEvent>) -> (r: Result<
        Option<CallFrame>,
        StackError,
    >)
        requires
            old(self)@.frames.len() + events@.len() <= usize::MAX,
        ensures
            match spec_apply_events(
                old(self)@.frames,
                old(self)@.assertions,
                None,
                events@,
                step.cycle,
            ) {
                None => r == Result::<Option<CallFrame>, StackError>::Err(
                    StackError::UnmatchedFrameEnd { cycle: step.cycle },
                ) && *final(self) == *old(self),
                Some(applied) => {
                    &&& final(self)@.assertions == applied.assertions
                    &&& final(self)@.frames == (if step_has_op(step@) && applied.frames.len() > 0 {
                        applied.frames.update(
                            applied.frames.len() - 1,
                            spec_attribute(applied.frames.last(), step@),
                        )
                    } else {
                        applied.frames
                    })
                    &&& match r {
                        Ok(e) => match (e, applied.exited) {
                            (Some(f), Some(v)) => f@ == v,
                            (None, None) => true,
                            _ => false,
                        },
                        Err(_) => false,
                    }
                },
            },
    {
        let ghost all = spec_apply_events(
            old(self)@.frames,
            old(self)@.assertions,
            None,
            events@,
            step.cycle,
        );
        // First pass: check the batch against the current depth without
        // touching the stack, so that a malformed batch leaves it as it
        // was.
        let mut depth: usize = self.frames.len();
        let ghost mut vf = self@.frames;
        let ghost mut va = self@.assertions;
        let ghost mut ve: Option<FrameView> = None;
        let mut j: usize = 0;
        proof {
            assert(events@.skip(0) =~= events@);
        }
        while j < events.len()
            invariant
                j <= events@.len(),
                depth == vf.len(),
                depth <= old(self)@.frames.len() + j,
                spec_apply_events(vf, va, ve, events@.skip(j as int), step.cycle) == all,
            decreases events@.len() - j,
        {
            proof {
                assert(events@.skip(j as int)[0] == events@[j as int]);
                assert(events@.skip(j as int).skip(1) =~= events@.skip(j + 1));
            }
            match events[j] {
                TraceEvent::FrameStart => {
                    proof {
                        vf = vf.push(spec_new_frame(step.cycle));
                    }
                    depth = depth + 1;
                },
                TraceEvent::FrameEnd => {
                    if depth == 0 {
                        proof {
                            assert(all is None);
                        }
                        return Err(StackError::UnmatchedFrameEnd { cycle: step.cycle });
                    }
                    proof {
                        ve = spec_exited_update(ve, vf.last());
                        vf = vf.drop_last();
                    }
                    depth = depth - 1;
                },
                TraceEvent::AssertionFailed(code) => {
                    proof {
                        va = va.push(AssertionFailure { cycle: step.cycle, code });
                    }
                },
            }
            j = j + 1;
        }
        proof {
            assert(events@.skip(events@.len() as int) =~= Seq::<TraceEvent>::empty());
            assert(all is Some);
        }
        // Second pass: the batch is well formed against this stack; fold
        // it in for real.
        let mut exited: Option<CallFrame> = None;
        let mut i: usize = 0;
        while i < events.len()
            invariant
                i <= events@.len(),
                self@.frames.len() <= old(self)@.frames.len() + i,
                spec_apply_events(
                    self@.frames,
                    self@.assertions,
                    match &exited {
                        Some(f) => Some(f@),
                        None => None,
                    },
                    events@.skip(i as int),
                    step.cycle,
                ) == all,
            decreases events@.len() - i,
        {
            let ghost pre_frames = self@.frames;
            proof {
                assert(events@.skip(i as int)[0] == events@[i as int]);
                assert(events@.skip(i as int).skip(1) =~= events@.skip(i + 1));
            }
            match events[i] {
                TraceEvent::FrameStart => {
                    self.frames.push(CallFrame::new(step.cycle));
                    proof {
                        assert(self@.frames =~= pre_frames.push(spec_new_frame(step.cycle)));
                    }
                },
                TraceEvent::FrameEnd => {
                    if self.frames.len() == 0 {
                        proof {
                            assert(false);
                        }
                        return Err(StackError::UnmatchedFrameEnd { cycle: step.cycle });
                    }
                    let popped: CallFrame = match self.frames.pop() {
                        Some(f) => f,
                        None => {
                            proof {
                                assert(false);
                            }
                            CallFrame::new(0)
                        },
                    };
                    proof {
                        assert(popped@ == pre_frames.last());
                        assert(self@.frames =~= pre_frames.drop_last());
                    }
                    let keep_previous: bool = match &exited {
                        Some(f) => f.break_on_exit && !popped.break_on_exit,
                        None => false,
                    };
                    if !keep_previous {
                        exited = Some(popped);
                    }
                },
                TraceEvent::AssertionFailed(code) => {
                    self.assertions.push(AssertionFailure { cycle: step.cycle, code });
                    proof {
                        assert(self@.frames =~= pre_frames);
                    }
                },
            }
            i = i + 1;
        }
        let has_op: bool = step.op.is_some() || step.asmop.is_some();
        if has_op && self.frames.len() > 0 {
            let ghost pre_frames = self@.frames;
            let mut f: CallFrame = match self.frames.pop() {
                Some(f) => f,
                None => {
                    proof {
                        assert(false);
                    }
                    CallFrame::new(0)
                },
            };
            f.apply_step(step);
            self.frames.push(f);
            proof {
                assert(self@.frames =~= pre_frames.update(
                    pre_frames.len() - 1,
                    spec_attribute(pre_frames.last(), step@),
                ));
            }
        }
        Ok(exited)
    }
}

/// Folding trace events never sets a frame's break-on-exit flag: every
/// flagged frame in the resulting stack, and every flagged frame reported
/// as exited, is one of the frames in `orig` — frames freshly entered by a
/// `FrameStart`, such as a recursive sibling of a flagged frame, start
/// unflagged. So a finish request, which flags exactly the frame current
/// at its creation, can only ever be fired by that exact frame's exit.
pub proof fn lemma_events_never_flag_frames(
    frames: Seq<FrameView>,
    assertions: Seq<AssertionFailure>,
    exited: Option<FrameView>,
    events: Seq<TraceEvent>,
    cycle: u32,
    orig: Seq<FrameView>,
)
    requires
        forall|i: int|
            0 <= i < frames.len() ==> ((#[trigger] frames[i]).break_on_exit ==> orig.contains(
                frames[i],
            )),
        exited matches Some(f) ==> (f.break_on_exit ==> orig.contains(f)),
    ensures
        spec_apply_events(frames, assertions, exited, events, cycle) matches Some(applied) ==> {
            &&& forall|i: int|
                0 <= i < applied.frames.len() ==> ((#[trigger] applied.frames[i]).break_on_exit
                    ==> orig.contains(applied.frames[i]))
            &&& (applied.exited matches Some(f) ==> (f.break_on_exit ==> orig.contains(f)))
        },
    decreases events.len(),
{
    if events.len() > 0 {
        match events[0] {
            TraceEvent::FrameStart => {
                let pushed = frames.push(spec_new_frame(cycle));
                assert forall|i: int|
                    0 <= i < pushed.len() implies ((#[trigger] pushed[i]).break_on_exit
                    ==> orig.contains(pushed[i])) by {
                    if i < frames.len() {
                        assert(pushed[i] == frames[i]);
                    } else {
                        assert(!pushed[i].break_on_exit);
                    }
                }
                lemma_events_never_flag_frames(
                    pushed,
                    assertions,
                    exited,
                    events.skip(1),
                    cycle,
                    orig,
                );
            },
            TraceEvent::FrameEnd => {
                if frames.len() > 0 {
                    assert forall|i: int|
                        0 <= i < frames.drop_last().len() implies ((#[trigger] frames.drop_last()[i]).break_on_exit
                        ==> orig.contains(frames.drop_last()[i])) by {
                        assert(frames.drop_last()[i] == frames[i]);
                    }
                    assert(frames.last() == frames[frames.len() - 1]);
                    assert(spec_exited_update(exited, frames.last()) matches Some(g) ==> (
                    g.break_on_exit ==> orig.contains(g)));
                    lemma_events_never_flag_frames(
                        frames.drop_last(),
                        assertions,
                        spec_exited_update(exited, frames.last()),
                        events.skip(1),
                        cycle,
                        orig,
                    );
                }
            },
            TraceEvent::AssertionFailed(code) => {
                lemma_events_never_flag_frames(
                    frames,
                    assertions.push(AssertionFailure { cycle, code }),
                    exited,
                    events.skip(1),
                    cycle,
                    orig,
                );
            },
        }
    }
}

} // verus!
