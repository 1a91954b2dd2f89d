//! The stepper: drives the machine's observable state forward one cycle at
//! a time.
//!
//! The machine itself is an opaque oracle owned by the host process. Each
//! time the host advances it by one cycle, it reports what happened as a
//! [`StepOutcome`], and this state machine folds the outcome into the
//! debugger's observable state: the operand stack, the current operation
//! and its metadata, the active address space, the sliding window of recent
//! operations, and the reconstructed call stack. Once the machine reaches a
//! terminal state — normal completion or a reported fault — the stepper is
//! stopped for good: further steps return without any observable effect.

use vstd::prelude::*;

use crate::felt::Felt;
use crate::stacktrace::{
    opt_asmop_view, opt_str_view, spec_apply_events, spec_attribute, step_has_op, AsmOpInfo,
    AsmOpView, CallFrame, CallStack, CallStackView, StackError, StepInfo, TraceEvent,
};

verus! {

/// A machine fault reported by the host: an assertion failure or an
/// arithmetic/type fault, tagged with the cycle at which it occurred.
#[derive(Debug)]
pub struct ExecutionError {
    /// The cycle at which the machine faulted.
    pub cycle: u32,
    /// The host's description of the fault.
    pub message: String,
}

/// The mathematical value of a machine fault report.
pub struct ExecutionErrorView {
    pub cycle: u32,
    pub message: Seq<char>,
}

impl View for ExecutionError {
    type V = ExecutionErrorView;

    open spec fn view(&self) -> ExecutionErrorView {
        ExecutionErrorView { cycle: self.cycle, message: self.message@ }
    }
}

impl Clone for ExecutionError {
    fn clone(&self) -> (r: Self)
        ensures
            r@ == self@,
    {
        ExecutionError { cycle: self.cycle, message: self.message.clone() }
    }
}

/// Why a step failed: the machine faulted, or the host's trace events were
/// inconsistent with any well-nested call structure.
#[derive(Debug)]
pub enum StepError {
    /// The machine reported a fault; the stepper is terminal afterwards.
    Vm(ExecutionError),
    /// A frame-exit event fired with no open frame, at this cycle: a fatal
    /// mismatch between the host's instrumentation and the reconstructor.
    UnmatchedFrameEnd { cycle: u32 },
}

/// What the host observed while advancing the machine by one cycle.
#[derive(Debug)]
pub enum StepOutcome {
    /// The machine retired one cycle and is still running.
    Advanced {
        /// The operand stack after the cycle, top first.
        stack: Vec<Felt>,
        /// The address space active after the cycle.
        ctx: u32,
        /// The display form of the operation retired, absent for
        /// bookkeeping cycles.
        op: Option<String>,
        /// Assembly-level metadata for the operation, if any.
        asmop: Option<AsmOpInfo>,
        /// The trace events that fired synchronously during the cycle.
        events: Vec<TraceEvent>,
    },
    /// The machine reached normal termination; no cycle was retired.
    Finished,
    /// The machine faulted; no further cycle will ever be retired.
    Failed(ExecutionError),
}

/// The observable state of the stepper.
pub struct ExecutorView {
    pub current_stack: Seq<Felt>,
    pub current_op: Option<Seq<char>>,
    pub current_asmop: Option<AsmOpView>,
    pub contexts: Seq<u32>,
    pub root_context: u32,
    pub current_context: u32,
    pub callstack: CallStackView,
    pub recent: Seq<Seq<char>>,
    pub cycle: u32,
    pub stopped: bool,
}

/// The sequence `s` with `x` appended, unless `s` already holds `x`.
pub open spec fn seq_insert_unique(s: Seq<u32>, x: u32) -> Seq<u32> {
    if s.contains(x) {
        s
    } else {
        s.push(x)
    }
}

/// A bounded sliding window: `s` with `x` appended, the oldest entry
/// evicted once the window holds `limit` entries.
pub open spec fn spec_window_push(s: Seq<Seq<char>>, x: Seq<char>, limit: int) -> Seq<Seq<char>> {
    if s.len() < limit {
        s.push(x)
    } else {
        s.skip(1).push(x)
    }
}


/// How one advancing step relates the stepper's observable state before
/// (`pre`) and after (`post`): the cycle is bumped, the stack, operation,
/// metadata and address space are replaced by the step's, a newly seen
/// address space is recorded, a retired operation enters the sliding
/// window, and the cycle's trace events fold into the call stack — which
/// is left untouched, and the stepper made terminal, when the events are
/// inconsistent with any well-nested call structure.
pub open spec fn spec_step_advanced(
    pre: ExecutorView,
    post: ExecutorView,
    stack: Seq<Felt>,
    ctx: u32,
    op: Option<Seq<char>>,
    asmop: Option<AsmOpView>,
    events: Seq<TraceEvent>,
) -> bool {
    let step_view = crate::stacktrace::StepView { op, asmop, cycle: (pre.cycle + 1) as u32, ctx };
    &&& post.cycle == pre.cycle + 1
    &&& post.current_stack == stack
    &&& post.current_op == op
    &&& post.current_asmop == asmop
    &&& post.current_context == ctx
    &&& post.contexts == (if ctx != pre.current_context {
        seq_insert_unique(pre.contexts, ctx)
    } else {
        pre.contexts
    })
    &&& post.root_context == pre.root_context
    &&& post.recent == (match op {
        Some(o) => spec_window_push(pre.recent, o, 5),
        None => pre.recent,
    })
    &&& match spec_apply_events(
        pre.callstack.frames,
        pre.callstack.assertions,
        None,
        events,
        (pre.cycle + 1) as u32,
    ) {
        None => post.stopped && post.callstack == pre.callstack,
        Some(applied) => {
            &&& !post.stopped
            &&& post.callstack.assertions == applied.assertions
            &&& post.callstack.frames == (if step_has_op(step_view) && applied.frames.len() > 0 {
                applied.frames.update(
                    applied.frames.len() - 1,
                    spec_attribute(applied.frames.last(), step_view),
                )
            } else {
                applied.frames
            })
        },
    }
}

/// The stepper: the debugger's observable machine state, advanced one
/// cycle at a time from host-reported step outcomes.
pub struct DebugExecutor {
    /// The operand stack after the last step, top first.
    pub current_stack: Vec<Felt>,
    /// The display form of the operation retired by the last step.
    pub current_op: Option<String>,
    /// Assembly-level metadata for the last operation.
    pub current_asmop: Option<AsmOpInfo>,
    /// Every address space seen so far, in order of first appearance.
    pub contexts: Vec<u32>,
    /// The root address space.
    pub root_context: u32,
    /// The address space active after the last step.
    pub current_context: u32,
    /// The reconstructed call stack.
    pub callstack: CallStack,
    /// A sliding window of the last few retired operations.
    pub recent: Vec<String>,
    /// The current clock cycle; never decreases.
    pub cycle: u32,
    /// Whether execution has terminated, normally or by fault.
    pub stopped: bool,
}

impl View for DebugExecutor {
    type V = ExecutorView;

    open spec fn view(&self) -> ExecutorView {
        ExecutorView {
            current_stack: self.current_stack@,
            current_op: opt_str_view(self.current_op),
            current_asmop: opt_asmop_view(self.current_asmop),
            contexts: self.contexts@,
            root_context: self.root_context,
            current_context: self.current_context,
            callstack: self.callstack@,
            recent: Seq::new(self.recent@.len(), |i: int| self.recent@[i]@),
            cycle: self.cycle,
            stopped: self.stopped,
        }
    }
}

impl DebugExecutor {
    /// A stepper bound to a fresh run: cycle zero, the seeded operand
    /// stack, the root address space, and a call stack holding only the
    /// root frame.
    pub fn new(root_context: u32, initial_stack: Vec<Felt>) -> (r: DebugExecutor)
        ensures
            r@.current_stack == initial_stack@,
            r@.current_op is None,
            r@.current_asmop is None,
            r@.contexts =~= Seq::<u32>::empty(),
            r@.root_context == root_context,
            r@.current_context == root_context,
            r@.callstack.frames =~= seq![crate::stacktrace::spec_new_frame(0)],
            r@.callstack.assertions =~= Seq::<crate::stacktrace::AssertionFailure>::empty(),
            r@.recent =~= Seq::<Seq<char>>::empty(),
            r@.cycle == 0,
            !r@.stopped,
    {
        DebugExecutor {
            current_stack: initial_stack,
            current_op: None,
            current_asmop: None,
            contexts: Vec::new(),
            root_context,
            current_context: root_context,
            callstack: CallStack::new(),
            recent: Vec::new(),
            cycle: 0,
            stopped: false,
        }
    }

    /// Advance the observable state by one host-reported step.
    ///
    /// Once the machine has reached a terminal state, every further call
    /// returns `Ok(None)` and leaves every observable unchanged, whatever
    /// the host hands in. Otherwise the outcome is folded in: an advance
    /// bumps the cycle, replaces the stack, operation and address space,
    /// pushes the operation into the sliding window, and folds the cycle's
    /// trace events into the call stack, returning the frame that exited
    /// this cycle, if one did. Termination and faults make the stepper
    /// terminal; a fault is returned once, and an inconsistent event
    /// stream aborts with the cycle at which it was detected.
    pub fn step(&mut self, outcome: StepOutcome) -> (r: Result<Option<CallFrame>, StepError>)
        requires
            !old(self)@.stopped ==> old(self).cycle < u32::MAX,
            !old(self)@.stopped ==> old(self)@.contexts.len() + 1 <= usize::MAX,
            !old(self)@.stopped ==> (outcome matches StepOutcome::Advanced { events, .. } ==> old(
                self,
            )@.callstack.frames.len() + events@.len() <= usize::MAX),
        ensures
            old(self)@.stopped ==> final(self)@ == old(self)@ && (r matches Ok(e) && e is None),
            !old(self)@.stopped && outcome is Finished ==> final(self)@ == (ExecutorView {
                stopped: true,
                ..old(self)@
            }) && (r matches Ok(e) && e is None),
            !old(self)@.stopped ==> (outcome matches StepOutcome::Failed(e) ==> final(self)@
                == (ExecutorView { stopped: true, ..old(self)@ }) && (r matches Err(se)
                && se matches StepError::Vm(v) && v@ == e@)),
            !old(self)@.stopped ==> (outcome matches StepOutcome::Advanced {
                stack,
                ctx,
                op,
                asmop,
                events,
            } ==> {
                &&& spec_step_advanced(
                    old(self)@,
                    final(self)@,
                    stack@,
                    ctx,
                    opt_str_view(op),
                    opt_asmop_view(asmop),
                    events@,
                )
                &&& match spec_apply_events(
                    old(self)@.callstack.frames,
                    old(self)@.callstack.assertions,
                    None,
                    events@,
                    (old(self)@.cycle + 1) as u32,
                ) {
                    None => r matches Err(se) && se == (StepError::UnmatchedFrameEnd {
                        cycle: (old(self)@.cycle + 1) as u32,
                    }),
                    Some(applied) => match r {
                        Ok(e) => match (e, applied.exited) {
                            (Some(f), Some(v)) => f@ == v,
                            (None, None) => true,
                            _ => false,
                        },
                        Err(_) => false,
                    },
                }
            }),
    {
        if self.stopped {
            return Ok(None);
        }
        match outcome {
            StepOutcome::Finished => {
                self.stopped = true;
                Ok(None)
            },
            StepOutcome::Failed(e) => {
                self.stopped = true;
                Err(StepError::Vm(e))
            },
            StepOutcome::Advanced { stack, ctx, op, asmop, events } => {
                self.cycle = self.cycle + 1;
                self.current_stack = stack;
                if self.current_context != ctx {
                    let mut present: bool = false;
                    let mut i: usize = 0;
                    while i < self.contexts.len()
                        invariant
                            i <= self.contexts@.len(),
                            present == self.contexts@.take(i as int).contains(ctx),
                        decreases self.contexts@.len() - i,
                    {
                        if self.contexts[i] == ctx {
                            present = true;
                        }
                        proof {
                            let pre = self.contexts@.take(i as int);
                            assert(self.contexts@.take(i + 1) =~= pre.push(
                                self.contexts@[i as int],
                            ));
                            if self.contexts@[i as int] == ctx {
                                assert(self.contexts@.take(i + 1)[i as int] == ctx);
                                assert(self.contexts@.take(i + 1).contains(ctx));
                            } else if pre.contains(ctx) {
                                let k = choose|k: int| 0 <= k < pre.len() && pre[k] == ctx;
                                assert(self.contexts@.take(i + 1)[k] == ctx);
                                assert(self.contexts@.take(i + 1).contains(ctx));
                            } else {
                                assert forall|k: int|
                                    0 <= k < i + 1 implies #[trigger] self.contexts@.take(i + 1)[k]
                                    != ctx by {
                                    if k < i {
                                        assert(pre[k] == self.contexts@.take(i + 1)[k]);
                                    }
                                }
                                assert(!self.contexts@.take(i + 1).contains(ctx));
                            }
                        }
                        i = i + 1;
                    }
                    proof {
                        assert(self.contexts@.take(self.contexts@.len() as int)
                            =~= self.contexts@);
                    }
                    if !present {
                        self.contexts.push(ctx);
                    }
                    self.current_context = ctx;
                }
                let step_op: Option<String> = match &op {
                    Some(s) => Some(s.clone()),
                    None => None,
                };
                let step_asmop: Option<AsmOpInfo> = match &asmop {
                    Some(a) => Some(a.clone()),
                    None => None,
                };
                self.current_op = op;
                self.current_asmop = asmop;
                match &self.current_op {
                    Some(o) => {
                        let ghost before = Seq::new(
                            self.recent@.len(),
                            |i: int| self.recent@[i]@,
                        );
                        if self.recent.len() >= 5 {
                            let ghost rb = self.recent@;
                            self.recent.remove(0);
                            proof {
                                assert(self.recent@ =~= rb.skip(1));
                            }
                        }
                        self.recent.push(o.clone());
                        proof {
                            assert(Seq::new(self.recent@.len(), |i: int| self.recent@[i]@)
                                =~= spec_window_push(before, o@, 5));
                        }
                    },
                    None => {},
                }
                let step_info = StepInfo {
                    op: step_op,
                    asmop: step_asmop,
                    cycle: self.cycle,
                    ctx: self.current_context,
                };
                match self.callstack.next(&step_info, &events) {
                    Ok(exited) => Ok(exited),
                    Err(StackError::UnmatchedFrameEnd { cycle }) => {
                        self.stopped = true;
                        Err(StepError::UnmatchedFrameEnd { cycle })
                    },
                }
            },
        }
    }
}

} // verus!
