//! Scenario tests for the stepper, the call-stack reconstructor, the
//! breakpoint engine and the free-run loop decisions.

use miden_debugger::breakpoint::BreakpointType;
use miden_debugger::felt::Felt;
use miden_debugger::session::{SessionError, State};
use miden_debugger::stacktrace::{AsmOpInfo, CallStack, StepInfo, TraceEvent};
use miden_debugger::stacktrace::ResolvedLocation;
use miden_debugger::stepper::{DebugExecutor, StepError, StepOutcome};

fn felts(values: &[u64]) -> Vec<Felt> {
    values.iter().map(|v| Felt::new(*v)).collect()
}

fn asmop(procedure: &str, op: &str) -> AsmOpInfo {
    AsmOpInfo { procedure: procedure.to_string(), op: op.to_string(), location: None }
}

fn advance(
    stack: &[u64],
    op: &str,
    procedure: &str,
    events: Vec<TraceEvent>,
) -> StepOutcome {
    StepOutcome::Advanced {
        stack: felts(stack),
        ctx: 0,
        op: Some(op.to_string()),
        asmop: Some(asmop(procedure, op)),
        events,
    }
}

#[test]
fn step_after_termination_is_idempotent() {
    let mut exec = DebugExecutor::new(0, felts(&[]));
    let r = exec.step(advance(&[1], "push(1)", "main", vec![]));
    assert!(matches!(r, Ok(None)));
    assert_eq!(exec.cycle, 1);

    let r = exec.step(StepOutcome::Finished);
    assert!(matches!(r, Ok(None)));
    assert!(exec.stopped);

    // Every further step returns Ok(None) and changes nothing observable,
    // whatever the host hands in.
    let cycle = exec.cycle;
    let stack: Vec<u64> = exec.current_stack.iter().map(|f| f.as_u64()).collect();
    let depth = exec.callstack.depth();
    for _ in 0..3 {
        let r = exec.step(advance(&[9, 9], "push(9)", "main", vec![TraceEvent::FrameStart]));
        assert!(matches!(r, Ok(None)));
        assert_eq!(exec.cycle, cycle);
        let stack_now: Vec<u64> = exec.current_stack.iter().map(|f| f.as_u64()).collect();
        assert_eq!(stack_now, stack);
        assert_eq!(exec.callstack.depth(), depth);
        assert!(exec.stopped);
    }
}

#[test]
fn stepper_reports_fault_once() {
    let mut exec = DebugExecutor::new(0, felts(&[]));
    let err = miden_debugger::stepper::ExecutionError {
        cycle: 1,
        message: "division by zero".to_string(),
    };
    let r = exec.step(StepOutcome::Failed(err));
    assert!(matches!(r, Err(StepError::Vm(_))));
    assert!(exec.stopped);
    let r = exec.step(StepOutcome::Finished);
    assert!(matches!(r, Ok(None)));
}

#[test]
fn call_stack_tracks_open_frames() {
    let mut cs = CallStack::new();
    assert_eq!(cs.depth(), 1);

    let step = StepInfo { op: None, asmop: None, cycle: 1, ctx: 0 };
    let r = cs.next(&step, &vec![TraceEvent::FrameStart, TraceEvent::FrameStart]);
    assert!(matches!(r, Ok(None)));
    assert_eq!(cs.depth(), 3);

    let step = StepInfo { op: None, asmop: None, cycle: 2, ctx: 0 };
    let r = cs.next(&step, &vec![TraceEvent::FrameEnd]);
    assert!(matches!(r, Ok(Some(_))));
    assert_eq!(cs.depth(), 2);

    // A frame may exit and a sibling start in the same cycle; the exit is
    // processed first and the stack stays well nested.
    let step = StepInfo { op: None, asmop: None, cycle: 3, ctx: 0 };
    let r = cs.next(&step, &vec![TraceEvent::FrameEnd, TraceEvent::FrameStart]);
    assert!(matches!(r, Ok(Some(_))));
    assert_eq!(cs.depth(), 2);
}

#[test]
fn unmatched_frame_end_is_fatal() {
    let mut cs = CallStack::new();
    let step = StepInfo { op: None, asmop: None, cycle: 7, ctx: 0 };
    // Two exits with only the root frame open: the second has no frame to
    // close.
    let r = cs.next(&step, &vec![TraceEvent::FrameEnd, TraceEvent::FrameEnd]);
    match r {
        Err(miden_debugger::stacktrace::StackError::UnmatchedFrameEnd { cycle }) => {
            assert_eq!(cycle, 7)
        },
        _ => panic!("expected an unmatched frame exit error"),
    }
}

#[test]
fn assertion_events_do_not_change_stack_shape() {
    let mut cs = CallStack::new();
    let step = StepInfo { op: None, asmop: None, cycle: 4, ctx: 0 };
    let r = cs.next(&step, &vec![TraceEvent::AssertionFailed(Some(3))]);
    assert!(matches!(r, Ok(None)));
    assert_eq!(cs.depth(), 1);
    assert_eq!(cs.assertion_failures().len(), 1);
    assert_eq!(cs.assertion_failures()[0].cycle, 4);
    assert_eq!(cs.assertion_failures()[0].code, Some(3));
}

#[test]
fn breakpoint_ids_are_never_reused_while_held() {
    let mut st = State::new(DebugExecutor::new(0, felts(&[])));

    let mut seen = std::collections::HashSet::new();
    for _ in 0..255 {
        let id = st.create_breakpoint(BreakpointType::AtCycle(1)).expect("id space not full");
        assert!(seen.insert(id), "id {id} handed out twice while still live");
    }
    // Creating a 256th breakpoint while 255 are live is a fatal condition.
    let r = st.create_breakpoint(BreakpointType::AtCycle(1));
    assert_eq!(r, Err(SessionError::BreakpointIdsExhausted));

    // A deleted identifier is free again; live ones are still avoided.
    assert!(st.delete_breakpoint(7));
    let id = st.create_breakpoint(BreakpointType::AtCycle(2)).expect("one id is free");
    assert_eq!(id, 7);
}

#[test]
fn repeated_hits_of_one_breakpoint_do_not_exhaust_ids() {
    // A persistent breakpoint leaves a copy in the hit list on every
    // match, but all copies hold one identifier: the id space is
    // exhausted only by distinct held identifiers.
    let mut st = State::new(DebugExecutor::new(0, felts(&[])));
    st.create_breakpoint(BreakpointType::InProcedure("main".to_string())).unwrap();
    for _ in 0..300 {
        st.stopped = false;
        let start = st.executor.cycle;
        let halt = st.free_run_step(start, advance(&[], "noop", "main", vec![]));
        assert!(halt, "the procedure condition matches every boundary step");
    }
    assert!(st.breakpoints_hit.len() >= 300);
    let id = st
        .create_breakpoint(BreakpointType::AtCycle(1000))
        .expect("only two identifiers are held");
    assert_eq!(id, 1);
}

#[test]
fn finish_halts_only_on_the_flagged_frame() {
    // A recursive program: the procedure `rec` calls itself once. The
    // finish request is made while the outer `rec` frame is current, so
    // the inner, same-named frame's exit must not halt the loop.
    let mut st = State::new(DebugExecutor::new(0, felts(&[])));

    // Enter the outer `rec` frame.
    let halt = st.free_run_step(0, advance(&[], "call", "main", vec![TraceEvent::FrameStart]));
    assert!(!halt);

    // Request to run until the current (outer) frame returns.
    st.create_breakpoint(BreakpointType::Finish).unwrap();
    st.stopped = false;

    let start = st.executor.cycle;
    // The inner `rec` frame enters...
    let halt = st.free_run_step(start, advance(&[], "call", "rec", vec![TraceEvent::FrameStart]));
    assert!(!halt, "entering the recursive sibling must not halt");
    // ...and exits: a same-named frame, but not the flagged one.
    let halt = st.free_run_step(start, advance(&[], "end", "rec", vec![TraceEvent::FrameEnd]));
    assert!(!halt, "the inner frame's exit must not satisfy the finish request");
    // The outer frame exits: this is the flagged frame.
    let halt = st.free_run_step(start, advance(&[], "end", "rec", vec![TraceEvent::FrameEnd]));
    assert!(halt, "the flagged frame's exit halts the loop");
    assert!(st.stopped);
    // The finish request was consumed.
    assert!(st.breakpoints.is_empty());
}

#[test]
fn free_run_stops_on_termination_without_consuming_breakpoints() {
    let mut st = State::new(DebugExecutor::new(0, felts(&[])));
    st.create_breakpoint(BreakpointType::AtCycle(50)).unwrap();
    st.stopped = false;
    let halt = st.free_run_step(0, StepOutcome::Finished);
    assert!(halt);
    assert!(st.stopped);
    assert_eq!(st.breakpoints.len(), 1);
    assert!(st.breakpoints_hit.is_empty());
}

#[test]
fn next_breakpoint_matches_first_instruction_boundary() {
    let mut st = State::new(DebugExecutor::new(0, felts(&[])));
    st.create_breakpoint(BreakpointType::Next).unwrap();
    st.stopped = false;
    let start = st.executor.cycle;

    // A bookkeeping cycle without an instruction boundary does not match.
    let bookkeeping = StepOutcome::Advanced {
        stack: felts(&[]),
        ctx: 0,
        op: None,
        asmop: None,
        events: vec![],
    };
    let halt = st.free_run_step(start, bookkeeping);
    assert!(!halt);

    // The first instruction boundary does.
    let halt = st.free_run_step(start, advance(&[1], "push(1)", "main", vec![]));
    assert!(halt);
    assert!(st.breakpoints.is_empty(), "a next request is one-shot");
    assert_eq!(st.breakpoints_hit.len(), 1);
}

#[test]
fn end_to_end_program_run() {
    // A program that pushes 1, 2 and 3, calls a procedure that adds the
    // top two values, and returns: stepping to completion leaves the
    // operand stack holding the sum and the untouched value.
    fn script() -> Vec<StepOutcome> {
        vec![
            advance(&[1], "push(1)", "main", vec![]),
            advance(&[2, 1], "push(2)", "main", vec![]),
            advance(&[3, 2, 1], "push(3)", "main", vec![]),
            advance(&[3, 2, 1], "call.sum", "main", vec![TraceEvent::FrameStart]),
            advance(&[5, 1], "add", "sum", vec![]),
            advance(&[5, 1], "end", "sum", vec![TraceEvent::FrameEnd]),
            StepOutcome::Finished,
        ]
    }

    // Stepping to completion.
    let mut st = State::new(DebugExecutor::new(0, felts(&[])));
    for outcome in script() {
        let _ = st.executor.step(outcome);
    }
    assert!(st.executor.stopped);
    let stack: Vec<u64> = st.executor.current_stack.iter().map(|f| f.as_u64()).collect();
    assert_eq!(stack, vec![5, 1]);
    assert_eq!(st.executor.callstack.depth(), 1);

    // Free-running with a cycle breakpoint halts exactly at that cycle,
    // with the stack as of that cycle.
    let mut st = State::new(DebugExecutor::new(0, felts(&[])));
    st.create_breakpoint(BreakpointType::AtCycle(3)).unwrap();
    st.stopped = false;
    let start = st.executor.cycle;
    let mut halted_at = None;
    for outcome in script() {
        if st.free_run_step(start, outcome) {
            halted_at = Some(st.executor.cycle);
            break;
        }
    }
    assert_eq!(halted_at, Some(3));
    let stack: Vec<u64> = st.executor.current_stack.iter().map(|f| f.as_u64()).collect();
    assert_eq!(stack, vec![3, 2, 1]);
    assert!(!st.executor.stopped, "the machine itself is still running");
}

#[test]
fn procedure_breakpoint_matches_on_boundaries_only() {
    let mut st = State::new(DebugExecutor::new(0, felts(&[])));
    st.create_breakpoint(BreakpointType::InProcedure("sum".to_string())).unwrap();
    st.stopped = false;
    let start = st.executor.cycle;

    let halt = st.free_run_step(start, advance(&[1], "push(1)", "main", vec![]));
    assert!(!halt);
    let halt = st.free_run_step(
        start,
        advance(&[1], "call.sum", "sum", vec![TraceEvent::FrameStart]),
    );
    assert!(halt, "the frame now belongs to the watched procedure");
    // Persistent breakpoints stay live after a hit.
    assert_eq!(st.breakpoints.len(), 1);
    assert_eq!(st.breakpoints_hit.len(), 1);
}

#[test]
fn relative_cycle_breakpoint_counts_from_run_start() {
    // The count is relative to the run's start cycle: stepping by hand
    // between creation and the free run moves the target with the run.
    let mut st = State::new(DebugExecutor::new(0, felts(&[])));
    st.create_breakpoint(BreakpointType::AfterNCycles(3)).unwrap();
    // Advance two cycles by hand before free-running.
    for _ in 0..2 {
        let _ = st.executor.step(advance(&[], "noop", "main", vec![]));
    }
    st.stopped = false;
    let start = st.executor.cycle;
    assert_eq!(start, 2);

    let mut halted_at = None;
    for _ in 0..10 {
        if st.free_run_step(start, advance(&[], "noop", "main", vec![])) {
            halted_at = Some(st.executor.cycle);
            break;
        }
    }
    // The run began at cycle 2, so three stepped cycles land on cycle 5.
    assert_eq!(halted_at, Some(5));
}

#[test]
fn source_location_breakpoint_matches_file_and_line() {
    let mut st = State::new(DebugExecutor::new(0, felts(&[])));
    st.create_breakpoint(BreakpointType::AtSourceLocation {
        file: "lib/foo.masm".to_string(),
        line: Some(4),
    })
    .unwrap();
    st.stopped = false;
    let start = st.executor.cycle;

    let at = |line: u32| StepOutcome::Advanced {
        stack: felts(&[]),
        ctx: 0,
        op: Some("add".to_string()),
        asmop: Some(AsmOpInfo {
            procedure: "foo".to_string(),
            op: "add".to_string(),
            location: Some(ResolvedLocation {
                uri: "lib/foo.masm".to_string(),
                line,
                col: 1,
            }),
        }),
        events: vec![],
    };

    assert!(!st.free_run_step(start, at(3)), "line 3 is not the target");
    assert!(st.free_run_step(start, at(4)), "line 4 is the target");
}

#[test]
fn reload_recreates_breakpoints_against_the_new_run() {
    let mut st = State::new(DebugExecutor::new(0, felts(&[])));
    st.create_breakpoint(BreakpointType::AtCycle(3)).unwrap();
    st.create_breakpoint(BreakpointType::InProcedure("sum".to_string())).unwrap();
    // Advance and fault the run.
    let _ = st.free_run_step(
        0,
        StepOutcome::Failed(miden_debugger::stepper::ExecutionError {
            cycle: 1,
            message: "boom".to_string(),
        }),
    );
    assert!(st.execution_failed.is_some());

    st.reload(DebugExecutor::new(0, felts(&[7])), None);
    assert!(st.execution_failed.is_none());
    assert!(st.stopped);
    assert_eq!(st.executor.cycle, 0);
    assert_eq!(st.breakpoints.len(), 2);
    assert!(matches!(st.breakpoints[0].ty, BreakpointType::AtCycle(3)));
    assert!(matches!(&st.breakpoints[1].ty, BreakpointType::InProcedure(p) if p == "sum"));
    // Identifiers are reallocated from zero upward.
    assert_eq!(st.breakpoints[0].id, 0);
    assert_eq!(st.breakpoints[1].id, 1);
    assert!(st.breakpoints_hit.is_empty());
}

#[test]
fn finish_fires_when_enclosing_frame_exits_in_the_same_cycle() {
    // The flagged frame and its (unflagged) parent exit in one cycle: the
    // flagged frame is the one reported, so the finish request fires.
    let mut st = State::new(DebugExecutor::new(0, felts(&[])));
    // Enter two nested frames.
    let halt = st.free_run_step(
        0,
        advance(&[], "call", "main", vec![TraceEvent::FrameStart, TraceEvent::FrameStart]),
    );
    assert!(!halt);
    // Flag the inner frame.
    st.create_breakpoint(BreakpointType::Finish).unwrap();
    st.stopped = false;
    let start = st.executor.cycle;
    // Both frames exit in the same cycle.
    let halt = st.free_run_step(
        start,
        advance(&[], "end", "inner", vec![TraceEvent::FrameEnd, TraceEvent::FrameEnd]),
    );
    assert!(halt, "the flagged frame exited this cycle, so the finish request fires");
    assert!(st.breakpoints.is_empty());
}
