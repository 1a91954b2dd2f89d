//! Tests for the debug variable tracker and variable value resolution.

use miden_debugger::felt::Felt;
use miden_debugger::trace::MemoryChiplet;
use miden_debugger::variables::{
    resolve_variable_value, DebugVarInfo, DebugVarLocation, DebugVarTracker,
};

#[test]
fn test_tracker_basic() {
    let mut tracker = DebugVarTracker::new();

    // Record some observations.
    tracker.record(1, DebugVarInfo::new("x".to_string(), DebugVarLocation::Stack(0)));
    tracker.record(5, DebugVarInfo::new("y".to_string(), DebugVarLocation::Stack(1)));

    // Initially no variables.
    assert_eq!(tracker.variable_count(), 0);

    // Process up to cycle 3.
    tracker.update_to_cycle(3);
    assert_eq!(tracker.variable_count(), 1);
    assert!(tracker.get_variable("x").is_some());
    assert!(tracker.get_variable("y").is_none());

    // Process up to cycle 10.
    tracker.update_to_cycle(10);
    assert_eq!(tracker.variable_count(), 2);
    assert!(tracker.get_variable("x").is_some());
    assert!(tracker.get_variable("y").is_some());

    // Resolving a stack-slot variable reads the operand stack.
    let x_snapshot = tracker.get_variable("x").unwrap();
    let stack = vec![Felt::new(42)];
    let value = resolve_variable_value(
        x_snapshot.info.value_location(),
        &stack,
        &MemoryChiplet::new(),
        0,
        10,
        0,
    );
    assert_eq!(value, Some(Felt::new(42)));
}

#[test]
fn last_observation_per_name_wins() {
    let mut tracker = DebugVarTracker::new();
    tracker.record(2, DebugVarInfo::new("x".to_string(), DebugVarLocation::Stack(0)));
    tracker.record(4, DebugVarInfo::new("x".to_string(), DebugVarLocation::Memory(64)));
    tracker.update_to_cycle(9);
    assert_eq!(tracker.variable_count(), 1);
    let snap = tracker.get_variable("x").unwrap();
    assert_eq!(snap.clk, 4);
    assert!(matches!(snap.info.value_location(), DebugVarLocation::Memory(64)));
}

#[test]
fn reset_returns_to_execution_start() {
    let mut tracker = DebugVarTracker::new();
    tracker.record(1, DebugVarInfo::new("x".to_string(), DebugVarLocation::Stack(0)));
    tracker.update_to_cycle(5);
    assert!(tracker.has_variables());
    tracker.reset();
    assert!(!tracker.has_variables());
    // The observation log is kept: folding again finds the variable.
    tracker.update_to_cycle(5);
    assert_eq!(tracker.variable_count(), 1);
}

#[test]
fn variable_locations_resolve() {
    let mut mem = MemoryChiplet::new();
    mem.write_element(0, 100, 3, Felt::new(55));
    mem.write_element(0, 1034, 3, Felt::new(66));
    let stack = vec![Felt::new(9), Felt::new(8)];

    let v = resolve_variable_value(&DebugVarLocation::Stack(1), &stack, &mem, 0, 9, 0);
    assert_eq!(v, Some(Felt::new(8)));
    let v = resolve_variable_value(&DebugVarLocation::Stack(5), &stack, &mem, 0, 9, 0);
    assert_eq!(v, None);
    let v = resolve_variable_value(&DebugVarLocation::Memory(100), &stack, &mem, 0, 9, 0);
    assert_eq!(v, Some(Felt::new(55)));
    let v = resolve_variable_value(&DebugVarLocation::Const(Felt::new(17)), &stack, &mem, 0, 9, 0);
    assert_eq!(v, Some(Felt::new(17)));
    // A frame local lives at its offset from the frame pointer.
    let v = resolve_variable_value(&DebugVarLocation::Local(10), &stack, &mem, 0, 9, 1024);
    assert_eq!(v, Some(Felt::new(66)));
    // Expression-computed locations are deliberately unresolved.
    let v = resolve_variable_value(&DebugVarLocation::Expression(vec![1]), &stack, &mem, 0, 9, 0);
    assert_eq!(v, None);
}

#[test]
fn locations_describe_themselves() {
    assert_eq!(DebugVarLocation::Stack(3).describe(), "stack[3]");
    assert_eq!(DebugVarLocation::Memory(1024).describe(), "mem[1024]");
    assert_eq!(DebugVarLocation::Const(Felt::new(9)).describe(), "const(9)");
    assert_eq!(DebugVarLocation::Local(2).describe(), "local[2]");
    assert_eq!(DebugVarLocation::Expression(vec![0]).describe(), "expr(...)");
}

#[test]
fn observations_at_cycle_zero_are_folded() {
    let mut tracker = DebugVarTracker::new();
    tracker.record(0, DebugVarInfo::new("x".to_string(), DebugVarLocation::Stack(0)));
    tracker.update_to_cycle(5);
    assert!(tracker.get_variable("x").is_some());
    // The same holds after returning to the start of execution.
    tracker.reset();
    tracker.update_to_cycle(0);
    assert!(tracker.get_variable("x").is_some());
}
