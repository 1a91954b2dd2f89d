//! An interactive debugger core for a stack-based virtual machine operating
//! over finite-field elements.
//!
//! The crate provides the execution stepping and introspection engine of the
//! debugger: a cycle-by-cycle stepper, a call-stack reconstructor driven by
//! frame-enter/frame-exit trace events, a breakpoint engine, a read-only
//! execution trace with a type-aware memory model, and a tracker for
//! source-level debug variables. The virtual machine itself is treated as an
//! opaque stepping oracle: the host process drives it and hands each cycle's
//! observations to this crate as plain values.

pub mod action;
pub mod breakpoint;
pub mod commands;
pub mod config;
pub mod felt;
pub mod input;
pub mod linker;
pub mod memexpr;
pub mod parse;
pub mod render;
pub mod repr;
pub mod session;
pub mod stacktrace;
pub mod stepper;
pub mod trace;
pub mod variables;
