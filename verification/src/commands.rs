//! The commands of the interactive debugger's textual front end.

use vstd::prelude::*;

use crate::breakpoint::{
    spec_parse_breakpoint, BreakpointParseError, BreakpointType, BreakpointTypeView,
};
use crate::memexpr::{spec_parse_memexpr, MemExprError, ReadMemoryExpr};
use crate::parse::{spec_number, spec_tokens};

verus! {

/// A command of the interactive debugger.
#[derive(Debug)]
pub enum ReplCommand {
    /// Execute one machine cycle.
    Step,
    /// Execute this many machine cycles.
    StepN(u64),
    /// Execute until the next instruction boundary.
    Next,
    /// Run until a breakpoint matches or execution ends.
    Continue,
    /// Run until the current procedure returns.
    Finish,
    /// Set a breakpoint.
    Break(BreakpointType),
    /// List the breakpoints.
    Breakpoints,
    /// Delete the breakpoint with this identifier, or every user-created
    /// one.
    Delete(Option<u8>),
    /// Show the operand stack.
    Stack,
    /// Read memory.
    Memory(ReadMemoryExpr),
    /// Show local variables.
    Locals,
    /// Show all debug variables.
    Vars,
    /// Show the current source location.
    Where,
    /// Show the recent instructions.
    List,
    /// Show the call stack.
    Backtrace,
    /// Restart the program.
    Reload,
    /// Show the command summary.
    Help,
    /// Leave the debugger.
    Quit,
}

/// The mathematical value of a command.
pub enum ReplCommandView {
    Step,
    StepN(u64),
    Next,
    Continue,
    Finish,
    Break(BreakpointTypeView),
    Breakpoints,
    Delete(Option<u8>),
    Stack,
    Memory(ReadMemoryExpr),
    Locals,
    Vars,
    Where,
    List,
    Backtrace,
    Reload,
    Help,
    Quit,
}

impl View for ReplCommand {
    type V = ReplCommandView;

    open spec fn view(&self) -> ReplCommandView {
        match self {
            ReplCommand::Step => ReplCommandView::Step,
            ReplCommand::StepN(n) => ReplCommandView::StepN(*n),
            ReplCommand::Next => ReplCommandView::Next,
            ReplCommand::Continue => ReplCommandView::Continue,
            ReplCommand::Finish => ReplCommandView::Finish,
            ReplCommand::Break(ty) => ReplCommandView::Break(ty@),
            ReplCommand::Breakpoints => ReplCommandView::Breakpoints,
            ReplCommand::Delete(id) => ReplCommandView::Delete(*id),
            ReplCommand::Stack => ReplCommandView::Stack,
            ReplCommand::Memory(e) => ReplCommandView::Memory(*e),
            ReplCommand::Locals => ReplCommandView::Locals,
            ReplCommand::Vars => ReplCommandView::Vars,
            ReplCommand::Where => ReplCommandView::Where,
            ReplCommand::List => ReplCommandView::List,
            ReplCommand::Backtrace => ReplCommandView::Backtrace,
            ReplCommand::Reload => ReplCommandView::Reload,
            ReplCommand::Help => ReplCommandView::Help,
            ReplCommand::Quit => ReplCommandView::Quit,
        }
    }
}

/// Why a command failed to parse.
#[derive(Debug, Clone, Copy, PartialEq, Eq, Structural)]
pub enum CommandError {
    /// The input holds no command.
    Empty,
    /// The command word is not known.
    UnknownCommand,
    /// `step` with a malformed repetition count.
    InvalidCount,
    /// `delete` with a malformed identifier.
    InvalidDeleteId,
    /// Unexpected input after a command that takes no argument.
    UnexpectedArgument,
    /// A malformed breakpoint specification.
    Breakpoint(BreakpointParseError),
    /// A malformed memory read expression.
    Memory(MemExprError),
}

impl CommandError {
    /// The description each failure carries; a malformed breakpoint or
    /// memory expression reports its own parser's description.
    pub open spec fn spec_message(self) -> Seq<char> {
        match self {
            CommandError::Empty => "empty command"@,
            CommandError::UnknownCommand => "unknown command"@,
            CommandError::InvalidCount => "invalid step count"@,
            CommandError::InvalidDeleteId => "invalid breakpoint id"@,
            CommandError::UnexpectedArgument => "unexpected argument"@,
            CommandError::Breakpoint(e) => e.spec_message(),
            CommandError::Memory(e) => e.spec_message(),
        }
    }

    /// A human-readable description of the failure.
    pub fn message(&self) -> (r: &'static str)
        ensures
            r@ == self.spec_message(),
    {
        match self {
            CommandError::Empty => "empty command",
            CommandError::UnknownCommand => "unknown command",
            CommandError::InvalidCount => "invalid step count",
            CommandError::InvalidDeleteId => "invalid breakpoint id",
            CommandError::UnexpectedArgument => "unexpected argument",
            CommandError::Breakpoint(e) => e.message(),
            CommandError::Memory(e) => e.message(),
        }
    }
}

/// Whether a token is one of the given two command words.
pub open spec fn tok_is(t: Seq<char>, a: Seq<char>, b: Seq<char>) -> bool {
    t == a || t == b
}

/// The command the tokens `toks` denote.
pub open spec fn spec_parse_command(toks: Seq<Seq<char>>) -> Result<ReplCommandView, CommandError> {
    if toks.len() == 0 {
        Err(CommandError::Empty)
    } else {
        let cmd = toks[0];
        if tok_is(cmd, "s"@, "step"@) {
            if toks.len() == 1 {
                Ok(ReplCommandView::Step)
            } else if toks.len() == 2 {
                match spec_number(toks[1]) {
                    Some(n) => Ok(ReplCommandView::StepN(n)),
                    None => Err(CommandError::InvalidCount),
                }
            } else {
                Err(CommandError::InvalidCount)
            }
        } else if tok_is(cmd, "n"@, "next"@) {
            if toks.len() == 1 {
                Ok(ReplCommandView::Next)
            } else {
                Err(CommandError::UnexpectedArgument)
            }
        } else if tok_is(cmd, "c"@, "continue"@) {
            if toks.len() == 1 {
                Ok(ReplCommandView::Continue)
            } else {
                Err(CommandError::UnexpectedArgument)
            }
        } else if tok_is(cmd, "e"@, "finish"@) {
            if toks.len() == 1 {
                Ok(ReplCommandView::Finish)
            } else {
                Err(CommandError::UnexpectedArgument)
            }
        } else if tok_is(cmd, "b"@, "break"@) || cmd == "breakpoint"@ {
            match spec_parse_breakpoint(toks.skip(1)) {
                Ok(ty) => Ok(ReplCommandView::Break(ty)),
                Err(e) => Err(CommandError::Breakpoint(e)),
            }
        } else if tok_is(cmd, "bp"@, "breakpoints"@) {
            if toks.len() == 1 {
                Ok(ReplCommandView::Breakpoints)
            } else {
                Err(CommandError::UnexpectedArgument)
            }
        } else if tok_is(cmd, "d"@, "delete"@) {
            if toks.len() == 1 {
                Ok(ReplCommandView::Delete(None))
            } else if toks.len() == 2 {
                match spec_number(toks[1]) {
                    Some(n) => if n <= u8::MAX {
                        Ok(ReplCommandView::Delete(Some(n as u8)))
                    } else {
                        Err(CommandError::InvalidDeleteId)
                    },
                    None => Err(CommandError::InvalidDeleteId),
                }
            } else {
                Err(CommandError::InvalidDeleteId)
            }
        } else if cmd == "stack"@ {
            if toks.len() == 1 {
                Ok(ReplCommandView::Stack)
            } else {
                Err(CommandError::UnexpectedArgument)
            }
        } else if tok_is(cmd, "mem"@, "memory"@) {
            match spec_parse_memexpr(toks.skip(1)) {
                Ok(e) => Ok(ReplCommandView::Memory(e)),
                Err(e) => Err(CommandError::Memory(e)),
            }
        } else if cmd == "locals"@ {
            if toks.len() == 1 {
                Ok(ReplCommandView::Locals)
            } else {
                Err(CommandError::UnexpectedArgument)
            }
        } else if tok_is(cmd, "vars"@, "variables"@) {
            if toks.len() == 1 {
                Ok(ReplCommandView::Vars)
            } else {
                Err(CommandError::UnexpectedArgument)
            }
        } else if tok_is(cmd, "where"@, "w"@) {
            if toks.len() == 1 {
                Ok(ReplCommandView::Where)
            } else {
                Err(CommandError::UnexpectedArgument)
            }
        } else if tok_is(cmd, "l"@, "list"@) {
            if toks.len() == 1 {
                Ok(ReplCommandView::List)
            } else {
                Err(CommandError::UnexpectedArgument)
            }
        } else if tok_is(cmd, "bt"@, "backtrace"@) {
            if toks.len() == 1 {
                Ok(ReplCommandView::Backtrace)
            } else {
                Err(CommandError::UnexpectedArgument)
            }
        } else if cmd == "reload"@ {
            if toks.len() == 1 {
                Ok(ReplCommandView::Reload)
            } else {
                Err(CommandError::UnexpectedArgument)
            }
        } else if tok_is(cmd, "h"@, "help"@) || cmd == "?"@ {
            Ok(ReplCommandView::Help)
        } else if tok_is(cmd, "q"@, "quit"@) || cmd == "exit"@ {
            Ok(ReplCommandView::Quit)
        } else {
            Err(CommandError::UnknownCommand)
        }
    }
}

/// Whether `t` holds the same characters as `a` or as `b`.
fn tok_in2(t: &str, a: &str, b: &str) -> (r: bool)
    ensures
        r == tok_is(t@, a@, b@),
{
    crate::parse::str_eq(t, a) || crate::parse::str_eq(t, b)
}

impl ReplCommand {
    /// Parse one line of input as a command.
    pub fn parse(s: &str) -> (r: Result<ReplCommand, CommandError>)
        ensures
            match (r, spec_parse_command(spec_tokens(s@))) {
                (Ok(c), Ok(v)) => c@ == v,
                (Err(e1), Err(e2)) => e1 == e2,
                _ => false,
            },
    {
        let toks: Vec<String> = crate::parse::tokenize(s);
        let ghost ts = spec_tokens(s@);
        proof {
            assert(Seq::new(toks@.len(), |i: int| toks@[i]@) == ts);
        }
        let n: usize = toks.len();
        if n == 0 {
            return Err(CommandError::Empty);
        }
        proof {
            assert(ts[0] == toks@[0]@);
            if n >= 2 {
                assert(ts[1] == toks@[1]@);
            }
            assert(Seq::new(toks@.len(), |i: int| toks@[i]@).skip(1) =~= ts.skip(1));
        }
        let cmd: &str = toks[0].as_str();
        if tok_in2(cmd, "s", "step") {
            if n == 1 {
                Ok(ReplCommand::Step)
            } else if n == 2 {
                match crate::parse::parse_number(toks[1].as_str()) {
                    Some(v) => Ok(ReplCommand::StepN(v)),
                    None => Err(CommandError::InvalidCount),
                }
            } else {
                Err(CommandError::InvalidCount)
            }
        } else if tok_in2(cmd, "n", "next") {
            if n == 1 {
                Ok(ReplCommand::Next)
            } else {
                Err(CommandError::UnexpectedArgument)
            }
        } else if tok_in2(cmd, "c", "continue") {
            if n == 1 {
                Ok(ReplCommand::Continue)
            } else {
                Err(CommandError::UnexpectedArgument)
            }
        } else if tok_in2(cmd, "e", "finish") {
            if n == 1 {
                Ok(ReplCommand::Finish)
            } else {
                Err(CommandError::UnexpectedArgument)
            }
        } else if tok_in2(cmd, "b", "break") || crate::parse::str_eq(cmd, "breakpoint") {
            match BreakpointType::parse_tokens(&toks, 1) {
                Ok(ty) => Ok(ReplCommand::Break(ty)),
                Err(e) => Err(CommandError::Breakpoint(e)),
            }
        } else if tok_in2(cmd, "bp", "breakpoints") {
            if n == 1 {
                Ok(ReplCommand::Breakpoints)
            } else {
                Err(CommandError::UnexpectedArgument)
            }
        } else if tok_in2(cmd, "d", "delete") {
            if n == 1 {
                Ok(ReplCommand::Delete(None))
            } else if n == 2 {
                match crate::parse::parse_number(toks[1].as_str()) {
                    Some(v) => if v <= 255 {
                        Ok(ReplCommand::Delete(Some(v as u8)))
                    } else {
                        Err(CommandError::InvalidDeleteId)
                    },
                    None => Err(CommandError::InvalidDeleteId),
                }
            } else {
                Err(CommandError::InvalidDeleteId)
            }
        } else if crate::parse::str_eq(cmd, "stack") {
            if n == 1 {
                Ok(ReplCommand::Stack)
            } else {
                Err(CommandError::UnexpectedArgument)
            }
        } else if tok_in2(cmd, "mem", "memory") {
            match ReadMemoryExpr::parse_tokens(&toks, 1) {
                Ok(e) => Ok(ReplCommand::Memory(e)),
                Err(e) => Err(CommandError::Memory(e)),
            }
        } else if crate::parse::str_eq(cmd, "locals") {
            if n == 1 {
                Ok(ReplCommand::Locals)
            } else {
                Err(CommandError::UnexpectedArgument)
            }
        } else if tok_in2(cmd, "vars", "variables") {
            if n == 1 {
                Ok(ReplCommand::Vars)
            } else {
                Err(CommandError::UnexpectedArgument)
            }
        } else if tok_in2(cmd, "where", "w") {
            if n == 1 {
                Ok(ReplCommand::Where)
            } else {
                Err(CommandError::UnexpectedArgument)
            }
        } else if tok_in2(cmd, "l", "list") {
            if n == 1 {
                Ok(ReplCommand::List)
            } else {
                Err(CommandError::UnexpectedArgument)
            }
        } else if tok_in2(cmd, "bt", "backtrace") {
            if n == 1 {
                Ok(ReplCommand::Backtrace)
            } else {
                Err(CommandError::UnexpectedArgument)
            }
        } else if crate::parse::str_eq(cmd, "reload") {
            if n == 1 {
                Ok(ReplCommand::Reload)
            } else {
                Err(CommandError::UnexpectedArgument)
            }
        } else if tok_in2(cmd, "h", "help") || crate::parse::str_eq(cmd, "?") {
            Ok(ReplCommand::Help)
        } else if tok_in2(cmd, "q", "quit") || crate::parse::str_eq(cmd, "exit") {
            Ok(ReplCommand::Quit)
        } else {
            Err(CommandError::UnknownCommand)
        }
    }

    /// The command summary shown by `help`.
    pub fn help_text() -> (r: &'static str)
        ensures
            r@.len() > 0,
    {
        let text = "Available commands:

Execution:
  s, step [N]        Execute one (or N) machine cycle(s)
  n, next            Execute until next instruction boundary
  c, continue        Run until breakpoint or end
  e, finish          Run until current function returns
  reload             Restart program execution

Breakpoints:
  b, break <spec>    Set a breakpoint
                     Specs: at <cycle>, after <N>, in <proc>, <file>:<line>, <file>
  bp, breakpoints    List all breakpoints
  d, delete [id]     Delete breakpoint by id, or all if no id given

Inspection:
  stack              Show operand stack
  mem <addr> [type]  Show memory at address (e.g., mem 0x100 u32)
  locals             Show local variables
  vars               Show all debug variables
  where              Show current source location
  l, list            Show recent instructions
  bt, backtrace      Show call stack

Other:
  h, help            Show this help
  q, quit            Exit debugger
";
        proof {
            reveal_strlit(
                "Available commands:

Execution:
  s, step [N]        Execute one (or N) machine cycle(s)
  n, next            Execute until next instruction boundary
  c, continue        Run until breakpoint or end
  e, finish          Run until current function returns
  reload             Restart program execution

Breakpoints:
  b, break <spec>    Set a breakpoint
                     Specs: at <cycle>, after <N>, in <proc>, <file>:<line>, <file>
  bp, breakpoints    List all breakpoints
  d, delete [id]     Delete breakpoint by id, or all if no id given

Inspection:
  stack              Show operand stack
  mem <addr> [type]  Show memory at address (e.g., mem 0x100 u32)
  locals             Show local variables
  vars               Show all debug variables
  where              Show current source location
  l, list            Show recent instructions
  bt, backtrace      Show call stack

Other:
  h, help            Show this help
  q, quit            Exit debugger
",
            );
        }
        text
    }
}

} // verus!
