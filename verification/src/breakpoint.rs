//! Breakpoints: conditions under which the free-run loop halts.
//!
//! A breakpoint is keyed by a small identifier that is reused only once no
//! live or already-hit breakpoint holds it. `Next` and `Finish` are
//! one-shot: the first match consumes them. The other variants persist
//! until deleted.

use vstd::prelude::*;

use crate::stacktrace::LocationView;

verus! {

/// The condition a breakpoint watches for.
#[derive(Debug)]
pub enum BreakpointType {
    /// Halt when the given absolute cycle is reached. Matches only the
    /// step that lands exactly on that cycle: a target already passed
    /// when a free run begins does not fire.
    AtCycle(u32),
    /// Halt once this many cycles have passed, counted from the start of
    /// the free run being evaluated.
    AfterNCycles(u32),
    /// Halt when the current frame belongs to the named procedure.
    InProcedure(String),
    /// Halt when the current operation resolves to this file, and to this
    /// line if one is given.
    AtSourceLocation { file: String, line: Option<u32> },
    /// Halt at the next instruction boundary; one-shot.
    Next,
    /// Halt when the frame that was current at creation time exits;
    /// one-shot.
    Finish,
}

/// The mathematical value of a breakpoint condition.
pub enum BreakpointTypeView {
    AtCycle(u32),
    AfterNCycles(u32),
    InProcedure(Seq<char>),
    AtSourceLocation { file: Seq<char>, line: Option<u32> },
    Next,
    Finish,
}

impl View for BreakpointType {
    type V = BreakpointTypeView;

    open spec fn view(&self) -> BreakpointTypeView {
        match self {
            BreakpointType::AtCycle(n) => BreakpointTypeView::AtCycle(*n),
            BreakpointType::AfterNCycles(n) => BreakpointTypeView::AfterNCycles(*n),
            BreakpointType::InProcedure(name) => BreakpointTypeView::InProcedure(name@),
            BreakpointType::AtSourceLocation { file, line } => (BreakpointTypeView::AtSourceLocation {
                file: file@,
                line: *line,
            }),
            BreakpointType::Next => BreakpointTypeView::Next,
            BreakpointType::Finish => BreakpointTypeView::Finish,
        }
    }
}

impl Clone for BreakpointType {
    fn clone(&self) -> (r: Self)
        ensures
            r@ == self@,
    {
        match self {
            BreakpointType::AtCycle(n) => BreakpointType::AtCycle(*n),
            BreakpointType::AfterNCycles(n) => BreakpointType::AfterNCycles(*n),
            BreakpointType::InProcedure(name) => BreakpointType::InProcedure(name.clone()),
            BreakpointType::AtSourceLocation { file, line } => BreakpointType::AtSourceLocation {
                file: file.clone(),
                line: *line,
            },
            BreakpointType::Next => BreakpointType::Next,
            BreakpointType::Finish => BreakpointType::Finish,
        }
    }
}

/// A breakpoint: its identifier, the cycle at which it was created, and
/// the condition it watches for.
#[derive(Debug)]
pub struct Breakpoint {
    /// The identifier; unique among live and hit breakpoints.
    pub id: u8,
    /// The cycle at which the breakpoint was created.
    pub creation_cycle: u32,
    /// The watched condition.
    pub ty: BreakpointType,
}

/// The mathematical value of a breakpoint.
pub struct BreakpointView {
    pub id: u8,
    pub creation_cycle: u32,
    pub ty: BreakpointTypeView,
}

impl View for Breakpoint {
    type V = BreakpointView;

    open spec fn view(&self) -> BreakpointView {
        BreakpointView { id: self.id, creation_cycle: self.creation_cycle, ty: self.ty@ }
    }
}

impl Clone for Breakpoint {
    fn clone(&self) -> (r: Self)
        ensures
            r@ == self@,
    {
        Breakpoint { id: self.id, creation_cycle: self.creation_cycle, ty: self.ty.clone() }
    }
}

/// Whether a breakpoint is consumed by its first match.
pub open spec fn spec_is_one_shot(ty: BreakpointTypeView) -> bool {
    ty is Next || ty is Finish
}

/// Whether a breakpoint was created by a stepping command rather than by
/// an explicit breakpoint request.
pub open spec fn spec_is_internal(ty: BreakpointTypeView) -> bool {
    ty is Next || ty is Finish
}

impl Breakpoint {
    /// Whether this breakpoint is consumed by its first match.
    pub fn is_one_shot(&self) -> (r: bool)
        ensures
            r == spec_is_one_shot(self@.ty),
    {
        match &self.ty {
            BreakpointType::Next => true,
            BreakpointType::Finish => true,
            _ => false,
        }
    }

    /// Whether this breakpoint was created by a stepping command (`Next`,
    /// `Finish`) rather than by an explicit breakpoint request.
    pub fn is_internal(&self) -> (r: bool)
        ensures
            r == spec_is_internal(self@.ty),
    {
        match &self.ty {
            BreakpointType::Next => true,
            BreakpointType::Finish => true,
            _ => false,
        }
    }
}

/// The reconstructed state a breakpoint is evaluated against, once per
/// step of the free-run loop.
pub struct BreakpointEnv {
    /// The cycle just executed.
    pub current_cycle: u32,
    /// How many cycles the loop has stepped since it began.
    pub cycles_stepped: int,
    /// Whether this step retired an operation at an instruction boundary;
    /// location and procedure conditions only match on such steps.
    pub is_boundary: bool,
    /// The current frame's procedure name, if known.
    pub procedure: Option<Seq<char>>,
    /// The source position the current frame's latest operation resolved
    /// to, if any.
    pub location: Option<LocationView>,
}

/// Whether a breakpoint matches the given reconstructed state.
///
/// `AtCycle` matches exactly at its absolute cycle and at no other step;
/// since the cycle counter is strictly increasing, a target that was
/// already passed when a free run begins never fires. `AfterNCycles` is
/// relative to the run's start: it matches once the run has stepped at
/// least that many cycles, so the run halts at the first evaluated step
/// that reaches the count. `Next` matches the first instruction boundary
/// after at least one cycle of the run. The location and procedure
/// conditions match only at instruction boundaries. `Finish` never
/// matches here: it is realized by flagging the frame that was current at
/// creation time, and fires when that exact frame exits.
pub open spec fn spec_bp_matches(bp: BreakpointView, env: BreakpointEnv) -> bool {
    match bp.ty {
        BreakpointTypeView::AtCycle(n) => env.current_cycle == n,
        BreakpointTypeView::AfterNCycles(n) => env.cycles_stepped >= n,
        BreakpointTypeView::InProcedure(name) => env.is_boundary && (match env.procedure {
            Some(p) => p == name,
            None => false,
        }),
        BreakpointTypeView::AtSourceLocation { file, line } => env.is_boundary && (match env.location {
            Some(l) => l.uri == file && (match line {
                Some(n) => n == l.line,
                None => true,
            }),
            None => false,
        }),
        BreakpointTypeView::Next => env.cycles_stepped > 0 && env.is_boundary,
        BreakpointTypeView::Finish => false,
    }
}

/// The breakpoints of `bps` that match in `env`, in order.
pub open spec fn spec_matched(bps: Seq<BreakpointView>, env: BreakpointEnv) -> Seq<BreakpointView>
    decreases bps.len(),
{
    if bps.len() == 0 {
        Seq::empty()
    } else {
        spec_matched(bps.drop_last(), env) + (if spec_bp_matches(bps.last(), env) {
            seq![bps.last()]
        } else {
            Seq::empty()
        })
    }
}

/// The breakpoints of `bps` that stay live after evaluation in `env`:
/// every one except the one-shot ones that matched.
pub open spec fn spec_retained(bps: Seq<BreakpointView>, env: BreakpointEnv) -> Seq<BreakpointView>
    decreases bps.len(),
{
    if bps.len() == 0 {
        Seq::empty()
    } else {
        spec_retained(bps.drop_last(), env) + (if spec_bp_matches(bps.last(), env)
            && spec_is_one_shot(bps.last().ty) {
            Seq::empty()
        } else {
            seq![bps.last()]
        })
    }
}

/// Why a breakpoint specification failed to parse.
#[derive(Debug, Clone, Copy, PartialEq, Eq, Structural)]
pub enum BreakpointParseError {
    /// No specification was given.
    MissingSpec,
    /// `at`/`after` without a cycle count in range, or a malformed one.
    InvalidCycle,
    /// `in` without exactly one procedure name.
    InvalidProcedure,
    /// The specification matches no known form.
    InvalidSpec,
}

impl BreakpointParseError {
    /// The description each failure carries.
    pub open spec fn spec_message(self) -> Seq<char> {
        match self {
            BreakpointParseError::MissingSpec => "breakpoint requires a specification"@,
            BreakpointParseError::InvalidCycle => "invalid cycle count"@,
            BreakpointParseError::InvalidProcedure => "expected a procedure name"@,
            BreakpointParseError::InvalidSpec => "invalid breakpoint specification"@,
        }
    }

    /// A human-readable description of the failure.
    pub fn message(&self) -> (r: &'static str)
        ensures
            r@ == self.spec_message(),
    {
        match self {
            BreakpointParseError::MissingSpec => "breakpoint requires a specification",
            BreakpointParseError::InvalidCycle => "invalid cycle count",
            BreakpointParseError::InvalidProcedure => "expected a procedure name",
            BreakpointParseError::InvalidSpec => "invalid breakpoint specification",
        }
    }
}

/// The breakpoint condition the tokens `toks` denote:
/// `at <cycle>`, `after <N>`, `in <proc>`, `<file>:<line>`, or `<file>`.
/// A lone token splits at its last `:`; if what follows is a line number
/// in range, it names a file and line, otherwise the whole token is the
/// file.
pub open spec fn spec_parse_breakpoint(toks: Seq<Seq<char>>) -> Result<
    BreakpointTypeView,
    BreakpointParseError,
> {
    if toks.len() == 0 {
        Err(BreakpointParseError::MissingSpec)
    } else if toks[0] == "at"@ {
        if toks.len() == 2 {
            match crate::parse::spec_number(toks[1]) {
                Some(n) => if n <= u32::MAX {
                    Ok(BreakpointTypeView::AtCycle(n as u32))
                } else {
                    Err(BreakpointParseError::InvalidCycle)
                },
                None => Err(BreakpointParseError::InvalidCycle),
            }
        } else {
            Err(BreakpointParseError::InvalidCycle)
        }
    } else if toks[0] == "after"@ {
        if toks.len() == 2 {
            match crate::parse::spec_number(toks[1]) {
                Some(n) => if n <= u32::MAX {
                    Ok(BreakpointTypeView::AfterNCycles(n as u32))
                } else {
                    Err(BreakpointParseError::InvalidCycle)
                },
                None => Err(BreakpointParseError::InvalidCycle),
            }
        } else {
            Err(BreakpointParseError::InvalidCycle)
        }
    } else if toks[0] == "in"@ {
        if toks.len() == 2 {
            Ok(BreakpointTypeView::InProcedure(toks[1]))
        } else {
            Err(BreakpointParseError::InvalidProcedure)
        }
    } else if toks.len() == 1 {
        let t = toks[0];
        if crate::parse::spec_last_colon_idx(t) >= 0 {
            let file = t.take(crate::parse::spec_last_colon_idx(t));
            let digits = t.skip(crate::parse::spec_last_colon_idx(t) + 1);
            match crate::parse::spec_number(digits) {
                Some(n) => if n <= u32::MAX {
                    Ok(BreakpointTypeView::AtSourceLocation { file, line: Some(n as u32) })
                } else {
                    Ok(BreakpointTypeView::AtSourceLocation { file: t, line: None })
                },
                None => Ok(BreakpointTypeView::AtSourceLocation { file: t, line: None }),
            }
        } else {
            Ok(BreakpointTypeView::AtSourceLocation { file: t, line: None })
        }
    } else {
        Err(BreakpointParseError::InvalidSpec)
    }
}

impl BreakpointType {
    /// Parse the tokens of `toks` from position `start` on as a
    /// breakpoint specification.
    pub fn parse_tokens(toks: &Vec<String>, start: usize) -> (r: Result<
        BreakpointType,
        BreakpointParseError,
    >)
        requires
            start <= toks@.len(),
        ensures
            match (r, spec_parse_breakpoint(
                Seq::new(toks@.len(), |i: int| toks@[i]@).skip(start as int),
            )) {
                (Ok(ty), Ok(v)) => ty@ == v,
                (Err(e1), Err(e2)) => e1 == e2,
                _ => false,
            },
    {
        let ghost ts = Seq::new(toks@.len(), |i: int| toks@[i]@).skip(start as int);
        let n: usize = toks.len() - start;
        if n == 0 {
            return Err(BreakpointParseError::MissingSpec);
        }
        proof {
            assert(ts[0] == toks@[start as int]@);
            if n >= 2 {
                assert(ts[1] == toks@[start + 1]@);
            }
        }
        if crate::parse::str_eq(toks[start].as_str(), "at") {
            if n == 2 {
                match crate::parse::parse_number(toks[start + 1].as_str()) {
                    Some(v) => if v <= 0xffff_ffff {
                        Ok(BreakpointType::AtCycle(v as u32))
                    } else {
                        Err(BreakpointParseError::InvalidCycle)
                    },
                    None => Err(BreakpointParseError::InvalidCycle),
                }
            } else {
                Err(BreakpointParseError::InvalidCycle)
            }
        } else if crate::parse::str_eq(toks[start].as_str(), "after") {
            if n == 2 {
                match crate::parse::parse_number(toks[start + 1].as_str()) {
                    Some(v) => if v <= 0xffff_ffff {
                        Ok(BreakpointType::AfterNCycles(v as u32))
                    } else {
                        Err(BreakpointParseError::InvalidCycle)
                    },
                    None => Err(BreakpointParseError::InvalidCycle),
                }
            } else {
                Err(BreakpointParseError::InvalidCycle)
            }
        } else if crate::parse::str_eq(toks[start].as_str(), "in") {
            if n == 2 {
                Ok(BreakpointType::InProcedure(toks[start + 1].clone()))
            } else {
                Err(BreakpointParseError::InvalidProcedure)
            }
        } else if n == 1 {
            let t: &str = toks[start].as_str();
            match crate::parse::split_last_colon(t) {
                Some((file, digits)) => {
                    match crate::parse::parse_number(digits) {
                        Some(v) => if v <= 0xffff_ffff {
                            Ok(
                                BreakpointType::AtSourceLocation {
                                    file: String::from_str(file),
                                    line: Some(v as u32),
                                },
                            )
                        } else {
                            Ok(
                                BreakpointType::AtSourceLocation {
                                    file: toks[start].clone(),
                                    line: None,
                                },
                            )
                        },
                        None => Ok(
                            BreakpointType::AtSourceLocation {
                                file: toks[start].clone(),
                                line: None,
                            },
                        ),
                    }
                },
                None => Ok(
                    BreakpointType::AtSourceLocation { file: toks[start].clone(), line: None },
                ),
            }
        } else {
            Err(BreakpointParseError::InvalidSpec)
        }
    }

    /// Parse a breakpoint specification from its textual form.
    pub fn parse(s: &str) -> (r: Result<BreakpointType, BreakpointParseError>)
        ensures
            match (r, spec_parse_breakpoint(crate::parse::spec_tokens(s@))) {
                (Ok(ty), Ok(v)) => ty@ == v,
                (Err(e1), Err(e2)) => e1 == e2,
                _ => false,
            },
    {
        let toks: Vec<String> = crate::parse::tokenize(s);
        proof {
            assert(Seq::new(toks@.len(), |i: int| toks@[i]@).skip(0) =~= crate::parse::spec_tokens(
                s@,
            ));
        }
        Self::parse_tokens(&toks, 0)
    }
}

} // verus!
