//! Tracking of source-level debug variables: at each cycle, the most
//! recent known location of each named variable.

use vstd::prelude::*;

use crate::felt::Felt;
use crate::trace::MemoryChiplet;

verus! {

/// Where a debug variable's value lives.
#[derive(Debug)]
pub enum DebugVarLocation {
    /// On the operand stack, at this position from the top.
    Stack(u16),
    /// In memory, at this element address.
    Memory(u32),
    /// An embedded constant.
    Const(Felt),
    /// A frame local: this offset from the frame pointer.
    Local(u16),
    /// Computed by an expression; resolution of this kind is deliberately
    /// not implemented.
    Expression(Vec<u8>),
}

/// The mathematical value of a variable location.
pub enum DebugVarLocationView {
    Stack(u16),
    Memory(u32),
    Const(Felt),
    Local(u16),
    Expression(Seq<u8>),
}

impl View for DebugVarLocation {
    type V = DebugVarLocationView;

    open spec fn view(&self) -> DebugVarLocationView {
        match self {
            DebugVarLocation::Stack(p) => DebugVarLocationView::Stack(*p),
            DebugVarLocation::Memory(a) => DebugVarLocationView::Memory(*a),
            DebugVarLocation::Const(f) => DebugVarLocationView::Const(*f),
            DebugVarLocation::Local(o) => DebugVarLocationView::Local(*o),
            DebugVarLocation::Expression(e) => DebugVarLocationView::Expression(e@),
        }
    }
}

impl Clone for DebugVarLocation {
    fn clone(&self) -> (r: Self)
        ensures
            r@ == self@,
    {
        match self {
            DebugVarLocation::Stack(p) => DebugVarLocation::Stack(*p),
            DebugVarLocation::Memory(a) => DebugVarLocation::Memory(*a),
            DebugVarLocation::Const(f) => DebugVarLocation::Const(*f),
            DebugVarLocation::Local(o) => DebugVarLocation::Local(*o),
            DebugVarLocation::Expression(e) => {
                let mut copy: Vec<u8> = Vec::new();
                let mut i: usize = 0;
                while i < e.len()
                    invariant
                        i <= e@.len(),
                        copy@ == e@.take(i as int),
                    decreases e@.len() - i,
                {
                    copy.push(e[i]);
                    proof {
                        assert(copy@ =~= e@.take(i + 1));
                    }
                    i = i + 1;
                }
                proof {
                    assert(e@.take(e@.len() as int) =~= e@);
                }
                DebugVarLocation::Expression(copy)
            },
        }
    }
}

/// A named source-level variable and where its value lives.
#[derive(Debug)]
pub struct DebugVarInfo {
    name: String,
    location: DebugVarLocation,
}

/// The mathematical value of a variable description.
pub struct DebugVarInfoView {
    pub name: Seq<char>,
    pub location: DebugVarLocationView,
}

impl View for DebugVarInfo {
    type V = DebugVarInfoView;

    closed spec fn view(&self) -> DebugVarInfoView {
        DebugVarInfoView { name: self.name@, location: self.location@ }
    }
}

impl Clone for DebugVarInfo {
    fn clone(&self) -> (r: Self)
        ensures
            r@ == self@,
    {
        DebugVarInfo { name: self.name.clone(), location: self.location.clone() }
    }
}

impl DebugVarInfo {
    /// Describe a variable by its name and value location.
    pub fn new(name: String, location: DebugVarLocation) -> (r: DebugVarInfo)
        ensures
            r@.name == name@,
            r@.location == location@,
    {
        DebugVarInfo { name, location }
    }

    /// The variable's name.
    pub fn name(&self) -> (r: &str)
        ensures
            r@ == self@.name,
    {
        self.name.as_str()
    }

    /// Where the variable's value lives.
    pub fn value_location(&self) -> (r: &DebugVarLocation)
        ensures
            r@ == self@.location,
    {
        &self.location
    }
}

/// A variable description observed at a specific cycle.
#[derive(Debug)]
pub struct DebugVarSnapshot {
    /// The cycle at which this description was recorded.
    pub clk: u32,
    /// The variable description.
    pub info: DebugVarInfo,
}

/// The mathematical value of a snapshot.
pub struct DebugVarSnapshotView {
    pub clk: u32,
    pub info: DebugVarInfoView,
}

impl View for DebugVarSnapshot {
    type V = DebugVarSnapshotView;

    open spec fn view(&self) -> DebugVarSnapshotView {
        DebugVarSnapshotView { clk: self.clk, info: self.info@ }
    }
}

impl Clone for DebugVarSnapshot {
    fn clone(&self) -> (r: Self)
        ensures
            r@ == self@,
    {
        DebugVarSnapshot { clk: self.clk, info: self.info.clone() }
    }
}

/// The snapshot values of a list of snapshots.
pub open spec fn snap_views(s: Seq<DebugVarSnapshot>) -> Seq<DebugVarSnapshotView> {
    Seq::new(s.len(), |i: int| s[i]@)
}

/// The index of the first snapshot named `name`, or a negative value.
pub open spec fn spec_name_idx(s: Seq<DebugVarSnapshotView>, name: Seq<char>) -> int
    decreases s.len(),
{
    if s.len() == 0 {
        -1
    } else if s[0].info.name == name {
        0
    } else {
        let sub = spec_name_idx(s.skip(1), name);
        if sub < 0 {
            -1
        } else {
            1 + sub
        }
    }
}

proof fn lemma_name_idx(s: Seq<DebugVarSnapshotView>, name: Seq<char>)
    ensures
        -1 <= spec_name_idx(s, name) < s.len(),
        spec_name_idx(s, name) >= 0 ==> s[spec_name_idx(s, name)].info.name == name,
        spec_name_idx(s, name) >= 0 ==> forall|k: int|
            0 <= k < spec_name_idx(s, name) ==> (#[trigger] s[k]).info.name != name,
        spec_name_idx(s, name) < 0 ==> forall|k: int|
            0 <= k < s.len() ==> (#[trigger] s[k]).info.name != name,
    decreases s.len(),
{
    if s.len() > 0 && s[0].info.name != name {
        lemma_name_idx(s.skip(1), name);
        assert forall|k: int|
            0 <= k < s.len() && k >= 1 implies s[k] == s.skip(1)[k - 1] by {
            assert(s.skip(1)[k - 1] == s[k]);
        }
    }
}

/// `cur` with `snap` folded in: the first snapshot of the same name is
/// replaced, or `snap` is appended if the name is new.
pub open spec fn spec_upsert(
    cur: Seq<DebugVarSnapshotView>,
    snap: DebugVarSnapshotView,
) -> Seq<DebugVarSnapshotView> {
    if spec_name_idx(cur, snap.info.name) < 0 {
        cur.push(snap)
    } else {
        cur.update(spec_name_idx(cur, snap.info.name), snap)
    }
}

/// `cur` after folding in every event of `evs`, in order, whose cycle lies
/// in the inclusive window `[lo, hi]`; the last event per name wins. The
/// lower bound is inclusive so that observations at the very first cycle
/// are folded by the first advance; re-folding a boundary event on the
/// next advance is idempotent, as the same snapshot replaces itself.
pub open spec fn spec_fold(
    cur: Seq<DebugVarSnapshotView>,
    evs: Seq<DebugVarSnapshotView>,
    lo: u32,
    hi: u32,
) -> Seq<DebugVarSnapshotView>
    decreases evs.len(),
{
    if evs.len() == 0 {
        cur
    } else {
        spec_fold(
            if lo <= evs[0].clk <= hi {
                spec_upsert(cur, evs[0])
            } else {
                cur
            },
            evs.skip(1),
            lo,
            hi,
        )
    }
}

/// Maintains, per cycle, the most recent known description of each named
/// variable, folded from an owned, append-only observation log.
#[derive(Debug)]
pub struct DebugVarTracker {
    events: Vec<DebugVarSnapshot>,
    current: Vec<DebugVarSnapshot>,
    processed_up_to: u32,
}

/// The mathematical value of a tracker.
pub struct DebugVarTrackerView {
    pub events: Seq<DebugVarSnapshotView>,
    pub current: Seq<DebugVarSnapshotView>,
    pub processed_up_to: u32,
}

impl View for DebugVarTracker {
    type V = DebugVarTrackerView;

    closed spec fn view(&self) -> DebugVarTrackerView {
        DebugVarTrackerView {
            events: snap_views(self.events@),
            current: snap_views(self.current@),
            processed_up_to: self.processed_up_to,
        }
    }
}

impl DebugVarTracker {
    /// A tracker with an empty log, positioned at the start of execution.
    pub fn new() -> (r: DebugVarTracker)
        ensures
            r@.events =~= Seq::<DebugVarSnapshotView>::empty(),
            r@.current =~= Seq::<DebugVarSnapshotView>::empty(),
            r@.processed_up_to == 0,
    {
        DebugVarTracker { events: Vec::new(), current: Vec::new(), processed_up_to: 0 }
    }

    /// Append one observation: at cycle `clk`, the variable described by
    /// `info` was seen.
    pub fn record(&mut self, clk: u32, info: DebugVarInfo)
        ensures
            final(self)@.events =~= old(self)@.events.push(
                DebugVarSnapshotView { clk, info: info@ },
            ),
            final(self)@.current == old(self)@.current,
            final(self)@.processed_up_to == old(self)@.processed_up_to,
    {
        self.events.push(DebugVarSnapshot { clk, info });
    }

    /// Fold every recorded observation with a cycle between the current
    /// position and `clk`, both inclusive, into the per-name map, the
    /// last observation per name winning, and advance the position to
    /// `clk`. Observations at the boundary cycle are re-folded by the
    /// next advance, which is harmless: the same snapshot wins again.
    pub fn update_to_cycle(&mut self, clk: u32)
        ensures
            final(self)@.events == old(self)@.events,
            final(self)@.current == spec_fold(
                old(self)@.current,
                old(self)@.events,
                old(self)@.processed_up_to,
                clk,
            ),
            final(self)@.processed_up_to == clk,
    {
        let ghost target = spec_fold(
            self@.current,
            self@.events,
            self@.processed_up_to,
            clk,
        );
        let lo: u32 = self.processed_up_to;
        let mut i: usize = 0;
        proof {
            assert(self@.events.skip(0) =~= self@.events);
        }
        while i < self.events.len()
            invariant
                i <= self.events@.len(),
                self.events == old(self).events,
                self.processed_up_to == old(self).processed_up_to,
                lo == old(self)@.processed_up_to,
                spec_fold(self@.current, self@.events.skip(i as int), lo, clk) == target,
                target == spec_fold(
                    old(self)@.current,
                    old(self)@.events,
                    old(self)@.processed_up_to,
                    clk,
                ),
            decreases self.events@.len() - i,
        {
            proof {
                assert(self@.events.skip(i as int)[0] == self@.events[i as int]);
                assert(self@.events.skip(i as int).skip(1) =~= self@.events.skip(i + 1));
            }
            let e_clk: u32 = self.events[i].clk;
            if lo <= e_clk && e_clk <= clk {
                let snap: DebugVarSnapshot = self.events[i].clone();
                self.upsert(snap);
            }
            i = i + 1;
        }
        proof {
            assert(self@.events.skip(self@.events.len() as int) =~= Seq::<
                DebugVarSnapshotView,
            >::empty());
        }
        self.processed_up_to = clk;
    }

    /// Fold one snapshot into the per-name map.
    fn upsert(&mut self, snap: DebugVarSnapshot)
        ensures
            final(self)@.current == spec_upsert(old(self)@.current, snap@),
            final(self)@.events == old(self)@.events,
            final(self)@.processed_up_to == old(self)@.processed_up_to,
            final(self).events == old(self).events,
            final(self).processed_up_to == old(self).processed_up_to,
    {
        proof {
            lemma_name_idx(self@.current, snap@.info.name);
        }
        let n: usize = self.current.len();
        let mut i: usize = 0;
        while i < n
            invariant
                i <= n,
                n == self.current@.len(),
                self == old(self),
                forall|k: int| 0 <= k < i ==> (#[trigger] self@.current[k]).info.name != snap@.info.name,
            decreases n - i,
        {
            let same: bool = crate::parse::str_eq(self.current[i].info.name(), snap.info.name());
            if same {
                proof {
                    assert(self@.current[i as int].info.name == snap@.info.name);
                    assert(spec_name_idx(self@.current, snap@.info.name) == i) by {
                        lemma_name_idx(self@.current, snap@.info.name);
                    }
                }
                let ghost pre = self@.current;
                self.current.set(i, snap);
                proof {
                    assert(self@.current =~= pre.update(i as int, snap@));
                }
                return ;
            }
            i = i + 1;
        }
        proof {
            lemma_name_idx(self@.current, snap@.info.name);
            assert(spec_name_idx(self@.current, snap@.info.name) < 0) by {
                if spec_name_idx(self@.current, snap@.info.name) >= 0 {
                    assert(self@.current[spec_name_idx(self@.current, snap@.info.name)].info.name
                        == snap@.info.name);
                }
            }
        }
        let ghost pre = self@.current;
        self.current.push(snap);
        proof {
            assert(self@.current =~= pre.push(snap@));
        }
    }

    /// Forget everything folded so far and return to the start of
    /// execution. The observation log itself is kept.
    pub fn reset(&mut self)
        ensures
            final(self)@.events == old(self)@.events,
            final(self)@.current =~= Seq::<DebugVarSnapshotView>::empty(),
            final(self)@.processed_up_to == 0,
    {
        self.current = Vec::new();
        self.processed_up_to = 0;
    }

    /// The currently visible variables, in first-seen order.
    pub fn current_variables(&self) -> (r: &Vec<DebugVarSnapshot>)
        ensures
            snap_views(r@) == self@.current,
    {
        &self.current
    }

    /// The currently visible description of the named variable, if any.
    pub fn get_variable(&self, name: &str) -> (r: Option<&DebugVarSnapshot>)
        ensures
            spec_name_idx(self@.current, name@) < 0 <==> r is None,
            r matches Some(s) ==> s@ == self@.current[spec_name_idx(self@.current, name@)],
    {
        proof {
            lemma_name_idx(self@.current, name@);
        }
        let n: usize = self.current.len();
        let mut i: usize = 0;
        while i < n
            invariant
                i <= n,
                n == self.current@.len(),
                forall|k: int| 0 <= k < i ==> (#[trigger] self@.current[k]).info.name != name@,
            decreases n - i,
        {
            if crate::parse::str_eq(self.current[i].info.name(), name) {
                proof {
                    assert(self@.current[i as int].info.name == name@);
                    lemma_name_idx(self@.current, name@);
                    assert(spec_name_idx(self@.current, name@) == i);
                }
                return Some(&self.current[i]);
            }
            i = i + 1;
        }
        proof {
            lemma_name_idx(self@.current, name@);
            if spec_name_idx(self@.current, name@) >= 0 {
                assert(self@.current[spec_name_idx(self@.current, name@)].info.name == name@);
            }
        }
        None
    }

    /// How many variables are currently visible.
    pub fn variable_count(&self) -> (r: usize)
        ensures
            r == self@.current.len(),
    {
        self.current.len()
    }

    /// Whether any variable is currently visible.
    pub fn has_variables(&self) -> (r: bool)
        ensures
            r == (self@.current.len() > 0),
    {
        self.current.len() > 0
    }
}

/// Resolve a variable's value against the current machine state: a stack
/// slot reads the operand stack, a memory address or frame local reads the
/// recorded memory under `ctx` as of `clk` (a local at its offset from the
/// frame pointer `fp`), and a constant is itself. Expression-computed
/// locations are deliberately unresolved and yield nothing, as does a
/// stack slot beyond the stack or a local beyond the address space.
pub fn resolve_variable_value(
    location: &DebugVarLocation,
    stack: &Vec<Felt>,
    memory: &MemoryChiplet,
    ctx: u32,
    clk: u32,
    fp: u32,
) -> (r: Option<Felt>)
    requires
        memory.wf(),
    ensures
        match location@ {
            DebugVarLocationView::Stack(p) => (if (p as int) < stack@.len() {
                r == Some(stack@[p as int])
            } else {
                r is None
            }),
            DebugVarLocationView::Memory(a) => r == Some(
                Felt { value: memory.spec_read(ctx, a, clk) },
            ),
            DebugVarLocationView::Const(f) => r == Some(f),
            DebugVarLocationView::Local(o) => (if fp + o <= u32::MAX {
                r == Some(Felt { value: memory.spec_read(ctx, (fp + o) as u32, clk) })
            } else {
                r is None
            }),
            DebugVarLocationView::Expression(_) => r is None,
        },
{
    match location {
        DebugVarLocation::Stack(p) => {
            if (*p as usize) < stack.len() {
                Some(stack[*p as usize])
            } else {
                None
            }
        },
        DebugVarLocation::Memory(a) => {
            let f = memory.read_element(ctx, *a, clk);
            Some(Felt { value: f.as_u64() })
        },
        DebugVarLocation::Const(f) => Some(*f),
        DebugVarLocation::Local(o) => {
            if *o as u32 <= u32::MAX - fp {
                let f = memory.read_element(ctx, fp + (*o as u32), clk);
                Some(Felt { value: f.as_u64() })
            } else {
                None
            }
        },
        DebugVarLocation::Expression(_) => None,
    }
}

/// The textual description of a variable location.
pub open spec fn spec_describe_location(loc: DebugVarLocationView) -> Seq<char> {
    match loc {
        DebugVarLocationView::Stack(p) => "stack["@ + crate::render::spec_digits(p as u64, 10)
            + "]"@,
        DebugVarLocationView::Memory(a) => "mem["@ + crate::render::spec_digits(a as u64, 10)
            + "]"@,
        DebugVarLocationView::Const(f) => "const("@ + crate::render::spec_digits(f.value, 10)
            + ")"@,
        DebugVarLocationView::Local(o) => "local["@ + crate::render::spec_digits(o as u64, 10)
            + "]"@,
        DebugVarLocationView::Expression(_) => "expr(...)"@,
    }
}

impl DebugVarLocation {
    /// Describe this location as text: the addressing kind and its
    /// operand.
    pub fn describe(&self) -> (r: String)
        ensures
            r@ == spec_describe_location(self@),
    {
        proof {
            reveal_strlit("stack[");
            reveal_strlit("mem[");
            reveal_strlit("const(");
            reveal_strlit("local[");
            reveal_strlit("]");
            reveal_strlit(")");
            reveal_strlit("expr(...)");
        }
        match self {
            DebugVarLocation::Stack(p) => {
                let mut s = String::from_str("stack[");
                let digits = crate::render::render_digits(*p as u64, 10);
                s.append(digits.as_str());
                s.append("]");
                proof {
                    assert(s@ =~= spec_describe_location(self@));
                }
                s
            },
            DebugVarLocation::Memory(a) => {
                let mut s = String::from_str("mem[");
                let digits = crate::render::render_digits(*a as u64, 10);
                s.append(digits.as_str());
                s.append("]");
                proof {
                    assert(s@ =~= spec_describe_location(self@));
                }
                s
            },
            DebugVarLocation::Const(f) => {
                let mut s = String::from_str("const(");
                let digits = crate::render::render_digits(f.as_u64(), 10);
                s.append(digits.as_str());
                s.append(")");
                proof {
                    assert(s@ =~= spec_describe_location(self@));
                }
                s
            },
            DebugVarLocation::Local(o) => {
                let mut s = String::from_str("local[");
                let digits = crate::render::render_digits(*o as u64, 10);
                s.append(digits.as_str());
                s.append("]");
                proof {
                    assert(s@ =~= spec_describe_location(self@));
                }
                s
            },
            DebugVarLocation::Expression(_) => String::from_str("expr(...)"),
        }
    }
}

} // verus!
