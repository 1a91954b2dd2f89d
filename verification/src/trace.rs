//! The execution trace: a read-only, randomly addressable view over a
//! completed run's memory and operand-stack outputs.
//!
//! Memory is modelled as a cycle-versioned, zero-initialized sparse store:
//! the host records every write the machine performs, and reads at a given
//! cycle return the latest write at or before that cycle, or zero where
//! nothing was ever written.

use vstd::prelude::*;

use crate::felt::{Felt, Word};
use crate::repr::{lo32, nth_le_byte};

verus! {

/// Failure of an attempt to read the machine's memory.
#[derive(Debug, Clone, Copy, PartialEq, Eq, Structural)]
pub enum MemoryReadError {
    /// The read would run past the end of the linear memory.
    OutOfBounds,
    /// The read is not aligned as the requested type demands.
    UnalignedRead,
}

impl MemoryReadError {
    /// The description each failure carries.
    pub open spec fn spec_message(self) -> Seq<char> {
        match self {
            MemoryReadError::OutOfBounds => "attempted to read beyond end of linear memory"@,
            MemoryReadError::UnalignedRead => "unaligned reads are not supported yet"@,
        }
    }

    /// A human-readable description of the failure.
    pub fn message(&self) -> (r: &'static str)
        ensures
            r@ == self.spec_message(),
    {
        match self {
            MemoryReadError::OutOfBounds => "attempted to read beyond end of linear memory",
            MemoryReadError::UnalignedRead => "unaligned reads are not supported yet",
        }
    }
}

/// One recorded memory write: at cycle `clk`, the element at `addr` in
/// address space `ctx` took the value `value`.
#[derive(Debug, Clone, Copy, PartialEq, Eq, Structural)]
pub struct MemoryWrite {
    pub ctx: u32,
    pub addr: u32,
    pub clk: u32,
    pub value: Felt,
}

/// The value, at cycle `clk`, of the element at `(ctx, addr)` after the
/// writes in `log` (later entries more recent), reading zero where no write
/// at or before `clk` touched the location.
pub open spec fn spec_read_log(log: Seq<MemoryWrite>, ctx: u32, addr: u32, clk: u32) -> u64
    decreases log.len(),
{
    if log.len() == 0 {
        0
    } else if log.last().ctx == ctx && log.last().addr == addr && log.last().clk <= clk {
        log.last().value.value
    } else {
        spec_read_log(log.drop_last(), ctx, addr, clk)
    }
}

/// Whether any write in `log` touched `(ctx, addr)`.
pub open spec fn spec_written_log(log: Seq<MemoryWrite>, ctx: u32, addr: u32) -> bool {
    exists|i: int| 0 <= i < log.len() && (#[trigger] log[i]).ctx == ctx && log[i].addr == addr
}

/// Whether any write in `log` touched `(ctx, addr)` at or before cycle
/// `clk`.
pub open spec fn spec_written_log_by(log: Seq<MemoryWrite>, ctx: u32, addr: u32, clk: u32) -> bool {
    exists|i: int|
        0 <= i < log.len() && (#[trigger] log[i]).ctx == ctx && log[i].addr == addr && log[i].clk
            <= clk
}

/// A cycle-versioned sparse store of the machine's memory, populated from
/// the write log of a completed (or partially completed) run.
pub struct MemoryChiplet {
    writes: Vec<MemoryWrite>,
}

impl MemoryChiplet {
    /// All recorded values are canonical field elements.
    pub closed spec fn wf(self) -> bool {
        forall|i: int|
            0 <= i < self.writes@.len() ==> (#[trigger] self.writes@[i]).value.is_canonical()
    }

    /// The value visible at `(ctx, addr)` at cycle `clk`.
    pub closed spec fn spec_read(self, ctx: u32, addr: u32, clk: u32) -> u64 {
        spec_read_log(self.writes@, ctx, addr, clk)
    }

    /// Whether the location `(ctx, addr)` was ever written.
    pub closed spec fn spec_written(self, ctx: u32, addr: u32) -> bool {
        spec_written_log(self.writes@, ctx, addr)
    }

    /// The recorded write log, later entries more recent. Reads are its
    /// fold: `spec_read` equals `spec_read_log` over this log, so
    /// conditions on the log — a location never written, or not written
    /// by some cycle — can be phrased and used from outside.
    pub closed spec fn spec_log(self) -> Seq<MemoryWrite> {
        self.writes@
    }

    /// The reads and the written-location predicate are the fold of the
    /// recorded log.
    pub proof fn lemma_read_is_log_fold(self, ctx: u32, addr: u32, clk: u32)
        ensures
            self.spec_read(ctx, addr, clk) == spec_read_log(self.spec_log(), ctx, addr, clk),
            self.spec_written(ctx, addr) == spec_written_log(self.spec_log(), ctx, addr),
    {
    }

    /// An empty memory: nothing written, every read yields zero.
    pub fn new() -> (r: MemoryChiplet)
        ensures
            r.wf(),
            forall|ctx: u32, addr: u32| !(#[trigger] r.spec_written(ctx, addr)),
            forall|ctx: u32, addr: u32, clk: u32| #[trigger] r.spec_read(ctx, addr, clk) == 0,
    {
        MemoryChiplet { writes: Vec::new() }
    }

    /// Record a write of `value` to the element at `(ctx, addr)` at cycle
    /// `clk`. A read of the same location at or after `clk` then returns
    /// exactly `value`; every other read is unchanged.
    pub fn write_element(&mut self, ctx: u32, addr: u32, clk: u32, value: Felt)
        requires
            old(self).wf(),
            value.is_canonical(),
        ensures
            final(self).wf(),
            forall|k: u32| k >= clk ==> #[trigger] final(self).spec_read(ctx, addr, k) == value.value,
            forall|c: u32, a: u32, k: u32|
                !(c == ctx && a == addr && k >= clk) ==> #[trigger] final(self).spec_read(c, a, k)
                    == old(self).spec_read(c, a, k),
            forall|c: u32, a: u32|
                #[trigger] final(self).spec_written(c, a) == (old(self).spec_written(c, a) || (c
                    == ctx && a == addr)),
    {
        let w = MemoryWrite { ctx, addr, clk, value };
        self.writes.push(w);
        proof {
            assert(self.writes@.drop_last() =~= old(self).writes@);
            assert forall|c: u32, a: u32| #[trigger]
                self.spec_written(c, a) == (old(self).spec_written(c, a) || (c == ctx && a
                    == addr)) by {
                if old(self).spec_written(c, a) {
                    let i = choose|i: int|
                        0 <= i < old(self).writes@.len() && (#[trigger] old(self).writes@[i]).ctx
                            == c && old(self).writes@[i].addr == a;
                    assert(self.writes@[i].ctx == c && self.writes@[i].addr == a);
                }
                if c == ctx && a == addr {
                    let n = self.writes@.len() - 1;
                    assert(self.writes@[n].ctx == c && self.writes@[n].addr == a);
                }
                if self.spec_written(c, a) && !(c == ctx && a == addr) {
                    let i = choose|i: int|
                        0 <= i < self.writes@.len() && (#[trigger] self.writes@[i]).ctx == c
                            && self.writes@[i].addr == a;
                    assert(old(self).writes@[i].ctx == c && old(self).writes@[i].addr == a);
                }
            }
        }
    }

    /// Record a write of a whole word starting at the word-aligned element
    /// address `addr`: element `e0` lands at `addr`, `e3` at `addr + 3`.
    pub fn write_word(&mut self, ctx: u32, addr: u32, clk: u32, word: Word)
        requires
            old(self).wf(),
            word.is_canonical(),
            addr % 4 == 0,
            addr + 3 <= u32::MAX,
        ensures
            final(self).wf(),
            forall|j: u32, k: u32|
                j < 4 && k >= clk ==> #[trigger] final(self).spec_read(ctx, (addr + j) as u32, k)
                    == word.spec_get(j as int).value,
            forall|c: u32, a: u32, k: u32|
                !(c == ctx && addr <= a && a <= addr + 3 && k >= clk)
                    ==> #[trigger] final(self).spec_read(c, a, k) == old(self).spec_read(c, a, k),
    {
        self.write_element(ctx, addr, clk, word.e0);
        self.write_element(ctx, addr + 1, clk, word.e1);
        self.write_element(ctx, addr + 2, clk, word.e2);
        self.write_element(ctx, addr + 3, clk, word.e3);
    }

    /// Read the element at `(ctx, addr)` as of cycle `clk`: the value of the
    /// latest write at or before `clk`, or zero if there was none.
    pub fn read_element(&self, ctx: u32, addr: u32, clk: u32) -> (r: Felt)
        requires
            self.wf(),
        ensures
            r.value == self.spec_read(ctx, addr, clk),
            r.is_canonical(),
    {
        let mut i: usize = self.writes.len();
        assert(self.writes@.take(i as int) =~= self.writes@);
        while i > 0
            invariant
                self.wf(),
                i <= self.writes@.len(),
                spec_read_log(self.writes@.take(i as int), ctx, addr, clk) == self.spec_read(
                    ctx,
                    addr,
                    clk,
                ),
            decreases i,
        {
            i = i - 1;
            let w = self.writes[i];
            assert(self.writes@.take(i + 1 as int).last() == w);
            assert(self.writes@.take(i + 1 as int).drop_last() =~= self.writes@.take(i as int));
            if w.ctx == ctx && w.addr == addr && w.clk <= clk {
                return w.value;
            }
        }
        assert(self.writes@.take(0) =~= Seq::<MemoryWrite>::empty());
        Felt::zero()
    }

    /// Read the word whose first element sits at the word-aligned element
    /// address `addr`, as of cycle `clk`.
    pub fn read_word(&self, ctx: u32, addr: u32, clk: u32) -> (r: Word)
        requires
            self.wf(),
            addr % 4 == 0,
            addr + 3 <= u32::MAX,
        ensures
            forall|j: int|
                0 <= j < 4 ==> (#[trigger] r.spec_get(j)).value == self.spec_read(
                    ctx,
                    (addr + j) as u32,
                    clk,
                ),
            r.is_canonical(),
    {
        Word {
            e0: self.read_element(ctx, addr, clk),
            e1: self.read_element(ctx, addr + 1, clk),
            e2: self.read_element(ctx, addr + 2, clk),
            e3: self.read_element(ctx, addr + 3, clk),
        }
    }

    /// A location that was never written reads as zero at every cycle.
    pub proof fn lemma_unwritten_reads_zero(self, ctx: u32, addr: u32, clk: u32)
        requires
            !self.spec_written(ctx, addr),
        ensures
            self.spec_read(ctx, addr, clk) == 0,
    {
        Self::lemma_unwritten_log(self.writes@, ctx, addr, clk);
    }

    /// A location with no recorded write at or before `clk` reads as zero
    /// at `clk`, whatever was written to it later.
    pub proof fn lemma_unwritten_by_reads_zero(self, ctx: u32, addr: u32, clk: u32)
        requires
            !spec_written_log_by(self.spec_log(), ctx, addr, clk),
        ensures
            self.spec_read(ctx, addr, clk) == 0,
    {
        Self::lemma_unwritten_by_log(self.writes@, ctx, addr, clk);
    }

    proof fn lemma_unwritten_by_log(log: Seq<MemoryWrite>, ctx: u32, addr: u32, clk: u32)
        requires
            !spec_written_log_by(log, ctx, addr, clk),
        ensures
            spec_read_log(log, ctx, addr, clk) == 0,
        decreases log.len(),
    {
        if log.len() > 0 {
            assert(!(log.last().ctx == ctx && log.last().addr == addr && log.last().clk
                <= clk)) by {
                if log.last().ctx == ctx && log.last().addr == addr && log.last().clk <= clk {
                    assert(log[log.len() - 1].ctx == ctx && log[log.len() - 1].addr == addr
                        && log[log.len() - 1].clk <= clk);
                }
            }
            assert forall|i: int|
                0 <= i < log.drop_last().len() implies !((#[trigger] log.drop_last()[i]).ctx == ctx
                && log.drop_last()[i].addr == addr && log.drop_last()[i].clk <= clk) by {
                if 0 <= i < log.drop_last().len() && log.drop_last()[i].ctx == ctx
                    && log.drop_last()[i].addr == addr && log.drop_last()[i].clk <= clk {
                    assert(log[i].ctx == ctx && log[i].addr == addr && log[i].clk <= clk);
                }
            }
            Self::lemma_unwritten_by_log(log.drop_last(), ctx, addr, clk);
        }
    }

    proof fn lemma_unwritten_log(log: Seq<MemoryWrite>, ctx: u32, addr: u32, clk: u32)
        requires
            !spec_written_log(log, ctx, addr),
        ensures
            spec_read_log(log, ctx, addr, clk) == 0,
        decreases log.len(),
    {
        if log.len() > 0 {
            assert(!(log.last().ctx == ctx && log.last().addr == addr)) by {
                if log.last().ctx == ctx && log.last().addr == addr {
                    assert(log[log.len() - 1].ctx == ctx && log[log.len() - 1].addr == addr);
                }
            }
            assert forall|i: int|
                0 <= i < log.drop_last().len() implies !((#[trigger] log.drop_last()[i]).ctx == ctx
                    && log.drop_last()[i].addr == addr) by {
                if 0 <= i < log.drop_last().len() && log.drop_last()[i].ctx == ctx
                    && log.drop_last()[i].addr == addr {
                    assert(log[i].ctx == ctx && log[i].addr == addr);
                }
            }
            Self::lemma_unwritten_log(log.drop_last(), ctx, addr, clk);
        }
    }
}

/// A byte address decomposed into an element-aligned base and the byte
/// offset inside that element (each element spans four bytes).
#[derive(Debug, Clone, Copy, PartialEq, Eq, Structural)]
pub struct NativePtr {
    /// The element address: the byte address divided by the element size.
    pub addr: u32,
    /// The byte offset inside the element, `0` to `3`.
    pub offset: u8,
}

impl NativePtr {
    /// Decompose a byte address in the host's linear address space.
    pub fn from_ptr(p: u32) -> (r: NativePtr)
        ensures
            r.addr == p / 4,
            r.offset == p % 4,
    {
        NativePtr { addr: p / 4, offset: (p % 4) as u8 }
    }

    /// Whether this address falls on an element boundary.
    pub open spec fn spec_is_element_aligned(self) -> bool {
        self.offset == 0
    }

    /// Whether this address falls on an element boundary.
    pub fn is_element_aligned(&self) -> (r: bool)
        ensures
            r == self.spec_is_element_aligned(),
    {
        self.offset == 0
    }

    /// Whether this address falls on a word boundary (four elements).
    pub open spec fn spec_is_word_aligned(self) -> bool {
        self.offset == 0 && self.addr % 4 == 0
    }

    /// Whether this address falls on a word boundary (four elements).
    pub fn is_word_aligned(&self) -> (r: bool)
        ensures
            r == self.spec_is_word_aligned(),
    {
        self.offset == 0 && self.addr % 4 == 0
    }
}

/// The declared type of a typed memory read or result decode.
#[derive(Debug, Clone, Copy, PartialEq, Eq, Structural)]
pub enum NativeType {
    Bool,
    U8,
    I8,
    U16,
    I16,
    U32,
    I32,
    U64,
    I64,
    U128,
    I128,
    Felt,
    Word,
}

/// A decoded value of one of the supported native types.
#[derive(Debug, Clone, Copy, PartialEq, Eq, Structural)]
pub enum NativeValue {
    Bool(bool),
    U8(u8),
    I8(i8),
    U16(u16),
    I16(i16),
    U32(u32),
    I32(i32),
    U64(u64),
    I64(i64),
    U128(u128),
    I128(i128),
    Felt(Felt),
    Word(Word),
}

impl NativeType {
    /// The size of a value of this type in bytes.
    pub open spec fn spec_size_in_bytes(self) -> int {
        match self {
            NativeType::Bool => 1,
            NativeType::U8 => 1,
            NativeType::I8 => 1,
            NativeType::U16 => 2,
            NativeType::I16 => 2,
            NativeType::U32 => 4,
            NativeType::I32 => 4,
            NativeType::U64 => 8,
            NativeType::I64 => 8,
            NativeType::U128 => 16,
            NativeType::I128 => 16,
            NativeType::Felt => 4,
            NativeType::Word => 16,
        }
    }

    /// The size of a value of this type in field elements.
    pub open spec fn spec_size_in_felts(self) -> int {
        (self.spec_size_in_bytes() + 3) / 4
    }

    /// The size of a value of this type in bytes.
    pub fn size_in_bytes(&self) -> (r: usize)
        ensures
            r == self.spec_size_in_bytes(),
            1 <= r <= 16,
    {
        match self {
            NativeType::Bool => 1,
            NativeType::U8 => 1,
            NativeType::I8 => 1,
            NativeType::U16 => 2,
            NativeType::I16 => 2,
            NativeType::U32 => 4,
            NativeType::I32 => 4,
            NativeType::U64 => 8,
            NativeType::I64 => 8,
            NativeType::U128 => 16,
            NativeType::I128 => 16,
            NativeType::Felt => 4,
            NativeType::Word => 16,
        }
    }

    /// The size of a value of this type in field elements.
    pub fn size_in_felts(&self) -> (r: usize)
        ensures
            r == self.spec_size_in_felts(),
            1 <= r <= 4,
            self.spec_size_in_bytes() <= 4 * r,
    {
        match self {
            NativeType::Bool => 1,
            NativeType::U8 => 1,
            NativeType::I8 => 1,
            NativeType::U16 => 1,
            NativeType::I16 => 1,
            NativeType::U32 => 1,
            NativeType::I32 => 1,
            NativeType::U64 => 2,
            NativeType::I64 => 2,
            NativeType::U128 => 4,
            NativeType::I128 => 4,
            NativeType::Felt => 1,
            NativeType::Word => 4,
        }
    }
}

/// The value of type `ty` encoded in the leading elements of `fs`, or
/// nothing where the elements do not encode such a value (a boolean element
/// other than `0` or `1`).
pub open spec fn spec_decode(ty: NativeType, fs: Seq<Felt>) -> Option<NativeValue> {
    match ty {
        NativeType::Bool => if fs[0].value == 0 {
            Some(NativeValue::Bool(false))
        } else if fs[0].value == 1 {
            Some(NativeValue::Bool(true))
        } else {
            None
        },
        NativeType::U8 => Some(NativeValue::U8(fs[0].value as u8)),
        NativeType::I8 => Some(NativeValue::I8((fs[0].value as u8) as i8)),
        NativeType::U16 => Some(NativeValue::U16(fs[0].value as u16)),
        NativeType::I16 => Some(NativeValue::I16((fs[0].value as u16) as i16)),
        NativeType::U32 => Some(NativeValue::U32(fs[0].value as u32)),
        NativeType::I32 => Some(NativeValue::I32((fs[0].value as u32) as i32)),
        NativeType::U64 => Some(
            NativeValue::U64((lo32(fs[0].value) * 0x1_0000_0000 + lo32(fs[1].value)) as u64),
        ),
        NativeType::I64 => Some(
            NativeValue::I64(((lo32(fs[0].value) * 0x1_0000_0000 + lo32(fs[1].value)) as u64) as i64),
        ),
        NativeType::U128 => Some(
            NativeValue::U128(
                (lo32(fs[0].value) as u128 * 0x1_0000_0000_0000_0000_0000_0000 + lo32(
                    fs[1].value,
                ) as u128 * 0x1_0000_0000_0000_0000 + lo32(fs[2].value) as u128 * 0x1_0000_0000
                    + lo32(fs[3].value) as u128) as u128,
            ),
        ),
        NativeType::I128 => Some(
            NativeValue::I128(
                ((lo32(fs[0].value) as u128 * 0x1_0000_0000_0000_0000_0000_0000 + lo32(
                    fs[1].value,
                ) as u128 * 0x1_0000_0000_0000_0000 + lo32(fs[2].value) as u128 * 0x1_0000_0000
                    + lo32(fs[3].value) as u128) as u128) as i128,
            ),
        ),
        NativeType::Felt => Some(NativeValue::Felt(fs[0])),
        NativeType::Word => Some(
            NativeValue::Word(Word { e0: fs[0], e1: fs[1], e2: fs[2], e3: fs[3] }),
        ),
    }
}

/// Decode the value of type `ty` held in the leading elements of `felts`.
pub fn decode_felts(ty: NativeType, felts: &Vec<Felt>) -> (r: Option<NativeValue>)
    requires
        felts@.len() >= ty.spec_size_in_felts(),
    ensures
        r == spec_decode(ty, felts@),
{
    match ty {
        NativeType::Bool => {
            let v: u64 = felts[0].as_u64();
            if v == 0 {
                Some(NativeValue::Bool(false))
            } else if v == 1 {
                Some(NativeValue::Bool(true))
            } else {
                None
            }
        },
        NativeType::U8 => Some(NativeValue::U8(crate::repr::u8_from_felts(felts))),
        NativeType::I8 => Some(NativeValue::I8(crate::repr::i8_from_felts(felts))),
        NativeType::U16 => Some(NativeValue::U16(crate::repr::u16_from_felts(felts))),
        NativeType::I16 => Some(NativeValue::I16(crate::repr::i16_from_felts(felts))),
        NativeType::U32 => Some(NativeValue::U32(crate::repr::u32_from_felts(felts))),
        NativeType::I32 => Some(NativeValue::I32(crate::repr::i32_from_felts(felts))),
        NativeType::U64 => Some(NativeValue::U64(crate::repr::u64_from_felts(felts))),
        NativeType::I64 => Some(NativeValue::I64(crate::repr::i64_from_felts(felts))),
        NativeType::U128 => Some(NativeValue::U128(crate::repr::u128_from_felts(felts))),
        NativeType::I128 => Some(NativeValue::I128(crate::repr::i128_from_felts(felts))),
        NativeType::Felt => Some(NativeValue::Felt(felts[0])),
        NativeType::Word => Some(
            NativeValue::Word(Word { e0: felts[0], e1: felts[1], e2: felts[2], e3: felts[3] }),
        ),
    }
}

/// An immutable snapshot of a completed (or failed) run: the operand-stack
/// outputs, with the top of the stack first, and the recorded memory,
/// addressed by `(context, address, cycle)`.
pub struct ExecutionTrace {
    /// The root address space of the run.
    pub root_context: u32,
    /// The cycle at which the run stopped; the trace cannot be advanced.
    pub last_cycle: u32,
    /// The final operand stack, top first.
    pub outputs: Vec<Felt>,
    /// The recorded memory of the run.
    pub memory: MemoryChiplet,
}

impl ExecutionTrace {
    /// A trace is well formed when its memory holds canonical elements only.
    pub open spec fn wf(self) -> bool {
        self.memory.wf()
    }

    /// Assemble a trace from a run's captured pieces.
    pub fn new(root_context: u32, last_cycle: u32, outputs: Vec<Felt>, memory: MemoryChiplet) -> (r:
        ExecutionTrace)
        requires
            memory.wf(),
        ensures
            r.root_context == root_context,
            r.last_cycle == last_cycle,
            r.outputs == outputs,
            r.memory == memory,
            r.wf(),
    {
        ExecutionTrace { root_context, last_cycle, outputs, memory }
    }

    /// The operand-stack outputs, top of the stack first.
    pub fn outputs(&self) -> (r: &Vec<Felt>)
        ensures
            r == &self.outputs,
    {
        &self.outputs
    }

    /// Consume the trace, extracting just the operand-stack outputs.
    pub fn into_outputs(self) -> (r: Vec<Felt>)
        ensures
            r == self.outputs,
    {
        self.outputs
    }

    /// Parse the leading operand-stack outputs as a value of type `ty`.
    /// Returns nothing when fewer outputs remain than the type needs, or
    /// when they do not encode such a value.
    pub fn parse_result(&self, ty: NativeType) -> (r: Option<NativeValue>)
        ensures
            self.outputs@.len() < ty.spec_size_in_felts() ==> r is None,
            self.outputs@.len() >= ty.spec_size_in_felts() ==> r == spec_decode(
                ty,
                self.outputs@,
            ),
    {
        let size: usize = ty.size_in_felts();
        if self.outputs.len() < size {
            return None;
        }
        decode_felts(ty, &self.outputs)
    }

    /// Read the element at `addr` in context `ctx` as of cycle `clk`.
    /// A location never written reads as the additive identity, zero.
    pub fn read_memory_element_in_context(&self, addr: u32, ctx: u32, clk: u32) -> (r: Option<
        Felt,
    >)
        requires
            self.wf(),
        ensures
            r matches Some(f) && f.value == self.memory.spec_read(ctx, addr, clk),
            r matches Some(f) && f.is_canonical(),
    {
        Some(self.memory.read_element(ctx, addr, clk))
    }

    /// Read the element at `addr` in the root context at the final cycle.
    pub fn read_memory_element(&self, addr: u32) -> (r: Option<Felt>)
        requires
            self.wf(),
        ensures
            r matches Some(f) && f.value == self.memory.spec_read(
                self.root_context,
                addr,
                self.last_cycle,
            ),
            r matches Some(f) && f.is_canonical(),
    {
        self.read_memory_element_in_context(addr, self.root_context, self.last_cycle)
    }

    /// Read the word at the element address `addr` in context `ctx` as of
    /// cycle `clk`. A read that is not word-aligned, or that would run past
    /// the end of memory, yields the zero word, as the memory is
    /// conceptually zero-initialized and sparse.
    pub fn read_memory_word_in_context(&self, addr: u32, ctx: u32, clk: u32) -> (r: Option<Word>)
        requires
            self.wf(),
        ensures
            addr % 4 == 0 && addr + 3 <= u32::MAX ==> (r matches Some(w) && forall|j: int|
                0 <= j < 4 ==> (#[trigger] w.spec_get(j)).value == self.memory.spec_read(
                    ctx,
                    (addr + j) as u32,
                    clk,
                )),
            !(addr % 4 == 0 && addr + 3 <= u32::MAX) ==> (r matches Some(w) && forall|j: int|
                0 <= j < 4 ==> (#[trigger] w.spec_get(j)).value == 0),
    {
        if addr % 4 == 0 && addr <= 0xffff_fffc {
            Some(self.memory.read_word(ctx, addr, clk))
        } else {
            Some(Word::zero())
        }
    }

    /// Read the word at the element address `addr` in the root context at
    /// the final cycle.
    pub fn read_memory_word(&self, addr: u32) -> (r: Option<Word>)
        requires
            self.wf(),
        ensures
            addr % 4 == 0 && addr + 3 <= u32::MAX ==> (r matches Some(w) && forall|j: int|
                0 <= j < 4 ==> (#[trigger] w.spec_get(j)).value == self.memory.spec_read(
                    self.root_context,
                    (addr + j) as u32,
                    self.last_cycle,
                )),
            !(addr % 4 == 0 && addr + 3 <= u32::MAX) ==> (r matches Some(w) && forall|j: int|
                0 <= j < 4 ==> (#[trigger] w.spec_get(j)).value == 0),
    {
        self.read_memory_word_in_context(addr, self.root_context, self.last_cycle)
    }

    /// What a raw byte read for a value of type `ty` at `addr` yields:
    /// the declared number of bytes, each element contributing the
    /// big-endian bytes of its low 32 bits; an address off an element
    /// boundary fails as unaligned, and one whose elements run past the
    /// end of the address space fails as out of bounds.
    pub open spec fn spec_read_result(
        self,
        addr: NativePtr,
        ty: NativeType,
        ctx: u32,
        clk: u32,
    ) -> Result<Seq<u8>, MemoryReadError> {
        if !addr.spec_is_element_aligned() {
            Err(MemoryReadError::UnalignedRead)
        } else if addr.addr + ty.spec_size_in_felts() - 1 > u32::MAX {
            Err(MemoryReadError::OutOfBounds)
        } else {
            Ok(
                Seq::new(
                    ty.spec_size_in_bytes() as nat,
                    |i: int|
                        nth_le_byte(
                            lo32(self.memory.spec_read(ctx, (addr.addr + i / 4) as u32, clk)),
                            3 - (i % 4),
                        ),
                ),
            )
        }
    }

    /// Read enough raw bytes from `addr` under `ctx` at cycle `clk` to hold
    /// a value of type `ty`. The address must be element-aligned; each
    /// element contributes the big-endian bytes of its low 32 bits.
    pub fn read_bytes_for_type(
        &self,
        addr: NativePtr,
        ty: NativeType,
        ctx: u32,
        clk: u32,
    ) -> (r: Result<Vec<u8>, MemoryReadError>)
        requires
            self.wf(),
        ensures
            match self.spec_read_result(addr, ty, ctx, clk) {
                Err(e) => r == Result::<Vec<u8>, MemoryReadError>::Err(e),
                Ok(bs) => r matches Ok(bytes) && bytes@ == bs,
            },
    {
        if !addr.is_element_aligned() {
            return Err(MemoryReadError::UnalignedRead);
        }
        let size_in_felts: usize = ty.size_in_felts();
        let mut elems: Vec<Felt> = Vec::new();
        let mut j: usize = 0;
        while j < size_in_felts
            invariant
                self.wf(),
                addr.spec_is_element_aligned(),
                j <= size_in_felts,
                size_in_felts == ty.spec_size_in_felts(),
                j > 0 ==> addr.addr + j - 1 <= u32::MAX,
                elems@.len() == j,
                forall|k: int|
                    0 <= k < j ==> (#[trigger] elems@[k]).value == self.memory.spec_read(
                        ctx,
                        (addr.addr + k) as u32,
                        clk,
                    ),
            decreases size_in_felts - j,
        {
            if addr.addr > u32::MAX - (j as u32) {
                return Err(MemoryReadError::OutOfBounds);
            }
            let a: u32 = addr.addr + (j as u32);
            elems.push(self.memory.read_element(ctx, a, clk));
            j = j + 1;
        }
        let size: usize = ty.size_in_bytes();
        assert(size <= 4 * size_in_felts);
        let mut buf: Vec<u8> = Vec::new();
        let mut i: usize = 0;
        while i < size
            invariant
                self.wf(),
                addr.spec_is_element_aligned(),
                addr.addr + ty.spec_size_in_felts() - 1 <= u32::MAX,
                i <= size,
                size == ty.spec_size_in_bytes(),
                size <= 4 * elems@.len(),
                buf@.len() == i,
                forall|k: int|
                    0 <= k < elems@.len() ==> (#[trigger] elems@[k]).value == self.memory.spec_read(
                        ctx,
                        (addr.addr + k) as u32,
                        clk,
                    ),
                forall|k: int|
                    0 <= k < i ==> #[trigger] buf@[k] == nth_le_byte(
                        lo32(self.memory.spec_read(ctx, (addr.addr + k / 4) as u32, clk)),
                        3 - (k % 4),
                    ),
            decreases size - i,
        {
            let v: u64 = elems[i / 4].as_u64() % 0x1_0000_0000;
            let b: u8 = if i % 4 == 0 {
                ((v / 0x100_0000) % 0x100) as u8
            } else if i % 4 == 1 {
                ((v / 0x1_0000) % 0x100) as u8
            } else if i % 4 == 2 {
                ((v / 0x100) % 0x100) as u8
            } else {
                (v % 0x100) as u8
            };
            buf.push(b);
            i = i + 1;
        }
        proof {
            assert(buf@ =~= self.spec_read_result(addr, ty, ctx, clk)->Ok_0);
        }
        Ok(buf)
    }

    /// Read a value of type `ty` whose first element sits at the byte
    /// address `addr` in the host's linear address space. The address must
    /// decompose to an element boundary; elements are read in address
    /// order.
    pub fn read_from_rust_memory_in_context(
        &self,
        ty: NativeType,
        addr: u32,
        ctx: u32,
        clk: u32,
    ) -> (r: Option<NativeValue>)
        requires
            self.wf(),
            addr % 4 == 0,
            addr / 4 + ty.spec_size_in_felts() - 1 <= u32::MAX,
        ensures
            r == spec_decode(
                ty,
                Seq::new(
                    ty.spec_size_in_felts() as nat,
                    |k: int|
                        (Felt {
                            value: self.memory.spec_read(ctx, (addr / 4 + k) as u32, clk),
                        }),
                ),
            ),
    {
        let ptr: NativePtr = NativePtr::from_ptr(addr);
        let size_in_felts: usize = ty.size_in_felts();
        let mut elems: Vec<Felt> = Vec::new();
        let mut j: usize = 0;
        while j < size_in_felts
            invariant
                self.wf(),
                j <= size_in_felts,
                size_in_felts == ty.spec_size_in_felts(),
                ptr.addr == addr / 4,
                addr / 4 + ty.spec_size_in_felts() - 1 <= u32::MAX,
                elems@.len() == j,
                forall|k: int|
                    0 <= k < j ==> #[trigger] elems@[k] == (Felt {
                        value: self.memory.spec_read(ctx, (addr / 4 + k) as u32, clk),
                    }),
            decreases size_in_felts - j,
        {
            let a: u32 = ptr.addr + (j as u32);
            let f: Felt = self.memory.read_element(ctx, a, clk);
            elems.push(Felt { value: f.as_u64() });
            j = j + 1;
        }
        assert(elems@ =~= Seq::new(
            ty.spec_size_in_felts() as nat,
            |k: int| (Felt { value: self.memory.spec_read(ctx, (addr / 4 + k) as u32, clk) }),
        ));
        decode_felts(ty, &elems)
    }

    /// Read a value of type `ty` at the byte address `addr` in the root
    /// context at the final cycle.
    pub fn read_from_rust_memory(&self, ty: NativeType, addr: u32) -> (r: Option<NativeValue>)
        requires
            self.wf(),
            addr % 4 == 0,
            addr / 4 + ty.spec_size_in_felts() - 1 <= u32::MAX,
        ensures
            r == spec_decode(
                ty,
                Seq::new(
                    ty.spec_size_in_felts() as nat,
                    |k: int|
                        (Felt {
                            value: self.memory.spec_read(
                                self.root_context,
                                (addr / 4 + k) as u32,
                                self.last_cycle,
                            ),
                        }),
                ),
            ),
    {
        self.read_from_rust_memory_in_context(ty, addr, self.root_context, self.last_cycle)
    }
}

} // verus!
