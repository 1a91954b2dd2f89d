//! Tests for the cycle-versioned memory model, the typed reads of the
//! execution trace, and the rendering of memory read requests.

use miden_debugger::felt::{Felt, Word};
use miden_debugger::memexpr::{FormatType, ReadMemoryExpr};
use miden_debugger::render::{format_memory_read, render_digits, DisplayValues, MemoryCommandError};
use miden_debugger::trace::{
    ExecutionTrace, MemoryChiplet, MemoryReadError, NativePtr, NativeType, NativeValue,
};

fn trace_with(memory: MemoryChiplet, outputs: Vec<Felt>) -> ExecutionTrace {
    ExecutionTrace::new(0, 100, outputs, memory)
}

#[test]
fn unwritten_memory_reads_zero() {
    let mem = MemoryChiplet::new();
    let f = mem.read_element(0, 12345, 99);
    assert_eq!(f.as_u64(), 0);
    let tr = trace_with(mem, vec![]);
    let f = tr.read_memory_element(777).unwrap();
    assert_eq!(f.as_u64(), 0);
}

#[test]
fn write_then_read_roundtrips() {
    let mut mem = MemoryChiplet::new();
    mem.write_element(0, 40, 5, Felt::new(123456));
    // Reading at or after the write's cycle sees the value.
    assert_eq!(mem.read_element(0, 40, 5).as_u64(), 123456);
    assert_eq!(mem.read_element(0, 40, 99).as_u64(), 123456);
    // Reading before it sees the zero-initialized memory.
    assert_eq!(mem.read_element(0, 40, 4).as_u64(), 0);
    // Distinct contexts never alias addresses.
    assert_eq!(mem.read_element(1, 40, 99).as_u64(), 0);
    // A later write wins from its cycle on.
    mem.write_element(0, 40, 8, Felt::new(7));
    assert_eq!(mem.read_element(0, 40, 7).as_u64(), 123456);
    assert_eq!(mem.read_element(0, 40, 8).as_u64(), 7);
}

#[test]
fn word_write_and_read() {
    let mut mem = MemoryChiplet::new();
    let w = Word::new(Felt::new(1), Felt::new(2), Felt::new(3), Felt::new(4));
    mem.write_word(0, 8, 1, w);
    let back = mem.read_word(0, 8, 1);
    assert_eq!(back, w);
    assert_eq!(mem.read_element(0, 9, 1).as_u64(), 2);
}

#[test]
fn unaligned_typed_read_fails() {
    let tr = trace_with(MemoryChiplet::new(), vec![]);
    let unaligned = NativePtr::from_ptr(0x101);
    assert_eq!(unaligned.offset, 1);
    let r = tr.read_bytes_for_type(unaligned, NativeType::U32, 0, 100);
    assert_eq!(r, Err(MemoryReadError::UnalignedRead));

    let near_end = NativePtr { addr: u32::MAX, offset: 0 };
    let r = tr.read_bytes_for_type(near_end, NativeType::U64, 0, 100);
    assert_eq!(r, Err(MemoryReadError::OutOfBounds));
}

#[test]
fn typed_read_decodes_elements() {
    let mut mem = MemoryChiplet::new();
    // A u64 spans two elements: the most significant 32 bits first.
    mem.write_element(0, 10, 1, Felt::new(0xdead_beef));
    mem.write_element(0, 11, 1, Felt::new(0xcafe_f00d));
    let tr = trace_with(mem, vec![]);
    let ptr = NativePtr { addr: 10, offset: 0 };
    let bytes = tr.read_bytes_for_type(ptr, NativeType::U64, 0, 100).unwrap();
    assert_eq!(bytes, vec![0xde, 0xad, 0xbe, 0xef, 0xca, 0xfe, 0xf0, 0x0d]);

    let v = tr.read_from_rust_memory_in_context(NativeType::U64, 40, 0, 100).unwrap();
    assert_eq!(v, NativeValue::U64(0xdead_beef_cafe_f00d));
}

#[test]
fn parse_result_reads_stack_outputs() {
    // The outputs hold the top of the stack first; a u64 occupies two
    // elements, most significant half on top.
    let outputs = vec![Felt::new(0x1), Felt::new(0x2), Felt::new(9)];
    let tr = trace_with(MemoryChiplet::new(), outputs);
    assert_eq!(tr.parse_result(NativeType::U64), Some(NativeValue::U64(0x1_0000_0002)));
    assert_eq!(tr.parse_result(NativeType::U32), Some(NativeValue::U32(1)));
    assert_eq!(tr.parse_result(NativeType::Felt), Some(NativeValue::Felt(Felt::new(1))));

    let empty = trace_with(MemoryChiplet::new(), vec![]);
    assert_eq!(empty.parse_result(NativeType::U8), None);

    // An element that is neither 0 nor 1 does not encode a boolean.
    let bad_bool = trace_with(MemoryChiplet::new(), vec![Felt::new(2)]);
    assert_eq!(bad_bool.parse_result(NativeType::Bool), None);
}

#[test]
fn format_memory_read_renders_values() {
    let mut mem = MemoryChiplet::new();
    mem.write_element(0, 64, 1, Felt::new(255));
    let tr = trace_with(mem, vec![]);

    // `mem 0x100` reads element 64 as a felt, decimal by default.
    let expr = ReadMemoryExpr::parse("0x100").unwrap();
    assert_eq!(format_memory_read(&tr, &expr, 0, 100).unwrap(), "255");

    let expr = ReadMemoryExpr::parse("0x100 felt hex").unwrap();
    assert_eq!(format_memory_read(&tr, &expr, 0, 100).unwrap(), "ff");

    let expr = ReadMemoryExpr::parse("0x100 u32").unwrap();
    assert_eq!(format_memory_read(&tr, &expr, 0, 100).unwrap(), "255");

    let expr = ReadMemoryExpr::parse("0x100 word").unwrap();
    assert_eq!(format_memory_read(&tr, &expr, 0, 100).unwrap(), "[255, 0, 0, 0]");

    // An unaligned felt read fails rather than rounding the address.
    let expr = ReadMemoryExpr::parse("0x101").unwrap();
    assert_eq!(format_memory_read(&tr, &expr, 0, 100), Err(MemoryCommandError::FeltUnaligned));

    // A word read must be word-aligned.
    let expr = ReadMemoryExpr::parse("0x104 word").unwrap();
    assert_eq!(format_memory_read(&tr, &expr, 0, 100), Err(MemoryCommandError::WordUnaligned));

    // Reading more than one value must fail explicitly.
    let expr = ReadMemoryExpr::parse("0x100 felt decimal 2").unwrap();
    assert_eq!(format_memory_read(&tr, &expr, 0, 100), Err(MemoryCommandError::CountUnsupported));
}

#[test]
fn signed_read_renders_sign_and_bits() {
    let mut mem = MemoryChiplet::new();
    // The i8 at the start of element 5 has the byte 0xff: the value -1.
    mem.write_element(0, 5, 1, Felt::new(0xff00_0000));
    let tr = trace_with(mem, vec![]);
    let expr = ReadMemoryExpr {
        addr: NativePtr { addr: 5, offset: 0 },
        ty: NativeType::I8,
        format: FormatType::Decimal,
        count: 1,
    };
    assert_eq!(format_memory_read(&tr, &expr, 0, 100).unwrap(), "-1");
    let expr = ReadMemoryExpr { format: FormatType::Hex, ..expr };
    assert_eq!(format_memory_read(&tr, &expr, 0, 100).unwrap(), "ff");
}

#[test]
fn digit_rendering() {
    assert_eq!(render_digits(0, 10), "0");
    assert_eq!(render_digits(255, 16), "ff");
    assert_eq!(render_digits(5, 2), "101");
    assert_eq!(render_digits(1234567890, 10), "1234567890");
    assert_eq!(DisplayValues::new(vec![1, 22, 333]).render(), "1, 22, 333");
    assert_eq!(DisplayValues::new(vec![]).render(), "");
}

#[test]
fn word_read_honors_context_and_cycle() {
    let mut mem = MemoryChiplet::new();
    // A word written in a non-root context at cycle 6.
    mem.write_word(
        1,
        8,
        6,
        Word::new(Felt::new(10), Felt::new(20), Felt::new(30), Felt::new(40)),
    );
    let tr = trace_with(mem, vec![]);

    // Element address 8 is byte address 32.
    let expr = ReadMemoryExpr::parse("32 word").unwrap();
    // The requested context and cycle are honored...
    assert_eq!(format_memory_read(&tr, &expr, 1, 6).unwrap(), "[10, 20, 30, 40]");
    // ...so another context, or a cycle before the write, sees zeros.
    assert_eq!(format_memory_read(&tr, &expr, 0, 6).unwrap(), "[0, 0, 0, 0]");
    assert_eq!(format_memory_read(&tr, &expr, 1, 5).unwrap(), "[0, 0, 0, 0]");
}
