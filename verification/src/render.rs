//! Rendering of inspected values as text: decimal, hexadecimal and binary
//! digit strings, comma-separated value lists, and the formatted result of
//! a memory read request.

use vstd::prelude::*;

use crate::felt::Felt;
use crate::memexpr::{FormatType, ReadMemoryExpr};

use crate::trace::{ExecutionTrace, MemoryReadError, NativeType};

verus! {

/// The digit character for a value below sixteen.
pub open spec fn digit_char(d: u64) -> char {
    if d < 10 {
        (48 + d) as char
    } else {
        (87 + d) as char
    }
}

/// The digits of `v` in the given base, most significant first, with no
/// leading zeros (a lone zero for zero).
pub open spec fn spec_digits(v: u64, base: u64) -> Seq<char>
    decreases v via spec_digits_decreases
{
    if base < 2 {
        Seq::empty()
    } else if v < base {
        seq![digit_char(v)]
    } else {
        spec_digits(v / base, base).push(digit_char(v % base))
    }
}

#[via_fn]
proof fn spec_digits_decreases(v: u64, base: u64) {
    if base >= 2 && v >= base {
        assert(v / base < v) by (nonlinear_arith)
            requires
                base >= 2,
                v >= base,
        ;
    }
}

/// The digits of `v` in the base the format names.
pub open spec fn spec_render_uint(v: u64, format: FormatType) -> Seq<char> {
    match format {
        FormatType::Decimal => spec_digits(v, 10),
        FormatType::Hex => spec_digits(v, 16),
        FormatType::Binary => spec_digits(v, 2),
    }
}

/// A signed value rendered in the format: signed decimal, or the digits of
/// its unsigned bit pattern `bits` for hexadecimal and binary.
pub open spec fn spec_render_int(v: i64, bits: u64, format: FormatType) -> Seq<char> {
    match format {
        FormatType::Decimal => if v < 0 {
            seq!['-'] + spec_digits((-(v as int)) as u64, 10)
        } else {
            spec_digits(v as u64, 10)
        },
        FormatType::Hex => spec_digits(bits, 16),
        FormatType::Binary => spec_digits(bits, 2),
    }
}

/// The single digit character for a value below sixteen.
fn digit_str(d: u64) -> (r: &'static str)
    requires
        d < 16,
    ensures
        r@ =~= seq![digit_char(d)],
{
    proof {
        reveal_strlit("0");
        reveal_strlit("1");
        reveal_strlit("2");
        reveal_strlit("3");
        reveal_strlit("4");
        reveal_strlit("5");
        reveal_strlit("6");
        reveal_strlit("7");
        reveal_strlit("8");
        reveal_strlit("9");
        reveal_strlit("a");
        reveal_strlit("b");
        reveal_strlit("c");
        reveal_strlit("d");
        reveal_strlit("e");
        reveal_strlit("f");
    }
    if d == 0 {
        "0"
    } else if d == 1 {
        "1"
    } else if d == 2 {
        "2"
    } else if d == 3 {
        "3"
    } else if d == 4 {
        "4"
    } else if d == 5 {
        "5"
    } else if d == 6 {
        "6"
    } else if d == 7 {
        "7"
    } else if d == 8 {
        "8"
    } else if d == 9 {
        "9"
    } else if d == 10 {
        "a"
    } else if d == 11 {
        "b"
    } else if d == 12 {
        "c"
    } else if d == 13 {
        "d"
    } else if d == 14 {
        "e"
    } else {
        "f"
    }
}

/// Render `v` as digits in the given base.
pub fn render_digits(v: u64, base: u64) -> (r: String)
    requires
        2 <= base <= 16,
    ensures
        r@ == spec_digits(v, base),
    decreases v,
{
    if v < base {
        String::from_str(digit_str(v))
    } else {
        proof {
            assert(v / base < v) by (nonlinear_arith)
                requires
                    base >= 2,
                    v >= base,
            ;
        }
        let mut s = render_digits(v / base, base);
        s.append(digit_str(v % base));
        proof {
            assert(s@ =~= spec_digits(v, base));
        }
        s
    }
}

/// Render an unsigned value in the named format.
pub fn render_uint(v: u64, format: FormatType) -> (r: String)
    ensures
        r@ == spec_render_uint(v, format),
{
    match format {
        FormatType::Decimal => render_digits(v, 10),
        FormatType::Hex => render_digits(v, 16),
        FormatType::Binary => render_digits(v, 2),
    }
}

/// Render a signed value in the named format; `bits` is the unsigned bit
/// pattern used for hexadecimal and binary.
pub fn render_int(v: i64, bits: u64, format: FormatType) -> (r: String)
    ensures
        r@ == spec_render_int(v, bits, format),
{
    match format {
        FormatType::Decimal => {
            if v < 0 {
                let mag: u64 = #[verifier::truncate] ((-(v as i128)) as u64);
                proof {
                    assert(-(v as i128) == -(v as int));
                    assert(0 <= -(v as int) <= u64::MAX);
                }
                let mut s = String::from_str("-");
                let digits = render_digits(mag, 10);
                s.append(digits.as_str());
                proof {
                    reveal_strlit("-");
                    assert(s@ =~= spec_render_int(v, bits, format));
                }
                s
            } else {
                render_digits(v as u64, 10)
            }
        },
        FormatType::Hex => render_digits(bits, 16),
        FormatType::Binary => render_digits(bits, 2),
    }
}

/// Renders a list of values as comma-separated decimals.
#[derive(Debug)]
pub struct DisplayValues {
    /// The values to render, in order.
    pub values: Vec<u64>,
}

/// A list of values as comma-separated decimals.
pub open spec fn spec_join_dec(s: Seq<u64>) -> Seq<char>
    decreases s.len(),
{
    if s.len() == 0 {
        Seq::empty()
    } else if s.len() == 1 {
        spec_digits(s[0], 10)
    } else {
        spec_join_dec(s.drop_last()) + ", "@ + spec_digits(s.last(), 10)
    }
}

impl DisplayValues {
    /// Wrap a list of values for rendering.
    pub fn new(values: Vec<u64>) -> (r: DisplayValues)
        ensures
            r.values == values,
    {
        DisplayValues { values }
    }

    /// The values, comma-separated, in decimal.
    pub fn render(&self) -> (r: String)
        ensures
            r@ == spec_join_dec(self.values@),
    {
        let mut s = String::new();
        let mut i: usize = 0;
        proof {
            assert(self.values@.take(0) =~= Seq::<u64>::empty());
        }
        while i < self.values.len()
            invariant
                i <= self.values@.len(),
                s@ == spec_join_dec(self.values@.take(i as int)),
            decreases self.values@.len() - i,
        {
            proof {
                assert(self.values@.take(i + 1).drop_last() =~= self.values@.take(i as int));
                assert(self.values@.take(i + 1).last() == self.values@[i as int]);
                reveal_strlit(", ");
            }
            if i > 0 {
                s.append(", ");
            }
            let digits = render_digits(self.values[i], 10);
            s.append(digits.as_str());
            proof {
                assert(s@ =~= spec_join_dec(self.values@.take(i + 1)));
            }
            i = i + 1;
        }
        proof {
            assert(self.values@.take(self.values@.len() as int) =~= self.values@);
        }
        s
    }
}

/// Why a memory read request could not be served.
#[derive(Debug, Clone, Copy, PartialEq, Eq, Structural)]
pub enum MemoryCommandError {
    /// Reading more than one value at a time is deliberately not
    /// implemented; the request must fail rather than silently read one.
    CountUnsupported,
    /// A `felt` read from an address not on an element boundary.
    FeltUnaligned,
    /// A `word` read from an address not on a word boundary.
    WordUnaligned,
    /// Reads of this declared type are not implemented.
    UnsupportedType,
    /// The underlying byte read failed.
    Read(MemoryReadError),
}

impl MemoryCommandError {
    /// The description each failure carries; a failed byte read reports
    /// the memory error's own description.
    pub open spec fn spec_message(self) -> Seq<char> {
        match self {
            MemoryCommandError::CountUnsupported => "a count greater than 1 is not yet implemented"@,
            MemoryCommandError::FeltUnaligned => "read failed: type 'felt' must be aligned to an element boundary"@,
            MemoryCommandError::WordUnaligned => "read failed: type 'word' must be aligned to a word boundary"@,
            MemoryCommandError::UnsupportedType => "support for reads of this type is not implemented yet"@,
            MemoryCommandError::Read(e) => e.spec_message(),
        }
    }

    /// A human-readable description of the failure.
    pub fn message(&self) -> (r: &'static str)
        ensures
            r@ == self.spec_message(),
    {
        match self {
            MemoryCommandError::CountUnsupported => "a count greater than 1 is not yet implemented",
            MemoryCommandError::FeltUnaligned => "read failed: type 'felt' must be aligned to an element boundary",
            MemoryCommandError::WordUnaligned => "read failed: type 'word' must be aligned to a word boundary",
            MemoryCommandError::UnsupportedType => "support for reads of this type is not implemented yet",
            MemoryCommandError::Read(e) => e.message(),
        }
    }
}

/// The unsigned value of the first `k` bytes of `b`, big-endian.
pub open spec fn be_value(b: Seq<u8>, k: int) -> u64
    decreases k,
{
    if k <= 0 {
        0
    } else {
        (be_value(b, k - 1) * 0x100 + crate::repr::byte_at(b, k - 1)) as u64
    }
}

/// The rendered form of the bytes of a scalar read, by declared type, or
/// nothing where reads of the type are not implemented. Signed types
/// render their value in decimal and their bit pattern otherwise; the
/// boolean renders as a truth word in decimal and as a `0x`/`0b` digit
/// otherwise.
pub open spec fn spec_format_bytes(b: Seq<u8>, ty: NativeType, format: FormatType) -> Option<
    Seq<char>,
> {
    match ty {
        NativeType::Bool => Some(
            match format {
                FormatType::Decimal => if byte_at(b, 0) != 0 {
                    "true"@
                } else {
                    "false"@
                },
                FormatType::Hex => if byte_at(b, 0) != 0 {
                    "0x1"@
                } else {
                    "0x0"@
                },
                FormatType::Binary => if byte_at(b, 0) != 0 {
                    "0b1"@
                } else {
                    "0b0"@
                },
            },
        ),
        NativeType::U8 => Some(spec_render_uint(be_value(b, 1), format)),
        NativeType::I8 => Some(
            spec_render_int((be_value(b, 1) as u8) as i8 as i64, be_value(b, 1), format),
        ),
        NativeType::U16 => Some(spec_render_uint(be_value(b, 2), format)),
        NativeType::I16 => Some(
            spec_render_int((be_value(b, 2) as u16) as i16 as i64, be_value(b, 2), format),
        ),
        NativeType::U32 => Some(spec_render_uint(be_value(b, 4), format)),
        NativeType::I32 => Some(
            spec_render_int((be_value(b, 4) as u32) as i32 as i64, be_value(b, 4), format),
        ),
        NativeType::U64 => Some(spec_render_uint(be_value(b, 8), format)),
        NativeType::I64 => Some(
            spec_render_int(be_value(b, 8) as i64, be_value(b, 8), format),
        ),
        _ => None,
    }
}

/// The byte at offset `k` of `b`, reading zero past the end.
pub open spec fn byte_at(b: Seq<u8>, k: int) -> u64 {
    crate::repr::byte_at(b, k)
}


/// The small-index closed forms of `be_value`.
proof fn lemma_be_values(b: Seq<u8>)
    ensures
        be_value(b, 0) == 0,
        be_value(b, 1) == byte_at(b, 0),
        be_value(b, 2) == byte_at(b, 0) * 0x100 + byte_at(b, 1),
        be_value(b, 4) == byte_at(b, 0) * 0x100_0000 + byte_at(b, 1) * 0x1_0000 + byte_at(b, 2)
            * 0x100 + byte_at(b, 3),
        be_value(b, 8) == byte_at(b, 0) * 0x100_0000_0000_0000 + byte_at(b, 1)
            * 0x1_0000_0000_0000 + byte_at(b, 2) * 0x100_0000_0000 + byte_at(b, 3) * 0x1_0000_0000
            + byte_at(b, 4) * 0x100_0000 + byte_at(b, 5) * 0x1_0000 + byte_at(b, 6) * 0x100
            + byte_at(b, 7),
{
    assert(be_value(b, 0) == 0);
    assert(be_value(b, 1) == byte_at(b, 0));
    assert(be_value(b, 2) == byte_at(b, 0) * 0x100 + byte_at(b, 1));
    assert(be_value(b, 3) == byte_at(b, 0) * 0x1_0000 + byte_at(b, 1) * 0x100 + byte_at(b, 2));
    assert(be_value(b, 4) == byte_at(b, 0) * 0x100_0000 + byte_at(b, 1) * 0x1_0000 + byte_at(b, 2)
        * 0x100 + byte_at(b, 3));
    assert(be_value(b, 5) == byte_at(b, 0) * 0x1_0000_0000 + byte_at(b, 1) * 0x100_0000 + byte_at(
        b,
        2,
    ) * 0x1_0000 + byte_at(b, 3) * 0x100 + byte_at(b, 4));
    assert(be_value(b, 6) == byte_at(b, 0) * 0x100_0000_0000 + byte_at(b, 1) * 0x1_0000_0000
        + byte_at(b, 2) * 0x100_0000 + byte_at(b, 3) * 0x1_0000 + byte_at(b, 4) * 0x100 + byte_at(
        b,
        5,
    ));
    assert(be_value(b, 7) == byte_at(b, 0) * 0x1_0000_0000_0000 + byte_at(b, 1) * 0x100_0000_0000
        + byte_at(b, 2) * 0x1_0000_0000 + byte_at(b, 3) * 0x100_0000 + byte_at(b, 4) * 0x1_0000
        + byte_at(b, 5) * 0x100 + byte_at(b, 6));
    assert(be_value(b, 8) == byte_at(b, 0) * 0x100_0000_0000_0000 + byte_at(b, 1)
        * 0x1_0000_0000_0000 + byte_at(b, 2) * 0x100_0000_0000 + byte_at(b, 3) * 0x1_0000_0000
        + byte_at(b, 4) * 0x100_0000 + byte_at(b, 5) * 0x1_0000 + byte_at(b, 6) * 0x100 + byte_at(
        b,
        7,
    ));
}

/// Render the bytes of a scalar read according to its declared type.
/// Fails exactly for the types whose reads are not implemented.
pub fn format_bytes_as_type(bytes: &Vec<u8>, ty: NativeType, format: FormatType) -> (r: Result<
    String,
    MemoryCommandError,
>)
    requires
        bytes@.len() >= ty.spec_size_in_bytes(),
    ensures
        match spec_format_bytes(bytes@, ty, format) {
            Some(text) => r matches Ok(s) && s@ == text,
            None => r == Result::<String, MemoryCommandError>::Err(
                MemoryCommandError::UnsupportedType,
            ),
        },
{
    match ty {
        NativeType::Bool => {
            let truthy: bool = bytes[0] != 0;
            let text: &'static str = match format {
                FormatType::Decimal => if truthy {
                    "true"
                } else {
                    "false"
                },
                FormatType::Hex => if truthy {
                    "0x1"
                } else {
                    "0x0"
                },
                FormatType::Binary => if truthy {
                    "0b1"
                } else {
                    "0b0"
                },
            };
            Ok(String::from_str(text))
        },
        NativeType::U8 => {
            let v: u64 = bytes[0] as u64;
            proof {
                lemma_be_values(bytes@);
            }
            Ok(render_uint(v, format))
        },
        NativeType::I8 => {
            let v: u64 = bytes[0] as u64;
            proof {
                lemma_be_values(bytes@);
            }
            let signed: i64 = (#[verifier::truncate] (v as u8 as i8)) as i64;
            Ok(render_int(signed, v, format))
        },
        NativeType::U16 => {
            let v: u64 = (bytes[0] as u64) * 0x100 + (bytes[1] as u64);
            proof {
                lemma_be_values(bytes@);
            }
            Ok(render_uint(v, format))
        },
        NativeType::I16 => {
            let v: u64 = (bytes[0] as u64) * 0x100 + (bytes[1] as u64);
            proof {
                lemma_be_values(bytes@);
            }
            let signed: i64 = (#[verifier::truncate] (v as u16 as i16)) as i64;
            Ok(render_int(signed, v, format))
        },
        NativeType::U32 => {
            let v: u64 = ((bytes[0] as u64) * 0x100_0000) + ((bytes[1] as u64) * 0x1_0000) + ((
            bytes[2] as u64) * 0x100) + (bytes[3] as u64);
            proof {
                lemma_be_values(bytes@);
            }
            Ok(render_uint(v, format))
        },
        NativeType::I32 => {
            let v: u64 = ((bytes[0] as u64) * 0x100_0000) + ((bytes[1] as u64) * 0x1_0000) + ((
            bytes[2] as u64) * 0x100) + (bytes[3] as u64);
            proof {
                lemma_be_values(bytes@);
            }
            let signed: i64 = (#[verifier::truncate] (v as u32 as i32)) as i64;
            Ok(render_int(signed, v, format))
        },
        NativeType::U64 => {
            let v: u64 = be_read_u64(bytes);
            Ok(render_uint(v, format))
        },
        NativeType::I64 => {
            let v: u64 = be_read_u64(bytes);
            let signed: i64 = #[verifier::truncate] (v as i64);
            Ok(render_int(signed, v, format))
        },
        _ => Err(MemoryCommandError::UnsupportedType),
    }
}

/// The 64-bit value held big-endian in the first eight bytes.
fn be_read_u64(bytes: &Vec<u8>) -> (r: u64)
    requires
        bytes@.len() >= 8,
    ensures
        r == be_value(bytes@, 8),
{
    proof {
        lemma_be_values(bytes@);
    }
    let hi: u64 = ((bytes[0] as u64) * 0x100_0000) + ((bytes[1] as u64) * 0x1_0000) + ((bytes[2]
        as u64) * 0x100) + (bytes[3] as u64);
    let lo: u64 = ((bytes[4] as u64) * 0x100_0000) + ((bytes[5] as u64) * 0x1_0000) + ((bytes[6]
        as u64) * 0x100) + (bytes[7] as u64);
    hi * 0x1_0000_0000 + lo
}

/// The elements of a word, comma-separated in the named format, between
/// brackets.
pub open spec fn spec_word_text(vals: Seq<u64>, format: FormatType) -> Seq<char>
    decreases vals.len(),
{
    if vals.len() == 0 {
        Seq::empty()
    } else if vals.len() == 1 {
        spec_render_uint(vals[0], format)
    } else {
        spec_word_text(vals.drop_last(), format) + ", "@ + spec_render_uint(vals.last(), format)
    }
}

/// Serve a memory read request against a captured execution trace, in
/// address space `ctx` as of cycle `clk`: render the value of the declared
/// type at the requested address. A count above one, a misaligned `felt`
/// or `word` read, and the types whose reads are not implemented fail with
/// the matching error.
pub fn format_memory_read(
    trace: &ExecutionTrace,
    expr: &ReadMemoryExpr,
    ctx: u32,
    clk: u32,
) -> (r: Result<String, MemoryCommandError>)
    requires
        trace.wf(),
    ensures
        expr.count > 1 ==> r == Result::<String, MemoryCommandError>::Err(
            MemoryCommandError::CountUnsupported,
        ),
        expr.count <= 1 && expr.ty == NativeType::Felt ==> (if !expr.addr.spec_is_element_aligned() {
            r == Result::<String, MemoryCommandError>::Err(MemoryCommandError::FeltUnaligned)
        } else {
            r matches Ok(s) && s@ == spec_render_uint(
                trace.memory.spec_read(ctx, expr.addr.addr, clk),
                expr.format,
            )
        }),
        expr.count <= 1 && expr.ty == NativeType::Word ==> (if !expr.addr.spec_is_word_aligned() {
            r == Result::<String, MemoryCommandError>::Err(MemoryCommandError::WordUnaligned)
        } else {
            r matches Ok(s) && s@ == seq!['['] + spec_word_text(
                Seq::new(
                    4,
                    |j: int|
                        (if expr.addr.addr + 3 <= u32::MAX {
                            trace.memory.spec_read(ctx, (expr.addr.addr + j) as u32, clk)
                        } else {
                            0
                        }),
                ),
                expr.format,
            ) + seq![']']
        }),
        expr.count <= 1 && expr.ty != NativeType::Felt && expr.ty != NativeType::Word ==> (
        match trace.spec_read_result(expr.addr, expr.ty, ctx, clk) {
            Err(e) => r == Result::<String, MemoryCommandError>::Err(MemoryCommandError::Read(e)),
            Ok(bytes) => match spec_format_bytes(bytes, expr.ty, expr.format) {
                Some(text) => r matches Ok(s) && s@ == text,
                None => r == Result::<String, MemoryCommandError>::Err(
                    MemoryCommandError::UnsupportedType,
                ),
            },
        }),
{
    if expr.count > 1 {
        return Err(MemoryCommandError::CountUnsupported);
    }
    match expr.ty {
        NativeType::Felt => {
            if !expr.addr.is_element_aligned() {
                return Err(MemoryCommandError::FeltUnaligned);
            }
            let f: Felt = match trace.read_memory_element_in_context(expr.addr.addr, ctx, clk) {
                Some(f) => f,
                None => Felt::zero(),
            };
            Ok(render_uint(f.as_u64(), expr.format))
        },
        NativeType::Word => {
            if !expr.addr.is_word_aligned() {
                return Err(MemoryCommandError::WordUnaligned);
            }
            let word = match trace.read_memory_word_in_context(expr.addr.addr, ctx, clk) {
                Some(w) => w,
                None => crate::felt::Word::zero(),
            };
            let mut vals: Vec<u64> = Vec::new();
            vals.push(word.e0.as_u64());
            vals.push(word.e1.as_u64());
            vals.push(word.e2.as_u64());
            vals.push(word.e3.as_u64());
            let mut s = String::from_str("[");
            let mut i: usize = 0;
            proof {
                reveal_strlit("[");
                reveal_strlit("]");
                assert(vals@.take(0) =~= Seq::<u64>::empty());
                assert(s@ =~= seq!['['] + spec_word_text(vals@.take(0), expr.format));
            }
            while i < vals.len()
                invariant
                    i <= vals@.len(),
                    s@ == seq!['['] + spec_word_text(vals@.take(i as int), expr.format),
                decreases vals@.len() - i,
            {
                proof {
                    assert(vals@.take(i + 1).drop_last() =~= vals@.take(i as int));
                    assert(vals@.take(i + 1).last() == vals@[i as int]);
                    reveal_strlit(", ");
                }
                if i > 0 {
                    s.append(", ");
                }
                let piece = render_uint(vals[i], expr.format);
                s.append(piece.as_str());
                proof {
                    assert(s@ =~= seq!['['] + spec_word_text(vals@.take(i + 1), expr.format));
                }
                i = i + 1;
            }
            proof {
                assert(vals@.take(vals@.len() as int) =~= vals@);
            }
            s.append("]");
            proof {
                reveal_strlit("]");
                assert(word.spec_get(0) == word.e0 && word.spec_get(1) == word.e1 && word.spec_get(
                    2,
                ) == word.e2 && word.spec_get(3) == word.e3);
                assert(vals@ =~= Seq::new(
                    4,
                    |j: int|
                        (if expr.addr.addr + 3 <= u32::MAX {
                            trace.memory.spec_read(ctx, (expr.addr.addr + j) as u32, clk)
                        } else {
                            0
                        }),
                ));
            }
            Ok(s)
        },
        _ => {
            let bytes: Vec<u8> = match trace.read_bytes_for_type(expr.addr, expr.ty, ctx, clk) {
                Ok(b) => b,
                Err(e) => {
                    return Err(MemoryCommandError::Read(e));
                },
            };
            format_bytes_as_type(&bytes, expr.ty, expr.format)
        },
    }
}

} // verus!
