//! The textual form of a memory read request: an address, an optional
//! declared type, an output format, and a read count.
//!
//! The grammar is `<addr> [<type>] [<format>] [<count>]`, whitespace
//! separated: the address is a decimal or `0x` hexadecimal byte address,
//! the type one of the native type names (`felt` when omitted), the format
//! `decimal`, `hex` or `binary` (`decimal` when omitted), and the count a
//! number (`1` when omitted).

use vstd::prelude::*;

use crate::parse::{spec_number, spec_tokens};
use crate::trace::{NativePtr, NativeType};

verus! {

/// How a read value is rendered.
#[derive(Debug, Clone, Copy, PartialEq, Eq, Structural)]
pub enum FormatType {
    Decimal,
    Hex,
    Binary,
}

/// Why a memory read expression failed to parse.
#[derive(Debug, Clone, Copy, PartialEq, Eq, Structural)]
pub enum MemExprError {
    /// No address was given.
    MissingAddress,
    /// The address is not a number within the 32-bit address space.
    InvalidAddress,
    /// The type name is not one of the supported native types.
    UnknownType,
    /// The format is not `decimal`, `hex` or `binary`.
    UnknownFormat,
    /// The count is not a number.
    InvalidCount,
    /// Unexpected extra input after the count.
    TooManyTokens,
}

impl MemExprError {
    /// The description each failure carries.
    pub open spec fn spec_message(self) -> Seq<char> {
        match self {
            MemExprError::MissingAddress => "memory command requires an address"@,
            MemExprError::InvalidAddress => "invalid memory address"@,
            MemExprError::UnknownType => "unknown type name"@,
            MemExprError::UnknownFormat => "unknown output format"@,
            MemExprError::InvalidCount => "invalid read count"@,
            MemExprError::TooManyTokens => "unexpected extra input"@,
        }
    }

    /// A human-readable description of the failure.
    pub fn message(&self) -> (r: &'static str)
        ensures
            r@ == self.spec_message(),
    {
        match self {
            MemExprError::MissingAddress => "memory command requires an address",
            MemExprError::InvalidAddress => "invalid memory address",
            MemExprError::UnknownType => "unknown type name",
            MemExprError::UnknownFormat => "unknown output format",
            MemExprError::InvalidCount => "invalid read count",
            MemExprError::TooManyTokens => "unexpected extra input",
        }
    }
}

/// A parsed memory read request.
#[derive(Debug, Clone, Copy, PartialEq, Eq, Structural)]
pub struct ReadMemoryExpr {
    /// The decomposed byte address to read from.
    pub addr: NativePtr,
    /// The declared type of the value at that address.
    pub ty: NativeType,
    /// How to render the value.
    pub format: FormatType,
    /// How many values to read.
    pub count: u64,
}

/// The native type a type token names, if any.
pub open spec fn spec_type_token(t: Seq<char>) -> Option<NativeType> {
    if t == "felt"@ {
        Some(NativeType::Felt)
    } else if t == "word"@ {
        Some(NativeType::Word)
    } else if t == "i1"@ {
        Some(NativeType::Bool)
    } else if t == "u8"@ {
        Some(NativeType::U8)
    } else if t == "i8"@ {
        Some(NativeType::I8)
    } else if t == "u16"@ {
        Some(NativeType::U16)
    } else if t == "i16"@ {
        Some(NativeType::I16)
    } else if t == "u32"@ {
        Some(NativeType::U32)
    } else if t == "i32"@ {
        Some(NativeType::I32)
    } else if t == "u64"@ {
        Some(NativeType::U64)
    } else if t == "i64"@ {
        Some(NativeType::I64)
    } else if t == "u128"@ {
        Some(NativeType::U128)
    } else if t == "i128"@ {
        Some(NativeType::I128)
    } else {
        None
    }
}

/// The format a format token names, if any.
pub open spec fn spec_format_token(t: Seq<char>) -> Option<FormatType> {
    if t == "decimal"@ {
        Some(FormatType::Decimal)
    } else if t == "hex"@ {
        Some(FormatType::Hex)
    } else if t == "binary"@ {
        Some(FormatType::Binary)
    } else {
        None
    }
}

/// The memory read request the tokens `toks` denote.
pub open spec fn spec_parse_memexpr(toks: Seq<Seq<char>>) -> Result<ReadMemoryExpr, MemExprError> {
    if toks.len() == 0 {
        Err(MemExprError::MissingAddress)
    } else if toks.len() > 4 {
        Err(MemExprError::TooManyTokens)
    } else {
        match spec_number(toks[0]) {
            None => Err(MemExprError::InvalidAddress),
            Some(a) => if a > u32::MAX {
                Err(MemExprError::InvalidAddress)
            } else {
                let ty = if toks.len() >= 2 {
                    spec_type_token(toks[1])
                } else {
                    Some(NativeType::Felt)
                };
                match ty {
                    None => Err(MemExprError::UnknownType),
                    Some(ty) => {
                        let format = if toks.len() >= 3 {
                            spec_format_token(toks[2])
                        } else {
                            Some(FormatType::Decimal)
                        };
                        match format {
                            None => Err(MemExprError::UnknownFormat),
                            Some(format) => {
                                let count = if toks.len() >= 4 {
                                    spec_number(toks[3])
                                } else {
                                    Some(1u64)
                                };
                                match count {
                                    None => Err(MemExprError::InvalidCount),
                                    Some(count) => Ok(
                                        ReadMemoryExpr {
                                            addr: NativePtr {
                                                addr: ((a as u32) / 4) as u32,
                                                offset: ((a as u32) % 4) as u8,
                                            },
                                            ty,
                                            format,
                                            count,
                                        },
                                    ),
                                }
                            },
                        }
                    },
                }
            },
        }
    }
}

/// Parse a type token.
fn parse_type_token(t: &str) -> (r: Option<NativeType>)
    ensures
        r == spec_type_token(t@),
{
    if crate::parse::str_eq(t, "felt") {
        Some(NativeType::Felt)
    } else if crate::parse::str_eq(t, "word") {
        Some(NativeType::Word)
    } else if crate::parse::str_eq(t, "i1") {
        Some(NativeType::Bool)
    } else if crate::parse::str_eq(t, "u8") {
        Some(NativeType::U8)
    } else if crate::parse::str_eq(t, "i8") {
        Some(NativeType::I8)
    } else if crate::parse::str_eq(t, "u16") {
        Some(NativeType::U16)
    } else if crate::parse::str_eq(t, "i16") {
        Some(NativeType::I16)
    } else if crate::parse::str_eq(t, "u32") {
        Some(NativeType::U32)
    } else if crate::parse::str_eq(t, "i32") {
        Some(NativeType::I32)
    } else if crate::parse::str_eq(t, "u64") {
        Some(NativeType::U64)
    } else if crate::parse::str_eq(t, "i64") {
        Some(NativeType::I64)
    } else if crate::parse::str_eq(t, "u128") {
        Some(NativeType::U128)
    } else if crate::parse::str_eq(t, "i128") {
        Some(NativeType::I128)
    } else {
        None
    }
}

/// Parse a format token.
fn parse_format_token(t: &str) -> (r: Option<FormatType>)
    ensures
        r == spec_format_token(t@),
{
    if crate::parse::str_eq(t, "decimal") {
        Some(FormatType::Decimal)
    } else if crate::parse::str_eq(t, "hex") {
        Some(FormatType::Hex)
    } else if crate::parse::str_eq(t, "binary") {
        Some(FormatType::Binary)
    } else {
        None
    }
}

impl ReadMemoryExpr {
    /// Parse the tokens of `toks` from position `start` on as a memory
    /// read request.
    pub fn parse_tokens(toks: &Vec<String>, start: usize) -> (r: Result<
        ReadMemoryExpr,
        MemExprError,
    >)
        requires
            start <= toks@.len(),
        ensures
            r == spec_parse_memexpr(
                Seq::new(toks@.len(), |i: int| toks@[i]@).skip(start as int),
            ),
    {
        let ghost ts = Seq::new(toks@.len(), |i: int| toks@[i]@).skip(start as int);
        let n: usize = toks.len() - start;
        if n == 0 {
            return Err(MemExprError::MissingAddress);
        }
        if n > 4 {
            return Err(MemExprError::TooManyTokens);
        }
        proof {
            assert(ts[0] == toks@[start as int]@);
        }
        let a: u64 = match crate::parse::parse_number(toks[start].as_str()) {
            None => {
                return Err(MemExprError::InvalidAddress);
            },
            Some(a) => a,
        };
        if a > 0xffff_ffff {
            return Err(MemExprError::InvalidAddress);
        }
        let ty: NativeType = if n >= 2 {
            proof {
                assert(ts[1] == toks@[start + 1]@);
            }
            match parse_type_token(toks[start + 1].as_str()) {
                None => {
                    return Err(MemExprError::UnknownType);
                },
                Some(ty) => ty,
            }
        } else {
            NativeType::Felt
        };
        let format: FormatType = if n >= 3 {
            proof {
                assert(ts[2] == toks@[start + 2]@);
            }
            match parse_format_token(toks[start + 2].as_str()) {
                None => {
                    return Err(MemExprError::UnknownFormat);
                },
                Some(f) => f,
            }
        } else {
            FormatType::Decimal
        };
        let count: u64 = if n >= 4 {
            proof {
                assert(ts[3] == toks@[start + 3]@);
            }
            match crate::parse::parse_number(toks[start + 3].as_str()) {
                None => {
                    return Err(MemExprError::InvalidCount);
                },
                Some(c) => c,
            }
        } else {
            1
        };
        let a32: u32 = a as u32;
        Ok(
            ReadMemoryExpr {
                addr: NativePtr { addr: a32 / 4, offset: (a32 % 4) as u8 },
                ty,
                format,
                count,
            },
        )
    }

    /// Parse a memory read request from its textual form.
    pub fn parse(s: &str) -> (r: Result<ReadMemoryExpr, MemExprError>)
        ensures
            r == spec_parse_memexpr(spec_tokens(s@)),
    {
        let toks: Vec<String> = crate::parse::tokenize(s);
        proof {
            assert(Seq::new(toks@.len(), |i: int| toks@[i]@).skip(0) =~= spec_tokens(s@));
        }
        Self::parse_tokens(&toks, 0)
    }
}

} // verus!
