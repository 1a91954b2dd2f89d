//! The virtual machine's native scalar value: an element of the prime field
//! with modulus `2^64 - 2^32 + 1`, kept in canonical (fully reduced) form.

use vstd::prelude::*;

verus! {

/// The prime modulus of the field: `2^64 - 2^32 + 1`.
pub const FIELD_MODULUS: u64 = 0xffff_ffff_0000_0001;

/// A field element, stored as its canonical representative.
#[derive(Debug, Clone, Copy, PartialEq, Eq, Structural)]
pub struct Felt {
    pub value: u64,
}

impl Felt {
    /// A field element is canonical when its representative is fully reduced.
    pub open spec fn is_canonical(self) -> bool {
        self.value < FIELD_MODULUS
    }

    /// Construct a field element from an arbitrary integer, reducing it
    /// modulo the field's prime.
    pub fn new(value: u64) -> (r: Felt)
        ensures
            r.value == value % FIELD_MODULUS,
            r.is_canonical(),
    {
        Felt { value: value % FIELD_MODULUS }
    }

    /// The additive identity of the field.
    pub fn zero() -> (r: Felt)
        ensures
            r.value == 0,
            r.is_canonical(),
    {
        Felt { value: 0 }
    }

    /// The canonical integer representative of this element.
    pub fn as_u64(&self) -> (r: u64)
        ensures
            r == self.value,
    {
        self.value
    }
}

/// Every element of a sequence of field elements is canonical.
pub open spec fn all_canonical(s: Seq<Felt>) -> bool {
    forall|i: int| 0 <= i < s.len() ==> (#[trigger] s[i]).is_canonical()
}

/// The VM's native grouped form: four field elements, addressed `e0` to `e3`.
#[derive(Debug, Clone, Copy, PartialEq, Eq, Structural)]
pub struct Word {
    pub e0: Felt,
    pub e1: Felt,
    pub e2: Felt,
    pub e3: Felt,
}

impl Word {
    /// The element at position `k`, counting from `e0`.
    pub open spec fn spec_get(self, k: int) -> Felt {
        if k == 0 {
            self.e0
        } else if k == 1 {
            self.e1
        } else if k == 2 {
            self.e2
        } else {
            self.e3
        }
    }

    /// All four elements of this word are canonical.
    pub open spec fn is_canonical(self) -> bool {
        self.e0.is_canonical() && self.e1.is_canonical() && self.e2.is_canonical()
            && self.e3.is_canonical()
    }

    pub fn new(e0: Felt, e1: Felt, e2: Felt, e3: Felt) -> (r: Word)
        ensures
            r == (Word { e0, e1, e2, e3 }),
    {
        Word { e0, e1, e2, e3 }
    }

    /// The word whose four elements are all zero.
    pub fn zero() -> (r: Word)
        ensures
            forall|k: int| 0 <= k < 4 ==> r.spec_get(k).value == 0,
            r.is_canonical(),
    {
        Word { e0: Felt::zero(), e1: Felt::zero(), e2: Felt::zero(), e3: Felt::zero() }
    }

    /// The element at position `k`, counting from `e0`.
    pub fn get(&self, k: usize) -> (r: Felt)
        requires
            k < 4,
        ensures
            r == self.spec_get(k as int),
    {
        if k == 0 {
            self.e0
        } else if k == 1 {
            self.e1
        } else if k == 2 {
            self.e2
        } else {
            self.e3
        }
    }

    /// This word with its elements in the opposite order.
    pub fn reversed(&self) -> (r: Word)
        ensures
            forall|k: int| 0 <= k < 4 ==> r.spec_get(k) == self.spec_get(3 - k),
    {
        Word { e0: self.e3, e1: self.e2, e2: self.e1, e3: self.e0 }
    }
}

/// Why a field element literal failed to parse.
#[derive(Debug, Clone, Copy, PartialEq, Eq, Structural)]
pub enum FeltParseError {
    /// The literal is not a decimal or `0x` hexadecimal number in 64-bit
    /// range.
    Invalid,
    /// The value is not less than the field modulus.
    ExceedsModulus,
}

impl FeltParseError {
    /// The description each failure carries.
    pub open spec fn spec_message(self) -> Seq<char> {
        match self {
            FeltParseError::Invalid => "invalid field element value"@,
            FeltParseError::ExceedsModulus => "invalid field element value: exceeds the field modulus"@,
        }
    }

    /// A human-readable description of the failure.
    pub fn message(&self) -> (r: &'static str)
        ensures
            r@ == self.spec_message(),
    {
        match self {
            FeltParseError::Invalid => "invalid field element value",
            FeltParseError::ExceedsModulus => "invalid field element value: exceeds the field modulus",
        }
    }
}

impl Felt {
    /// Parse a field element literal: a decimal number, or a hexadecimal
    /// one after a `0x` prefix, that is less than the field modulus.
    pub fn parse(s: &str) -> (r: Result<Felt, FeltParseError>)
        ensures
            match crate::parse::spec_number(s@) {
                None => r == Result::<Felt, FeltParseError>::Err(FeltParseError::Invalid),
                Some(v) => if v < FIELD_MODULUS {
                    r == Result::<Felt, FeltParseError>::Ok(Felt { value: v })
                } else {
                    r == Result::<Felt, FeltParseError>::Err(FeltParseError::ExceedsModulus)
                },
            },
    {
        match crate::parse::parse_number(s) {
            None => Err(FeltParseError::Invalid),
            Some(v) => if v < FIELD_MODULUS {
                Ok(Felt { value: v })
            } else {
                Err(FeltParseError::ExceedsModulus)
            },
        }
    }
}

/// Parses command-line values into field elements, after trimming the
/// surrounding whitespace.
#[derive(Debug, Clone, Copy, PartialEq, Eq, Structural)]
pub struct FeltParser;

impl FeltParser {
    /// Parse one command-line value as a field element.
    pub fn parse(&self, value: &str) -> (r: Result<Felt, FeltParseError>)
        ensures
            match crate::parse::spec_number(crate::parse::spec_trim(value@)) {
                None => r == Result::<Felt, FeltParseError>::Err(FeltParseError::Invalid),
                Some(v) => if v < FIELD_MODULUS {
                    r == Result::<Felt, FeltParseError>::Ok(Felt { value: v })
                } else {
                    r == Result::<Felt, FeltParseError>::Err(FeltParseError::ExceedsModulus)
                },
            },
    {
        Felt::parse(crate::parse::trim(value))
    }
}

} // verus!
