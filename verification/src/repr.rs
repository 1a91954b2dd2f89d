//! Encoding of host-language values as field elements and words.
//!
//! Byte strings are packed into elements four bytes at a time, least
//! significant byte first, zero-padded at the end. Elements are grouped into
//! words of four, and each word holds its elements in reversed order, so that
//! a word pushed onto the operand stack element by element leaves the element
//! with the most significant bytes on top.

use vstd::prelude::*;

use crate::felt::{all_canonical, Felt, Word};

verus! {

/// The byte at offset `k` of `b`, reading zero past the end.
pub open spec fn byte_at(b: Seq<u8>, k: int) -> u64 {
    if 0 <= k < b.len() {
        b[k] as u64
    } else {
        0
    }
}

/// Value of the little-endian four-byte group of `b` starting at offset `j`.
pub open spec fn group_le(b: Seq<u8>, j: int) -> u64 {
    (byte_at(b, j) + 0x100 * byte_at(b, j + 1) + 0x1_0000 * byte_at(b, j + 2) + 0x100_0000
        * byte_at(b, j + 3)) as u64
}

/// Value of the big-endian four-byte group of `b` starting at offset `j`.
pub open spec fn group_be(b: Seq<u8>, j: int) -> u64 {
    (0x100_0000 * byte_at(b, j) + 0x1_0000 * byte_at(b, j + 1) + 0x100 * byte_at(b, j + 2)
        + byte_at(b, j + 3)) as u64
}

/// The low 32 bits of an element's canonical representative.
pub open spec fn lo32(v: u64) -> u64 {
    v % 0x1_0000_0000
}

/// Byte `k` (little-endian, `0 <= k < 4`) of a 32-bit value.
pub open spec fn nth_le_byte(v: u64, k: int) -> u8 {
    if k == 0 {
        (v % 0x100) as u8
    } else if k == 1 {
        ((v / 0x100) % 0x100) as u8
    } else if k == 2 {
        ((v / 0x1_0000) % 0x100) as u8
    } else {
        ((v / 0x100_0000) % 0x100) as u8
    }
}

/// The element at offset `k` of `fs`, reading zero past the end.
pub open spec fn felt_at(fs: Seq<Felt>, k: int) -> Felt {
    if 0 <= k < fs.len() {
        fs[k]
    } else {
        Felt { value: 0 }
    }
}

/// Elements obtained by packing `b` four bytes at a time, least significant
/// byte first, zero-padding the final group.
pub open spec fn spec_bytes_to_felts(b: Seq<u8>) -> Seq<Felt> {
    Seq::new(((b.len() + 3) / 4) as nat, |i: int| (Felt { value: group_le(b, 4 * i) }))
}

/// Bytes obtained by emitting the low 32 bits of each element of `fs`,
/// least significant byte first.
pub open spec fn spec_felts_to_bytes(fs: Seq<Felt>) -> Seq<u8> {
    Seq::new((4 * fs.len()) as nat, |i: int| nth_le_byte(lo32(fs[i / 4].value), i % 4))
}

/// Words obtained by grouping `fs` four elements at a time, zero-padding the
/// final group, and reversing the elements within each word.
pub open spec fn spec_felts_to_words(fs: Seq<Felt>) -> Seq<Word> {
    Seq::new(
        ((fs.len() + 3) / 4) as nat,
        |w: int|
            (Word {
                e0: felt_at(fs, 4 * w + 3),
                e1: felt_at(fs, 4 * w + 2),
                e2: felt_at(fs, 4 * w + 1),
                e3: felt_at(fs, 4 * w),
            }),
    )
}

/// Elements obtained by flattening `ws`, undoing the in-word reversal.
pub open spec fn spec_words_to_felts(ws: Seq<Word>) -> Seq<Felt> {
    Seq::new((4 * ws.len()) as nat, |i: int| ws[i / 4].spec_get(3 - (i % 4)))
}

/// Pack a byte string into field elements, four bytes per element, least
/// significant byte first, zero-padding the final element.
pub fn bytes_to_felts(b: &Vec<u8>) -> (r: Vec<Felt>)
    ensures
        r@ == spec_bytes_to_felts(b@),
        all_canonical(r@),
{
    let len: usize = b.len();
    let n_felts: usize = len / 4 + if len % 4 != 0 {
        1
    } else {
        0
    };
    assert(n_felts == (b@.len() + 3) / 4);
    let mut r: Vec<Felt> = Vec::new();
    let mut i: usize = 0;
    while i < n_felts
        invariant
            i <= n_felts,
            n_felts == (b@.len() + 3) / 4,
            len == b@.len(),
            r@.len() == i,
            forall|k: int| 0 <= k < i ==> r@[k] == (Felt { value: group_le(b@, 4 * k) }),
            all_canonical(r@),
        decreases n_felts - i,
    {
        let j: usize = i * 4;
        let b0: u64 = if j < len {
            b[j] as u64
        } else {
            0
        };
        let b1: u64 = if j + 1 < len {
            b[j + 1] as u64
        } else {
            0
        };
        let b2: u64 = if j + 2 < len {
            b[j + 2] as u64
        } else {
            0
        };
        let b3: u64 = if j + 3 < len {
            b[j + 3] as u64
        } else {
            0
        };
        let value: u64 = b0 + 0x100 * b1 + 0x1_0000 * b2 + 0x100_0000 * b3;
        assert(value == group_le(b@, 4 * i as int));
        r.push(Felt { value });
        i = i + 1;
    }
    assert(r@ =~= spec_bytes_to_felts(b@));
    r
}

/// Unpack field elements into bytes: the low 32 bits of each element, least
/// significant byte first.
pub fn felts_to_bytes(fs: &Vec<Felt>) -> (r: Vec<u8>)
    requires
        4 * fs@.len() <= usize::MAX,
    ensures
        r@ == spec_felts_to_bytes(fs@),
{
    let mut r: Vec<u8> = Vec::new();
    let mut i: usize = 0;
    while i < fs.len()
        invariant
            i <= fs@.len(),
            4 * fs@.len() <= usize::MAX,
            r@.len() == 4 * i,
            forall|k: int|
                0 <= k < 4 * i ==> r@[k] == nth_le_byte(lo32(fs@[k / 4].value), k % 4),
        decreases fs@.len() - i,
    {
        let v: u64 = fs[i].as_u64() % 0x1_0000_0000;
        r.push((v % 0x100) as u8);
        r.push(((v / 0x100) % 0x100) as u8);
        r.push(((v / 0x1_0000) % 0x100) as u8);
        r.push(((v / 0x100_0000) % 0x100) as u8);
        i = i + 1;
    }
    assert(r@ =~= spec_felts_to_bytes(fs@));
    r
}

/// Group field elements into words of four, zero-padding the final group and
/// reversing the elements within each word.
pub fn felts_to_words(fs: &Vec<Felt>) -> (r: Vec<Word>)
    ensures
        r@ == spec_felts_to_words(fs@),
{
    let len: usize = fs.len();
    let n_words: usize = len / 4 + if len % 4 != 0 {
        1
    } else {
        0
    };
    assert(n_words == (fs@.len() + 3) / 4);
    let mut r: Vec<Word> = Vec::new();
    let mut w: usize = 0;
    while w < n_words
        invariant
            w <= n_words,
            n_words == (fs@.len() + 3) / 4,
            len == fs@.len(),
            r@.len() == w,
            forall|k: int| 0 <= k < w ==> r@[k] == spec_felts_to_words(fs@)[k],
        decreases n_words - w,
    {
        let j: usize = w * 4;
        let f0: Felt = if j < len {
            fs[j]
        } else {
            Felt::zero()
        };
        let f1: Felt = if j + 1 < len {
            fs[j + 1]
        } else {
            Felt::zero()
        };
        let f2: Felt = if j + 2 < len {
            fs[j + 2]
        } else {
            Felt::zero()
        };
        let f3: Felt = if j + 3 < len {
            fs[j + 3]
        } else {
            Felt::zero()
        };
        r.push(Word { e0: f3, e1: f2, e2: f1, e3: f0 });
        w = w + 1;
    }
    assert(r@ =~= spec_felts_to_words(fs@));
    r
}

/// Flatten words back into field elements, undoing the in-word reversal.
pub fn words_to_felts(ws: &Vec<Word>) -> (r: Vec<Felt>)
    requires
        4 * ws@.len() <= usize::MAX,
    ensures
        r@ == spec_words_to_felts(ws@),
{
    let mut r: Vec<Felt> = Vec::new();
    let mut i: usize = 0;
    while i < ws.len()
        invariant
            i <= ws@.len(),
            4 * ws@.len() <= usize::MAX,
            r@.len() == 4 * i,
            forall|k: int| 0 <= k < 4 * i ==> r@[k] == ws@[k / 4].spec_get(3 - (k % 4)),
        decreases ws@.len() - i,
    {
        let word: Word = ws[i];
        r.push(word.e3);
        r.push(word.e2);
        r.push(word.e1);
        r.push(word.e0);
        i = i + 1;
    }
    assert(r@ =~= spec_words_to_felts(ws@));
    r
}

/// Convert a byte string to the words that, written to the VM's memory word
/// by word, lay the original bytes out in order.
pub fn bytes_to_words(bytes: &Vec<u8>) -> (r: Vec<Word>)
    ensures
        r@ == spec_felts_to_words(spec_bytes_to_felts(bytes@)),
{
    let felts: Vec<Felt> = bytes_to_felts(bytes);
    felts_to_words(&felts)
}

/// Push elements onto an operand stack so that the first element of `felts`
/// ends up on top (the end of the vector).
pub fn push_felts(stack: &mut Vec<Felt>, felts: &Vec<Felt>)
    requires
        old(stack)@.len() + felts@.len() <= usize::MAX,
    ensures
        final(stack)@ == old(stack)@ + felts@.reverse(),
{
    let n: usize = felts.len();
    let mut i: usize = 0;
    while i < n
        invariant
            i <= n,
            n == felts@.len(),
            old(stack)@.len() + felts@.len() <= usize::MAX,
            stack@.len() == old(stack)@.len() + i,
            stack@ == old(stack)@ + felts@.reverse().take(i as int),
        decreases n - i,
    {
        let f: Felt = felts[n - 1 - i];
        assert(felts@.reverse()[i as int] == felts@[n - 1 - i]);
        let ghost prev = stack@;
        stack.push(f);
        assert(stack@ =~= old(stack)@ + felts@.reverse().take(i + 1 as int));
        i = i + 1;
    }
    assert(stack@ =~= old(stack)@ + felts@.reverse());
}

/// Pop `n` elements from the top of an operand stack, returning them in the
/// order popped (top of stack first).
pub fn pop_felts(stack: &mut Vec<Felt>, n: usize) -> (r: Vec<Felt>)
    requires
        n <= old(stack)@.len(),
    ensures
        r@ == old(stack)@.subrange(old(stack)@.len() - n, old(stack)@.len() as int).reverse(),
        final(stack)@ == old(stack)@.take(old(stack)@.len() - n),
{
    let mut r: Vec<Felt> = Vec::new();
    let mut i: usize = 0;
    while i < n
        invariant
            i <= n,
            n <= old(stack)@.len(),
            stack@ == old(stack)@.take(old(stack)@.len() - i),
            r@.len() == i,
            forall|k: int| 0 <= k < i ==> r@[k] == old(stack)@[old(stack)@.len() - 1 - k],
        decreases n - i,
    {
        let f: Felt = match stack.pop() {
            Some(f) => f,
            None => {
                proof {
                    assert(false);
                }
                Felt::zero()
            },
        };
        assert(stack@ =~= old(stack)@.take(old(stack)@.len() - (i + 1)));
        r.push(f);
        i = i + 1;
    }
    assert(r@ =~= old(stack)@.subrange(
        old(stack)@.len() - n,
        old(stack)@.len() as int,
    ).reverse());
    r
}

/// Push words onto an advice stack so that the first word of `words` ends up
/// on top, each word's elements pushed in order. Returns the number of words
/// pushed.
pub fn push_words_to_advice_stack(stack: &mut Vec<Felt>, words: &Vec<Word>) -> (n: usize)
    requires
        old(stack)@.len() + 4 * words@.len() <= usize::MAX,
    ensures
        n == words@.len(),
        final(stack)@.len() == old(stack)@.len() + 4 * words@.len(),
        forall|i: int|
            0 <= i < 4 * words@.len() ==> #[trigger] final(stack)@[old(stack)@.len() + i]
                == words@[words@.len() - 1 - i / 4].spec_get(i % 4),
{
    let n: usize = words.len();
    let mut i: usize = 0;
    while i < n
        invariant
            i <= n,
            n == words@.len(),
            old(stack)@.len() + 4 * words@.len() <= usize::MAX,
            stack@.len() == old(stack)@.len() + 4 * i,
            stack@.take(old(stack)@.len() as int) == old(stack)@,
            forall|k: int|
                0 <= k < 4 * i ==> #[trigger] stack@[old(stack)@.len() + k]
                    == words@[words@.len() - 1 - k / 4].spec_get(k % 4),
        decreases n - i,
    {
        let word: Word = words[n - 1 - i];
        stack.push(word.e0);
        stack.push(word.e1);
        stack.push(word.e2);
        stack.push(word.e3);
        assert(stack@.take(old(stack)@.len() as int) =~= old(stack)@);
        i = i + 1;
    }
    n
}

/// Big-endian byte `i` (of 8) of a 64-bit value.
pub open spec fn nth_be_byte_u64(v: u64, i: int) -> u8 {
    if i == 0 {
        (v / 0x100_0000_0000_0000 % 0x100) as u8
    } else if i == 1 {
        (v / 0x1_0000_0000_0000 % 0x100) as u8
    } else if i == 2 {
        (v / 0x100_0000_0000 % 0x100) as u8
    } else if i == 3 {
        (v / 0x1_0000_0000 % 0x100) as u8
    } else if i == 4 {
        (v / 0x100_0000 % 0x100) as u8
    } else if i == 5 {
        (v / 0x1_0000 % 0x100) as u8
    } else if i == 6 {
        (v / 0x100 % 0x100) as u8
    } else {
        (v % 0x100) as u8
    }
}

/// The big-endian eight-byte encoding of a 64-bit value.
pub open spec fn spec_u64_be_bytes(v: u64) -> Seq<u8> {
    Seq::new(8, |i: int| nth_be_byte_u64(v, i))
}

/// The 64-bit value encoded big-endian in the first eight bytes of `b`.
pub open spec fn spec_u64_from_be(b: Seq<u8>) -> u64 {
    (group_be(b, 0) * 0x1_0000_0000 + group_be(b, 4)) as u64
}

/// The big-endian sixteen-byte encoding of a 128-bit value.
pub open spec fn spec_u128_be_bytes(v: u128) -> Seq<u8> {
    spec_u64_be_bytes((v / 0x1_0000_0000_0000_0000) as u64) + spec_u64_be_bytes(
        (v % 0x1_0000_0000_0000_0000) as u64,
    )
}

/// The 128-bit value encoded big-endian in the first sixteen bytes of `b`.
pub open spec fn spec_u128_from_be(b: Seq<u8>) -> u128 {
    (spec_u64_from_be(b) * 0x1_0000_0000_0000_0000 + spec_u64_from_be(b.skip(8))) as u128
}

/// Encode a boolean as its single byte, `0` or `1`.
pub fn bool_to_bytes(v: bool) -> (r: Vec<u8>)
    ensures
        r@ == seq![if v { 1u8 } else { 0u8 }],
{
    let mut r: Vec<u8> = Vec::new();
    r.push(if v { 1 } else { 0 });
    assert(r@ =~= seq![if v { 1u8 } else { 0u8 }]);
    r
}

/// Decode a boolean from its byte encoding. A leading byte other than `0` or
/// `1` is not a boolean.
pub fn bool_from_bytes(bytes: &Vec<u8>) -> (r: bool)
    requires
        bytes@.len() >= 1,
        bytes@[0] == 0 || bytes@[0] == 1,
    ensures
        r == (bytes@[0] == 1),
{
    bytes[0] == 1
}

/// Encode a boolean as a single field element, `0` or `1`.
pub fn bool_to_felts(v: bool) -> (r: Vec<Felt>)
    ensures
        r@ == seq![Felt { value: if v { 1u64 } else { 0u64 } }],
        all_canonical(r@),
{
    let mut r: Vec<Felt> = Vec::new();
    r.push(Felt { value: if v { 1 } else { 0 } });
    assert(r@ =~= seq![Felt { value: if v { 1u64 } else { 0u64 } }]);
    r
}

/// Decode a boolean from its field-element encoding. A leading element other
/// than `0` or `1` is not a boolean.
pub fn bool_from_felts(felts: &Vec<Felt>) -> (r: bool)
    requires
        felts@.len() >= 1,
        felts@[0].value == 0 || felts@[0].value == 1,
    ensures
        r == (felts@[0].value == 1),
{
    felts[0].as_u64() == 1
}

/// Encode an unsigned byte as itself.
pub fn u8_to_bytes(v: u8) -> (r: Vec<u8>)
    ensures
        r@ == seq![v],
{
    let mut r: Vec<u8> = Vec::new();
    r.push(v);
    assert(r@ =~= seq![v]);
    r
}

/// Decode an unsigned byte: the first byte of the encoding.
pub fn u8_from_bytes(bytes: &Vec<u8>) -> (r: u8)
    requires
        bytes@.len() >= 1,
    ensures
        r == bytes@[0],
{
    bytes[0]
}

/// Encode an unsigned byte as a single field element.
pub fn u8_to_felts(v: u8) -> (r: Vec<Felt>)
    ensures
        r@ == seq![Felt { value: v as u64 }],
        all_canonical(r@),
{
    let mut r: Vec<Felt> = Vec::new();
    r.push(Felt { value: v as u64 });
    assert(r@ =~= seq![Felt { value: v as u64 }]);
    r
}

/// Decode an unsigned byte from the low bits of the leading element.
pub fn u8_from_felts(felts: &Vec<Felt>) -> (r: u8)
    requires
        felts@.len() >= 1,
    ensures
        r == felts@[0].value as u8,
{
    #[verifier::truncate] (felts[0].as_u64() as u8)
}

/// Encode a signed byte via its unsigned bit pattern.
pub fn i8_to_bytes(v: i8) -> (r: Vec<u8>)
    ensures
        r@ == seq![v as u8],
{
    u8_to_bytes(#[verifier::truncate] (v as u8))
}

/// Decode a signed byte: the bit pattern of the first byte.
pub fn i8_from_bytes(bytes: &Vec<u8>) -> (r: i8)
    requires
        bytes@.len() >= 1,
    ensures
        r == bytes@[0] as i8,
{
    #[verifier::truncate] (bytes[0] as i8)
}

/// Encode a signed byte as a single field element holding its bit pattern.
pub fn i8_to_felts(v: i8) -> (r: Vec<Felt>)
    ensures
        r@ == seq![Felt { value: (v as u8) as u64 }],
        all_canonical(r@),
{
    u8_to_felts(#[verifier::truncate] (v as u8))
}

/// Decode a signed byte from the low bits of the leading element.
pub fn i8_from_felts(felts: &Vec<Felt>) -> (r: i8)
    requires
        felts@.len() >= 1,
    ensures
        r == (felts@[0].value as u8) as i8,
{
    #[verifier::truncate] (u8_from_felts(felts) as i8)
}

/// Encode a 16-bit unsigned value as its two little-endian bytes.
pub fn u16_to_bytes(v: u16) -> (r: Vec<u8>)
    ensures
        r@ == seq![(v % 0x100) as u8, (v / 0x100) as u8],
{
    let mut r: Vec<u8> = Vec::new();
    r.push((v % 0x100) as u8);
    r.push((v / 0x100) as u8);
    assert(r@ =~= seq![(v % 0x100) as u8, (v / 0x100) as u8]);
    r
}

/// Decode a 16-bit unsigned value from two little-endian bytes.
pub fn u16_from_bytes(bytes: &Vec<u8>) -> (r: u16)
    requires
        bytes@.len() >= 2,
    ensures
        r == bytes@[0] + 0x100 * (bytes@[1] as u16),
{
    bytes[0] as u16 + 0x100 * (bytes[1] as u16)
}

/// Encode a 16-bit unsigned value as a single field element.
pub fn u16_to_felts(v: u16) -> (r: Vec<Felt>)
    ensures
        r@ == seq![Felt { value: v as u64 }],
        all_canonical(r@),
{
    let mut r: Vec<Felt> = Vec::new();
    r.push(Felt { value: v as u64 });
    assert(r@ =~= seq![Felt { value: v as u64 }]);
    r
}

/// Decode a 16-bit unsigned value from the low bits of the leading element.
pub fn u16_from_felts(felts: &Vec<Felt>) -> (r: u16)
    requires
        felts@.len() >= 1,
    ensures
        r == felts@[0].value as u16,
{
    #[verifier::truncate] (felts[0].as_u64() as u16)
}

/// Encode a 16-bit signed value via its unsigned bit pattern.
pub fn i16_to_bytes(v: i16) -> (r: Vec<u8>)
    ensures
        r@ == seq![((v as u16) % 0x100) as u8, ((v as u16) / 0x100) as u8],
{
    u16_to_bytes(#[verifier::truncate] (v as u16))
}

/// Decode a 16-bit signed value from two little-endian bytes.
pub fn i16_from_bytes(bytes: &Vec<u8>) -> (r: i16)
    requires
        bytes@.len() >= 2,
    ensures
        r == (bytes@[0] + 0x100 * (bytes@[1] as u16)) as i16,
{
    #[verifier::truncate] (u16_from_bytes(bytes) as i16)
}

/// Encode a 16-bit signed value as a field element holding its bit pattern.
pub fn i16_to_felts(v: i16) -> (r: Vec<Felt>)
    ensures
        r@ == seq![Felt { value: (v as u16) as u64 }],
        all_canonical(r@),
{
    u16_to_felts(#[verifier::truncate] (v as u16))
}

/// Decode a 16-bit signed value from the low bits of the leading element.
pub fn i16_from_felts(felts: &Vec<Felt>) -> (r: i16)
    requires
        felts@.len() >= 1,
    ensures
        r == (felts@[0].value as u16) as i16,
{
    #[verifier::truncate] (u16_from_felts(felts) as i16)
}

/// Encode a 32-bit unsigned value as its four little-endian bytes.
pub fn u32_to_bytes(v: u32) -> (r: Vec<u8>)
    ensures
        r@ == Seq::new(4, |k: int| nth_le_byte(v as u64, k)),
{
    let x: u64 = v as u64;
    let mut r: Vec<u8> = Vec::new();
    r.push((x % 0x100) as u8);
    r.push(((x / 0x100) % 0x100) as u8);
    r.push(((x / 0x1_0000) % 0x100) as u8);
    r.push(((x / 0x100_0000) % 0x100) as u8);
    assert(r@ =~= Seq::new(4, |k: int| nth_le_byte(v as u64, k)));
    r
}

/// Decode a 32-bit unsigned value from four little-endian bytes.
pub fn u32_from_bytes(bytes: &Vec<u8>) -> (r: u32)
    requires
        bytes@.len() >= 4,
    ensures
        r == group_le(bytes@, 0),
{
    let b0: u64 = bytes[0] as u64;
    let b1: u64 = bytes[1] as u64;
    let b2: u64 = bytes[2] as u64;
    let b3: u64 = bytes[3] as u64;
    (b0 + 0x100 * b1 + 0x1_0000 * b2 + 0x100_0000 * b3) as u32
}

/// Encode a 32-bit unsigned value as a single field element.
pub fn u32_to_felts(v: u32) -> (r: Vec<Felt>)
    ensures
        r@ == seq![Felt { value: v as u64 }],
        all_canonical(r@),
{
    let mut r: Vec<Felt> = Vec::new();
    r.push(Felt { value: v as u64 });
    assert(r@ =~= seq![Felt { value: v as u64 }]);
    r
}

/// Decode a 32-bit unsigned value from the low bits of the leading element.
pub fn u32_from_felts(felts: &Vec<Felt>) -> (r: u32)
    requires
        felts@.len() >= 1,
    ensures
        r == felts@[0].value as u32,
{
    #[verifier::truncate] (felts[0].as_u64() as u32)
}

/// Encode a 32-bit signed value via its unsigned bit pattern.
pub fn i32_to_bytes(v: i32) -> (r: Vec<u8>)
    ensures
        r@ == Seq::new(4, |k: int| nth_le_byte((v as u32) as u64, k)),
{
    u32_to_bytes(#[verifier::truncate] (v as u32))
}

/// Decode a 32-bit signed value from four little-endian bytes.
pub fn i32_from_bytes(bytes: &Vec<u8>) -> (r: i32)
    requires
        bytes@.len() >= 4,
    ensures
        r == group_le(bytes@, 0) as i32,
{
    #[verifier::truncate] (u32_from_bytes(bytes) as i32)
}

/// Encode a 32-bit signed value as a field element holding its bit pattern.
pub fn i32_to_felts(v: i32) -> (r: Vec<Felt>)
    ensures
        r@ == seq![Felt { value: (v as u32) as u64 }],
        all_canonical(r@),
{
    u32_to_felts(#[verifier::truncate] (v as u32))
}

/// Decode a 32-bit signed value from the low bits of the leading element.
pub fn i32_from_felts(felts: &Vec<Felt>) -> (r: i32)
    requires
        felts@.len() >= 1,
    ensures
        r == (felts@[0].value as u32) as i32,
{
    #[verifier::truncate] (u32_from_felts(felts) as i32)
}

/// Encode a 64-bit unsigned value as its eight big-endian bytes.
pub fn u64_to_bytes(v: u64) -> (r: Vec<u8>)
    ensures
        r@ == spec_u64_be_bytes(v),
{
    let mut r: Vec<u8> = Vec::new();
    r.push((v / 0x100_0000_0000_0000 % 0x100) as u8);
    r.push((v / 0x1_0000_0000_0000 % 0x100) as u8);
    r.push((v / 0x100_0000_0000 % 0x100) as u8);
    r.push((v / 0x1_0000_0000 % 0x100) as u8);
    r.push((v / 0x100_0000 % 0x100) as u8);
    r.push((v / 0x1_0000 % 0x100) as u8);
    r.push((v / 0x100 % 0x100) as u8);
    r.push((v % 0x100) as u8);
    assert(r@ =~= spec_u64_be_bytes(v));
    r
}

/// Decode a 64-bit unsigned value from eight big-endian bytes.
pub fn u64_from_bytes(bytes: &Vec<u8>) -> (r: u64)
    requires
        bytes@.len() >= 8,
    ensures
        r == spec_u64_from_be(bytes@),
{
    let hi: u64 = 0x100_0000 * (bytes[0] as u64) + 0x1_0000 * (bytes[1] as u64) + 0x100 * (
    bytes[2] as u64) + bytes[3] as u64;
    let lo: u64 = 0x100_0000 * (bytes[4] as u64) + 0x1_0000 * (bytes[5] as u64) + 0x100 * (
    bytes[6] as u64) + bytes[7] as u64;
    assert(hi == group_be(bytes@, 0));
    assert(lo == group_be(bytes@, 4));
    hi * 0x1_0000_0000 + lo
}

/// Encode a 64-bit unsigned value as two field elements, the element holding
/// the most significant half first.
pub fn u64_to_felts(v: u64) -> (r: Vec<Felt>)
    ensures
        r@ == seq![
            Felt { value: (v / 0x1_0000_0000) as u64 },
            Felt { value: (v % 0x1_0000_0000) as u64 },
        ],
        all_canonical(r@),
{
    let mut r: Vec<Felt> = Vec::new();
    r.push(Felt { value: v / 0x1_0000_0000 });
    r.push(Felt { value: v % 0x1_0000_0000 });
    assert(r@ =~= seq![
        Felt { value: (v / 0x1_0000_0000) as u64 },
        Felt { value: (v % 0x1_0000_0000) as u64 },
    ]);
    r
}

/// Decode a 64-bit unsigned value from two field elements: the low 32 bits
/// of the first element are the most significant half.
pub fn u64_from_felts(felts: &Vec<Felt>) -> (r: u64)
    requires
        felts@.len() >= 2,
    ensures
        r == lo32(felts@[0].value) * 0x1_0000_0000 + lo32(felts@[1].value),
{
    let hi: u64 = felts[0].as_u64() % 0x1_0000_0000;
    let lo: u64 = felts[1].as_u64() % 0x1_0000_0000;
    hi * 0x1_0000_0000 + lo
}

/// Encode a 64-bit signed value via its unsigned bit pattern, big-endian.
pub fn i64_to_bytes(v: i64) -> (r: Vec<u8>)
    ensures
        r@ == spec_u64_be_bytes(v as u64),
{
    u64_to_bytes(#[verifier::truncate] (v as u64))
}

/// Decode a 64-bit signed value from eight big-endian bytes.
pub fn i64_from_bytes(bytes: &Vec<u8>) -> (r: i64)
    requires
        bytes@.len() >= 8,
    ensures
        r == spec_u64_from_be(bytes@) as i64,
{
    #[verifier::truncate] (u64_from_bytes(bytes) as i64)
}

/// Encode a 64-bit signed value as two field elements via its bit pattern.
pub fn i64_to_felts(v: i64) -> (r: Vec<Felt>)
    ensures
        r@ == seq![
            Felt { value: ((v as u64) / 0x1_0000_0000) as u64 },
            Felt { value: ((v as u64) % 0x1_0000_0000) as u64 },
        ],
        all_canonical(r@),
{
    u64_to_felts(#[verifier::truncate] (v as u64))
}

/// Decode a 64-bit signed value from two field elements via its bit pattern.
pub fn i64_from_felts(felts: &Vec<Felt>) -> (r: i64)
    requires
        felts@.len() >= 2,
    ensures
        r == (lo32(felts@[0].value) * 0x1_0000_0000 + lo32(felts@[1].value)) as i64,
{
    #[verifier::truncate] (u64_from_felts(felts) as i64)
}

/// Encode a 128-bit unsigned value as its sixteen big-endian bytes.
pub fn u128_to_bytes(v: u128) -> (r: Vec<u8>)
    ensures
        r@ == spec_u128_be_bytes(v),
{
    let hi: u64 = (v / 0x1_0000_0000_0000_0000) as u64;
    let lo: u64 = (v % 0x1_0000_0000_0000_0000) as u64;
    let mut r: Vec<u8> = u64_to_bytes(hi);
    let mut rest: Vec<u8> = u64_to_bytes(lo);
    r.append(&mut rest);
    assert(r@ =~= spec_u128_be_bytes(v));
    r
}

/// Decode a 128-bit unsigned value from sixteen big-endian bytes.
pub fn u128_from_bytes(bytes: &Vec<u8>) -> (r: u128)
    requires
        bytes@.len() >= 16,
    ensures
        r == spec_u128_from_be(bytes@),
{
    let hi: u64 = u64_from_bytes(bytes);
    let mut tail: Vec<u8> = Vec::new();
    let mut i: usize = 8;
    while i < 16
        invariant
            8 <= i <= 16,
            bytes@.len() >= 16,
            tail@ =~= bytes@.subrange(8, i as int),
        decreases 16 - i,
    {
        tail.push(bytes[i]);
        i = i + 1;
    }
    let lo: u64 = u64_from_bytes(&tail);
    assert(tail@ =~= bytes@.skip(8).take(8));
    assert(spec_u64_from_be(bytes@.skip(8).take(8)) == spec_u64_from_be(bytes@.skip(8))) by {
        assert(byte_at(bytes@.skip(8).take(8), 0) == byte_at(bytes@.skip(8), 0));
        assert(byte_at(bytes@.skip(8).take(8), 1) == byte_at(bytes@.skip(8), 1));
        assert(byte_at(bytes@.skip(8).take(8), 2) == byte_at(bytes@.skip(8), 2));
        assert(byte_at(bytes@.skip(8).take(8), 3) == byte_at(bytes@.skip(8), 3));
        assert(byte_at(bytes@.skip(8).take(8), 4) == byte_at(bytes@.skip(8), 4));
        assert(byte_at(bytes@.skip(8).take(8), 5) == byte_at(bytes@.skip(8), 5));
        assert(byte_at(bytes@.skip(8).take(8), 6) == byte_at(bytes@.skip(8), 6));
        assert(byte_at(bytes@.skip(8).take(8), 7) == byte_at(bytes@.skip(8), 7));
    }
    (hi as u128) * 0x1_0000_0000_0000_0000 + lo as u128
}

/// Encode a 128-bit unsigned value as four field elements: the low 64-bit
/// half's two elements first, the most significant 32 bits of each half
/// leading within it.
pub fn u128_to_felts(v: u128) -> (r: Vec<Felt>)
    ensures
        r@ == seq![
            Felt { value: ((v / 0x1_0000_0000) % 0x1_0000_0000) as u64 },
            Felt { value: (v % 0x1_0000_0000) as u64 },
            Felt { value: (v / 0x1_0000_0000_0000_0000_0000_0000) as u64 },
            Felt { value: ((v / 0x1_0000_0000_0000_0000) % 0x1_0000_0000) as u64 },
        ],
        all_canonical(r@),
{
    let lo_h: u64 = ((v / 0x1_0000_0000) % 0x1_0000_0000) as u64;
    let lo_l: u64 = (v % 0x1_0000_0000) as u64;
    let hi_h: u64 = (v / 0x1_0000_0000_0000_0000_0000_0000) as u64;
    let hi_l: u64 = ((v / 0x1_0000_0000_0000_0000) % 0x1_0000_0000) as u64;
    let mut r: Vec<Felt> = Vec::new();
    r.push(Felt { value: lo_h });
    r.push(Felt { value: lo_l });
    r.push(Felt { value: hi_h });
    r.push(Felt { value: hi_l });
    assert(r@ =~= seq![
        Felt { value: ((v / 0x1_0000_0000) % 0x1_0000_0000) as u64 },
        Felt { value: (v % 0x1_0000_0000) as u64 },
        Felt { value: (v / 0x1_0000_0000_0000_0000_0000_0000) as u64 },
        Felt { value: ((v / 0x1_0000_0000_0000_0000) % 0x1_0000_0000) as u64 },
    ]);
    r
}

/// Decode a 128-bit unsigned value from four field elements, reading the
/// first two as the most significant half (the inverse of the stack layout,
/// not of the element layout that `u128_to_felts` emits).
pub fn u128_from_felts(felts: &Vec<Felt>) -> (r: u128)
    requires
        felts@.len() >= 4,
    ensures
        r == lo32(felts@[0].value) as u128 * 0x1_0000_0000_0000_0000_0000_0000 + lo32(
            felts@[1].value,
        ) as u128 * 0x1_0000_0000_0000_0000 + lo32(felts@[2].value) as u128 * 0x1_0000_0000 + lo32(
            felts@[3].value,
        ) as u128,
{
    let a: u128 = (felts[0].as_u64() % 0x1_0000_0000) as u128;
    let b: u128 = (felts[1].as_u64() % 0x1_0000_0000) as u128;
    let c: u128 = (felts[2].as_u64() % 0x1_0000_0000) as u128;
    let d: u128 = (felts[3].as_u64() % 0x1_0000_0000) as u128;
    a * 0x1_0000_0000_0000_0000_0000_0000 + b * 0x1_0000_0000_0000_0000 + c * 0x1_0000_0000 + d
}

/// Encode a 128-bit signed value via its unsigned bit pattern, big-endian.
pub fn i128_to_bytes(v: i128) -> (r: Vec<u8>)
    ensures
        r@ == spec_u128_be_bytes(v as u128),
{
    u128_to_bytes(#[verifier::truncate] (v as u128))
}

/// Decode a 128-bit signed value from sixteen big-endian bytes.
pub fn i128_from_bytes(bytes: &Vec<u8>) -> (r: i128)
    requires
        bytes@.len() >= 16,
    ensures
        r == spec_u128_from_be(bytes@) as i128,
{
    #[verifier::truncate] (u128_from_bytes(bytes) as i128)
}

/// Encode a 128-bit signed value as four field elements via its bit pattern.
pub fn i128_to_felts(v: i128) -> (r: Vec<Felt>)
    ensures
        r@ == seq![
            Felt { value: (((v as u128) / 0x1_0000_0000) % 0x1_0000_0000) as u64 },
            Felt { value: ((v as u128) % 0x1_0000_0000) as u64 },
            Felt { value: ((v as u128) / 0x1_0000_0000_0000_0000_0000_0000) as u64 },
            Felt { value: (((v as u128) / 0x1_0000_0000_0000_0000) % 0x1_0000_0000) as u64 },
        ],
        all_canonical(r@),
{
    u128_to_felts(#[verifier::truncate] (v as u128))
}

/// Decode a 128-bit signed value from four field elements via its bit
/// pattern.
pub fn i128_from_felts(felts: &Vec<Felt>) -> (r: i128)
    requires
        felts@.len() >= 4,
    ensures
        r == (lo32(felts@[0].value) as u128 * 0x1_0000_0000_0000_0000_0000_0000 + lo32(
            felts@[1].value,
        ) as u128 * 0x1_0000_0000_0000_0000 + lo32(felts@[2].value) as u128 * 0x1_0000_0000 + lo32(
            felts@[3].value,
        ) as u128) as i128,
{
    #[verifier::truncate] (u128_from_felts(felts) as i128)
}

/// Encode a field element as itself, the identity encoding.
pub fn felt_to_felts(v: Felt) -> (r: Vec<Felt>)
    ensures
        r@ == seq![v],
{
    let mut r: Vec<Felt> = Vec::new();
    r.push(v);
    assert(r@ =~= seq![v]);
    r
}

/// Decode a field element: the leading element of the encoding.
pub fn felt_from_felts(felts: &Vec<Felt>) -> (r: Felt)
    requires
        felts@.len() >= 1,
    ensures
        r == felts@[0],
{
    felts[0]
}

} // verus!
