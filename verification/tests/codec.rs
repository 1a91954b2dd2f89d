//! Round-trip tests for the value codec: bytes, field elements, words,
//! and the operand stack.

use miden_debugger::felt::{Felt, Word};
use miden_debugger::repr::{
    bool_from_bytes, bool_from_felts, bool_to_bytes, bool_to_felts, bytes_to_felts,
    bytes_to_words, felts_to_bytes, felts_to_words, pop_felts, push_felts, u128_from_bytes,
    u128_from_felts, u128_to_bytes, u128_to_felts, u16_from_bytes, u16_from_felts, u16_to_bytes,
    u16_to_felts, u32_from_bytes, u32_from_felts, u32_to_bytes, u32_to_felts, u64_from_bytes,
    u64_from_felts, u64_to_bytes, u64_to_felts, u8_from_bytes, u8_from_felts, u8_to_bytes,
    u8_to_felts, words_to_felts,
};

fn felts_via_words(felts: &Vec<Felt>) -> Vec<Felt> {
    let words = felts_to_words(felts);
    words_to_felts(&words)
}

#[test]
fn bool_roundtrip() {
    let encoded = bool_to_bytes(true);
    let decoded = bool_from_bytes(&encoded);
    assert!(decoded);

    let encoded = bool_to_felts(true);
    let decoded = bool_from_felts(&encoded);
    assert!(decoded);

    let through_words = felts_via_words(&bool_to_felts(true));
    let decoded = bool_from_felts(&through_words);
    assert!(decoded);

    let mut stack = Vec::new();
    push_felts(&mut stack, &bool_to_felts(true));
    let popped = bool_from_felts(&pop_felts(&mut stack, 1));
    assert!(popped);
}

#[test]
fn u8_roundtrip() {
    let encoded = u8_to_bytes(u8::MAX);
    let decoded = u8_from_bytes(&encoded);
    assert_eq!(decoded, u8::MAX);

    let encoded = u8_to_felts(u8::MAX);
    let decoded = u8_from_felts(&encoded);
    assert_eq!(decoded, u8::MAX);

    let through_words = felts_via_words(&u8_to_felts(u8::MAX));
    let decoded = u8_from_felts(&through_words);
    assert_eq!(decoded, u8::MAX);

    let mut stack = Vec::new();
    push_felts(&mut stack, &u8_to_felts(u8::MAX));
    let popped = u8_from_felts(&pop_felts(&mut stack, 1));
    assert_eq!(popped, u8::MAX);
}

#[test]
fn u16_roundtrip() {
    let encoded = u16_to_bytes(u16::MAX);
    let decoded = u16_from_bytes(&encoded);
    assert_eq!(decoded, u16::MAX);

    let encoded = u16_to_felts(u16::MAX);
    let decoded = u16_from_felts(&encoded);
    assert_eq!(decoded, u16::MAX);

    let through_words = felts_via_words(&u16_to_felts(u16::MAX));
    let decoded = u16_from_felts(&through_words);
    assert_eq!(decoded, u16::MAX);

    let mut stack = Vec::new();
    push_felts(&mut stack, &u16_to_felts(u16::MAX));
    let popped = u16_from_felts(&pop_felts(&mut stack, 1));
    assert_eq!(popped, u16::MAX);
}

#[test]
fn u32_roundtrip() {
    let encoded = u32_to_bytes(u32::MAX);
    let decoded = u32_from_bytes(&encoded);
    assert_eq!(decoded, u32::MAX);

    let encoded = u32_to_felts(u32::MAX);
    let decoded = u32_from_felts(&encoded);
    assert_eq!(decoded, u32::MAX);

    let through_words = felts_via_words(&u32_to_felts(u32::MAX));
    let decoded = u32_from_felts(&through_words);
    assert_eq!(decoded, u32::MAX);

    let mut stack = Vec::new();
    push_felts(&mut stack, &u32_to_felts(u32::MAX));
    let popped = u32_from_felts(&pop_felts(&mut stack, 1));
    assert_eq!(popped, u32::MAX);
}

#[test]
fn u64_roundtrip() {
    let encoded = u64_to_bytes(u64::MAX);
    let decoded = u64_from_bytes(&encoded);
    assert_eq!(decoded, u64::MAX);

    let encoded = u64_to_felts(u64::MAX);
    let decoded = u64_from_felts(&encoded);
    assert_eq!(decoded, u64::MAX);

    let through_words = felts_via_words(&u64_to_felts(u64::MAX));
    let decoded = u64_from_felts(&through_words);
    assert_eq!(decoded, u64::MAX);

    let mut stack = Vec::new();
    push_felts(&mut stack, &u64_to_felts(u64::MAX));
    let popped = u64_from_felts(&pop_felts(&mut stack, 2));
    assert_eq!(popped, u64::MAX);
}

#[test]
fn u128_roundtrip() {
    let encoded = u128_to_bytes(u128::MAX);
    let decoded = u128_from_bytes(&encoded);
    assert_eq!(decoded, u128::MAX);

    let encoded = u128_to_felts(u128::MAX);
    let decoded = u128_from_felts(&encoded);
    assert_eq!(decoded, u128::MAX);

    let through_words = felts_via_words(&u128_to_felts(u128::MAX));
    let decoded = u128_from_felts(&through_words);
    assert_eq!(decoded, u128::MAX);

    let mut stack = Vec::new();
    push_felts(&mut stack, &u128_to_felts(u128::MAX));
    let popped = u128_from_felts(&pop_felts(&mut stack, 4));
    assert_eq!(popped, u128::MAX);
}

#[test]
fn byte_array_roundtrip() {
    let bytes: Vec<u8> = vec![0, 1, 2, 3, 4, 5, 6, 7];

    let encoded = bytes_to_felts(&bytes);
    let decoded = felts_to_bytes(&encoded);
    assert_eq!(&decoded[..8], &bytes[..]);

    let through_words = felts_via_words(&bytes_to_felts(&bytes));
    let decoded = felts_to_bytes(&through_words);
    assert_eq!(&decoded[..8], &bytes[..]);

    let mut stack = Vec::new();
    push_felts(&mut stack, &bytes_to_felts(&bytes));
    let popped = felts_to_bytes(&pop_felts(&mut stack, 2));
    assert_eq!(&popped[..8], &bytes[..]);
}

#[test]
fn bytes_to_words_test() {
    let bytes: Vec<u8> = vec![
        1, 2, 3, 4, 5, 6, 7, 8, 9, 10, 11, 12, 13, 14, 15, 16, 17, 18, 19, 20, 21, 22, 23, 24,
        25, 26, 27, 28, 29, 30, 31, 32,
    ];
    let words = bytes_to_words(&bytes);
    assert_eq!(words.len(), 2);
    // Words are little-endian among themselves; the elements inside each
    // word are in big-endian order.
    assert_eq!(words[0].e3.as_u64() as u32, u32::from_ne_bytes([1, 2, 3, 4]));
    assert_eq!(words[0].e2.as_u64() as u32, u32::from_ne_bytes([5, 6, 7, 8]));
    assert_eq!(words[0].e1.as_u64() as u32, u32::from_ne_bytes([9, 10, 11, 12]));
    assert_eq!(words[0].e0.as_u64() as u32, u32::from_ne_bytes([13, 14, 15, 16]));

    // bytes_to_words and the element-level encoding agree.
    let through_felts = felts_to_words(&bytes_to_felts(&bytes));
    assert_eq!(words[0], through_felts[0]);
}

#[test]
fn bytes_from_words_test() {
    let bytes: Vec<u8> = vec![
        1, 2, 3, 4, 5, 6, 7, 8, 9, 10, 11, 12, 13, 14, 15, 16, 17, 18, 19, 20, 21, 22, 23, 24,
        25, 26, 27, 28, 29, 30, 31, 32,
    ];
    let words_as_elems = bytes_to_words(&bytes);

    let words: Vec<Word> = vec![words_as_elems[0], words_as_elems[1]];

    let out = felts_to_bytes(&words_to_felts(&words));

    assert_eq!(&out[..32], &bytes[..]);
}
