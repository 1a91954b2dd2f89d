//! Small verified building blocks for working with command text: exact
//! string comparison, whitespace trimming, tokenization, and number
//! parsing.

use vstd::prelude::*;

verus! {

/// Whether a character separates tokens.
pub open spec fn is_space_char(c: char) -> bool {
    c == ' ' || c == '\t' || c == '\r' || c == '\n'
}

/// Whether a character is a decimal digit.
pub open spec fn is_dec_digit(c: char) -> bool {
    '0' <= c <= '9'
}

/// Whether a character is a hexadecimal digit.
pub open spec fn is_hex_digit(c: char) -> bool {
    ('0' <= c <= '9') || ('a' <= c <= 'f') || ('A' <= c <= 'F')
}

/// The numeric value of a hexadecimal digit.
pub open spec fn hex_digit_value(c: char) -> int {
    if '0' <= c <= '9' {
        c as int - '0' as int
    } else if 'a' <= c <= 'f' {
        10 + c as int - 'a' as int
    } else {
        10 + c as int - 'A' as int
    }
}

/// The value of a string of decimal digits, most significant first.
pub open spec fn dec_value(s: Seq<char>) -> int
    decreases s.len(),
{
    if s.len() == 0 {
        0
    } else {
        dec_value(s.drop_last()) * 10 + (s.last() as int - '0' as int)
    }
}

/// The value of a string of hexadecimal digits, most significant first.
pub open spec fn hex_value(s: Seq<char>) -> int
    decreases s.len(),
{
    if s.len() == 0 {
        0
    } else {
        hex_value(s.drop_last()) * 16 + hex_digit_value(s.last())
    }
}

/// Every character of `s` is a decimal digit.
pub open spec fn all_dec_digits(s: Seq<char>) -> bool {
    forall|i: int| 0 <= i < s.len() ==> is_dec_digit(#[trigger] s[i])
}

/// Every character of `s` is a hexadecimal digit.
pub open spec fn all_hex_digits(s: Seq<char>) -> bool {
    forall|i: int| 0 <= i < s.len() ==> is_hex_digit(#[trigger] s[i])
}

/// How many leading separator characters `s` has.
pub open spec fn leading_spaces(s: Seq<char>) -> int
    decreases s.len(),
{
    if s.len() == 0 {
        0
    } else if is_space_char(s[0]) {
        1 + leading_spaces(s.skip(1))
    } else {
        0
    }
}

/// How many trailing separator characters `s` has.
pub open spec fn trailing_spaces(s: Seq<char>) -> int
    decreases s.len(),
{
    if s.len() == 0 {
        0
    } else if is_space_char(s.last()) {
        1 + trailing_spaces(s.drop_last())
    } else {
        0
    }
}

/// The length of the leading run of non-separator characters.
pub open spec fn token_len(s: Seq<char>) -> int
    decreases s.len(),
{
    if s.len() == 0 {
        0
    } else if is_space_char(s[0]) {
        0
    } else {
        1 + token_len(s.skip(1))
    }
}

proof fn lemma_leading_spaces_bounds(s: Seq<char>)
    ensures
        0 <= leading_spaces(s) <= s.len(),
        forall|i: int| 0 <= i < leading_spaces(s) ==> is_space_char(#[trigger] s[i]),
        leading_spaces(s) < s.len() ==> !is_space_char(s[leading_spaces(s)]),
    decreases s.len(),
{
    if s.len() > 0 && is_space_char(s[0]) {
        lemma_leading_spaces_bounds(s.skip(1));
        assert forall|i: int| 0 <= i < leading_spaces(s) implies is_space_char(
            #[trigger] s[i],
        ) by {
            if i > 0 {
                assert(s.skip(1)[i - 1] == s[i]);
            }
        }
        if leading_spaces(s) < s.len() {
            assert(s.skip(1)[leading_spaces(s) - 1] == s[leading_spaces(s)]);
        }
    }
}

proof fn lemma_leading_spaces_ge(s: Seq<char>, k: int)
    requires
        0 <= k <= s.len(),
        forall|i: int| 0 <= i < k ==> is_space_char(#[trigger] s[i]),
    ensures
        leading_spaces(s) >= k,
    decreases k,
{
    if k > 0 {
        assert(is_space_char(s[0]));
        assert forall|i: int| 0 <= i < k - 1 implies is_space_char(#[trigger] s.skip(1)[i]) by {
            assert(s.skip(1)[i] == s[i + 1]);
        }
        lemma_leading_spaces_ge(s.skip(1), k - 1);
        assert(leading_spaces(s) == 1 + leading_spaces(s.skip(1)));
    } else {
        lemma_leading_spaces_bounds(s);
    }
}

proof fn lemma_trailing_spaces_bounds(s: Seq<char>)
    ensures
        0 <= trailing_spaces(s) <= s.len(),
        forall|i: int|
            s.len() - trailing_spaces(s) <= i < s.len() ==> is_space_char(#[trigger] s[i]),
        trailing_spaces(s) < s.len() ==> !is_space_char(s[s.len() - trailing_spaces(s) - 1]),
    decreases s.len(),
{
    if s.len() > 0 && is_space_char(s.last()) {
        lemma_trailing_spaces_bounds(s.drop_last());
        assert forall|i: int|
            s.len() - trailing_spaces(s) <= i < s.len() implies is_space_char(
            #[trigger] s[i],
        ) by {
            if i < s.len() - 1 {
                assert(s.drop_last()[i] == s[i]);
            }
        }
        if trailing_spaces(s) < s.len() {
            assert(s.drop_last()[s.len() - trailing_spaces(s) - 1] == s[s.len() - trailing_spaces(
                s,
            ) - 1]);
        }
    }
}

proof fn lemma_trailing_spaces_ge(s: Seq<char>, k: int)
    requires
        0 <= k <= s.len(),
        forall|i: int| s.len() - k <= i < s.len() ==> is_space_char(#[trigger] s[i]),
    ensures
        trailing_spaces(s) >= k,
    decreases k,
{
    if k > 0 {
        assert(is_space_char(s.last()));
        assert forall|i: int|
            s.drop_last().len() - (k - 1) <= i < s.drop_last().len() implies is_space_char(
            #[trigger] s.drop_last()[i],
        ) by {
            assert(s.drop_last()[i] == s[i]);
        }
        lemma_trailing_spaces_ge(s.drop_last(), k - 1);
        assert(trailing_spaces(s) == 1 + trailing_spaces(s.drop_last()));
    } else {
        lemma_trailing_spaces_bounds(s);
    }
}

proof fn lemma_token_len_bounds(s: Seq<char>)
    ensures
        0 <= token_len(s) <= s.len(),
        forall|i: int| 0 <= i < token_len(s) ==> !is_space_char(#[trigger] s[i]),
        token_len(s) < s.len() ==> is_space_char(s[token_len(s)]),
    decreases s.len(),
{
    if s.len() > 0 && !is_space_char(s[0]) {
        lemma_token_len_bounds(s.skip(1));
        assert forall|i: int| 0 <= i < token_len(s) implies !is_space_char(#[trigger] s[i]) by {
            if i > 0 {
                assert(s.skip(1)[i - 1] == s[i]);
            }
        }
        if token_len(s) < s.len() {
            assert(s.skip(1)[token_len(s) - 1] == s[token_len(s)]);
        }
    }
}

proof fn lemma_token_len_ge(s: Seq<char>, k: int)
    requires
        0 <= k <= s.len(),
        forall|i: int| 0 <= i < k ==> !is_space_char(#[trigger] s[i]),
    ensures
        token_len(s) >= k,
    decreases k,
{
    if k > 0 {
        assert(!is_space_char(s[0]));
        assert forall|i: int| 0 <= i < k - 1 implies !is_space_char(#[trigger] s.skip(1)[i]) by {
            assert(s.skip(1)[i] == s[i + 1]);
        }
        lemma_token_len_ge(s.skip(1), k - 1);
        assert(token_len(s) == 1 + token_len(s.skip(1)));
    } else {
        lemma_token_len_bounds(s);
    }
}

/// Whether a character separates tokens.
pub fn is_space(c: char) -> (r: bool)
    ensures
        r == is_space_char(c),
{
    c == ' ' || c == '\t' || c == '\r' || c == '\n'
}

/// Whether two strings hold the same characters.
pub fn str_eq(a: &str, b: &str) -> (r: bool)
    ensures
        r == (a@ == b@),
{
    let n: usize = a.unicode_len();
    let m: usize = b.unicode_len();
    if n != m {
        return false;
    }
    let mut i: usize = 0;
    while i < n
        invariant
            i <= n,
            n == a@.len(),
            n == b@.len(),
            forall|k: int| 0 <= k < i ==> a@[k] == b@[k],
        decreases n - i,
    {
        if a.get_char(i) != b.get_char(i) {
            return false;
        }
        i = i + 1;
    }
    proof {
        assert(a@ =~= b@);
    }
    true
}

/// `s` with its leading and trailing separator characters removed.
pub open spec fn spec_trim(s: Seq<char>) -> Seq<char> {
    if leading_spaces(s) == s.len() {
        Seq::empty()
    } else {
        s.subrange(leading_spaces(s), s.len() - trailing_spaces(s))
    }
}

/// `s` without its leading and trailing separator characters.
pub fn trim(s: &str) -> (r: &str)
    ensures
        r@ == spec_trim(s@),
{
    proof {
        lemma_leading_spaces_bounds(s@);
        lemma_trailing_spaces_bounds(s@);
    }
    let n: usize = s.unicode_len();
    let mut start: usize = 0;
    while start < n && is_space(s.get_char(start))
        invariant
            start <= n,
            n == s@.len(),
            forall|k: int| 0 <= k < start ==> is_space_char(#[trigger] s@[k]),
        decreases n - start,
    {
        start = start + 1;
    }
    proof {
        lemma_leading_spaces_bounds(s@);
        lemma_leading_spaces_ge(s@, start as int);
        if start < n {
            assert(!is_space_char(s@[start as int]));
            if start < leading_spaces(s@) {
                assert(is_space_char(s@[start as int]));
            }
        }
        assert(start == leading_spaces(s@));
    }
    if start == n {
        let r = s.substring_char(n, n);
        proof {
            assert(r@ =~= spec_trim(s@));
        }
        return r;
    }
    let mut end: usize = n;
    while end > start && is_space(s.get_char(end - 1))
        invariant
            start <= end <= n,
            n == s@.len(),
            start == leading_spaces(s@),
            start < n,
            !is_space_char(s@[start as int]),
            forall|k: int| end <= k < n ==> is_space_char(#[trigger] s@[k]),
        decreases end,
    {
        end = end - 1;
    }
    proof {
        lemma_trailing_spaces_bounds(s@);
        lemma_trailing_spaces_ge(s@, n - end);
        if end > start {
            assert(!is_space_char(s@[end - 1]));
            if n - end < trailing_spaces(s@) {
                assert(is_space_char(s@[end - 1]));
            }
        } else {
            assert(end == start);
            if n - end < trailing_spaces(s@) {
                assert(is_space_char(s@[start as int]));
            }
        }
        assert(end == s@.len() - trailing_spaces(s@));
    }
    s.substring_char(start, end)
}

/// Split `s` at its first separator: the leading token and everything
/// after the separator position.
pub fn split_first_token(s: &str) -> (r: (&str, &str))
    ensures
        r.0@ == s@.subrange(0, token_len(s@)),
        r.1@ == s@.subrange(token_len(s@), s@.len() as int),
{
    proof {
        lemma_token_len_bounds(s@);
    }
    let n: usize = s.unicode_len();
    let mut k: usize = 0;
    while k < n && !is_space(s.get_char(k))
        invariant
            k <= n,
            n == s@.len(),
            forall|j: int| 0 <= j < k ==> !is_space_char(#[trigger] s@[j]),
        decreases n - k,
    {
        k = k + 1;
    }
    proof {
        lemma_token_len_bounds(s@);
        lemma_token_len_ge(s@, k as int);
        if k < n {
            assert(is_space_char(s@[k as int]));
            if k < token_len(s@) {
                assert(!is_space_char(s@[k as int]));
            }
        }
        assert(k == token_len(s@));
    }
    (s.substring_char(0, k), s.substring_char(k, n))
}

proof fn lemma_dec_value_nonneg(s: Seq<char>)
    requires
        all_dec_digits(s),
    ensures
        dec_value(s) >= 0,
    decreases s.len(),
{
    if s.len() > 0 {
        assert(all_dec_digits(s.drop_last())) by {
            assert(forall|i: int|
                0 <= i < s.drop_last().len() ==> #[trigger] s.drop_last()[i] == s[i]);
        }
        lemma_dec_value_nonneg(s.drop_last());
    }
}

proof fn lemma_hex_value_nonneg(s: Seq<char>)
    requires
        all_hex_digits(s),
    ensures
        hex_value(s) >= 0,
    decreases s.len(),
{
    if s.len() > 0 {
        assert(all_hex_digits(s.drop_last())) by {
            assert(forall|i: int|
                0 <= i < s.drop_last().len() ==> #[trigger] s.drop_last()[i] == s[i]);
        }
        lemma_hex_value_nonneg(s.drop_last());
    }
}

/// Parse a non-empty string of decimal digits into a 64-bit value.
/// Fails exactly when the string is empty, holds a non-digit, or encodes
/// a value beyond the 64-bit range.
pub fn parse_u64_dec(s: &str) -> (r: Option<u64>)
    ensures
        r matches Some(v) ==> s@.len() > 0 && all_dec_digits(s@) && v == dec_value(s@),
        r is None ==> s@.len() == 0 || !all_dec_digits(s@) || dec_value(s@) > u64::MAX,
{
    let n: usize = s.unicode_len();
    if n == 0 {
        return None;
    }
    let mut v: u64 = 0;
    let mut i: usize = 0;
    proof {
        assert(s@.take(0) =~= Seq::<char>::empty());
    }
    while i < n
        invariant
            i <= n,
            n == s@.len(),
            all_dec_digits(s@.take(i as int)),
            v == dec_value(s@.take(i as int)),
        decreases n - i,
    {
        let c: char = s.get_char(i);
        if !(c >= '0' && c <= '9') {
            return None;
        }
        let d: u64 = (c as u32 - 48) as u64;
        proof {
            assert(s@.take(i + 1).drop_last() =~= s@.take(i as int));
            assert(s@.take(i + 1).last() == s@[i as int]);
        }
        if v > (u64::MAX - d) / 10 {
            proof {
                lemma_dec_overflow(s@, i as int);
            }
            return None;
        }
        v = v * 10 + d;
        proof {
            assert(all_dec_digits(s@.take(i + 1))) by {
                assert(forall|k: int|
                    0 <= k < i ==> #[trigger] s@.take(i + 1)[k] == s@.take(i as int)[k]);
                assert(s@.take(i + 1)[i as int] == s@[i as int]);
            }
        }
        i = i + 1;
    }
    proof {
        assert(s@.take(n as int) =~= s@);
    }
    Some(v)
}

/// Once a decimal prefix exceeds the representable range, the whole string
/// does too.
proof fn lemma_dec_overflow(s: Seq<char>, i: int)
    requires
        0 <= i < s.len(),
        all_dec_digits(s.take(i)),
        is_dec_digit(s[i]),
        dec_value(s.take(i)) * 10 + (s[i] as int - '0' as int) > u64::MAX,
    ensures
        !all_dec_digits(s) || dec_value(s) > u64::MAX,
    decreases s.len() - i,
{
    if all_dec_digits(s) {
        assert(s.take(i + 1).drop_last() =~= s.take(i));
        assert(s.take(i + 1).last() == s[i]);
        assert(dec_value(s.take(i + 1)) > u64::MAX);
        lemma_dec_grows(s, i + 1);
    }
}

/// The value of a digit string never shrinks as the string extends.
proof fn lemma_dec_grows(s: Seq<char>, j: int)
    requires
        0 <= j <= s.len(),
        all_dec_digits(s),
    ensures
        dec_value(s) >= dec_value(s.take(j)),
    decreases s.len() - j,
{
    if j < s.len() {
        assert(s.take(j + 1).drop_last() =~= s.take(j));
        assert(all_dec_digits(s.take(j))) by {
            assert(forall|k: int| 0 <= k < j ==> #[trigger] s.take(j)[k] == s[k]);
        }
        lemma_dec_value_nonneg(s.take(j));
        assert(dec_value(s.take(j + 1)) >= dec_value(s.take(j)));
        lemma_dec_grows(s, j + 1);
    } else {
        assert(s.take(j) =~= s);
    }
}

/// Parse a non-empty string of hexadecimal digits into a 64-bit value.
/// Fails exactly when the string is empty, holds a non-digit, or encodes
/// a value beyond the 64-bit range.
pub fn parse_u64_hex(s: &str) -> (r: Option<u64>)
    ensures
        r matches Some(v) ==> s@.len() > 0 && all_hex_digits(s@) && v == hex_value(s@),
        r is None ==> s@.len() == 0 || !all_hex_digits(s@) || hex_value(s@) > u64::MAX,
{
    let n: usize = s.unicode_len();
    if n == 0 {
        return None;
    }
    let mut v: u64 = 0;
    let mut i: usize = 0;
    proof {
        assert(s@.take(0) =~= Seq::<char>::empty());
    }
    while i < n
        invariant
            i <= n,
            n == s@.len(),
            all_hex_digits(s@.take(i as int)),
            v == hex_value(s@.take(i as int)),
        decreases n - i,
    {
        let c: char = s.get_char(i);
        let d: u64 = if c >= '0' && c <= '9' {
            (c as u32 - 48) as u64
        } else if c >= 'a' && c <= 'f' {
            (10 + (c as u32 - 97)) as u64
        } else if c >= 'A' && c <= 'F' {
            (10 + (c as u32 - 65)) as u64
        } else {
            return None;
        };
        proof {
            assert(s@.take(i + 1).drop_last() =~= s@.take(i as int));
            assert(s@.take(i + 1).last() == s@[i as int]);
        }
        if v > (u64::MAX - d) / 16 {
            proof {
                lemma_hex_overflow(s@, i as int);
            }
            return None;
        }
        v = v * 16 + d;
        proof {
            assert(all_hex_digits(s@.take(i + 1))) by {
                assert(forall|k: int|
                    0 <= k < i ==> #[trigger] s@.take(i + 1)[k] == s@.take(i as int)[k]);
                assert(s@.take(i + 1)[i as int] == s@[i as int]);
            }
        }
        i = i + 1;
    }
    proof {
        assert(s@.take(n as int) =~= s@);
    }
    Some(v)
}

/// Once a hexadecimal prefix exceeds the representable range, the whole
/// string does too.
proof fn lemma_hex_overflow(s: Seq<char>, i: int)
    requires
        0 <= i < s.len(),
        all_hex_digits(s.take(i)),
        is_hex_digit(s[i]),
        hex_value(s.take(i)) * 16 + hex_digit_value(s[i]) > u64::MAX,
    ensures
        !all_hex_digits(s) || hex_value(s) > u64::MAX,
    decreases s.len() - i,
{
    if all_hex_digits(s) {
        assert(s.take(i + 1).drop_last() =~= s.take(i));
        assert(s.take(i + 1).last() == s[i]);
        assert(hex_value(s.take(i + 1)) > u64::MAX);
        lemma_hex_grows(s, i + 1);
    }
}

/// The value of a hexadecimal digit string never shrinks as the string
/// extends.
proof fn lemma_hex_grows(s: Seq<char>, j: int)
    requires
        0 <= j <= s.len(),
        all_hex_digits(s),
    ensures
        hex_value(s) >= hex_value(s.take(j)),
    decreases s.len() - j,
{
    if j < s.len() {
        assert(s.take(j + 1).drop_last() =~= s.take(j));
        assert(all_hex_digits(s.take(j))) by {
            assert(forall|k: int| 0 <= k < j ==> #[trigger] s.take(j)[k] == s[k]);
        }
        lemma_hex_value_nonneg(s.take(j));
        assert(hex_value(s.take(j + 1)) >= hex_value(s.take(j)));
        lemma_hex_grows(s, j + 1);
    } else {
        assert(s.take(j) =~= s);
    }
}

/// The value a numeric literal denotes: hexadecimal after a `0x` prefix,
/// decimal otherwise; nothing if malformed or out of the 64-bit range.
pub open spec fn spec_number(s: Seq<char>) -> Option<u64> {
    if s.len() >= 2 && s[0] == '0' && s[1] == 'x' {
        let digits = s.skip(2);
        if digits.len() > 0 && all_hex_digits(digits) && hex_value(digits) <= u64::MAX {
            Some(hex_value(digits) as u64)
        } else {
            None
        }
    } else {
        if s.len() > 0 && all_dec_digits(s) && dec_value(s) <= u64::MAX {
            Some(dec_value(s) as u64)
        } else {
            None
        }
    }
}

/// Parse a numeric literal: hexadecimal after a `0x` prefix, decimal
/// otherwise.
pub fn parse_number(s: &str) -> (r: Option<u64>)
    ensures
        r == spec_number(s@),
{
    let n: usize = s.unicode_len();
    if n >= 2 && s.get_char(0) == '0' && s.get_char(1) == 'x' {
        let digits = s.substring_char(2, n);
        proof {
            assert(digits@ =~= s@.skip(2));
        }
        parse_u64_hex(digits)
    } else {
        parse_u64_dec(s)
    }
}

/// The whitespace-separated tokens of `s`, in order.
pub open spec fn spec_tokens(s: Seq<char>) -> Seq<Seq<char>>
    decreases s.len(),
    via spec_tokens_decreases
{
    if s.len() == 0 {
        Seq::empty()
    } else if is_space_char(s[0]) {
        spec_tokens(s.skip(1))
    } else {
        seq![s.take(token_len(s))] + spec_tokens(s.skip(token_len(s)))
    }
}

#[via_fn]
proof fn spec_tokens_decreases(s: Seq<char>) {
    if s.len() > 0 && !is_space_char(s[0]) {
        lemma_token_len_bounds(s);
        assert(token_len(s) == 1 + token_len(s.skip(1)));
        lemma_token_len_bounds(s.skip(1));
    }
}

/// Split `s` into its whitespace-separated tokens.
pub fn tokenize(s: &str) -> (r: Vec<String>)
    ensures
        Seq::new(r@.len(), |i: int| r@[i]@) == spec_tokens(s@),
{
    let n: usize = s.unicode_len();
    let mut r: Vec<String> = Vec::new();
    let mut i: usize = 0;
    proof {
        assert(s@.skip(0) =~= s@);
        assert(Seq::new(r@.len(), |k: int| r@[k]@) =~= Seq::<Seq<char>>::empty());
    }
    while i < n
        invariant
            i <= n,
            n == s@.len(),
            spec_tokens(s@) == Seq::new(r@.len(), |k: int| r@[k]@) + spec_tokens(
                s@.skip(i as int),
            ),
        decreases n - i,
    {
        let c: char = s.get_char(i);
        if is_space(c) {
            proof {
                assert(s@.skip(i as int)[0] == s@[i as int]);
                assert(s@.skip(i as int).skip(1) =~= s@.skip(i + 1));
            }
            i = i + 1;
        } else {
            let suffix: &str = s.substring_char(i, n);
            proof {
                assert(suffix@ =~= s@.skip(i as int));
                lemma_token_len_bounds(suffix@);
                assert(!is_space_char(suffix@[0]));
                assert(token_len(suffix@) >= 1) by {
                    assert(token_len(suffix@) == 1 + token_len(suffix@.skip(1)));
                    lemma_token_len_bounds(suffix@.skip(1));
                }
            }
            let (tok, _rest) = split_first_token(suffix);
            let tok_len: usize = tok.unicode_len();
            let owned: String = String::from_str(tok);
            let ghost pre = Seq::new(r@.len(), |k: int| r@[k]@);
            r.push(owned);
            proof {
                assert(Seq::new(r@.len(), |k: int| r@[k]@) =~= pre.push(
                    suffix@.take(token_len(suffix@)),
                ));
                assert(suffix@.skip(token_len(suffix@)) =~= s@.skip(
                    i + token_len(suffix@),
                ));
                assert(spec_tokens(s@.skip(i as int)) == seq![
                    suffix@.take(token_len(suffix@)),
                ] + spec_tokens(s@.skip(i + token_len(suffix@))));
                assert(spec_tokens(s@) =~= Seq::new(r@.len(), |k: int| r@[k]@)
                    + spec_tokens(s@.skip(i + token_len(suffix@))));
            }
            i = i + tok_len;
        }
    }
    proof {
        assert(s@.skip(n as int) =~= Seq::<char>::empty());
        assert(spec_tokens(s@) =~= Seq::new(r@.len(), |k: int| r@[k]@));
    }
    r
}

/// The index of the last `:` in `s`, or a negative value.
pub open spec fn spec_last_colon_idx(s: Seq<char>) -> int
    decreases s.len(),
{
    if s.len() == 0 {
        -1
    } else if s.last() == ':' {
        s.len() - 1
    } else {
        spec_last_colon_idx(s.drop_last())
    }
}

proof fn lemma_last_colon_idx(s: Seq<char>)
    ensures
        -1 <= spec_last_colon_idx(s) < s.len(),
        spec_last_colon_idx(s) >= 0 ==> s[spec_last_colon_idx(s)] == ':',
        forall|k: int| spec_last_colon_idx(s) < k < s.len() ==> (#[trigger] s[k]) != ':',
    decreases s.len(),
{
    if s.len() > 0 && s.last() != ':' {
        lemma_last_colon_idx(s.drop_last());
        assert forall|k: int|
            spec_last_colon_idx(s) < k < s.len() implies (#[trigger] s[k]) != ':' by {
            if k < s.len() - 1 {
                assert(s.drop_last()[k] == s[k]);
            }
        }
    }
}

/// Split `s` at its last `:`: the parts before and after it, or nothing
/// when `s` holds no `:`.
pub fn split_last_colon(s: &str) -> (r: Option<(&str, &str)>)
    ensures
        -1 <= spec_last_colon_idx(s@) < s@.len(),
        spec_last_colon_idx(s@) < 0 <==> r is None,
        r matches Some(p) ==> p.0@ == s@.take(spec_last_colon_idx(s@)) && p.1@ == s@.skip(
            spec_last_colon_idx(s@) + 1,
        ),
{
    proof {
        lemma_last_colon_idx(s@);
    }
    let n: usize = s.unicode_len();
    let mut j: usize = n;
    while j > 0
        invariant
            j <= n,
            n == s@.len(),
            forall|k: int| j <= k < n ==> (#[trigger] s@[k]) != ':',
        decreases j,
    {
        j = j - 1;
        if s.get_char(j) == ':' {
            proof {
                lemma_last_colon_idx(s@);
                assert(spec_last_colon_idx(s@) == j) by {
                    if spec_last_colon_idx(s@) > j {
                        assert(s@[spec_last_colon_idx(s@)] != ':');
                    }
                    if spec_last_colon_idx(s@) < j {
                        assert(s@[j as int] != ':');
                    }
                }
            }
            let before = s.substring_char(0, j);
            let after = s.substring_char(j + 1, n);
            proof {
                assert(before@ =~= s@.take(j as int));
                assert(after@ =~= s@.skip(j + 1));
            }
            return Some((before, after));
        }
    }
    proof {
        lemma_last_colon_idx(s@);
        if spec_last_colon_idx(s@) >= 0 {
            assert(s@[spec_last_colon_idx(s@)] == ':');
        }
    }
    None
}

/// The character with any ASCII uppercase folded to lowercase.
pub open spec fn lower_char(c: char) -> char {
    if 'A' <= c <= 'Z' {
        ((c as u8) + 32) as char
    } else {
        c
    }
}

/// The string with any ASCII uppercase folded to lowercase.
pub open spec fn spec_lower(s: Seq<char>) -> Seq<char> {
    Seq::new(s.len(), |i: int| lower_char(s[i]))
}

/// Whether `a`, ASCII-lowercased, holds the same characters as `b`.
pub fn str_eq_lower(a: &str, b: &str) -> (r: bool)
    ensures
        r == (spec_lower(a@) == b@),
{
    let n: usize = a.unicode_len();
    let m: usize = b.unicode_len();
    if n != m {
        proof {
            if spec_lower(a@) == b@ {
                assert(spec_lower(a@).len() == b@.len());
            }
        }
        return false;
    }
    let mut i: usize = 0;
    while i < n
        invariant
            i <= n,
            n == a@.len(),
            n == b@.len(),
            forall|k: int| 0 <= k < i ==> lower_char(a@[k]) == b@[k],
        decreases n - i,
    {
        let c: char = a.get_char(i);
        let folded: char = if c >= 'A' && c <= 'Z' {
            ((c as u8) + 32) as char
        } else {
            c
        };
        if folded != b.get_char(i) {
            proof {
                if spec_lower(a@) == b@ {
                    assert(spec_lower(a@)[i as int] == b@[i as int]);
                }
            }
            return false;
        }
        i = i + 1;
    }
    proof {
        assert(spec_lower(a@) =~= b@);
    }
    true
}

/// The index of the last occurrence of `c` in `s`, or a negative value.
pub open spec fn spec_last_char_idx(s: Seq<char>, c: char) -> int
    decreases s.len(),
{
    if s.len() == 0 {
        -1
    } else if s.last() == c {
        s.len() - 1
    } else {
        spec_last_char_idx(s.drop_last(), c)
    }
}

proof fn lemma_last_char_idx(s: Seq<char>, c: char)
    ensures
        -1 <= spec_last_char_idx(s, c) < s.len(),
        spec_last_char_idx(s, c) >= 0 ==> s[spec_last_char_idx(s, c)] == c,
        forall|k: int| spec_last_char_idx(s, c) < k < s.len() ==> (#[trigger] s[k]) != c,
    decreases s.len(),
{
    if s.len() > 0 && s.last() != c {
        lemma_last_char_idx(s.drop_last(), c);
        assert forall|k: int|
            spec_last_char_idx(s, c) < k < s.len() implies (#[trigger] s[k]) != c by {
            if k < s.len() - 1 {
                assert(s.drop_last()[k] == s[k]);
            }
        }
    }
}

/// Split `s` at the last occurrence of `c`: the parts before and after
/// it, or nothing when `s` does not hold `c`.
pub fn split_last_char(s: &str, c: char) -> (r: Option<(&str, &str)>)
    ensures
        -1 <= spec_last_char_idx(s@, c) < s@.len(),
        spec_last_char_idx(s@, c) < 0 <==> r is None,
        r matches Some(p) ==> p.0@ == s@.take(spec_last_char_idx(s@, c)) && p.1@ == s@.skip(
            spec_last_char_idx(s@, c) + 1,
        ),
{
    proof {
        lemma_last_char_idx(s@, c);
    }
    let n: usize = s.unicode_len();
    let mut j: usize = n;
    while j > 0
        invariant
            j <= n,
            n == s@.len(),
            forall|k: int| j <= k < n ==> (#[trigger] s@[k]) != c,
        decreases j,
    {
        j = j - 1;
        if s.get_char(j) == c {
            proof {
                lemma_last_char_idx(s@, c);
                assert(spec_last_char_idx(s@, c) == j) by {
                    if spec_last_char_idx(s@, c) > j {
                        assert(s@[spec_last_char_idx(s@, c)] != c);
                    }
                    if spec_last_char_idx(s@, c) < j {
                        assert(s@[j as int] != c);
                    }
                }
            }
            let before = s.substring_char(0, j);
            let after = s.substring_char(j + 1, n);
            proof {
                assert(before@ =~= s@.take(j as int));
                assert(after@ =~= s@.skip(j + 1));
            }
            return Some((before, after));
        }
    }
    proof {
        lemma_last_char_idx(s@, c);
        if spec_last_char_idx(s@, c) >= 0 {
            assert(s@[spec_last_char_idx(s@, c)] == c);
        }
    }
    None
}

/// The index of the first occurrence of `c` in `s`, or a negative value.
pub open spec fn spec_first_char_idx(s: Seq<char>, c: char) -> int
    decreases s.len(),
{
    if s.len() == 0 {
        -1
    } else if s[0] == c {
        0
    } else {
        let sub = spec_first_char_idx(s.skip(1), c);
        if sub < 0 {
            -1
        } else {
            1 + sub
        }
    }
}

proof fn lemma_first_char_idx(s: Seq<char>, c: char)
    ensures
        -1 <= spec_first_char_idx(s, c) < s.len(),
        spec_first_char_idx(s, c) >= 0 ==> s[spec_first_char_idx(s, c)] == c,
        forall|k: int| 0 <= k < spec_first_char_idx(s, c) ==> (#[trigger] s[k]) != c,
        spec_first_char_idx(s, c) < 0 ==> forall|k: int|
            0 <= k < s.len() ==> (#[trigger] s[k]) != c,
    decreases s.len(),
{
    if s.len() > 0 && s[0] != c {
        lemma_first_char_idx(s.skip(1), c);
        assert forall|k: int| 1 <= k < s.len() implies s[k] == s.skip(1)[k - 1] by {
            assert(s.skip(1)[k - 1] == s[k]);
        }
    }
}

/// Split `s` at the first occurrence of `c`: the parts before and after
/// it, or nothing when `s` does not hold `c`.
pub fn split_first_char(s: &str, c: char) -> (r: Option<(&str, &str)>)
    ensures
        -1 <= spec_first_char_idx(s@, c) < s@.len(),
        spec_first_char_idx(s@, c) < 0 <==> r is None,
        r matches Some(p) ==> p.0@ == s@.take(spec_first_char_idx(s@, c)) && p.1@ == s@.skip(
            spec_first_char_idx(s@, c) + 1,
        ),
{
    proof {
        lemma_first_char_idx(s@, c);
    }
    let n: usize = s.unicode_len();
    let mut j: usize = 0;
    while j < n
        invariant
            j <= n,
            n == s@.len(),
            forall|k: int| 0 <= k < j ==> (#[trigger] s@[k]) != c,
        decreases n - j,
    {
        if s.get_char(j) == c {
            proof {
                lemma_first_char_idx(s@, c);
                assert(spec_first_char_idx(s@, c) == j) by {
                    if spec_first_char_idx(s@, c) > j {
                        assert(s@[j as int] != c);
                    }
                    if 0 <= spec_first_char_idx(s@, c) && spec_first_char_idx(s@, c) < j {
                        assert(s@[spec_first_char_idx(s@, c)] != c);
                    }
                    if spec_first_char_idx(s@, c) < 0 {
                        assert(s@[j as int] != c);
                    }
                }
            }
            let before = s.substring_char(0, j);
            let after = s.substring_char(j + 1, n);
            proof {
                assert(before@ =~= s@.take(j as int));
                assert(after@ =~= s@.skip(j + 1));
            }
            return Some((before, after));
        }
        j = j + 1;
    }
    proof {
        lemma_first_char_idx(s@, c);
        if spec_first_char_idx(s@, c) >= 0 {
            assert(s@[spec_first_char_idx(s@, c)] == c);
        }
    }
    None
}

} // verus!
