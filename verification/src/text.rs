//! Byte strings: comparison, UTF-8 decoding, and the number and boolean
//! syntax of attribute values.
use vstd::prelude::*;
use vstd::string::*;
use vstd::utf8::*;

verus! {

/// The UTF-8 encoding of a string literal.
pub open spec fn utf8_bytes(s: &str) -> Seq<u8> {
    s.spec_bytes()
}

/// Byte-wise equality of two byte strings.
pub fn same_bytes(a: &[u8], b: &[u8]) -> (res: bool)
    ensures
        res == (a@ == b@),
{
    if a.len() != b.len() {
        return false;
    }
    let mut i: usize = 0;
    while i < a.len()
        invariant
            a@.len() == b@.len(),
            i <= a@.len(),
            forall|j: int| 0 <= j < i ==> a@[j] == b@[j],
        decreases a@.len() - i,
    {
        if a[i] != b[i] {
            return false;
        }
        i = i + 1;
    }
    assert(a@ =~= b@);
    true
}

/// Calls `std::str::from_utf8`, which succeeds exactly on valid UTF-8 and
/// then views the same bytes as a string slice.
#[verifier::external_body]
fn str_from_utf8(bytes: &[u8]) -> (res: Option<&str>)
    ensures
        res is Some <==> valid_utf8(bytes@),
        res matches Some(s) ==> s.spec_bytes() == bytes@,
{
    match std::str::from_utf8(bytes) {
        Ok(s) => Some(s),
        Err(_) => None,
    }
}

/// Decodes UTF-8 bytes into a `String`; `None` when the bytes are not UTF-8.
pub fn decode(bytes: &[u8]) -> (res: Option<String>)
    ensures
        res is Some <==> valid_utf8(bytes@),
        res matches Some(s) ==> s@ == decode_utf8(bytes@),
{
    match str_from_utf8(bytes) {
        Some(s) => {
            proof {
                encode_utf8_decode_utf8(s@);
            }
            Some(s.to_owned())
        },
        None => None,
    }
}

pub open spec fn is_digit(b: u8) -> bool {
    48 <= b <= 57
}

pub open spec fn all_digits(s: Seq<u8>) -> bool {
    forall|i: int| 0 <= i < s.len() ==> #[trigger] is_digit(s[i])
}

/// The number that a string of decimal digits denotes.
pub open spec fn digits_value(s: Seq<u8>) -> nat
    decreases s.len(),
{
    if s.len() == 0 {
        0
    } else {
        digits_value(s.drop_last()) * 10 + (s.last() - 48) as nat
    }
}

/// The syntax of `u16::from_str`: an optional `+`, then one or more decimal
/// digits, denoting a number that fits in 16 bits.
pub open spec fn spec_parse_u16(s: Seq<u8>) -> Option<u16> {
    let digits = if s.len() > 0 && s[0] == 43 { s.drop_first() } else { s };
    if digits.len() > 0 && all_digits(digits) && digits_value(digits) <= u16::MAX {
        Some(digits_value(digits) as u16)
    } else {
        None
    }
}

/// The syntax of `bool::from_str`: exactly `true` or `false`.
pub open spec fn spec_parse_bool(s: Seq<u8>) -> Option<bool> {
    if s == utf8_bytes("true") {
        Some(true)
    } else if s == utf8_bytes("false") {
        Some(false)
    } else {
        None
    }
}

proof fn lemma_digits_value_prefix(s: Seq<u8>, i: int)
    requires
        0 <= i <= s.len(),
        all_digits(s),
    ensures
        digits_value(s.take(i)) <= digits_value(s),
    decreases s.len(),
{
    if i < s.len() {
        let t = s.drop_last();
        assert(all_digits(t)) by {
            assert forall|j: int| 0 <= j < t.len() implies #[trigger] is_digit(t[j]) by {
                assert(is_digit(s[j]));
            }
        }
        lemma_digits_value_prefix(t, i);
        assert(t.take(i) =~= s.take(i));
    } else {
        assert(s.take(i) =~= s);
    }
}

/// Parses a decimal `u16` as `u16::from_str` does.
pub fn parse_u16(s: &[u8]) -> (res: Option<u16>)
    ensures
        res == spec_parse_u16(s@),
{
    let start: usize = if s.len() > 0 && s[0] == 43 { 1 } else { 0 };
    let ghost digits = if s@.len() > 0 && s@[0] == 43 { s@.drop_first() } else { s@ };
    assert(digits =~= s@.subrange(start as int, s@.len() as int));
    if start == s.len() {
        return None;
    }
    let mut value: u32 = 0;
    let mut i: usize = start;
    while i < s.len()
        invariant
            start <= i <= s@.len(),
            digits == s@.subrange(start as int, s@.len() as int),
            digits == (if s@.len() > 0 && s@[0] == 43 { s@.drop_first() } else { s@ }),
            digits.len() > 0,
            all_digits(digits.take(i - start)),
            value == digits_value(digits.take(i - start)),
            value <= u16::MAX,
        decreases s@.len() - i,
    {
        let b = s[i];
        let ghost k: int = i - start;
        assert(digits[k] == b);
        if b < 48 || b > 57 {
            assert(!all_digits(digits)) by {
                assert(!is_digit(digits[k]));
            }
            return None;
        }
        let next = value * 10 + (b - 48) as u32;
        assert(digits.take(k + 1).drop_last() =~= digits.take(k));
        assert(all_digits(digits.take(k + 1))) by {
            assert forall|j: int| 0 <= j < k + 1 implies #[trigger] is_digit(digits.take(k + 1)[j]) by {
                if j < k {
                    assert(digits.take(k + 1)[j] == digits.take(k)[j]);
                }
            }
        }
        if next > 65535 {
            proof {
                if all_digits(digits) {
                    lemma_digits_value_prefix(digits, k + 1);
                }
            }
            return None;
        }
        value = next;
        i = i + 1;
    }
    assert(digits.take(i - start) =~= digits);
    Some(value as u16)
}

/// Parses a boolean as `bool::from_str` does.
pub fn parse_bool(s: &[u8]) -> (res: Option<bool>)
    ensures
        res == spec_parse_bool(s@),
{
    if same_bytes(s, "true".as_bytes()) {
        Some(true)
    } else if same_bytes(s, "false".as_bytes()) {
        Some(false)
    } else {
        None
    }
}

} // verus!
