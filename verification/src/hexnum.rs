//! Hex text for 128-bit integers.
//!
//! Entropy seeds and claimed secrets arrive as hex strings; the contract
//! parses them with an exact, verified parser. Ciphertexts leave the
//! contract hex-encoded through the `hex` crate, whose output is pinned by
//! [`hex_of`].

use vstd::prelude::*;

verus! {

/// The numeric value of one hex digit, or `-1` for any other character.
/// Both letter cases are accepted.
pub open spec fn hex_digit_value(c: char) -> int {
    let n = c as u32;
    if ('0' as u32) <= n <= ('9' as u32) {
        n - ('0' as u32)
    } else if ('a' as u32) <= n <= ('f' as u32) {
        n - ('a' as u32) + 10
    } else if ('A' as u32) <= n <= ('F' as u32) {
        n - ('A' as u32) + 10
    } else {
        -1
    }
}

pub open spec fn is_hex_digit(c: char) -> bool {
    hex_digit_value(c) >= 0
}

pub open spec fn all_hex_digits(s: Seq<char>) -> bool {
    forall|i: int| 0 <= i < s.len() ==> is_hex_digit(s[i])
}

/// The number denoted by a big-endian string of hex digits.
pub open spec fn hex_value(s: Seq<char>) -> int
    decreases s.len(),
{
    if s.len() == 0 {
        0
    } else {
        hex_value(s.drop_last()) * 16 + hex_digit_value(s.last())
    }
}

/// A hex string the contract accepts as a 128-bit integer: non-empty, hex
/// digits only, and a value that fits in a `u128`.
pub open spec fn valid_hex_u128(s: Seq<char>) -> bool {
    &&& s.len() > 0
    &&& all_hex_digits(s)
    &&& hex_value(s) <= u128::MAX
}

pub proof fn lemma_hex_value_nonneg(s: Seq<char>)
    requires
        all_hex_digits(s),
    ensures
        hex_value(s) >= 0,
    decreases s.len(),
{
    if s.len() > 0 {
        assert(all_hex_digits(s.drop_last())) by {
            assert(forall|i: int|
                0 <= i < s.drop_last().len() ==> s.drop_last()[i] == s[i]);
        }
        lemma_hex_value_nonneg(s.drop_last());
        assert(is_hex_digit(s[s.len() - 1]));
    }
}

/// Every further digit can only increase the denoted value.
pub proof fn lemma_hex_value_prefix_le(s: Seq<char>, i: int)
    requires
        all_hex_digits(s),
        0 <= i <= s.len(),
    ensures
        hex_value(s.take(i)) <= hex_value(s),
    decreases s.len() - i,
{
    if i == s.len() {
        assert(s.take(i) =~= s);
    } else {
        lemma_hex_value_prefix_le(s, i + 1);
        let t = s.take(i + 1);
        assert(t.drop_last() =~= s.take(i));
        assert(all_hex_digits(s.take(i))) by {
            assert(forall|j: int| 0 <= j < i ==> s.take(i)[j] == s[j]);
        }
        lemma_hex_value_nonneg(s.take(i));
        assert(is_hex_digit(s[i]));
        assert(hex_value(t) == hex_value(s.take(i)) * 16 + hex_digit_value(s[i]));
        assert(hex_value(s.take(i)) * 16 >= hex_value(s.take(i)));
    }
}

/// The value of one character, or `None` when it is no hex digit.
fn hex_digit_of(c: char) -> (r: Option<u8>)
    ensures
        match r {
            Some(d) => is_hex_digit(c) && d as int == hex_digit_value(c) && d < 16,
            None => !is_hex_digit(c),
        },
{
    let n = c as u32;
    if 48 <= n && n <= 57 {
        Some((n - 48) as u8)
    } else if 97 <= n && n <= 102 {
        Some((n - 97 + 10) as u8)
    } else if 65 <= n && n <= 70 {
        Some((n - 65 + 10) as u8)
    } else {
        None
    }
}

/// Parse a hex string as a 128-bit unsigned integer. Returns `None` exactly
/// on malformed input: an empty string, a non-digit character, or a value
/// that does not fit.
pub fn parse_hex_u128(s: &str) -> (r: Option<u128>)
    ensures
        match r {
            Some(v) => valid_hex_u128(s@) && v as int == hex_value(s@),
            None => !valid_hex_u128(s@),
        },
{
    let n = s.unicode_len();
    if n == 0 {
        return None;
    }
    let mut acc: u128 = 0;
    for i in 0..n
        invariant
            n == s@.len(),
            all_hex_digits(s@.take(i as int)),
            acc as int == hex_value(s@.take(i as int)),
    {
        let c = s.get_char(i);
        let d = match hex_digit_of(c) {
            Some(d) => d,
            None => {
                assert(!all_hex_digits(s@));
                return None;
            },
        };
        proof {
            assert(s@.take(i + 1).drop_last() =~= s@.take(i as int));
            assert(all_hex_digits(s@.take(i + 1))) by {
                assert(forall|j: int|
                    0 <= j < i + 1 ==> s@.take(i + 1)[j] == #[trigger] s@.take(i as int + 1)[j]
                        && (j < i ==> s@.take(i + 1)[j] == s@.take(i as int)[j]));
                assert(s@.take(i + 1)[i as int] == c);
            }
        }
        if acc > (u128::MAX - d as u128) / 16 {
            proof {
                assert(acc * 16 + d > u128::MAX) by (nonlinear_arith)
                    requires
                        acc > (u128::MAX - d as u128) / 16,
                        d < 16,
                ;
                if all_hex_digits(s@) {
                    lemma_hex_value_prefix_le(s@, i + 1);
                }
            }
            return None;
        }
        proof {
            assert(acc * 16 + d <= u128::MAX) by (nonlinear_arith)
                requires
                    acc <= (u128::MAX - d as u128) / 16,
                    d < 16,
            ;
            lemma_hex_value_nonneg(s@.take(i as int));
        }
        acc = acc * 16 + (d as u128);
    }
    proof {
        assert(s@.take(n as int) =~= s@);
    }
    Some(acc)
}

/// The lowercase hex digit for a value below 16.
pub open spec fn hex_char_of_nibble(n: u8) -> char {
    if n < 10 {
        (('0' as u8) + n) as char
    } else {
        (('a' as u8) + (n - 10)) as char
    }
}

/// The lowercase hex encoding of a byte string: two digits per byte, high
/// nibble first.
pub open spec fn hex_of(bytes: Seq<u8>) -> Seq<char> {
    Seq::new(
        bytes.len() * 2,
        |i: int|
            if i % 2 == 0 {
                hex_char_of_nibble(bytes[i / 2] >> 4)
            } else {
                hex_char_of_nibble(bytes[i / 2] & 0xf)
            },
    )
}

/// Relies on `hex::encode`: every input byte becomes two lowercase hex
/// digits, high nibble first, as pinned by [`hex_of`].
#[verifier::external_body]
pub(crate) fn hex_encode(bytes: &Vec<u8>) -> (r: String)
    ensures
        r@ == hex_of(bytes@),
{
    hex::encode(bytes.as_slice())
}

} // verus!
