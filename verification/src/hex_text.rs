//! Hexadecimal text.

use vstd::prelude::*;

verus! {

/// Lower-case hexadecimal digit of a number below sixteen.
pub open spec fn hex_digit(n: int) -> char {
    if n < 10 {
        (n + '0' as int) as char
    } else {
        (n - 10 + 'a' as int) as char
    }
}

/// The number of a hexadecimal digit, in either case.
pub open spec fn hex_value(c: char) -> Option<int> {
    if '0' <= c <= '9' {
        Some(c as int - '0' as int)
    } else if 'a' <= c <= 'f' {
        Some(c as int - 'a' as int + 10)
    } else if 'A' <= c <= 'F' {
        Some(c as int - 'A' as int + 10)
    } else {
        None
    }
}

/// Bytes as hexadecimal text, two digits for each, the high one first.
pub open spec fn hex_of(s: Seq<u8>) -> Seq<char> {
    Seq::new(
        2 * s.len(),
        |i: int|
            if i % 2 == 0 {
                hex_digit(s[i / 2] as int / 16)
            } else {
                hex_digit(s[i / 2] as int % 16)
            },
    )
}

/// Whether a text is hexadecimal with two digits for each byte.
pub open spec fn is_hex(s: Seq<char>) -> bool {
    s.len() % 2 == 0 && forall|i: int| 0 <= i < s.len() ==> hex_value(#[trigger] s[i]) is Some
}

/// The bytes of a hexadecimal text.
pub open spec fn bytes_of_hex(s: Seq<char>) -> Seq<u8> {
    Seq::new(s.len() / 2, |i: int| (16 * hex_value(s[2 * i])->0 + hex_value(s[2 * i + 1])->0) as u8)
}

/// `hex::encode`: bytes as lower-case hexadecimal text.
#[verifier::external_body]
pub(crate) fn encode(bytes: &[u8]) -> (r: String)
    ensures
        r@ == hex_of(bytes@),
{
    hex::encode(bytes)
}

/// `hex::decode`: the bytes of a hexadecimal text in either case; `None` for
/// a text with an odd number of digits or with anything else in it.
#[verifier::external_body]
pub(crate) fn decode(text: &str) -> (r: Option<Vec<u8>>)
    ensures
        match r {
            Some(b) => is_hex(text@) && b@ == bytes_of_hex(text@),
            None => !is_hex(text@),
        },
{
    hex::decode(text).ok()
}

/// Decoding what was encoded gives the bytes again.
pub proof fn law_hex_round_trip(s: Seq<u8>)
    ensures
        is_hex(hex_of(s)),
        bytes_of_hex(hex_of(s)) == s,
{
    assert forall|i: int| 0 <= i < hex_of(s).len() implies hex_value(#[trigger] hex_of(s)[i]) is Some by {
        let b = s[i / 2] as int;
        assert(0 <= b / 16 < 16 && 0 <= b % 16 < 16);
    }
    assert forall|i: int| 0 <= i < s.len() implies bytes_of_hex(hex_of(s))[i] == s[i] by {
        let b = s[i] as int;
        assert((2 * i) / 2 == i && (2 * i + 1) / 2 == i);
        assert(hex_value(hex_of(s)[2 * i]) == Some(b / 16));
        assert(hex_value(hex_of(s)[2 * i + 1]) == Some(b % 16));
    }
    assert(bytes_of_hex(hex_of(s)) =~= s);
}

} // verus!
