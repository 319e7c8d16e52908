//! Lowercase hex encoding and decoding of byte strings, stated exactly and
//! performed by the `hex` crate behind trusted wrappers.

use vstd::prelude::*;
use crate::decimal::digit_char;

verus! {

/// The lowercase hex digit for a value below 16.
pub open spec fn hex_digit_lower(n: int) -> char
    recommends
        0 <= n < 16,
{
    if n < 10 {
        digit_char(n)
    } else {
        ((87 + n) as u8) as char
    }
}

/// The lowercase hex rendering of a byte string: two digits per byte,
/// high nibble first, in order.
pub open spec fn hex_of(b: Seq<u8>) -> Seq<char>
    decreases b.len(),
{
    if b.len() == 0 {
        Seq::empty()
    } else {
        seq![hex_digit_lower((b[0] / 16) as int), hex_digit_lower((b[0] % 16) as int)] + hex_of(b.skip(1))
    }
}

pub open spec fn is_hex_digit(c: char) -> bool {
    (48 <= (c as u32) && (c as u32) <= 57) || (97 <= (c as u32) && (c as u32) <= 102) || (65 <= (
    c as u32) && (c as u32) <= 70)
}

/// The value of one hex digit, either case.
pub open spec fn hex_val(c: char) -> int
    recommends
        is_hex_digit(c),
{
    if 48 <= (c as u32) && (c as u32) <= 57 {
        (c as u32) - 48
    } else if 97 <= (c as u32) && (c as u32) <= 102 {
        (c as u32) - 87
    } else {
        (c as u32) - 55
    }
}

/// The bytes denoted by a hex digit string, two digits per byte.
pub open spec fn hex_bytes(s: Seq<char>) -> Seq<u8>
    decreases s.len(),
{
    if s.len() < 2 {
        Seq::empty()
    } else {
        seq![(hex_val(s[0]) * 16 + hex_val(s[1])) as u8] + hex_bytes(s.skip(2))
    }
}

/// Relies on `hex::encode`: each byte becomes two lowercase hex digits, in
/// input order.
#[verifier::external_body]
pub fn hex_encode(b: &Vec<u8>) -> (r: String)
    ensures
        r@ == hex_of(b@),
{
    hex::encode(b)
}

/// Relies on `hex::decode`: succeeds exactly on an even number of hex digits
/// (either case), and returns the bytes they denote.
#[verifier::external_body]
pub fn hex_decode(s: &str) -> (r: Option<Vec<u8>>)
    ensures
        r is Some <==> (s@.len() % 2 == 0 && forall|i: int|
            0 <= i < s@.len() ==> is_hex_digit(s@[i])),
        r is Some ==> r->0@ == hex_bytes(s@),
{
    hex::decode(s).ok()
}

/// Hex encoding round-trips: the rendering of any byte string is valid hex
/// of even length and decodes to the original bytes.
pub proof fn lemma_hex_round_trip(b: Seq<u8>)
    ensures
        hex_of(b).len() == 2 * b.len(),
        forall|i: int| 0 <= i < hex_of(b).len() ==> is_hex_digit(hex_of(b)[i]),
        hex_bytes(hex_of(b)) == b,
    decreases b.len(),
{
    if b.len() == 0 {
        assert(hex_bytes(hex_of(b)) =~= b);
    } else {
        let rest = b.skip(1);
        lemma_hex_round_trip(rest);
        let h = hex_of(b);
        let c0 = hex_digit_lower((b[0] / 16) as int);
        let c1 = hex_digit_lower((b[0] % 16) as int);
        lemma_hex_digit((b[0] / 16) as int);
        lemma_hex_digit((b[0] % 16) as int);
        assert(h == seq![c0, c1] + hex_of(rest));
        assert(h.len() == 2 + hex_of(rest).len());
        assert forall|i: int| 0 <= i < h.len() implies is_hex_digit(h[i]) by {
            if i >= 2 {
                assert(h[i] == hex_of(rest)[i - 2]);
            }
        }
        assert(h[0] == c0 && h[1] == c1);
        assert(h.skip(2) =~= hex_of(rest));
        assert(hex_val(c0) * 16 + hex_val(c1) == b[0]) by {
            vstd::arithmetic::div_mod::lemma_fundamental_div_mod(b[0] as int, 16);
        }
        assert(hex_bytes(h) == seq![(hex_val(h[0]) * 16 + hex_val(h[1])) as u8] + hex_bytes(
            h.skip(2),
        ));
        assert(hex_bytes(h) =~= b);
    }
}

pub proof fn lemma_hex_digit(n: int)
    requires
        0 <= n < 16,
    ensures
        is_hex_digit(hex_digit_lower(n)),
        hex_val(hex_digit_lower(n)) == n,
{
}

} // verus!
