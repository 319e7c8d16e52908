//! Percent-encoding of storage keys for the derived public URL, stated
//! exactly over the key's UTF-8 bytes and performed by the `urlencoding`
//! crate behind a trusted wrapper.

use vstd::prelude::*;
use crate::decimal::digit_char;

verus! {

/// A byte that percent-encoding leaves as itself: ASCII alphanumerics and
/// `-`, `.`, `_`, `~`.
pub open spec fn is_url_unreserved(b: u8) -> bool {
    (48 <= b && b <= 57) || (65 <= b && b <= 90) || (97 <= b && b <= 122) || b == 45 || b == 46
        || b == 95 || b == 126
}

/// The uppercase hex digit for a value below 16.
pub open spec fn hex_digit_upper(n: int) -> char
    recommends
        0 <= n < 16,
{
    if n < 10 {
        digit_char(n)
    } else {
        ((55 + n) as u8) as char
    }
}

/// The percent-encoding of a byte string: unreserved bytes stand as
/// themselves, every other byte becomes `%` and two uppercase hex digits.
pub open spec fn url_encoded(b: Seq<u8>) -> Seq<char>
    decreases b.len(),
{
    if b.len() == 0 {
        Seq::empty()
    } else {
        (if is_url_unreserved(b[0]) {
            seq![b[0] as char]
        } else {
            seq!['%', hex_digit_upper((b[0] / 16) as int), hex_digit_upper((b[0] % 16) as int)]
        }) + url_encoded(b.skip(1))
    }
}

use crate::text::utf8_of;

/// Relies on `urlencoding::encode`: percent-encodes every byte of the
/// string's UTF-8 form except ASCII alphanumerics and `-`, `.`, `_`, `~`,
/// using uppercase hex digits.
#[verifier::external_body]
pub fn url_encode(s: &str) -> (r: String)
    ensures
        r@ == url_encoded(utf8_of(s@)),
{
    urlencoding::encode(s).into_owned()
}

} // verus!
