//! Identifier generator: short random tokens over the 62-symbol alphabet of
//! lowercase letters, uppercase letters and digits.

use vstd::prelude::*;
use crate::text::string_of_chars;

verus! {

/// The alphabet, indexed: lowercase letters, then uppercase, then digits.
pub open spec fn id_char(i: int) -> char
    recommends
        0 <= i < 62,
{
    if i < 26 {
        ((97 + i) as u8) as char
    } else if i < 52 {
        ((39 + i) as u8) as char
    } else {
        ((i - 4) as u8) as char
    }
}

/// An ASCII letter or digit.
pub open spec fn is_id_char(c: char) -> bool {
    (97 <= (c as u32) && (c as u32) <= 122) || (65 <= (c as u32) && (c as u32) <= 90) || (48 <= (
    c as u32) && (c as u32) <= 57)
}

/// Relies on `rand::thread_rng` and `rand::Rng::gen_range`: a value drawn
/// uniformly from `[0, n)`; nothing more is promised of which one.
#[verifier::external_body]
fn random_below(n: usize) -> (r: usize)
    requires
        n > 0,
    ensures
        r < n,
{
    rand::Rng::gen_range(&mut rand::thread_rng(), 0..n)
}

fn id_char_of(i: usize) -> (c: char)
    requires
        i < 62,
    ensures
        c == id_char(i as int),
        is_id_char(c),
{
    if i < 26 {
        (97 + i as u8) as char
    } else if i < 52 {
        (39 + i as u8) as char
    } else {
        (i as u8 - 4) as char
    }
}

/// A fresh 6-character identifier over the 62-symbol alphabet. Which one
/// comes back is random; only its shape is promised.
pub fn gen_id() -> (r: String)
    ensures
        r@.len() == 6,
        forall|i: int| 0 <= i < 6 ==> is_id_char(r@[i]),
{
    let mut v: Vec<char> = Vec::new();
    let mut k: usize = 0;
    while k < 6
        invariant
            k <= 6,
            v@.len() == k,
            forall|i: int| 0 <= i < k ==> is_id_char(v@[i]),
        decreases 6 - k,
    {
        let idx = random_below(62);
        v.push(id_char_of(idx));
        k = k + 1;
    }
    string_of_chars(&v)
}

} // verus!
