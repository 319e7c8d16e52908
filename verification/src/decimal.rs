//! Decimal digit strings: rendering of unsigned values, strict parsing back,
//! and the round-trip facts the record codec builds on.

use vstd::prelude::*;

verus! {

/// The character for one decimal digit.
pub open spec fn digit_char(d: int) -> char
    recommends
        0 <= d < 10,
{
    ((48 + d) as u8) as char
}

pub open spec fn is_digit(c: char) -> bool {
    48 <= (c as u32) && (c as u32) <= 57
}

/// The numeric value of one digit character.
pub open spec fn digit_val(c: char) -> int
    recommends
        is_digit(c),
{
    (c as u32) - 48
}

/// The canonical decimal rendering of `n`: no sign, no leading zeros,
/// and `0` itself is the single digit `0`.
pub open spec fn dec_digits(n: nat) -> Seq<char>
    decreases n,
{
    if n < 10 {
        seq![digit_char(n as int)]
    } else {
        dec_digits(n / 10).push(digit_char((n % 10) as int))
    }
}

/// The value of a digit string, most significant digit first.
pub open spec fn dec_val(s: Seq<char>) -> int
    decreases s.len(),
{
    if s.len() == 0 {
        0
    } else {
        dec_val(s.drop_last()) * 10 + digit_val(s.last())
    }
}

pub open spec fn all_digits(s: Seq<char>) -> bool {
    forall|i: int| 0 <= i < s.len() ==> is_digit(s[i])
}

/// A digit string that `dec_digits` could have produced: non-empty, digits
/// only, and no superfluous leading zero.
pub open spec fn is_canon_digits(s: Seq<char>) -> bool {
    &&& s.len() > 0
    &&& all_digits(s)
    &&& (s[0] != '0' || s.len() == 1)
}

pub proof fn lemma_digit_char_val(d: int)
    requires
        0 <= d < 10,
    ensures
        is_digit(digit_char(d)),
        digit_val(digit_char(d)) == d,
        d != 0 ==> digit_char(d) != '0',
        d == 0 ==> digit_char(d) == '0',
{
}

/// `dec_digits` renders to a canonical digit string whose value is `n`.
pub proof fn lemma_dec_digits_canon(n: nat)
    ensures
        is_canon_digits(dec_digits(n)),
        dec_val(dec_digits(n)) == n,
        n < 10 ==> dec_digits(n).len() == 1,
        n >= 10 ==> dec_digits(n).len() >= 2,
    decreases n,
{
    if n < 10 {
        lemma_digit_char_val(n as int);
        let s = dec_digits(n);
        assert(s.drop_last().len() == 0);
        assert(dec_val(s.drop_last()) == 0);
        assert(dec_val(s) == digit_val(s.last()));
    } else {
        lemma_dec_digits_canon(n / 10);
        lemma_digit_char_val((n % 10) as int);
        let pre = dec_digits(n / 10);
        let s = pre.push(digit_char((n % 10) as int));
        assert(s.drop_last() =~= pre);
        assert(s[0] == pre[0]);
        assert(dec_val(s) == dec_val(pre) * 10 + (n % 10));
        vstd::arithmetic::div_mod::lemma_fundamental_div_mod(n as int, 10);
    }
}

/// A canonical digit string is the rendering of its own value: renderings
/// are unique.
pub proof fn lemma_canon_digits_inverse(s: Seq<char>)
    requires
        is_canon_digits(s),
    ensures
        dec_val(s) >= 0,
        dec_digits(dec_val(s) as nat) == s,
    decreases s.len(),
{
    if s.len() == 1 {
        assert(dec_val(s) == digit_val(s[0])) by {
            assert(s.drop_last().len() == 0);
            assert(dec_val(s.drop_last()) == 0);
            assert(s.last() == s[0]);
        }
        lemma_digit_char_inverse(s[0]);
        assert(dec_digits(dec_val(s) as nat) =~= s);
    } else {
        let pre = s.drop_last();
        assert(pre[0] == s[0]);
        assert(is_canon_digits(pre) && pre[0] != '0') by {
            assert(forall|i: int| 0 <= i < pre.len() ==> pre[i] == s[i]);
        }
        lemma_canon_digits_inverse(pre);
        lemma_canon_nonzero(pre);
        let v = dec_val(s);
        assert(v == dec_val(pre) * 10 + digit_val(s.last()));
        assert(dec_val(pre) >= 1);
        assert(v >= 10);
        assert(v / 10 == dec_val(pre) && v % 10 == digit_val(s.last())) by {
            assert(0 <= digit_val(s.last()) < 10);
        }
        assert(dec_digits(v as nat) == dec_digits(dec_val(pre) as nat).push(
            digit_char(digit_val(s.last())),
        ));
        assert(digit_char(digit_val(s.last())) == s.last()) by {
            lemma_digit_char_inverse(s.last());
        }
        assert(dec_digits(v as nat) =~= s);
    }
}

pub proof fn lemma_digit_char_inverse(c: char)
    requires
        is_digit(c),
    ensures
        digit_char(digit_val(c)) == c,
{
    // A digit character is determined by its code point.
    assert(((48 + digit_val(c)) as u8) as char as u32 == c as u32);
    lemma_char_by_code(digit_char(digit_val(c)), c);
}

/// Two characters with the same code point are the same character.
pub proof fn lemma_char_by_code(a: char, b: char)
    requires
        a as u32 == b as u32,
    ensures
        a == b,
{
    assert(a == b) by {
        assert(a as u32 == b as u32);
        assert(a == (a as u32) as char);
        assert(b == (b as u32) as char);
    }
}

/// A digit string that does not start with `0` has value at least 1.
pub proof fn lemma_canon_nonzero(s: Seq<char>)
    requires
        s.len() >= 1,
        all_digits(s),
        s[0] != '0',
    ensures
        dec_val(s) >= 1,
    decreases s.len(),
{
    if s.len() == 1 {
        if digit_val(s[0]) == 0 {
            lemma_char_by_code(s[0], '0');
            assert(false);
        }
        assert(digit_val(s[0]) >= 1);
        assert(s.drop_last().len() == 0);
        assert(dec_val(s.drop_last()) == 0);
        assert(s.last() == s[0]);
        assert(dec_val(s) == digit_val(s[0]));
    } else {
        let pre = s.drop_last();
        assert(pre[0] == s[0]);
        assert(forall|i: int| 0 <= i < pre.len() ==> pre[i] == s[i]);
        lemma_canon_nonzero(pre);
        assert(dec_val(s) == dec_val(pre) * 10 + digit_val(s.last()));
        assert(is_digit(s.last()));
        assert(digit_val(s.last()) >= 0);
        assert(dec_val(pre) * 10 >= 10);
    }
}

/// The value of a digit string dominates the value of any of its prefixes.
pub proof fn lemma_dec_val_prefix(s: Seq<char>, k: int)
    requires
        0 <= k <= s.len(),
        all_digits(s),
    ensures
        dec_val(s) >= dec_val(s.take(k)),
        dec_val(s) >= 0,
    decreases s.len(),
{
    if s.len() == 0 {
    } else {
        let pre = s.drop_last();
        assert(all_digits(pre)) by {
            assert(forall|i: int| 0 <= i < pre.len() ==> pre[i] == s[i]);
        }
        if k == s.len() {
            lemma_dec_val_prefix(pre, pre.len() as int);
            assert(s.take(k) =~= s);
            assert(digit_val(s.last()) >= 0);
        } else {
            lemma_dec_val_prefix(pre, k);
            assert(pre.take(k) =~= s.take(k));
            assert(digit_val(s.last()) >= 0);
            assert(dec_val(s) == dec_val(pre) * 10 + digit_val(s.last()));
            assert(dec_val(pre) * 10 >= dec_val(pre)) by {
                lemma_dec_val_prefix(pre, pre.len() as int);
            }
        }
    }
}

/// Appending a digit multiplies the value by ten and adds the digit.
pub proof fn lemma_dec_val_push(s: Seq<char>, c: char)
    ensures
        dec_val(s.push(c)) == dec_val(s) * 10 + digit_val(c),
{
    let e = s.push(c);
    assert(e.drop_last() =~= s);
    assert(e.last() == c);
}

/// What `parse_u64_digits` accepts: exactly the canonical renderings of
/// values that fit in a `u64`.
pub open spec fn spec_parse_u64(s: Seq<char>) -> Option<u64> {
    if is_canon_digits(s) && 0 <= dec_val(s) <= u64::MAX {
        Some(dec_val(s) as u64)
    } else {
        None
    }
}

pub fn digit_char_of(d: u64) -> (c: char)
    requires
        d < 10,
    ensures
        c == digit_char(d as int),
{
    ((48 + d as u8)) as char
}

/// Renders `n` in decimal, most significant digit first.
pub fn u64_to_dec_chars(n: u64) -> (v: Vec<char>)
    ensures
        v@ == dec_digits(n as nat),
    decreases n,
{
    if n < 10 {
        let mut v: Vec<char> = Vec::new();
        v.push(digit_char_of(n));
        proof {
            assert(v@ =~= dec_digits(n as nat));
        }
        v
    } else {
        let mut v = u64_to_dec_chars(n / 10);
        v.push(digit_char_of(n % 10));
        v
    }
}

pub fn digit_of_char(c: char) -> (r: Option<u64>)
    ensures
        r is Some <==> is_digit(c),
        r is Some ==> r->0 == digit_val(c) && r->0 < 10,
{
    let u = c as u32;
    if 48 <= u && u <= 57 {
        Some((u - 48) as u64)
    } else {
        None
    }
}

/// Parses the digit run `v[from..to]` as a decimal `u64`; rejects anything
/// that `dec_digits` could not have produced, and values out of range.
pub fn parse_u64_digits(v: &Vec<char>, from: usize, to: usize) -> (r: Option<u64>)
    requires
        from <= to <= v@.len(),
    ensures
        r == spec_parse_u64(v@.subrange(from as int, to as int)),
{
    let ghost s = v@.subrange(from as int, to as int);
    if from == to {
        return None;
    }
    if to - from > 1 {
        let c0 = v[from];
        if c0 as u32 == 48 {
            proof {
                assert(s[0] == '0') by {
                    lemma_char_by_code(s[0], '0');
                }
            }
            return None;
        }
        proof {
            assert(s[0] != '0');
        }
    }
    let mut acc: u64 = 0;
    let mut i: usize = from;
    while i < to
        invariant
            from <= i <= to <= v@.len(),
            s == v@.subrange(from as int, to as int),
            s.len() == to - from,
            all_digits(s.take(i - from)),
            acc == dec_val(s.take(i - from)),
            dec_val(s.take(i - from)) >= 0,
        decreases to - i,
    {
        let ghost k = i - from;
        match digit_of_char(v[i]) {
            None => {
                proof {
                    assert(s[k] == v@[i as int]);
                    assert(!is_digit(s[k]));
                }
                return None;
            },
            Some(d) => {
                proof {
                    assert(s[k] == v@[i as int]);
                    assert(s.take(k + 1) =~= s.take(k).push(s[k]));
                    lemma_dec_val_push(s.take(k), s[k]);
                }
                let m = match acc.checked_mul(10) {
                    Some(m) => m,
                    None => {
                        proof {
                            overflow_means_none(s, k + 1, acc * 10 + digit_val(s[k]));
                        }
                        return None;
                    },
                };
                let a = match m.checked_add(d) {
                    Some(a) => a,
                    None => {
                        proof {
                            overflow_means_none(s, k + 1, acc * 10 + digit_val(s[k]));
                        }
                        return None;
                    },
                };
                acc = a;
            },
        }
        i = i + 1;
    }
    proof {
        assert(s.take(to - from) =~= s);
        if s.len() > 1 {
            assert(s[0] != '0');
        }
    }
    Some(acc)
}

/// If some prefix of a digit run already exceeds `u64::MAX`, the whole run
/// cannot be an in-range canonical rendering.
proof fn overflow_means_none(s: Seq<char>, k: int, prefix_val: int)
    requires
        0 <= k <= s.len(),
        all_digits(s.take(k)),
        dec_val(s.take(k)) == prefix_val,
        prefix_val > u64::MAX,
    ensures
        spec_parse_u64(s) is None,
{
    if is_canon_digits(s) {
        lemma_dec_val_prefix(s, k);
        assert(s.take(k) == s.take(k));
        assert(dec_val(s) >= dec_val(s.take(k)));
    }
}

} // verus!
