//! The record codec: the fixed JSON shapes this service writes into its
//! cache and store, rendered and parsed by verified code.
//!
//! Strings are escaped minimally (`"` and `\`); the parser accepts exactly
//! what the renderer produces, and anything else is reported as no parse,
//! which the read path treats as a cache miss.

use vstd::prelude::*;
use crate::decimal::{
    dec_digits, dec_val, digit_char, digit_val, is_digit, spec_parse_u64, all_digits,
    is_canon_digits, lemma_dec_digits_canon, lemma_digit_char_val, u64_to_dec_chars,
    parse_u64_digits,
};
use crate::models::PendingTransfer;
use crate::text::chars_of;

verus! {

/// How one character appears inside a JSON string body.
pub open spec fn escape_char(c: char) -> Seq<char> {
    if c == '"' {
        seq!['\\', '"']
    } else if c == '\\' {
        seq!['\\', '\\']
    } else {
        seq![c]
    }
}

/// A string's characters as they appear inside a JSON string body.
pub open spec fn json_escaped(s: Seq<char>) -> Seq<char>
    decreases s.len(),
{
    if s.len() == 0 {
        Seq::empty()
    } else {
        escape_char(s[0]) + json_escaped(s.skip(1))
    }
}

/// Escaping distributes over appending one character.
pub proof fn lemma_escaped_push(s: Seq<char>, c: char)
    ensures
        json_escaped(s.push(c)) == json_escaped(s) + escape_char(c),
    decreases s.len(),
{
    if s.len() == 0 {
        assert(s.push(c).skip(1) =~= Seq::<char>::empty());
        assert(s.push(c)[0] == c);
        assert(json_escaped(Seq::<char>::empty()) == Seq::<char>::empty());
        assert(json_escaped(s.push(c)) == escape_char(c) + json_escaped(s.push(c).skip(1)));
        assert(escape_char(c) + Seq::<char>::empty() =~= escape_char(c));
        assert(json_escaped(s) + escape_char(c) =~= escape_char(c));
        assert(json_escaped(s.push(c)) =~= json_escaped(s) + escape_char(c));
    } else {
        assert(s.push(c).skip(1) =~= s.skip(1).push(c));
        lemma_escaped_push(s.skip(1), c);
        assert(s.push(c)[0] == s[0]);
        assert(json_escaped(s.push(c)) == escape_char(s[0]) + (json_escaped(s.skip(1))
            + escape_char(c)));
        assert(escape_char(s[0]) + (json_escaped(s.skip(1)) + escape_char(c)) =~= (escape_char(
            s[0],
        ) + json_escaped(s.skip(1))) + escape_char(c));
    }
}

/// Escapes `src` for use inside a JSON string body.
pub fn escape_chars(src: &Vec<char>) -> (out: Vec<char>)
    ensures
        out@ == json_escaped(src@),
{
    let mut out: Vec<char> = Vec::new();
    let mut i: usize = 0;
    while i < src.len()
        invariant
            i <= src@.len(),
            out@ == json_escaped(src@.take(i as int)),
        decreases src@.len() - i,
    {
        let c = src[i];
        proof {
            assert(src@.take(i + 1 as int) =~= src@.take(i as int).push(src@[i as int]));
            lemma_escaped_push(src@.take(i as int), src@[i as int]);
        }
        if c == '"' {
            out.push('\\');
            out.push('"');
        } else if c == '\\' {
            out.push('\\');
            out.push('\\');
        } else {
            out.push(c);
        }
        i = i + 1;
    }
    proof {
        assert(src@.take(src@.len() as int) =~= src@);
    }
    out
}

/// Scans a JSON string body starting at `i`, up to and including its closing
/// quote; yields the unescaped characters and the index after the quote.
pub open spec fn scan_string(s: Seq<char>, i: int) -> Option<(Seq<char>, int)>
    decreases s.len() - i,
{
    if i < 0 || i >= s.len() {
        None
    } else if s[i] == '"' {
        Some((Seq::empty(), i + 1))
    } else if s[i] == '\\' {
        if i + 1 < s.len() && (s[i + 1] == '"' || s[i + 1] == '\\') {
            match scan_string(s, i + 2) {
                Some(r) => Some((seq![s[i + 1]] + r.0, r.1)),
                None => None,
            }
        } else {
            None
        }
    } else {
        match scan_string(s, i + 1) {
            Some(r) => Some((seq![s[i]] + r.0, r.1)),
            None => None,
        }
    }
}

/// Scanning an escaped string body recovers exactly the original characters
/// and stops at its closing quote.
pub proof fn lemma_scan_escaped(k: Seq<char>, tail: Seq<char>, s: Seq<char>, i: int)
    requires
        0 <= i <= s.len(),
        s.skip(i) == json_escaped(k) + seq!['"'] + tail,
    ensures
        scan_string(s, i) == Some((k, i + json_escaped(k).len() + 1)),
    decreases k.len(),
{
    let sk = s.skip(i);
    assert(forall|x: int| 0 <= x < sk.len() ==> sk[x] == s[i + x]);
    if k.len() == 0 {
        assert(json_escaped(k).len() == 0);
        assert(sk.len() == 1 + tail.len());
        assert(sk[0] == (json_escaped(k) + seq!['"'] + tail)[0]);
        assert(sk[0] == '"');
        assert(s[i] == sk[0]);
        assert(scan_string(s, i) == Some((Seq::<char>::empty(), i + 1)));
        assert(k =~= Seq::<char>::empty());
    } else {
        let c = k[0];
        let rest = k.skip(1);
        assert(json_escaped(k) == escape_char(c) + json_escaped(rest));
        let e = escape_char(c);
        let t = json_escaped(rest) + seq!['"'] + tail;
        assert(sk =~= e + t);
        assert(sk.len() == e.len() + t.len());
        if c == '"' || c == '\\' {
            assert(e == seq!['\\', c]);
            assert(sk[0] == (e + t)[0] && sk[1] == (e + t)[1]);
            assert(s[i] == '\\');
            assert(s[i + 1] == c);
            assert(i + 2 <= s.len());
            assert(s.skip(i + 2) =~= t) by {
                assert(forall|x: int| 0 <= x < t.len() ==> #[trigger] s.skip(i + 2)[x] == sk[x + 2]);
                assert(forall|x: int| 0 <= x < t.len() ==> #[trigger] (e + t)[x + 2] == t[x]);
            }
            lemma_scan_escaped(rest, tail, s, i + 2);
            assert(scan_string(s, i) == Some((seq![c] + rest, i + 2 + json_escaped(rest).len()
                + 1)));
            assert(seq![c] + rest =~= k);
        } else {
            assert(e == seq![c]);
            assert(sk[0] == (e + t)[0]);
            assert(s[i] == c);
            assert(s[i] != '"' && s[i] != '\\');
            assert(s.skip(i + 1) =~= t) by {
                assert(forall|x: int| 0 <= x < t.len() ==> #[trigger] s.skip(i + 1)[x] == sk[x + 1]);
                assert(forall|x: int| 0 <= x < t.len() ==> #[trigger] (e + t)[x + 1] == t[x]);
            }
            lemma_scan_escaped(rest, tail, s, i + 1);
            assert(scan_string(s, i) == Some((seq![c] + rest, i + 1 + json_escaped(rest).len()
                + 1)));
            assert(seq![c] + rest =~= k);
        }
    }
}

/// Only escaped bodies scan: what the string scanner consumed is the
/// escaping of what it returned, closed by a quote.
pub proof fn lemma_scan_sound(s: Seq<char>, i: int)
    requires
        scan_string(s, i) is Some,
    ensures
        ({
            let (k, j) = scan_string(s, i)->0;
            &&& 0 <= i < s.len()
            &&& i < j <= s.len()
            &&& j == i + json_escaped(k).len() + 1
            &&& s.subrange(i, j) == json_escaped(k) + seq!['"']
        }),
    decreases s.len() - i,
{
    let (k, j) = scan_string(s, i)->0;
    if s[i] == '"' {
        assert(k == Seq::<char>::empty() && j == i + 1);
        assert(json_escaped(k).len() == 0);
        assert(s.subrange(i, i + 1) =~= json_escaped(k) + seq!['"']);
    } else if s[i] == '\\' {
        let c = s[i + 1];
        lemma_scan_sound(s, i + 2);
        let rec = scan_string(s, i + 2)->0;
        assert(k == seq![c] + rec.0 && j == rec.1);
        assert(k[0] == c);
        assert(escape_char(c) == seq!['\\', c]);
        assert(k.skip(1) =~= rec.0);
        assert(json_escaped(k) == escape_char(c) + json_escaped(rec.0));
        assert(s.subrange(i + 2, j) == json_escaped(rec.0) + seq!['"']);
        assert(s.subrange(i, j) =~= seq!['\\', c] + s.subrange(i + 2, j));
        assert(s.subrange(i, j) =~= json_escaped(k) + seq!['"']);
    } else {
        lemma_scan_sound(s, i + 1);
        let rec = scan_string(s, i + 1)->0;
        assert(k == seq![s[i]] + rec.0 && j == rec.1);
        assert(k[0] == s[i]);
        assert(escape_char(s[i]) == seq![s[i]]);
        assert(k.skip(1) =~= rec.0);
        assert(json_escaped(k) == escape_char(s[i]) + json_escaped(rec.0));
        assert(s.subrange(i + 1, j) == json_escaped(rec.0) + seq!['"']);
        assert(s.subrange(i, j) =~= seq![s[i]] + s.subrange(i + 1, j));
        assert(s.subrange(i, j) =~= json_escaped(k) + seq!['"']);
    }
}

/// Executable counterpart of `scan_string`.
pub fn scan_string_exec(v: &Vec<char>, start: usize) -> (r: Option<(Vec<char>, usize)>)
    requires
        start <= v@.len(),
    ensures
        match r {
            Some(kj) => scan_string(v@, start as int) == Some((kj.0@, kj.1 as int)) && kj.1
                <= v@.len(),
            None => scan_string(v@, start as int) is None,
        },
{
    let mut acc: Vec<char> = Vec::new();
    let mut i: usize = start;
    loop
        invariant
            start <= i <= v@.len(),
            scan_string(v@, start as int) == (match scan_string(v@, i as int) {
                Some(r) => Some((acc@ + r.0, r.1)),
                None => None::<(Seq<char>, int)>,
            }),
        decreases v@.len() - i,
    {
        if i >= v.len() {
            return None;
        }
        let c = v[i];
        if c == '"' {
            proof {
                assert(scan_string(v@, i as int) == Some((Seq::<char>::empty(), i + 1 as int)));
                assert(acc@ + Seq::<char>::empty() =~= acc@);
            }
            return Some((acc, i + 1));
        }
        if c == '\\' {
            if i + 1 < v.len() {
                let d = v[i + 1];
                if d == '"' || d == '\\' {
                    proof {
                        if scan_string(v@, i + 2 as int) is Some {
                            let r = scan_string(v@, i + 2 as int)->0;
                            assert(scan_string(v@, i as int) == Some((seq![d] + r.0, r.1)));
                            assert(acc@ + (seq![d] + r.0) =~= acc@.push(d) + r.0);
                        }
                    }
                    acc.push(d);
                    i = i + 2;
                } else {
                    return None;
                }
            } else {
                return None;
            }
        } else {
            proof {
                if scan_string(v@, i + 1 as int) is Some {
                    let r = scan_string(v@, i + 1 as int)->0;
                    assert(scan_string(v@, i as int) == Some((seq![c] + r.0, r.1)));
                    assert(acc@ + (seq![c] + r.0) =~= acc@.push(c) + r.0);
                }
            }
            acc.push(c);
            i = i + 1;
        }
    }
}

/// True iff the characters of `lit` stand in `v` at position `at`.
pub fn match_lit(v: &Vec<char>, at: usize, lit: &str) -> (b: bool)
    requires
        at <= v@.len(),
    ensures
        b == (at + lit@.len() <= v@.len() && v@.subrange(at as int, at + lit@.len()) == lit@),
{
    let n = lit.unicode_len();
    let vlen = v.len();
    if n > vlen - at {
        return false;
    }
    let mut k: usize = 0;
    while k < n
        invariant
            at + n <= vlen,
            vlen == v@.len(),
            n == lit@.len(),
            k <= n,
            forall|x: int| 0 <= x < k ==> v@[at + x] == lit@[x],
        decreases n - k,
    {
        if lit.get_char(k) != v[at + k] {
            proof {
                assert(v@.subrange(at as int, at + lit@.len())[k as int] == v@[at + k]);
            }
            return false;
        }
        k = k + 1;
    }
    proof {
        assert(v@.subrange(at as int, at + lit@.len()) =~= lit@);
    }
    true
}

/// The serialized form of a pending record.
pub open spec fn spec_render_pending(key: Seq<char>, size: u64) -> Seq<char> {
    "{\"key\":\""@ + json_escaped(key) + "\",\"size\":"@ + dec_digits(size as nat) + "}"@
}

/// What the pending-record parser accepts: exactly the rendered forms.
pub open spec fn spec_parse_pending(s: Seq<char>) -> Option<(Seq<char>, u64)> {
    let p0 = "{\"key\":\""@;
    let mid = ",\"size\":"@;
    if s.len() < p0.len() || s.take(p0.len() as int) != p0 {
        None
    } else {
        match scan_string(s, p0.len() as int) {
            None => None,
            Some((key, j)) => {
                if j + mid.len() <= s.len() - 1 && s.subrange(j, j + mid.len()) == mid && s[(
                s.len() - 1) as int] == '}' {
                    match spec_parse_u64(s.subrange(j + mid.len(), s.len() - 1)) {
                        Some(n) => Some((key, n)),
                        None => None,
                    }
                } else {
                    None
                }
            },
        }
    }
}

/// Renders a pending record.
pub fn render_pending(p: &PendingTransfer) -> (r: Vec<char>)
    ensures
        r@ == spec_render_pending(p.key@, p.size),
{
    let mut out = chars_of("{\"key\":\"");
    let key_chars = chars_of(p.key.as_str());
    let mut esc = escape_chars(&key_chars);
    out.append(&mut esc);
    let mut mid = chars_of("\",\"size\":");
    out.append(&mut mid);
    let mut num = u64_to_dec_chars(p.size);
    out.append(&mut num);
    let mut close = chars_of("}");
    out.append(&mut close);
    proof {
        assert(r#""{\"key\":\""#@ == r#""{\"key\":\""#@);
        assert(out@ =~= spec_render_pending(p.key@, p.size));
    }
    out
}

/// Parses a pending record; accepts exactly what `render_pending` writes.
pub fn parse_pending(s: &str) -> (r: Option<PendingTransfer>)
    ensures
        match r {
            Some(p) => spec_parse_pending(s@) == Some((p.key@, p.size)),
            None => spec_parse_pending(s@) is None,
        },
{
    let v = chars_of(s);
    let ghost p0 = "{\"key\":\""@;
    let ghost mid = ",\"size\":"@;
    proof {
        reveal_strlit("{\"key\":\"");
        reveal_strlit(",\"size\":");
    }
    if !match_lit(&v, 0, "{\"key\":\"") {
        proof {
            assert(v@.subrange(0, p0.len() as int) == v@.take(p0.len() as int));
        }
        return None;
    }
    proof {
        assert(v@.subrange(0, p0.len() as int) == v@.take(p0.len() as int));
    }
    let scanned = scan_string_exec(&v, 8);
    match scanned {
        None => None,
        Some((key, j)) => {
            if j > v.len() - 1 {
                return None;
            }
            if !match_lit(&v, j, ",\"size\":") {
                return None;
            }
            if j + 8 > v.len() - 1 {
                return None;
            }
            let last = v[v.len() - 1];
            if last != '}' {
                return None;
            }
            match parse_u64_digits(&v, j + 8, v.len() - 1) {
                None => None,
                Some(n) => {
                    let key_str = crate::text::string_of_chars(&key);
                    Some(PendingTransfer { key: key_str, size: n })
                },
            }
        },
    }
}

/// Round trip: a rendered pending record parses back to exactly its parts.
pub proof fn lemma_pending_round_trip(key: Seq<char>, size: u64)
    ensures
        spec_parse_pending(spec_render_pending(key, size)) == Some((key, size)),
{
    let p0 = "{\"key\":\""@;
    let mid = ",\"size\":"@;
    let digits = dec_digits(size as nat);
    let s = spec_render_pending(key, size);
    reveal_strlit("{\"key\":\"");
    reveal_strlit("\",\"size\":");
    reveal_strlit(",\"size\":");
    reveal_strlit("}");
    assert("\",\"size\":"@ =~= seq!['"'] + mid);
    assert(s =~= p0 + (json_escaped(key) + seq!['"'] + (mid + digits + "}"@)));
    assert(s.take(p0.len() as int) =~= p0);
    assert(s.skip(p0.len() as int) =~= json_escaped(key) + seq!['"'] + (mid + digits + "}"@));
    lemma_scan_escaped(key, mid + digits + "}"@, s, p0.len() as int);
    let j = p0.len() + json_escaped(key).len() + 1;
    assert(scan_string(s, p0.len() as int) == Some((key, j as int)));
    lemma_dec_digits_canon(size as nat);
    assert(s.len() == j + mid.len() + digits.len() + 1);
    assert(digits.len() >= 1);
    assert(s.subrange(j as int, (j + mid.len()) as int) =~= mid);
    assert(s[s.len() - 1] == '}');
    assert(s.subrange((j + mid.len()) as int, s.len() - 1) =~= digits);
    assert(spec_parse_u64(digits) == Some(size));
}


/// Only renderings parse: a string the pending parser accepts is the
/// rendering of exactly the parts it returns.
pub proof fn lemma_pending_parse_sound(s: Seq<char>)
    requires
        spec_parse_pending(s) is Some,
    ensures
        ({
            let (k, n) = spec_parse_pending(s)->0;
            s == spec_render_pending(k, n)
        }),
{
    reveal_strlit("{\"key\":\"");
    reveal_strlit(",\"size\":");
    reveal_strlit("\",\"size\":");
    reveal_strlit("}");
    let p0 = "{\"key\":\""@;
    let mid = ",\"size\":"@;
    let (k, n) = spec_parse_pending(s)->0;
    assert(s.take(p0.len() as int) == p0);
    lemma_scan_sound(s, 8);
    let (k2, j) = scan_string(s, 8)->0;
    assert(k2 == k);
    assert(s.subrange(8, j) == json_escaped(k) + seq!['"']);
    assert(s.subrange(j, j + 8) == mid);
    let digits = s.subrange(j + 8, s.len() - 1);
    assert(spec_parse_u64(digits) == Some(n));
    assert(is_canon_digits(digits) && dec_val(digits) == n);
    crate::decimal::lemma_canon_digits_inverse(digits);
    assert(digits == dec_digits(n as nat));
    assert(s[s.len() - 1] == '}');
    assert(j + 8 <= s.len() - 1);
    assert("\",\"size\":"@ =~= seq!['"'] + mid);
    let r = spec_render_pending(k, n);
    assert(r =~= p0 + (json_escaped(k) + seq!['"']) + mid + digits + seq!['}']);
    assert(r.len() == 8 + (j - 8) + 8 + digits.len() + 1);
    assert(r.len() == s.len());
    assert forall|x: int| 0 <= x < s.len() implies s[x] == r[x] by {
        if x < 8 {
            assert(s.take(8)[x] == s[x]);
            assert(r[x] == p0[x]);
        } else if x < j {
            assert(s.subrange(8, j)[x - 8] == s[x]);
            assert(r[x] == (json_escaped(k) + seq!['"'])[x - 8]);
        } else if x < j + 8 {
            assert(s.subrange(j, j + 8)[x - j] == s[x]);
            assert(r[x] == mid[x - j]);
        } else if x < s.len() - 1 {
            assert(s.subrange(j + 8, s.len() - 1)[x - j - 8] == s[x]);
            assert(r[x] == digits[x - j - 8]);
        } else {
            assert(r[x] == '}');
        }
    }
    assert(s =~= r);
}

/// One-or-two digit fraction of a two-decimal megabyte value, with a
/// trailing zero in the second place dropped.
pub open spec fn frac_digits(f: nat) -> Seq<char>
    recommends
        f < 100,
{
    if f % 10 == 0 {
        seq![digit_char((f / 10) as int)]
    } else {
        seq![digit_char((f / 10) as int), digit_char((f % 10) as int)]
    }
}

/// The rendering of a size held in hundredths of a megabyte: integer part,
/// a dot, then the fraction.
pub open spec fn mb_digits(h: nat) -> Seq<char> {
    dec_digits(h / 100) + seq!['.'] + frac_digits(h % 100)
}

/// The first position at or after `i` that does not hold a digit.
pub open spec fn digits_end(s: Seq<char>, i: int) -> int
    decreases s.len() - i,
{
    if i < 0 || i >= s.len() {
        i
    } else if is_digit(s[i]) {
        digits_end(s, i + 1)
    } else {
        i
    }
}

pub proof fn lemma_digits_end_bounds(s: Seq<char>, i: int)
    requires
        0 <= i <= s.len(),
    ensures
        i <= digits_end(s, i) <= s.len(),
        all_digits(s.subrange(i, digits_end(s, i))),
    decreases s.len() - i,
{
    if i < s.len() && is_digit(s[i]) {
        lemma_digits_end_bounds(s, i + 1);
        let e = digits_end(s, i);
        assert(digits_end(s, i) == digits_end(s, i + 1));
        assert forall|x: int| 0 <= x < e - i implies is_digit(#[trigger] s.subrange(i, e)[x]) by {
            assert(s.subrange(i, e)[x] == s[i + x]);
            if x == 0 {
            } else {
                assert(s.subrange(i + 1, e)[x - 1] == s[i + x]);
                assert(is_digit(s.subrange(i + 1, e)[x - 1]));
            }
        }
    } else {
        assert(s.subrange(i, i).len() == 0);
    }
}

/// A digit run standing at `i`, followed by a non-digit (or the end), is
/// exactly what `digits_end` measures.
pub proof fn lemma_digits_end_at(s: Seq<char>, i: int, d: Seq<char>)
    requires
        0 <= i,
        i + d.len() <= s.len(),
        all_digits(d),
        forall|x: int| 0 <= x < d.len() ==> s[i + x] == d[x],
        i + d.len() == s.len() || !is_digit(s[i + d.len()]),
    ensures
        digits_end(s, i) == i + d.len(),
        s.subrange(i, i + d.len()) == d,
    decreases d.len(),
{
    if d.len() == 0 {
        assert(s.subrange(i, i) =~= d);
    } else {
        assert(s[i] == d[0]);
        assert(is_digit(s[i]));
        let rest = d.skip(1);
        assert(forall|x: int| 0 <= x < rest.len() ==> s[i + 1 + x] == rest[x]);
        lemma_digits_end_at(s, i + 1, rest);
        assert(s.subrange(i, i + d.len()) =~= d);
    }
}

/// What the two-decimal size parser accepts at position `i`: exactly the
/// `mb_digits` renderings of values that fit in a `u64`.
pub open spec fn spec_parse_mb_at(s: Seq<char>, i: int) -> Option<(u64, int)> {
    let e1 = digits_end(s, i);
    let ip = s.subrange(i, e1);
    if 0 <= i && e1 < s.len() && s[e1] == '.' {
        let e2 = digits_end(s, e1 + 1);
        let fp = s.subrange(e1 + 1, e2);
        if is_canon_digits(ip) && (fp.len() == 1 || (fp.len() == 2 && fp[1] != '0'))
            && all_digits(fp) {
            let fv = if fp.len() == 1 {
                digit_val(fp[0]) * 10
            } else {
                digit_val(fp[0]) * 10 + digit_val(fp[1])
            };
            if dec_val(ip) * 100 + fv <= u64::MAX {
                Some(((dec_val(ip) * 100 + fv) as u64, e2))
            } else {
                None
            }
        } else {
            None
        }
    } else {
        None
    }
}

/// What the plain number parser accepts at position `i`.
pub open spec fn spec_parse_u64_at(s: Seq<char>, i: int) -> Option<(u64, int)> {
    let e = digits_end(s, i);
    match spec_parse_u64(s.subrange(i, e)) {
        Some(n) => Some((n, e)),
        None => None,
    }
}

/// A rendered two-decimal size, followed by a non-digit other than a dot,
/// parses back to its value.
pub proof fn lemma_mb_at(s: Seq<char>, i: int, h: u64, after: Seq<char>)
    requires
        0 <= i <= s.len(),
        s.skip(i) == mb_digits(h as nat) + after,
        after.len() >= 1,
        !is_digit(after[0]),
        after[0] != '.',
    ensures
        spec_parse_mb_at(s, i) == Some((h, i + mb_digits(h as nat).len())),
{
    let hh = h as nat;
    let ipd = dec_digits(hh / 100);
    let fpd = frac_digits(hh % 100);
    let mb = mb_digits(hh);
    let sk = s.skip(i);
    assert(forall|x: int| 0 <= x < sk.len() ==> sk[x] == s[i + x]);
    assert(sk.len() == mb.len() + after.len());
    assert(mb.len() == ipd.len() + 1 + fpd.len());
    lemma_dec_digits_canon(hh / 100);
    assert forall|x: int| 0 <= x < mb.len() implies #[trigger] s[i + x] == mb[x] by {
        assert(sk[x] == s[i + x]);
        assert(sk[x] == (mb + after)[x]);
    }
    assert forall|x: int| 0 <= x < ipd.len() implies #[trigger] s[i + x] == ipd[x] by {
        assert(mb[x] == (ipd + seq!['.'] + fpd)[x]);
        assert(mb[x] == ipd[x]);
    }
    // the dot after the integer part
    assert(mb[ipd.len() as int] == '.');
    assert(s[i + ipd.len()] == '.');
    assert(!is_digit('.'));
    lemma_digits_end_at(s, i, ipd);
    let e1 = i + ipd.len();
    assert(digits_end(s, i) == e1);
    assert(s.subrange(i, e1) == ipd);
    // the fraction digits
    proof_frac_digits_facts(hh % 100);
    assert forall|x: int| 0 <= x < fpd.len() implies s[e1 + 1 + x] == fpd[x] by {
        assert(mb[ipd.len() + 1 + x] == (ipd + seq!['.'] + fpd)[ipd.len() + 1 + x]);
        assert(mb[ipd.len() + 1 + x] == fpd[x]);
        assert(s[i + (ipd.len() + 1 + x)] == mb[ipd.len() + 1 + x]);
    }
    assert(e1 + 1 + fpd.len() == i + mb.len());
    assert(s[i + mb.len()] == after[0]) by {
        assert(sk[mb.len() as int] == (mb + after)[mb.len() as int]);
    }
    lemma_digits_end_at(s, e1 + 1, fpd);
    let e2 = e1 + 1 + fpd.len();
    assert(digits_end(s, e1 + 1) == e2);
    assert(s.subrange(e1 + 1, e2) == fpd);
    // values
    let f = hh % 100;
    vstd::arithmetic::div_mod::lemma_fundamental_div_mod(f as int, 10);
    vstd::arithmetic::div_mod::lemma_fundamental_div_mod(hh as int, 100);
    lemma_digit_char_val((f / 10) as int);
    if f % 10 == 0 {
        assert(fpd.len() == 1);
        assert(digit_val(fpd[0]) * 10 == f);
    } else {
        lemma_digit_char_val((f % 10) as int);
        assert(fpd.len() == 2);
        assert(fpd[1] != '0');
        assert(digit_val(fpd[0]) * 10 + digit_val(fpd[1]) == f);
    }
    assert(dec_val(ipd) == hh / 100);
    assert(dec_val(ipd) * 100 + f == hh);
}

proof fn proof_frac_digits_facts(f: nat)
    requires
        f < 100,
    ensures
        all_digits(frac_digits(f)),
        1 <= frac_digits(f).len() <= 2,
{
    lemma_digit_char_val((f / 10) as int);
    lemma_digit_char_val((f % 10) as int);
    let fp = frac_digits(f);
    assert(forall|x: int| 0 <= x < fp.len() ==> is_digit(fp[x])) by {
        assert(fp[0] == digit_char((f / 10) as int));
        if fp.len() == 2 {
            assert(fp[1] == digit_char((f % 10) as int));
        }
    }
}

/// A rendered number, followed by a non-digit, parses back to its value.
pub proof fn lemma_u64_at(s: Seq<char>, i: int, n: u64, after: Seq<char>)
    requires
        0 <= i <= s.len(),
        s.skip(i) == dec_digits(n as nat) + after,
        after.len() >= 1,
        !is_digit(after[0]),
    ensures
        spec_parse_u64_at(s, i) == Some((n, i + dec_digits(n as nat).len())),
{
    let d = dec_digits(n as nat);
    let sk = s.skip(i);
    assert(forall|x: int| 0 <= x < sk.len() ==> sk[x] == s[i + x]);
    lemma_dec_digits_canon(n as nat);
    assert(forall|x: int| 0 <= x < d.len() ==> #[trigger] s[i + x] == d[x]) by {
        assert(forall|x: int| 0 <= x < d.len() ==> (d + after)[x] == d[x]);
    }
    assert(s[i + d.len()] == after[0]) by {
        assert(sk[d.len() as int] == (d + after)[d.len() as int]);
    }
    lemma_digits_end_at(s, i, d);
    assert(s.subrange(i, i + d.len()) == d);
}

/// Renders a size in hundredths of a megabyte with two decimals, dropping a
/// trailing zero in the second place.
pub fn render_mb(h: u64) -> (v: Vec<char>)
    ensures
        v@ == mb_digits(h as nat),
{
    let mut out = u64_to_dec_chars(h / 100);
    out.push('.');
    let f = h % 100;
    if f % 10 == 0 {
        out.push(crate::decimal::digit_char_of(f / 10));
    } else {
        out.push(crate::decimal::digit_char_of(f / 10));
        out.push(crate::decimal::digit_char_of(f % 10));
    }
    proof {
        assert(out@ =~= mb_digits(h as nat));
    }
    out
}

/// Executable counterpart of `digits_end`.
pub fn digits_end_exec(v: &Vec<char>, start: usize) -> (e: usize)
    requires
        start <= v@.len(),
    ensures
        e as int == digits_end(v@, start as int),
        start <= e <= v@.len(),
{
    let mut i: usize = start;
    loop
        invariant
            start <= i <= v@.len(),
            digits_end(v@, start as int) == digits_end(v@, i as int),
        decreases v@.len() - i,
    {
        if i >= v.len() {
            return i;
        }
        let u = v[i] as u32;
        if 48 <= u && u <= 57 {
            i = i + 1;
        } else {
            return i;
        }
    }
}

/// Executable counterpart of `spec_parse_mb_at`.
pub fn parse_mb_at(v: &Vec<char>, i: usize) -> (r: Option<(u64, usize)>)
    requires
        i <= v@.len(),
    ensures
        match r {
            Some(he) => spec_parse_mb_at(v@, i as int) == Some((he.0, he.1 as int)) && he.1
                <= v@.len(),
            None => spec_parse_mb_at(v@, i as int) is None,
        },
{
    let ghost s = v@;
    let e1 = digits_end_exec(v, i);
    if e1 >= v.len() {
        return None;
    }
    if v[e1] != '.' {
        return None;
    }
    let ghost ip = s.subrange(i as int, e1 as int);
    let iv = match crate::decimal::parse_u64_digits(v, i, e1) {
        Some(iv) => iv,
        None => {
            proof {
                lemma_digits_end_bounds(s, e1 + 1);
                if is_canon_digits(ip) {
                    crate::decimal::lemma_dec_val_prefix(ip, 0);
                    assert(dec_val(ip) >= 0);
                    assert(dec_val(ip) > u64::MAX);
                    let e2g = digits_end(s, e1 + 1);
                    let fpg = s.subrange(e1 + 1, e2g);
                    if (fpg.len() == 1 || (fpg.len() == 2 && fpg[1] != '0')) && all_digits(fpg) {
                        let fvg = if fpg.len() == 1 {
                            digit_val(fpg[0]) * 10
                        } else {
                            digit_val(fpg[0]) * 10 + digit_val(fpg[1])
                        };
                        assert(is_digit(fpg[0]));
                        assert(fvg >= 0);
                        assert(dec_val(ip) * 100 >= dec_val(ip)) by (nonlinear_arith)
                            requires
                                dec_val(ip) > 0,
                        ;
                    }
                }
            }
            return None;
        },
    };
    let f0 = e1 + 1;
    let e2 = digits_end_exec(v, f0);
    proof {
        lemma_digits_end_bounds(s, f0 as int);
    }
    let flen = e2 - f0;
    if flen == 0 || flen > 2 {
        return None;
    }
    let ghost fp = s.subrange(f0 as int, e2 as int);
    let d0 = match crate::decimal::digit_of_char(v[f0]) {
        Some(d0) => d0,
        None => {
            proof {
                assert(fp[0] == s[f0 as int]);
                assert(false);
            }
            return None;
        },
    };
    let fv: u64;
    if flen == 1 {
        fv = d0 * 10;
    } else {
        let c1 = v[f0 + 1];
        if c1 == '0' {
            proof {
                assert(fp[1] == '0');
            }
            return None;
        }
        let d1 = match crate::decimal::digit_of_char(c1) {
            Some(d1) => d1,
            None => {
                proof {
                    assert(fp[1] == s[f0 + 1]);
                    assert(false);
                }
                return None;
            },
        };
        proof {
            assert(fp[1] == s[f0 + 1]);
        }
        fv = d0 * 10 + d1;
    }
    proof {
        assert(fp[0] == s[f0 as int]);
        assert(0 <= fv <= 99);
    }
    let m = match iv.checked_mul(100) {
        Some(m) => m,
        None => {
            proof {
                assert(dec_val(ip) == iv);
                assert(dec_val(ip) * 100 > u64::MAX);
                let fvg = if fp.len() == 1 {
                    digit_val(fp[0]) * 10
                } else {
                    digit_val(fp[0]) * 10 + digit_val(fp[1])
                };
                assert(fvg >= 0);
            }
            return None;
        },
    };
    let total = match m.checked_add(fv) {
        Some(tt) => tt,
        None => {
            return None;
        },
    };
    proof {
        assert(dec_val(ip) == iv);
        if fp.len() == 1 {
            assert(digit_val(fp[0]) * 10 == fv);
        } else {
            assert(digit_val(fp[0]) * 10 + digit_val(fp[1]) == fv);
        }
    }
    Some((total, e2))
}

/// Executable counterpart of `spec_parse_u64_at`.
pub fn parse_u64_at(v: &Vec<char>, i: usize) -> (r: Option<(u64, usize)>)
    requires
        i <= v@.len(),
    ensures
        match r {
            Some(ne) => spec_parse_u64_at(v@, i as int) == Some((ne.0, ne.1 as int)) && ne.1
                <= v@.len(),
            None => spec_parse_u64_at(v@, i as int) is None,
        },
{
    let e = digits_end_exec(v, i);
    match crate::decimal::parse_u64_digits(v, i, e) {
        Some(n) => Some((n, e)),
        None => None,
    }
}


/// Only renderings parse, numeric piece: what the two-decimal size parser
/// consumed is the rendering of the value it returned.
pub proof fn lemma_mb_sound(s: Seq<char>, i: int)
    requires
        spec_parse_mb_at(s, i) is Some,
    ensures
        ({
            let (h, e) = spec_parse_mb_at(s, i)->0;
            &&& 0 <= i <= e <= s.len()
            &&& e == i + mb_digits(h as nat).len()
            &&& s.subrange(i, e) == mb_digits(h as nat)
        }),
{
    let (h, e) = spec_parse_mb_at(s, i)->0;
    let e1 = digits_end(s, i);
    let ip = s.subrange(i, e1);
    lemma_digits_end_bounds(s, i);
    let e2 = digits_end(s, e1 + 1);
    let fp = s.subrange(e1 + 1, e2);
    lemma_digits_end_bounds(s, e1 + 1);
    crate::decimal::lemma_canon_digits_inverse(ip);
    let iv = dec_val(ip);
    let fv = if fp.len() == 1 {
        digit_val(fp[0]) * 10
    } else {
        digit_val(fp[0]) * 10 + digit_val(fp[1])
    };
    assert(h == iv * 100 + fv && e == e2);
    assert(0 <= fv <= 99) by {
        assert(is_digit(fp[0]));
        if fp.len() == 2 {
            assert(is_digit(fp[1]));
        }
    }
    assert((h as nat) / 100 == iv && (h as nat) % 100 == fv) by {
        assert(0 <= fv < 100);
    }
    let mb = mb_digits(h as nat);
    assert(dec_digits((h as nat) / 100) == ip);
    assert(frac_digits((h as nat) % 100) == fp) by {
        crate::decimal::lemma_digit_char_inverse(fp[0]);
        if fp.len() == 1 {
            assert(fv % 10 == 0) by {
                assert(fv == digit_val(fp[0]) * 10);
            }
            assert(fv / 10 == digit_val(fp[0]));
            assert(frac_digits(fv as nat) =~= fp);
        } else {
            crate::decimal::lemma_digit_char_inverse(fp[1]);
            assert(fv % 10 == digit_val(fp[1]) && fv / 10 == digit_val(fp[0]));
            assert(digit_val(fp[1]) != 0) by {
                if digit_val(fp[1]) == 0 {
                    crate::decimal::lemma_char_by_code(fp[1], '0');
                }
            }
            assert(frac_digits(fv as nat) =~= fp);
        }
    }
    assert(s.subrange(i, e) =~= ip + seq!['.'] + fp) by {
        assert(forall|x: int| 0 <= x < e1 - i ==> #[trigger] s.subrange(i, e)[x] == ip[x]);
        assert(s.subrange(i, e)[e1 - i] == s[e1]);
        assert(forall|x: int| 0 <= x < e2 - e1 - 1 ==> #[trigger] s.subrange(i, e)[e1 - i + 1
            + x] == fp[x]);
    }
}

/// Only renderings parse, numeric piece: what the plain number parser
/// consumed is the rendering of the value it returned.
pub proof fn lemma_u64_sound(s: Seq<char>, i: int)
    requires
        0 <= i <= s.len(),
        spec_parse_u64_at(s, i) is Some,
    ensures
        ({
            let (n, e) = spec_parse_u64_at(s, i)->0;
            &&& 0 <= i <= e <= s.len()
            &&& e == i + dec_digits(n as nat).len()
            &&& s.subrange(i, e) == dec_digits(n as nat)
        }),
{
    let (n, e) = spec_parse_u64_at(s, i)->0;
    lemma_digits_end_bounds(s, i);
    crate::decimal::lemma_canon_digits_inverse(s.subrange(i, e));
}

/// The parts of a read-path cache entry or response payload, at the
/// specification level.
pub struct PayloadParts {
    pub url: Seq<char>,
    pub f: Seq<char>,
    pub s_hundredths: u64,
    pub t: u64,
    pub d: Seq<char>,
    pub p: Seq<char>,
    pub cached: bool,
}

/// The serialized form of a read-path payload; the cache-hit marker is
/// appended only on responses served from the cache.
pub open spec fn spec_render_payload(parts: PayloadParts) -> Seq<char> {
    "{\"url\":\""@ + json_escaped(parts.url) + "\",\"f\":\""@ + json_escaped(parts.f)
        + "\",\"s\":"@ + mb_digits(parts.s_hundredths as nat) + ",\"t\":"@ + dec_digits(
        parts.t as nat,
    ) + ",\"d\":\""@ + json_escaped(parts.d) + "\",\"p\":\""@ + json_escaped(parts.p) + (
    if parts.cached {
        "\",\"c\":1}"@
    } else {
        "\"}"@
    })
}

/// What the payload parser accepts: exactly the rendered forms.
pub open spec fn spec_parse_payload(s: Seq<char>) -> Option<PayloadParts> {
    let p0 = "{\"url\":\""@;
    if s.len() < p0.len() || s.take(p0.len() as int) != p0 {
        None
    } else {
        match scan_string(s, p0.len() as int) {
            None => None,
            Some((url, j1)) => {
                if !(j1 + 6 <= s.len() && s.subrange(j1, j1 + 6) == ",\"f\":\""@) {
                    None
                } else {
                    match scan_string(s, j1 + 6) {
                        None => None,
                        Some((f, j2)) => {
                            if !(j2 + 5 <= s.len() && s.subrange(j2, j2 + 5) == ",\"s\":"@) {
                                None
                            } else {
                                match spec_parse_mb_at(s, j2 + 5) {
                                    None => None,
                                    Some((sh, e1)) => {
                                        if !(e1 + 5 <= s.len() && s.subrange(e1, e1 + 5)
                                            == ",\"t\":"@) {
                                            None
                                        } else {
                                            match spec_parse_u64_at(s, e1 + 5) {
                                                None => None,
                                                Some((t, e2)) => spec_parse_payload_rest(
                                                    s,
                                                    url,
                                                    f,
                                                    sh,
                                                    t,
                                                    e2,
                                                ),
                                            }
                                        }
                                    },
                                }
                            }
                        },
                    }
                }
            },
        }
    }
}

/// Continues `spec_parse_payload` after the numeric fields.
pub open spec fn spec_parse_payload_rest(
    s: Seq<char>,
    url: Seq<char>,
    f: Seq<char>,
    sh: u64,
    t: u64,
    e2: int,
) -> Option<PayloadParts> {
    if !(0 <= e2 && e2 + 6 <= s.len() && s.subrange(e2, e2 + 6) == ",\"d\":\""@) {
        None
    } else {
        match scan_string(s, e2 + 6) {
            None => None,
            Some((d, j3)) => {
                if !(j3 + 6 <= s.len() && s.subrange(j3, j3 + 6) == ",\"p\":\""@) {
                    None
                } else {
                    match scan_string(s, j3 + 6) {
                        None => None,
                        Some((p, j4)) => {
                            if s.len() == j4 + 1 && s[j4] == '}' {
                                Some(
                                    PayloadParts {
                                        url,
                                        f,
                                        s_hundredths: sh,
                                        t,
                                        d,
                                        p,
                                        cached: false,
                                    },
                                )
                            } else if s.len() == j4 + 7 && s.subrange(j4, j4 + 7)
                                == ",\"c\":1}"@ {
                                Some(
                                    PayloadParts {
                                        url,
                                        f,
                                        s_hundredths: sh,
                                        t,
                                        d,
                                        p,
                                        cached: true,
                                    },
                                )
                            } else {
                                None
                            }
                        },
                    }
                }
            },
        }
    }
}


/// A suffix of `s` splits at any interior point.
proof fn lemma_skip_split(s: Seq<char>, a: int, b: int)
    requires
        0 <= a <= b <= s.len(),
    ensures
        s.skip(a) == s.subrange(a, b) + s.skip(b),
{
    assert(s.skip(a) =~= s.subrange(a, b) + s.skip(b));
}

/// Only renderings parse, segment piece: the payload parser's consumed
/// segments are the rendered fragments of the parts it returns.
#[verifier::rlimit(100)]
proof fn lemma_payload_sound_segments(s: Seq<char>)
    requires
        spec_parse_payload(s) is Some,
    ensures
        ({
            let parts = spec_parse_payload(s)->0;
            let eu = json_escaped(parts.url);
            let ef = json_escaped(parts.f);
            let mb = mb_digits(parts.s_hundredths as nat);
            let td = dec_digits(parts.t as nat);
            let ed = json_escaped(parts.d);
            let ep = json_escaped(parts.p);
            let q = seq!['"'];
            let j1 = 9 + eu.len() as int;
            let j2 = j1 + 7 + ef.len() as int;
            let e1 = j2 + 5 + mb.len() as int;
            let e2 = e1 + 5 + td.len() as int;
            let j3 = e2 + 7 + ed.len() as int;
            let j4 = j3 + 7 + ep.len() as int;
            &&& j4 <= s.len()
            &&& s.subrange(0, 8) == "{\"url\":\""@
            &&& s.subrange(8, j1) == eu + q
            &&& s.subrange(j1, j1 + 6) == ",\"f\":\""@
            &&& s.subrange(j1 + 6, j2) == ef + q
            &&& s.subrange(j2, j2 + 5) == ",\"s\":"@
            &&& s.subrange(j2 + 5, e1) == mb
            &&& s.subrange(e1, e1 + 5) == ",\"t\":"@
            &&& s.subrange(e1 + 5, e2) == td
            &&& s.subrange(e2, e2 + 6) == ",\"d\":\""@
            &&& s.subrange(e2 + 6, j3) == ed + q
            &&& s.subrange(j3, j3 + 6) == ",\"p\":\""@
            &&& s.subrange(j3 + 6, j4) == ep + q
            &&& s.skip(j4) == (if parts.cached {
                ",\"c\":1}"@
            } else {
                "}"@
            })
        }),
{
    reveal_strlit("{\"url\":\"");
    reveal_strlit(",\"f\":\"");
    reveal_strlit(",\"s\":");
    reveal_strlit(",\"t\":");
    reveal_strlit(",\"d\":\"");
    reveal_strlit(",\"p\":\"");
    reveal_strlit(",\"c\":1}");
    reveal_strlit("}");
    let parts = spec_parse_payload(s)->0;
    assert(s.take(8) == "{\"url\":\""@);
    assert(s.subrange(0, 8) =~= s.take(8));
    lemma_scan_sound(s, 8);
    let (url, j1) = scan_string(s, 8)->0;
    lemma_scan_sound(s, j1 + 6);
    let (f, j2) = scan_string(s, j1 + 6)->0;
    lemma_mb_sound(s, j2 + 5);
    let (sh, e1) = spec_parse_mb_at(s, j2 + 5)->0;
    lemma_u64_sound(s, e1 + 5);
    let (t, e2) = spec_parse_u64_at(s, e1 + 5)->0;
    lemma_scan_sound(s, e2 + 6);
    let (d, j3) = scan_string(s, e2 + 6)->0;
    lemma_scan_sound(s, j3 + 6);
    let (p, j4) = scan_string(s, j3 + 6)->0;
    assert(url == parts.url && f == parts.f && sh == parts.s_hundredths && t == parts.t && d
        == parts.d && p == parts.p);
    assert(s.skip(j4) =~= (if parts.cached {
        ",\"c\":1}"@
    } else {
        "}"@
    })) by {
        if parts.cached {
            assert(s.len() == j4 + 7 && s.subrange(j4, j4 + 7) == ",\"c\":1}"@);
            assert(forall|x: int| 0 <= x < 7 ==> #[trigger] s.skip(j4)[x] == s.subrange(j4, j4
                + 7)[x]);
        } else {
            assert(s.len() == j4 + 1 && s[j4] == '}');
        }
    }
}

/// The rendered payload, regrouped at the scanner's segment boundaries.
#[verifier::rlimit(100)]
proof fn lemma_render_payload_shape(parts: PayloadParts)
    ensures
        spec_render_payload(parts) == "{\"url\":\""@ + ((json_escaped(parts.url) + seq!['"']) + (
        ",\"f\":\""@ + ((json_escaped(parts.f) + seq!['"']) + (",\"s\":"@ + (mb_digits(
            parts.s_hundredths as nat,
        ) + (",\"t\":"@ + (dec_digits(parts.t as nat) + (",\"d\":\""@ + ((json_escaped(parts.d)
            + seq!['"']) + (",\"p\":\""@ + ((json_escaped(parts.p) + seq!['"']) + (
        if parts.cached {
            ",\"c\":1}"@
        } else {
            "}"@
        })))))))))))),
{
    reveal_strlit("{\"url\":\"");
    reveal_strlit("\",\"f\":\"");
    reveal_strlit(",\"f\":\"");
    reveal_strlit("\",\"s\":");
    reveal_strlit(",\"s\":");
    reveal_strlit(",\"t\":");
    reveal_strlit(",\"d\":\"");
    reveal_strlit("\",\"p\":\"");
    reveal_strlit(",\"p\":\"");
    reveal_strlit("\",\"c\":1}");
    reveal_strlit(",\"c\":1}");
    reveal_strlit("\"}");
    reveal_strlit("}");
    assert(spec_render_payload(parts) =~= "{\"url\":\""@ + ((json_escaped(parts.url)
        + seq!['"']) + (",\"f\":\""@ + ((json_escaped(parts.f) + seq!['"']) + (",\"s\":"@ + (
    mb_digits(parts.s_hundredths as nat) + (",\"t\":"@ + (dec_digits(parts.t as nat) + (
    ",\"d\":\""@ + ((json_escaped(parts.d) + seq!['"']) + (",\"p\":\""@ + ((json_escaped(parts.p)
        + seq!['"']) + (if parts.cached {
        ",\"c\":1}"@
    } else {
        "}"@
    })))))))))))));
}

/// Only renderings parse: a string the payload parser accepts is the
/// rendering of exactly the parts it returns.
#[verifier::rlimit(100)]
pub proof fn lemma_payload_parse_sound(s: Seq<char>)
    requires
        spec_parse_payload(s) is Some,
    ensures
        s == spec_render_payload(spec_parse_payload(s)->0),
{
    lemma_payload_sound_segments(s);
    let parts = spec_parse_payload(s)->0;
    let p0 = "{\"url\":\""@;
    let l1 = ",\"f\":\""@;
    let l2 = ",\"s\":"@;
    let l3 = ",\"t\":"@;
    let l4 = ",\"d\":\""@;
    let l5 = ",\"p\":\""@;
    let q = seq!['"'];
    let eu = json_escaped(parts.url);
    let ef = json_escaped(parts.f);
    let ed = json_escaped(parts.d);
    let ep = json_escaped(parts.p);
    let mb = mb_digits(parts.s_hundredths as nat);
    let td = dec_digits(parts.t as nat);
    let tl = if parts.cached {
        ",\"c\":1}"@
    } else {
        "}"@
    };
    let j1 = 9 + eu.len() as int;
    let j2 = j1 + 7 + ef.len() as int;
    let e1 = j2 + 5 + mb.len() as int;
    let e2 = e1 + 5 + td.len() as int;
    let j3 = e2 + 7 + ed.len() as int;
    let j4 = j3 + 7 + ep.len() as int;
    lemma_skip_split(s, j3 + 6, j4);
    lemma_skip_split(s, j3, j3 + 6);
    lemma_skip_split(s, e2 + 6, j3);
    lemma_skip_split(s, e2, e2 + 6);
    lemma_skip_split(s, e1 + 5, e2);
    lemma_skip_split(s, e1, e1 + 5);
    lemma_skip_split(s, j2 + 5, e1);
    lemma_skip_split(s, j2, j2 + 5);
    lemma_skip_split(s, j1 + 6, j2);
    lemma_skip_split(s, j1, j1 + 6);
    lemma_skip_split(s, 8, j1);
    lemma_skip_split(s, 0, 8);
    assert(s.skip(0) =~= s);
    assert(s == p0 + ((eu + q) + (l1 + ((ef + q) + (l2 + (mb + (l3 + (td + (l4 + ((ed + q) + (
    l5 + ((ep + q) + tl))))))))))));
    lemma_render_payload_shape(parts);
}

/// The specification-level parts of an `ImageResponsePayload`.
pub open spec fn payload_parts_of(pl: crate::models::ImageResponsePayload) -> PayloadParts {
    PayloadParts {
        url: pl.url@,
        f: pl.f@,
        s_hundredths: pl.s_hundredths,
        t: pl.t,
        d: pl.d@,
        p: pl.p@,
        cached: pl.c is Some,
    }
}

/// Renders a read-path payload record.
pub fn render_payload(pl: &crate::models::ImageResponsePayload) -> (r: Vec<char>)
    ensures
        r@ == spec_render_payload(payload_parts_of(*pl)),
{
    let mut out = chars_of("{\"url\":\"");
    let url_chars = chars_of(pl.url.as_str());
    let mut seg = escape_chars(&url_chars);
    out.append(&mut seg);
    let mut lit = chars_of("\",\"f\":\"");
    out.append(&mut lit);
    let f_chars = chars_of(pl.f.as_str());
    let mut seg2 = escape_chars(&f_chars);
    out.append(&mut seg2);
    let mut lit2 = chars_of("\",\"s\":");
    out.append(&mut lit2);
    let mut mbv = render_mb(pl.s_hundredths);
    out.append(&mut mbv);
    let mut lit3 = chars_of(",\"t\":");
    out.append(&mut lit3);
    let mut tv = u64_to_dec_chars(pl.t);
    out.append(&mut tv);
    let mut lit4 = chars_of(",\"d\":\"");
    out.append(&mut lit4);
    let d_chars = chars_of(pl.d.as_str());
    let mut seg3 = escape_chars(&d_chars);
    out.append(&mut seg3);
    let mut lit5 = chars_of("\",\"p\":\"");
    out.append(&mut lit5);
    let p_chars = chars_of(pl.p.as_str());
    let mut seg4 = escape_chars(&p_chars);
    out.append(&mut seg4);
    if pl.c.is_some() {
        let mut tl = chars_of("\",\"c\":1}");
        out.append(&mut tl);
    } else {
        let mut tl = chars_of("\"}");
        out.append(&mut tl);
    }
    proof {
        assert(out@ =~= spec_render_payload(payload_parts_of(*pl)));
    }
    out
}

/// Parses a read-path payload record; accepts exactly what `render_payload`
/// writes, and reports the cache-hit marker as `Some(1)`.
pub fn parse_payload(s: &str) -> (r: Option<crate::models::ImageResponsePayload>)
    ensures
        match r {
            Some(pl) => spec_parse_payload(s@) == Some(payload_parts_of(pl)) && (pl.c is Some
                ==> pl.c == Some(1u8)),
            None => spec_parse_payload(s@) is None,
        },
{
    let v = chars_of(s);
    let ghost sq = v@;
    proof {
        reveal_strlit("{\"url\":\"");
        reveal_strlit(",\"f\":\"");
        reveal_strlit(",\"s\":");
        reveal_strlit(",\"t\":");
        reveal_strlit(",\"d\":\"");
        reveal_strlit(",\"p\":\"");
        reveal_strlit(",\"c\":1}");
        reveal_strlit("}");
    }
    if !match_lit(&v, 0, "{\"url\":\"") {
        proof {
            assert(sq.subrange(0, 8) == sq.take(8));
        }
        return None;
    }
    proof {
        assert(sq.subrange(0, 8) == sq.take(8));
    }
    let (url, j1) = match scan_string_exec(&v, 8) {
        Some(r) => r,
        None => {
            return None;
        },
    };
    if !match_lit(&v, j1, ",\"f\":\"") {
        return None;
    }
    let (f, j2) = match scan_string_exec(&v, j1 + 6) {
        Some(r) => r,
        None => {
            return None;
        },
    };
    if !match_lit(&v, j2, ",\"s\":") {
        return None;
    }
    let (sh, e1) = match parse_mb_at(&v, j2 + 5) {
        Some(r) => r,
        None => {
            return None;
        },
    };
    if !match_lit(&v, e1, ",\"t\":") {
        return None;
    }
    let (t, e2) = match parse_u64_at(&v, e1 + 5) {
        Some(r) => r,
        None => {
            return None;
        },
    };
    if !match_lit(&v, e2, ",\"d\":\"") {
        return None;
    }
    let (d, j3) = match scan_string_exec(&v, e2 + 6) {
        Some(r) => r,
        None => {
            return None;
        },
    };
    if !match_lit(&v, j3, ",\"p\":\"") {
        return None;
    }
    let (p, j4) = match scan_string_exec(&v, j3 + 6) {
        Some(r) => r,
        None => {
            return None;
        },
    };
    let cached: bool;
    if v.len() - j4 == 1 {
        let cb = v[j4];
        if cb == '}' {
            cached = false;
        } else {
            proof {
                assert(sq.len() != j4 + 7);
            }
            return None;
        }
    } else if match_lit(&v, j4, ",\"c\":1}") {
        if v.len() - j4 == 7 {
            cached = true;
        } else {
            proof {
                assert(sq.len() != j4 + 1);
            }
            return None;
        }
    } else {
        proof {
            if sq.len() == j4 + 7 {
                assert(!(j4 + 7 <= sq.len() && sq.subrange(j4 as int, j4 + 7) == ",\"c\":1}"@));
            }
        }
        return None;
    }
    let pl = crate::models::ImageResponsePayload {
        url: crate::text::string_of_chars(&url),
        f: crate::text::string_of_chars(&f),
        s_hundredths: sh,
        t,
        d: crate::text::string_of_chars(&d),
        p: crate::text::string_of_chars(&p),
        c: if cached {
            Some(1u8)
        } else {
            None
        },
    };
    Some(pl)
}

/// Splitting a suffix of `s` at a known concatenation point.
pub proof fn lemma_skip_concat(s: Seq<char>, i: int, a: Seq<char>, b: Seq<char>)
    requires
        0 <= i <= s.len(),
        s.skip(i) == a + b,
    ensures
        i + a.len() <= s.len(),
        s.skip(i + a.len()) == b,
        s.subrange(i, i + a.len()) == a,
{
    let n = a.len() as int;
    assert(s.skip(i).len() == a.len() + b.len());
    assert forall|x: int| 0 <= x < b.len() implies s.skip(i + n)[x] == b[x] by {
        assert(s.skip(i + n)[x] == s[i + n + x]);
        assert(s.skip(i)[n + x] == s[i + n + x]);
        assert((a + b)[n + x] == b[x]);
    }
    assert(s.skip(i + n) =~= b);
    assert forall|x: int| 0 <= x < n implies s.subrange(i, i + n)[x] == a[x] by {
        assert(s.subrange(i, i + n)[x] == s[i + x]);
        assert(s.skip(i)[x] == s[i + x]);
        assert((a + b)[x] == a[x]);
    }
    assert(s.subrange(i, i + n) =~= a);
}

/// Round trip for the back half of a payload record.
proof fn lemma_payload_rest_round_trip(parts: PayloadParts, s: Seq<char>, e2: int)
    requires
        0 <= e2 <= s.len(),
        s.skip(e2) == ",\"d\":\""@ + json_escaped(parts.d) + seq!['"'] + (",\"p\":\""@
            + json_escaped(parts.p) + seq!['"'] + (if parts.cached {
            ",\"c\":1}"@
        } else {
            "}"@
        })),
    ensures
        spec_parse_payload_rest(s, parts.url, parts.f, parts.s_hundredths, parts.t, e2)
            == Some(parts),
{
    reveal_strlit(",\"d\":\"");
    reveal_strlit(",\"p\":\"");
    reveal_strlit(",\"c\":1}");
    reveal_strlit("}");
    let l4 = ",\"d\":\""@;
    let l5 = ",\"p\":\""@;
    let tl = if parts.cached {
        ",\"c\":1}"@
    } else {
        "}"@
    };
    let ed = json_escaped(parts.d);
    let ep = json_escaped(parts.p);
    let q = seq!['"'];
    let r5 = l5 + ep + q + tl;
    assert(s.skip(e2) =~= l4 + (ed + q + r5));
    lemma_skip_concat(s, e2, l4, ed + q + r5);
    assert(s.subrange(e2, e2 + 6) == l4);
    lemma_scan_escaped(parts.d, r5, s, e2 + 6);
    let j3: int = e2 + 6 + ed.len() as int + 1;
    assert(scan_string(s, e2 + 6) == Some((parts.d, j3)));
    assert(ed + q + r5 =~= (ed + q) + r5);
    lemma_skip_concat(s, e2 + 6, ed + q, r5);
    assert(s.skip(j3) == r5);
    assert(r5 =~= l5 + (ep + q + tl));
    lemma_skip_concat(s, j3, l5, ep + q + tl);
    assert(s.subrange(j3, j3 + 6) == l5);
    lemma_scan_escaped(parts.p, tl, s, j3 + 6);
    let j4: int = j3 + 6 + ep.len() as int + 1;
    assert(scan_string(s, j3 + 6) == Some((parts.p, j4)));
    assert(ep + q + tl =~= (ep + q) + tl);
    lemma_skip_concat(s, j3 + 6, ep + q, tl);
    assert(s.skip(j4) == tl);
    if parts.cached {
        assert(tl.len() == 7);
        assert(s.len() == j4 + 7);
        assert(s.subrange(j4, j4 + 7) =~= tl) by {
            assert(forall|x: int| 0 <= x < 7 ==> #[trigger] s.subrange(j4, j4 + 7)[x]
                == s.skip(j4)[x]);
        }
        assert(s.len() != j4 + 1);
    } else {
        assert(tl.len() == 1);
        assert(s.len() == j4 + 1);
        assert(s[j4] == s.skip(j4)[0]);
        assert(s[j4] == '}');
    }
}

/// Round trip for the opening of a payload record: prefix and the two
/// string fields.
#[verifier::rlimit(100)]
proof fn lemma_payload_seg1(parts: PayloadParts)
    ensures
        ({
            let s = spec_render_payload(parts);
            let eu = json_escaped(parts.url);
            let ef = json_escaped(parts.f);
            let j1 = 9 + eu.len() as int;
            let j2 = j1 + 7 + ef.len() as int;
            &&& s.len() >= 8
            &&& s.take(8) == "{\"url\":\""@
            &&& scan_string(s, 8) == Some((parts.url, j1))
            &&& j1 + 6 <= s.len()
            &&& s.subrange(j1, j1 + 6) == ",\"f\":\""@
            &&& scan_string(s, j1 + 6) == Some((parts.f, j2))
            &&& 0 <= j2 <= s.len()
            &&& s.skip(j2) == ",\"s\":"@ + (mb_digits(parts.s_hundredths as nat) + (",\"t\":"@
                + (dec_digits(parts.t as nat) + (",\"d\":\""@ + (json_escaped(parts.d)
                + seq!['"'] + (",\"p\":\""@ + json_escaped(parts.p) + seq!['"'] + (
            if parts.cached {
                ",\"c\":1}"@
            } else {
                "}"@
            })))))))
        }),
{
    let s = spec_render_payload(parts);
    reveal_strlit("{\"url\":\"");
    reveal_strlit("\",\"f\":\"");
    reveal_strlit(",\"f\":\"");
    reveal_strlit("\",\"s\":");
    reveal_strlit(",\"s\":");
    reveal_strlit(",\"t\":");
    reveal_strlit(",\"d\":\"");
    reveal_strlit("\",\"p\":\"");
    reveal_strlit(",\"p\":\"");
    reveal_strlit("\",\"c\":1}");
    reveal_strlit(",\"c\":1}");
    reveal_strlit("\"}");
    reveal_strlit("}");
    let a0 = "{\"url\":\""@;
    let l1 = ",\"f\":\""@;
    let l2 = ",\"s\":"@;
    let l3 = ",\"t\":"@;
    let l4 = ",\"d\":\""@;
    let l5 = ",\"p\":\""@;
    let tl = if parts.cached {
        ",\"c\":1}"@
    } else {
        "}"@
    };
    let eu = json_escaped(parts.url);
    let ef = json_escaped(parts.f);
    let ed = json_escaped(parts.d);
    let ep = json_escaped(parts.p);
    let mb = mb_digits(parts.s_hundredths as nat);
    let td = dec_digits(parts.t as nat);
    let q = seq!['"'];
    let r5 = l5 + ep + q + tl;
    let r4 = l4 + (ed + q + r5);
    let r3m = l3 + (td + r4);
    let r2 = l2 + (mb + r3m);
    let r1 = l1 + (ef + q + r2);
    let r0 = eu + q + r1;
    assert(s =~= a0 + r0);
    assert(s.skip(0) =~= s);
    lemma_skip_concat(s, 0, a0, r0);
    assert(s.take(8) =~= s.subrange(0, 8));
    assert(s.take(a0.len() as int) == a0);
    assert(s.skip(8) == r0);
    lemma_scan_escaped(parts.url, r1, s, 8);
    let j1: int = 9 + eu.len() as int;
    assert(scan_string(s, 8) == Some((parts.url, j1)));
    assert(r0 =~= (eu + q) + r1);
    lemma_skip_concat(s, 8, eu + q, r1);
    assert(s.skip(j1) == r1);
    lemma_skip_concat(s, j1, l1, ef + q + r2);
    assert(s.subrange(j1, j1 + 6) == l1);
    lemma_scan_escaped(parts.f, r2, s, j1 + 6);
    let j2: int = j1 + 7 + ef.len() as int;
    assert(scan_string(s, j1 + 6) == Some((parts.f, j2)));
    assert(ef + q + r2 =~= (ef + q) + r2);
    lemma_skip_concat(s, j1 + 6, ef + q, r2);
    assert(s.skip(j2) == r2);
}

/// Round trip for the front half of a payload record: prefix, url, f and
/// the two numeric fields.
#[verifier::rlimit(100)]
proof fn lemma_payload_front(parts: PayloadParts)
    ensures
        ({
            let s = spec_render_payload(parts);
            let eu = json_escaped(parts.url);
            let ef = json_escaped(parts.f);
            let mb = mb_digits(parts.s_hundredths as nat);
            let td = dec_digits(parts.t as nat);
            let j1 = 9 + eu.len() as int;
            let j2 = j1 + 7 + ef.len() as int;
            let e1 = j2 + 5 + mb.len() as int;
            let e2 = e1 + 5 + td.len() as int;
            &&& s.len() >= 8
            &&& s.take(8) == "{\"url\":\""@
            &&& scan_string(s, 8) == Some((parts.url, j1))
            &&& j1 + 6 <= s.len()
            &&& s.subrange(j1, j1 + 6) == ",\"f\":\""@
            &&& scan_string(s, j1 + 6) == Some((parts.f, j2))
            &&& j2 + 5 <= s.len()
            &&& s.subrange(j2, j2 + 5) == ",\"s\":"@
            &&& spec_parse_mb_at(s, j2 + 5) == Some((parts.s_hundredths, e1))
            &&& e1 + 5 <= s.len()
            &&& s.subrange(e1, e1 + 5) == ",\"t\":"@
            &&& spec_parse_u64_at(s, e1 + 5) == Some((parts.t, e2))
            &&& 0 <= e2 <= s.len()
            &&& s.skip(e2) == ",\"d\":\""@ + json_escaped(parts.d) + seq!['"'] + (",\"p\":\""@
                + json_escaped(parts.p) + seq!['"'] + (if parts.cached {
                ",\"c\":1}"@
            } else {
                "}"@
            }))
        }),
{
    lemma_payload_seg1(parts);
    let s = spec_render_payload(parts);
    reveal_strlit(",\"s\":");
    reveal_strlit(",\"t\":");
    reveal_strlit(",\"d\":\"");
    reveal_strlit(",\"p\":\"");
    reveal_strlit(",\"c\":1}");
    reveal_strlit("}");
    let l2 = ",\"s\":"@;
    let l3 = ",\"t\":"@;
    let l4 = ",\"d\":\""@;
    let l5 = ",\"p\":\""@;
    let tl = if parts.cached {
        ",\"c\":1}"@
    } else {
        "}"@
    };
    let eu = json_escaped(parts.url);
    let ef = json_escaped(parts.f);
    let ed = json_escaped(parts.d);
    let ep = json_escaped(parts.p);
    let mb = mb_digits(parts.s_hundredths as nat);
    let td = dec_digits(parts.t as nat);
    let q = seq!['"'];
    let r5 = l5 + ep + q + tl;
    let r4 = l4 + (ed + q + r5);
    let r3m = l3 + (td + r4);
    let j1: int = 9 + eu.len() as int;
    let j2: int = j1 + 7 + ef.len() as int;
    assert(s.skip(j2) == l2 + (mb + r3m));
    lemma_skip_concat(s, j2, l2, mb + r3m);
    assert(s.subrange(j2, j2 + 5) == l2);
    assert(s.skip(j2 + 5) == mb + r3m);
    assert(r3m[0] == ',');
    assert(!is_digit(',') && ',' != '.');
    lemma_mb_at(s, j2 + 5, parts.s_hundredths, r3m);
    let e1: int = j2 + 5 + mb.len() as int;
    assert(spec_parse_mb_at(s, j2 + 5) == Some((parts.s_hundredths, e1)));
    lemma_skip_concat(s, j2 + 5, mb, r3m);
    assert(s.skip(e1) == r3m);
    lemma_skip_concat(s, e1, l3, td + r4);
    assert(s.subrange(e1, e1 + 5) == l3);
    assert(s.skip(e1 + 5) == td + r4);
    assert(r4[0] == ',');
    assert(!is_digit(','));
    lemma_u64_at(s, e1 + 5, parts.t, r4);
    let e2: int = e1 + 5 + td.len() as int;
    assert(spec_parse_u64_at(s, e1 + 5) == Some((parts.t, e2)));
    lemma_skip_concat(s, e1 + 5, td, r4);
    assert(s.skip(e2) == r4);
    assert(r4 =~= l4 + ed + q + r5);
}

/// Round trip: a rendered payload record parses back to exactly its parts.
pub proof fn lemma_payload_round_trip(parts: PayloadParts)
    ensures
        spec_parse_payload(spec_render_payload(parts)) == Some(parts),
{
    let s = spec_render_payload(parts);
    reveal_strlit("{\"url\":\"");
    lemma_payload_front(parts);
    let eu = json_escaped(parts.url);
    let ef = json_escaped(parts.f);
    let mb = mb_digits(parts.s_hundredths as nat);
    let td = dec_digits(parts.t as nat);
    let j1: int = 9 + eu.len() as int;
    let j2: int = j1 + 7 + ef.len() as int;
    let e1: int = j2 + 5 + mb.len() as int;
    let e2: int = e1 + 5 + td.len() as int;
    assert(s.take("{\"url\":\""@.len() as int) == "{\"url\":\""@);
    lemma_payload_rest_round_trip(parts, s, e2);
}


/// The serialized reply to a successful transfer creation.
pub open spec fn spec_render_transfer_response(
    ok: u8,
    id: Seq<char>,
    upload_url: Seq<char>,
    key: Seq<char>,
) -> Seq<char> {
    "{\"ok\":"@ + dec_digits(ok as nat) + ",\"id\":\""@ + json_escaped(id) + "\",\"uploadUrl\":\""@
        + json_escaped(upload_url) + "\",\"key\":\""@ + json_escaped(key) + "\"}"@
}

/// Renders the reply to a successful transfer creation.
pub fn render_transfer_response(resp: &crate::models::TransferResponse) -> (r: String)
    ensures
        r@ == spec_render_transfer_response(resp.ok, resp.id@, resp.upload_url@, resp.key@),
{
    let mut out = chars_of("{\"ok\":");
    let mut okv = u64_to_dec_chars(resp.ok as u64);
    out.append(&mut okv);
    let mut lit = chars_of(",\"id\":\"");
    out.append(&mut lit);
    let idc = chars_of(resp.id.as_str());
    let mut seg = escape_chars(&idc);
    out.append(&mut seg);
    let mut lit2 = chars_of("\",\"uploadUrl\":\"");
    out.append(&mut lit2);
    let uc = chars_of(resp.upload_url.as_str());
    let mut seg2 = escape_chars(&uc);
    out.append(&mut seg2);
    let mut lit3 = chars_of("\",\"key\":\"");
    out.append(&mut lit3);
    let kc = chars_of(resp.key.as_str());
    let mut seg3 = escape_chars(&kc);
    out.append(&mut seg3);
    let mut lit4 = chars_of("\"}");
    out.append(&mut lit4);
    proof {
        assert(out@ =~= spec_render_transfer_response(resp.ok, resp.id@, resp.upload_url@,
            resp.key@));
    }
    crate::text::string_of_chars(&out)
}

/// The serialized reply to a successful completion.
pub open spec fn spec_render_complete_response(ok: u8, id: Seq<char>) -> Seq<char> {
    "{\"ok\":"@ + dec_digits(ok as nat) + ",\"id\":\""@ + json_escaped(id) + "\"}"@
}

/// Renders the reply to a successful completion.
pub fn render_complete_response(resp: &crate::models::CompleteResponse) -> (r: String)
    ensures
        r@ == spec_render_complete_response(resp.ok, resp.id@),
{
    let mut out = chars_of("{\"ok\":");
    let mut okv = u64_to_dec_chars(resp.ok as u64);
    out.append(&mut okv);
    let mut lit = chars_of(",\"id\":\"");
    out.append(&mut lit);
    let idc = chars_of(resp.id.as_str());
    let mut seg = escape_chars(&idc);
    out.append(&mut seg);
    let mut lit2 = chars_of("\"}");
    out.append(&mut lit2);
    proof {
        assert(out@ =~= spec_render_complete_response(resp.ok, resp.id@));
    }
    crate::text::string_of_chars(&out)
}

/// The serialized obfuscated retrieval reply: just the hex envelope.
pub open spec fn spec_render_obfuscated(ok: u8, payload: Seq<char>) -> Seq<char> {
    "{\"ok\":"@ + dec_digits(ok as nat) + ",\"payload\":\""@ + json_escaped(payload) + "\"}"@
}

/// Renders the obfuscated retrieval reply around a hex envelope.
pub fn render_obfuscated(ok: u8, payload: &str) -> (r: String)
    ensures
        r@ == spec_render_obfuscated(ok, payload@),
{
    let mut out = chars_of("{\"ok\":");
    let mut okv = u64_to_dec_chars(ok as u64);
    out.append(&mut okv);
    let mut lit = chars_of(",\"payload\":\"");
    out.append(&mut lit);
    let pc = chars_of(payload);
    let mut seg = escape_chars(&pc);
    out.append(&mut seg);
    let mut lit2 = chars_of("\"}");
    out.append(&mut lit2);
    proof {
        assert(out@ =~= spec_render_obfuscated(ok, payload@));
    }
    crate::text::string_of_chars(&out)
}

/// The serialized health reply.
pub open spec fn spec_render_health(ok: u8) -> Seq<char> {
    "{\"ok\":"@ + dec_digits(ok as nat) + "}"@
}

/// Renders the health reply.
pub fn render_health(resp: &crate::models::HealthResponse) -> (r: String)
    ensures
        r@ == spec_render_health(resp.ok),
{
    let mut out = chars_of("{\"ok\":");
    let mut okv = u64_to_dec_chars(resp.ok as u64);
    out.append(&mut okv);
    let mut lit = chars_of("}");
    out.append(&mut lit);
    proof {
        assert(out@ =~= spec_render_health(resp.ok));
    }
    crate::text::string_of_chars(&out)
}

/// The serialized error body: `ok` zero and the error's message.
pub open spec fn spec_render_error(msg: Seq<char>) -> Seq<char> {
    "{\"ok\":0,\"e\":\""@ + json_escaped(msg) + "\"}"@
}

/// Renders the error body for an error's client-visible message.
pub fn render_error_body(e: &crate::models::AppError) -> (r: String)
    ensures
        r@ == spec_render_error(e.spec_message()),
{
    let msg = e.message();
    let mut out = chars_of("{\"ok\":0,\"e\":\"");
    let mc = chars_of(msg.as_str());
    let mut seg = escape_chars(&mc);
    out.append(&mut seg);
    let mut lit = chars_of("\"}");
    out.append(&mut lit);
    proof {
        assert(out@ =~= spec_render_error(e.spec_message()));
    }
    crate::text::string_of_chars(&out)
}

} // verus!
