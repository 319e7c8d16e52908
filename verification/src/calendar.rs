//! Calendar utility: turns an instant in epoch seconds into the `YYYYMMDD`
//! partition key and the epoch-seconds timestamp, with the proleptic
//! Gregorian conversion done by the table-free, division-based day-count
//! algorithm.

use vstd::prelude::*;
use crate::decimal::{dec_digits, digit_char, digit_char_of, u64_to_dec_chars};
use crate::text::string_of_chars;

verus! {

/// The year, month and day that the division-based day-count algorithm
/// assigns to a day number counted from the epoch.
pub open spec fn spec_civil_from_days(days: nat) -> (nat, nat, nat) {
    let z = days + 719468;
    let era = z / 146097;
    let doe = z % 146097;
    let yoe = (doe - doe / 1460 + doe / 36524 - doe / 146096) / 365;
    let y0 = yoe + era * 400;
    let start = 365 * yoe + yoe / 4 - yoe / 100;
    let doy = if start <= doe && doe - start <= 365 {
        (doe - start) as nat
    } else {
        0
    };
    let mp = (5 * doy + 2) / 153;
    let d = (doy - (153 * mp + 2) / 5 + 1) as nat;
    let m = if mp < 10 {
        mp + 3
    } else {
        (mp - 9) as nat
    };
    let y = if m <= 2 {
        y0 + 1
    } else {
        y0
    };
    (y as nat, m, d)
}

/// Runs the day-count conversion.
pub fn civil_from_days(days: u64) -> (ymd: (u64, u64, u64))
    requires
        days <= u64::MAX - 719468,
    ensures
        (ymd.0 as nat, ymd.1 as nat, ymd.2 as nat) == spec_civil_from_days(days as nat),
        1 <= ymd.1 <= 12,
        1 <= ymd.2 <= 31,
{
    let z = days + 719468;
    let era = z / 146097;
    let doe = z % 146097;
    let yoe = (doe - doe / 1460 + doe / 36524 - doe / 146096) / 365;
    let y0 = yoe + era * 400;
    let start = 365 * yoe + yoe / 4 - yoe / 100;
    let doy: u64 = if start <= doe && doe - start <= 365 {
        doe - start
    } else {
        0
    };
    let mp = (5 * doy + 2) / 153;
    proof {
        assert(doy <= 365);
        assert(mp <= 11);
        vstd::arithmetic::div_mod::lemma_fundamental_div_mod((5 * doy + 2) as int, 153);
        assert(153 * mp <= 5 * doy + 2 < 153 * (mp + 1));
        vstd::arithmetic::div_mod::lemma_fundamental_div_mod((153 * mp + 2) as int, 5);
    }
    let off = (153 * mp + 2) / 5;
    proof {
        assert(5 * off <= 153 * mp + 2 < 5 * (off + 1));
        assert(off <= doy) by (nonlinear_arith)
            requires
                153 * mp <= 5 * doy + 2,
                5 * off <= 153 * mp + 2,
                0 <= doy,
                0 <= off,
        ;
        assert(doy - off <= 30) by (nonlinear_arith)
            requires
                5 * doy + 2 < 153 * (mp + 1),
                153 * mp + 2 < 5 * (off + 1),
                0 <= doy,
                0 <= off,
                0 <= mp,
        ;
    }
    let d = doy - off + 1;
    let m = if mp < 10 {
        mp + 3
    } else {
        mp - 9
    };
    let y = if m <= 2 {
        y0 + 1
    } else {
        y0
    };
    (y, m, d)
}

/// A two-digit, zero-padded decimal rendering (for months and days).
pub open spec fn padded2(n: nat) -> Seq<char>
    recommends
        n <= 99,
{
    if n < 10 {
        seq!['0', digit_char(n as int)]
    } else {
        dec_digits(n)
    }
}

/// The partition key for a calendar date: the year, then the zero-padded
/// month and day.
pub open spec fn spec_partition(y: nat, m: nat, d: nat) -> Seq<char> {
    dec_digits(y) + padded2(m) + padded2(d)
}

fn render_padded2(n: u64) -> (v: Vec<char>)
    requires
        n <= 99,
    ensures
        v@ == padded2(n as nat),
{
    let mut out: Vec<char> = Vec::new();
    if n < 10 {
        out.push('0');
        out.push(digit_char_of(n));
        proof {
            assert(out@ =~= padded2(n as nat));
        }
    } else {
        out = u64_to_dec_chars(n);
    }
    out
}

/// The `YYYYMMDD` partition key and the epoch-seconds timestamp of an
/// instant, as the storage key prefix and the persisted record use them.
pub fn instant_parts(secs: u64) -> (r: (String, u64))
    ensures
        ({
            let (y, m, d) = spec_civil_from_days((secs / 86400) as nat);
            r.0@ == spec_partition(y, m, d)
        }),
        r.1 == secs,
{
    let days = secs / 86400;
    proof {
        assert(days <= u64::MAX - 719468) by (nonlinear_arith)
            requires
                days == secs / 86400,
                secs <= u64::MAX,
        ;
    }
    let (y, m, d) = civil_from_days(days);
    let mut out = u64_to_dec_chars(y);
    let mut mm = render_padded2(m);
    out.append(&mut mm);
    let mut dd = render_padded2(d);
    out.append(&mut dd);
    let s = string_of_chars(&out);
    (s, secs)
}

} // verus!
