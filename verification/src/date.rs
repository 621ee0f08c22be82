//! Unix-epoch seconds to a civil `YYYY-MM-DD` date string, by the
//! proleptic-Gregorian day-count computation (era / year-of-era /
//! day-of-year from integer divisions), with no calendar library.

use vstd::prelude::*;

use crate::text::fmt_int_pad;
use crate::text::from_chars;
use crate::text::push_i64_padded;

verus! {

/// Division truncating toward zero, as Rust's `/` on signed integers.
pub open spec fn trunc_div(a: int, b: int) -> int {
    if a >= 0 {
        a / b
    } else {
        -((-a) / b)
    }
}

/// Division rounding toward negative infinity.
pub open spec fn floor_div(a: int, b: int) -> int {
    if a >= 0 {
        a / b
    } else {
        -((-a + b - 1) / b)
    }
}

/// The date string for `t` seconds since the Unix epoch: `"unknown"` for 0,
/// otherwise the civil date. Seconds become days by truncating division;
/// days are shifted so that era 0 begins March 1 of year 0; era,
/// year-of-era and day-of-year follow from integer divisions; the year is
/// bumped for January and February; the parts are zero-padded to 4-2-2.
pub open spec fn spec_unix_date(t: int) -> Seq<char> {
    if t == 0 {
        "unknown"@
    } else {
        let days = trunc_div(t, 86400) + 719468;
        let era = floor_div(days, 146097);
        let doe = days - era * 146097;
        let yoe = (doe - doe / 1460 + doe / 36524 - doe / 146096) / 365;
        let y0 = yoe + era * 400;
        let doy = doe - (365 * yoe + yoe / 4 - yoe / 100);
        let mp = trunc_div(5 * doy + 2, 153);
        let d = doy - trunc_div(153 * mp + 2, 5) + 1;
        let m = if mp < 10 {
            mp + 3
        } else {
            mp - 9
        };
        let y = if m <= 2 {
            y0 + 1
        } else {
            y0
        };
        fmt_int_pad(y, 4) + seq!['-'] + fmt_int_pad(m, 2) + seq!['-'] + fmt_int_pad(d, 2)
    }
}

/// Magnitude of an `i64` as a `u64`.
fn abs_u64(a: i64) -> (m: u64)
    ensures
        a >= 0 ==> m as int == a as int,
        a < 0 ==> m as int == -(a as int),
{
    if a == i64::MIN {
        9223372036854775808u64
    } else if a < 0 {
        (-a) as u64
    } else {
        a as u64
    }
}

fn div_trunc_i64(a: i64, b: i64) -> (r: i64)
    requires
        2 <= b <= 1000000,
    ensures
        r as int == trunc_div(a as int, b as int),
{
    if a >= 0 {
        let q = (a as u64) / (b as u64);
        q as i64
    } else {
        let m = abs_u64(a);
        let q = m / (b as u64);
        proof {
            vstd::arithmetic::div_mod::lemma_div_nonincreasing(m as int, b as int);
            assert(q * b <= m) by (nonlinear_arith)
                requires
                    q == m as int / b as int,
                    b >= 2,
                    m >= 0,
            {
                vstd::arithmetic::div_mod::lemma_fundamental_div_mod(m as int, b as int);
                vstd::arithmetic::div_mod::lemma_mod_division_less_than_divisor(m as int, b as int);
            }
            assert(q <= m as int / 2) by (nonlinear_arith)
                requires
                    q * b <= m,
                    b >= 2,
                    q >= 0,
            ;
        }
        -(q as i64)
    }
}

fn div_floor_i64(a: i64, b: i64) -> (r: i64)
    requires
        2 <= b <= 1000000,
    ensures
        r as int == floor_div(a as int, b as int),
{
    if a >= 0 {
        let q = (a as u64) / (b as u64);
        q as i64
    } else {
        let m = abs_u64(a);
        let num = m + (b as u64) - 1;
        let q = num / (b as u64);
        proof {
            vstd::arithmetic::div_mod::lemma_div_nonincreasing(num as int, b as int);
            assert(q * b <= num) by (nonlinear_arith)
                requires
                    q == num as int / b as int,
                    b >= 2,
                    num >= 0,
            {
                vstd::arithmetic::div_mod::lemma_fundamental_div_mod(num as int, b as int);
                vstd::arithmetic::div_mod::lemma_mod_division_less_than_divisor(
                    num as int,
                    b as int,
                );
            }
            assert(q <= num as int / 2 + 1) by (nonlinear_arith)
                requires
                    q * b <= num,
                    b >= 2,
                    q >= 0,
            ;
        }
        -(q as i64)
    }
}

/// After dividing by `b` toward negative infinity, the remainder is in `[0, b)`.
proof fn lemma_floor_div_rem(a: int, b: int)
    requires
        b >= 1,
    ensures
        0 <= a - floor_div(a, b) * b < b,
{
    if a >= 0 {
        vstd::arithmetic::div_mod::lemma_fundamental_div_mod(a, b);
        vstd::arithmetic::div_mod::lemma_mod_division_less_than_divisor(a, b);
        assert(0 <= a - floor_div(a, b) * b < b) by (nonlinear_arith)
            requires
                a == b * (a / b) + a % b,
                0 <= a % b < b,
                floor_div(a, b) == a / b,
        ;
    } else {
        let m = -a;
        vstd::arithmetic::div_mod::lemma_fundamental_div_mod(m + b - 1, b);
        vstd::arithmetic::div_mod::lemma_mod_division_less_than_divisor(m + b - 1, b);
        let q = (m + b - 1) / b;
        assert(floor_div(a, b) == -q);
        assert(0 <= a - floor_div(a, b) * b < b) by (nonlinear_arith)
            requires
                m + b - 1 == b * q + (m + b - 1) % b,
                0 <= (m + b - 1) % b < b,
                floor_div(a, b) == -q,
                m == -a,
                b >= 1,
        ;
    }
}

/// Format a Unix timestamp as `YYYY-MM-DD`, or `"unknown"` for 0.
pub fn format_unix_timestamp(timestamp: i64) -> (r: String)
    ensures
        r@ == spec_unix_date(timestamp as int),
{
    if timestamp == 0 {
        let out = crate::text::to_chars("unknown");
        return from_chars(&out);
    }
    let ghost t = timestamp as int;
    let dq = div_trunc_i64(timestamp, 86400);
    assert(-106751991167302i64 <= dq <= 106751991167301i64);
    let days = dq + 719468;
    let era = div_floor_i64(days, 146097);
    assert(-800000000i64 <= era <= 800000000i64);
    proof {
        lemma_floor_div_rem(days as int, 146097);
    }
    let doe = days - era * 146097;
    assert(0 <= doe <= 146096);
    let doe_u = doe as u64;
    let n = doe_u - doe_u / 1460 + doe_u / 36524 - doe_u / 146096;
    let yoe = n / 365;
    assert(n <= 146100 && yoe <= 400);
    let y0 = yoe as i64 + era * 400;
    let sub = 365 * (yoe as i64) + (yoe as i64) / 4 - (yoe as i64) / 100;
    let ghost syoe = yoe as int;
    assert(((yoe as i64) / 4) as int == syoe / 4 && ((yoe as i64) / 100) as int == syoe / 100);
    assert(0 <= sub <= 146200);
    let doy = doe - sub;
    let mp = div_trunc_i64(5 * doy + 2, 153);
    assert(-4790i64 <= mp <= 4775i64);
    let d = doy - div_trunc_i64(153 * mp + 2, 5) + 1;
    let m = if mp < 10 {
        mp + 3
    } else {
        mp - 9
    };
    let y = if m <= 2 {
        y0 + 1
    } else {
        y0
    };
    let mut out: Vec<char> = Vec::new();
    push_i64_padded(&mut out, y, 4);
    out.push('-');
    push_i64_padded(&mut out, m, 2);
    out.push('-');
    push_i64_padded(&mut out, d, 2);
    assert(out@ =~= spec_unix_date(t));
    from_chars(&out)
}

} // verus!
