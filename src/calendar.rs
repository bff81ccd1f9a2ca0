//! Calendar arithmetic and decimal text for showing timestamps.

use vstd::prelude::*;

verus! {

broadcast use vstd::string::group_string_axioms;

pub const SECS_PER_MIN: u64 = 60;

pub const SECS_PER_HOUR: u64 = 3600;

pub const SECS_PER_DAY: u64 = 86400;

pub const SECS_PER_COMMON_YEAR: u64 = 31536000;

pub const SECS_PER_LEAP_YEAR: u64 = 31622400;

/// Gregorian leap years: every fourth year, but not centuries unless they
/// divide by 400.
pub open spec fn spec_is_leap_year(y: int) -> bool {
    y % 4 == 0 && (y % 100 != 0 || y % 400 == 0)
}

pub open spec fn spec_secs_per_year(y: int) -> int {
    if spec_is_leap_year(y) {
        31622400int
    } else {
        31536000int
    }
}

pub open spec fn days_in_month(leap: bool, i: int) -> int {
    if i == 1 {
        if leap {
            29
        } else {
            28
        }
    } else if i == 3 || i == 5 || i == 8 || i == 10 {
        30
    } else {
        31
    }
}

/// Starting at year `y` with `remain` seconds to place, the year they reach
/// and the seconds left within it. A remainder of exactly one year stays in
/// the year it started.
pub open spec fn year_of(y: int, remain: int) -> (int, int)
    decreases remain,
{
    if remain > spec_secs_per_year(y) && remain > 0 {
        year_of(y + 1, remain - spec_secs_per_year(y))
    } else {
        (y, remain)
    }
}

/// Starting at month index `i` with `remain` seconds into the year, the
/// month (counted from 1) they reach and the seconds left within it.
pub open spec fn month_of(leap: bool, i: int, remain: int) -> (int, int)
    decreases 12 - i,
{
    if i < 11 && remain > 86400 * days_in_month(leap, i) {
        month_of(leap, i + 1, remain - 86400 * days_in_month(leap, i))
    } else {
        (i + 1, remain)
    }
}

/// Every placed remainder fits in the year reached.
pub proof fn lemma_year_of_fits(y: int, remain: int)
    requires
        remain >= 0,
    ensures
        0 <= year_of(y, remain).1 <= spec_secs_per_year(year_of(y, remain).0),
    decreases remain,
{
    if remain > spec_secs_per_year(y) && remain > 0 {
        lemma_year_of_fits(y + 1, remain - spec_secs_per_year(y));
    }
}

pub open spec fn digit(d: int) -> char {
    if d == 0 {
        '0'
    } else if d == 1 {
        '1'
    } else if d == 2 {
        '2'
    } else if d == 3 {
        '3'
    } else if d == 4 {
        '4'
    } else if d == 5 {
        '5'
    } else if d == 6 {
        '6'
    } else if d == 7 {
        '7'
    } else if d == 8 {
        '8'
    } else {
        '9'
    }
}

/// The decimal digits of `n`, without leading zeros.
pub open spec fn decimal(n: nat) -> Seq<char>
    decreases n,
{
    if n < 10 {
        seq![digit(n as int)]
    } else {
        decimal(n / 10) + seq![digit((n % 10) as int)]
    }
}

/// `s` with zeros in front up to `w` characters.
pub open spec fn zero_pad(s: Seq<char>, w: nat) -> Seq<char> {
    if s.len() < w {
        Seq::new((w - s.len()) as nat, |i: int| '0') + s
    } else {
        s
    }
}

fn digit_str(d: u64) -> (r: &'static str)
    requires
        d < 10,
    ensures
        r@ == seq![digit(d as int)],
{
    let r = if d == 0 {
        "0"
    } else if d == 1 {
        "1"
    } else if d == 2 {
        "2"
    } else if d == 3 {
        "3"
    } else if d == 4 {
        "4"
    } else if d == 5 {
        "5"
    } else if d == 6 {
        "6"
    } else if d == 7 {
        "7"
    } else if d == 8 {
        "8"
    } else {
        "9"
    };
    proof {
        reveal_strlit("0");
        reveal_strlit("1");
        reveal_strlit("2");
        reveal_strlit("3");
        reveal_strlit("4");
        reveal_strlit("5");
        reveal_strlit("6");
        reveal_strlit("7");
        reveal_strlit("8");
        reveal_strlit("9");
    }
    assert(r@ =~= seq![digit(d as int)]);
    r
}

/// Appends the decimal digits of `n`.
pub fn push_decimal(w: &mut String, n: u64)
    ensures
        final(w)@ == old(w)@ + decimal(n as nat),
    decreases n,
{
    if n >= 10 {
        push_decimal(w, n / 10);
    }
    w.append(digit_str(n % 10));
    assert(w@ =~= old(w)@ + decimal(n as nat));
}

/// Appends the decimal digits of `n`, zeros in front up to `width`.
pub fn push_padded(w: &mut String, n: u64, width: usize)
    ensures
        final(w)@ == old(w)@ + zero_pad(decimal(n as nat), width as nat),
{
    let mut digits = String::new();
    push_decimal(&mut digits, n);
    assert(digits@ =~= decimal(n as nat));
    let len = digits.as_str().unicode_len();
    let mut k = len;
    let ghost start = w@;
    while k < width
        invariant
            len <= k <= width || (len >= width && k == len),
            len == decimal(n as nat).len(),
            w@ == start + Seq::new((k - len) as nat, |i: int| '0'),
        decreases width - k,
    {
        w.append("0");
        proof {
            reveal_strlit("0");
        }
        assert(w@ =~= start + Seq::new((k + 1 - len) as nat, |i: int| '0'));
        k = k + 1;
    }
    w.append(digits.as_str());
    assert(w@ =~= old(w)@ + zero_pad(decimal(n as nat), width as nat));
}

pub fn is_leap_year(gregorian_year: u64) -> (r: bool)
    ensures
        r == spec_is_leap_year(gregorian_year as int),
{
    let year = gregorian_year;
    if !(year % 4 == 0) {
        false
    } else if !(year % 100 == 0) {
        true
    } else if !(year % 400 == 0) {
        false
    } else {
        true
    }
}

pub fn secs_per_year(gregorian_year: u64) -> (r: u64)
    ensures
        r == spec_secs_per_year(gregorian_year as int),
{
    if is_leap_year(gregorian_year) {
        SECS_PER_LEAP_YEAR
    } else {
        SECS_PER_COMMON_YEAR
    }
}

fn secs_in_month(leap: bool, i: u64) -> (r: u64)
    requires
        i < 12,
    ensures
        r == 86400 * days_in_month(leap, i as int),
{
    let days: u64 = if i == 1 {
        if leap {
            29
        } else {
            28
        }
    } else if i == 3 || i == 5 || i == 8 || i == 10 {
        30
    } else {
        31
    };
    SECS_PER_DAY * days
}

/// The seconds of all months from index `i` on.
pub open spec fn secs_from_month(leap: bool, i: int) -> int
    decreases 12 - i,
{
    if i >= 12 {
        0
    } else {
        86400 * days_in_month(leap, i) + secs_from_month(leap, i + 1)
    }
}

/// Splits `remain` seconds, counted from the start of year `y`, into a year
/// and the seconds within it.
pub fn split_years(y: u64, remain: u64) -> (r: (u64, u64))
    requires
        y <= 1970,
    ensures
        (r.0 as int, r.1 as int) == year_of(y as int, remain as int),
{
    let mut year = y;
    let mut rem = remain;
    loop
        invariant
            y <= 1970,
            y <= year,
            rem <= remain,
            (year - y) * 31536000 <= remain - rem,
            year_of(year as int, rem as int) == year_of(y as int, remain as int),
        decreases rem,
    {
        let spy = secs_per_year(year);
        if rem > spy {
            proof {
                assert((year + 1 - y) * 31536000 <= remain - (rem - spy)) by (nonlinear_arith)
                    requires
                        (year - y) * 31536000 <= remain - rem,
                        spy >= 31536000,
                ;
                assert(year - y <= remain / 31536000) by (nonlinear_arith)
                    requires
                        (year - y) * 31536000 <= remain - rem,
                        rem >= 0,
                        year >= y,
                ;
                assert(remain / 31536000 < 0x1_0000_0000_0000) by (nonlinear_arith)
                    requires
                        remain <= u64::MAX,
                ;
            }
            rem = rem - spy;
            year = year + 1;
        } else {
            return (year, rem);
        }
    }
}

proof fn lemma_months_cover(leap: bool, i: int, remain: int)
    requires
        0 <= i <= 11,
        0 <= remain <= secs_from_month(leap, i),
    ensures
        month_of(leap, i, remain).0 <= 12,
        0 <= month_of(leap, i, remain).1,
        month_of(leap, i, remain).1 <= 86400 * days_in_month(leap, month_of(leap, i, remain).0 - 1),
        month_of(leap, i, remain).0 >= 1,
    decreases 12 - i,
{
    if i < 11 && remain > 86400 * days_in_month(leap, i) {
        lemma_months_cover(leap, i + 1, remain - 86400 * days_in_month(leap, i));
    } else if i == 11 {
        assert(secs_from_month(leap, 12) == 0);
    }
}

proof fn lemma_year_is_months(y: int)
    ensures
        secs_from_month(spec_is_leap_year(y), 0) == spec_secs_per_year(y),
{
    let leap = spec_is_leap_year(y);
    reveal_with_fuel(secs_from_month, 13);
}

/// Splits `remain` seconds into the year `year` into a month (counted from
/// 1) and the seconds within it.
pub fn split_months(year: u64, remain: u64) -> (r: (u64, u64))
    requires
        remain <= spec_secs_per_year(year as int),
    ensures
        (r.0 as int, r.1 as int) == month_of(spec_is_leap_year(year as int), 0, remain as int),
        1 <= r.0 <= 12,
        r.1 <= 86400 * 31,
{
    let leap = is_leap_year(year);
    proof {
        lemma_year_is_months(year as int);
        lemma_months_cover(leap, 0, remain as int);
    }
    let mut i: u64 = 0;
    let mut rem = remain;
    while i < 11 && rem > secs_in_month(leap, i)
        invariant
            i <= 11,
            leap == spec_is_leap_year(year as int),
            month_of(leap, i as int, rem as int) == month_of(leap, 0, remain as int),
        decreases 12 - i,
    {
        rem = rem - secs_in_month(leap, i);
        i = i + 1;
    }
    (i + 1, rem)
}

} // verus!
