//! The text of a point in time.

use vstd::prelude::*;
use vstd::string::*;
use crate::text::{dec, digit, join, u64_text};

verus! {

/// `y` is a leap year.
pub open spec fn leap(y: int) -> bool {
    y % 4 == 0 && (y % 100 != 0 || y % 400 == 0)
}

/// How many days month `m` of year `y` has.
pub open spec fn month_days(y: int, m: int) -> int {
    if m == 2 {
        if leap(y) {
            29
        } else {
            28
        }
    } else if m == 4 || m == 6 || m == 9 || m == 11 {
        30
    } else {
        31
    }
}

/// The days of year `y` before month `m`.
pub open spec fn days_before_month(y: int, m: int) -> int
    decreases m,
{
    if m <= 1 {
        0
    } else {
        days_before_month(y, m - 1) + month_days(y, m - 1)
    }
}

/// The days from the first of January 1970 to the first of January of year `y`.
pub open spec fn days_before_year(y: int) -> int {
    365 * (y - 1970) + (y - 1) / 4 - (y - 1) / 100 + (y - 1) / 400 - 477
}

/// A day of the calendar.
pub struct Date {
    pub year: int,
    pub month: int,
    pub day: int,
}

/// `d` lies `days` days after the first of January 1970.
pub open spec fn is_date(days: int, d: Date) -> bool {
    &&& 1 <= d.month <= 12
    &&& 1 <= d.day <= month_days(d.year, d.month)
    &&& days == days_before_year(d.year) + days_before_month(d.year, d.month) + d.day - 1
}

/// The day that lies `days` days after the first of January 1970.
pub open spec fn date_of(days: int) -> Date {
    choose|d: Date| is_date(days, d)
}

proof fn lemma_month_bounds(y: int, m: int)
    requires
        1 <= m <= 12,
    ensures
        0 <= days_before_month(y, m),
        days_before_month(y, m) + month_days(y, m) <= days_before_month(y, 13),
        days_before_month(y, 13) == if leap(y) {
            366int
        } else {
            365
        },
{
    reveal_with_fuel(days_before_month, 14);
}

proof fn lemma_months_ascend(y: int, m: int, n: int)
    requires
        1 <= m < n <= 12,
    ensures
        days_before_month(y, m) + month_days(y, m) <= days_before_month(y, n),
{
    reveal_with_fuel(days_before_month, 14);
}

proof fn lemma_year_length(y: int)
    ensures
        days_before_year(y + 1) == days_before_year(y) + if leap(y) {
            366int
        } else {
            365
        },
{
    let q4 = (y - 1) / 4;
    let q100 = (y - 1) / 100;
    let q400 = (y - 1) / 400;
    assert(y / 4 == q4 + if y % 4 == 0 {
        1int
    } else {
        0
    });
    assert(y / 100 == q100 + if y % 100 == 0 {
        1int
    } else {
        0
    });
    assert(y / 400 == q400 + if y % 400 == 0 {
        1int
    } else {
        0
    });
    if y % 400 == 0 {
        assert(y % 100 == 0);
        assert(y % 4 == 0);
    }
    if y % 100 == 0 {
        assert(y % 4 == 0);
    }
}

proof fn lemma_years_ascend(y: int, z: int)
    requires
        y < z,
    ensures
        days_before_year(y + 1) <= days_before_year(z),
    decreases z - y,
{
    if y + 1 < z {
        lemma_years_ascend(y, z - 1);
        lemma_year_length(z - 1);
    }
}

proof fn lemma_year_no_later(days: int, a: Date, b: Date)
    requires
        is_date(days, a),
        is_date(days, b),
    ensures
        a.year <= b.year,
{
    if b.year < a.year {
        lemma_years_ascend(b.year, a.year);
        lemma_year_length(b.year);
        lemma_month_bounds(b.year, b.month);
        lemma_month_bounds(a.year, a.month);
    }
}

/// No two days of the calendar lie equally far from the first of January 1970.
pub proof fn law_dates_are_unique(days: int, a: Date, b: Date)
    requires
        is_date(days, a),
        is_date(days, b),
    ensures
        a == b,
{
    lemma_year_no_later(days, a, b);
    lemma_year_no_later(days, b, a);
    if a.month < b.month {
        lemma_months_ascend(a.year, a.month, b.month);
    } else if b.month < a.month {
        lemma_months_ascend(a.year, b.month, a.month);
    }
}

/// The whole quotient of `n` by a positive `d`, rounded down, and what is left.
fn floor_div(n: i64, d: i64) -> (r: (i64, i64))
    requires
        d > 0,
    ensures
        r.0 == n as int / d as int,
        r.1 == n as int % d as int,
        n == r.0 * d + r.1,
        0 <= r.1 < d,
        n >= 0 ==> 0 <= r.0 <= n,
        n < 0 ==> n <= r.0 < 0,
{
    if n >= 0 {
        let q: u64 = n as u64 / d as u64;
        let m: u64 = n as u64 % d as u64;
        proof {
            lemma_quotient(n as int, d as int, q as int, m as int);
        }
        (q as i64, m as i64)
    } else {
        let k: u64 = (-(n + 1)) as u64;
        let q: u64 = k / d as u64;
        let m: u64 = k % d as u64;
        let left: i64 = d - 1 - m as i64;
        proof {
            lemma_quotient(k as int, d as int, q as int, m as int);
            assert(n == (-(q as int) - 1) * d + left) by (nonlinear_arith)
                requires
                    k == q * d + m,
                    k == -(n + 1),
                    left == d - 1 - m,
            ;
            vstd::arithmetic::div_mod::lemma_fundamental_div_mod_converse(
                n as int,
                d as int,
                -(q as int) - 1,
                left as int,
            );
        }
        (-(q as i64) - 1, left)
    }
}

proof fn lemma_quotient(n: int, d: int, q: int, m: int)
    requires
        n >= 0,
        d > 0,
        q == n / d,
        m == n % d,
    ensures
        n == q * d + m,
        0 <= q <= n,
        0 <= m < d,
{
    vstd::arithmetic::div_mod::lemma_fundamental_div_mod(n, d);
    assert(0 <= q <= n && n == q * d + m && 0 <= m < d) by (nonlinear_arith)
        requires
            n >= 0,
            d > 0,
            q == n / d,
            m == n % d,
            n == d * q + m,
    ;
}

fn is_leap(y: i64) -> (r: bool)
    ensures
        r == leap(y as int),
{
    floor_div(y, 4).1 == 0 && (floor_div(y, 100).1 != 0 || floor_div(y, 400).1 == 0)
}

fn days_of_month(y: i64, m: i64) -> (r: i64)
    ensures
        r == month_days(y as int, m as int),
        28 <= r <= 31,
{
    if m == 2 {
        if is_leap(y) {
            29
        } else {
            28
        }
    } else if m == 4 || m == 6 || m == 9 || m == 11 {
        30
    } else {
        31
    }
}

/// The year and the day of the year, from zero.
fn year_from_days(days: i64) -> (r: (i64, i64))
    requires
        days <= i64::MAX - 719468,
    ensures
        days == days_before_year(r.0 as int) + r.1,
        0 <= r.1 < if leap(r.0 as int) {
            366int
        } else {
            365
        },
        days >= 0 ==> r.0 >= 1,
{
    let total: i64 = days + 719162;
    let (a, in400) = floor_div(total, 146097);
    let b: i64 = if floor_div(in400, 36524).0 > 3 {
        3
    } else {
        floor_div(in400, 36524).0
    };
    let in100: i64 = in400 - 36524 * b;
    let (c, in4) = floor_div(in100, 1461);
    let e: i64 = if floor_div(in4, 365).0 > 3 {
        3
    } else {
        floor_div(in4, 365).0
    };
    let doy: i64 = in4 - 365 * e;
    let year: i64 = 400 * a + 100 * b + 4 * c + e + 1;
    proof {
        let p = year - 1;
        assert(c <= 24);
        assert(p == 400 * a + 100 * b + 4 * c + e);
        assert(p / 4 == 100 * a + 25 * b + c);
        assert(p / 100 == 4 * a + b);
        assert(p / 400 == a);
        assert(doy <= 365);
        if doy == 365 {
            assert(e == 3);
            assert(c < 24 || b == 3);
            assert(year == 400 * a + 100 * b + 4 * (c + 1));
            assert(year as int % 4 == 0);
            if c < 24 {
                assert(year as int % 100 == 4 * (c + 1));
            } else {
                assert(year == 400 * (a + 1));
                assert(year as int % 400 == 0);
            }
        }
    }
    (year, doy)
}

/// The year, month and day that lie `days` days after the first of January 1970,
/// or that many before it where `days` is negative.
pub fn civil_from_days(days: i64) -> (r: (i64, i64, i64))
    requires
        days <= i64::MAX - 719468,
    ensures
        is_date(days as int, Date { year: r.0 as int, month: r.1 as int, day: r.2 as int }),
        (Date { year: r.0 as int, month: r.1 as int, day: r.2 as int }) == date_of(days as int),
        1 <= r.1 <= 12,
        1 <= r.2 <= 31,
        days >= 0 ==> r.0 >= 1,
{
    let (y, doy) = year_from_days(days);
    let mut m: i64 = 1;
    let mut rest: i64 = doy;
    proof {
        lemma_month_bounds(y as int, 12);
    }
    while m < 12 && rest >= days_of_month(y, m)
        invariant
            1 <= m <= 12,
            0 <= rest,
            doy == days_before_month(y as int, m as int) + rest,
            doy < days_before_month(y as int, 13),
        decreases 12 - m,
    {
        rest = rest - days_of_month(y, m);
        m = m + 1;
    }
    proof {
        reveal_with_fuel(days_before_month, 14);
        let d = Date { year: y as int, month: m as int, day: rest + 1 };
        assert(is_date(days as int, d));
        law_dates_are_unique(days as int, d, date_of(days as int));
    }
    (y, m, rest + 1)
}

/// The day after `d`.
pub open spec fn next_date(d: Date) -> Date {
    if d.day < month_days(d.year, d.month) {
        Date { year: d.year, month: d.month, day: d.day + 1 }
    } else if d.month < 12 {
        Date { year: d.year, month: d.month + 1, day: 1 }
    } else {
        Date { year: d.year + 1, month: 1, day: 1 }
    }
}

/// Counting one day on turns the calendar by one day: within the month, at its end
/// to the first of the next, at the end of December to the first of January.
pub proof fn law_days_follow_one_another(days: int, d: Date)
    requires
        is_date(days, d),
    ensures
        is_date(days + 1, next_date(d)),
        date_of(days + 1) == next_date(d),
{
    reveal_with_fuel(days_before_month, 14);
    lemma_month_bounds(d.year, d.month);
    lemma_year_length(d.year);
    law_dates_are_unique(days + 1, next_date(d), date_of(days + 1));
}

/// The two-digit text of a number below a hundred.
pub open spec fn two_digits(n: int) -> Seq<char> {
    seq![digit(n / 10), digit(n % 10)]
}

/// The name of the day of the week `days` days after the first of January 1970.
pub open spec fn weekday_name(days: int) -> Seq<char> {
    let w = (days + 4) % 7;
    if w == 0 {
        "Sun"@
    } else if w == 1 {
        "Mon"@
    } else if w == 2 {
        "Tue"@
    } else if w == 3 {
        "Wed"@
    } else if w == 4 {
        "Thu"@
    } else if w == 5 {
        "Fri"@
    } else {
        "Sat"@
    }
}

/// The name of a month.
pub open spec fn month_name(m: int) -> Seq<char> {
    if m == 1 {
        "Jan"@
    } else if m == 2 {
        "Feb"@
    } else if m == 3 {
        "Mar"@
    } else if m == 4 {
        "Apr"@
    } else if m == 5 {
        "May"@
    } else if m == 6 {
        "Jun"@
    } else if m == 7 {
        "Jul"@
    } else if m == 8 {
        "Aug"@
    } else if m == 9 {
        "Sep"@
    } else if m == 10 {
        "Oct"@
    } else if m == 11 {
        "Nov"@
    } else {
        "Dec"@
    }
}

/// The text of the point `secs` seconds after the start of 1970, such as
/// `Thu Jan 01 00:00:00 1970`.
pub open spec fn utc_text(secs: u64) -> Seq<char> {
    let days = secs as int / 86400;
    let tod = secs as int % 86400;
    let d = date_of(days);
    weekday_name(days) + " "@ + month_name(d.month) + " "@ + two_digits(d.day) + " "@ + two_digits(
        tod / 3600,
    ) + ":"@ + two_digits((tod % 3600) / 60) + ":"@ + two_digits(tod % 60) + " "@ + dec(d.year as nat)
}

fn append_two_digits(s: &mut String, n: u64)
    requires
        n < 100,
    ensures
        final(s)@ == old(s)@ + two_digits(n as int),
{
    let t = u64_text(n / 10);
    let u = u64_text(n % 10);
    s.append(t.as_str());
    s.append(u.as_str());
    assert(s@ =~= old(s)@ + two_digits(n as int));
}

fn weekday_text(days: u64) -> (r: &'static str)
    requires
        days <= 0x0fff_ffff_ffff_ffff,
    ensures
        r@ == weekday_name(days as int),
{
    match (days + 4) % 7 {
        0 => "Sun",
        1 => "Mon",
        2 => "Tue",
        3 => "Wed",
        4 => "Thu",
        5 => "Fri",
        _ => "Sat",
    }
}

fn month_text(m: i64) -> (r: &'static str)
    requires
        1 <= m <= 12,
    ensures
        r@ == month_name(m as int),
{
    match m {
        1 => "Jan",
        2 => "Feb",
        3 => "Mar",
        4 => "Apr",
        5 => "May",
        6 => "Jun",
        7 => "Jul",
        8 => "Aug",
        9 => "Sep",
        10 => "Oct",
        11 => "Nov",
        _ => "Dec",
    }
}

/// The text of the point `secs` seconds after the start of 1970.
pub fn format_utc(secs: u64) -> (r: String)
    ensures
        r@ == utc_text(secs),
{
    let days: u64 = secs / 86400;
    let tod: u64 = secs % 86400;
    let (y, m, d) = civil_from_days(days as i64);
    let mut s: String = join(weekday_text(days), " ");
    s.append(month_text(m));
    s.append(" ");
    append_two_digits(&mut s, d as u64);
    s.append(" ");
    append_two_digits(&mut s, tod / 3600);
    s.append(":");
    append_two_digits(&mut s, (tod % 3600) / 60);
    s.append(":");
    append_two_digits(&mut s, tod % 60);
    s.append(" ");
    s.append(u64_text(y as u64).as_str());
    s
}

} // verus!
