//! How a point in time is written.

use vstd::prelude::*;
use vstd::string::*;
use crate::clock::{date_of, is_date, law_dates_are_unique, leap, month_days, month_name, two_digits, utc_text, weekday_name, Date};
use crate::text::dec;

verus! {

/// The two digits of a number below a hundred.
pub open spec fn digits_of(n: int) -> Seq<char> {
    seq!["0123456789"@[n / 10], "0123456789"@[n % 10]]
}

/// The `i`-th of names of three letters that are written one behind the other.
pub open spec fn third_of(names: Seq<char>, i: int) -> Seq<char> {
    names.subrange(3 * i, 3 * i + 3)
}

/// The months have the lengths of the calendar, and February one day more in a leap
/// year: every fourth, but of the years that end a century only every fourth.
pub proof fn law_months_have_their_lengths(y: int, m: int)
    requires
        1 <= m <= 12,
    ensures
        month_days(y, m) == seq![31int, 28, 31, 30, 31, 30, 31, 31, 30, 31, 30, 31][m - 1] + if m == 2 && leap(y) {
            1int
        } else {
            0
        },
        y % 4 != 0 ==> !leap(y),
        y % 4 == 0 && y % 100 != 0 ==> leap(y),
        y % 100 == 0 ==> leap(y) == (y % 400 == 0),
{
    if y % 100 == 0 {
        assert(y % 4 == 0);
    }
    if y % 400 == 0 {
        assert(y % 100 == 0);
    }
}

proof fn lemma_letters(w: int, m: int)
    requires
        0 <= w < 7,
        0 <= m < 12,
    ensures
        third_of("SunMonTueWedThuFriSat"@, w) == seq!["Sun"@, "Mon"@, "Tue"@, "Wed"@, "Thu"@, "Fri"@, "Sat"@][w],
        third_of("JanFebMarAprMayJunJulAugSepOctNovDec"@, m) == seq![
            "Jan"@,
            "Feb"@,
            "Mar"@,
            "Apr"@,
            "May"@,
            "Jun"@,
            "Jul"@,
            "Aug"@,
            "Sep"@,
            "Oct"@,
            "Nov"@,
            "Dec"@,
        ][m],
{
    reveal_strlit("SunMonTueWedThuFriSat");
    reveal_strlit("JanFebMarAprMayJunJulAugSepOctNovDec");
    reveal_strlit("Sun");
    reveal_strlit("Mon");
    reveal_strlit("Tue");
    reveal_strlit("Wed");
    reveal_strlit("Thu");
    reveal_strlit("Fri");
    reveal_strlit("Sat");
    reveal_strlit("Jan");
    reveal_strlit("Feb");
    reveal_strlit("Mar");
    reveal_strlit("Apr");
    reveal_strlit("May");
    reveal_strlit("Jun");
    reveal_strlit("Jul");
    reveal_strlit("Aug");
    reveal_strlit("Sep");
    reveal_strlit("Oct");
    reveal_strlit("Nov");
    reveal_strlit("Dec");
    let days = seq!["Sun"@, "Mon"@, "Tue"@, "Wed"@, "Thu"@, "Fri"@, "Sat"@];
    let months = seq![
        "Jan"@,
        "Feb"@,
        "Mar"@,
        "Apr"@,
        "May"@,
        "Jun"@,
        "Jul"@,
        "Aug"@,
        "Sep"@,
        "Oct"@,
        "Nov"@,
        "Dec"@,
    ];
    assert(third_of("SunMonTueWedThuFriSat"@, w) =~= days[w]);
    assert(third_of("JanFebMarAprMayJunJulAugSepOctNovDec"@, m) =~= months[m]);
}

/// A point in time is written as the day of the week, the month, the day, the hour, the
/// minute, the second and the year, all but the names and the year with two digits; the
/// first of January 1970 was a Thursday.
pub proof fn law_time_is_written_out(secs: u64, days: int, hour: int, minute: int, second: int, d: Date)
    requires
        0 <= hour < 24,
        0 <= minute < 60,
        0 <= second < 60,
        secs == days * 86400 + hour * 3600 + minute * 60 + second,
        is_date(days, d),
        d.year >= 0,
    ensures
        utc_text(secs) == third_of("SunMonTueWedThuFriSat"@, (days + 4) % 7) + " "@ + third_of(
            "JanFebMarAprMayJunJulAugSepOctNovDec"@,
            d.month - 1,
        ) + " "@ + digits_of(d.day) + " "@ + digits_of(hour) + ":"@ + digits_of(minute) + ":"@ + digits_of(second)
            + " "@ + dec(d.year as nat),
{
    lemma_parts(secs, days, hour, minute, second);
    law_dates_are_unique(days, d, date_of(days));
    lemma_letters((days + 4) % 7, d.month - 1);
    lemma_names((days + 4) % 7, d.month - 1, days);
    lemma_digits(d.day);
    lemma_digits(hour);
    lemma_digits(minute);
    lemma_digits(second);
}

proof fn lemma_parts(secs: u64, days: int, hour: int, minute: int, second: int)
    requires
        0 <= hour < 24,
        0 <= minute < 60,
        0 <= second < 60,
        secs == days * 86400 + hour * 3600 + minute * 60 + second,
    ensures
        ({
            let tod = secs as int % 86400;
            &&& secs as int / 86400 == days
            &&& tod / 3600 == hour
            &&& (tod % 3600) / 60 == minute
            &&& tod % 60 == second
        }),
{
    let tod = hour * 3600 + minute * 60 + second;
    assert(secs as int / 86400 == days);
    assert(secs as int % 86400 == tod);
    assert(tod / 3600 == hour);
    assert(tod % 3600 == minute * 60 + second);
    assert((minute * 60 + second) / 60 == minute);
    assert(tod % 60 == second);
}

proof fn lemma_names(w: int, m: int, days: int)
    requires
        w == (days + 4) % 7,
        0 <= m < 12,
    ensures
        weekday_name(days) == seq!["Sun"@, "Mon"@, "Tue"@, "Wed"@, "Thu"@, "Fri"@, "Sat"@][w],
        month_name(m + 1) == seq![
            "Jan"@,
            "Feb"@,
            "Mar"@,
            "Apr"@,
            "May"@,
            "Jun"@,
            "Jul"@,
            "Aug"@,
            "Sep"@,
            "Oct"@,
            "Nov"@,
            "Dec"@,
        ][m],
{
}

proof fn lemma_digits(n: int)
    requires
        0 <= n < 100,
    ensures
        digits_of(n) == two_digits(n),
{
    reveal_strlit("0123456789");
    assert(forall|k: int| 0 <= k < 10 ==> "0123456789"@[k] as int == 48 + k);
    assert(0 <= n / 10 < 10);
    assert(0 <= n % 10 < 10);
    assert(digits_of(n) =~= two_digits(n));
}

} // verus!
