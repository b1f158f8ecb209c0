//! Points in time as text.

use vstd::arithmetic::power::pow;
use vstd::prelude::*;

use crate::int_math::{div_floor, mod_floor};
use crate::text::{chars_of, decimal, digit, digits_value, push_chars, push_decimal};

verus! {

/// Days of four hundred years, after which the calendar repeats.
pub const ERA_DAYS: i64 = 146_097;

/// Days from the start of the year 0 to the start of 1970.
pub const EPOCH_DAYS: i64 = 719_528;

/// Whether a year has a leap day.
pub open spec fn is_leap(y: int) -> bool {
    y % 4 == 0 && (y % 100 != 0 || y % 400 == 0)
}

/// Days of a month.
pub open spec fn month_days(y: int, m: int) -> int {
    if m == 2 {
        if is_leap(y) {
            29
        } else {
            28
        }
    } else if m == 4 || m == 6 || m == 9 || m == 11 {
        30
    } else {
        31
    }
}

/// Days of the year before a month.
pub open spec fn days_before_month(y: int, m: int) -> int
    decreases m,
{
    if m <= 1 {
        0
    } else {
        days_before_month(y, m - 1) + month_days(y, m - 1)
    }
}

/// Days of a year.
pub open spec fn year_days(y: int) -> int {
    if is_leap(y) {
        366
    } else {
        365
    }
}

/// Days from the start of the year 0 to the start of a year.
pub open spec fn days_before_year(y: int) -> int {
    365 * y + (y + 3) / 4 - (y + 99) / 100 + (y + 399) / 400
}

/// A date of the calendar.
pub open spec fn is_date(y: int, m: int, d: int) -> bool {
    1 <= m <= 12 && 1 <= d <= month_days(y, m)
}

/// Number of a day, counted from the first of 1970.
pub open spec fn day_number(y: int, m: int, d: int) -> int {
    days_before_year(y) - EPOCH_DAYS + days_before_month(y, m) + d - 1
}

/// Each year begins where the one before ends, and 1970 begins the count.
pub proof fn law_years_follow_each_other(y: int)
    ensures
        days_before_year(y + 1) == days_before_year(y) + year_days(y),
        days_before_year(y + 400) == days_before_year(y) + ERA_DAYS,
        day_number(1970, 1, 1) == 0,
{
    assert((y + 4) / 4 == (y + 3) / 4 + if y % 4 == 0 {
        1int
    } else {
        0
    });
    assert((y + 100) / 100 == (y + 99) / 100 + if y % 100 == 0 {
        1int
    } else {
        0
    });
    assert((y + 400) / 400 == (y + 399) / 400 + if y % 400 == 0 {
        1int
    } else {
        0
    });
    assert(y % 400 == 0 ==> y % 100 == 0);
    assert(y % 100 == 0 ==> y % 4 == 0);
    assert((y + 403) / 4 == (y + 3) / 4 + 100);
    assert((y + 499) / 100 == (y + 99) / 100 + 4);
    assert((y + 799) / 400 == (y + 399) / 400 + 1);
}

/// The months of a year make up the year.
proof fn lemma_months_make_a_year(y: int)
    ensures
        days_before_month(y, 13) == year_days(y),
        forall|m: int| 1 <= m <= 12 ==> #[trigger] days_before_month(y, m) <= year_days(y) - 31,
{
    reveal_with_fuel(days_before_month, 14);
}

/// Later months begin later.
proof fn lemma_months_grow(y: int, a: int, b: int)
    requires
        1 <= a < b,
    ensures
        days_before_month(y, a) + month_days(y, a) <= days_before_month(y, b),
    decreases b,
{
    if a + 1 < b {
        lemma_months_grow(y, a, b - 1);
    }
}

/// Later years begin later.
proof fn lemma_years_grow(a: int, b: int)
    requires
        a < b,
    ensures
        days_before_year(a) + year_days(a) <= days_before_year(b),
    decreases b - a,
{
    law_years_follow_each_other(b - 1);
    if a + 1 < b {
        lemma_years_grow(a, b - 1);
    }
}

/// Two dates with the same number are the same date.
pub proof fn law_dates_are_unique(y1: int, m1: int, d1: int, y2: int, m2: int, d2: int)
    requires
        is_date(y1, m1, d1),
        is_date(y2, m2, d2),
        day_number(y1, m1, d1) == day_number(y2, m2, d2),
    ensures
        (y1, m1, d1) == (y2, m2, d2),
{
    lemma_months_make_a_year(y1);
    lemma_months_make_a_year(y2);
    assert(days_before_month(y1, m1) >= 0 && days_before_month(y2, m2) >= 0) by {
        lemma_months_start(y1, m1);
        lemma_months_start(y2, m2);
    }
    if y1 < y2 {
        lemma_years_grow(y1, y2);
    } else if y2 < y1 {
        lemma_years_grow(y2, y1);
    } else if m1 < m2 {
        lemma_months_grow(y1, m1, m2);
    } else if m2 < m1 {
        lemma_months_grow(y1, m2, m1);
    }
}

/// No month begins before its year.
proof fn lemma_months_start(y: int, m: int)
    ensures
        days_before_month(y, m) >= 0,
    decreases m,
{
    if m > 1 {
        lemma_months_start(y, m - 1);
    }
}

/// Days of a year.
fn length_of_year(y: i64) -> (r: i64)
    requires
        0 <= y,
    ensures
        r == year_days(y as int),
{
    if y % 4 == 0 && (y % 100 != 0 || y % 400 == 0) {
        366
    } else {
        365
    }
}

/// Days of a month.
fn length_of_month(y: i64, m: i64) -> (r: i64)
    requires
        0 <= y,
    ensures
        r == month_days(y as int, m as int),
{
    if m == 2 {
        length_of_year(y) - 337
    } else if m == 4 || m == 6 || m == 9 || m == 11 {
        30
    } else {
        31
    }
}

/// Years of an era are those of another, four hundred years on.
proof fn lemma_era_years(y: int, era: int)
    ensures
        is_leap(y + 400 * era) == is_leap(y),
        days_before_year(y + 400 * era) == days_before_year(y) + ERA_DAYS * era,
{
    vstd::arithmetic::div_mod::lemma_mod_multiples_vanish(100 * era, y, 4);
    vstd::arithmetic::div_mod::lemma_mod_multiples_vanish(4 * era, y, 100);
    vstd::arithmetic::div_mod::lemma_mod_multiples_vanish(era, y, 400);
    vstd::arithmetic::div_mod::lemma_hoist_over_denominator(y + 3, 100 * era, 4);
    vstd::arithmetic::div_mod::lemma_hoist_over_denominator(y + 99, 4 * era, 100);
    vstd::arithmetic::div_mod::lemma_hoist_over_denominator(y + 399, era, 400);
    assert(4 * (100 * era) == 400 * era && 100 * (4 * era) == 400 * era);
    assert((y + 400 * era + 3) / 4 == (y + 3) / 4 + 100 * era);
    assert((y + 400 * era + 99) / 100 == (y + 99) / 100 + 4 * era);
    assert((y + 400 * era + 399) / 400 == (y + 399) / 400 + era);
}

/// Years with a leap day have the same months, and so have those without.
proof fn lemma_same_months(a: int, b: int, m: int)
    requires
        is_leap(a) == is_leap(b),
    ensures
        days_before_month(a, m) == days_before_month(b, m),
    decreases m,
{
    if m > 1 {
        lemma_same_months(a, b, m - 1);
    }
}

/// The date of a day, counted from the first of 1970.
pub fn date_of_day(day: i64) -> (r: (i64, i64, i64))
    requires
        -0x10_0000_0000 <= day <= 0x10_0000_0000,
    ensures
        is_date(r.0 as int, r.1 as int, r.2 as int),
        day_number(r.0 as int, r.1 as int, r.2 as int) == day,
        -0x10_0000_0000 <= r.0 <= 0x10_0000_0000,
{
    let n: i64 = day + EPOCH_DAYS;
    let era: i64 = div_floor(n, ERA_DAYS);
    let rest: i64 = mod_floor(n, ERA_DAYS);
    let mut left: i64 = rest;
    let mut y: i64 = 0;
    while left >= length_of_year(y)
        invariant
            0 <= y < 400,
            0 <= left,
            left + days_before_year(y as int) == rest,
            rest < ERA_DAYS,
        decreases 400 - y,
    {
        proof {
            law_years_follow_each_other(y as int);
        }
        left = left - length_of_year(y);
        y += 1;
    }
    let mut m: i64 = 1;
    while left >= length_of_month(y, m)
        invariant
            0 <= y < 400,
            1 <= m <= 12,
            0 <= left,
            left + days_before_month(y as int, m as int) + days_before_year(y as int) == rest,
            left + days_before_month(y as int, m as int) < year_days(y as int),
        decreases 12 - m,
    {
        proof {
            lemma_months_make_a_year(y as int);
        }
        left = left - length_of_month(y, m);
        m += 1;
    }
    proof {
        lemma_era_years(y as int, era as int);
        lemma_same_months(y as int, y + 400 * era, m as int);
    }
    (y + 400 * era, m, left + 1)
}

/// A number with a fixed number of digits.
pub open spec fn padded(n: nat, width: nat) -> Seq<char>
    decreases width,
{
    if width == 0 {
        Seq::empty()
    } else {
        padded(n / 10, (width - 1) as nat).push(digit(n % 10))
    }
}

/// Appends a number with a fixed number of digits.
fn push_padded(out: &mut String, n: u64, width: u64)
    ensures
        final(out)@ == old(out)@ + padded(n as nat, width as nat),
    decreases width,
{
    if width > 0 {
        push_padded(out, n / 10, width - 1);
        let c: char = (48u8 + (n % 10) as u8) as char;
        push_chars(out, [c].as_slice());
        assert(c == digit(n as nat % 10));
        assert([c]@ =~= seq![c]);
    }
    assert(out@ =~= old(out)@ + padded(n as nat, width as nat));
}

/// A year: four digits, or as many as it takes, behind a sign before the year
/// 0.
pub open spec fn year_text(y: int) -> Seq<char> {
    let n = if y < 0 {
        -y
    } else {
        y
    };
    let digits = if n <= 9999 {
        padded(n as nat, 4)
    } else {
        decimal(n as nat)
    };
    if y < 0 {
        "-"@ + digits
    } else {
        digits
    }
}

/// A date and the milliseconds of its day, as RFC 3339 writes them.
pub open spec fn instant_text(y: int, m: int, d: int, millis: int) -> Seq<char> {
    year_text(y) + "-"@ + padded(m as nat, 2) + "-"@ + padded(d as nat, 2) + "T"@ + padded(
        (millis / 3_600_000) as nat,
        2,
    ) + ":"@ + padded((millis / 60_000 % 60) as nat, 2) + ":"@ + padded((millis / 1000 % 60) as nat, 2) + "."@ + padded(
        (millis % 1000) as nat,
        3,
    ) + "Z"@
}

/// Whether a text is that of a point in time in Unix milliseconds.
pub open spec fn is_instant(text: Seq<char>, unix_millis: int) -> bool {
    exists|y: int, m: int, d: int| #[trigger]
        is_date(y, m, d) && day_number(y, m, d) == unix_millis / 86_400_000 && text == instant_text(
            y,
            m,
            d,
            unix_millis % 86_400_000,
        )
}

/// Appends a short text.
fn push_text(out: &mut String, t: &str)
    ensures
        final(out)@ == old(out)@ + t@,
{
    push_chars(out, chars_of(t).as_slice());
}

/// A point in time in Unix microseconds, to the millisecond.
pub fn format_rfc3339_millis(micros: i64) -> (r: String)
    ensures
        is_instant(r@, micros as int / 1000),
{
    let unix_millis: i64 = div_floor(micros, 1000);
    let day: i64 = div_floor(unix_millis, 86_400_000);
    let millis: i64 = mod_floor(unix_millis, 86_400_000);
    let (y, m, d): (i64, i64, i64) = date_of_day(day);
    let mut out = String::new();
    if y < 0 {
        push_text(&mut out, "-");
    }
    let n: u64 = if y < 0 {
        (0 - y) as u64
    } else {
        y as u64
    };
    if n <= 9999 {
        push_padded(&mut out, n, 4);
    } else {
        push_decimal(&mut out, n);
    }
    assert(out@ =~= year_text(y as int));
    push_text(&mut out, "-");
    push_padded(&mut out, m as u64, 2);
    push_text(&mut out, "-");
    push_padded(&mut out, d as u64, 2);
    push_text(&mut out, "T");
    push_padded(&mut out, (millis / 3_600_000) as u64, 2);
    push_text(&mut out, ":");
    push_padded(&mut out, (millis / 60_000 % 60) as u64, 2);
    push_text(&mut out, ":");
    push_padded(&mut out, (millis / 1000 % 60) as u64, 2);
    push_text(&mut out, ".");
    push_padded(&mut out, (millis % 1000) as u64, 3);
    push_text(&mut out, "Z");
    assert(out@ == instant_text(y as int, m as int, d as int, unix_millis as int % 86_400_000));
    assert(is_date(y as int, m as int, d as int));
    out
}

/// A number times a million, held in the range of 64 bits.
pub open spec fn saturated_million(n: i64) -> i64 {
    let p = n * 1_000_000;
    if p > i64::MAX {
        i64::MAX
    } else if p < i64::MIN {
        i64::MIN
    } else {
        p as i64
    }
}

/// A point in time in Unix seconds.
pub fn format_rfc3339_secs(secs: i64) -> (r: String)
    ensures
        is_instant(r@, saturated_million(secs) as int / 1000),
{
    let micros: i64 = if secs > 9_223_372_036_854 {
        i64::MAX
    } else if secs < -9_223_372_036_854 {
        i64::MIN
    } else {
        secs * 1_000_000
    };
    format_rfc3339_millis(micros)
}

/// A number that has as many digits as are asked for reads back from them.
proof fn lemma_padded(n: nat, width: nat)
    requires
        n < pow(10, width),
    ensures
        padded(n, width).len() == width,
        digits_value(padded(n, width)) == n,
    decreases width,
{
    reveal(pow);
    if width > 0 {
        let p = (width - 1) as nat;
        lemma_padded(n / 10, p);
        assert(padded(n, width).drop_last() =~= padded(n / 10, p));
        assert(padded(n, width).last() == digit(n % 10));
    }
}

/// The text of a point in time has its date and the time of its day at their
/// places: the year in four digits, the month and the day in two; behind a `T`
/// hours, minutes and seconds in two, and behind a point the milliseconds in
/// three. They add up to the milliseconds of the day.
pub proof fn law_instants_read_back(y: int, m: int, d: int, millis: int)
    requires
        0 <= y <= 9999,
        is_date(y, m, d),
        0 <= millis < 86_400_000,
    ensures
        ({
            let t = instant_text(y, m, d, millis);
            let hours = digits_value(t.subrange(11, 13));
            let minutes = digits_value(t.subrange(14, 16));
            let seconds = digits_value(t.subrange(17, 19));
            &&& t.len() == 24
            &&& digits_value(t.subrange(0, 4)) == y
            &&& digits_value(t.subrange(5, 7)) == m
            &&& digits_value(t.subrange(8, 10)) == d
            &&& minutes < 60 && seconds < 60
            &&& ((hours * 60 + minutes) * 60 + seconds) * 1000 + digits_value(t.subrange(20, 23)) == millis
            &&& t[4] == '-' && t[7] == '-' && t[10] == 'T' && t[13] == ':' && t[16] == ':'
            &&& t[19] == '.' && t[23] == 'Z'
        }),
{
    let t = instant_text(y, m, d, millis);
    let (h, mi, s, ms) = (millis / 3_600_000, millis / 60_000 % 60, millis / 1000 % 60, millis % 1000);
    assert(pow(10, 2) == 100 && pow(10, 3) == 1000 && pow(10, 4) == 10000) by {
        reveal(pow);
        reveal_with_fuel(pow, 5);
    }
    lemma_padded(y as nat, 4);
    lemma_padded(m as nat, 2);
    lemma_padded(d as nat, 2);
    lemma_padded(h as nat, 2);
    lemma_padded(mi as nat, 2);
    lemma_padded(s as nat, 2);
    lemma_padded(ms as nat, 3);
    reveal_strlit("-");
    reveal_strlit("T");
    reveal_strlit(":");
    reveal_strlit(".");
    reveal_strlit("Z");
    assert(t.subrange(0, 4) =~= padded(y as nat, 4));
    assert(t.subrange(5, 7) =~= padded(m as nat, 2));
    assert(t.subrange(8, 10) =~= padded(d as nat, 2));
    assert(t.subrange(11, 13) =~= padded(h as nat, 2));
    assert(t.subrange(14, 16) =~= padded(mi as nat, 2));
    assert(t.subrange(17, 19) =~= padded(s as nat, 2));
    assert(t.subrange(20, 23) =~= padded(ms as nat, 3));
}

/// Days follow each other: within a month, from the last day of a month to the
/// first of the next, and from the last of December to the first of January.
pub proof fn law_days_follow_each_other(y: int, m: int, d: int)
    requires
        is_date(y, m, d),
    ensures
        is_date(y, m, d + 1) ==> day_number(y, m, d + 1) == day_number(y, m, d) + 1,
        !is_date(y, m, d + 1) && m < 12 ==> day_number(y, m + 1, 1) == day_number(y, m, d) + 1,
        !is_date(y, m, d + 1) && m == 12 ==> day_number(y + 1, 1, 1) == day_number(y, m, d) + 1,
        is_date(y, 2, 29) <==> y % 4 == 0 && (y % 100 != 0 || y % 400 == 0),
        !is_date(y, 2, 30),
        is_date(y, 4, 30) && !is_date(y, 4, 31) && is_date(y, 12, 31) && !is_date(y, 12, 32),
{
    if m == 12 && !is_date(y, m, d + 1) {
        lemma_months_make_a_year(y);
        law_years_follow_each_other(y);
        assert(days_before_month(y, 13) == days_before_month(y, 12) + month_days(y, 12));
        assert(days_before_month(y + 1, 1) == 0);
    }
    if m < 12 {
        assert(days_before_month(y, m + 1) == days_before_month(y, m) + month_days(y, m));
    }
}

} // verus!
