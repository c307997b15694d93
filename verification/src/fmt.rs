//! Small formatting helpers for operator-facing output.
//!
//! Dates are formatted here rather than pulled from a calendar crate: the only
//! requirement is a `YYYY-MM-DD` label in probe output and the picker, and a
//! date library is a lot of dependency for that. The conversion is Hinnant's
//! `civil_from_days`, which is exact for the whole proleptic Gregorian range.

use vstd::prelude::*;

use crate::text;

pub mod laws;

verus! {

// ── the calendar ─────────────────────────────────────────────────────────────

/// The Gregorian leap-year rule.
pub open spec fn leap(y: int) -> bool {
    y % 4 == 0 && (y % 100 != 0 || y % 400 == 0)
}

/// How many days month `m` of year `y` has.
pub open spec fn month_len(y: int, m: int) -> int {
    if m == 2 {
        if leap(y) {
            29
        } else {
            28
        }
    } else if m == 4 || m == 6 || m == 9 || m == 11 {
        30
    } else {
        31
    }
}

/// Whether year `y` has a day `d` of month `m`.
pub open spec fn valid_date(y: int, m: int, d: int) -> bool {
    1 <= m <= 12 && 1 <= d <= month_len(y, m)
}

/// Days of year `y` ahead of the first of month `m`.
pub open spec fn days_before_month(y: int, m: int) -> int
    decreases m,
{
    if m <= 1 {
        0
    } else {
        days_before_month(y, m - 1) + month_len(y, m - 1)
    }
}

/// Leap years ahead of year `y`, counted from year 1.
pub open spec fn leaps_before(y: int) -> int {
    (y - 1) / 4 - (y - 1) / 100 + (y - 1) / 400
}

/// Days from the first of January 1970 to the first of January of year `y`.
pub open spec fn days_before_year(y: int) -> int {
    365 * (y - 1970) + leaps_before(y) - leaps_before(1970)
}

/// Days from the first of January 1970 to a date.
pub open spec fn day_number(y: int, m: int, d: int) -> int {
    days_before_year(y) + days_before_month(y, m) + d - 1
}

/// The date that lies `z` days after the first of January 1970.
pub open spec fn civil(z: int) -> (int, int, int) {
    choose|t: (int, int, int)| #[trigger]
        valid_date(t.0, t.1, t.2) && day_number(t.0, t.1, t.2) == z
}

/// A year is as long as its months, and the next one starts right behind it.
pub proof fn lemma_year_length(y: int)
    ensures
        days_before_year(y + 1) - days_before_year(y) == if leap(y) {
            366int
        } else {
            365int
        },
        days_before_month(y, 13) == days_before_year(y + 1) - days_before_year(y),
{
    lemma_month_table(y);
}

/// Where each month starts.
proof fn lemma_month_table(y: int)
    ensures
        ({
            let k = if leap(y) {
                1int
            } else {
                0int
            };
            &&& days_before_month(y, 1) == 0
            &&& days_before_month(y, 2) == 31
            &&& days_before_month(y, 3) == 59 + k
            &&& days_before_month(y, 4) == 90 + k
            &&& days_before_month(y, 5) == 120 + k
            &&& days_before_month(y, 6) == 151 + k
            &&& days_before_month(y, 7) == 181 + k
            &&& days_before_month(y, 8) == 212 + k
            &&& days_before_month(y, 9) == 243 + k
            &&& days_before_month(y, 10) == 273 + k
            &&& days_before_month(y, 11) == 304 + k
            &&& days_before_month(y, 12) == 334 + k
            &&& days_before_month(y, 13) == 365 + k
        }),
{
    reveal_with_fuel(days_before_month, 14);
}

proof fn lemma_years_ascend(a: int, b: int)
    requires
        a <= b,
    ensures
        days_before_year(a) + 365 * (b - a) <= days_before_year(b),
    decreases b - a,
{
    if a < b {
        lemma_years_ascend(a, b - 1);
        lemma_year_length(b - 1);
    }
}

/// A date lies inside its year.
proof fn lemma_date_in_year(y: int, m: int, d: int)
    requires
        valid_date(y, m, d),
    ensures
        days_before_year(y) <= day_number(y, m, d) < days_before_year(y + 1),
{
    lemma_month_table(y);
    lemma_year_length(y);
}

/// No two dates share a day: a later date has a larger number.
pub proof fn lemma_dates_ascend(y1: int, m1: int, d1: int, y2: int, m2: int, d2: int)
    requires
        valid_date(y1, m1, d1),
        valid_date(y2, m2, d2),
        y1 < y2 || (y1 == y2 && m1 < m2) || (y1 == y2 && m1 == m2 && d1 < d2),
    ensures
        day_number(y1, m1, d1) < day_number(y2, m2, d2),
{
    lemma_date_in_year(y1, m1, d1);
    lemma_date_in_year(y2, m2, d2);
    if y1 < y2 {
        lemma_years_ascend(y1 + 1, y2);
    } else {
        lemma_month_table(y1);
    }
}

/// A valid date is the date of its day number.
pub proof fn lemma_civil(y: int, m: int, d: int)
    requires
        valid_date(y, m, d),
    ensures
        civil(day_number(y, m, d)) == (y, m, d),
{
    let z = day_number(y, m, d);
    let t = (y, m, d);
    assert(valid_date(t.0, t.1, t.2) && day_number(t.0, t.1, t.2) == z);
    let c = civil(z);
    assert(valid_date(c.0, c.1, c.2) && day_number(c.0, c.1, c.2) == z);
    if c != t {
        if c.0 < y || (c.0 == y && c.1 < m) || (c.0 == y && c.1 == m && c.2 < d) {
            lemma_dates_ascend(c.0, c.1, c.2, y, m, d);
        } else {
            lemma_dates_ascend(y, m, d, c.0, c.1, c.2);
        }
    }
}

/// A day of a 400-year era, counted from the first of March, split into
/// centuries, four-year cycles, years and days.
proof fn lemma_year_of_era(doe: int) -> (yoe: int)
    requires
        0 <= doe < 146_097,
    ensures
        yoe == (doe - doe / 1460 + doe / 36_524 - doe / 146_096) / 365,
        0 <= yoe < 400,
        0 <= doe - (365 * yoe + yoe / 4 - yoe / 100) <= 365,
        doe - (365 * yoe + yoe / 4 - yoe / 100) == 365 ==> leap(yoe + 1),
{
    let c = if doe / 36_524 > 3 {
        3
    } else {
        doe / 36_524
    };
    let r = doe - 36_524 * c;
    let q = r / 1461;
    let s = r - 1461 * q;
    let y = if s / 365 > 3 {
        3
    } else {
        s / 365
    };
    let doy = s - 365 * y;
    let yoe = 100 * c + 4 * q + y;
    assert(0 <= c <= 3);
    assert(0 <= r <= 36_524);
    assert(c < 3 ==> r < 36_524);
    assert(0 <= q <= 24);
    assert(0 <= s <= 1460);
    assert(0 <= y <= 3);
    assert(0 <= doy <= 365);
    assert(doy == 365 ==> y == 3);
    assert(yoe / 4 == 25 * c + q);
    assert(yoe / 100 == c);
    assert(doe == 365 * yoe + yoe / 4 - yoe / 100 + doy);
    assert(doe / 36_524 - doe / 146_096 == c);
    let t = (24 * c + q + 365 * y + doy) / 1460;
    assert(doe == 1460 * (25 * c + q) + (24 * c + q + 365 * y + doy));
    assert(doe / 1460 == 25 * c + q + t);
    assert(doe - doe / 1460 + c == 365 * yoe + doy - t);
    assert(0 <= doy - t <= 364);
    if doy == 365 {
        assert(s == 1460);
        assert(yoe + 1 == 100 * c + 4 * (q + 1));
        if q == 24 {
            assert(c == 3);
        } else {
            assert((yoe + 1) % 100 == 4 * (q + 1));
        }
    }
    yoe
}

/// Days ahead of the `mp`-th month after March, counted from the first of March.
spec fn march_start(mp: int) -> int {
    (153 * mp + 2) / 5
}

/// The month a day of the March-based year falls in.
proof fn lemma_month_of_year(doy: int) -> (mp: int)
    requires
        0 <= doy <= 365,
    ensures
        mp == (5 * doy + 2) / 153,
        0 <= mp <= 11,
        march_start(mp) <= doy,
        mp < 11 ==> doy < march_start(mp + 1),
{
    (5 * doy + 2) / 153
}

/// The date of day `doy` of the year that starts on the first of March of `y`.
proof fn lemma_march_based(y: int, doy: int, mp: int)
    requires
        0 <= doy <= 365,
        doy == 365 ==> leap(y + 1),
        0 <= mp <= 11,
        march_start(mp) <= doy,
        mp < 11 ==> doy < march_start(mp + 1),
    ensures
        ({
            let m = if mp < 10 {
                mp + 3
            } else {
                mp - 9
            };
            let year = if m <= 2 {
                y + 1
            } else {
                y
            };
            let d = doy - march_start(mp) + 1;
            &&& valid_date(year, m, d)
            &&& day_number(year, m, d) == days_before_year(y + 1) - 306 + doy
        }),
{
    lemma_month_table(y);
    lemma_month_table(y + 1);
    lemma_year_length(y);
    assert(mp == 0 || mp == 1 || mp == 2 || mp == 3 || mp == 4 || mp == 5 || mp == 6 || mp == 7
        || mp == 8 || mp == 9 || mp == 10 || mp == 11);
}

/// Year `yoe` of era `era`, both counted from March, starts where the days of
/// the eras and years ahead of it end.
proof fn lemma_year_of_eras(era: int, yoe: int)
    requires
        0 <= yoe < 400,
    ensures
        days_before_year(yoe + 400 * era + 1) == 146_097 * era + 365 * yoe + yoe / 4 - yoe / 100
            - 719_468 + 306,
        leap(yoe + 1) == leap(yoe + 400 * era + 1),
{
    let y = yoe + 400 * era;
    assert(y / 4 == yoe / 4 + 100 * era);
    assert(y / 100 == yoe / 100 + 4 * era);
    assert(y / 400 == era);
}

/// Every day has a date, and [`civil`] gives it: one that the calendar has, and
/// whose day number is that of the day.
pub proof fn law_every_day_has_a_date(z: int)
    ensures
        ({
            let (y, m, d) = civil(z);
            valid_date(y, m, d) && day_number(y, m, d) == z
        }),
{
    let days = z + 719_468;
    let era = days / 146_097;
    let doe = days % 146_097;
    let yoe = lemma_year_of_era(doe);
    let doy = doe - (365 * yoe + yoe / 4 - yoe / 100);
    let mp = lemma_month_of_year(doy);
    let y = yoe + 400 * era;
    lemma_year_of_eras(era, yoe);
    lemma_march_based(y, doy, mp);
    let m = if mp < 10 {
        mp + 3
    } else {
        mp - 9
    };
    let year = if m <= 2 {
        y + 1
    } else {
        y
    };
    lemma_civil(year, m, doy - march_start(mp) + 1);
}

/// Days since 1970-01-01 → (year, month, day).
fn civil_from_days(z: i64) -> (r: (i64, u32, u32))
    requires
        z + 719_468 <= i64::MAX,
    ensures
        valid_date(r.0 as int, r.1 as int, r.2 as int),
        day_number(r.0 as int, r.1 as int, r.2 as int) == z,
        (r.0 as int, r.1 as int, r.2 as int) == civil(z as int),
        -30_000_000_000_000_000 <= r.0 <= 30_000_000_000_000_000,
{
    let days: i64 = z + 719_468;
    let era: i64 = floor_div(days, 146_097);
    let doe: i64 = days - era * 146_097;
    assert(0 <= doe < 146_097);
    let (yoe, doy) = year_of_era(doe);
    let y: i64 = yoe + era * 400;
    let (mp, d) = month_of_year(doy);
    proof {
        lemma_year_of_eras(era as int, yoe as int);
        lemma_march_based(y as int, doy as int, mp as int);
    }
    let m: i64 = if mp < 10 {
        mp + 3
    } else {
        mp - 9
    };
    let year: i64 = if m <= 2 {
        y + 1
    } else {
        y
    };
    proof {
        lemma_civil(year as int, m as int, d as int);
    }
    (year, m as u32, d as u32)
}

/// The year of the era, and the day of that year, both counted from March.
fn year_of_era(doe: i64) -> (r: (i64, i64))
    requires
        0 <= doe < 146_097,
    ensures
        0 <= r.0 < 400,
        0 <= r.1 <= 365,
        r.1 == 365 ==> leap(r.0 + 1),
        doe == 365 * r.0 + r.0 as int / 4 - r.0 as int / 100 + r.1,
{
    let yoe: i64 = (doe - doe / 1460 + doe / 36_524 - doe / 146_096) / 365;
    proof {
        lemma_year_of_era(doe as int);
    }
    (yoe, doe - (365 * yoe + yoe / 4 - yoe / 100))
}

/// The month after March, and the day of that month.
fn month_of_year(doy: i64) -> (r: (i64, i64))
    requires
        0 <= doy <= 365,
    ensures
        0 <= r.0 <= 11,
        march_start(r.0 as int) <= doy,
        r.0 < 11 ==> doy < march_start(r.0 + 1),
        r.1 == doy - march_start(r.0 as int) + 1,
{
    let mp: i64 = (5 * doy + 2) / 153;
    proof {
        lemma_month_of_year(doy as int);
    }
    (mp, doy - (153 * mp + 2) / 5 + 1)
}

/// Rounds towards minus infinity, for a positive divisor.
fn floor_div(a: i64, b: i64) -> (q: i64)
    requires
        b > 0,
    ensures
        q == a as int / b as int,
{
    assert(i64::MIN <= a as int / b as int <= i64::MAX) by (nonlinear_arith)
        requires
            b > 0,
            i64::MIN <= a <= i64::MAX,
    ;
    match a.checked_div_euclid(b) {
        Some(q) => q,
        None => 0,
    }
}

// ── dates as text ────────────────────────────────────────────────────────────

/// A year, zero-padded to four characters with its sign counted among them.
pub open spec fn year_text(y: int) -> Seq<char> {
    if y < 0 {
        seq!['-'] + text::pad_left(text::dec((-y) as nat), '0', 3)
    } else {
        text::pad_left(text::dec(y as nat), '0', 4)
    }
}

/// A number, zero-padded to two digits.
pub open spec fn two_digits(n: int) -> Seq<char> {
    text::pad_left(text::dec(n as nat), '0', 2)
}

/// The UTC date of a moment in unix seconds, as `YYYY-MM-DD`.
pub open spec fn date_text(secs: int) -> Seq<char> {
    let (y, m, d) = civil(secs / 86_400);
    year_text(y) + seq!['-'] + two_digits(m) + seq!['-'] + two_digits(d)
}

/// The UTC time of day of a moment in unix seconds, as `HH:MM`.
pub open spec fn clock_text(secs: int) -> Seq<char> {
    let s = secs % 86_400;
    two_digits(s / 3600) + seq![':'] + two_digits((s % 3600) / 60)
}

/// A moment in unix seconds, as `YYYY-MM-DD HH:MM` (UTC).
pub open spec fn datetime_text(secs: int) -> Seq<char> {
    date_text(secs) + seq![' '] + clock_text(secs)
}

fn push_two_digits(out: &mut String, n: u64)
    ensures
        final(out)@ == old(out)@ + two_digits(n as int),
{
    let digits = text::decimal(n);
    out.append(text::right_aligned(digits.as_str(), '0', 2).as_str());
}

fn push_year(out: &mut String, y: i64)
    requires
        y > i64::MIN,
    ensures
        final(out)@ == old(out)@ + year_text(y as int),
{
    if y < 0 {
        out.push('-');
        let digits = text::decimal((-y) as u64);
        out.append(text::right_aligned(digits.as_str(), '0', 3).as_str());
        assert(out@ =~= old(out)@ + year_text(y as int));
    } else {
        let digits = text::decimal(y as u64);
        out.append(text::right_aligned(digits.as_str(), '0', 4).as_str());
    }
}

/// Format unix seconds as `YYYY-MM-DD` (UTC).
pub fn date(unix_secs: i64) -> (r: String)
    ensures
        r@ == date_text(unix_secs as int),
{
    let (y, m, d) = civil_from_days(floor_div(unix_secs, 86_400));
    let mut out = String::new();
    push_year(&mut out, y);
    out.push('-');
    push_two_digits(&mut out, m as u64);
    out.push('-');
    push_two_digits(&mut out, d as u64);
    assert(out@ =~= date_text(unix_secs as int));
    out
}

/// Format unix seconds as `YYYY-MM-DD HH:MM` (UTC).
pub fn datetime(unix_secs: i64) -> (r: String)
    ensures
        r@ == datetime_text(unix_secs as int),
{
    let mut out = date(unix_secs);
    let days: i64 = floor_div(unix_secs, 86_400);
    let secs_of_day: u64 = (unix_secs as i128 - days as i128 * 86_400) as u64;
    assert(secs_of_day == unix_secs as int % 86_400);
    out.push(' ');
    push_two_digits(&mut out, secs_of_day / 3600);
    out.push(':');
    push_two_digits(&mut out, (secs_of_day % 3600) / 60);
    assert(out@ =~= datetime_text(unix_secs as int));
    out
}

// ── counts as text ───────────────────────────────────────────────────────────

/// A count and what it counts: `1 message`, `2 messages`.
pub open spec fn plural_text(n: nat, singular: Seq<char>) -> Seq<char> {
    text::dec(n) + seq![' '] + if n == 1 {
        singular
    } else if singular == "person"@ {
        "people"@
    } else {
        singular + seq!['s']
    }
}

/// Pluralise a count for log lines: `1 message`, `2 messages`.
///
/// Handles the few irregular words this tool actually uses rather than
/// pretending English is regular; anything else gets a bare `s`.
pub fn plural(n: usize, singular: &str) -> (r: String)
    ensures
        r@ == plural_text(n as nat, singular@),
{
    let mut out = text::decimal(n as u64);
    out.push(' ');
    if n == 1 {
        out.append(singular);
    } else if text::same(singular, "person") {
        out.append("people");
    } else {
        out.append(singular);
        out.push('s');
    }
    assert(out@ =~= plural_text(n as nat, singular@));
    out
}

} // verus!
