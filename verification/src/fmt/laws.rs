//! How dates, times and numbers of things read.

use vstd::prelude::*;

use crate::fmt::{
    clock_text, date_text, datetime_text, day_number, days_before_month, lemma_civil,
    lemma_year_length, plural_text, two_digits, valid_date, year_text,
};
use crate::text::laws::law_numbers_are_read_back;
use crate::text::{dec, numeral, pad_left, value};

verus! {

/// How many days a month has.
pub open spec fn days_in(y: int, m: int) -> int {
    if m == 1 || m == 3 || m == 5 || m == 7 || m == 8 || m == 10 || m == 12 {
        31
    } else if m != 2 {
        30
    } else if y % 400 == 0 || (y % 4 == 0 && y % 100 != 0) {
        29
    } else {
        28
    }
}

/// The calendar: days are counted from the first of January 1970, one after the
/// other, through months of their usual lengths.
pub proof fn law_days_follow_the_calendar(y: int, m: int, d: int)
    ensures
        valid_date(y, m, d) <==> 1 <= m <= 12 && 1 <= d <= days_in(y, m),
        day_number(1970, 1, 1) == 0,
        valid_date(y, m, d) && d < days_in(y, m) ==> day_number(y, m, d + 1) == day_number(y, m, d)
            + 1,
        valid_date(y, m, d) && d == days_in(y, m) && m < 12 ==> day_number(y, m + 1, 1)
            == day_number(y, m, d) + 1,
        valid_date(y, m, d) && d == days_in(y, m) && m == 12 ==> day_number(y + 1, 1, 1)
            == day_number(y, m, d) + 1,
{
    lemma_year_length(y);
    assert(days_before_month(y, 13) == days_before_month(y, 12) + 31);
    assert(days_before_month(1970, 1) == 0);
    assert(days_before_month(y + 1, 1) == 0);
}

proof fn lemma_zeros(k: nat, s: Seq<char>)
    ensures
        value(Seq::new(k, |i: int| '0') + s) == value(s),
        numeral(s) ==> numeral(Seq::new(k, |i: int| '0') + s),
    decreases k + s.len(),
{
    let z = Seq::new(k, |i: int| '0');
    let t = z + s;
    if s.len() > 0 {
        lemma_zeros(k, s.drop_last());
        assert(t.drop_last() =~= z + s.drop_last());
    } else if k > 0 {
        lemma_zeros((k - 1) as nat, s);
        assert(t.drop_last() =~= Seq::new((k - 1) as nat, |i: int| '0') + s);
        assert(t.last() == '0');
    } else {
        assert(t =~= s);
    }
}

proof fn lemma_dec_width(n: nat)
    ensures
        n < 10 ==> dec(n).len() == 1,
        10 <= n < 100 ==> dec(n).len() == 2,
        100 <= n < 1000 ==> dec(n).len() == 3,
        1000 <= n < 10000 ==> dec(n).len() == 4,
        numeral(dec(n)),
    decreases n,
{
    if n >= 10 {
        lemma_dec_width(n / 10);
    }
}

proof fn lemma_padded(n: nat, width: nat)
    requires
        width == 2 && n < 100 || width == 4 && n < 10000,
    ensures
        pad_left(dec(n), '0', width).len() == width,
        numeral(pad_left(dec(n), '0', width)),
        value(pad_left(dec(n), '0', width)) == n,
{
    lemma_dec_width(n);
    law_numbers_are_read_back(n);
    if dec(n).len() < width {
        lemma_zeros((width - dec(n).len()) as nat, dec(n));
    }
}

/// A date reads year, month and day, in four, two and two digits, with dashes
/// between them, whatever the time of day.
pub proof fn law_dates_read_year_month_day(y: int, m: int, d: int, secs: int)
    requires
        valid_date(y, m, d),
        0 <= y <= 9999,
        0 <= secs < 86_400,
    ensures
        ({
            let t = date_text(86_400 * day_number(y, m, d) + secs);
            &&& t.len() == 10
            &&& t[4] == '-' && t[7] == '-'
            &&& numeral(t.take(4)) && value(t.take(4)) == y
            &&& numeral(t.subrange(5, 7)) && value(t.subrange(5, 7)) == m
            &&& numeral(t.skip(8)) && value(t.skip(8)) == d
        }),
{
    let z = day_number(y, m, d);
    let t = date_text(86_400 * z + secs);
    assert((86_400 * z + secs) / 86_400 == z);
    lemma_civil(y, m, d);
    lemma_padded(y as nat, 4);
    lemma_padded(m as nat, 2);
    lemma_padded(d as nat, 2);
    assert(t.take(4) =~= year_text(y));
    assert(t.subrange(5, 7) =~= two_digits(m));
    assert(t.skip(8) =~= two_digits(d));
}

/// A time of day reads hours and minutes, in two digits each, with a colon between
/// them; the seconds are cut off. Together with the date it stands behind a space.
pub proof fn law_times_read_hours_and_minutes(day: int, secs: int)
    requires
        0 <= secs < 86_400,
    ensures
        ({
            let t = clock_text(86_400 * day + secs);
            &&& t.len() == 5
            &&& t[2] == ':'
            &&& numeral(t.take(2)) && numeral(t.skip(3))
            &&& 0 <= value(t.take(2)) < 24
            &&& 0 <= value(t.skip(3)) < 60
            &&& 3600 * value(t.take(2)) + 60 * value(t.skip(3)) <= secs
            &&& secs < 3600 * value(t.take(2)) + 60 * value(t.skip(3)) + 60
        }),
        datetime_text(86_400 * day + secs) == date_text(86_400 * day + secs) + seq![' ']
            + clock_text(86_400 * day + secs),
{
    let t = clock_text(86_400 * day + secs);
    assert((86_400 * day + secs) % 86_400 == secs);
    lemma_padded((secs / 3600) as nat, 2);
    lemma_padded(((secs % 3600) / 60) as nat, 2);
    assert(t.take(2) =~= two_digits(secs / 3600));
    assert(t.skip(3) =~= two_digits((secs % 3600) / 60));
}

/// Years before the first read with a sign, and no less than three digits.
pub proof fn law_years_before_the_first_have_a_sign(y: int)
    requires
        y < 0,
    ensures
        year_text(y).len() >= 4,
        year_text(y)[0] == '-',
        value(year_text(y).drop_first()) == -y,
{
    let n = (-y) as nat;
    lemma_dec_width(n);
    law_numbers_are_read_back(n);
    if dec(n).len() < 3 {
        lemma_zeros((3 - dec(n).len()) as nat, dec(n));
    }
    assert(year_text(y).drop_first() =~= pad_left(dec(n), '0', 3));
}

/// One thing is named in the singular, any other number of them in the plural: with
/// an `s`, but that several persons are people.
pub proof fn law_several_things_are_named_in_the_plural(n: nat, singular: Seq<char>)
    requires
        n != 1,
    ensures
        plural_text(1, singular) == seq!['1', ' '] + singular,
        singular != "person"@ ==> plural_text(n, singular) == dec(n) + seq![' '] + singular + seq![
            's',
        ],
        plural_text(n, "person"@) == dec(n) + " people"@,
{
    reveal_strlit(" people");
    reveal_strlit("people");
    assert(dec(1) =~= seq!['1']);
    assert(plural_text(1, singular) =~= seq!['1', ' '] + singular);
    if singular != "person"@ {
        assert(plural_text(n, singular) =~= dec(n) + seq![' '] + singular + seq!['s']);
    }
    assert(" people"@ =~= seq![' '] + "people"@);
    assert(plural_text(n, "person"@) =~= dec(n) + " people"@);
}

} // verus!
