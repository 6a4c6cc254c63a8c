//! Times: which date and which time of the day a timestamp shows.
use crate::text::decimal_value;
use crate::timestamp::{
    date_after, days_in_month, digits, lemma_date_bounds, lemma_digits_len, lemma_fields,
    lemma_same_day, lemma_ten_to, ten_to, timestamp_text,
};
use vstd::prelude::*;

verus! {

/// The nanoseconds of a day.
pub open spec fn day() -> u64 {
    86_400_000_000_000
}

/// The number that stands in `text` from `from` up to `to`.
pub open spec fn number_at(text: Seq<char>, from: int, to: int) -> nat {
    decimal_value(text.subrange(from, to))
}

/// Digits write the number that they are the digits of, where they suffice.
proof fn lemma_digits_value(n: nat, width: nat)
    requires
        n < ten_to(width),
    ensures
        decimal_value(digits(n, width)) == n,
    decreases width,
{
    if width > 0 {
        let less = (width - 1) as nat;
        lemma_digits_value(n / 10, less);
        lemma_digits_len(n / 10, less);
        assert(digits(n, width).drop_last() =~= digits(n / 10, less));
    }
}

/// The date that comes a day later is the next one of the calendar.
proof fn lemma_next_date(year: nat, month: nat, days: nat)
    requires
        1 <= month <= 12,
    ensures
        ({
            let (y, m, d) = date_after(year, month, days);
            &&& d <= days_in_month(y, m)
            &&& date_after(year, month, days + 1) == if d < days_in_month(y, m) {
                (y, m, d + 1)
            } else if m < 12 {
                (y, m + 1, 1nat)
            } else {
                (y + 1, 1nat, 1nat)
            }
        }),
    decreases days,
{
    let length = days_in_month(year, month);
    if days >= length {
        if month < 12 {
            lemma_next_date(year, month + 1, (days - length) as nat);
        } else {
            lemma_next_date(year + 1, 1, (days - length) as nat);
        }
    } else if days + 1 == length {
        reveal_with_fuel(date_after, 2);
    }
}

/// A timestamp has the shape `YYYY-MM-DD hh:mm:ss.nnnnnnnnn`, and the hours,
/// minutes, seconds and nanoseconds in it are those of the time.
pub proof fn timestamps_show_the_time_of_day(t: u64)
    ensures
        timestamp_text(t).len() == 29,
        timestamp_text(t)[4] == '-',
        timestamp_text(t)[7] == '-',
        timestamp_text(t)[10] == ' ',
        timestamp_text(t)[13] == ':',
        timestamp_text(t)[16] == ':',
        timestamp_text(t)[19] == '.',
        number_at(timestamp_text(t), 11, 13) == t / 3_600_000_000_000 % 24,
        number_at(timestamp_text(t), 14, 16) == t / 60_000_000_000 % 60,
        number_at(timestamp_text(t), 17, 19) == t / 1_000_000_000 % 60,
        number_at(timestamp_text(t), 20, 29) == t % 1_000_000_000,
{
    let seconds = (t / 1_000_000_000) as nat;
    let time = seconds % 86_400;
    lemma_fields(t);
    lemma_ten_to();
    lemma_clock_fields(t);
    lemma_digits_value(time / 3600, 2);
    lemma_digits_value(time / 60 % 60, 2);
    lemma_digits_value(time % 60, 2);
    lemma_digits_value((t % 1_000_000_000) as nat, 9);
}

/// The hours, minutes and seconds of a time do not depend on its day.
proof fn lemma_clock_fields(t: u64)
    ensures
        ({
            let time = t / 1_000_000_000 % 86_400;
            &&& time / 3600 == t / 3_600_000_000_000 % 24
            &&& time / 60 % 60 == t / 60_000_000_000 % 60
            &&& time % 60 == t / 1_000_000_000 % 60
        }),
{
    let s = t / 1_000_000_000;
    let time = s % 86_400;
    assert(t / 60_000_000_000 == s / 60);
    assert(t / 3_600_000_000_000 == s / 3600);
    let days = s / 86_400;
    assert(s == 86_400 * days + time);
    assert(s / 3600 == 24 * days + time / 3600);
    assert(s / 60 == 1440 * days + time / 60);
}

/// The numbers of the date.
proof fn lemma_date_numbers(t: u64)
    ensures
        ({
            let (y, m, d) = date_after(1970, 1, (t / day()) as nat);
            &&& number_at(timestamp_text(t), 0, 4) == y
            &&& number_at(timestamp_text(t), 5, 7) == m
            &&& number_at(timestamp_text(t), 8, 10) == d
        }),
{
    let (y, m, d) = date_after(1970, 1, (t / day()) as nat);
    assert(t / 1_000_000_000 / 86_400 == t / day());
    lemma_fields(t);
    lemma_ten_to();
    lemma_digits_value(y, 4);
    lemma_digits_value(m, 2);
    lemma_digits_value(d, 2);
}

/// The first day is the first of January 1970.
pub proof fn the_first_day_is_the_epoch(t: u64)
    requires
        t < day(),
    ensures
        number_at(timestamp_text(t), 0, 4) == 1970,
        number_at(timestamp_text(t), 5, 7) == 1,
        number_at(timestamp_text(t), 8, 10) == 1,
{
    lemma_date_numbers(t);
}

/// All times of a day have the same date.
pub proof fn a_day_has_one_date(a: u64, b: u64)
    requires
        a / day() == b / day(),
    ensures
        timestamp_text(a).take(10) == timestamp_text(b).take(10),
{
    lemma_same_day(a, b);
    assert(timestamp_text(a).take(11).take(10) =~= timestamp_text(a).take(10)) by {
        lemma_fields(a);
    }
    assert(timestamp_text(b).take(11).take(10) =~= timestamp_text(b).take(10)) by {
        lemma_fields(b);
    }
}

/// A day later the date is the next one of the calendar: the next day of the
/// month, else the first of the next month, else the first of the next year.
pub proof fn the_next_day_has_the_next_date(t: u64)
    requires
        t + day() <= u64::MAX,
    ensures
        ({
            let (text, next) = (timestamp_text(t), timestamp_text((t + day()) as u64));
            let (y, m, d) = (number_at(text, 0, 4), number_at(text, 5, 7), number_at(text, 8, 10));
            &&& 1 <= m <= 12
            &&& 1 <= d <= days_in_month(y, m)
            &&& number_at(next, 0, 4) == if m == 12 && d == 31 {
                y + 1
            } else {
                y
            }
            &&& number_at(next, 5, 7) == if d < days_in_month(y, m) {
                m
            } else if m < 12 {
                m + 1
            } else {
                1
            }
            &&& number_at(next, 8, 10) == if d < days_in_month(y, m) {
                d + 1
            } else {
                1
            }
        }),
{
    let later = (t + day()) as u64;
    assert(later / day() == t / day() + 1);
    lemma_date_numbers(t);
    lemma_date_numbers(later);
    lemma_date_bounds(1970, 1, (t / day()) as nat);
    lemma_next_date(1970, 1, (t / day()) as nat);
}

} // verus!
