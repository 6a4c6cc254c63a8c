//! Points in time, written as ClickHouse's `DateTime64(9)` takes them.
use std::time::{Duration, UNIX_EPOCH};
use vstd::prelude::*;

verus! {

/// `year` has a 29th of February.
pub open spec fn is_leap_year(year: nat) -> bool {
    year % 4 == 0 && (year % 100 != 0 || year % 400 == 0)
}

/// The number of days in a month of the Gregorian calendar.
pub open spec fn days_in_month(year: nat, month: nat) -> nat {
    if month == 2 {
        if is_leap_year(year) {
            29
        } else {
            28
        }
    } else if month == 4 || month == 6 || month == 9 || month == 11 {
        30
    } else {
        31
    }
}

/// The year, month and day that come `days` days after the first day of the
/// given month.
pub open spec fn date_after(year: nat, month: nat, days: nat) -> (nat, nat, nat)
    decreases days,
{
    let length = days_in_month(year, month);
    if days < length {
        (year, month, days + 1)
    } else if month < 12 {
        date_after(year, month + 1, (days - length) as nat)
    } else {
        date_after(year + 1, 1, (days - length) as nat)
    }
}

/// The last `width` decimal digits of `n`, with leading zeros.
pub open spec fn digits(n: nat, width: nat) -> Seq<char>
    decreases width,
{
    if width == 0 {
        Seq::empty()
    } else {
        digits(n / 10, (width - 1) as nat).push((('0' as nat + n % 10) as u32) as char)
    }
}

/// The time `seconds` seconds and `nanos` nanoseconds after the beginning of
/// 1970 in UTC, as `YYYY-MM-DD hh:mm:ss.nnnnnnnnn`.
pub open spec fn utc_text(seconds: nat, nanos: nat) -> Seq<char> {
    let (year, month, day) = date_after(1970, 1, seconds / 86_400);
    let time = seconds % 86_400;
    digits(year, 4) + seq!['-'] + digits(month, 2) + seq!['-'] + digits(day, 2) + seq![' ']
        + digits(time / 3600, 2) + seq![':'] + digits(time / 60 % 60, 2) + seq![':'] + digits(
        time % 60,
        2,
    ) + seq!['.'] + digits(nanos, 9)
}

/// Calls `format` and `to_string` of `chrono::DateTime<Utc>` on the time that
/// `From<SystemTime>` makes of the seconds and nanoseconds. `chrono` counts by
/// the Gregorian calendar without leap seconds; `%Y` has four digits, `%m`,
/// `%d`, `%H`, `%M` and `%S` have two, and `%f` has nine. A `SystemTime` of the
/// systems that Lambda runs on keeps whole nanoseconds.
#[verifier::external_body]
fn format_utc(seconds: u64, nanos: u32) -> (r: String)
    requires
        seconds <= u64::MAX / 1_000_000_000,
        nanos < 1_000_000_000,
    ensures
        r@ == utc_text(seconds as nat, nanos as nat),
{
    let time = UNIX_EPOCH + Duration::new(seconds, nanos);
    chrono::DateTime::<chrono::Utc>::from(time).format("%Y-%m-%d %H:%M:%S.%f").to_string()
}

/// The text for a time in nanoseconds since the beginning of 1970.
pub open spec fn timestamp_text(timestamp_nanos: u64) -> Seq<char> {
    utc_text((timestamp_nanos / 1_000_000_000) as nat, (timestamp_nanos % 1_000_000_000) as nat)
}

/// Formats a timestamp in nanoseconds as a date and time.
pub fn format_timestamp(timestamp_nanos: u64) -> (r: String)
    ensures
        r@ == timestamp_text(timestamp_nanos),
{
    let seconds: u64 = timestamp_nanos / 1_000_000_000;
    let nanos: u64 = timestamp_nanos % 1_000_000_000;
    format_utc(seconds, nanos as u32)
}

/// Ten to the power `n`.
pub open spec fn ten_to(n: nat) -> nat
    decreases n,
{
    if n == 0 {
        1
    } else {
        10 * ten_to((n - 1) as nat)
    }
}

/// A number has as many digits as are asked for.
pub proof fn lemma_digits_len(n: nat, width: nat)
    ensures
        digits(n, width).len() == width,
    decreases width,
{
    if width > 0 {
        lemma_digits_len(n / 10, (width - 1) as nat);
    }
}

/// The digits of a smaller number are smaller at the first place where they
/// differ, where the digits suffice.
proof fn lemma_digits_less(a: nat, b: nat, width: nat) -> (at: int)
    requires
        a < b < ten_to(width),
    ensures
        0 <= at < width,
        digits(a, width).len() == width,
        digits(b, width).len() == width,
        digits(a, width).take(at) == digits(b, width).take(at),
        digits(a, width)[at] < digits(b, width)[at],
    decreases width,
{
    let less = (width - 1) as nat;
    let (x, y) = (digits(a, width), digits(b, width));
    lemma_digits_len(a, width);
    lemma_digits_len(b, width);
    lemma_digits_len(a / 10, less);
    lemma_digits_len(b / 10, less);
    if a / 10 < b / 10 {
        let at = lemma_digits_less(a / 10, b / 10, less);
        assert(x.take(at) =~= digits(a / 10, less).take(at));
        assert(y.take(at) =~= digits(b / 10, less).take(at));
        at
    } else {
        assert(x.take(less as int) =~= digits(a / 10, less));
        assert(y.take(less as int) =~= digits(b / 10, less));
        less as int
    }
}

/// Dates have a month, a day, and a year that goes up by no more than one for
/// every four weeks.
pub proof fn lemma_date_bounds(year: nat, month: nat, days: nat)
    requires
        1 <= month <= 12,
    ensures
        ({
            let (y, m, d) = date_after(year, month, days);
            &&& 1 <= m <= 12
            &&& 1 <= d <= 31
            &&& 12 * y + m >= 12 * year + month
            &&& y <= year + days / 28
        }),
    decreases days,
{
    let length = days_in_month(year, month);
    if days >= length {
        if month < 12 {
            lemma_date_bounds(year, month + 1, (days - length) as nat);
        } else {
            lemma_date_bounds(year + 1, 1, (days - length) as nat);
        }
    }
}

/// An earlier day has an earlier date.
proof fn lemma_dates_less(year: nat, month: nat, a: nat, b: nat)
    requires
        1 <= month <= 12,
        a < b,
    ensures
        ({
            let (y1, m1, d1) = date_after(year, month, a);
            let (y2, m2, d2) = date_after(year, month, b);
            12 * y1 + m1 < 12 * y2 + m2 || (y1 == y2 && m1 == m2 && d1 < d2)
        }),
    decreases a,
{
    let length = days_in_month(year, month);
    let (next_year, next_month) = if month < 12 {
        (year, month + 1)
    } else {
        (year + 1, 1nat)
    };
    if a >= length {
        lemma_dates_less(next_year, next_month, (a - length) as nat, (b - length) as nat);
    } else if b >= length {
        lemma_date_bounds(next_year, next_month, (b - length) as nat);
    }
}

/// `first` comes before `second` in the lexicographic order at `at`: the texts
/// agree up to that place, where `first` ends or has the smaller character.
pub open spec fn text_less_at(first: Seq<char>, second: Seq<char>, at: int) -> bool {
    &&& 0 <= at <= first.len()
    &&& at < second.len()
    &&& first.take(at) == second.take(at)
    &&& at == first.len() || first[at] < second[at]
}

/// `first` comes before `second` in the lexicographic order.
pub open spec fn text_less(first: Seq<char>, second: Seq<char>) -> bool {
    exists|at: int| text_less_at(first, second, at)
}

/// No text comes before one that comes before it, nor before itself.
proof fn lemma_text_less(first: Seq<char>, second: Seq<char>)
    requires
        text_less(first, second),
    ensures
        !text_less(second, first),
        first != second,
{
    let i = choose|at: int| text_less_at(first, second, at);
    assert forall|j: int| !text_less_at(second, first, j) by {
        if text_less_at(second, first, j) {
            if i < j {
                assert(second.take(j)[i] == first.take(j)[i]);
            } else if j < i {
                assert(second.take(i)[j] == first.take(i)[j]);
            }
        }
    }
    if first == second {
        assert(text_less_at(second, first, i));
    }
}

/// A text with a smaller number comes first, where all before the number agrees.
proof fn lemma_field_less(x: Seq<char>, y: Seq<char>, at: int, a: nat, b: nat, width: nat)
    requires
        0 <= at,
        at + width <= x.len(),
        x.len() == y.len(),
        x.take(at) == y.take(at),
        x.subrange(at, at + width) == digits(a, width),
        y.subrange(at, at + width) == digits(b, width),
        a < b < ten_to(width),
    ensures
        text_less(x, y),
{
    let i = lemma_digits_less(a, b, width);
    let (p, q) = (x.subrange(at, at + width), y.subrange(at, at + width));
    assert(p[i] == x[at + i] && q[i] == y[at + i]);
    assert forall|j: int| 0 <= j < at + i implies x[j] == y[j] by {
        if j < at {
            assert(x.take(at)[j] == x[j] && y.take(at)[j] == y[j]);
        } else {
            assert(p.take(i)[j - at] == q.take(i)[j - at]);
            assert(p[j - at] == q[j - at]);
            assert(p[j - at] == x[at + (j - at)] && q[j - at] == y[at + (j - at)]);
        }
    }
    assert(x.take(at + i) =~= y.take(at + i));
    assert(text_less_at(x, y, at + i));
}

/// Texts that agree up to a number, in the number and in the character behind it
/// agree up to what follows.
proof fn lemma_same_field(x: Seq<char>, y: Seq<char>, at: int, width: int)
    requires
        0 <= at,
        0 <= width,
        at + width < x.len(),
        x.len() == y.len(),
        x.take(at) == y.take(at),
        x.subrange(at, at + width) == y.subrange(at, at + width),
        x[at + width] == y[at + width],
    ensures
        x.take(at + width + 1) == y.take(at + width + 1),
{
    let (p, q) = (x.subrange(at, at + width), y.subrange(at, at + width));
    assert forall|j: int| 0 <= j < at + width + 1 implies x[j] == y[j] by {
        if j < at {
            assert(x.take(at)[j] == x[j] && y.take(at)[j] == y[j]);
        } else if j < at + width {
            assert(p[j - at] == q[j - at]);
            assert(p[j - at] == x[at + (j - at)] && q[j - at] == y[at + (j - at)]);
        }
    }
    assert(x.take(at + width + 1) =~= y.take(at + width + 1));
}

/// Where the numbers stand in the text for a time.
pub proof fn lemma_fields(timestamp_nanos: u64)
    ensures
        ({
            let text = timestamp_text(timestamp_nanos);
            let seconds = (timestamp_nanos / 1_000_000_000) as nat;
            let nanos = (timestamp_nanos % 1_000_000_000) as nat;
            let (year, month, day) = date_after(1970, 1, seconds / 86_400);
            let time = seconds % 86_400;
            &&& text.len() == 29
            &&& text.subrange(0, 4) == digits(year, 4)
            &&& text.subrange(5, 7) == digits(month, 2)
            &&& text.subrange(8, 10) == digits(day, 2)
            &&& text.subrange(11, 13) == digits(time / 3600, 2)
            &&& text.subrange(14, 16) == digits(time / 60 % 60, 2)
            &&& text.subrange(17, 19) == digits(time % 60, 2)
            &&& text.subrange(20, 29) == digits(nanos, 9)
            &&& text[4] == '-' && text[7] == '-' && text[10] == ' '
            &&& text[13] == ':' && text[16] == ':' && text[19] == '.'
            &&& year < 10_000
            &&& 1 <= month <= 12
            &&& 1 <= day <= 31
        }),
{
    let seconds = (timestamp_nanos / 1_000_000_000) as nat;
    let nanos = (timestamp_nanos % 1_000_000_000) as nat;
    let (year, month, day) = date_after(1970, 1, seconds / 86_400);
    let time = seconds % 86_400;
    lemma_date_bounds(1970, 1, seconds / 86_400);
    lemma_digits_len(year, 4);
    lemma_digits_len(month, 2);
    lemma_digits_len(day, 2);
    lemma_digits_len(time / 3600, 2);
    lemma_digits_len(time / 60 % 60, 2);
    lemma_digits_len(time % 60, 2);
    lemma_digits_len(nanos, 9);
}

/// Every timestamp is written with the same number of characters.
pub proof fn timestamps_have_one_width(timestamp_nanos: u64)
    ensures
        timestamp_text(timestamp_nanos).len() == 29,
{
    lemma_fields(timestamp_nanos);
}

/// How many numbers the digits of a timestamp can write.
pub proof fn lemma_ten_to()
    ensures
        ten_to(2) == 100,
        ten_to(4) == 10_000,
        ten_to(9) == 1_000_000_000,
{
    reveal_with_fuel(ten_to, 10);
}

/// An earlier time on the same day has fewer hours, or as many and fewer minutes,
/// and so on.
proof fn lemma_clock(a: u64, b: u64)
    requires
        a < b,
        a / 86_400_000_000_000 == b / 86_400_000_000_000,
    ensures
        ({
            let (t1, t2) = (a / 1_000_000_000 % 86_400, b / 1_000_000_000 % 86_400);
            let (h1, h2) = (t1 / 3600, t2 / 3600);
            let (m1, m2) = (t1 / 60 % 60, t2 / 60 % 60);
            &&& h1 <= h2 < 24
            &&& h1 == h2 ==> m1 <= m2
            &&& h1 == h2 && m1 == m2 ==> t1 % 60 <= t2 % 60
            &&& h1 == h2 && m1 == m2 && t1 % 60 == t2 % 60 ==> a % 1_000_000_000 < b % 1_000_000_000
        }),
{
    let (s1, s2) = (a / 1_000_000_000, b / 1_000_000_000);
    assert(s1 / 86_400 == s2 / 86_400);
    let (t1, t2) = (s1 % 86_400, s2 % 86_400);
    assert(t1 <= t2 < 86_400);
    assert(t1 / 60 / 60 == t1 / 3600 && t2 / 60 / 60 == t2 / 3600);
    if t1 == t2 {
        assert(s1 == s2);
    }
}

/// Texts agree up to the time of the day where their days are the same.
pub proof fn lemma_same_day(a: u64, b: u64)
    requires
        a / 86_400_000_000_000 == b / 86_400_000_000_000,
    ensures
        timestamp_text(a).take(11) == timestamp_text(b).take(11),
{
    let (x, y) = (timestamp_text(a), timestamp_text(b));
    lemma_fields(a);
    lemma_fields(b);
    assert(a / 1_000_000_000 / 86_400 == b / 1_000_000_000 / 86_400);
    assert(x.take(0) =~= y.take(0));
    lemma_same_field(x, y, 0, 4);
    lemma_same_field(x, y, 5, 2);
    lemma_same_field(x, y, 8, 2);
}

/// A time on an earlier day has the text that comes first.
proof fn lemma_earlier_day(a: u64, b: u64)
    requires
        a / 86_400_000_000_000 < b / 86_400_000_000_000,
    ensures
        text_less(timestamp_text(a), timestamp_text(b)),
{
    let (x, y) = (timestamp_text(a), timestamp_text(b));
    let (s1, s2) = ((a / 1_000_000_000) as nat, (b / 1_000_000_000) as nat);
    let (y1, m1, d1) = date_after(1970, 1, s1 / 86_400);
    let (y2, m2, d2) = date_after(1970, 1, s2 / 86_400);
    lemma_fields(a);
    lemma_fields(b);
    lemma_ten_to();
    lemma_dates_less(1970, 1, s1 / 86_400, s2 / 86_400);
    assert(x.take(0) =~= y.take(0));
    if y1 < y2 {
        lemma_field_less(x, y, 0, y1, y2, 4);
    } else {
        lemma_same_field(x, y, 0, 4);
        if m1 < m2 {
            lemma_field_less(x, y, 5, m1, m2, 2);
        } else {
            lemma_same_field(x, y, 5, 2);
            lemma_field_less(x, y, 8, d1, d2, 2);
        }
    }
}

/// An earlier time on the same day has the text that comes first.
proof fn lemma_earlier_on_day(a: u64, b: u64)
    requires
        a < b,
        a / 86_400_000_000_000 == b / 86_400_000_000_000,
    ensures
        text_less(timestamp_text(a), timestamp_text(b)),
{
    let (x, y) = (timestamp_text(a), timestamp_text(b));
    let (s1, n1) = ((a / 1_000_000_000) as nat, (a % 1_000_000_000) as nat);
    let (s2, n2) = ((b / 1_000_000_000) as nat, (b % 1_000_000_000) as nat);
    let (t1, t2) = (s1 % 86_400, s2 % 86_400);
    lemma_fields(a);
    lemma_fields(b);
    lemma_ten_to();
    lemma_same_day(a, b);
    lemma_clock(a, b);
    if t1 / 3600 < t2 / 3600 {
        lemma_field_less(x, y, 11, t1 / 3600, t2 / 3600, 2);
    } else {
        lemma_same_field(x, y, 11, 2);
        if t1 / 60 % 60 < t2 / 60 % 60 {
            lemma_field_less(x, y, 14, t1 / 60 % 60, t2 / 60 % 60, 2);
        } else {
            lemma_same_field(x, y, 14, 2);
            if t1 % 60 < t2 % 60 {
                lemma_field_less(x, y, 17, t1 % 60, t2 % 60, 2);
            } else {
                lemma_same_field(x, y, 17, 2);
                lemma_field_less(x, y, 20, n1, n2, 9);
            }
        }
    }
}

/// An earlier time has the text that comes first.
proof fn lemma_earlier(a: u64, b: u64)
    requires
        a < b,
    ensures
        text_less(timestamp_text(a), timestamp_text(b)),
{
    if a / 86_400_000_000_000 < b / 86_400_000_000_000 {
        lemma_earlier_day(a, b);
    } else {
        lemma_earlier_on_day(a, b);
    }
}

/// Timestamps sort as texts in the order of their times: the text of the earlier
/// time comes first.
pub proof fn timestamps_sort_by_time(a: u64, b: u64)
    ensures
        text_less(timestamp_text(a), timestamp_text(b)) <==> a < b,
{
    if a < b {
        lemma_earlier(a, b);
    } else if text_less(timestamp_text(a), timestamp_text(b)) {
        lemma_text_less(timestamp_text(a), timestamp_text(b));
        if b < a {
            lemma_earlier(b, a);
        }
    }
}

/// No two timestamps are written alike: the text keeps every nanosecond.
pub proof fn timestamps_differ(a: u64, b: u64)
    requires
        timestamp_text(a) == timestamp_text(b),
    ensures
        a == b,
{
    if a < b {
        lemma_earlier(a, b);
        lemma_text_less(timestamp_text(a), timestamp_text(b));
    } else if b < a {
        lemma_earlier(b, a);
        lemma_text_less(timestamp_text(b), timestamp_text(a));
    }
}

} // verus!
