//! Dates, entity tags and ranges of HTTP.

use vstd::prelude::*;
use crate::text;
use crate::time::SystemTime;

verus! {

// ---------------------------------------------------------------------------
// The calendar
// ---------------------------------------------------------------------------

/// Years with a day more.
pub open spec fn leap(y: int) -> bool {
    (y % 4 == 0 && y % 100 != 0) || y % 400 == 0
}

/// The days of a year.
pub open spec fn year_days(y: int) -> int {
    if leap(y) {
        366
    } else {
        365
    }
}

/// The days from the start of 1970 to the start of a year.
pub open spec fn days_to_year(y: int) -> int
    decreases y,
{
    if y <= 1970 {
        0
    } else {
        days_to_year(y - 1) + year_days(y - 1)
    }
}

/// The days of a month, which is counted from one.
pub open spec fn month_days(y: int, m: int) -> int {
    if m == 2 {
        if leap(y) {
            29
        } else {
            28
        }
    } else if m == 4 || m == 6 || m == 9 || m == 11 {
        30
    } else {
        31
    }
}

/// The days from the start of a year to the start of a month.
pub open spec fn days_to_month(y: int, m: int) -> int
    decreases m,
{
    if m <= 1 {
        0
    } else {
        days_to_month(y, m - 1) + month_days(y, m - 1)
    }
}

/// The days from the start of 1970 to a day.
pub open spec fn day_number(y: int, m: int, d: int) -> int {
    days_to_year(y) + days_to_month(y, m) + d - 1
}

/// A date and a time of day.
#[derive(Clone, Copy, Debug, PartialEq, Eq, Structural)]
pub struct CivilTime {
    pub year: u64,
    pub month: u64,
    pub day: u64,
    pub hour: u64,
    pub minute: u64,
    pub second: u64,
}

/// The seconds from the start of 1970 to a date and time.
pub open spec fn unix_seconds(t: CivilTime) -> int {
    day_number(t.year as int, t.month as int, t.day as int) * 86_400 + t.hour * 3600 + t.minute
        * 60 + t.second
}

/// Dates and times that there are.
pub open spec fn civil(t: CivilTime) -> bool {
    &&& t.year >= 1970
    &&& 1 <= t.month <= 12
    &&& 1 <= t.day <= month_days(t.year as int, t.month as int)
    &&& t.hour < 24
    &&& t.minute < 60
    &&& t.second < 60
}

/// Tells whether a year has a day more.
pub fn is_leap(year: u64) -> (r: bool)
    ensures
        r == leap(year as int),
{
    (year % 4 == 0 && year % 100 != 0) || year % 400 == 0
}

/// The days of a month.
fn days_in_month(year: u64, month: u64) -> (r: u64)
    ensures
        r == month_days(year as int, month as int),
{
    if month == 2 {
        if is_leap(year) {
            29
        } else {
            28
        }
    } else if month == 4 || month == 6 || month == 9 || month == 11 {
        30
    } else {
        31
    }
}

/// A year has the days of its months.
proof fn lemma_months_fill_year(y: int)
    ensures
        days_to_month(y, 13) == year_days(y),
{
    reveal_with_fuel(days_to_month, 14);
}

/// The start of a year comes at least 365 days after that of the year before.
proof fn lemma_days_to_year_grows(y: int)
    ensures
        days_to_year(y) >= 0,
        y >= 1970 ==> days_to_year(y) >= (y - 1970) * 365,
    decreases y,
{
    if y > 1970 {
        lemma_days_to_year_grows(y - 1);
    }
}

/// The date and time that lies so many seconds after the start of 1970.
pub fn unix_to_date(seconds: u64) -> (t: CivilTime)
    ensures
        civil(t),
        unix_seconds(t) == seconds,
{
    let second: u64 = seconds % 60;
    let minute: u64 = (seconds / 60) % 60;
    let hour: u64 = (seconds / 3600) % 24;
    let total: u64 = seconds / 86_400;
    let mut days: u64 = total;
    let mut year: u64 = 1970;
    loop
        invariant_except_break
            days_to_year(year as int) + days == total,
            year >= 1970,
        invariant
            total <= u64::MAX / 86_400,
        ensures
            days_to_year(year as int) + days == total,
            year >= 1970,
            days < year_days(year as int),
        decreases days,
    {
        proof {
            lemma_days_to_year_grows(year as int);
        }
        let n: u64 = if is_leap(year) {
            366
        } else {
            365
        };
        if days < n {
            break;
        }
        days = days - n;
        year = year + 1;
    }
    proof {
        lemma_months_fill_year(year as int);
    }
    let mut month: u64 = 1;
    let ghost rest = days;
    while days >= days_in_month(year, month)
        invariant
            1 <= month <= 12,
            rest < days_to_month(year as int, 13),
            days_to_month(year as int, month as int) + days == rest,
        decreases 13 - month,
    {
        let n = days_in_month(year, month);
        assert(days_to_month(year as int, month + 1) == days_to_month(year as int, month as int)
            + n);
        days = days - n;
        month = month + 1;
    }
    CivilTime { year, month, day: days + 1, hour, minute, second }
}

// ---------------------------------------------------------------------------
// Days without counting years
// ---------------------------------------------------------------------------

/// The leap years up to a year, from the start of the calendar.
pub open spec fn leaps(y: int) -> int {
    y / 4 - y / 100 + y / 400
}

/// The days before a year by the number of leap years before it.
proof fn lemma_days_to_year(y: int)
    requires
        y >= 1970,
    ensures
        days_to_year(y) == 365 * (y - 1970) + leaps(y - 1) - 477,
    decreases y,
{
    if y > 1970 {
        lemma_days_to_year(y - 1);
        lemma_leaps(y - 1);
    }
}

/// The days from the start of 1970 to the start of a year.
fn days_before_year(year: u64) -> (r: u128)
    requires
        year >= 1970,
    ensures
        r == days_to_year(year as int),
        r <= 400 * (year as u128),
{
    proof {
        lemma_days_to_year(year as int);
    }
    let p: u128 = (year - 1) as u128;
    365 * (year as u128 - 1970) + p / 4 - p / 100 + p / 400 - 477
}

/// The days from the start of a year to the start of a month.
fn days_before_month(year: u64, month: u64) -> (r: u64)
    requires
        1 <= month <= 12,
    ensures
        r == days_to_month(year as int, month as int),
        r <= 366,
{
    let mut r: u64 = 0;
    let mut m: u64 = 1;
    while m < month
        invariant
            1 <= m <= month <= 12,
            r == days_to_month(year as int, m as int),
            r <= 31 * (m - 1),
        decreases month - m,
    {
        r = r + days_in_month(year, m);
        m = m + 1;
    }
    r
}

/// The seconds from the start of 1970 to a date, where the date is one and they can
/// be counted. A day may be one that its month does not have.
pub open spec fn seconds_of(t: CivilTime) -> Option<u64> {
    if t.year < 1970 || !(1 <= t.month <= 12) || !(1 <= t.day <= 31) || unix_seconds(t)
        > u64::MAX {
        None
    } else {
        Some(unix_seconds(t) as u64)
    }
}

/// The seconds from the start of 1970 to a date.
pub fn date_to_unix(t: CivilTime) -> (r: Option<u64>)
    ensures
        r == seconds_of(t),
{
    if t.year < 1970 || t.month < 1 || t.month > 12 || t.day < 1 || t.day > 31 {
        return None;
    }
    let days: u128 = days_before_year(t.year) + days_before_month(t.year, t.month) as u128 + (t.day
        - 1) as u128;
    let total: u128 = days * 86_400 + t.hour as u128 * 3600 + t.minute as u128 * 60
        + t.second as u128;
    if total > u64::MAX as u128 {
        None
    } else {
        Some(total as u64)
    }
}

/// The day of the week, counted from Sunday, of a day that is counted from the
/// start of 1970, a Thursday.
pub open spec fn weekday(day: int) -> int {
    (day + 4) % 7
}

/// The days before a month in a year that is no leap year.
pub open spec fn plain_days_to_month(m: int) -> int {
    if m == 1 {
        0
    } else if m == 2 {
        31
    } else if m == 3 {
        59
    } else if m == 4 {
        90
    } else if m == 5 {
        120
    } else if m == 6 {
        151
    } else if m == 7 {
        181
    } else if m == 8 {
        212
    } else if m == 9 {
        243
    } else if m == 10 {
        273
    } else if m == 11 {
        304
    } else {
        334
    }
}

/// How far a month shifts the day of the week.
pub open spec fn month_shift(m: int) -> int {
    if m == 1 {
        0
    } else if m == 2 {
        3
    } else if m == 3 {
        2
    } else if m == 4 {
        5
    } else if m == 5 {
        0
    } else if m == 6 {
        3
    } else if m == 7 {
        5
    } else if m == 8 {
        1
    } else if m == 9 {
        4
    } else if m == 10 {
        6
    } else if m == 11 {
        2
    } else {
        4
    }
}

/// The days before a month.
proof fn lemma_days_to_month(y: int, m: int)
    requires
        1 <= m <= 12,
    ensures
        days_to_month(y, m) == plain_days_to_month(m) + if m > 2 && leap(y) {
            1int
        } else {
            0int
        },
    decreases m,
{
    if m > 1 {
        lemma_days_to_month(y, m - 1);
    }
}

/// The sum over a date that gives the day of the week.
pub open spec fn weekday_sum(y: int, m: int, d: int) -> int {
    let z = if m < 3 {
        y - 1
    } else {
        y
    };
    z + leaps(z) + month_shift(m) + d
}

/// The days before a month and its shift differ by whole weeks.
proof fn lemma_month_shift(m: int) -> (k: int)
    requires
        1 <= m <= 12,
    ensures
        plain_days_to_month(m) - month_shift(m) + (if m < 3 {
            1int
        } else {
            0int
        }) == 7 * k + 719_524,
{
    (plain_days_to_month(m) - month_shift(m) - 719_524 + if m < 3 {
        1int
    } else {
        0int
    }) / 7
}

/// Whole weeks do not change the day of the week.
proof fn lemma_weeks(a: int, k: int)
    ensures
        (a + 7 * k) % 7 == a % 7,
{
}

/// There is one leap year more where the last year is one.
proof fn lemma_leaps(y: int)
    ensures
        leaps(y) == leaps(y - 1) + if leap(y) {
            1int
        } else {
            0int
        },
{
}

/// The sum gives the day of the week.
proof fn lemma_weekday_sum(y: int, m: int, d: int)
    requires
        y >= 1970,
        1 <= m <= 12,
    ensures
        weekday_sum(y, m, d) % 7 == weekday(day_number(y, m, d)),
{
    lemma_days_to_year(y);
    lemma_days_to_month(y, m);
    lemma_leaps(y);
    let k = lemma_month_shift(m);
    let (before, now) = (leaps(y - 1), leaps(y));
    assert(day_number(y, m, d) + 4 == weekday_sum(y, m, d) + 7 * (52 * y + k));
    lemma_weeks(weekday_sum(y, m, d), 52 * y + k);
}

/// The day of the week, counted from Sunday.
pub fn day_of_week(year: u64, month: u64, day: u64) -> (r: u64)
    requires
        1970 <= year <= 0x1000_0000_0000_0000,
        1 <= month <= 12,
        1 <= day <= 31,
    ensures
        r == weekday(day_number(year as int, month as int, day as int)),
        r < 7,
{
    let offsets: [u64; 12] = [0, 3, 2, 5, 0, 3, 5, 1, 4, 6, 2, 4];
    let y: u64 = if month < 3 {
        year - 1
    } else {
        year
    };
    assert(offsets@[month - 1] == month_shift(month as int));
    let sum: u64 = y + y / 4 - y / 100 + y / 400 + offsets[(month - 1) as usize] + day;
    proof {
        lemma_weekday_sum(year as int, month as int, day as int);
    }
    sum % 7
}

// ---------------------------------------------------------------------------
// Dates as texts
// ---------------------------------------------------------------------------

/// The name of a day of the week.
pub open spec fn weekday_name(d: int) -> Seq<char> {
    if d == 0 {
        "Sun"@
    } else if d == 1 {
        "Mon"@
    } else if d == 2 {
        "Tue"@
    } else if d == 3 {
        "Wed"@
    } else if d == 4 {
        "Thu"@
    } else if d == 5 {
        "Fri"@
    } else {
        "Sat"@
    }
}

/// The name of a month.
pub open spec fn month_name(m: int) -> Seq<char> {
    if m == 1 {
        "Jan"@
    } else if m == 2 {
        "Feb"@
    } else if m == 3 {
        "Mar"@
    } else if m == 4 {
        "Apr"@
    } else if m == 5 {
        "May"@
    } else if m == 6 {
        "Jun"@
    } else if m == 7 {
        "Jul"@
    } else if m == 8 {
        "Aug"@
    } else if m == 9 {
        "Sep"@
    } else if m == 10 {
        "Oct"@
    } else if m == 11 {
        "Nov"@
    } else {
        "Dec"@
    }
}

/// The month of a name.
pub open spec fn month_of(s: Seq<char>) -> Option<u64> {
    if s == "Jan"@ {
        Some(1)
    } else if s == "Feb"@ {
        Some(2)
    } else if s == "Mar"@ {
        Some(3)
    } else if s == "Apr"@ {
        Some(4)
    } else if s == "May"@ {
        Some(5)
    } else if s == "Jun"@ {
        Some(6)
    } else if s == "Jul"@ {
        Some(7)
    } else if s == "Aug"@ {
        Some(8)
    } else if s == "Sep"@ {
        Some(9)
    } else if s == "Oct"@ {
        Some(10)
    } else if s == "Nov"@ {
        Some(11)
    } else if s == "Dec"@ {
        Some(12)
    } else {
        None
    }
}

/// The digits of a number, at least two of them.
pub open spec fn two_digits(n: nat) -> Seq<char> {
    if n < 10 {
        "0"@ + text::decimal(n)
    } else {
        text::decimal(n)
    }
}

/// The time of day as a text.
pub open spec fn clock_text(t: CivilTime) -> Seq<char> {
    text::joined(
        seq![
            two_digits(t.hour as nat),
            two_digits(t.minute as nat),
            two_digits(t.second as nat),
        ],
        ":"@,
    )
}

/// The parts of a date as texts.
pub open spec fn date_parts(t: CivilTime) -> Seq<Seq<char>> {
    seq![
        weekday_name(weekday(day_number(t.year as int, t.month as int, t.day as int))) + ","@,
        two_digits(t.day as nat),
        month_name(t.month as int),
        text::decimal(t.year as nat),
        clock_text(t),
        "GMT"@,
    ]
}

/// A date as HTTP writes it, such as `Sun, 06 Nov 1994 08:49:37 GMT`.
pub open spec fn date_text(t: CivilTime) -> Seq<char> {
    text::joined(date_parts(t), " "@)
}

/// The name of a day of the week.
fn name_of_weekday(d: u64) -> (r: &'static str)
    ensures
        r@ == weekday_name(d as int),
{
    if d == 0 {
        "Sun"
    } else if d == 1 {
        "Mon"
    } else if d == 2 {
        "Tue"
    } else if d == 3 {
        "Wed"
    } else if d == 4 {
        "Thu"
    } else if d == 5 {
        "Fri"
    } else {
        "Sat"
    }
}

/// The name of a month.
fn name_of_month(m: u64) -> (r: &'static str)
    ensures
        r@ == month_name(m as int),
{
    if m == 1 {
        "Jan"
    } else if m == 2 {
        "Feb"
    } else if m == 3 {
        "Mar"
    } else if m == 4 {
        "Apr"
    } else if m == 5 {
        "May"
    } else if m == 6 {
        "Jun"
    } else if m == 7 {
        "Jul"
    } else if m == 8 {
        "Aug"
    } else if m == 9 {
        "Sep"
    } else if m == 10 {
        "Oct"
    } else if m == 11 {
        "Nov"
    } else {
        "Dec"
    }
}

/// The month of a name.
fn parse_month(s: &str) -> (r: Option<u64>)
    ensures
        r == month_of(s@),
{
    if text::same(s, "Jan") {
        Some(1)
    } else if text::same(s, "Feb") {
        Some(2)
    } else if text::same(s, "Mar") {
        Some(3)
    } else if text::same(s, "Apr") {
        Some(4)
    } else if text::same(s, "May") {
        Some(5)
    } else if text::same(s, "Jun") {
        Some(6)
    } else if text::same(s, "Jul") {
        Some(7)
    } else if text::same(s, "Aug") {
        Some(8)
    } else if text::same(s, "Sep") {
        Some(9)
    } else if text::same(s, "Oct") {
        Some(10)
    } else if text::same(s, "Nov") {
        Some(11)
    } else if text::same(s, "Dec") {
        Some(12)
    } else {
        None
    }
}

/// The digits of a number, at least two of them.
pub fn write_two_digits(n: u64) -> (r: String)
    ensures
        r@ == two_digits(n as nat),
{
    let s = text::number_text(n as u128);
    if n < 10 {
        text::join("0", s.as_str())
    } else {
        s
    }
}

/// Writes a date as HTTP does.
pub fn format_date(t: CivilTime) -> (r: String)
    requires
        civil(t),
        t.year <= 0x1000_0000_0000_0000,
    ensures
        r@ == date_text(t),
{
    let mut clock: Vec<String> = Vec::new();
    clock.push(write_two_digits(t.hour));
    clock.push(write_two_digits(t.minute));
    clock.push(write_two_digits(t.second));
    assert(clock.deep_view() =~= seq![
        two_digits(t.hour as nat),
        two_digits(t.minute as nat),
        two_digits(t.second as nat),
    ]);
    let mut parts: Vec<String> = Vec::new();
    parts.push(text::join(name_of_weekday(day_of_week(t.year, t.month, t.day)), ","));
    parts.push(write_two_digits(t.day));
    parts.push(name_of_month(t.month).to_owned());
    parts.push(text::number_text(t.year as u128));
    parts.push(text::join_all(&clock, ":"));
    parts.push("GMT".to_owned());
    assert(parts.deep_view() =~= date_parts(t));
    text::join_all(&parts, " ")
}

/// The one date and time that lies so many seconds after the start of 1970.
pub open spec fn date_at(seconds: u64) -> CivilTime {
    choose|t: CivilTime| civil(t) && unix_seconds(t) == seconds
}

/// A month begins after all days of the months before it.
proof fn lemma_days_to_month_grows(y: int, a: int, b: int)
    requires
        1 <= a < b,
    ensures
        days_to_month(y, a) + month_days(y, a) <= days_to_month(y, b),
    decreases b,
{
    if a < b - 1 {
        lemma_days_to_month_grows(y, a, b - 1);
    }
}

/// A year begins after all days of the years before it.
proof fn lemma_years_in_order(a: int, b: int)
    requires
        1970 <= a < b,
    ensures
        days_to_year(a) + year_days(a) <= days_to_year(b),
    decreases b,
{
    if a < b - 1 {
        lemma_years_in_order(a, b - 1);
    }
}

/// There is one date and time for each number of seconds.
pub proof fn lemma_date_unique(a: CivilTime, b: CivilTime)
    requires
        civil(a),
        civil(b),
        unix_seconds(a) == unix_seconds(b),
    ensures
        a == b,
{
    let (ya, ma, yb, mb) = (a.year as int, a.month as int, b.year as int, b.month as int);
    let da = day_number(ya, ma, a.day as int);
    let db = day_number(yb, mb, b.day as int);
    assert(da == db && a.hour == b.hour && a.minute == b.minute && a.second == b.second);
    lemma_months_fill_year(ya);
    lemma_months_fill_year(yb);
    lemma_days_to_month_grows(ya, ma, 13);
    lemma_days_to_month_grows(yb, mb, 13);
    lemma_days_nonnegative(ya, ma);
    lemma_days_nonnegative(yb, mb);
    if ya < yb {
        lemma_years_in_order(ya, yb);
    } else if yb < ya {
        lemma_years_in_order(yb, ya);
    }
    assert(ya == yb);
    if ma < mb {
        lemma_days_to_month_grows(ya, ma, mb);
    } else if mb < ma {
        lemma_days_to_month_grows(ya, mb, ma);
    }
}

/// Days before a month are not less than none.
proof fn lemma_days_nonnegative(y: int, m: int)
    ensures
        days_to_month(y, m) >= 0,
    decreases m,
{
    if m > 1 {
        lemma_days_nonnegative(y, m - 1);
    }
}

/// Writes a point in time as HTTP does.
pub fn format_http_date(time: SystemTime) -> (r: String)
    ensures
        r@ == date_text(date_at(time.secs)),
{
    let t = unix_to_date(time.secs);
    proof {
        lemma_date_unique(t, date_at(time.secs));
        lemma_days_to_year_grows(t.year as int);
        lemma_days_nonnegative(t.year as int, t.month as int);
    }
    format_date(t)
}

/// The point in time that the words of a date stand for.
pub open spec fn date_in(p: Seq<Seq<char>>) -> Option<u64> {
    if p.len() < 6 {
        None
    } else {
        let c = text::pieces(p[4], ':');
        match (
            text::number(p[1], u32::MAX as nat),
            month_of(p[2]),
            text::number(p[3], u64::MAX as nat),
        ) {
            (Some(day), Some(month), Some(year)) => if c.len() != 3 {
                None
            } else {
                match (
                    text::number(c[0], u64::MAX as nat),
                    text::number(c[1], u64::MAX as nat),
                    text::number(c[2], u64::MAX as nat),
                ) {
                    (Some(hour), Some(minute), Some(second)) => seconds_of(
                        CivilTime {
                            year: year as u64,
                            month,
                            day: day as u64,
                            hour: hour as u64,
                            minute: minute as u64,
                            second: second as u64,
                        },
                    ),
                    _ => None,
                }
            },
            _ => None,
        }
    }
}

/// The point in time that a text stands for, in seconds from the start of 1970.
pub open spec fn http_date(s: Seq<char>) -> Option<u64> {
    date_in(text::words(s))
}

/// Reads a date as HTTP writes it. Seconds that cannot be counted are no date.
pub fn parse_http_date(input: &str) -> (r: Option<SystemTime>)
    ensures
        match r {
            Some(t) => http_date(input@) == Some(t.secs) && t.nanos == 0,
            None => http_date(input@) is None,
        },
{
    let p = text::split_whitespace(input);
    if p.len() < 6 {
        return None;
    }
    assert(forall|i: int| 0 <= i < p@.len() ==> #[trigger] p.deep_view()[i] == p@[i]@);
    let day = match text::parse_number(p[1].as_str(), u32::MAX as u64) {
        Some(n) => n,
        None => return None,
    };
    let month = match parse_month(p[2].as_str()) {
        Some(n) => n,
        None => return None,
    };
    let year = match text::parse_number(p[3].as_str(), u64::MAX) {
        Some(n) => n,
        None => return None,
    };
    let c = text::split(p[4].as_str(), ':');
    if c.len() != 3 {
        return None;
    }
    assert(forall|i: int| 0 <= i < c@.len() ==> #[trigger] c.deep_view()[i] == c@[i]@);
    let hour = match text::parse_number(c[0].as_str(), u64::MAX) {
        Some(n) => n,
        None => return None,
    };
    let minute = match text::parse_number(c[1].as_str(), u64::MAX) {
        Some(n) => n,
        None => return None,
    };
    let second = match text::parse_number(c[2].as_str(), u64::MAX) {
        Some(n) => n,
        None => return None,
    };
    match date_to_unix(CivilTime { year, month, day, hour, minute, second }) {
        Some(secs) => Some(SystemTime { secs, nanos: 0 }),
        None => None,
    }
}

// ---------------------------------------------------------------------------
// Reading gives back what was written
// ---------------------------------------------------------------------------

/// There is a date for each day.
proof fn lemma_day_exists(n: nat) -> (r: (int, int, int))
    ensures
        r.0 >= 1970,
        1 <= r.1 <= 12,
        1 <= r.2 <= month_days(r.0, r.1),
        day_number(r.0, r.1, r.2) == n,
    decreases n,
{
    if n == 0 {
        (1970, 1, 1)
    } else {
        let (y, m, d) = lemma_day_exists((n - 1) as nat);
        lemma_months_fill_year(y);
        if d < month_days(y, m) {
            (y, m, d + 1)
        } else if m < 12 {
            (y, m + 1, 1)
        } else {
            (y + 1, 1, 1)
        }
    }
}

/// Seconds come apart into days, hours, minutes and seconds.
proof fn lemma_seconds_split(n: int)
    requires
        0 <= n,
    ensures
        n == (n / 86_400) * 86_400 + ((n / 3600) % 24) * 3600 + ((n / 60) % 60) * 60 + n % 60,
{
    let m = n / 60;
    let h = m / 60;
    assert(n / 3600 == h);
    assert(n / 86_400 == h / 24);
}

/// There is a date and time for each number of seconds.
pub proof fn lemma_date_at(secs: u64)
    ensures
        civil(date_at(secs)),
        unix_seconds(date_at(secs)) == secs,
{
    let n = secs as int / 86_400;
    let (y, m, d) = lemma_day_exists(n as nat);
    lemma_days_to_year_grows(y);
    lemma_days_nonnegative(y, m);
    lemma_seconds_split(secs as int);
    let hour = (secs as int / 3600) % 24;
    let minute = (secs as int / 60) % 60;
    let second = secs as int % 60;
    assert(y <= u64::MAX);
    let t = CivilTime {
        year: y as u64,
        month: m as u64,
        day: d as u64,
        hour: hour as u64,
        minute: minute as u64,
        second: second as u64,
    };
    assert(civil(t));
    assert(day_number(t.year as int, t.month as int, t.day as int) == n);
    assert(unix_seconds(t) == secs);
}

/// Two digits are read as the number that they write.
proof fn lemma_two_digits(n: nat)
    requires
        n < 100,
    ensures
        two_digits(n).len() > 0,
        text::all_digits(two_digits(n)),
        forall|max: nat| n <= max ==> #[trigger] text::number(two_digits(n), max) == Some(n),
{
    text::lemma_decimal_value(n);
    reveal_strlit("0");
    if n < 10 {
        let s = two_digits(n);
        assert(text::decimal(n) =~= seq![text::digit(n)]);
        assert(s =~= seq!['0', text::digit(n)]);
        assert(s.drop_last() =~= seq!['0']);
        assert(seq!['0'].drop_last() =~= seq![]);
        reveal_with_fuel(text::value, 3);
        assert(text::value(s) == n);
    }
}

/// Digits are no spaces and no colons.
proof fn lemma_digits_plain(s: Seq<char>)
    requires
        text::all_digits(s),
    ensures
        text::spaceless(s),
        !s.contains(':'),
{
    assert forall|i: int| 0 <= i < s.len() implies !text::is_space(#[trigger] s[i]) by {
        assert(text::is_digit(s[i]));
    }
    if s.contains(':') {
        let k = choose|k: int| 0 <= k < s.len() && s[k] == ':';
        assert(text::is_digit(s[k]));
    }
}

/// The time of day comes apart at its colons again and holds no space.
proof fn lemma_clock(t: CivilTime)
    requires
        civil(t),
    ensures
        text::pieces(clock_text(t), ':') == seq![
            two_digits(t.hour as nat),
            two_digits(t.minute as nat),
            two_digits(t.second as nat),
        ],
        clock_text(t).len() > 0,
        text::spaceless(clock_text(t)),
{
    let (h, m, s) = (
        two_digits(t.hour as nat),
        two_digits(t.minute as nat),
        two_digits(t.second as nat),
    );
    lemma_two_digits(t.hour as nat);
    lemma_two_digits(t.minute as nat);
    lemma_two_digits(t.second as nat);
    lemma_digits_plain(h);
    lemma_digits_plain(m);
    lemma_digits_plain(s);
    reveal_strlit(":");
    assert(":"@ =~= seq![':']);
    let p = seq![h, m, s];
    text::lemma_pieces_of_joined(p, ':');
    let a = seq![h, m];
    let b = seq![h];
    assert(p.drop_last() =~= a);
    assert(a.drop_last() =~= b);
    assert(text::joined(b, ":"@) == h);
    assert(text::joined(a, ":"@) == h + ":"@ + m);
    let whole = h + ":"@ + m + ":"@ + s;
    assert(clock_text(t) == whole);
    assert forall|i: int| 0 <= i < whole.len() implies !text::is_space(#[trigger] whole[i]) by {
        if i < h.len() {
            assert(whole[i] == h[i]);
        } else if i == h.len() {
            assert(whole[i] == ':');
        } else if i < h.len() + 1 + m.len() {
            assert(whole[i] == m[i - h.len() - 1]);
        } else if i == h.len() + 1 + m.len() {
            assert(whole[i] == ':');
        } else {
            assert(whole[i] == s[i - h.len() - m.len() - 2]);
        }
    }
}

/// The names of months are read as the months, and no name holds a space.
proof fn lemma_names(m: int, d: int)
    requires
        1 <= m <= 12,
        0 <= d < 7,
    ensures
        month_of(month_name(m)) == Some(m as u64),
        month_name(m).len() > 0,
        text::spaceless(month_name(m)),
        (weekday_name(d) + ","@).len() > 0,
        text::spaceless(weekday_name(d) + ","@),
{
    reveal_strlit("Jan");
    reveal_strlit("Feb");
    reveal_strlit("Mar");
    reveal_strlit("Apr");
    reveal_strlit("May");
    reveal_strlit("Jun");
    reveal_strlit("Jul");
    reveal_strlit("Aug");
    reveal_strlit("Sep");
    reveal_strlit("Oct");
    reveal_strlit("Nov");
    reveal_strlit("Dec");
    reveal_strlit("Sun");
    reveal_strlit("Mon");
    reveal_strlit("Tue");
    reveal_strlit("Wed");
    reveal_strlit("Thu");
    reveal_strlit("Fri");
    reveal_strlit("Sat");
    reveal_strlit(",");
    let n = month_name(m);
    assert(n.len() == 3);
    assert(month_of(n) == Some(m as u64)) by {
        assert("Jan"@[1] == 'a' && "Feb"@[1] == 'e' && "Mar"@[1] == 'a' && "Apr"@[1] == 'p');
        assert("Jan"@[0] == 'J' && "Feb"@[0] == 'F' && "Mar"@[0] == 'M' && "Apr"@[0] == 'A');
        assert("May"@[0] == 'M' && "Jun"@[0] == 'J' && "Jul"@[0] == 'J' && "Aug"@[0] == 'A');
        assert("May"@[1] == 'a' && "Jun"@[1] == 'u' && "Jul"@[1] == 'u' && "Aug"@[1] == 'u');
        assert("Mar"@[2] == 'r' && "May"@[2] == 'y' && "Jun"@[2] == 'n' && "Jul"@[2] == 'l');
        assert("Sep"@[0] == 'S' && "Oct"@[0] == 'O' && "Nov"@[0] == 'N' && "Dec"@[0] == 'D');
        assert("Jan"@[2] == 'n');
    }
    let w = weekday_name(d) + ","@;
    assert(w.len() == 4);
}

/// A date that was written is read as the same point in time.
pub proof fn lemma_date_read_back(t: CivilTime)
    requires
        civil(t),
        unix_seconds(t) <= u64::MAX,
    ensures
        http_date(date_text(t)) == Some(unix_seconds(t) as u64),
{
    let p = date_parts(t);
    let d = day_number(t.year as int, t.month as int, t.day as int);
    lemma_names(t.month as int, weekday(d));
    lemma_two_digits(t.day as nat);
    lemma_digits_plain(two_digits(t.day as nat));
    text::lemma_decimal_value(t.year as nat);
    lemma_digits_plain(text::decimal(t.year as nat));
    lemma_clock(t);
    lemma_two_digits(t.hour as nat);
    lemma_two_digits(t.minute as nat);
    lemma_two_digits(t.second as nat);
    reveal_strlit("GMT");
    reveal_strlit(" ");
    assert(" "@ =~= seq![' ']);
    assert(text::spaceless("GMT"@));
    assert forall|i: int| 0 <= i < p.len() implies (#[trigger] p[i]).len() > 0 && text::spaceless(
        p[i],
    ) by {
        assert(i == 0 || i == 1 || i == 2 || i == 3 || i == 4 || i == 5);
    }
    text::lemma_words_of_joined(p);
    lemma_days_to_year_grows(t.year as int);
    lemma_days_nonnegative(t.year as int, t.month as int);
}

/// Every point in time in whole seconds that was written as HTTP does is read as
/// itself.
pub proof fn lemma_http_date_round_trip(secs: u64)
    ensures
        http_date(date_text(date_at(secs))) == Some(secs),
{
    lemma_date_at(secs);
    lemma_date_read_back(date_at(secs));
}

// ---------------------------------------------------------------------------
// Entity tags and ranges
// ---------------------------------------------------------------------------

/// The tag of a file by its size and the time of its last change.
pub open spec fn etag(size: u64, modified: Option<SystemTime>) -> Seq<char> {
    let secs = match modified {
        Some(t) => t.secs,
        None => 0,
    };
    "\""@ + text::hexadecimal(secs as nat) + "-"@ + text::hexadecimal(size as nat) + "\""@
}

/// The tag of a file by its size and the time of its last change.
pub fn generate_etag(size: u64, modified: Option<SystemTime>) -> (r: String)
    ensures
        r@ == etag(size, modified),
{
    let secs: u64 = match modified {
        Some(t) => t.secs,
        None => 0,
    };
    let s = text::join3("\"", text::hex_text(secs).as_str(), "-");
    text::join3(s.as_str(), text::hex_text(size).as_str(), "\"")
}

/// The first and the last byte of a file that a `Range` field asks for.
pub open spec fn byte_range(s: Seq<char>, size: u64) -> Option<(u64, u64)> {
    match text::after_prefix(s, "bytes="@) {
        None => None,
        Some(ranges) => {
            let r = text::trimmed(text::pieces(ranges, ',')[0]);
            if let Some(n) = text::after_prefix(r, "-"@) {
                match text::number(n, u64::MAX as nat) {
                    Some(n) if 0 < n <= size => Some(((size - n) as u64, (size - 1) as u64)),
                    _ => None,
                }
            } else if text::ends(r, "-"@) {
                match text::number(text::trimmed_end(r, text::only('-')), u64::MAX as nat) {
                    Some(n) if n < size => Some((n as u64, (size - 1) as u64)),
                    _ => None,
                }
            } else {
                match text::cut(r, '-') {
                    None => None,
                    Some((a, b)) => match (
                        text::number(a, u64::MAX as nat),
                        text::number(b, u64::MAX as nat),
                    ) {
                        (Some(a), Some(b)) if a <= b && a < size => Some(
                            (
                                a as u64,
                                if b < size {
                                    b as u64
                                } else {
                                    (size - 1) as u64
                                },
                            ),
                        ),
                        _ => None,
                    },
                }
            }
        },
    }
}

/// The first and the last byte of a file that a `Range` field asks for. Only the
/// first of several ranges counts.
pub fn parse_range(range: &str, file_size: u64) -> (r: Option<(u64, u64)>)
    ensures
        r == byte_range(range@, file_size),
        r matches Some((a, b)) ==> a <= b < file_size,
{
    let ranges = match text::strip_prefix(range, "bytes=") {
        Some(s) => s,
        None => return None,
    };
    let parts = text::split(ranges.as_str(), ',');
    proof {
        text::lemma_pieces(ranges@, ',', 0);
        assert(parts.deep_view()[0] == parts@[0]@);
    }
    let first = text::trim(parts[0].as_str());
    let r = first.as_str();
    if let Some(n) = text::strip_prefix(r, "-") {
        match text::parse_number(n.as_str(), u64::MAX) {
            Some(n) => if n == 0 || n > file_size {
                None
            } else {
                Some((file_size - n, file_size - 1))
            },
            None => None,
        }
    } else if text::ends_with(r, "-") {
        match text::parse_number(text::trim_end_char(r, '-').as_str(), u64::MAX) {
            Some(n) => if n >= file_size {
                None
            } else {
                Some((n, file_size - 1))
            },
            None => None,
        }
    } else {
        match text::split_once(r, '-') {
            Some((a, b)) => {
                let a = match text::parse_number(a.as_str(), u64::MAX) {
                    Some(n) => n,
                    None => return None,
                };
                let b = match text::parse_number(b.as_str(), u64::MAX) {
                    Some(n) => n,
                    None => return None,
                };
                if a > b || a >= file_size {
                    None
                } else if b < file_size {
                    Some((a, b))
                } else {
                    Some((a, file_size - 1))
                }
            },
            None => None,
        }
    }
}

/// Files of different sizes, or that were changed in different seconds, have different
/// tags; a tag stands in quotes.
pub proof fn lemma_tags_differ(size: u64, modified: SystemTime, other: u64, changed: SystemTime)
    ensures
        etag(size, Some(modified)) == etag(other, Some(changed)) <==> size == other
            && modified.secs == changed.secs,
        text::trimmed_of(etag(size, Some(modified)), '"') == text::trimmed_of(
            etag(other, Some(changed)),
            '"',
        ) <==> size == other && modified.secs == changed.secs,
        etag(size, Some(modified))[0] == '"',
        etag(size, Some(modified)).last() == '"',
        etag(size, None) == etag(size, Some(SystemTime { secs: 0, nanos: 0 })),
{
    lemma_tag_inside(size, modified.secs);
    lemma_tag_inside(other, changed.secs);
    let (a, b) = (
        text::hexadecimal(modified.secs as nat),
        text::hexadecimal(changed.secs as nat),
    );
    let (c, d) = (text::hexadecimal(size as nat), text::hexadecimal(other as nat));
    text::lemma_hexadecimal(modified.secs as nat, changed.secs as nat);
    text::lemma_hexadecimal(size as nat, other as nat);
    text::lemma_hexadecimal(changed.secs as nat, 0);
    text::lemma_cut_at(a, '-', c);
    text::lemma_cut_at(b, '-', d);
}

/// What stands between the quotes of a tag.
proof fn lemma_tag_inside(size: u64, secs: u64)
    ensures
        ({
            let (a, c) = (text::hexadecimal(secs as nat), text::hexadecimal(size as nat));
            let t = etag(size, Some(SystemTime { secs, nanos: 0 }));
            &&& t == seq!['"'] + (a + seq!['-'] + c) + seq!['"']
            &&& text::trimmed_of(t, '"') == a + seq!['-'] + c
            &&& !a.contains('-')
        }),
{
    reveal_strlit("\"");
    reveal_strlit("-");
    let (a, c) = (text::hexadecimal(secs as nat), text::hexadecimal(size as nat));
    text::lemma_hexadecimal(secs as nat, 0);
    text::lemma_hexadecimal(size as nat, 0);
    assert(seq!['-'] =~= "-"@);
    assert(seq!['"'] =~= "\""@);
    let x = a + seq!['-'] + c;
    let t = etag(size, Some(SystemTime { secs, nanos: 0 }));
    assert(t =~= seq!['"'] + x + seq!['"']);
    assert(x[0] == a[0] && x.last() == c.last());
    text::lemma_trimmed_quotes(x, '"');
}

/// A range with a first and a last byte asks for these bytes and those between them, as
/// far as the file has them; there must be a first one, and the last must not come
/// before it. A range without a last byte asks for all from the first on, and one
/// without a first byte for so many at the end. What follows a comma does not count.
pub proof fn lemma_ranges(a: u64, b: u64, size: u64, rest: Seq<char>)
    requires
        rest.len() > 0 ==> rest[0] == ',',
    ensures
        byte_range(
            "bytes="@ + (text::decimal(a as nat) + seq!['-'] + text::decimal(b as nat)) + rest,
            size,
        ) == (if a <= b && a < size {
            Some(
                (
                    a,
                    if b < size {
                        b
                    } else {
                        (size - 1) as u64
                    },
                ),
            )
        } else {
            None
        }),
        byte_range("bytes="@ + (text::decimal(a as nat) + seq!['-']) + rest, size) == (if a < size {
            Some((a, (size - 1) as u64))
        } else {
            None
        }),
        byte_range("bytes="@ + (seq!['-'] + text::decimal(a as nat)) + rest, size) == (if 0 < a
            <= size {
            Some(((size - a) as u64, (size - 1) as u64))
        } else {
            None
        }),
{
    reveal_strlit("-");
    assert(seq!['-'] =~= "-"@);
    let (x, y) = (text::decimal(a as nat), text::decimal(b as nat));
    text::lemma_decimal_value(a as nat);
    text::lemma_decimal_value(b as nat);
    assert(text::is_digit(x[0]) && text::is_digit(x.last()));
    assert(text::is_digit(y[0]) && text::is_digit(y.last()));
    assert(!x.contains('-') && !x.contains(',')) by {
        assert(forall|i: int| 0 <= i < x.len() ==> text::is_digit(#[trigger] x[i]));
    }
    assert(!y.contains('-') && !y.contains(',')) by {
        assert(forall|i: int| 0 <= i < y.len() ==> text::is_digit(#[trigger] y[i]));
    }
    let both = x + seq!['-'] + y;
    assert(both[0] == x[0] && both.last() == y.last());
    lemma_first_range(both, rest);
    text::lemma_cut_at(x, '-', y);
    if text::begins(both, "-"@) {
        assert(both.subrange(0, 1)[0] == '-');
    }
    if text::ends(both, "-"@) {
        assert(both.subrange(both.len() - 1, both.len() as int)[0] == '-');
    }
    let from = x + seq!['-'];
    assert(from[0] == x[0]);
    lemma_first_range(from, rest);
    if text::begins(from, "-"@) {
        assert(from.subrange(0, 1)[0] == '-');
    }
    text::lemma_before_suffix(x, "-"@);
    assert(text::trimmed_end(from, text::only('-')) == x) by {
        reveal_with_fuel(text::tail, 3);
        let p = text::only('-');
        assert(from.last() == '-' && from[from.len() - 2] == x.last());
        assert(text::tail(from, p, from.len() as int) == from.len() - 1);
        assert(from.take(from.len() - 1) =~= x);
    }
    let last = seq!['-'] + x;
    assert(last.last() == x.last());
    lemma_first_range(last, rest);
    text::lemma_after_prefix("-"@, x);
}

/// The first range of a field.
proof fn lemma_first_range(r: Seq<char>, rest: Seq<char>)
    requires
        r.len() > 0,
        !text::is_space(r[0]),
        !text::is_space(r.last()),
        !r.contains(','),
        rest.len() > 0 ==> rest[0] == ',',
    ensures
        text::after_prefix("bytes="@ + r + rest, "bytes="@) == Some(r + rest),
        text::trimmed(text::pieces(r + rest, ',')[0]) == r,
{
    assert("bytes="@ + r + rest =~= "bytes="@ + (r + rest));
    text::lemma_after_prefix("bytes="@, r + rest);
    text::lemma_pieces(r + rest, ',', 0);
    assert((r + rest).skip(0) =~= r + rest);
    if rest.len() > 0 {
        assert(r + rest =~= r + seq![','] + rest.skip(1));
    } else {
        assert(r + rest =~= r);
    }
    text::lemma_cut_at(r, ',', rest.skip(1));
    text::lemma_trimmed_fixed(r);
}

} // verus!
