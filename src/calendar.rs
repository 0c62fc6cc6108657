use vstd::prelude::*;

use crate::text::{decimal, digit_char, push_decimal, push_digit, push_zero_padded, zero_padded};

verus! {

pub open spec fn is_leap(y: nat) -> bool {
    (y % 4 == 0 && y % 100 != 0) || y % 400 == 0
}

pub open spec fn year_days(y: nat) -> nat {
    if is_leap(y) {
        366
    } else {
        365
    }
}

/// Days in month `m` (0 for January) of year `y`.
pub open spec fn month_days(y: nat, m: nat) -> nat {
    if m == 1 {
        if is_leap(y) {
            29
        } else {
            28
        }
    } else if m == 3 || m == 5 || m == 8 || m == 10 {
        30
    } else {
        31
    }
}

/// Days from 1970-01-01 to the first day of year `y`.
pub open spec fn days_before_year(y: nat) -> nat
    decreases y,
{
    if y <= 1970 {
        0
    } else {
        days_before_year((y - 1) as nat) + year_days((y - 1) as nat)
    }
}

/// Days from the first day of year `y` to the first day of its month `m` (1 for January).
pub open spec fn days_before_month(y: nat, m: nat) -> nat
    decreases m,
{
    if m <= 1 {
        0
    } else {
        days_before_month(y, (m - 1) as nat) + month_days(y, (m - 2) as nat)
    }
}

/// Whether `(y, m, d)` is the calendar date that lies `days` days after 1970-01-01.
pub open spec fn is_date_of(days: nat, date: (nat, nat, nat)) -> bool {
    let (y, m, d) = date;
    &&& y >= 1970
    &&& 1 <= m <= 12
    &&& 1 <= d <= month_days(y, (m - 1) as nat)
    &&& days_before_year(y) + days_before_month(y, m) + (d - 1) == days
}

/// The calendar date (year, month, day) of the day `days` after 1970-01-01.
pub open spec fn date_of(days: nat) -> (nat, nat, nat) {
    choose|date: (nat, nat, nat)| is_date_of(days, date)
}

proof fn lemma_months_fill_year(y: nat)
    ensures
        days_before_month(y, 13) == year_days(y),
{
    reveal_with_fuel(days_before_month, 13);
}

proof fn lemma_days_before_month_mono(y: nat, a: nat, b: nat)
    requires
        a <= b,
    ensures
        days_before_month(y, a) <= days_before_month(y, b),
    decreases b,
{
    if a < b {
        lemma_days_before_month_mono(y, a, (b - 1) as nat);
    }
}

proof fn lemma_days_before_year_mono(a: nat, b: nat)
    requires
        1970 <= a <= b,
    ensures
        days_before_year(a) <= days_before_year(b),
    decreases b,
{
    if a < b {
        lemma_days_before_year_mono(a, (b - 1) as nat);
    }
}

proof fn lemma_date_within_year(days: nat, date: (nat, nat, nat))
    requires
        is_date_of(days, date),
    ensures
        days_before_year(date.0) <= days < days_before_year(date.0 + 1),
        days_before_month(date.0, date.1) <= days - days_before_year(date.0) < days_before_month(
            date.0,
            date.1 + 1,
        ),
{
    let (y, m, d) = date;
    lemma_months_fill_year(y);
    lemma_days_before_month_mono(y, m + 1, 13);
}

/// A day has one date: two dates of the same day are equal.
pub proof fn lemma_date_unique(days: nat, a: (nat, nat, nat), b: (nat, nat, nat))
    requires
        is_date_of(days, a),
        is_date_of(days, b),
    ensures
        a == b,
{
    lemma_date_within_year(days, a);
    lemma_date_within_year(days, b);
    if a.0 < b.0 {
        lemma_days_before_year_mono(a.0 + 1, b.0);
    } else if b.0 < a.0 {
        lemma_days_before_year_mono(b.0 + 1, a.0);
    }
    assert(a.0 == b.0);
    if a.1 < b.1 {
        lemma_days_before_month_mono(a.0, a.1 + 1, b.1);
    } else if b.1 < a.1 {
        lemma_days_before_month_mono(a.0, b.1 + 1, a.1);
    }
}

/// Whether `y` is a leap year of the Gregorian calendar.
pub fn is_leap_year(y: u64) -> (r: bool)
    ensures
        r == is_leap(y as nat),
{
    (y % 4 == 0 && y % 100 != 0) || y % 400 == 0
}

fn month_length(y: u64, m: u64) -> (r: u64)
    ensures
        r == month_days(y as nat, m as nat),
{
    if m == 1 {
        if is_leap_year(y) {
            29
        } else {
            28
        }
    } else if m == 3 || m == 5 || m == 8 || m == 10 {
        30
    } else {
        31
    }
}

fn year_length(y: u64) -> (r: u64)
    ensures
        r == year_days(y as nat),
{
    if is_leap_year(y) {
        366
    } else {
        365
    }
}

/// The calendar date (year, month, day) of the day `days` after 1970-01-01.
pub fn days_to_ymd(days: u64) -> (r: (u64, u64, u64))
    ensures
        is_date_of(days as nat, (r.0 as nat, r.1 as nat, r.2 as nat)),
        (r.0 as nat, r.1 as nat, r.2 as nat) == date_of(days as nat),
{
    let mut y: u64 = 1970;
    let mut remaining: u64 = days;
    while remaining >= year_length(y)
        invariant
            1970 <= y,
            remaining <= days,
            (y - 1970) * 365 <= days - remaining,
            days_before_year(y as nat) + remaining == days,
        decreases remaining,
    {
        remaining = remaining - year_length(y);
        y = y + 1;
    }
    let ghost in_year = remaining as nat;
    proof {
        lemma_months_fill_year(y as nat);
    }
    let mut m: u64 = 0;
    loop
        invariant
            m < 12,
            in_year < year_days(y as nat),
            days_before_year(y as nat) + in_year == days,
            days_before_month(y as nat, (m + 1) as nat) + remaining == in_year,
            days_before_month(y as nat, 13) == year_days(y as nat),
        ensures
            remaining < month_days(y as nat, m as nat),
        decreases 12 - m,
    {
        let len = month_length(y, m);
        if remaining < len {
            break;
        }
        remaining = remaining - len;
        proof {
            if m == 11 {
                assert(days_before_month(y as nat, 13) == days_before_month(y as nat, 12)
                    + month_days(y as nat, 11));
                assert(false);
            }
        }
        m = m + 1;
    }
    let r = (y, m + 1, remaining + 1);
    proof {
        assert(is_date_of(days as nat, (r.0 as nat, r.1 as nat, r.2 as nat)));
        let c = date_of(days as nat);
        lemma_date_unique(days as nat, c, (r.0 as nat, r.1 as nat, r.2 as nat));
    }
    r
}

/// `YYYY-MM-DDTHH-MM-SS-mmmZ` for `ms` milliseconds after the epoch, in UTC.
pub open spec fn timestamp_text(ms: nat) -> Seq<char> {
    let secs = ms / 1000;
    let (y, mo, d) = date_of(secs / 86400);
    let tod = secs % 86400;
    zero_padded(y, 4) + "-"@ + zero_padded(mo, 2) + "-"@ + zero_padded(d, 2) + "T"@
        + zero_padded(tod / 3600, 2) + "-"@ + zero_padded((tod % 3600) / 60, 2) + "-"@
        + zero_padded(tod % 60, 2) + "-"@ + zero_padded(ms % 1000, 3) + "Z"@
}

/// The archive timestamp of the instant `ms` milliseconds after the epoch.
pub fn format_timestamp(ms: u64) -> (r: String)
    ensures
        r@ == timestamp_text(ms as nat),
{
    let secs = ms / 1000;
    let (y, mo, d) = days_to_ymd(secs / 86400);
    let tod = secs % 86400;
    let mut s = String::new();
    push_zero_padded(&mut s, y, 4);
    s.append("-");
    push_zero_padded(&mut s, mo, 2);
    s.append("-");
    push_zero_padded(&mut s, d, 2);
    s.append("T");
    push_zero_padded(&mut s, tod / 3600, 2);
    s.append("-");
    push_zero_padded(&mut s, (tod % 3600) / 60, 2);
    s.append("-");
    push_zero_padded(&mut s, tod % 60, 2);
    s.append("-");
    push_zero_padded(&mut s, ms % 1000, 3);
    s.append("Z");
    assert(s@ =~= timestamp_text(ms as nat));
    s
}

/// Relies on `SystemTime::now` and `duration_since(UNIX_EPOCH)`: milliseconds since the
/// epoch, zero for a clock set before it. It depends on the clock, so nothing is promised.
#[verifier::external_body]
fn unix_millis_now() -> (r: u64) {
    let d = std::time::SystemTime::now().duration_since(std::time::UNIX_EPOCH).unwrap_or_default();
    u64::try_from(d.as_millis()).unwrap_or(u64::MAX)
}

/// The archive timestamp of the present instant.
pub fn chrono_like_timestamp() -> (r: String)
    ensures
        exists|ms: u64| r@ == #[trigger] timestamp_text(ms as nat),
{
    let ms = unix_millis_now();
    format_timestamp(ms)
}

/// How long ago `then` (milliseconds after the epoch) was at `now`, in the coarsest whole
/// unit below the next: "just now", minutes, hours, days, and beyond a week the date.
pub open spec fn age_text(now: nat, then: nat) -> Seq<char> {
    let secs: nat = if now >= then {
        ((now - then) as nat) / 1000
    } else {
        0
    };
    let mins = secs / 60;
    let hours = secs / 3600;
    let days = secs / 86400;
    if mins < 1 {
        "just now"@
    } else if mins < 60 {
        decimal(mins) + "m ago"@
    } else if hours < 24 {
        decimal(hours) + "h ago"@
    } else if days < 7 {
        decimal(days) + "d ago"@
    } else {
        let (y, m, d) = date_of(then / 1000 / 86400);
        decimal(m) + "/"@ + decimal(d) + "/"@ + decimal(y)
    }
}

/// How long before `now` the instant `then` was, both in milliseconds after the epoch.
pub fn format_age_at(now: u64, then: u64) -> (r: String)
    ensures
        r@ == age_text(now as nat, then as nat),
{
    let secs: u64 = if now >= then {
        (now - then) / 1000
    } else {
        0
    };
    let mins = secs / 60;
    let hours = secs / 3600;
    let days = secs / 86400;
    let mut s = String::new();
    if mins < 1 {
        s.append("just now");
    } else if mins < 60 {
        push_decimal(&mut s, mins);
        s.append("m ago");
    } else if hours < 24 {
        push_decimal(&mut s, hours);
        s.append("h ago");
    } else if days < 7 {
        push_decimal(&mut s, days);
        s.append("d ago");
    } else {
        let (y, m, d) = days_to_ymd(then / 1000 / 86400);
        push_decimal(&mut s, m);
        s.append("/");
        push_decimal(&mut s, d);
        s.append("/");
        push_decimal(&mut s, y);
    }
    assert(s@ =~= age_text(now as nat, then as nat));
    s
}

/// How long ago `modified_ms` (milliseconds after the epoch) was.
pub fn format_session_age(modified_ms: u64) -> (r: String)
    ensures
        exists|now: u64| r@ == #[trigger] age_text(now as nat, modified_ms as nat),
{
    let now = unix_millis_now();
    format_age_at(now, modified_ms)
}

/// `n / d` rounded to the nearest whole number, ties to the even one.
pub open spec fn round_half_even(n: nat, d: nat) -> nat
    recommends
        d > 0,
{
    let q = n / d;
    let r = n % d;
    if 2 * r > d || (2 * r == d && q % 2 == 1) {
        q + 1
    } else {
        q
    }
}

/// `bytes / unit` with one decimal, rounded to the nearest tenth, ties to even.
pub open spec fn one_decimal(bytes: nat, unit: nat) -> Seq<char> {
    let tenths = round_half_even(bytes * 10, unit);
    decimal(tenths / 10) + "."@ + seq![digit_char(tenths % 10)]
}

/// A byte count for people: bytes below a kibibyte, then KB, then MB, with one decimal.
pub open spec fn size_text(bytes: nat) -> Seq<char> {
    if bytes < 1024 {
        decimal(bytes) + "B"@
    } else if bytes < 1024 * 1024 {
        one_decimal(bytes, 1024) + "KB"@
    } else {
        one_decimal(bytes, 1024 * 1024) + "MB"@
    }
}

fn push_one_decimal(s: &mut String, bytes: u64, unit: u64)
    requires
        unit > 0,
    ensures
        final(s)@ == old(s)@ + one_decimal(bytes as nat, unit as nat),
{
    let n: u128 = (bytes as u128) * 10;
    let d: u128 = unit as u128;
    let q = n / d;
    let r = n % d;
    let tenths: u128 = if 2 * r > d || (2 * r == d && q % 2 == 1) {
        q + 1
    } else {
        q
    };
    assert(tenths == round_half_even(bytes as nat * 10, unit as nat));
    assert(tenths / 10 <= u64::MAX);
    push_decimal(s, (tenths / 10) as u64);
    s.append(".");
    push_digit(s, (tenths % 10) as u64);
    proof {
        reveal_strlit(".");
        assert(s@ =~= old(s)@ + one_decimal(bytes as nat, unit as nat));
    }
}

/// A byte count for people.
pub fn format_file_size(bytes: u64) -> (r: String)
    ensures
        r@ == size_text(bytes as nat),
{
    let mut s = String::new();
    if bytes < 1024 {
        push_decimal(&mut s, bytes);
        s.append("B");
    } else if bytes < 1024 * 1024 {
        push_one_decimal(&mut s, bytes, 1024);
        s.append("KB");
    } else {
        push_one_decimal(&mut s, bytes, 1024 * 1024);
        s.append("MB");
    }
    assert(s@ =~= size_text(bytes as nat));
    s
}

} // verus!
