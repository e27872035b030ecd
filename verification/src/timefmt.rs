//! UTC timestamps: seconds since the Unix epoch rendered as
//! `YYYY-MM-DDTHH:MM:SSZ` in the proleptic Gregorian calendar.
use crate::text::{decimal_padded, push_decimal_padded};
use vstd::prelude::*;

verus! {

pub open spec fn is_leap(y: int) -> bool {
    (y % 4 == 0 && y % 100 != 0) || y % 400 == 0
}

pub open spec fn year_len(y: int) -> int {
    if is_leap(y) {
        366
    } else {
        365
    }
}

pub open spec fn month_len(y: int, m: int) -> int {
    if m == 2 {
        if is_leap(y) {
            29
        } else {
            28
        }
    } else if m == 4 || m == 6 || m == 9 || m == 11 {
        30
    } else {
        31
    }
}

/// The date `days` days after the first of month `m` of year `y`.
pub open spec fn date_in_year(days: int, y: int, m: int) -> (int, int, int)
    decreases 12 - m,
{
    if m >= 12 || days < month_len(y, m) {
        (y, m, days + 1)
    } else {
        date_in_year(days - month_len(y, m), y, m + 1)
    }
}

/// The date `days` days after the first of January of year `y`.
pub open spec fn date_from(days: int, y: int) -> (int, int, int)
    decreases days,
{
    if days < year_len(y) {
        date_in_year(days, y, 1)
    } else {
        date_from(days - year_len(y), y + 1)
    }
}

/// The `(year, month, day)` that is `days` days after 1970-01-01.
pub open spec fn civil_date(days: nat) -> (int, int, int) {
    date_from(days as int, 1970)
}

/// `YYYY-MM-DDTHH:MM:SSZ` for `secs` seconds after the epoch.
pub open spec fn epoch_text(secs: nat) -> Seq<char> {
    let d = civil_date(secs / 86400);
    decimal_padded(d.0 as nat, 4) + "-"@ + decimal_padded(d.1 as nat, 2) + "-"@ + decimal_padded(d.2 as nat, 2) + "T"@
        + decimal_padded((secs / 3600 % 24) as nat, 2) + ":"@ + decimal_padded((secs / 60 % 60) as nat, 2) + ":"@
        + decimal_padded((secs % 60) as nat, 2) + "Z"@
}

/// The number of days of month `m` (1 to 12) of year `y` in the Gregorian
/// calendar: thirty days hath September, April, June and November; February
/// has 29 in years divisible by 4 but not by 100, or divisible by 400, else 28.
pub open spec fn gregorian_month_days(y: int, m: int) -> int {
    if m == 2 {
        if (y % 4 == 0 && y % 100 != 0) || y % 400 == 0 {
            29
        } else {
            28
        }
    } else if m == 9 || m == 4 || m == 6 || m == 11 {
        30
    } else {
        31
    }
}

/// A valid Gregorian date `(year, month, day)`.
pub open spec fn valid_gregorian(d: (int, int, int)) -> bool {
    1 <= d.1 <= 12 && 1 <= d.2 <= gregorian_month_days(d.0, d.1)
}

/// The calendar day after `d`.
pub open spec fn day_after(d: (int, int, int)) -> (int, int, int) {
    if d.2 < gregorian_month_days(d.0, d.1) {
        (d.0, d.1, d.2 + 1)
    } else if d.1 < 12 {
        (d.0, d.1 + 1, 1)
    } else {
        (d.0 + 1, 1, 1)
    }
}

/// Days from the first of month `m` to the end of year `y`.
spec fn days_left(y: int, m: int) -> int
    decreases 13 - m,
{
    if m > 12 || m < 1 {
        0
    } else {
        month_len(y, m) + days_left(y, m + 1)
    }
}

proof fn lemma_month_len_gregorian(y: int, m: int)
    ensures
        month_len(y, m) == gregorian_month_days(y, m),
{
}

proof fn lemma_year_len_days_left(y: int)
    ensures
        year_len(y) == days_left(y, 1),
        days_left(y, 12) == 31,
{
    reveal_with_fuel(days_left, 13);
}

proof fn lemma_days_left_positive(y: int, m: int)
    requires
        1 <= m <= 12,
    ensures
        days_left(y, m) >= month_len(y, m) + (if m < 12 { 1int } else { 0int }),
        month_len(y, m) >= 28,
    decreases 13 - m,
{
    if m < 12 {
        lemma_days_left_positive(y, m + 1);
    } else {
        assert(days_left(y, 13) == 0);
    }
}

proof fn lemma_in_year_valid(days: int, y: int, m: int)
    requires
        1 <= m <= 12,
        0 <= days < days_left(y, m),
    ensures
        valid_gregorian(date_in_year(days, y, m)),
        date_in_year(days, y, m).0 == y,
    decreases 13 - m,
{
    lemma_days_left_positive(y, m);
    lemma_month_len_gregorian(y, m);
    if m < 12 && days >= month_len(y, m) {
        lemma_in_year_valid(days - month_len(y, m), y, m + 1);
    } else if m == 12 {
        assert(days_left(y, 13) == 0);
    }
}

proof fn lemma_in_year_next(days: int, y: int, m: int)
    requires
        1 <= m <= 12,
        0 <= days,
        days + 1 < days_left(y, m),
    ensures
        date_in_year(days + 1, y, m) == day_after(date_in_year(days, y, m)),
    decreases 13 - m,
{
    lemma_days_left_positive(y, m);
    lemma_month_len_gregorian(y, m);
    if m == 12 {
        assert(days_left(y, 13) == 0);
    } else if days + 1 < month_len(y, m) {
    } else if days + 1 == month_len(y, m) {
        lemma_days_left_positive(y, m + 1);
        assert(date_in_year(days + 1, y, m) == date_in_year(0, y, m + 1));
        assert(date_in_year(0, y, m + 1) == (y, m + 1, 1int));
    } else {
        lemma_in_year_next(days - month_len(y, m), y, m + 1);
        assert(date_in_year(days + 1, y, m) == date_in_year(days + 1 - month_len(y, m), y, m + 1));
        assert(date_in_year(days, y, m) == date_in_year(days - month_len(y, m), y, m + 1));
    }
}

proof fn lemma_in_year_last(y: int, m: int)
    requires
        1 <= m <= 12,
    ensures
        date_in_year(days_left(y, m) - 1, y, m) == (y, 12int, 31int),
    decreases 13 - m,
{
    lemma_days_left_positive(y, m);
    if m == 12 {
        assert(days_left(y, 13) == 0);
    } else {
        lemma_days_left_positive(y, m + 1);
        lemma_in_year_last(y, m + 1);
    }
}

proof fn lemma_from_valid(days: int, y: int)
    requires
        0 <= days,
    ensures
        valid_gregorian(date_from(days, y)),
        date_from(days, y).0 >= y,
    decreases days,
{
    lemma_year_len_days_left(y);
    if days < year_len(y) {
        lemma_in_year_valid(days, y, 1);
    } else {
        lemma_from_valid(days - year_len(y), y + 1);
    }
}

proof fn lemma_from_next(days: int, y: int)
    requires
        0 <= days,
    ensures
        date_from(days + 1, y) == day_after(date_from(days, y)),
    decreases days,
{
    lemma_year_len_days_left(y);
    lemma_year_len_days_left(y + 1);
    lemma_days_left_positive(y + 1, 1);
    if days + 1 < year_len(y) {
        lemma_in_year_next(days, y, 1);
    } else if days + 1 == year_len(y) {
        lemma_in_year_last(y, 1);
        assert(date_from(0, y + 1) == date_in_year(0, y + 1, 1));
    } else {
        lemma_from_next(days - year_len(y), y + 1);
    }
}

/// The calendar behind every rendered timestamp (`days_to_ymd`,
/// `format_epoch_seconds`, `now_rfc3339`): day 0 is 1970-01-01, every day
/// count gives a valid Gregorian date no earlier than 1970, and consecutive
/// day counts give consecutive calendar dates (so the day after 2026-09-30
/// is 2026-10-01, and after 2024-02-28 comes 2024-02-29).
pub proof fn lemma_epoch_calendar(n: nat)
    ensures
        civil_date(0) == (1970int, 1int, 1int),
        valid_gregorian(civil_date(n)),
        civil_date(n).0 >= 1970,
        civil_date(n + 1) == day_after(civil_date(n)),
{
    lemma_year_len_days_left(1970);
    lemma_days_left_positive(1970, 1);
    assert(date_from(0, 1970) == date_in_year(0, 1970, 1));
    lemma_from_valid(n as int, 1970);
    lemma_from_next(n as int, 1970);
}

/// The text of a timestamp: the date, then hours, minutes and seconds.
pub open spec fn stamp_text(d: (int, int, int), h: nat, mi: nat, se: nat) -> Seq<char> {
    decimal_padded(d.0 as nat, 4) + "-"@ + decimal_padded(d.1 as nat, 2) + "-"@ + decimal_padded(d.2 as nat, 2) + "T"@
        + decimal_padded(h, 2) + ":"@ + decimal_padded(mi, 2) + ":"@ + decimal_padded(se, 2) + "Z"@
}

/// A rendered timestamp splits `secs` into whole days, hours, minutes and
/// seconds: it shows the calendar date of day `days` and the time `h:mi:se`,
/// where `days * 86400 + h * 3600 + mi * 60 + se == secs` with `h < 24`,
/// `mi < 60` and `se < 60`.
pub proof fn lemma_epoch_text_splits_seconds(secs: nat)
    ensures
        exists|days: nat, h: nat, mi: nat, se: nat|
            days * 86400 + h * 3600 + mi * 60 + se == secs && h < 24 && mi < 60 && se < 60 && #[trigger] stamp_text(
                civil_date(days),
                h,
                mi,
                se,
            ) == epoch_text(secs),
{
    let x = secs as int;
    let a = x / 3600;
    let b = x % 3600;
    vstd::arithmetic::div_mod::lemma_fundamental_div_mod(x, 3600);
    let c = a / 24;
    let h = a % 24;
    vstd::arithmetic::div_mod::lemma_fundamental_div_mod(a, 24);
    let mi = b / 60;
    let se = b % 60;
    vstd::arithmetic::div_mod::lemma_fundamental_div_mod(b, 60);
    assert(0 <= a && 0 <= b < 3600 && 0 <= c && 0 <= h < 24 && 0 <= mi < 60 && 0 <= se < 60) by {
        vstd::arithmetic::div_mod::lemma_div_pos_is_pos(x, 3600);
        vstd::arithmetic::div_mod::lemma_div_pos_is_pos(a, 24);
        vstd::arithmetic::div_mod::lemma_div_pos_is_pos(b, 60);
        vstd::arithmetic::div_mod::lemma_mod_bound(x, 3600);
        vstd::arithmetic::div_mod::lemma_mod_bound(a, 24);
        vstd::arithmetic::div_mod::lemma_mod_bound(b, 60);
        assert(b / 60 < 60) by (nonlinear_arith)
            requires
                0 <= b < 3600,
                b == 60 * (b / 60) + b % 60,
                0 <= b % 60,
        ;
    }
    assert(x == c * 86400 + (h * 3600 + mi * 60 + se)) by (nonlinear_arith)
        requires
            x == 3600 * a + b,
            a == 24 * c + h,
            b == 60 * mi + se,
    ;
    vstd::arithmetic::div_mod::lemma_fundamental_div_mod_converse(x, 86400, c, h * 3600 + mi * 60 + se);
    assert(x / 60 == a * 60 + mi && x % 60 == se) by {
        assert(x == (a * 60 + mi) * 60 + se) by (nonlinear_arith)
            requires
                x == 3600 * a + b,
                b == 60 * mi + se,
        ;
        vstd::arithmetic::div_mod::lemma_fundamental_div_mod_converse(x, 60, a * 60 + mi, se);
    }
    assert((a * 60 + mi) % 60 == mi) by {
        vstd::arithmetic::div_mod::lemma_fundamental_div_mod_converse(a * 60 + mi, 60, a, mi);
    }
    assert(x / 3600 % 24 == h);
    assert(stamp_text(civil_date(c as nat), h as nat, mi as nat, se as nat) == epoch_text(secs));
}

fn is_leap_year(y: u64) -> (b: bool)
    ensures
        b == is_leap(y as int),
{
    (y % 4 == 0 && y % 100 != 0) || y % 400 == 0
}

fn days_in_year(y: u64) -> (n: u64)
    ensures
        n == year_len(y as int),
{
    if is_leap_year(y) {
        366
    } else {
        365
    }
}

fn days_in_month(y: u64, m: u64) -> (n: u64)
    ensures
        n == month_len(y as int, m as int),
{
    if m == 2 {
        if is_leap_year(y) {
            29
        } else {
            28
        }
    } else if m == 4 || m == 6 || m == 9 || m == 11 {
        30
    } else {
        31
    }
}

/// The `(year, month, day)` that is `days` days after 1970-01-01.
pub fn days_to_ymd(days: u64) -> (r: (u64, u64, u64))
    ensures
        (r.0 as int, r.1 as int, r.2 as int) == civil_date(days as nat),
        valid_gregorian((r.0 as int, r.1 as int, r.2 as int)),
{
    proof {
        lemma_epoch_calendar(days as nat);
    }
    let mut left: u64 = days;
    let mut y: u64 = 1970;
    while left >= days_in_year(y)
        invariant
            y >= 1970,
            (y as int - 1970) * 365 + left as int <= days as int,
            date_from(left as int, y as int) == civil_date(days as nat),
        decreases left,
    {
        left = left - days_in_year(y);
        y = y + 1;
    }
    let mut m: u64 = 1;
    while m < 12 && left >= days_in_month(y, m)
        invariant
            1 <= m <= 12,
            left < year_len(y as int),
            date_in_year(left as int, y as int, m as int) == civil_date(days as nat),
        decreases 12 - m,
    {
        left = left - days_in_month(y, m);
        m = m + 1;
    }
    (y, m, left + 1)
}

/// Renders `secs` seconds after the epoch as `YYYY-MM-DDTHH:MM:SSZ`.
pub fn format_epoch_seconds(secs: u64) -> (r: String)
    ensures
        r@ == epoch_text(secs as nat),
{
    let s = secs % 60;
    let m = (secs / 60) % 60;
    let h = (secs / 3600) % 24;
    let days = secs / 86400;
    let (year, month, day) = days_to_ymd(days);
    let mut out = String::new();
    push_decimal_padded(&mut out, year, 4);
    out.append("-");
    push_decimal_padded(&mut out, month, 2);
    out.append("-");
    push_decimal_padded(&mut out, day, 2);
    out.append("T");
    push_decimal_padded(&mut out, h, 2);
    out.append(":");
    push_decimal_padded(&mut out, m, 2);
    out.append(":");
    push_decimal_padded(&mut out, s, 2);
    out.append("Z");
    proof {
        assert(out@ =~= epoch_text(secs as nat));
    }
    out
}

/// Seconds since the Unix epoch by the system clock (0 when the clock is
/// before the epoch).
///
/// Trusted: reads the system clock; nothing is stated of the value.
#[verifier::external_body]
fn system_epoch_seconds() -> u64 {
    std::time::SystemTime::now().duration_since(std::time::UNIX_EPOCH).map(|d| d.as_secs()).unwrap_or(0)
}

/// The system clock's distance from the Unix epoch
/// (`SystemTime::now().duration_since(UNIX_EPOCH)`, or for a clock before the
/// epoch the duration of the error): whether the clock reads before the
/// epoch, then the seconds and nanoseconds of the distance.
///
/// Trusted: reads the system clock; of the value only that the nanoseconds
/// stay below one second (`Duration::subsec_nanos`) is stated.
#[verifier::external_body]
fn system_clock_reading() -> (r: (bool, u64, u32))
    ensures
        r.2 < 1_000_000_000,
{
    match std::time::SystemTime::now().duration_since(std::time::UNIX_EPOCH) {
        Ok(d) => (false, d.as_secs(), d.subsec_nanos()),
        Err(e) => (true, e.duration().as_secs(), e.duration().subsec_nanos()),
    }
}

/// The current instant by the system clock as seconds (negative before the
/// epoch) and nanoseconds since the Unix epoch; a reading beyond the range
/// of `i64` seconds is held at its end.
pub(crate) fn clock_instant() -> (r: (i64, u32))
    ensures
        r.1 < 1_000_000_000,
{
    let (before, secs, nanos) = system_clock_reading();
    let m: i64 = if secs < 9_223_372_036_854_775_807u64 { secs as i64 } else { 9_223_372_036_854_775_806i64 };
    let r = if !before {
        (m, nanos)
    } else if nanos == 0 {
        (-m, 0u32)
    } else {
        (-m - 1, 1_000_000_000u32 - nanos)
    };
    r
}

/// The current UTC time as `YYYY-MM-DDTHH:MM:SSZ`.
pub fn now_rfc3339() -> (r: String)
    ensures
        exists|secs: nat| r@ == epoch_text(secs),
{
    format_epoch_seconds(system_epoch_seconds())
}

/// The current UTC time (same format as [`now_rfc3339`]).
pub fn now_iso8601() -> (r: String)
    ensures
        exists|secs: nat| r@ == epoch_text(secs),
{
    now_rfc3339()
}

} // verus!
