//! Calendar date-times at second resolution, their millisecond epoch
//! values, and the two accepted textual shapes
//! (`YYYY-MM-DD HH:MM:SS` and `YYYY-MM-DD`).

use vstd::prelude::*;

verus! {

/// A timezone-naive calendar date-time at second resolution.
#[derive(Clone, Copy, PartialEq, Eq, Structural, Debug)]
pub struct WeightDateTime {
    pub year: u16,
    pub month: u8,
    pub day: u8,
    pub hour: u8,
    pub minute: u8,
    pub second: u8,
}

/// Proleptic Gregorian leap-year rule.
pub open spec fn is_leap_year(y: int) -> bool {
    (y % 4 == 0 && y % 100 != 0) || y % 400 == 0
}

/// Number of days in month `m` of year `y` (months are 1-based).
pub open spec fn days_in_month(y: int, m: int) -> int {
    if m == 2 {
        if is_leap_year(y) {
            29
        } else {
            28
        }
    } else if m == 4 || m == 6 || m == 9 || m == 11 {
        30
    } else {
        31
    }
}

/// The fields form a real calendar date-time; years are limited to the
/// four-digit range the textual shapes can express.
pub open spec fn valid_datetime(dt: WeightDateTime) -> bool {
    &&& dt.year <= 9999
    &&& 1 <= dt.month <= 12
    &&& 1 <= dt.day && dt.day as int <= days_in_month(dt.year as int, dt.month as int)
    &&& dt.hour < 24
    &&& dt.minute < 60
    &&& dt.second < 60
}

/// Number of leap years among `0, 1, ..., y - 1`.
pub open spec fn leap_years_before(y: int) -> int
    decreases y,
{
    if y <= 0 {
        0
    } else {
        leap_years_before(y - 1) + if is_leap_year(y - 1) {
            1int
        } else {
            0int
        }
    }
}

/// Days in all years before year `y`, counted from 0000-01-01.
pub open spec fn days_before_year(y: int) -> int {
    365 * y + leap_years_before(y)
}

/// Days in all months of year `y` before month `m`.
pub open spec fn days_before_month(y: int, m: int) -> int
    decreases m,
{
    if m <= 1 {
        0
    } else {
        days_before_month(y, m - 1) + days_in_month(y, m - 1)
    }
}

/// Day index of a date in the proleptic Gregorian calendar, with
/// 0000-01-01 as day zero.
pub open spec fn day_number(y: int, m: int, d: int) -> int {
    days_before_year(y) + days_before_month(y, m) + d - 1
}

/// Day index of the reference instant 1970-01-01.
pub open spec fn epoch_day_number() -> int {
    day_number(1970, 1, 1)
}

/// Milliseconds between a date-time and the reference instant
/// 1970-01-01 00:00:00; negative for earlier date-times.
pub open spec fn epoch_millis_of(dt: WeightDateTime) -> int {
    (day_number(dt.year as int, dt.month as int, dt.day as int) - epoch_day_number()) * 86400000
        + (dt.hour as int * 3600 + dt.minute as int * 60 + dt.second as int) * 1000
}

/// The unsigned 64-bit value of a (possibly negative) millisecond count,
/// as a two's-complement cast produces it.
pub open spec fn wrap_u64(m: int) -> u64 {
    (m % 0x1_0000_0000_0000_0000) as u64
}

/// Dividing the next integer either keeps the quotient or, exactly at a
/// multiple of the divisor, raises it by one.
proof fn lemma_quotient_step(n: int, d: int)
    requires
        0 <= n,
        1 <= d,
    ensures
        (n + 1) / d == n / d + if (n + 1) % d == 0 {
            1int
        } else {
            0int
        },
{
    let q = n / d;
    let r = n % d;
    vstd::arithmetic::div_mod::lemma_fundamental_div_mod(n, d);
    assert(n == q * d + r) by (nonlinear_arith)
        requires
            n == d * q + r,
    ;
    assert((q + 1) * d == q * d + d) by (nonlinear_arith);
    if r == d - 1 {
        vstd::arithmetic::div_mod::lemma_fundamental_div_mod_converse(n + 1, d, q + 1, 0);
    } else {
        vstd::arithmetic::div_mod::lemma_fundamental_div_mod_converse(n + 1, d, q, r + 1);
    }
}

/// Closed form of `leap_years_before`.
pub proof fn lemma_leap_years_closed(y: int)
    requires
        0 <= y,
    ensures
        leap_years_before(y) == (y + 3) / 4 - (y + 99) / 100 + (y + 399) / 400,
    decreases y,
{
    if y > 0 {
        lemma_leap_years_closed(y - 1);
        lemma_quotient_step(y + 2, 4);
        lemma_quotient_step(y + 98, 100);
        lemma_quotient_step(y + 398, 400);
        vstd::arithmetic::div_mod::lemma_mod_add_multiples_vanish(y - 1, 4);
        vstd::arithmetic::div_mod::lemma_mod_add_multiples_vanish(y - 1, 100);
        vstd::arithmetic::div_mod::lemma_mod_add_multiples_vanish(y - 1, 400);
        assert((y - 1) % 100 == 0 ==> (y - 1) % 4 == 0) by {
            if (y - 1) % 100 == 0 {
                let k = (y - 1) / 100;
                vstd::arithmetic::div_mod::lemma_fundamental_div_mod(y - 1, 100);
                assert(100 * k % 4 == 0) by (nonlinear_arith);
            }
        }
        assert((y - 1) % 400 == 0 ==> (y - 1) % 100 == 0) by {
            if (y - 1) % 400 == 0 {
                let k = (y - 1) / 400;
                vstd::arithmetic::div_mod::lemma_fundamental_div_mod(y - 1, 400);
                assert(400 * k % 100 == 0) by (nonlinear_arith);
            }
        }
    }
}

/// `leap_years_before` never decreases.
pub proof fn lemma_leap_years_mono(y1: int, y2: int)
    requires
        y1 <= y2,
    ensures
        leap_years_before(y1) <= leap_years_before(y2),
    decreases y2 - y1,
{
    if y1 < y2 {
        lemma_leap_years_mono(y1, y2 - 1);
    }
}

/// `days_before_year` grows by at least 365 per year.
pub proof fn lemma_days_before_year_mono(y1: int, y2: int)
    requires
        y1 <= y2,
    ensures
        days_before_year(y1) + 365 * (y2 - y1) <= days_before_year(y2),
{
    lemma_leap_years_mono(y1, y2);
}

/// `days_before_month` never decreases with the month.
pub proof fn lemma_days_before_month_mono(y: int, m1: int, m2: int)
    requires
        m1 <= m2,
    ensures
        days_before_month(y, m1) <= days_before_month(y, m2),
    decreases m2 - m1,
{
    if m1 < m2 {
        lemma_days_before_month_mono(y, m1, m2 - 1);
        assert(days_in_month(y, m2 - 1) >= 28);
    }
}

/// All months of a year fit before the next year begins.
pub proof fn lemma_months_fit_in_year(y: int, m: int)
    requires
        1 <= m <= 12,
    ensures
        days_before_month(y, m) + days_in_month(y, m) <= 365 + if is_leap_year(y) {
            1int
        } else {
            0int
        },
{
    reveal_with_fuel(days_before_month, 13);
}

/// Day numbers respect the lexicographic date order strictly.
pub proof fn lemma_day_number_increases(y1: int, m1: int, d1: int, y2: int, m2: int, d2: int)
    requires
        1 <= m1 <= 12,
        1 <= d1 <= days_in_month(y1, m1),
        1 <= m2 <= 12,
        1 <= d2 <= days_in_month(y2, m2),
        0 <= y1,
        0 <= y2,
        (y1 < y2) || (y1 == y2 && m1 < m2) || (y1 == y2 && m1 == m2 && d1 < d2),
    ensures
        day_number(y1, m1, d1) < day_number(y2, m2, d2),
{
    if y1 < y2 {
        lemma_months_fit_in_year(y1, m1);
        lemma_days_before_month_mono(y1, 1, m1);
        assert(days_before_year(y1 + 1) == days_before_year(y1) + 365 + if is_leap_year(y1) {
            1int
        } else {
            0int
        });
        lemma_days_before_year_mono(y1 + 1, y2);
        lemma_days_before_month_mono(y2, 1, m2);
    } else if m1 < m2 {
        lemma_days_before_month_mono(y1, m1 + 1, m2);
    }
}

/// Lexicographic order on the calendar fields, oldest first.
pub open spec fn dt_le(a: WeightDateTime, b: WeightDateTime) -> bool {
    if a.year != b.year {
        a.year < b.year
    } else if a.month != b.month {
        a.month < b.month
    } else if a.day != b.day {
        a.day < b.day
    } else if a.hour != b.hour {
        a.hour < b.hour
    } else if a.minute != b.minute {
        a.minute < b.minute
    } else {
        a.second <= b.second
    }
}

/// Strict version of `dt_le`.
pub open spec fn dt_lt(a: WeightDateTime, b: WeightDateTime) -> bool {
    dt_le(a, b) && a != b
}

/// No more leap years than years: a coarse bound on the count.
pub proof fn lemma_leap_years_le(y: int)
    requires
        0 <= y,
    ensures
        leap_years_before(y) <= y,
    decreases y,
{
    if y > 0 {
        lemma_leap_years_le(y - 1);
    }
}

/// The millisecond epoch value respects the calendar order: an earlier
/// instant never has the larger count, and a strictly earlier one has a
/// strictly smaller count.
pub proof fn lemma_dt_le_millis(a: WeightDateTime, b: WeightDateTime)
    requires
        valid_datetime(a),
        valid_datetime(b),
        dt_le(a, b),
    ensures
        epoch_millis_of(a) <= epoch_millis_of(b),
        dt_lt(a, b) ==> epoch_millis_of(a) < epoch_millis_of(b),
{
    let da = day_number(a.year as int, a.month as int, a.day as int);
    let db = day_number(b.year as int, b.month as int, b.day as int);
    let ta = (a.hour as int * 3600 + a.minute as int * 60 + a.second as int) * 1000;
    let tb = (b.hour as int * 3600 + b.minute as int * 60 + b.second as int) * 1000;
    if a.year == b.year && a.month == b.month && a.day == b.day {
        assert(ta <= tb);
        assert(dt_lt(a, b) ==> ta < tb);
    } else {
        lemma_day_number_increases(
            a.year as int,
            a.month as int,
            a.day as int,
            b.year as int,
            b.month as int,
            b.day as int,
        );
        assert(ta <= 86399000);
        assert(tb >= 0);
    }
}

/// For instants from 1970 on, the millisecond epoch value is
/// non-negative and fits in 64 unsigned bits unchanged.
pub proof fn lemma_millis_in_range(dt: WeightDateTime)
    requires
        valid_datetime(dt),
        dt.year >= 1970,
    ensures
        0 <= epoch_millis_of(dt) < 0x1_0000_0000_0000_0000,
        wrap_u64(epoch_millis_of(dt)) == epoch_millis_of(dt),
{
    let epoch = WeightDateTime { year: 1970, month: 1, day: 1, hour: 0, minute: 0, second: 0 };
    assert(valid_datetime(epoch));
    lemma_dt_le_millis(epoch, dt);
    assert(epoch_millis_of(epoch) == 0);
    lemma_bounded_millis(dt);
    vstd::arithmetic::div_mod::lemma_small_mod(
        epoch_millis_of(dt) as nat,
        0x1_0000_0000_0000_0000,
    );
}

/// Any valid date-time of the four-digit years stays within a narrow
/// band of millisecond values around the reference instant.
pub proof fn lemma_bounded_millis(dt: WeightDateTime)
    requires
        valid_datetime(dt),
    ensures
        -0x2_0000_0000_0000 < epoch_millis_of(dt) < 0x2_0000_0000_0000,
{
    let y = dt.year as int;
    lemma_leap_years_le(y);
    lemma_leap_years_mono(0, y);
    lemma_days_before_month_mono(y, 1, dt.month as int);
    lemma_months_fit_in_year(y, dt.month as int);
    lemma_leap_years_le(1970);
    lemma_leap_years_mono(0, 1970);
}

/// ASCII byte values of the punctuation in the accepted shapes.
pub const DASH: u8 = 45;

pub const SPACE: u8 = 32;

pub const COLON: u8 = 58;

/// ASCII decimal digit.
pub open spec fn is_digit(b: u8) -> bool {
    0x30 <= b && b <= 0x39
}

/// Numeric value of an ASCII digit.
pub open spec fn digit_val(b: u8) -> int {
    b as int - 0x30
}

/// The first ten bytes spell `YYYY-MM-DD`.
pub open spec fn date_shape(s: Seq<u8>) -> bool {
    &&& s.len() >= 10
    &&& is_digit(s[0]) && is_digit(s[1]) && is_digit(s[2]) && is_digit(s[3])
    &&& s[4] == DASH
    &&& is_digit(s[5]) && is_digit(s[6])
    &&& s[7] == DASH
    &&& is_digit(s[8]) && is_digit(s[9])
}

/// Bytes eleven to nineteen spell ` HH:MM:SS`.
pub open spec fn time_shape(s: Seq<u8>) -> bool {
    &&& s.len() >= 19
    &&& s[10] == SPACE
    &&& is_digit(s[11]) && is_digit(s[12])
    &&& s[13] == COLON
    &&& is_digit(s[14]) && is_digit(s[15])
    &&& s[16] == COLON
    &&& is_digit(s[17]) && is_digit(s[18])
}

/// The date-time whose calendar fields a well-shaped text spells out.
pub open spec fn spelled_datetime(s: Seq<u8>) -> WeightDateTime {
    WeightDateTime {
        year: (digit_val(s[0]) * 1000 + digit_val(s[1]) * 100 + digit_val(s[2]) * 10 + digit_val(
            s[3],
        )) as u16,
        month: (digit_val(s[5]) * 10 + digit_val(s[6])) as u8,
        day: (digit_val(s[8]) * 10 + digit_val(s[9])) as u8,
        hour: if s.len() >= 19 {
            (digit_val(s[11]) * 10 + digit_val(s[12])) as u8
        } else {
            0
        },
        minute: if s.len() >= 19 {
            (digit_val(s[14]) * 10 + digit_val(s[15])) as u8
        } else {
            0
        },
        second: if s.len() >= 19 {
            (digit_val(s[17]) * 10 + digit_val(s[18])) as u8
        } else {
            0
        },
    }
}

/// Meaning of a field as a full `YYYY-MM-DD HH:MM:SS` value: the spelled
/// date-time, provided the text has exactly that shape and names a real
/// calendar instant.
pub open spec fn spec_parse_datetime(s: Seq<u8>) -> Option<WeightDateTime> {
    if s.len() == 19 && date_shape(s) && time_shape(s) && valid_datetime(spelled_datetime(s)) {
        Some(spelled_datetime(s))
    } else {
        None
    }
}

/// Meaning of a field as a `YYYY-MM-DD` value, normalized to midnight.
pub open spec fn spec_parse_date(s: Seq<u8>) -> Option<WeightDateTime> {
    if s.len() == 10 && date_shape(s) && valid_datetime(spelled_datetime(s)) {
        Some(spelled_datetime(s))
    } else {
        None
    }
}

/// The `YYYY-MM-DD HH:MM:SS` rendering of a date-time.
pub open spec fn format_datetime(dt: WeightDateTime) -> Seq<u8> {
    seq![
        (0x30 + (dt.year as int) / 1000) as u8,
        (0x30 + ((dt.year as int) / 100) % 10) as u8,
        (0x30 + ((dt.year as int) / 10) % 10) as u8,
        (0x30 + (dt.year as int) % 10) as u8,
        DASH,
        (0x30 + (dt.month as int) / 10) as u8,
        (0x30 + (dt.month as int) % 10) as u8,
        DASH,
        (0x30 + (dt.day as int) / 10) as u8,
        (0x30 + (dt.day as int) % 10) as u8,
        SPACE,
        (0x30 + (dt.hour as int) / 10) as u8,
        (0x30 + (dt.hour as int) % 10) as u8,
        COLON,
        (0x30 + (dt.minute as int) / 10) as u8,
        (0x30 + (dt.minute as int) % 10) as u8,
        COLON,
        (0x30 + (dt.second as int) / 10) as u8,
        (0x30 + (dt.second as int) % 10) as u8,
    ]
}

/// A two-digit rendering decodes back to its digits.
proof fn lemma_two_digit_recovery(a: int, b: int)
    requires
        0 <= a <= 9,
        0 <= b <= 9,
    ensures
        (a * 10 + b) / 10 == a,
        (a * 10 + b) % 10 == b,
{
    vstd::arithmetic::div_mod::lemma_fundamental_div_mod_converse(a * 10 + b, 10, a, b);
}

/// A four-digit rendering decodes back to its digits.
proof fn lemma_four_digit_recovery(a: int, b: int, c: int, d: int)
    requires
        0 <= a <= 9,
        0 <= b <= 9,
        0 <= c <= 9,
        0 <= d <= 9,
    ensures
        (a * 1000 + b * 100 + c * 10 + d) / 1000 == a,
        ((a * 1000 + b * 100 + c * 10 + d) / 100) % 10 == b,
        ((a * 1000 + b * 100 + c * 10 + d) / 10) % 10 == c,
        (a * 1000 + b * 100 + c * 10 + d) % 10 == d,
{
    let n = a * 1000 + b * 100 + c * 10 + d;
    vstd::arithmetic::div_mod::lemma_fundamental_div_mod_converse(n, 1000, a, b * 100 + c * 10 + d);
    vstd::arithmetic::div_mod::lemma_fundamental_div_mod_converse(n, 100, a * 10 + b, c * 10 + d);
    vstd::arithmetic::div_mod::lemma_fundamental_div_mod_converse(n, 10, a * 100 + b * 10 + c, d);
    lemma_two_digit_recovery(a, b);
    vstd::arithmetic::div_mod::lemma_fundamental_div_mod_converse(
        a * 100 + b * 10 + c,
        10,
        a * 10 + b,
        c,
    );
}

/// Decoding a full `YYYY-MM-DD HH:MM:SS` field and rendering the value
/// again reproduces the original text exactly.
pub proof fn lemma_parse_format_round_trip(s: Seq<u8>)
    requires
        spec_parse_datetime(s) is Some,
    ensures
        format_datetime(spec_parse_datetime(s)->Some_0) == s,
{
    let dt = spec_parse_datetime(s)->Some_0;
    lemma_four_digit_recovery(digit_val(s[0]), digit_val(s[1]), digit_val(s[2]), digit_val(s[3]));
    lemma_two_digit_recovery(digit_val(s[5]), digit_val(s[6]));
    lemma_two_digit_recovery(digit_val(s[8]), digit_val(s[9]));
    lemma_two_digit_recovery(digit_val(s[11]), digit_val(s[12]));
    lemma_two_digit_recovery(digit_val(s[14]), digit_val(s[15]));
    lemma_two_digit_recovery(digit_val(s[17]), digit_val(s[18]));
    assert(format_datetime(dt) =~= s);
}

/// Executable digit test.
pub fn is_digit_exec(b: u8) -> (r: bool)
    ensures
        r == is_digit(b),
{
    48 <= b && b <= 57
}

/// Executable `days_in_month`.
pub fn days_in_month_exec(y: u16, m: u8) -> (r: u8)
    ensures
        r == days_in_month(y as int, m as int),
{
    if m == 2 {
        if is_leap_year_exec(y) {
            29
        } else {
            28
        }
    } else if m == 4 || m == 6 || m == 9 || m == 11 {
        30
    } else {
        31
    }
}

/// Executable validity test for the calendar fields.
pub fn valid_datetime_exec(dt: &WeightDateTime) -> (r: bool)
    ensures
        r == valid_datetime(*dt),
{
    dt.year <= 9999 && 1 <= dt.month && dt.month <= 12 && 1 <= dt.day && dt.day
        <= days_in_month_exec(dt.year, dt.month) && dt.hour < 24 && dt.minute < 60 && dt.second
        < 60
}

/// Reads the `YYYY-MM-DD` prefix of a well-shaped field as a midnight
/// date-time, before any validity check.
fn read_date_fields(field: &[u8]) -> (r: WeightDateTime)
    requires
        date_shape(field@),
    ensures
        r == spelled_datetime(field@.take(10)),
{
    let year = (field[0] - 48) as u16 * 1000 + (field[1] - 48) as u16 * 100 + (field[2] - 48)
        as u16 * 10 + (field[3] - 48) as u16;
    let month = (field[5] - 48) * 10 + (field[6] - 48);
    let day = (field[8] - 48) * 10 + (field[9] - 48);
    WeightDateTime { year, month, day, hour: 0, minute: 0, second: 0 }
}

/// Decodes a field as a full `YYYY-MM-DD HH:MM:SS` value.
pub fn parse_datetime(field: &[u8]) -> (r: Option<WeightDateTime>)
    ensures
        r == spec_parse_datetime(field@),
{
    if field.len() != 19 {
        return None;
    }
    if !(is_digit_exec(field[0]) && is_digit_exec(field[1]) && is_digit_exec(field[2])
        && is_digit_exec(field[3]) && field[4] == DASH && is_digit_exec(field[5]) && is_digit_exec(
        field[6],
    ) && field[7] == DASH && is_digit_exec(field[8]) && is_digit_exec(field[9])) {
        return None;
    }
    if !(field[10] == SPACE && is_digit_exec(field[11]) && is_digit_exec(field[12]) && field[13]
        == COLON && is_digit_exec(field[14]) && is_digit_exec(field[15]) && field[16] == COLON
        && is_digit_exec(field[17]) && is_digit_exec(field[18])) {
        return None;
    }
    let date = read_date_fields(field);
    let hour = (field[11] - 48) * 10 + (field[12] - 48);
    let minute = (field[14] - 48) * 10 + (field[15] - 48);
    let second = (field[17] - 48) * 10 + (field[18] - 48);
    let dt = WeightDateTime { hour, minute, second, ..date };
    if valid_datetime_exec(&dt) {
        assert(dt == spelled_datetime(field@));
        Some(dt)
    } else {
        None
    }
}

/// Decodes a field as a `YYYY-MM-DD` value normalized to midnight.
pub fn parse_date(field: &[u8]) -> (r: Option<WeightDateTime>)
    ensures
        r == spec_parse_date(field@),
{
    if field.len() != 10 {
        return None;
    }
    if !(is_digit_exec(field[0]) && is_digit_exec(field[1]) && is_digit_exec(field[2])
        && is_digit_exec(field[3]) && field[4] == DASH && is_digit_exec(field[5]) && is_digit_exec(
        field[6],
    ) && field[7] == DASH && is_digit_exec(field[8]) && is_digit_exec(field[9])) {
        return None;
    }
    let dt = read_date_fields(field);
    assert(field@.take(10) =~= field@);
    if valid_datetime_exec(&dt) {
        Some(dt)
    } else {
        None
    }
}

/// Century quotients never overtake quarter quotients.
proof fn lemma_century_le_quarter(y: int)
    requires
        0 <= y,
    ensures
        (y + 99) / 100 <= (y + 3) / 4,
{
    let t = (y + 99) / 100;
    vstd::arithmetic::div_mod::lemma_fundamental_div_mod(y + 99, 100);
    vstd::arithmetic::div_mod::lemma_div_pos_is_pos(y + 99, 100);
    vstd::arithmetic::div_mod::lemma_div_pos_is_pos(y + 3, 4);
    if t >= 1 {
        let r = (y + 99) % 100;
        assert(4 * (25 * t - 24) <= y + 3) by (nonlinear_arith)
            requires
                y + 99 == 100 * t + r,
                0 <= r,
                t >= 1,
        ;
        vstd::arithmetic::div_mod::lemma_div_is_ordered(4 * (25 * t - 24), y + 3, 4);
        assert((4 * (25 * t - 24)) / 4 == 25 * t - 24) by (nonlinear_arith)
            requires
                t >= 1,
        ;
    }
}

/// Days in all years before year `y`, as executable arithmetic.
fn days_before_year_exec(y: u16) -> (r: u64)
    requires
        y <= 9999,
    ensures
        r == days_before_year(y as int),
{
    proof {
        lemma_leap_years_closed(y as int);
        lemma_century_le_quarter(y as int);
    }
    let yy = y as u64;
    365 * yy + (yy + 3) / 4 - (yy + 99) / 100 + (yy + 399) / 400
}

/// Days in all months of year `y` before month `m`, as an executable
/// table.
fn days_before_month_exec(y: u16, m: u8) -> (r: u64)
    requires
        1 <= m <= 12,
    ensures
        r == days_before_month(y as int, m as int),
{
    proof {
        reveal_with_fuel(days_before_month, 13);
    }
    let base: u64 = match m {
        1 => 0,
        2 => 31,
        3 => 59,
        4 => 90,
        5 => 120,
        6 => 151,
        7 => 181,
        8 => 212,
        9 => 243,
        10 => 273,
        11 => 304,
        _ => 334,
    };
    if m > 2 && is_leap_year_exec(y) {
        base + 1
    } else {
        base
    }
}

/// Executable leap-year test.
fn is_leap_year_exec(y: u16) -> (r: bool)
    ensures
        r == is_leap_year(y as int),
{
    (y % 4 == 0 && y % 100 != 0) || y % 400 == 0
}

impl WeightDateTime {
    /// Builds a date-time from its calendar fields.
    pub fn new(year: u16, month: u8, day: u8, hour: u8, minute: u8, second: u8) -> (r:
        WeightDateTime)
        requires
            valid_datetime(WeightDateTime { year, month, day, hour, minute, second }),
        ensures
            r == (WeightDateTime { year, month, day, hour, minute, second }),
    {
        WeightDateTime { year, month, day, hour, minute, second }
    }

    /// Milliseconds between this date-time and 1970-01-01 00:00:00,
    /// negative for earlier instants.
    pub fn epoch_millis(&self) -> (r: i64)
        requires
            valid_datetime(*self),
        ensures
            r == epoch_millis_of(*self),
    {
        proof {
            let y = self.year as int;
            lemma_leap_years_le(y);
            lemma_leap_years_mono(0, y);
            lemma_days_before_month_mono(y, 1, self.month as int);
            lemma_months_fit_in_year(y, self.month as int);
            lemma_leap_years_le(1970);
            lemma_leap_years_mono(0, 1970);
        }
        let days = days_before_year_exec(self.year) + days_before_month_exec(
            self.year,
            self.month,
        ) + self.day as u64 - 1;
        let epoch_days = days_before_year_exec(1970);
        let time = (self.hour as i64) * 3600 + (self.minute as i64) * 60 + (self.second as i64);
        (days as i64 - epoch_days as i64) * 86400000 + time * 1000
    }

    /// The millisecond epoch value as the unsigned 64-bit key the
    /// records carry, wrapping for instants before the reference.
    pub fn raw_epoch_millis(&self) -> (r: u64)
        requires
            valid_datetime(*self),
        ensures
            r == wrap_u64(epoch_millis_of(*self)),
    {
        let m = self.epoch_millis();
        if m >= 0 {
            proof {
                vstd::arithmetic::div_mod::lemma_small_mod(m as nat, 0x1_0000_0000_0000_0000);
            }
            m as u64
        } else {
            proof {
                vstd::arithmetic::div_mod::lemma_fundamental_div_mod_converse(
                    m as int,
                    0x1_0000_0000_0000_0000,
                    -1,
                    m + 0x1_0000_0000_0000_0000,
                );
            }
            ((m as i128) + 0x1_0000_0000_0000_0000_i128) as u64
        }
    }

    /// Renders the date-time as `YYYY-MM-DD HH:MM:SS`.
    pub fn format(&self) -> (r: Vec<u8>)
        requires
            valid_datetime(*self),
        ensures
            r@ == format_datetime(*self),
    {
        let mut v: Vec<u8> = Vec::new();
        v.push(48 + (self.year / 1000) as u8);
        v.push(48 + ((self.year / 100) % 10) as u8);
        v.push(48 + ((self.year / 10) % 10) as u8);
        v.push(48 + (self.year % 10) as u8);
        v.push(DASH);
        v.push(48 + self.month / 10);
        v.push(48 + self.month % 10);
        v.push(DASH);
        v.push(48 + self.day / 10);
        v.push(48 + self.day % 10);
        v.push(SPACE);
        v.push(48 + self.hour / 10);
        v.push(48 + self.hour % 10);
        v.push(COLON);
        v.push(48 + self.minute / 10);
        v.push(48 + self.minute % 10);
        v.push(COLON);
        v.push(48 + self.second / 10);
        v.push(48 + self.second % 10);
        proof {
            assert(v@ =~= format_datetime(*self));
        }
        v
    }

    /// Lexicographic comparison of the calendar fields, oldest first.
    pub fn cmp(&self, other: &WeightDateTime) -> (r: core::cmp::Ordering)
        ensures
            r == core::cmp::Ordering::Less <==> dt_lt(*self, *other),
            r == core::cmp::Ordering::Equal <==> *self == *other,
            r == core::cmp::Ordering::Greater <==> dt_lt(*other, *self),
    {
        if self.year != other.year {
            if self.year < other.year {
                core::cmp::Ordering::Less
            } else {
                core::cmp::Ordering::Greater
            }
        } else if self.month != other.month {
            if self.month < other.month {
                core::cmp::Ordering::Less
            } else {
                core::cmp::Ordering::Greater
            }
        } else if self.day != other.day {
            if self.day < other.day {
                core::cmp::Ordering::Less
            } else {
                core::cmp::Ordering::Greater
            }
        } else if self.hour != other.hour {
            if self.hour < other.hour {
                core::cmp::Ordering::Less
            } else {
                core::cmp::Ordering::Greater
            }
        } else if self.minute != other.minute {
            if self.minute < other.minute {
                core::cmp::Ordering::Less
            } else {
                core::cmp::Ordering::Greater
            }
        } else if self.second != other.second {
            if self.second < other.second {
                core::cmp::Ordering::Less
            } else {
                core::cmp::Ordering::Greater
            }
        } else {
            core::cmp::Ordering::Equal
        }
    }
}

} // verus!
