//! Byte counts and dates as text.

use vstd::prelude::*;
use crate::number;
use crate::text;

verus! {

// --- dates -------------------------------------------------------------------

/// Whether a year of the Gregorian calendar has a leap day.
pub open spec fn is_leap(y: int) -> bool {
    y % 4 == 0 && (y % 100 != 0 || y % 400 == 0)
}

/// The number of days of a month.
pub open spec fn month_days(y: int, m: int) -> int {
    if m == 2 {
        if is_leap(y) {
            29
        } else {
            28
        }
    } else if m == 4 || m == 6 || m == 9 || m == 11 {
        30
    } else {
        31
    }
}

/// The number of days of a year before the first of a month.
pub open spec fn days_before_month(y: int, m: int) -> int
    decreases m,
{
    if m <= 1 {
        0
    } else {
        days_before_month(y, m - 1) + month_days(y, m - 1)
    }
}

/// Whether a year, a month and a day make a date.
pub open spec fn is_date(y: int, m: int, d: int) -> bool {
    1 <= m <= 12 && 1 <= d <= month_days(y, m)
}

/// The days from 1 January of year 0 to 1 January of a year: one for each day of
/// an ordinary year, and one more for each leap year before it.
pub open spec fn days_before_year(y: int) -> int {
    365 * y + (y + 3) / 4 - (y + 99) / 100 + (y + 399) / 400
}

/// The days from 1 January 1970 to a date.
pub open spec fn day_number(y: int, m: int, d: int) -> int {
    days_before_year(y) - days_before_year(1970) + days_before_month(y, m) + d - 1
}

/// A date as `YYYY-MM-DD`.
pub open spec fn date_text(y: int, m: int, d: int) -> Seq<char> {
    number::pad(number::int_text(y), 4) + "-"@ + number::pad(number::int_text(m), 2) + "-"@
        + number::pad(number::int_text(d), 2)
}

/// The year of a 400-year cycle from the day of that cycle, both counted from
/// 1 March.
#[verifier::rlimit(60)]
#[verifier::spinoff_prover]
proof fn lemma_year_of_cycle(doe: int, yoe: int, doy: int)
    requires
        0 <= doe < 146_097,
        yoe == (doe - doe / 1460 + doe / 36_524 - doe / 146_096) / 365,
        doy == doe - (365 * yoe + yoe / 4 - yoe / 100),
    ensures
        0 <= yoe < 400,
        0 <= doy <= 365,
        doy == 365 ==> is_leap(yoe + 1),
{
}

/// The days of a year before the first of each month.
proof fn lemma_days_before_month(y: int, m: int)
    requires
        1 <= m <= 12,
    ensures
        days_before_month(y, m) == (if m == 1 {
            0int
        } else if m == 2 {
            31
        } else {
            (153 * (m - 3) + 2) / 5 + 59 + (if is_leap(y) {
                1int
            } else {
                0
            })
        }),
{
    reveal_with_fuel(days_before_month, 13);
}

/// The date of a day, from its 400-year cycle, year of the cycle and day of the
/// year, all counted from 1 March.
proof fn lemma_date(era: int, doe: int, yoe: int, doy: int, mp: int, d: int, m: int, y: int)
    requires
        0 <= era,
        0 <= doe < 146_097,
        yoe == (doe - doe / 1460 + doe / 36_524 - doe / 146_096) / 365,
        doy == doe - (365 * yoe + yoe / 4 - yoe / 100),
        mp == (5 * doy + 2) / 153,
        d == doy - (153 * mp + 2) / 5 + 1,
        m == if mp < 10 { mp + 3 } else { mp - 9 },
        y == yoe + era * 400 + (if m <= 2 { 1int } else { 0 }),
    ensures
        is_date(y, m, d),
        day_number(y, m, d) == era * 146_097 + doe - 719_468,
{
    lemma_year_of_cycle(doe, yoe, doy);
    lemma_month_of_day(doy, mp);
    let march = yoe + era * 400;
    lemma_leap_days(march);
    lemma_cycles(era, yoe);
    lemma_days_of_cycles(era, doe, yoe, doy);
    if m <= 2 {
        assert(y == march + 1);
        assert(is_leap(y) == is_leap(yoe + 1));
    } else {
        assert(y == march);
    }
    lemma_day_of_month(y, doy, mp, d, m);
    assert(days_before_year(1970) == 719_528);
}

/// The days of whole cycles and of what is left of one.
proof fn lemma_days_of_cycles(era: int, doe: int, yoe: int, doy: int)
    requires
        0 <= era,
        0 <= yoe < 400,
        doy == doe - (365 * yoe + yoe / 4 - yoe / 100),
    ensures
        ({
            let march = yoe + era * 400;
            era * 146_097 + doe == 365 * march + march / 4 - march / 100 + march / 400 + doy
        }),
{
    lemma_cycles(era, yoe);
}

/// The date of a day of the year, counted from 1 March, in the year that the month
/// belongs to.
proof fn lemma_day_of_month(y: int, doy: int, mp: int, d: int, m: int)
    requires
        0 <= doy <= 365,
        0 <= mp <= 11,
        (153 * mp + 2) / 5 <= doy,
        mp < 11 ==> doy < (153 * (mp + 1) + 2) / 5,
        d == doy - (153 * mp + 2) / 5 + 1,
        m == if mp < 10 { mp + 3 } else { mp - 9 },
        mp == 11 && doy == 365 ==> is_leap(y),
    ensures
        is_date(y, m, d),
        days_before_month(y, m) + d - 1 == (if m <= 2 {
            doy - 306
        } else {
            doy + 59 + (if is_leap(y) {
                1int
            } else {
                0
            })
        }),
{
    lemma_days_before_month(y, m);
    if mp == 0 {
        assert((153 * mp + 2) / 5 == 0 && (153 * (mp + 1) + 2) / 5 == 31);
    } else if mp == 1 {
        assert((153 * mp + 2) / 5 == 31 && (153 * (mp + 1) + 2) / 5 == 61);
    } else if mp == 2 {
        assert((153 * mp + 2) / 5 == 61 && (153 * (mp + 1) + 2) / 5 == 92);
    } else if mp == 3 {
        assert((153 * mp + 2) / 5 == 92 && (153 * (mp + 1) + 2) / 5 == 122);
    } else if mp == 4 {
        assert((153 * mp + 2) / 5 == 122 && (153 * (mp + 1) + 2) / 5 == 153);
    } else if mp == 5 {
        assert((153 * mp + 2) / 5 == 153 && (153 * (mp + 1) + 2) / 5 == 184);
    } else if mp == 6 {
        assert((153 * mp + 2) / 5 == 184 && (153 * (mp + 1) + 2) / 5 == 214);
    } else if mp == 7 {
        assert((153 * mp + 2) / 5 == 214 && (153 * (mp + 1) + 2) / 5 == 245);
    } else if mp == 8 {
        assert((153 * mp + 2) / 5 == 245 && (153 * (mp + 1) + 2) / 5 == 275);
    } else if mp == 9 {
        assert((153 * mp + 2) / 5 == 275 && (153 * (mp + 1) + 2) / 5 == 306);
    } else if mp == 10 {
        assert((153 * mp + 2) / 5 == 306 && (153 * (mp + 1) + 2) / 5 == 337);
    } else {
        assert((153 * mp + 2) / 5 == 337);
    }
}

/// The month of a day of the year, both counted from 1 March.
proof fn lemma_month_of_day(doy: int, mp: int)
    requires
        0 <= doy <= 365,
        mp == (5 * doy + 2) / 153,
    ensures
        0 <= mp <= 11,
        (153 * mp + 2) / 5 <= doy,
        mp < 11 ==> doy < (153 * (mp + 1) + 2) / 5,
        mp == 10 ==> doy - 306 < 31,
        mp == 11 ==> doy >= 337,
{
}

/// The leap days before a year and before the next one.
proof fn lemma_leap_days(y: int)
    requires
        0 <= y,
    ensures
        days_before_year(y) + (if is_leap(y) {
            1int
        } else {
            0
        }) == 365 * y + y / 4 - y / 100 + y / 400 + 1,
        days_before_year(y + 1) == 365 * (y + 1) + y / 4 - y / 100 + y / 400 + 1,
{
    assert((y + 3) / 4 == y / 4 + (if y % 4 == 0 { 0int } else { 1 }));
    assert((y + 99) / 100 == y / 100 + (if y % 100 == 0 { 0int } else { 1 }));
    assert((y + 399) / 400 == y / 400 + (if y % 400 == 0 { 0int } else { 1 }));
    assert(y % 400 == 0 ==> y % 100 == 0);
    assert(y % 100 == 0 ==> y % 4 == 0);
    assert((y + 1 + 3) / 4 == y / 4 + 1);
    assert((y + 1 + 99) / 100 == y / 100 + 1);
    assert((y + 1 + 399) / 400 == y / 400 + 1);
}

/// Leap days repeat every 400 years.
proof fn lemma_cycles(era: int, yoe: int)
    requires
        0 <= era,
        0 <= yoe < 400,
    ensures
        (yoe + era * 400) / 4 == yoe / 4 + era * 100,
        (yoe + era * 400) / 100 == yoe / 100 + era * 4,
        (yoe + era * 400) / 400 == era,
        is_leap(yoe + era * 400 + 1) == is_leap(yoe + 1),
        is_leap(yoe + era * 400) == is_leap(yoe),
{
    let year = yoe + era * 400;
    lemma_whole_cycles(yoe, era * 100, 4);
    lemma_whole_cycles(yoe, era * 4, 100);
    lemma_whole_cycles(yoe, era, 400);
    lemma_whole_cycles(yoe + 1, era * 100, 4);
    lemma_whole_cycles(yoe + 1, era * 4, 100);
    lemma_whole_cycles(yoe + 1, era, 400);
    assert(year == yoe + era * 100 * 4 && year == yoe + era * 4 * 100);
    assert(yoe / 400 == 0);
}

/// Whole multiples of a divisor add to the quotient alone.
proof fn lemma_whole_cycles(n: int, k: int, d: int)
    requires
        d > 0,
    ensures
        (n + k * d) / d == n / d + k,
        (n + k * d) % d == n % d,
{
    vstd::arithmetic::div_mod::lemma_fundamental_div_mod(n, d);
    assert(n + k * d == (n / d + k) * d + n % d) by (nonlinear_arith)
        requires
            n == d * (n / d) + n % d,
    ;
    vstd::arithmetic::div_mod::lemma_fundamental_div_mod_converse(n + k * d, d, n / d + k, n % d);
}

/// Two dates with the same day number are the same date.
pub proof fn law_day_numbers_are_distinct(y: int, m: int, d: int, y2: int, m2: int, d2: int)
    requires
        is_date(y, m, d),
        is_date(y2, m2, d2),
        0 <= y,
        0 <= y2,
        day_number(y, m, d) == day_number(y2, m2, d2),
    ensures
        y == y2 && m == m2 && d == d2,
{
    lemma_day_in_year(y, m, d);
    lemma_day_in_year(y2, m2, d2);
    if y < y2 {
        lemma_year_length(y, y2);
    } else if y2 < y {
        lemma_year_length(y2, y);
    }
    lemma_days_before_month(y, m);
    lemma_days_before_month(y, m2);
}

proof fn lemma_day_in_year(y: int, m: int, d: int)
    requires
        is_date(y, m, d),
    ensures
        0 <= days_before_month(y, m) + d - 1 < 365 + (if is_leap(y) {
            1int
        } else {
            0
        }),
{
    lemma_days_before_month(y, m);
}

proof fn lemma_year_length(y: int, y2: int)
    requires
        0 <= y < y2,
    ensures
        days_before_year(y) + 365 + (if is_leap(y) {
            1int
        } else {
            0
        }) <= days_before_year(y2),
{
}

/// A day count since the Unix epoch, in seconds, as the UTC date `YYYY-MM-DD`.
pub fn format_unix_date(secs: u64) -> (r: String)
    ensures
        exists|y: int, m: int, d: int|
            is_date(y, m, d) && 1970 <= y && day_number(y, m, d) == secs / 86_400 && r@
                == #[trigger] date_text(y, m, d),
{
    let z: i64 = (secs / 86_400) as i64 + 719_468;
    let era: i64 = z / 146_097;
    let doe: i64 = z - era * 146_097;
    let yoe: i64 = (doe - doe / 1460 + doe / 36_524 - doe / 146_096) / 365;
    proof {
        lemma_year_of_cycle(
            doe as int,
            yoe as int,
            doe - (365 * yoe + yoe / 4 - yoe / 100),
        );
    }
    let doy: i64 = doe - (365 * yoe + yoe / 4 - yoe / 100);
    let mp: i64 = (5 * doy + 2) / 153;
    let day: i64 = doy - (153 * mp + 2) / 5 + 1;
    let month: i64 = if mp < 10 {
        mp + 3
    } else {
        mp - 9
    };
    let base: i64 = yoe + era * 400;
    let year: i64 = if month <= 2 {
        base + 1
    } else {
        base
    };
    proof {
        lemma_date(
            era as int,
            doe as int,
            yoe as int,
            doy as int,
            mp as int,
            day as int,
            month as int,
            year as int,
        );
        lemma_day_in_year(year as int, month as int, day as int);
        if year < 1970 {
            lemma_year_length(year as int, 1970);
        }
    }
    let mut out = number::padded(number::signed_text(year).as_str(), 4);
    out.append("-");
    out.append(number::padded(number::signed_text(month).as_str(), 2).as_str());
    out.append("-");
    out.append(number::padded(number::signed_text(day).as_str(), 2).as_str());
    assert(out@ == date_text(year as int, month as int, day as int));
    out
}

// --- byte counts -------------------------------------------------------------

/// `n` divided by `unit`, rounded to the nearest whole number, ties to even.
pub open spec fn round_even(n: nat, unit: nat) -> nat {
    let q = n / unit;
    let rest = n % unit;
    if 2 * rest > unit || (2 * rest == unit && q % 2 == 1) {
        q + 1
    } else {
        q
    }
}

/// The distance between neighbouring double-precision numbers at `n`.
pub open spec fn double_step(n: nat) -> nat
    decreases n,
{
    if n < 0x20_0000_0000_0000 {
        1
    } else {
        2 * double_step(n / 2)
    }
}

/// `n` as the nearest double-precision number, ties to even.
pub open spec fn to_double(n: nat) -> nat {
    round_even(n, double_step(n)) * double_step(n)
}

/// The size of a unit: each is 1024 of the one before.
pub open spec fn unit_size(unit: nat) -> nat
    decreases unit,
{
    if unit == 0 {
        1
    } else {
        1024 * unit_size((unit - 1) as nat)
    }
}

/// The largest unit up to `most` that the size reaches, or bytes.
pub open spec fn unit_for(size: nat, most: nat) -> nat
    decreases most,
{
    if most == 0 || size >= unit_size(most) {
        most
    } else {
        unit_for(size, (most - 1) as nat)
    }
}

/// The name of a unit.
pub open spec fn unit_name(unit: nat) -> Seq<char> {
    if unit == 0 {
        "B"@
    } else if unit == 1 {
        "KB"@
    } else if unit == 2 {
        "MB"@
    } else if unit == 3 {
        "GB"@
    } else {
        "TB"@
    }
}

/// A byte count as text: whole bytes below 1024, else the largest unit that it
/// reaches, up to terabytes, to one decimal. The count is taken in double
/// precision and rounded to the nearest tenth, ties to even.
pub open spec fn size_text(bytes: nat) -> Seq<char> {
    let size = to_double(bytes);
    let unit = unit_for(size, 4);
    if unit == 0 {
        number::decimal(bytes) + " B"@
    } else {
        let tenths = round_even(10 * size, unit_size(unit));
        number::decimal(tenths / 10) + "."@ + number::decimal(tenths % 10) + " "@ + unit_name(unit)
    }
}

proof fn lemma_double_step(n: nat)
    ensures
        double_step(n) >= 1,
        double_step(n) <= n || n < 0x20_0000_0000_0000,
    decreases n,
{
    if n >= 0x20_0000_0000_0000 {
        lemma_double_step(n / 2);
    }
}

fn step_of(n: u64) -> (r: u64)
    ensures
        r == double_step(n as nat),
        1 <= r <= 2048,
        n < 0x20_0000_0000_0000 ==> r == 1,
{
    proof {
        reveal_with_fuel(double_step, 13);
    }
    let mut at: u64 = n;
    let mut step: u64 = 1;
    let mut k: u64 = 0;
    while at >= 0x20_0000_0000_0000
        invariant
            double_step(n as nat) == step * double_step(at as nat),
            k <= 11,
            k == 0 ==> step == 1 && at <= 0xffff_ffff_ffff_ffff,
            k == 1 ==> step == 2 && at <= 0x7fff_ffff_ffff_ffff,
            k == 2 ==> step == 4 && at <= 0x3fff_ffff_ffff_ffff,
            k == 3 ==> step == 8 && at <= 0x1fff_ffff_ffff_ffff,
            k == 4 ==> step == 16 && at <= 0xfff_ffff_ffff_ffff,
            k == 5 ==> step == 32 && at <= 0x7ff_ffff_ffff_ffff,
            k == 6 ==> step == 64 && at <= 0x3ff_ffff_ffff_ffff,
            k == 7 ==> step == 128 && at <= 0x1ff_ffff_ffff_ffff,
            k == 8 ==> step == 256 && at <= 0xff_ffff_ffff_ffff,
            k == 9 ==> step == 512 && at <= 0x7f_ffff_ffff_ffff,
            k == 10 ==> step == 1024 && at <= 0x3f_ffff_ffff_ffff,
            k == 11 ==> step == 2048 && at <= 0x1f_ffff_ffff_ffff,
            n < 0x20_0000_0000_0000 ==> k == 0 && at == n,
        decreases at,
    {
        let ghost was = step;
        let ghost from = at;
        assert(double_step(from as nat) == 2 * double_step((from / 2) as nat));
        assert(was * (2 * double_step((from / 2) as nat)) == (2 * was) * double_step(
            (from / 2) as nat,
        )) by (nonlinear_arith);
        step = step * 2;
        at = at / 2;
        k = k + 1;
    }
    assert(double_step(at as nat) == 1);
    step
}

/// `n` divided by `unit`, rounded to the nearest whole number, ties to even.
fn round_div(n: u128, unit: u128) -> (r: u128)
    requires
        1 <= unit <= 0x1_0000_0000_0000,
        n <= 0xff_ffff_ffff_ffff_ffff,
    ensures
        r == round_even(n as nat, unit as nat),
        r <= n + 1,
{
    let q: u128 = n / unit;
    let rest: u128 = n % unit;
    assert(q <= n) by (nonlinear_arith)
        requires
            q == n / unit,
            unit >= 1,
    ;
    assert(rest < unit);
    if 2 * rest > unit || (2 * rest == unit && q % 2 == 1) {
        q + 1
    } else {
        q
    }
}

/// A byte count as a short text, such as `12.3 GB`.
pub fn human_size(bytes: u64) -> (r: String)
    ensures
        r@ == size_text(bytes as nat),
{
    let step: u64 = step_of(bytes);
    let rounded: u128 = round_div(bytes as u128, step as u128);
    assert(step == 1 ==> rounded == bytes);
    assert(rounded * step <= 0x2_0000_0000_0000_0000) by {
        lemma_rounded(bytes as nat, step as nat);
    }
    let size: u128 = rounded * (step as u128);
    assert(size == to_double(bytes as nat));
    let mut unit: usize = 4;
    let mut scale: u128 = 1_099_511_627_776;
    proof {
        reveal_with_fuel(unit_size, 5);
    }
    while unit > 0 && size < scale
        invariant
            unit <= 4,
            scale == unit_size(unit as nat),
            scale <= 1_099_511_627_776,
            unit_for(size as nat, 4) == unit_for(size as nat, unit as nat),
        decreases unit,
    {
        assert(scale == 1024 * unit_size((unit - 1) as nat));
        scale = scale / 1024;
        unit = unit - 1;
    }
    if unit == 0 {
        return text::cat(number::nat_text(bytes).as_str(), " B");
    }
    assert(scale >= 1024) by {
        reveal_with_fuel(unit_size, 5);
    }
    let tenths: u128 = round_div(10 * size, scale);
    assert(tenths <= 0xffff_ffff_ffff_ffff) by {
        lemma_tenths((10 * size) as nat, scale as nat);
    }
    let mut out = number::nat_text((tenths / 10) as u64);
    out.append(".");
    out.append(number::nat_text((tenths % 10) as u64).as_str());
    out.append(" ");
    if unit == 1 {
        out.append("KB");
    } else if unit == 2 {
        out.append("MB");
    } else if unit == 3 {
        out.append("GB");
    } else {
        out.append("TB");
    }
    out
}

proof fn lemma_rounded(n: nat, step: nat)
    requires
        n <= 0xffff_ffff_ffff_ffff,
        1 <= step <= 2048,
    ensures
        round_even(n, step) * step <= n + step,
        step == 1 ==> round_even(n, step) == n,
{
    assert((n / step) * step <= n) by (nonlinear_arith)
        requires
            step >= 1,
    ;
    assert((n / step + 1) * step == (n / step) * step + step) by (nonlinear_arith);
}

proof fn lemma_tenths(n: nat, scale: nat)
    requires
        n <= 20 * 0x1_0000_0000_0000_0000,
        1024 <= scale,
    ensures
        round_even(n, scale) <= 0xffff_ffff_ffff_ffff,
{
    assert(n / scale <= n / 1024) by (nonlinear_arith)
        requires
            scale >= 1024,
    ;
}

/// The calendar starts at the epoch and goes on day by day: to the next day of the
/// month, from its last day to the first of the next month, and from the last day of
/// the year to the first of the next year.
pub proof fn law_days_follow_each_other(y: int, m: int, d: int)
    requires
        is_date(y, m, d),
        0 <= y,
    ensures
        day_number(1970, 1, 1) == 0,
        d < month_days(y, m) ==> day_number(y, m, d + 1) == day_number(y, m, d) + 1,
        d == month_days(y, m) && m < 12 ==> day_number(y, m + 1, 1) == day_number(y, m, d) + 1,
        d == month_days(y, m) && m == 12 ==> day_number(y + 1, 1, 1) == day_number(y, m, d) + 1,
{
    lemma_leap_days(y);
    reveal_with_fuel(days_before_month, 13);
}

/// Four hundred years have 146,097 days, and a year has 365 or, every fourth year but
/// three times in four hundred, 366.
pub proof fn law_years_have_their_days(y: int)
    requires
        0 <= y,
    ensures
        days_before_year(y + 400) == days_before_year(y) + 146_097,
        days_before_year(y + 1) - days_before_year(y) == if (y % 4 == 0 && y % 100 != 0) || y % 400
            == 0 {
            366int
        } else {
            365int
        },
{
    lemma_leap_days(y);
}

proof fn lemma_small_double(n: nat)
    requires
        n < 0x20_0000_0000_0000,
    ensures
        to_double(n) == n,
{
    assert(double_step(n) == 1);
    assert(n / 1 == n && n % 1 == 0);
    assert(round_even(n, 1) == n);
}

proof fn lemma_exact_size(n: nat, unit: nat)
    requires
        1 <= n < 1024,
        1 <= unit <= 3,
    ensures
        size_text(n * unit_size(unit)) == number::decimal(n) + ".0 "@ + unit_name(unit),
{
    reveal_with_fuel(unit_size, 5);
    reveal_with_fuel(unit_for, 5);
    reveal_strlit(".");
    reveal_strlit(" ");
    reveal_strlit(".0 ");
    let bytes = n * unit_size(unit);
    assert(unit_size(1) == 1024 && unit_size(2) == 1_048_576 && unit_size(3) == 1_073_741_824);
    assert(unit_size(4) == 1_099_511_627_776);
    assert(unit_size(unit) <= bytes < 1024 * unit_size(unit)) by (nonlinear_arith)
        requires
            bytes == n * unit_size(unit),
            1 <= n < 1024,
            unit_size(unit) >= 1,
    ;
    lemma_small_double(bytes);
    assert(unit_for(bytes, 4) == unit);
    let tenths = 10 * n;
    assert(round_even(10 * bytes, unit_size(unit)) == tenths) by {
        assert(10 * bytes == tenths * unit_size(unit)) by (nonlinear_arith)
            requires
                bytes == n * unit_size(unit),
                tenths == 10 * n,
        ;
        vstd::arithmetic::div_mod::lemma_fundamental_div_mod_converse(
            (10 * bytes) as int,
            unit_size(unit) as int,
            tenths as int,
            0,
        );
    }
    assert(tenths / 10 == n && tenths % 10 == 0);
    assert(number::decimal(0) =~= seq!['0']);
    assert(".0 "@ =~= "."@ + number::decimal(0) + " "@);
    assert(size_text(bytes) =~= number::decimal(n) + ".0 "@ + unit_name(unit));
}

/// So many whole units are shown as that number, with the unit behind it: bytes below
/// 1024, then kilo-, mega- and gigabytes of 1024 each.
pub proof fn law_whole_units_are_shown_as_they_are(n: nat)
    requires
        1 <= n < 1024,
    ensures
        size_text(n) == number::decimal(n) + " B"@,
        size_text(n * 1024) == number::decimal(n) + ".0 "@ + "KB"@,
        size_text(n * 1_048_576) == number::decimal(n) + ".0 "@ + "MB"@,
        size_text(n * 1_073_741_824) == number::decimal(n) + ".0 "@ + "GB"@,
{
    reveal_with_fuel(unit_size, 5);
    reveal_with_fuel(unit_for, 5);
    assert(unit_size(1) == 1024 && unit_size(2) == 1_048_576 && unit_size(3) == 1_073_741_824);
    assert(unit_size(4) == 1_099_511_627_776);
    lemma_small_double(n);
    lemma_exact_size(n, 1);
    lemma_exact_size(n, 2);
    lemma_exact_size(n, 3);
}

} // verus!
