//! Calendar dates.

use crate::number::{dec, dec_string, digit, pad_left, pad_left_str};
use crate::order::{before, lemma_before_at};
use vstd::prelude::*;

verus! {

/// The year has a 29th of February.
pub open spec fn leap(y: int) -> bool {
    y % 4 == 0 && (y % 100 != 0 || y % 400 == 0)
}

/// The days of a month.
pub open spec fn month_days(y: int, m: int) -> int {
    if m == 2 {
        if leap(y) {
            29
        } else {
            28
        }
    } else if m == 4 || m == 6 || m == 9 || m == 11 {
        30
    } else {
        31
    }
}

/// The date exists.
pub open spec fn valid_date(y: int, m: int, d: int) -> bool {
    1 <= m <= 12 && 1 <= d <= month_days(y, m)
}

/// The days from the first of January of the year 1 to that of the year `y`.
pub open spec fn days_before_year(y: int) -> int {
    365 * (y - 1) + (y - 1) / 4 - (y - 1) / 100 + (y - 1) / 400
}

/// The days of the year before the month begins.
pub open spec fn days_before_month(y: int, m: int) -> int {
    let feb = if leap(y) {
        1int
    } else {
        0int
    };
    if m <= 1 {
        0
    } else if m == 2 {
        31
    } else if m == 3 {
        59 + feb
    } else if m == 4 {
        90 + feb
    } else if m == 5 {
        120 + feb
    } else if m == 6 {
        151 + feb
    } else if m == 7 {
        181 + feb
    } else if m == 8 {
        212 + feb
    } else if m == 9 {
        243 + feb
    } else if m == 10 {
        273 + feb
    } else if m == 11 {
        304 + feb
    } else {
        334 + feb
    }
}

/// The number of days from the first of January 1970 to the date.
pub open spec fn day_number(y: int, m: int, d: int) -> int {
    days_before_year(y) + days_before_month(y, m) + d - 1 - days_before_year(1970)
}

/// The days of the first `y` years of a 400-year cycle that begins on the first of March.
spec fn march_days(y: int) -> int {
    365 * y + y / 4 - y / 100
}

/// The formula for the year of a day of such a cycle.
spec fn cycle_year(doe: int) -> int {
    (doe - doe / 1460 + doe / 36_524 - doe / 146_096) / 365
}

/// A day of the cycle lies in one of its years.
proof fn lemma_cycle_split(doe: int) -> (r: (int, int))
    requires
        0 <= doe <= 146_096,
    ensures
        0 <= r.0 <= 399,
        0 <= r.1 <= 365,
        doe == march_days(r.0) + r.1,
        r.1 == 365 ==> leap(r.0 + 1),
{
    let c = if doe / 36_524 > 3 {
        3
    } else {
        doe / 36_524
    };
    let r = doe - 36_524 * c;
    let a = if r / 1461 > 24 {
        24
    } else {
        r / 1461
    };
    let r2 = r - 1461 * a;
    let b = if r2 / 365 > 3 {
        3
    } else {
        r2 / 365
    };
    let t = r2 - 365 * b;
    let y = 100 * c + 4 * a + b;
    assert(y / 4 == 25 * c + a);
    assert(y / 100 == c);
    assert(0 <= r <= 36_524);
    assert(c < 3 ==> r <= 36_523);
    assert(0 <= r2 <= 1460);
    if t == 365 {
        assert(b == 3 && r2 == 1460);
        assert((y + 1) % 4 == 0);
        if a == 24 {
            assert(c == 3);
            assert(y + 1 == 400);
        } else {
            assert((y + 1) % 100 == 4 * a + 4);
        }
    }
    (y, t)
}

/// The formula finds the year that the day lies in.
proof fn lemma_cycle_year(y: int, t: int)
    requires
        0 <= y <= 399,
        0 <= t <= 365,
        t == 365 ==> leap(y + 1),
        march_days(y) + t <= 146_096,
    ensures
        cycle_year(march_days(y) + t) == y,
{
    let doe = march_days(y) + t;
    let a = y / 4;
    let b = y % 4;
    let c = y / 100;
    assert(25 * c <= a <= 25 * c + 24);
    let u = 365 * b + t + (a - c);
    assert(doe == 1460 * a + u);
    assert(doe / 1460 == a + if u >= 1460 {
        1int
    } else {
        0int
    });
    let within = 365 * (y - 100 * c) + (a - 25 * c) + t;
    assert(doe == 36_524 * c + within);
    assert(0 <= within);
    if within >= 36_524 {
        assert(y - 100 * c == 99);
        assert(t == 365);
        assert((y + 1) % 100 == 0);
        assert((y + 1) % 400 == 0);
        assert(c == 3);
    }
    assert(doe / 36_524 - doe / 146_096 == c);
}

/// The months of a year that begins in March.
proof fn lemma_march_month(doy: int)
    requires
        0 <= doy <= 365,
    ensures
        ({
            let mp = (5 * doy + 2) / 153;
            let d = doy - (153 * mp + 2) / 5 + 1;
            let start = (153 * mp + 2) / 5;
            &&& 0 <= mp <= 11
            &&& 1 <= d <= 31
            &&& (mp == 1 || mp == 3 || mp == 6 || mp == 8 ==> d <= 30)
            &&& (mp == 11 ==> d <= 29 && (d == 29 ==> doy == 365))
            &&& (mp == 0 ==> start == 0)
            &&& (mp == 1 ==> start == 31)
            &&& (mp == 2 ==> start == 61)
            &&& (mp == 3 ==> start == 92)
            &&& (mp == 4 ==> start == 122)
            &&& (mp == 5 ==> start == 153)
            &&& (mp == 6 ==> start == 184)
            &&& (mp == 7 ==> start == 214)
            &&& (mp == 8 ==> start == 245)
            &&& (mp == 9 ==> start == 275)
            &&& (mp == 10 ==> start == 306)
            &&& (mp == 11 ==> start == 337)
        }),
{
}

/// The days up to the first of March of a year.
#[verifier::spinoff_prover]
proof fn lemma_march_start(y: int)
    ensures
        days_before_year(y) + days_before_month(y, 3) == 365 * y + y / 4 - y / 100 + y / 400 - 306,
        days_before_year(y + 1) == 365 * y + y / 4 - y / 100 + y / 400,
{
    let by4 = if y % 4 == 0 {
        1int
    } else {
        0int
    };
    let by100 = if y % 100 == 0 {
        1int
    } else {
        0int
    };
    let by400 = if y % 400 == 0 {
        1int
    } else {
        0int
    };
    assert((y - 1) / 4 == y / 4 - by4);
    assert((y - 1) / 100 == y / 100 - by100);
    assert((y - 1) / 400 == y / 400 - by400);
    assert(y % 100 == 0 ==> y % 4 == 0);
    assert(y % 400 == 0 ==> y % 100 == 0);
    assert(days_before_month(y, 3) == 59 + by4 - by100 + by400);
}

/// The years of a cycle continue those of the cycles before it.
proof fn lemma_cycle_shift(yoe: int, era: int)
    requires
        0 <= yoe <= 399,
    ensures
        ({
            let y = yoe + 400 * era;
            365 * y + y / 4 - y / 100 + y / 400 == march_days(yoe) + 146_097 * era
        }),
        leap(yoe + 1 + 400 * era) == leap(yoe + 1),
{
    let y = yoe + 400 * era;
    assert(y / 4 == yoe / 4 + 100 * era);
    assert(y / 100 == yoe / 100 + 4 * era);
    assert(y / 400 == era);
    assert((y + 1) % 4 == (yoe + 1) % 4);
    assert((y + 1) % 100 == (yoe + 1) % 100);
    assert((y + 1) % 400 == (yoe + 1) % 400);
}

/// The date of a day, counted from the first of January 1970.
pub fn civil_from_days(z: i64) -> (r: (i64, u32, u32))
    requires
        z + 719_468 <= i64::MAX,
    ensures
        valid_date(r.0 as int, r.1 as int, r.2 as int),
        day_number(r.0 as int, r.1 as int, r.2 as int) == z,
{
    let ghost z0 = z as int;
    let z: i64 = z + 719_468;
    let shifted: i64 = if z >= 0 {
        z
    } else {
        z - 146_096
    };
    let era: i64 = shifted / 146_097;
    assert(0 <= z - era * 146_097 <= 146_096);
    let doe: i64 = z - era * 146_097;
    let ghost (gy, gt) = lemma_cycle_split(doe as int);
    proof {
        lemma_cycle_year(gy, gt);
    }
    let yoe: i64 = (doe - doe / 1460 + doe / 36_524 - doe / 146_096) / 365;
    assert(yoe == gy);
    let y: i64 = yoe + era * 400;
    let doy: i64 = doe - (365 * yoe + yoe / 4 - yoe / 100);
    assert(doy == gt);
    proof {
        lemma_march_month(doy as int);
        lemma_cycle_shift(yoe as int, era as int);
        lemma_march_start(y as int);
    }
    let mp: i64 = (5 * doy + 2) / 153;
    let d: u32 = (doy - (153 * mp + 2) / 5 + 1) as u32;
    let m: u32 = (if mp < 10 {
        mp + 3
    } else {
        mp - 9
    }) as u32;
    let year: i64 = y + if m <= 2 {
        1i64
    } else {
        0i64
    };
    proof {
        assert(days_before_year(1970) == 719_162);
        assert(doe == z0 + 719_468 - era * 146_097);
        if m >= 3 {
            assert(days_before_month(y as int, m as int) == days_before_month(y as int, 3)
                + doy - d + 1);
        } else {
            assert(days_before_month(y + 1, m as int) + 306 == doy - d + 1);
        }
    }
    (year, m, d)
}

/// Every day has one date.
pub proof fn law_date_unique(y1: int, m1: int, d1: int, y2: int, m2: int, d2: int)
    requires
        valid_date(y1, m1, d1),
        valid_date(y2, m2, d2),
        day_number(y1, m1, d1) == day_number(y2, m2, d2),
    ensures
        y1 == y2,
        m1 == m2,
        d1 == d2,
{
    if y1 < y2 {
        lemma_year_order(y1, m1, d1, y2, m2, d2);
    } else if y2 < y1 {
        lemma_year_order(y2, m2, d2, y1, m1, d1);
    }
}

/// A date of an earlier year has a smaller day number.
proof fn lemma_year_order(y1: int, m1: int, d1: int, y2: int, m2: int, d2: int)
    requires
        valid_date(y1, m1, d1),
        valid_date(y2, m2, d2),
        y1 < y2,
    ensures
        day_number(y1, m1, d1) < day_number(y2, m2, d2),
{
    lemma_year_days(y1, m1, d1);
    lemma_march_start(y1);
    lemma_years_grow(y1 + 1, y2);
    assert(days_before_month(y2, m2) >= 0);
}

/// No date lies beyond the days of its year.
proof fn lemma_year_days(y: int, m: int, d: int)
    requires
        valid_date(y, m, d),
    ensures
        days_before_month(y, m) + d <= 306 + days_before_month(y, 3),
{
}

/// Later years begin later.
proof fn lemma_years_grow(a: int, b: int)
    requires
        a <= b,
    ensures
        days_before_year(a) <= days_before_year(b),
    decreases b - a,
{
    if a < b {
        lemma_years_grow(a, b - 1);
        lemma_march_start(b - 1);
    }
}

/// The date of a day, counted from the first of January 1970.
pub open spec fn civil_of(day: int) -> (int, int, int) {
    choose|y: int, m: int, d: int|
        #![trigger day_number(y, m, d)]
        valid_date(y, m, d) && day_number(y, m, d) == day
}

/// A date is the date of its day.
pub proof fn law_civil_inverts_day_number(y: int, m: int, d: int)
    requires
        valid_date(y, m, d),
    ensures
        civil_of(day_number(y, m, d)) == (y, m, d),
{
    let (y2, m2, d2) = civil_of(day_number(y, m, d));
    assert(valid_date(y2, m2, d2) && day_number(y2, m2, d2) == day_number(y, m, d));
    law_date_unique(y, m, d, y2, m2, d2);
}

/// A date as `YYYY-MM-DD`.
pub open spec fn date_text(y: nat, m: nat, d: nat) -> Seq<char> {
    pad_left(dec(y), 4, '0') + "-"@ + pad_left(dec(m), 2, '0') + "-"@ + pad_left(dec(d), 2, '0')
}

/// The date of a day, counted from the first of January 1970, as `YYYY-MM-DD`.
pub open spec fn date_of(day: int) -> Seq<char> {
    let (y, m, d) = civil_of(day);
    date_text(y as nat, m as nat, d as nat)
}

/// The date of a moment, given in milliseconds since 1970, as `YYYY-MM-DD`.
pub fn date_utc(ms: u64) -> (r: String)
    ensures
        r@ == date_of(ms as int / 86_400_000),
{
    let days: i64 = ((ms / 1000) / 86_400) as i64;
    let (y, m, d) = civil_from_days(days);
    assert(y >= 1970) by {
        if y < 1970 {
            assert(day_number(y as int, m as int, d as int) < 0);
        }
    }
    proof {
        law_civil_inverts_day_number(y as int, m as int, d as int);
        assert(days == ms as int / 86_400_000);
    }
    let mut out = pad_left_str(dec_string(y as u64).as_str(), 4, '0');
    out.append("-");
    out.append(pad_left_str(dec_string(m as u64).as_str(), 2, '0').as_str());
    out.append("-");
    out.append(pad_left_str(dec_string(d as u64).as_str(), 2, '0').as_str());
    out
}

/// A moment, given in milliseconds since 1970, as `YYYY-MM-DDThh:mm:ss.mmmZ`.
pub open spec fn iso_of(ms: u64) -> Seq<char> {
    let rem = (ms as int / 1000) % 86_400;
    date_of(ms as int / 86_400_000) + "T"@ + pad_left(dec((rem / 3600) as nat), 2, '0') + ":"@
        + pad_left(dec((rem % 3600 / 60) as nat), 2, '0') + ":"@ + pad_left(
        dec((rem % 60) as nat),
        2,
        '0',
    ) + "."@ + pad_left(dec((ms as int % 1000) as nat), 3, '0') + "Z"@
}

/// A moment, given in milliseconds since 1970, as `YYYY-MM-DDThh:mm:ss.mmmZ`.
pub fn iso_utc(ms: u64) -> (r: String)
    ensures
        r@ == iso_of(ms),
{
    let rem: u64 = (ms / 1000) % 86_400;
    let mut out = date_utc(ms);
    out.append("T");
    out.append(pad_left_str(dec_string(rem / 3600).as_str(), 2, '0').as_str());
    out.append(":");
    out.append(pad_left_str(dec_string(rem % 3600 / 60).as_str(), 2, '0').as_str());
    out.append(":");
    out.append(pad_left_str(dec_string(rem % 60).as_str(), 2, '0').as_str());
    out.append(".");
    out.append(pad_left_str(dec_string(ms % 1000).as_str(), 3, '0').as_str());
    out.append("Z");
    out
}

// ---------------------------------------------------------------------------------------------
// Laws
// ---------------------------------------------------------------------------------------------

/// The first moment of the year 10000, in milliseconds since 1970.
pub const YEAR_10000: u64 = 253_402_300_800_000;

/// The date of a day of a 400-year cycle that begins on the first of March.
spec fn march_date(era: int, yoe: int, doy: int) -> (int, int, int) {
    let mp = (5 * doy + 2) / 153;
    let m = if mp < 10 {
        mp + 3
    } else {
        mp - 9
    };
    let y = yoe + 400 * era + if m <= 2 {
        1int
    } else {
        0int
    };
    (y, m, doy - (153 * mp + 2) / 5 + 1)
}

/// A day of such a cycle has that date.
#[verifier::spinoff_prover]
proof fn lemma_march_date(era: int, yoe: int, doy: int)
    requires
        0 <= yoe <= 399,
        0 <= doy <= 365,
        doy == 365 ==> leap(yoe + 1),
    ensures
        ({
            let (y, m, d) = march_date(era, yoe, doy);
            &&& valid_date(y, m, d)
            &&& day_number(y, m, d) == march_days(yoe) + doy + 146_097 * era - 719_468
        }),
{
    let y = yoe + 400 * era;
    lemma_march_month(doy);
    lemma_cycle_shift(yoe, era);
    lemma_march_start(y);
    assert(days_before_year(1970) == 719_162);
    let (year, m, d) = march_date(era, yoe, doy);
    if m >= 3 {
        assert(year == y);
        assert(days_before_month(y, m) == days_before_month(y, 3) + doy - d + 1);
    } else {
        assert(year == y + 1);
        assert(days_before_month(y + 1, m) + 306 == doy - d + 1);
    }
}

/// Every day has a date.
proof fn lemma_civil(day: int)
    requires
        day >= 0,
    ensures
        ({
            let (y, m, d) = civil_of(day);
            valid_date(y, m, d) && day_number(y, m, d) == day
        }),
{
    let z = day + 719_468;
    let era = z / 146_097;
    let doe = z - era * 146_097;
    assert(0 <= doe <= 146_096);
    let (yoe, doy) = lemma_cycle_split(doe);
    lemma_march_date(era, yoe, doy);
    let (y, m, d) = march_date(era, yoe, doy);
    assert(valid_date(y, m, d) && day_number(y, m, d) == day);
}

/// The days before the year 10000 have years of four digits.
proof fn lemma_four_digit_year(day: int)
    requires
        0 <= day < 2_932_897,
    ensures
        1970 <= civil_of(day).0 <= 9999,
{
    lemma_civil(day);
    let (y, m, d) = civil_of(day);
    assert(day_number(1970, 1, 1) == 0);
    assert(day_number(10000, 1, 1) == 2_932_897);
    if y < 1970 {
        lemma_year_order(y, m, d, 1970, 1, 1);
    }
    if y > 10000 {
        lemma_year_order(10000, 1, 1, y, m, d);
    }
    if y == 10000 {
        assert(days_before_month(y, m) >= 0);
    }
}

/// A number in two digits.
pub open spec fn two_digits(n: nat) -> Seq<char> {
    seq![digit(n / 10), digit(n % 10)]
}

/// A number in four digits.
pub open spec fn four_digits(n: nat) -> Seq<char> {
    seq![digit(n / 1000), digit(n / 100 % 10), digit(n / 10 % 10), digit(n % 10)]
}

proof fn lemma_two_digits(n: nat)
    requires
        n < 100,
    ensures
        pad_left(dec(n), 2, '0') == two_digits(n),
{
    reveal_with_fuel(dec, 3);
    assert(pad_left(dec(n), 2, '0') =~= two_digits(n));
}

proof fn lemma_four_digits(n: nat)
    requires
        1000 <= n < 10000,
    ensures
        pad_left(dec(n), 4, '0') == four_digits(n),
{
    reveal_with_fuel(dec, 5);
    assert(n / 10 / 10 == n / 100);
    assert(n / 100 / 10 == n / 1000);
    assert(dec(n) =~= four_digits(n));
}

/// The text of a date has ten characters: four, two and two digits, with hyphens between.
proof fn lemma_date_text(y: nat, m: nat, d: nat) -> (t: Seq<char>)
    requires
        1000 <= y < 10000,
        m < 100,
        d < 100,
    ensures
        t == date_text(y, m, d),
        t.len() == 10,
        t[0] == digit(y / 1000),
        t[1] == digit(y / 100 % 10),
        t[2] == digit(y / 10 % 10),
        t[3] == digit(y % 10),
        t[4] == '-',
        t[5] == digit(m / 10),
        t[6] == digit(m % 10),
        t[7] == '-',
        t[8] == digit(d / 10),
        t[9] == digit(d % 10),
{
    reveal_strlit("-");
    lemma_four_digits(y);
    lemma_two_digits(m);
    lemma_two_digits(d);
    date_text(y, m, d)
}

/// Before the year 10000 the date is the first ten characters of the moment.
pub proof fn law_date_begins_moment(ms: u64)
    requires
        ms < YEAR_10000,
    ensures
        iso_of(ms).take(10) == date_of(ms as int / 86_400_000),
{
    let day = ms as int / 86_400_000;
    lemma_four_digit_year(day);
    lemma_civil(day);
    let (y, m, d) = civil_of(day);
    lemma_date_text(y as nat, m as nat, d as nat);
    assert(iso_of(ms).take(10) =~= date_of(day));
}

/// A date of an earlier month of the same year has a smaller day number.
proof fn lemma_month_order(y: int, m1: int, d1: int, m2: int, d2: int)
    requires
        valid_date(y, m1, d1),
        valid_date(y, m2, d2),
        m1 < m2,
    ensures
        day_number(y, m1, d1) < day_number(y, m2, d2),
{
    assert(days_before_month(y, m1) + month_days(y, m1) <= days_before_month(y, m2));
}

/// Of two years the first digit that differs decides.
proof fn lemma_year_digits(y1: nat, y2: nat)
    requires
        y1 < y2 < 10000,
    ensures
        ({
            ||| y1 / 1000 < y2 / 1000
            ||| y1 / 1000 == y2 / 1000 && y1 / 100 % 10 < y2 / 100 % 10
            ||| y1 / 1000 == y2 / 1000 && y1 / 100 % 10 == y2 / 100 % 10 && y1 / 10 % 10 < y2 / 10 % 10
            ||| y1 / 1000 == y2 / 1000 && y1 / 100 % 10 == y2 / 100 % 10 && y1 / 10 % 10 == y2 / 10 % 10
                && y1 % 10 < y2 % 10
        }),
{
}

/// Of two texts the first digit that differs decides.
proof fn lemma_digit_decides(a: Seq<char>, b: Seq<char>, i: int, p: nat, q: nat)
    requires
        0 <= i < a.len(),
        i < b.len(),
        forall|j: int| 0 <= j < i ==> a[j] == b[j],
        a[i] == digit(p),
        b[i] == digit(q),
        p < q < 10,
    ensures
        before(a, b),
{
    lemma_before_at(a, b, i);
}

/// A date of an earlier year comes before in the order of texts.
proof fn lemma_year_texts(y1: nat, m1: nat, d1: nat, y2: nat, m2: nat, d2: nat)
    requires
        1000 <= y1 < y2 < 10000,
        m1 < 100,
        m2 < 100,
        d1 < 100,
        d2 < 100,
    ensures
        before(date_text(y1, m1, d1), date_text(y2, m2, d2)),
{
    let a = lemma_date_text(y1, m1, d1);
    let b = lemma_date_text(y2, m2, d2);
    lemma_year_digits(y1, y2);
    if y1 / 1000 < y2 / 1000 {
        lemma_digit_decides(a, b, 0, y1 / 1000, y2 / 1000);
    } else if y1 / 100 % 10 < y2 / 100 % 10 {
        lemma_digit_decides(a, b, 1, y1 / 100 % 10, y2 / 100 % 10);
    } else if y1 / 10 % 10 < y2 / 10 % 10 {
        lemma_digit_decides(a, b, 2, y1 / 10 % 10, y2 / 10 % 10);
    } else {
        lemma_digit_decides(a, b, 3, y1 % 10, y2 % 10);
    }
}

/// A date of an earlier month comes before in the order of texts.
proof fn lemma_month_texts(y: nat, m1: nat, d1: nat, m2: nat, d2: nat)
    requires
        1000 <= y < 10000,
        m1 < m2 < 100,
        d1 < 100,
        d2 < 100,
    ensures
        before(date_text(y, m1, d1), date_text(y, m2, d2)),
{
    let a = lemma_date_text(y, m1, d1);
    let b = lemma_date_text(y, m2, d2);
    assert(a[0] == b[0] && a[1] == b[1] && a[2] == b[2] && a[3] == b[3] && a[4] == b[4]);
    if m1 / 10 < m2 / 10 {
        lemma_digit_decides(a, b, 5, m1 / 10, m2 / 10);
    } else {
        assert(m1 / 10 == m2 / 10);
        assert(a[5] == b[5]);
        lemma_digit_decides(a, b, 6, m1 % 10, m2 % 10);
    }
}

/// A date of an earlier day of the month comes before in the order of texts.
proof fn lemma_day_texts(y: nat, m: nat, d1: nat, d2: nat)
    requires
        1000 <= y < 10000,
        m < 100,
        d1 < d2 < 100,
    ensures
        before(date_text(y, m, d1), date_text(y, m, d2)),
{
    let a = lemma_date_text(y, m, d1);
    let b = lemma_date_text(y, m, d2);
    assert(a[0] == b[0] && a[1] == b[1] && a[2] == b[2] && a[3] == b[3] && a[4] == b[4]);
    assert(a[5] == b[5] && a[6] == b[6] && a[7] == b[7]);
    if d1 / 10 < d2 / 10 {
        lemma_digit_decides(a, b, 8, d1 / 10, d2 / 10);
    } else {
        assert(d1 / 10 == d2 / 10);
        assert(a[8] == b[8]);
        lemma_digit_decides(a, b, 9, d1 % 10, d2 % 10);
    }
}

/// Before the year 10000 dates sort as their moments do: the date of an earlier moment does not come later.
pub proof fn law_dates_sort_as_moments(earlier: u64, later: u64)
    requires
        earlier <= later,
        later < YEAR_10000,
    ensures
        ({
            let a = date_of(earlier as int / 86_400_000);
            let b = date_of(later as int / 86_400_000);
            a == b || before(a, b)
        }),
{
    let day1 = earlier as int / 86_400_000;
    let day2 = later as int / 86_400_000;
    lemma_four_digit_year(day1);
    lemma_four_digit_year(day2);
    lemma_civil(day1);
    lemma_civil(day2);
    let (y1, m1, d1) = civil_of(day1);
    let (y2, m2, d2) = civil_of(day2);
    if day1 < day2 {
        if y2 < y1 {
            lemma_year_order(y2, m2, d2, y1, m1, d1);
        }
        if y1 == y2 && m2 < m1 {
            lemma_month_order(y1, m2, d2, m1, d1);
        }
        if y1 < y2 {
            lemma_year_texts(y1 as nat, m1 as nat, d1 as nat, y2 as nat, m2 as nat, d2 as nat);
        } else if m1 < m2 {
            lemma_month_texts(y1 as nat, m1 as nat, d1 as nat, m2 as nat, d2 as nat);
        } else {
            lemma_day_texts(y1 as nat, m1 as nat, d1 as nat, d2 as nat);
        }
    }
}

/// Day follows day: the first of January 1970 is day zero, each day of a month comes one after the day before it,
/// the first of a month after the last of the month before, and the first of a year after the last of December.
/// February has a day more in the years that four divides, but for those that a hundred divides and four hundred
/// does not.
pub proof fn law_days_follow(y: int, m: int, d: int)
    ensures
        day_number(1970, 1, 1) == 0,
        day_number(y, m, d + 1) == day_number(y, m, d) + 1,
        m == 1 || m == 3 || m == 5 || m == 7 || m == 8 || m == 10 ==> day_number(y, m + 1, 1) == day_number(
            y,
            m,
            31,
        ) + 1,
        m == 4 || m == 6 || m == 9 || m == 11 ==> day_number(y, m + 1, 1) == day_number(y, m, 30) + 1,
        m == 2 && y % 4 == 0 && (y % 100 != 0 || y % 400 == 0) ==> day_number(y, 3, 1) == day_number(y, 2, 29)
            + 1,
        m == 2 && (y % 4 != 0 || (y % 100 == 0 && y % 400 != 0)) ==> day_number(y, 3, 1) == day_number(y, 2, 28)
            + 1,
        day_number(y + 1, 1, 1) == day_number(y, 12, 31) + 1,
{
}

/// The dates that there are: twelve months of thirty-one or thirty days, and February.
pub proof fn law_dates_there_are(y: int, m: int, d: int)
    ensures
        m == 1 || m == 3 || m == 5 || m == 7 || m == 8 || m == 10 || m == 12 ==> (valid_date(y, m, d) <==> 1
            <= d <= 31),
        m == 4 || m == 6 || m == 9 || m == 11 ==> (valid_date(y, m, d) <==> 1 <= d <= 30),
        m == 2 && y % 4 == 0 && (y % 100 != 0 || y % 400 == 0) ==> (valid_date(y, m, d) <==> 1 <= d <= 29),
        m == 2 && (y % 4 != 0 || (y % 100 == 0 && y % 400 != 0)) ==> (valid_date(y, m, d) <==> 1 <= d
            <= 28),
        m < 1 || m > 12 ==> !valid_date(y, m, d),
{
}

/// A moment is written as its date and its time of day, hours, minutes, seconds and thousandths, each with all its
/// digits.
pub proof fn law_moment_written(y: nat, m: nat, d: nat, h: nat, min: nat, s: nat, ms: nat, at: u64)
    requires
        valid_date(y as int, m as int, d as int),
        h < 24,
        min < 60,
        s < 60,
        ms < 1000,
        day_number(y as int, m as int, d as int) >= 0,
        at == day_number(y as int, m as int, d as int) * 86_400_000 + h * 3_600_000 + min * 60_000 + s * 1000
            + ms,
    ensures
        iso_of(at) == pad_left(dec(y), 4, '0') + "-"@ + pad_left(dec(m), 2, '0') + "-"@ + pad_left(
            dec(d),
            2,
            '0',
        ) + "T"@ + pad_left(dec(h), 2, '0') + ":"@ + pad_left(dec(min), 2, '0') + ":"@ + pad_left(
            dec(s),
            2,
            '0',
        ) + "."@ + pad_left(dec(ms), 3, '0') + "Z"@,
{
    law_civil_inverts_day_number(y as int, m as int, d as int);
    lemma_time_of_day(
        day_number(y as int, m as int, d as int),
        h as int,
        min as int,
        s as int,
        ms as int,
        at as int,
    );
}

proof fn lemma_time_of_day(day: int, h: int, min: int, s: int, ms: int, at: int)
    requires
        0 <= day,
        0 <= h < 24,
        0 <= min < 60,
        0 <= s < 60,
        0 <= ms < 1000,
        at == day * 86_400_000 + h * 3_600_000 + min * 60_000 + s * 1000 + ms,
    ensures
        at / 86_400_000 == day,
        (at / 1000) % 86_400 / 3600 == h,
        (at / 1000) % 86_400 % 3600 / 60 == min,
        (at / 1000) % 86_400 % 60 == s,
        at % 1000 == ms,
{
    let rem = h * 3600 + min * 60 + s;
    assert(at == (day * 86_400 + rem) * 1000 + ms);
    assert(at / 1000 == day * 86_400 + rem);
    assert((at / 1000) % 86_400 == rem);
}

} // verus!
