//! Civil calendar arithmetic on the proleptic Gregorian calendar: the day
//! count since the Unix epoch of a calendar date, and the calendar date of
//! a day count.
//!
//! The representable span of dates matches the instant range of
//! [`crate::moment`]: years `YEAR_MIN ..= YEAR_MAX`.
use vstd::prelude::*;
use vstd::arithmetic::div_mod::lemma_fundamental_div_mod;
use vstd::arithmetic::div_mod::lemma_fundamental_div_mod_converse;
use vstd::arithmetic::div_mod::lemma_mod_pos_bound;

verus! {

/// First calendar year an instant can fall in.
pub const YEAR_MIN: i64 = -262143;

/// Last calendar year an instant can fall in.
pub const YEAR_MAX: i64 = 262142;

/// A leap year of the proleptic Gregorian calendar.
pub open spec fn is_leap_year(y: int) -> bool {
    (y % 4 == 0 && y % 100 != 0) || y % 400 == 0
}

/// Days of month `m` of year `y`.
pub open spec fn days_in_month(y: int, m: int) -> int {
    if m == 4 || m == 6 || m == 9 || m == 11 {
        30
    } else if m == 2 {
        if is_leap_year(y) {
            29
        } else {
            28
        }
    } else {
        31
    }
}

/// A well-formed calendar date within the representable span of years.
pub open spec fn valid_ymd(y: int, m: int, d: int) -> bool {
    YEAR_MIN <= y <= YEAR_MAX && 1 <= m <= 12 && 1 <= d <= days_in_month(y, m)
}

/// The day count since 1970-01-01 of a calendar date: the shifted-era
/// closed form over mathematical integers, with flooring division.
pub open spec fn days_from_civil(y: int, m: int, d: int) -> int {
    let yy = if m <= 2 {
        y - 1
    } else {
        y
    };
    let era = yy / 400;
    let yoe = yy - era * 400;
    let mp = if m <= 2 {
        m + 9
    } else {
        m - 3
    };
    let doy = (153 * mp + 2) / 5 + d - 1;
    let doe = yoe * 365 + yoe / 4 - yoe / 100 + doy;
    era * 146097 + doe - 719468
}

/// Flooring division of `a` by a positive divisor `b`, the division the
/// specs of this crate use.
pub fn floor_div(a: i64, b: i64) -> (q: i64)
    requires
        1 <= b <= 1000000000,
        -0x0010_0000_0000_0000 <= a <= 0x0010_0000_0000_0000,
    ensures
        q == a as int / b as int,
{
    if a >= 0 {
        let q0: u64 = (a as u64) / (b as u64);
        q0 as i64
    } else {
        let na: u64 = (-a) as u64;
        let bu: u64 = b as u64;
        let q0: u64 = na / bu;
        let r0: u64 = na % bu;
        proof {
            lemma_fundamental_div_mod(na as int, bu as int);
            lemma_mod_pos_bound(na as int, bu as int);
            assert(na as int == q0 as int * b as int + r0 as int) by (nonlinear_arith)
                requires
                    na as int == bu as int * (na as int / bu as int) + na as int % bu as int,
                    q0 as int == na as int / bu as int,
                    r0 as int == na as int % bu as int,
                    bu == b,
            ;
        }
        if r0 == 0 {
            proof {
                assert(a as int == (-(q0 as int)) * b as int + 0) by (nonlinear_arith)
                    requires
                        na as int == q0 as int * b as int + r0 as int,
                        r0 == 0,
                        a as int == -(na as int),
                ;
                lemma_fundamental_div_mod_converse(a as int, b as int, -(q0 as int), 0);
            }
            -(q0 as i64)
        } else {
            proof {
                assert(a as int == (-(q0 as int) - 1) * b as int + (b as int - r0 as int))
                    by (nonlinear_arith)
                    requires
                        na as int == q0 as int * b as int + r0 as int,
                        a as int == -(na as int),
                ;
                lemma_fundamental_div_mod_converse(a as int, b as int, -(q0 as int) - 1, b - r0);
            }
            -(q0 as i64) - 1
        }
    }
}

/// The remainder matching [`floor_div`]: `a - b * floor(a / b)`, always in
/// `0 .. b`.
pub fn floor_mod(a: i64, b: i64) -> (r: i64)
    requires
        1 <= b <= 1000000000,
        -0x0010_0000_0000_0000 <= a <= 0x0010_0000_0000_0000,
    ensures
        r == a as int % b as int,
        0 <= r < b,
{
    let q = floor_div(a, b);
    proof {
        lemma_fundamental_div_mod(a as int, b as int);
        vstd::arithmetic::div_mod::lemma_mod_division_less_than_divisor(a as int, b as int);
        assert(q as int * b as int == b as int * (a as int / b as int)) by (nonlinear_arith)
            requires
                q as int == a as int / b as int,
        ;
    }
    a - q * b
}

/// Executable form of [`days_from_civil`].
pub fn days_from_civil_x(y: i64, m: i64, d: i64) -> (r: i64)
    requires
        YEAR_MIN - 1 <= y <= YEAR_MAX + 1,
        1 <= m <= 12,
        1 <= d <= 31,
    ensures
        r == days_from_civil(y as int, m as int, d as int),
{
    let yy: i64 = if m <= 2 {
        y - 1
    } else {
        y
    };
    let era: i64 = floor_div(yy, 400);
    let yoe: i64 = yy - era * 400;
    proof {
        lemma_fundamental_div_mod(yy as int, 400);
        vstd::arithmetic::div_mod::lemma_mod_division_less_than_divisor(yy as int, 400);
        assert(yoe == yy as int % 400);
    }
    let mp: i64 = if m <= 2 {
        m + 9
    } else {
        m - 3
    };
    let doy: i64 = ((153 * mp + 2) as u64 / 5) as i64 + d - 1;
    let doe: i64 = yoe * 365 + ((yoe as u64) / 4) as i64 - ((yoe as u64) / 100) as i64 + doy;
    era * 146097 + doe - 719468
}

/// The year a day count falls in, found by walking forward from
/// [`YEAR_MIN`]: the last year whose first day is at or before `z`.
pub open spec fn year_search(z: int, y: int) -> int
    decreases YEAR_MAX - y,
{
    if y >= YEAR_MAX || YEAR_MAX - y < 0 {
        YEAR_MAX as int
    } else if days_from_civil(y + 1, 1, 1) <= z {
        year_search(z, y + 1)
    } else {
        y
    }
}

/// The month of year `y` a day count falls in: the last month whose first
/// day is at or before `z`.
pub open spec fn month_search(z: int, y: int, m: int) -> int
    decreases 12 - m,
{
    if m >= 12 || 12 - m < 0 {
        12
    } else if days_from_civil(y, m + 1, 1) <= z {
        month_search(z, y, m + 1)
    } else {
        m
    }
}

/// The calendar date of a day count since 1970-01-01.
pub open spec fn civil_of_days(z: int) -> (int, int, int) {
    let y = year_search(z, YEAR_MIN as int);
    let m = month_search(z, y, 1);
    let d = z - days_from_civil(y, m, 1) + 1;
    (y, m, d)
}

/// First representable day count: the first day of year [`YEAR_MIN`].
pub const EPOCH_DAY_MIN: i64 = -96465292;

/// Last representable day count: the last day of year [`YEAR_MAX`].
pub const EPOCH_DAY_MAX: i64 = 95026236;

/// The named day bounds are the day counts of the first and last
/// representable dates.
pub proof fn lemma_epoch_day_bounds()
    ensures
        EPOCH_DAY_MIN == days_from_civil(YEAR_MIN as int, 1, 1),
        EPOCH_DAY_MAX == days_from_civil(YEAR_MAX as int, 12, 31),
        EPOCH_DAY_MAX + 1 == days_from_civil(YEAR_MAX + 1, 1, 1),
{
}

/// Within one month the day count is linear in the day.
pub proof fn lemma_dfc_linear_in_d(y: int, m: int, d: int)
    ensures
        days_from_civil(y, m, d) == days_from_civil(y, m, 1) + d - 1,
{
}

/// The first day of the next year follows the last day of December.
pub proof fn lemma_dfc_next_year(y: int)
    ensures
        days_from_civil(y + 1, 1, 1) == days_from_civil(y, 12, 31) + 1,
{
}

/// Stepping an integer by one steps its flooring quotient exactly when
/// the new value is a multiple of the divisor.
proof fn lemma_div_inc(x: int, d: int)
    requires
        0 < d,
    ensures
        (x + 1) / d == x / d + if (x + 1) % d == 0 {
            1int
        } else {
            0int
        },
{
    let q = x / d;
    let r = x % d;
    lemma_fundamental_div_mod(x, d);
    vstd::arithmetic::div_mod::lemma_mod_division_less_than_divisor(x, d);
    if r + 1 < d {
        lemma_fundamental_div_mod_converse(x + 1, d, q, r + 1);
    } else {
        assert(x + 1 == (q + 1) * d + 0) by (nonlinear_arith)
            requires
                x == d * q + r,
                r == d - 1,
        ;
        lemma_fundamental_div_mod_converse(x + 1, d, q + 1, 0);
    }
}

/// The first day of a month plus that month's length is the first day of
/// the next month.
pub proof fn lemma_dfc_next_month(y: int, m: int)
    requires
        1 <= m <= 11,
    ensures
        days_from_civil(y, m + 1, 1) == days_from_civil(y, m, 1) + days_in_month(y, m),
{
    if m == 2 {
        let x = y - 1;
        let era = x / 400;
        let yoe = x - era * 400;
        let w = yoe + 1;
        lemma_fundamental_div_mod(x, 400);
        vstd::arithmetic::div_mod::lemma_mod_division_less_than_divisor(x, 400);
        assert(0 <= yoe < 400);
        assert(y % 4 == w % 4) by {
            assert(y == 4 * (100 * era) + w);
            vstd::arithmetic::div_mod::lemma_mod_multiples_vanish(100 * era, w, 4);
        }
        assert(y % 100 == w % 100) by {
            assert(y == 100 * (4 * era) + w);
            vstd::arithmetic::div_mod::lemma_mod_multiples_vanish(4 * era, w, 100);
        }
        assert(y % 400 == w % 400) by {
            assert(y == 400 * era + w);
            vstd::arithmetic::div_mod::lemma_mod_multiples_vanish(era, w, 400);
        }
        if yoe == 399 {
            // the leap day that closes a 400-year era
            lemma_fundamental_div_mod_converse(y, 400, era + 1, 0);
            assert(y / 400 == era + 1);
            assert(is_leap_year(y)) by {
                vstd::arithmetic::div_mod::lemma_mod_multiples_basic(era + 1, 400);
            }
        } else {
            lemma_fundamental_div_mod_converse(y, 400, era, w);
            assert(y / 400 == era);
            lemma_div_inc(yoe, 4);
            lemma_div_inc(yoe, 100);
            vstd::arithmetic::div_mod::lemma_small_mod(w as nat, 400);
            assert(w % 400 == w);
            if w % 100 == 0 {
                // a centurial year inside the era: 100, 200 or 300
                lemma_fundamental_div_mod(w, 100);
                vstd::arithmetic::div_mod::lemma_mod_division_less_than_divisor(w, 100);
                let k = w / 100;
                assert(w == 100 * k);
                assert(1 <= k <= 3);
                assert(w % 4 == 0) by {
                    assert(w == 4 * (25 * k) + 0);
                    vstd::arithmetic::div_mod::lemma_mod_multiples_vanish(25 * k, 0, 4);
                }
                assert(!is_leap_year(y));
            }
        }
    }
}

/// Month starts within one year never decrease.
proof fn lemma_month_start_mono(y: int, a: int, b: int)
    requires
        1 <= a <= b <= 12,
    ensures
        days_from_civil(y, a, 1) <= days_from_civil(y, b, 1),
    decreases b - a,
{
    if a < b {
        lemma_dfc_next_month(y, a);
        lemma_month_start_mono(y, a + 1, b);
    }
}

/// Every month of a year ends before the next year begins.
proof fn lemma_month_window(y: int, m: int)
    requires
        1 <= m <= 12,
    ensures
        days_from_civil(y, m, 1) + days_in_month(y, m) <= days_from_civil(y + 1, 1, 1),
    decreases 12 - m,
{
    if m == 12 {
        lemma_dfc_next_year(y);
        lemma_dfc_linear_in_d(y, 12, 31);
    } else {
        lemma_dfc_next_month(y, m);
        lemma_month_window(y, m + 1);
    }
}

/// Year starts never decrease.
proof fn lemma_year_start_mono(a: int, b: int)
    requires
        a <= b,
    ensures
        days_from_civil(a, 1, 1) <= days_from_civil(b, 1, 1),
    decreases b - a,
{
    if a < b {
        lemma_month_start_mono(a, 1, 12);
        lemma_month_window(a, 12);
        lemma_year_start_mono(a + 1, b);
    }
}

/// The year search, started anywhere at or below the right year, finds
/// the year whose window holds the day count.
proof fn lemma_year_search_hits(z: int, cur: int, y: int)
    requires
        YEAR_MIN <= cur <= y <= YEAR_MAX,
        days_from_civil(y, 1, 1) <= z,
        z < days_from_civil(y + 1, 1, 1),
    ensures
        year_search(z, cur) == y,
    decreases y - cur,
{
    if cur >= YEAR_MAX {
        assert(cur == y);
    } else if days_from_civil(cur + 1, 1, 1) <= z {
        if cur == y {
            assert(false);
        }
        lemma_year_search_hits(z, cur + 1, y);
    } else {
        if cur < y {
            lemma_year_start_mono(cur + 1, y);
            assert(false);
        }
    }
}

/// The month search, started anywhere at or below the right month, finds
/// the month whose window holds the day count.
proof fn lemma_month_search_hits(z: int, y: int, cur: int, m: int)
    requires
        1 <= cur <= m <= 12,
        days_from_civil(y, m, 1) <= z,
        m < 12 ==> z < days_from_civil(y, m + 1, 1),
        m == 12 ==> z < days_from_civil(y + 1, 1, 1),
    ensures
        month_search(z, y, cur) == m,
    decreases m - cur,
{
    if cur >= 12 {
        assert(cur == m);
    } else if days_from_civil(y, cur + 1, 1) <= z {
        if cur == m {
            assert(false);
        }
        lemma_month_search_hits(z, y, cur + 1, m);
    } else {
        if cur < m {
            lemma_month_start_mono(y, cur + 1, m);
            assert(false);
        }
    }
}

/// The two calendar functions are inverse: the date of the day count of
/// a well-formed date is that date again.
pub proof fn lemma_civil_of_days_inverse(y: int, m: int, d: int)
    requires
        valid_ymd(y, m, d),
    ensures
        civil_of_days(days_from_civil(y, m, d)) == (y, m, d),
{
    let z = days_from_civil(y, m, d);
    lemma_dfc_linear_in_d(y, m, d);
    assert(days_from_civil(y, m, 1) <= z);
    if m < 12 {
        lemma_dfc_next_month(y, m);
        assert(z < days_from_civil(y, m + 1, 1));
        lemma_month_window(y, m + 1);
        lemma_month_start_mono(y, m + 1, 12)
    } else {
        lemma_dfc_next_year(y);
        lemma_dfc_linear_in_d(y, 12, 31);
        assert(z < days_from_civil(y + 1, 1, 1));
    }
    lemma_month_window(y, m);
    lemma_month_start_mono(y, 1, m);
    assert(days_from_civil(y, 1, 1) <= z < days_from_civil(y + 1, 1, 1));
    lemma_year_search_hits(z, YEAR_MIN as int, y);
    lemma_month_search_hits(z, y, 1, m);
}

/// Executable form of [`civil_of_days`]: also establishes that the date
/// found is well formed and maps back to the given day count.
pub fn civil_of_days_x(z: i64) -> (r: (i64, i64, i64))
    requires
        EPOCH_DAY_MIN <= z <= EPOCH_DAY_MAX,
    ensures
        (r.0 as int, r.1 as int, r.2 as int) == civil_of_days(z as int),
        valid_ymd(r.0 as int, r.1 as int, r.2 as int),
        days_from_civil(r.0 as int, r.1 as int, r.2 as int) == z,
{
    let mut y: i64 = YEAR_MIN;
    proof {
        lemma_epoch_day_bounds();
    }
    while y < YEAR_MAX && days_from_civil_x(y + 1, 1, 1) <= z
        invariant
            YEAR_MIN <= y <= YEAR_MAX,
            EPOCH_DAY_MIN <= z <= EPOCH_DAY_MAX,
            days_from_civil(y as int, 1, 1) <= z,
            year_search(z as int, y as int) == year_search(z as int, YEAR_MIN as int),
        decreases YEAR_MAX - y,
    {
        y = y + 1;
    }
    proof {
        assert(y as int == year_search(z as int, YEAR_MIN as int));
        lemma_epoch_day_bounds();
        if y == YEAR_MAX {
            lemma_dfc_next_year(y as int);
            assert(z < days_from_civil(y + 1, 1, 1));
        }
    }
    let mut m: i64 = 1;
    while m < 12 && days_from_civil_x(y, m + 1, 1) <= z
        invariant
            YEAR_MIN <= y <= YEAR_MAX,
            EPOCH_DAY_MIN <= z <= EPOCH_DAY_MAX,
            1 <= m <= 12,
            z < days_from_civil(y + 1, 1, 1),
            days_from_civil(y as int, m as int, 1) <= z,
            month_search(z as int, y as int, m as int) == month_search(z as int, y as int, 1),
            y as int == year_search(z as int, YEAR_MIN as int),
        decreases 12 - m,
    {
        m = m + 1;
    }
    let start = days_from_civil_x(y, m, 1);
    let d: i64 = z - start + 1;
    proof {
        assert(m as int == month_search(z as int, y as int, 1));
        lemma_dfc_linear_in_d(y as int, m as int, d as int);
        if m < 12 {
            lemma_dfc_next_month(y as int, m as int);
            assert(z < days_from_civil(y as int, m + 1, 1));
        } else {
            lemma_dfc_next_year(y as int);
            lemma_dfc_linear_in_d(y as int, 12, 31);
        }
        assert(1 <= d as int <= days_in_month(y as int, m as int));
    }
    (y, m, d)
}

} // verus!
