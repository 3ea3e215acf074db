//! Proleptic-Gregorian civil calendar arithmetic over day and second counts.

use vstd::prelude::*;
use vstd::arithmetic::div_mod::lemma_fundamental_div_mod;
use vstd::arithmetic::div_mod::lemma_fundamental_div_mod_converse;
use vstd::arithmetic::div_mod::lemma_mod_bound;
use vstd::arithmetic::div_mod::lemma_mod_multiples_basic;
use vstd::arithmetic::mul::lemma_mul_is_commutative;
use vstd::arithmetic::mul::lemma_mul_is_distributive_add_other_way;

verus! {

/// A timezone-aware point in time, held as whole seconds since the Unix
/// epoch in the reference zone (UTC).
#[derive(Clone, Copy, PartialEq, Eq, Structural, Debug)]
pub struct Instant {
    pub secs: i64,
}

/// Day count of 1970-01-01 (the epoch) counted from 0000-01-01.
pub const EPOCH_DAY_COUNT: i64 = 719528;

/// Earliest civil second handled: 0000-01-01 00:00:00.
pub const CIVIL_MIN_SECS: i64 = -62167219200;

/// Latest civil second handled: 9999-12-31 23:59:59.
pub const CIVIL_MAX_SECS: i64 = 253402300799;

pub open spec fn is_leap_year(y: int) -> bool {
    (y % 4 == 0 && y % 100 != 0) || y % 400 == 0
}

pub open spec fn days_in_month(y: int, m: int) -> int {
    if m == 2 {
        if is_leap_year(y) {
            29
        } else {
            28
        }
    } else if m == 4 || m == 6 || m == 9 || m == 11 {
        30
    } else {
        31
    }
}

/// Days from the first of January of year `y` to the first of month `m`.
pub open spec fn days_before_month(y: int, m: int) -> int
    decreases m,
{
    if m <= 1 {
        0
    } else {
        days_before_month(y, m - 1) + days_in_month(y, m - 1)
    }
}

pub open spec fn days_in_year(y: int) -> int {
    days_before_month(y, 13)
}

/// Days from 0000-01-01 to the first of January of year `y`.
pub open spec fn days_before_year(y: int) -> int
    decreases y,
{
    if y <= 0 {
        0
    } else {
        days_before_year(y - 1) + days_in_year(y - 1)
    }
}

/// Day count of the civil date `y-m-d`, relative to the Unix epoch.
pub open spec fn epoch_days(y: int, m: int, d: int) -> int {
    days_before_year(y) + days_before_month(y, m) + (d - 1) - EPOCH_DAY_COUNT as int
}

pub open spec fn valid_date(y: int, m: int, d: int) -> bool {
    &&& 0 <= y <= 9999
    &&& 1 <= m <= 12
    &&& 1 <= d <= days_in_month(y, m)
}

proof fn lemma_days_in_year(y: int)
    ensures
        days_in_year(y) == if is_leap_year(y) { 366int } else { 365int },
{
    reveal_with_fuel(days_before_month, 14);
}

#[via_fn]
proof fn year_split_dec(y: int, rem: int) {
    lemma_days_in_year(y);
}

/// Starting at year `y` with `rem` days left, advance whole years.
pub open spec fn year_split(y: int, rem: int) -> (int, int)
    decreases rem when 0 <= rem via year_split_dec
{
    if rem < days_in_year(y) {
        (y, rem)
    } else {
        year_split(y + 1, rem - days_in_year(y))
    }
}

/// Starting at month `m` of year `y` with `rem` days left, advance months.
pub open spec fn month_split(y: int, m: int, rem: int) -> (int, int)
    decreases 12 - m,
{
    if m >= 12 || rem < days_in_month(y, m) {
        (m, rem)
    } else {
        month_split(y, m + 1, rem - days_in_month(y, m))
    }
}

/// The civil date whose first second is `t` days after 0000-01-01.
pub open spec fn civil_of_day_count(t: int) -> (int, int, int) {
    let yr = year_split(0, t);
    let mo = month_split(yr.0, 1, yr.1);
    (yr.0, mo.0, mo.1 + 1)
}

proof fn lemma_year_split(y: int, rem: int)
    requires
        0 <= y,
        0 <= rem,
    ensures
        year_split(y, rem).0 >= y,
        0 <= year_split(y, rem).1 < days_in_year(year_split(y, rem).0),
        days_before_year(year_split(y, rem).0) + year_split(y, rem).1 == days_before_year(y)
            + rem,
    decreases rem,
{
    lemma_days_in_year(y);
    if rem < days_in_year(y) {
    } else {
        lemma_year_split(y + 1, rem - days_in_year(y));
        assert(days_before_year(y + 1) == days_before_year(y) + days_in_year(y));
    }
}

proof fn lemma_month_split(y: int, m: int, rem: int)
    requires
        1 <= m <= 12,
        0 <= rem,
        days_before_month(y, m) + rem < days_in_year(y),
    ensures
        1 <= month_split(y, m, rem).0 <= 12,
        0 <= month_split(y, m, rem).1 < days_in_month(y, month_split(y, m, rem).0),
        days_before_month(y, month_split(y, m, rem).0) + month_split(y, m, rem).1
            == days_before_month(y, m) + rem,
    decreases 12 - m,
{
    if m >= 12 || rem < days_in_month(y, m) {
        if m == 12 {
            assert(days_in_year(y) == days_before_month(y, 12) + days_in_month(y, 12));
        }
    } else {
        lemma_month_split(y, m + 1, rem - days_in_month(y, m));
    }
}

/// Leap years in 0..y, in closed form.
spec fn leap_days_before(y: int) -> int {
    (y + 3) / 4 - (y + 99) / 100 + (y + 399) / 400
}

proof fn lemma_count_step(y: int, d: int)
    requires
        d > 0,
    ensures
        (y + d) / d == (y + d - 1) / d + if y % d == 0 {
            1int
        } else {
            0int
        },
{
    lemma_mod_bound(y, d);
    lemma_fundamental_div_mod(y, d);
    let q = y / d;
    let r = y % d;
    lemma_mul_is_commutative(d, q);
    lemma_mul_is_distributive_add_other_way(d, q, 1);
    assert(y == q * d + r);
    if r == 0 {
        assert(y + d - 1 == q * d + (d - 1));
        lemma_fundamental_div_mod_converse(y + d - 1, d, q, d - 1);
        assert(y + d == (q + 1) * d + 0);
        lemma_fundamental_div_mod_converse(y + d, d, q + 1, 0);
    } else {
        assert(y + d - 1 == (q + 1) * d + (r - 1));
        lemma_fundamental_div_mod_converse(y + d - 1, d, q + 1, r - 1);
        assert(y + d == (q + 1) * d + r);
        lemma_fundamental_div_mod_converse(y + d, d, q + 1, r);
    }
}

proof fn lemma_leap_closed_step(y: int)
    ensures
        leap_days_before(y + 1) == leap_days_before(y) + if is_leap_year(y) {
            1int
        } else {
            0int
        },
{
    lemma_count_step(y, 4);
    lemma_count_step(y, 100);
    lemma_count_step(y, 400);
    if y % 100 == 0 {
        lemma_fundamental_div_mod(y, 100);
        let k = y / 100;
        assert(y == (25 * k) * 4);
        lemma_mod_multiples_basic(25 * k, 4);
    }
    if y % 400 == 0 {
        lemma_fundamental_div_mod(y, 400);
        let k = y / 400;
        assert(y == (4 * k) * 100);
        lemma_mod_multiples_basic(4 * k, 100);
    }
}

proof fn lemma_dby_closed(y: int)
    requires
        0 <= y,
    ensures
        days_before_year(y) == 365 * y + leap_days_before(y),
    decreases y,
{
    if y > 0 {
        lemma_dby_closed(y - 1);
        lemma_days_in_year(y - 1);
        lemma_leap_closed_step(y - 1);
    }
}

proof fn lemma_dby_10000()
    ensures
        days_before_year(10000) == 3652425,
{
    lemma_dby_closed(10000);
    lemma_fundamental_div_mod_converse(10003, 4, 2500, 3);
    lemma_fundamental_div_mod_converse(10099, 100, 100, 99);
    lemma_fundamental_div_mod_converse(10399, 400, 25, 399);
}

proof fn lemma_dby_mono(a: int, b: int)
    requires
        0 <= a <= b,
    ensures
        days_before_year(a) <= days_before_year(b),
    decreases b - a,
{
    if a < b {
        lemma_dby_mono(a, b - 1);
        lemma_days_in_year(b - 1);
    }
}

/// The civil date read off a day count is valid and maps back to that very
/// day count.
pub proof fn lemma_civil_of_day_count(t: int)
    requires
        0 <= t <= 3652424,
    ensures
        ({
            let c = civil_of_day_count(t);
            &&& valid_date(c.0, c.1, c.2)
            &&& epoch_days(c.0, c.1, c.2) == t - EPOCH_DAY_COUNT as int
        }),
{
    lemma_year_split(0, t);
    let yr = year_split(0, t);
    if yr.0 >= 10000 {
        lemma_dby_mono(10000, yr.0);
        lemma_dby_10000();
    }
    lemma_month_split(yr.0, 1, yr.1);
}

fn leap_year_exec(y: i64) -> (r: bool)
    requires
        0 <= y,
    ensures
        r == is_leap_year(y as int),
{
    (y % 4 == 0 && y % 100 != 0) || y % 400 == 0
}

pub fn days_in_month_exec(y: i64, m: i64) -> (r: i64)
    requires
        0 <= y,
        1 <= m <= 12,
    ensures
        r == days_in_month(y as int, m as int),
{
    if m == 2 {
        if leap_year_exec(y) {
            29
        } else {
            28
        }
    } else if m == 4 || m == 6 || m == 9 || m == 11 {
        30
    } else {
        31
    }
}

fn days_in_year_exec(y: i64) -> (r: i64)
    requires
        0 <= y,
    ensures
        r == days_in_year(y as int),
        365 <= r <= 366,
{
    proof {
        lemma_days_in_year(y as int);
    }
    if leap_year_exec(y) {
        366
    } else {
        365
    }
}

/// Day count (relative to the Unix epoch) of the civil date `y-m-d`.
pub fn epoch_days_exec(y: i64, m: i64, d: i64) -> (r: i64)
    requires
        0 <= y <= 9999,
        1 <= m <= 12,
        1 <= d <= 31,
    ensures
        r == epoch_days(y as int, m as int, d as int),
        -719528 <= r <= 2940600,
{
    let mut acc: i64 = 0;
    let mut i: i64 = 0;
    while i < y
        invariant
            0 <= i <= y <= 9999,
            acc == days_before_year(i as int),
            0 <= acc <= 366 * i,
        decreases y - i,
    {
        acc = acc + days_in_year_exec(i);
        i = i + 1;
    }
    let mut mm: i64 = 1;
    while mm < m
        invariant
            1 <= mm <= m <= 12,
            0 <= y <= 9999,
            acc == days_before_year(y as int) + days_before_month(y as int, mm as int),
            0 <= acc <= 366 * y + 31 * mm,
        decreases m - mm,
    {
        acc = acc + days_in_month_exec(y, mm);
        mm = mm + 1;
    }
    acc + d - 1 - EPOCH_DAY_COUNT
}

/// The civil date `t` days after 0000-01-01, for `t` within years 0 to 9999.
pub fn civil_from_day_count(t: i64) -> (r: (i64, i64, i64))
    requires
        0 <= t <= 3652424,
    ensures
        (r.0 as int, r.1 as int, r.2 as int) == civil_of_day_count(t as int),
        valid_date(r.0 as int, r.1 as int, r.2 as int),
        epoch_days(r.0 as int, r.1 as int, r.2 as int) == t - EPOCH_DAY_COUNT,
{
    let mut y: i64 = 0;
    let mut rem: i64 = t;
    let mut dy = days_in_year_exec(y);
    while rem >= dy
        invariant
            0 <= y <= 9999,
            0 <= rem <= t <= 3652424,
            dy == days_in_year(y as int),
            365 <= dy <= 366,
            days_before_year(y as int) + rem == t,
            year_split(0, t as int) == year_split(y as int, rem as int),
        decreases rem,
    {
        rem = rem - dy;
        y = y + 1;
        proof {
            if y > 9999 {
                lemma_dby_mono(10000, y as int);
                lemma_dby_10000();
            }
        }
        dy = days_in_year_exec(y);
    }
    proof {
        assert(year_split(0, t as int) == (y as int, rem as int));
    }
    let mut m: i64 = 1;
    let mut dm = days_in_month_exec(y, m);
    while rem >= dm
        invariant
            0 <= y <= 9999,
            1 <= m <= 12,
            0 <= rem,
            dm == days_in_month(y as int, m as int),
            28 <= dm <= 31,
            days_before_month(y as int, m as int) + rem < days_in_year(y as int),
            days_before_year(y as int) + days_before_month(y as int, m as int) + rem == t,
            month_split(y as int, 1, year_split(0, t as int).1) == month_split(
                y as int,
                m as int,
                rem as int,
            ),
        decreases rem,
    {
        proof {
            if m == 12 {
                assert(days_in_year(y as int) == days_before_month(y as int, 12)
                    + days_in_month(y as int, 12));
            }
        }
        rem = rem - dm;
        m = m + 1;
        dm = days_in_month_exec(y, m);
    }
    (y, m, rem + 1)
}

} // verus!
