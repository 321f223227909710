//! Proleptic Gregorian calendar arithmetic and the calendar-aligned minor ticks of the
//! time axis.

use vstd::prelude::*;

verus! {

/// Gregorian leap year (proleptic, also for years before 1 and negative years).
pub open spec fn is_leap_year(year: int) -> bool {
    (year % 4 == 0 && year % 100 != 0) || year % 400 == 0
}

/// Number of days in `month` of `year`; months outside 1..=12 count as 31.
pub open spec fn month_days(year: int, month: int) -> int {
    if month == 2 {
        if is_leap_year(year) { 29 } else { 28 }
    } else if month == 4 || month == 6 || month == 9 || month == 11 {
        30
    } else {
        31
    }
}

/// A year's months add up to 366 days in a leap year and 365 otherwise; February has
/// 29 days exactly in leap years; leap years are those divisible by 4 but not by 100,
/// and those divisible by 400, and they repeat every 400 years.
pub proof fn lemma_year_length(year: int)
    ensures
        month_days(year, 1) + month_days(year, 2) + month_days(year, 3) + month_days(year, 4)
            + month_days(year, 5) + month_days(year, 6) + month_days(year, 7) + month_days(year, 8)
            + month_days(year, 9) + month_days(year, 10) + month_days(year, 11) + month_days(year, 12)
            == if is_leap_year(year) { 366int } else { 365int },
        month_days(year, 2) == 29 <==> is_leap_year(year),
        is_leap_year(year) <==> (year % 4 == 0 && year % 100 != 0) || year % 400 == 0,
        is_leap_year(year + 400) == is_leap_year(year),
{
    vstd::arithmetic::div_mod::lemma_mod_add_multiples_vanish(year, 400);
    assert((year + 400) % 4 == year % 4) by {
        vstd::arithmetic::div_mod::lemma_mod_add_multiples_vanish(year + 396, 4);
        vstd::arithmetic::div_mod::lemma_fundamental_div_mod(year, 4);
        vstd::arithmetic::div_mod::lemma_fundamental_div_mod(year + 400, 4);
    }
    assert((year + 400) % 100 == year % 100) by {
        vstd::arithmetic::div_mod::lemma_fundamental_div_mod(year, 100);
        vstd::arithmetic::div_mod::lemma_fundamental_div_mod(year + 400, 100);
    }
}

/// Whether `year` is divisible by `d` (for a positive `d`).
fn divisible(year: i64, d: i64) -> (r: bool)
    requires
        d > 0,
    ensures
        r == ((year as int) % (d as int) == 0),
{
    if year >= 0 {
        year % d == 0
    } else {
        let a: i128 = -(year as i128);
        let ghost ai = a as int;
        let ghost di = d as int;
        let r = a % (d as i128) == 0;
        proof {
            vstd::arithmetic::div_mod::lemma_fundamental_div_mod(ai, di);
            vstd::arithmetic::div_mod::lemma_fundamental_div_mod(-ai, di);
            if ai % di == 0 {
                assert(-ai == di * (-(ai / di))) by (nonlinear_arith) requires ai == di * (ai / di);
                vstd::arithmetic::div_mod::lemma_fundamental_div_mod_converse(-ai, di, -(ai / di), 0);
            } else {
                if (-ai) % di == 0 {
                    assert(ai == di * (-((-ai) / di))) by (nonlinear_arith) requires -ai == di * ((-ai) / di);
                    vstd::arithmetic::div_mod::lemma_fundamental_div_mod_converse(ai, di, -((-ai) / di), 0);
                }
            }
        }
        r
    }
}

/// Whether `year` is a Gregorian leap year.
pub fn is_leap(year: i64) -> (r: bool)
    ensures
        r == is_leap_year(year as int),
{
    (divisible(year, 4) && !divisible(year, 100)) || divisible(year, 400)
}

/// Number of days in a month of the proleptic Gregorian calendar.
pub fn days_in_month(year: i64, month: u8) -> (d: u8)
    ensures
        d == month_days(year as int, month as int),
        28 <= d <= 31,
{
    if month == 2 {
        if is_leap(year) { 29 } else { 28 }
    } else if month == 4 || month == 6 || month == 9 || month == 11 {
        30
    } else {
        31
    }
}

/// A minute-precision time: (year, month, day, hour, minute).
pub type TimeTuple = (i64, u8, u8, u8, u8);

/// A second-precision time: (year, month, day, hour, minute, second).
pub type TimeTupleSec = (i64, u8, u8, u8, u8, u8);

/// The time one minute later. Fields roll over in calendar order; a field out of its
/// range rolls over at its next increment.
pub open spec fn next_minute(t: TimeTuple) -> TimeTuple {
    let (y, mo, d, h, mi) = t;
    if mi + 1 < 60 {
        (y, mo, d, h, (mi + 1) as u8)
    } else if h + 1 < 24 {
        (y, mo, d, (h + 1) as u8, 0)
    } else if d + 1 <= month_days(y as int, mo as int) {
        (y, mo, (d + 1) as u8, 0, 0)
    } else if mo + 1 <= 12 {
        (y, (mo + 1) as u8, 1, 0, 0)
    } else {
        ((y + 1) as i64, 1, 1, 0, 0)
    }
}

/// The time `n` minutes later.
pub open spec fn advance_minutes(t: TimeTuple, n: nat) -> TimeTuple
    decreases n,
{
    if n == 0 { t } else { advance_minutes(next_minute(t), (n - 1) as nat) }
}

/// The time one second later.
pub open spec fn next_second(t: TimeTupleSec) -> TimeTupleSec {
    let (y, mo, d, h, mi, s) = t;
    if s + 1 < 60 {
        (y, mo, d, h, mi, (s + 1) as u8)
    } else {
        let (y2, mo2, d2, h2, mi2) = next_minute((y, mo, d, h, mi));
        (y2, mo2, d2, h2, mi2, 0)
    }
}

/// The time `n` seconds later.
pub open spec fn advance_seconds(t: TimeTupleSec, n: nat) -> TimeTupleSec
    decreases n,
{
    if n == 0 { t } else { advance_seconds(next_second(t), (n - 1) as nat) }
}

/// Position of a time in lexicographic (calendar) order: fields are digits in base 256.
pub open spec fn rank(t: TimeTuple) -> int {
    t.0 * 0x1_0000_0000 + t.1 * 0x100_0000 + t.2 * 0x1_0000 + t.3 * 0x100 + t.4
}

/// Position of a second-precision time in lexicographic order.
pub open spec fn rank_sec(t: TimeTupleSec) -> int {
    rank((t.0, t.1, t.2, t.3, t.4)) * 0x100 + t.5
}

/// One minute later is always later in calendar order.
pub proof fn lemma_next_minute_later(t: TimeTuple)
    requires
        t.0 < i64::MAX,
    ensures
        rank(next_minute(t)) > rank(t),
        next_minute(t).0 <= t.0 + 1,
{
}

/// One second later is always later in calendar order.
pub proof fn lemma_next_second_later(t: TimeTupleSec)
    requires
        t.0 < i64::MAX,
    ensures
        rank_sec(next_second(t)) > rank_sec(t),
        next_second(t).0 <= t.0 + 1,
{
    lemma_next_minute_later((t.0, t.1, t.2, t.3, t.4));
}

/// Advancing by `a` then by `b` minutes is advancing by `a + b` minutes.
pub proof fn lemma_advance_minutes_add(t: TimeTuple, a: nat, b: nat)
    ensures
        advance_minutes(advance_minutes(t, a), b) == advance_minutes(t, a + b),
    decreases a,
{
    if a > 0 {
        lemma_advance_minutes_add(next_minute(t), (a - 1) as nat, b);
        assert((a - 1) as nat + b == (a + b - 1) as nat);
    }
}

/// Advancing by `a` then by `b` seconds is advancing by `a + b` seconds.
pub proof fn lemma_advance_seconds_add(t: TimeTupleSec, a: nat, b: nat)
    ensures
        advance_seconds(advance_seconds(t, a), b) == advance_seconds(t, a + b),
    decreases a,
{
    if a > 0 {
        lemma_advance_seconds_add(next_second(t), (a - 1) as nat, b);
        assert((a - 1) as nat + b == (a + b - 1) as nat);
    }
}

/// Advancing never moves a time earlier, and moves the year by at most the count.
pub proof fn lemma_advance_minutes_bounds(t: TimeTuple, n: nat)
    requires
        t.0 + n <= i64::MAX,
    ensures
        rank(advance_minutes(t, n)) >= rank(t),
        n > 0 ==> rank(advance_minutes(t, n)) > rank(t),
        advance_minutes(t, n).0 <= t.0 + n,
    decreases n,
{
    if n > 0 {
        lemma_next_minute_later(t);
        lemma_advance_minutes_bounds(next_minute(t), (n - 1) as nat);
    }
}

/// Advancing never moves a time earlier, and moves the year by at most the count.
pub proof fn lemma_advance_seconds_bounds(t: TimeTupleSec, n: nat)
    requires
        t.0 + n <= i64::MAX,
    ensures
        rank_sec(advance_seconds(t, n)) >= rank_sec(t),
        n > 0 ==> rank_sec(advance_seconds(t, n)) > rank_sec(t),
        advance_seconds(t, n).0 <= t.0 + n,
    decreases n,
{
    if n > 0 {
        lemma_next_second_later(t);
        lemma_advance_seconds_bounds(next_second(t), (n - 1) as nat);
    }
}

fn step_minute(t: TimeTuple) -> (r: TimeTuple)
    requires
        t.0 < i64::MAX,
    ensures
        r == next_minute(t),
{
    let (y, mo, d, h, mi) = t;
    if mi < 59 {
        (y, mo, d, h, mi + 1)
    } else if h < 23 {
        (y, mo, d, h + 1, 0)
    } else if (d as u16) + 1 <= days_in_month(y, mo) as u16 {
        (y, mo, d + 1, 0, 0)
    } else if mo < 12 {
        (y, mo + 1, 1, 0, 0)
    } else {
        (y + 1, 1, 1, 0, 0)
    }
}

/// The time `delta_minutes` minutes after `t` (no change for a negative delta).
pub fn advance_time_minutes(t: TimeTuple, delta_minutes: i64) -> (r: TimeTuple)
    requires
        t.0 + delta_minutes <= i64::MAX,
    ensures
        r == advance_minutes(t, if delta_minutes < 0 { 0 } else { delta_minutes as nat }),
{
    let total: i64 = if delta_minutes < 0 { 0 } else { delta_minutes };
    let mut remaining: i64 = total;
    let mut cur = t;
    while remaining > 0
        invariant
            0 <= remaining <= total,
            total == if delta_minutes < 0 { 0 } else { delta_minutes },
            t.0 + total <= i64::MAX,
            cur == advance_minutes(t, (total - remaining) as nat),
            cur.0 <= t.0 + (total - remaining),
        decreases remaining,
    {
        proof {
            lemma_next_minute_later(cur);
            lemma_advance_minutes_add(t, (total - remaining) as nat, 1);
            assert(advance_minutes(cur, 1) == next_minute(cur)) by {
                assert(advance_minutes(next_minute(cur), 0) == next_minute(cur));
            }
        }
        cur = step_minute(cur);
        remaining = remaining - 1;
    }
    cur
}

fn step_second(t: TimeTupleSec) -> (r: TimeTupleSec)
    requires
        t.0 < i64::MAX,
    ensures
        r == next_second(t),
{
    let (y, mo, d, h, mi, s) = t;
    if s < 59 {
        (y, mo, d, h, mi, s + 1)
    } else {
        let (y2, mo2, d2, h2, mi2) = step_minute((y, mo, d, h, mi));
        (y2, mo2, d2, h2, mi2, 0)
    }
}

/// The time `delta_seconds` seconds after `t` (no change for a negative delta).
pub fn advance_time_seconds(t: TimeTupleSec, delta_seconds: i64) -> (r: TimeTupleSec)
    requires
        t.0 + delta_seconds <= i64::MAX,
    ensures
        r == advance_seconds(t, if delta_seconds < 0 { 0 } else { delta_seconds as nat }),
{
    let total: i64 = if delta_seconds < 0 { 0 } else { delta_seconds };
    let mut remaining: i64 = total;
    let mut cur = t;
    while remaining > 0
        invariant
            0 <= remaining <= total,
            total == if delta_seconds < 0 { 0 } else { delta_seconds },
            t.0 + total <= i64::MAX,
            cur == advance_seconds(t, (total - remaining) as nat),
            cur.0 <= t.0 + (total - remaining),
        decreases remaining,
    {
        proof {
            lemma_next_second_later(cur);
            lemma_advance_seconds_add(t, (total - remaining) as nat, 1);
            assert(advance_seconds(cur, 1) == next_second(cur)) by {
                assert(advance_seconds(next_second(cur), 0) == next_second(cur));
            }
        }
        cur = step_second(cur);
        remaining = remaining - 1;
    }
    cur
}

fn time_le(a: TimeTuple, b: TimeTuple) -> (r: bool)
    ensures
        r == (rank(a) <= rank(b)),
{
    if a.0 != b.0 {
        a.0 < b.0
    } else if a.1 != b.1 {
        a.1 < b.1
    } else if a.2 != b.2 {
        a.2 < b.2
    } else if a.3 != b.3 {
        a.3 < b.3
    } else {
        a.4 <= b.4
    }
}

fn time_le_sec(a: TimeTupleSec, b: TimeTupleSec) -> (r: bool)
    ensures
        r == (rank_sec(a) <= rank_sec(b)),
{
    if a.0 != b.0 || a.1 != b.1 || a.2 != b.2 || a.3 != b.3 || a.4 != b.4 {
        let r = time_le((a.0, a.1, a.2, a.3, a.4), (b.0, b.1, b.2, b.3, b.4));
        assert(rank((a.0, a.1, a.2, a.3, a.4)) != rank((b.0, b.1, b.2, b.3, b.4)));
        r
    } else {
        a.5 <= b.5
    }
}

/// The `k`-th tick of a minute-stepped sequence starting at `start`.
pub open spec fn minute_tick(start: TimeTuple, step_minutes: nat, k: nat) -> TimeTuple {
    advance_minutes(start, k * step_minutes)
}

/// The `k`-th tick of a second-stepped sequence starting at `start`.
pub open spec fn second_tick(start: TimeTupleSec, step_seconds: nat, k: nat) -> TimeTupleSec {
    advance_seconds(start, k * step_seconds)
}

/// The times `start`, `start + step`, `start + 2·step`, … that are not later than `end`,
/// for a positive step of minutes.
pub fn minute_steps(start: TimeTuple, end: TimeTuple, step_minutes: i64) -> (ticks: Vec<TimeTuple>)
    requires
        1 <= step_minutes <= 1440,
        end.0 + 1441 <= i64::MAX,
    ensures
        forall|k: int| 0 <= k < ticks.len() ==> #[trigger] ticks@[k] == minute_tick(start, step_minutes as nat, k as nat),
        forall|k: int| 0 <= k < ticks.len() ==> rank(#[trigger] ticks@[k]) <= rank(end),
        rank(minute_tick(start, step_minutes as nat, ticks.len() as nat)) > rank(end),
{
    let mut ticks: Vec<TimeTuple> = Vec::new();
    let mut cur = start;
    proof {
        assert(minute_tick(start, step_minutes as nat, 0) == start) by {
            assert(0 * (step_minutes as nat) == 0);
        }
    }
    while time_le(cur, end)
        invariant
            1 <= step_minutes <= 1440,
            end.0 + 1441 <= i64::MAX,
            cur == minute_tick(start, step_minutes as nat, ticks.len() as nat),
            forall|k: int| 0 <= k < ticks.len() ==> #[trigger] ticks@[k] == minute_tick(start, step_minutes as nat, k as nat),
            forall|k: int| 0 <= k < ticks.len() ==> rank(#[trigger] ticks@[k]) <= rank(end),
        decreases if rank(cur) <= rank(end) { rank(end) - rank(cur) + 1 } else { 0 },
    {
        ticks.push(cur);
        let ghost n = ticks.len() as nat;
        proof {
            lemma_rank_year(cur, end);
            lemma_advance_minutes_bounds(cur, step_minutes as nat);
            let s = step_minutes as int;
            assert((n - 1) * s >= 0 && (n - 1) * s + s == n * s) by (nonlinear_arith)
                requires n >= 1, s >= 1;
            lemma_advance_minutes_add(start, ((n - 1) * s) as nat, s as nat);
        }
        cur = advance_time_minutes(cur, step_minutes);
        assert(rank(cur) > rank(ticks@[n - 1]));
    }
    ticks
}

/// A time not later than another has a year not later than the other's.
proof fn lemma_rank_year(a: TimeTuple, b: TimeTuple)
    requires
        rank(a) <= rank(b),
    ensures
        a.0 <= b.0,
{
}

/// The times `start`, `start + step`, `start + 2·step`, … that are not later than `end`,
/// for a positive step of seconds.
pub fn second_steps(start: TimeTupleSec, end: TimeTupleSec, step_seconds: i64) -> (ticks: Vec<TimeTupleSec>)
    requires
        1 <= step_seconds <= 86400,
        end.0 + 86401 <= i64::MAX,
    ensures
        forall|k: int| 0 <= k < ticks.len() ==> #[trigger] ticks@[k] == second_tick(start, step_seconds as nat, k as nat),
        forall|k: int| 0 <= k < ticks.len() ==> rank_sec(#[trigger] ticks@[k]) <= rank_sec(end),
        rank_sec(second_tick(start, step_seconds as nat, ticks.len() as nat)) > rank_sec(end),
{
    let mut ticks: Vec<TimeTupleSec> = Vec::new();
    let mut cur = start;
    proof {
        assert(second_tick(start, step_seconds as nat, 0) == start) by {
            assert(0 * (step_seconds as nat) == 0);
        }
    }
    while time_le_sec(cur, end)
        invariant
            1 <= step_seconds <= 86400,
            end.0 + 86401 <= i64::MAX,
            cur == second_tick(start, step_seconds as nat, ticks.len() as nat),
            forall|k: int| 0 <= k < ticks.len() ==> #[trigger] ticks@[k] == second_tick(start, step_seconds as nat, k as nat),
            forall|k: int| 0 <= k < ticks.len() ==> rank_sec(#[trigger] ticks@[k]) <= rank_sec(end),
        decreases if rank_sec(cur) <= rank_sec(end) { rank_sec(end) - rank_sec(cur) + 1 } else { 0 },
    {
        ticks.push(cur);
        let ghost n = ticks.len() as nat;
        proof {
            lemma_rank_year((cur.0, cur.1, cur.2, cur.3, cur.4), (end.0, end.1, end.2, end.3, end.4));
            lemma_advance_seconds_bounds(cur, step_seconds as nat);
            let s = step_seconds as int;
            assert((n - 1) * s >= 0 && (n - 1) * s + s == n * s) by (nonlinear_arith)
                requires n >= 1, s >= 1;
            lemma_advance_seconds_add(start, ((n - 1) * s) as nat, s as nat);
        }
        cur = advance_time_seconds(cur, step_seconds);
        assert(rank_sec(cur) > rank_sec(ticks@[n - 1]));
    }
    ticks
}

} // verus!
