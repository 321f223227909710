//! Positions of the time-axis ticks and grid lines, in whole calendar units.

use vstd::prelude::*;
use crate::arith::{div_floor, floor_div};
use crate::calendar::{TimeTuple, TimeTupleSec, minute_steps, second_steps, minute_tick, second_tick, rank, rank_sec, month_days, days_in_month};
use crate::ir::Meta;
use crate::layout::GridStyle;
use crate::text::str_eq;

verus! {

/// `y` is a multiple of `step`.
pub open spec fn is_multiple(y: int, step: int) -> bool {
    y % step == 0
}

/// `r` lists, in increasing order, exactly the multiples of `step` in `[lo, hi]`.
pub open spec fn multiples_in(r: Seq<i64>, lo: int, hi: int, step: int) -> bool {
    &&& forall|k: int| 0 <= k < r.len() ==> is_multiple(#[trigger] r[k] as int, step) && lo <= r[k] <= hi
    &&& forall|k: int| 0 <= k < r.len() - 1 ==> #[trigger] r[k + 1] == r[k] + step
    &&& r.len() > 0 ==> r[0] - step < lo
    &&& r.len() > 0 ==> r[r.len() - 1] + step > hi
    &&& r.len() == 0 ==> forall|y: int| lo <= y <= hi ==> !#[trigger] is_multiple(y, step)
}

/// `r` is strictly ascending and holds a value exactly when it is a multiple of `step`
/// in `[lo, hi]`: nothing outside the range, nothing twice, no aligned value missing.
pub open spec fn lists_exactly_multiples(r: Seq<i64>, lo: int, hi: int, step: int) -> bool {
    &&& forall|i: int, j: int| 0 <= i < j < r.len() ==> r[i] < r[j]
    &&& forall|y: int| #[trigger] lists(r, y) <==> (lo <= y <= hi && is_multiple(y, step))
}

/// `t` is one of the values of `r`.
pub open spec fn lists(r: Seq<i64>, t: int) -> bool {
    exists|k: int| 0 <= k < r.len() && r[k] == t
}

/// `r`, in twelfths of a year, holds the start of year `y`.
pub open spec fn lists_year_start(r: Seq<i64>, y: int) -> bool {
    lists(r, 12 * y)
}

proof fn lemma_multiples_step_apart(r: Seq<i64>, lo: int, hi: int, step: int, k: int)
    requires
        multiples_in(r, lo, hi, step),
        0 <= k < r.len(),
    ensures
        r[k] == r[0] + k * step,
    decreases k,
{
    if k > 0 {
        lemma_multiples_step_apart(r, lo, hi, step, k - 1);
        let j = k - 1;
        assert(r[j + 1] == r[j] + step);
        assert(k * step == (k - 1) * step + step) by (nonlinear_arith);
    } else {
        assert(k * step == 0) by (nonlinear_arith) requires k == 0;
    }
}

/// Multiples listed one step apart from the first one past `lo - step` to the last one
/// before `hi + step` are exactly the multiples in `[lo, hi]`, ascending.
pub proof fn lemma_multiples_in_lists_exactly(r: Seq<i64>, lo: int, hi: int, step: int)
    requires
        step >= 1,
        multiples_in(r, lo, hi, step),
    ensures
        lists_exactly_multiples(r, lo, hi, step),
{
    assert forall|i: int, j: int| 0 <= i < j < r.len() implies r[i] < r[j] by {
        lemma_multiples_step_apart(r, lo, hi, step, i);
        lemma_multiples_step_apart(r, lo, hi, step, j);
        assert(i * step < j * step) by (nonlinear_arith) requires i < j, step >= 1;
    }
    assert forall|y: int| #[trigger] lists(r, y) <==> (lo <= y <= hi && is_multiple(y, step)) by {
        if lo <= y <= hi && is_multiple(y, step) {
            assert(r.len() > 0);
            let r0 = r[0] as int;
            let n = r.len() as int;
            assert(is_multiple(r0, step));
            lemma_multiples_step_apart(r, lo, hi, step, n - 1);
            vstd::arithmetic::div_mod::lemma_fundamental_div_mod(y, step);
            vstd::arithmetic::div_mod::lemma_fundamental_div_mod(r0, step);
            let k = y / step - r0 / step;
            assert(y - r0 == step * k) by (nonlinear_arith)
                requires y == step * (y / step), r0 == step * (r0 / step), k == y / step - r0 / step;
            assert(0 <= k < n) by (nonlinear_arith)
                requires y - r0 == step * k, r0 - step < lo, lo <= y, y <= hi,
                    hi < r0 + (n - 1) * step + step, step >= 1;
            lemma_multiples_step_apart(r, lo, hi, step, k);
            assert(k * step == step * k) by (nonlinear_arith);
            assert(r[k] == y);
        }
    }
}

/// The multiples of `step` in `[lo, hi]`, ascending.
pub fn multiples_between(lo: i64, hi: i64, step: i64) -> (r: Vec<i64>)
    requires
        step >= 1,
        lo - step >= i64::MIN,
        hi + step <= i64::MAX,
    ensures
        multiples_in(r@, lo as int, hi as int, step as int),
{
    let q = div_floor(lo, step);
    let ghost s = step as int;
    proof {
        vstd::arithmetic::div_mod::lemma_fundamental_div_mod(lo as int, s);
        assert(q == (lo as int) / s);
        assert(lo - s < q * s <= lo) by (nonlinear_arith)
            requires lo == s * ((lo as int) / s) + (lo as int) % s, 0 <= (lo as int) % s < s, q == (lo as int) / s;
    }
    let mut y: i64 = q * step;
    proof {
        vstd::arithmetic::div_mod::lemma_mod_multiples_basic(q as int, s);
    }
    let mut r: Vec<i64> = Vec::new();
    while y <= hi
        invariant
            step >= 1,
            s == step,
            lo - step >= i64::MIN,
            hi + step <= i64::MAX,
            is_multiple(y as int, s),
            forall|k: int| 0 <= k < r.len() ==> is_multiple(#[trigger] r@[k] as int, s) && lo <= r@[k] <= hi,
            forall|k: int| 0 <= k < r.len() - 1 ==> #[trigger] r@[k + 1] == r@[k] + s,
            r.len() > 0 ==> r@[0] - s < lo,
            r.len() > 0 ==> r@[r.len() - 1] == y - s,
            r.len() == 0 ==> forall|z: int| lo <= z < y ==> !#[trigger] is_multiple(z, s),
            r.len() == 0 ==> y - s < lo,
        decreases hi - y + step,
    {
        if y >= lo {
            r.push(y);
        } else {
            proof {
                assert forall|z: int| lo <= z < y + s implies !#[trigger] is_multiple(z, s) by {
                    if z % s == 0 {
                        vstd::arithmetic::div_mod::lemma_fundamental_div_mod(z, s);
                        vstd::arithmetic::div_mod::lemma_fundamental_div_mod(y as int, s);
                        let a = (y as int) / s;
                        let b = z / s;
                        assert(false) by (nonlinear_arith)
                            requires y == s * a, z == s * b, y < z, z < y + s, s >= 1;
                    }
                }
            }
        }
        proof {
            vstd::arithmetic::div_mod::lemma_mod_add_multiples_vanish(y as int, s);
        }
        y = y + step;
    }
    proof {
        if r.len() == 0 {
            assert forall|z: int| lo <= z <= hi implies !#[trigger] is_multiple(z, s) by {}
        }
    }
    r
}

/// Year ticks: the multiples of the tick step (at least 1) in `[year_min, year_max]`.
pub fn year_ticks(year_min: i64, year_max: i64, tick_step: i64) -> (r: Vec<i64>)
    requires
        year_min - (if tick_step < 1 { 1 } else { tick_step as int }) >= i64::MIN,
        year_max + (if tick_step < 1 { 1 } else { tick_step as int }) <= i64::MAX,
    ensures
        multiples_in(r@, year_min as int, year_max as int, if tick_step < 1 { 1 } else { tick_step as int }),
        lists_exactly_multiples(r@, year_min as int, year_max as int, if tick_step < 1 { 1 } else { tick_step as int }),
{
    let step = if tick_step < 1 { 1 } else { tick_step };
    let r = multiples_between(year_min, year_max, step);
    proof {
        lemma_multiples_in_lists_exactly(r@, year_min as int, year_max as int, step as int);
    }
    r
}

/// Spacing of the grid lines in twelfths of a year; 0 for no grid.
pub open spec fn grid_step(grid: GridStyle) -> int {
    match grid {
        GridStyle::Off => 0,
        GridStyle::Decade => 120,
        GridStyle::Year => 12,
        GridStyle::Month => 1,
    }
}

/// Grid line positions in twelfths of a year (`12 * year + month_index`): every
/// decade, year or month boundary in `[year_min, year_max]`; none without a grid.
/// So a decade grid holds the starts of the years divisible by 10, a year grid the
/// start of every year, and a month grid the start of every month, ascending.
pub fn grid_positions_twelfths(grid: GridStyle, year_min: i64, year_max: i64) -> (r: Vec<i64>)
    requires
        i64::MIN + 120 <= year_min * 12 <= i64::MAX - 120,
        i64::MIN + 120 <= year_max * 12 <= i64::MAX - 120,
    ensures
        grid == GridStyle::Off ==> r.len() == 0,
        grid != GridStyle::Off ==> multiples_in(r@, year_min * 12, year_max * 12, grid_step(grid)),
        grid != GridStyle::Off ==> lists_exactly_multiples(r@, year_min * 12, year_max * 12, grid_step(grid)),
        grid == GridStyle::Decade ==> forall|y: int| year_min <= y <= year_max ==>
            (#[trigger] lists_year_start(r@, y) <==> y % 10 == 0),
        grid == GridStyle::Year ==> forall|y: int| year_min <= y <= year_max ==> #[trigger] lists_year_start(r@, y),
        grid == GridStyle::Month ==> forall|t: int| 12 * year_min <= t <= 12 * year_max ==> #[trigger] lists(r@, t),
{
    let r = match grid {
        GridStyle::Off => Vec::new(),
        GridStyle::Decade => multiples_between(year_min * 12, year_max * 12, 120),
        GridStyle::Year => multiples_between(year_min * 12, year_max * 12, 12),
        GridStyle::Month => multiples_between(year_min * 12, year_max * 12, 1),
    };
    proof {
        if grid != GridStyle::Off {
            lemma_multiples_in_lists_exactly(r@, year_min * 12, year_max * 12, grid_step(grid));
            if grid == GridStyle::Decade {
                assert forall|y: int| year_min <= y <= year_max implies
                    (#[trigger] lists_year_start(r@, y) <==> y % 10 == 0) by {
                    assert(12 * year_min <= 12 * y <= 12 * year_max);
                    assert(lists(r@, 12 * y) <==> is_multiple(12 * y, 120));
                    vstd::arithmetic::div_mod::lemma_fundamental_div_mod(y, 10);
                    vstd::arithmetic::div_mod::lemma_fundamental_div_mod(12 * y, 120);
                    let (a, b) = (y / 10, (12 * y) / 120);
                    assert((12 * y) % 120 == 0 <==> y % 10 == 0) by (nonlinear_arith)
                        requires y == 10 * a + y % 10, 0 <= y % 10 < 10,
                            12 * y == 120 * b + (12 * y) % 120, 0 <= (12 * y) % 120 < 120;
                }
            } else if grid == GridStyle::Year {
                assert forall|y: int| year_min <= y <= year_max implies #[trigger] lists_year_start(r@, y) by {
                    assert(12 * year_min <= 12 * y <= 12 * year_max);
                    vstd::arithmetic::div_mod::lemma_mod_multiples_basic(y, 12);
                    assert(is_multiple(12 * y, 12));
                    assert(lists(r@, 12 * y));
                }
            } else {
                assert forall|t: int| 12 * year_min <= t <= 12 * year_max implies #[trigger] lists(r@, t) by {
                    assert(is_multiple(t, 1));
                }
            }
        }
    }
    r
}

/// Month ticks of a `unit = "month"` timeline: months 2 to 12 of every year before
/// `year_max` (January coincides with the year tick).
pub fn month_ticks(year_min: i64, year_max: i64) -> (r: Vec<(i64, u8)>)
    ensures
        r.len() == if year_max > year_min { 11 * (year_max - year_min) } else { 0 },
        forall|k: int| 0 <= k < r.len() ==> #[trigger] r@[k] == ((year_min + k / 11) as i64, (k % 11 + 2) as u8),
{
    let mut r: Vec<(i64, u8)> = Vec::new();
    if year_max <= year_min {
        return r;
    }
    let mut y = year_min;
    while y < year_max
        invariant
            year_min <= y <= year_max,
            r.len() == 11 * (y - year_min),
            forall|k: int| 0 <= k < r.len() ==> #[trigger] r@[k] == ((year_min + k / 11) as i64, (k % 11 + 2) as u8),
        decreases year_max - y,
    {
        let mut m: u8 = 2;
        while m <= 12
            invariant
                year_min <= y < year_max,
                2 <= m <= 13,
                r.len() == 11 * (y - year_min) + (m - 2),
                forall|k: int| 0 <= k < r.len() ==> #[trigger] r@[k] == ((year_min + k / 11) as i64, (k % 11 + 2) as u8),
            decreases 13 - m,
        {
            proof {
                let k = 11 * (y - year_min) + (m - 2);
                assert(k / 11 == y - year_min && k % 11 == m - 2) by (nonlinear_arith)
                    requires k == 11 * (y - year_min) + (m - 2), 0 <= m - 2 < 11, y - year_min >= 0;
            }
            r.push((y, m));
            m = m + 1;
        }
        y = y + 1;
    }
    r
}

/// Whether day `d` of a month carries a tick for a step of `step` days.
pub open spec fn day_marked(d: int, step: int) -> bool {
    d == 1 || (d - 1) % step == 0
}

/// Marked days `1..=upto` of one month, in order.
pub open spec fn day_marks(y: i64, m: u8, step: int, upto: int) -> Seq<(i64, u8, u8)>
    decreases upto,
{
    if upto <= 0 {
        Seq::empty()
    } else {
        day_marks(y, m, step, upto - 1) + if day_marked(upto, step) { seq![(y, m, upto as u8)] } else { Seq::empty() }
    }
}

/// Marked days of months `1..=upto` of one year, in order.
pub open spec fn month_marks(y: i64, step: int, upto: int) -> Seq<(i64, u8, u8)>
    decreases upto,
{
    if upto <= 0 {
        Seq::empty()
    } else {
        month_marks(y, step, upto - 1) + day_marks(y, upto as u8, step, month_days(y as int, upto))
    }
}

/// Marked days of the years `lo..hi` (excluding `hi`), in order.
pub open spec fn year_marks(lo: i64, step: int, hi: int) -> Seq<(i64, u8, u8)>
    decreases hi - lo,
{
    if hi <= lo {
        Seq::empty()
    } else {
        year_marks(lo, step, hi - 1) + month_marks((hi - 1) as i64, step, 12)
    }
}

/// Day ticks of a `unit = "day"` timeline: the first day of every month and every
/// `step`-th day after it, for the years before `year_max`.
pub fn day_ticks(year_min: i64, year_max: i64, step: u64) -> (r: Vec<(i64, u8, u8)>)
    requires
        step >= 1,
    ensures
        r@ == year_marks(year_min, step as int, year_max as int),
{
    let mut r: Vec<(i64, u8, u8)> = Vec::new();
    if year_max <= year_min {
        return r;
    }
    let mut y = year_min;
    while y < year_max
        invariant
            year_min <= y <= year_max,
            step >= 1,
            r@ == year_marks(year_min, step as int, y as int),
        decreases year_max - y,
    {
        let ghost before_year = r@;
        let mut m: u8 = 1;
        while m <= 12
            invariant
                year_min <= y < year_max,
                1 <= m <= 13,
                step >= 1,
                r@ == before_year + month_marks(y, step as int, m - 1),
            decreases 13 - m,
        {
            let ghost before_month = r@;
            let last = days_in_month(y, m);
            let mut d: u8 = 1;
            while d <= last
                invariant
                    1 <= d <= last + 1,
                    28 <= last <= 31,
                    last == month_days(y as int, m as int),
                    step >= 1,
                    r@ == before_month + day_marks(y, m, step as int, d - 1),
                decreases last + 1 - d,
            {
                if d == 1 || ((d - 1) as u64) % step == 0 {
                    r.push((y, m, d));
                }
                proof {
                    assert(r@ =~= before_month + day_marks(y, m, step as int, d as int));
                }
                d = d + 1;
            }
            proof {
                assert(r@ =~= before_year + month_marks(y, step as int, m as int));
            }
            m = m + 1;
        }
        proof {
            assert(r@ =~= year_marks(year_min, step as int, y + 1));
        }
        y = y + 1;
    }
    r
}

/// The declared start and end of a sub-day axis, when both endpoints have a month and
/// a day; missing hours and minutes default to the start or end of the day.
pub open spec fn subday_bounds(meta: crate::ir::MetaView) -> Option<(TimeTuple, TimeTuple)> {
    let s = meta.range_start_at;
    let e = meta.range_end_at;
    if s.month is Some && s.day is Some && e.month is Some && e.day is Some {
        Some((
            (meta.range.0, s.month.unwrap(), s.day.unwrap(),
                match s.hour { Some(h) => h, None => 0u8 }, match s.minute { Some(m) => m, None => 0u8 }),
            (meta.range.1, e.month.unwrap(), e.day.unwrap(),
                match e.hour { Some(h) => h, None => 23u8 }, match e.minute { Some(m) => m, None => 59u8 }),
        ))
    } else {
        None
    }
}

/// Like [`subday_bounds`], with seconds (defaulting to 0 at the start, 59 at the end).
pub open spec fn subday_bounds_sec(meta: crate::ir::MetaView) -> Option<(TimeTupleSec, TimeTupleSec)> {
    match subday_bounds(meta) {
        Some((a, b)) => Some((
            (a.0, a.1, a.2, a.3, a.4, match meta.range_start_at.second { Some(x) => x, None => 0u8 }),
            (b.0, b.1, b.2, b.3, b.4, match meta.range_end_at.second { Some(x) => x, None => 59u8 }),
        )),
        None => None,
    }
}

/// A sub-day axis needs a month and a day at both ends. Its start is the declared
/// start with a missing hour or minute taken as 0, the start of the day; its end is the
/// declared end with a missing hour taken as 23 and a missing minute as 59, the last
/// minute of the day, so the whole end day is on the axis. Missing seconds likewise
/// default to 0 at the start and 59 at the end.
pub proof fn lemma_subday_bounds_cover_whole_days(meta: crate::ir::MetaView)
    ensures
        ({
            let s = meta.range_start_at;
            let e = meta.range_end_at;
            &&& subday_bounds(meta) is Some <==> (s.month is Some && s.day is Some && e.month is Some && e.day is Some)
            &&& subday_bounds(meta) is Some ==> {
                let (a, b) = subday_bounds(meta).unwrap();
                &&& a.0 == meta.range.0 && Some(a.1) == s.month && Some(a.2) == s.day
                &&& (s.hour is None ==> a.3 == 0) && (s.hour is Some ==> a.3 == s.hour.unwrap())
                &&& (s.minute is None ==> a.4 == 0) && (s.minute is Some ==> a.4 == s.minute.unwrap())
                &&& b.0 == meta.range.1 && Some(b.1) == e.month && Some(b.2) == e.day
                &&& (e.hour is None ==> b.3 == 23) && (e.hour is Some ==> b.3 == e.hour.unwrap())
                &&& (e.minute is None ==> b.4 == 59) && (e.minute is Some ==> b.4 == e.minute.unwrap())
            }
            &&& subday_bounds_sec(meta) is Some ==> {
                let (a, b) = subday_bounds_sec(meta).unwrap();
                &&& (s.second is None ==> a.5 == 0) && (s.second is Some ==> a.5 == s.second.unwrap())
                &&& (e.second is None ==> b.5 == 59) && (e.second is Some ==> b.5 == e.second.unwrap())
            }
        }),
{
}

/// The declared bounds of a sub-day axis (see [`subday_bounds`]).
pub fn subday_range_bounds(meta: &Meta) -> (r: Option<(TimeTuple, TimeTuple)>)
    ensures
        r == subday_bounds(meta@),
{
    let s = meta.range_start_at;
    let e = meta.range_end_at;
    match (s.month, s.day, e.month, e.day) {
        (Some(sm), Some(sd), Some(em), Some(ed)) => Some((
            (meta.range.0, sm, sd, match s.hour { Some(h) => h, None => 0 }, match s.minute { Some(m) => m, None => 0 }),
            (meta.range.1, em, ed, match e.hour { Some(h) => h, None => 23 }, match e.minute { Some(m) => m, None => 59 }),
        )),
        _ => None,
    }
}

/// The declared bounds of a second-precision axis (see [`subday_bounds_sec`]).
pub fn subday_range_bounds_sec(meta: &Meta) -> (r: Option<(TimeTupleSec, TimeTupleSec)>)
    ensures
        r == subday_bounds_sec(meta@),
{
    match subday_range_bounds(meta) {
        Some((a, b)) => Some((
            (a.0, a.1, a.2, a.3, a.4, match meta.range_start_at.second { Some(x) => x, None => 0 }),
            (b.0, b.1, b.2, b.3, b.4, match meta.range_end_at.second { Some(x) => x, None => 59 }),
        )),
        None => None,
    }
}

/// The ticks of a sub-day axis of unit `unit`: for that unit and declared sub-day
/// bounds, the times from the start bound in steps of `step_minutes` that are not later
/// than the end bound; none otherwise.
pub open spec fn subday_ticks_spec(r: Seq<TimeTuple>, meta: crate::ir::MetaView, unit: Seq<char>, step_minutes: nat) -> bool {
    if meta.unit != unit || subday_bounds(meta) is None {
        r.len() == 0
    } else {
        let (s, e) = subday_bounds(meta).unwrap();
        &&& forall|k: int| 0 <= k < r.len() ==> #[trigger] r[k] == minute_tick(s, step_minutes, k as nat)
        &&& forall|k: int| 0 <= k < r.len() ==> rank(#[trigger] r[k]) <= rank(e)
        &&& rank(minute_tick(s, step_minutes, r.len() as nat)) > rank(e)
    }
}

fn subday_minute_ticks(meta: &Meta, unit: &str, step_minutes: i64) -> (r: Vec<TimeTuple>)
    requires
        1 <= step_minutes <= 1440,
        meta.range.1 + 1441 <= i64::MAX,
    ensures
        subday_ticks_spec(r@, meta@, unit@, step_minutes as nat),
{
    if !str_eq(meta.unit.as_str(), unit) {
        return Vec::new();
    }
    match subday_range_bounds(meta) {
        None => Vec::new(),
        Some((start, end)) => minute_steps(start, end, step_minutes),
    }
}

/// Hour ticks of a `unit = "hour"` timeline, every `step_hours` hours from the declared
/// start to the declared end (see [`subday_ticks_spec`]).
pub fn hour_ticks(meta: &Meta, step_hours: u8) -> (r: Vec<(i64, u8, u8, u8)>)
    requires
        1 <= step_hours <= 24,
        meta.range.1 + 1441 <= i64::MAX,
    ensures
        meta@.unit != "hour"@ || subday_bounds(meta@) is None ==> r.len() == 0,
        meta@.unit == "hour"@ && subday_bounds(meta@) is Some ==> ({
            let (s, e) = subday_bounds(meta@).unwrap();
            let n = step_hours as nat * 60;
            &&& forall|k: int| 0 <= k < r.len() ==> #[trigger] r@[k] == (minute_tick(s, n, k as nat).0,
                minute_tick(s, n, k as nat).1, minute_tick(s, n, k as nat).2, minute_tick(s, n, k as nat).3)
            &&& forall|k: int| 0 <= k < r.len() ==> rank(#[trigger] minute_tick(s, n, k as nat)) <= rank(e)
            &&& rank(minute_tick(s, n, r.len() as nat)) > rank(e)
        }),
{
    let full = subday_minute_ticks(meta, "hour", (step_hours as i64) * 60);
    let mut r: Vec<(i64, u8, u8, u8)> = Vec::new();
    let mut k: usize = 0;
    while k < full.len()
        invariant
            k <= full.len(),
            r.len() == k,
            forall|j: int| 0 <= j < k ==> #[trigger] r@[j] == (full@[j].0, full@[j].1, full@[j].2, full@[j].3),
        decreases full.len() - k,
    {
        let t = full[k];
        r.push((t.0, t.1, t.2, t.3));
        k = k + 1;
    }
    proof {
        if meta@.unit == "hour"@ && subday_bounds(meta@) is Some {
            let (s, e) = subday_bounds(meta@).unwrap();
            let n = step_hours as nat * 60;
            assert(n == (step_hours as i64 * 60) as nat);
            assert forall|k: int| 0 <= k < r.len() implies rank(#[trigger] minute_tick(s, n, k as nat)) <= rank(e) by {
                assert(full@[k] == minute_tick(s, n, k as nat));
            }
        }
    }
    r
}

/// Minute ticks of a `unit = "minute"` timeline, every `step_minutes` minutes from the
/// declared start to the declared end (see [`subday_ticks_spec`]).
pub fn minute_ticks(meta: &Meta, step_minutes: u8) -> (r: Vec<TimeTuple>)
    requires
        1 <= step_minutes,
        meta.range.1 + 1441 <= i64::MAX,
    ensures
        subday_ticks_spec(r@, meta@, "minute"@, step_minutes as nat),
{
    subday_minute_ticks(meta, "minute", step_minutes as i64)
}

/// Second ticks of a `unit = "second"` timeline, every `step_seconds` seconds from the
/// declared start to the declared end; none for another unit or without sub-day bounds.
pub fn second_ticks(meta: &Meta, step_seconds: u8) -> (r: Vec<TimeTupleSec>)
    requires
        1 <= step_seconds,
        meta.range.1 + 86401 <= i64::MAX,
    ensures
        meta@.unit != "second"@ || subday_bounds_sec(meta@) is None ==> r.len() == 0,
        meta@.unit == "second"@ && subday_bounds_sec(meta@) is Some ==> ({
            let (s, e) = subday_bounds_sec(meta@).unwrap();
            &&& forall|k: int| 0 <= k < r.len() ==> #[trigger] r@[k] == second_tick(s, step_seconds as nat, k as nat)
            &&& forall|k: int| 0 <= k < r.len() ==> rank_sec(#[trigger] r@[k]) <= rank_sec(e)
            &&& rank_sec(second_tick(s, step_seconds as nat, r.len() as nat)) > rank_sec(e)
        }),
{
    if !str_eq(meta.unit.as_str(), "second") {
        return Vec::new();
    }
    match subday_range_bounds_sec(meta) {
        None => Vec::new(),
        Some((start, end)) => second_steps(start, end, step_seconds as i64),
    }
}

/// Whether the declared range starts and ends on the same calendar day (with month and
/// day given); sub-day tick labels then omit the date.
pub fn is_single_day_range(meta: &Meta) -> (r: bool)
    ensures
        r == (meta.range.0 == meta.range.1 && meta.range_start_at.month == meta.range_end_at.month
            && meta.range_start_at.day == meta.range_end_at.day
            && meta.range_start_at.month is Some && meta.range_start_at.day is Some),
{
    let s = meta.range_start_at;
    let e = meta.range_end_at;
    if meta.range.0 != meta.range.1 {
        return false;
    }
    match (s.month, e.month, s.day, e.day) {
        (Some(a), Some(b), Some(c), Some(d)) => a == b && c == d,
        _ => false,
    }
}

} // verus!
