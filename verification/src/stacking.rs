//! Positions of items on the time axis as exact integers, and the two overlap-avoidance
//! strategies of a lane: sub-row stacking of bars, and zigzag alternation.
//!
//! A time position is measured in 1/378 691 200 of a year, so that a month (1/12 year),
//! a day (1/365.25 year), an hour, a minute and a second are all whole units.

use vstd::prelude::*;
use crate::ir::{DateParts, Item, ItemView, items_view};
use crate::calendar::{days_in_month, month_days};
use crate::text::str_eq;
use crate::table::is_permutation;

verus! {

/// Units per year.
pub const UNITS_PER_YEAR: i128 = 378691200;
/// Units per month (1/12 year).
pub const UNITS_PER_MONTH: i128 = 31557600;
/// Units per day (1/365.25 year).
pub const UNITS_PER_DAY: i128 = 1036800;
/// Units per hour.
pub const UNITS_PER_HOUR: i128 = 43200;
/// Units per minute.
pub const UNITS_PER_MINUTE: i128 = 720;
/// Units per second.
pub const UNITS_PER_SECOND: i128 = 12;

pub open spec fn clamp(v: int, lo: int, hi: int) -> int {
    if v < lo { lo } else if v > hi { hi } else { v }
}

/// Position of a time given at some precision: the year, plus the month, day, hour,
/// minute and second each as far as the finer ones are present (a part counts only
/// when every coarser part is given), out-of-range parts clamped.
pub open spec fn point_units(year: int, p: DateParts) -> int {
    year * 378691200 + match p.month {
        None => 0,
        Some(m) => (clamp(m as int, 1, 12) - 1) * 31557600 + match p.day {
            None => 0,
            Some(d) => (clamp(d as int, 1, 31) - 1) * 1036800 + match p.hour {
                None => 0,
                Some(h) => clamp(h as int, 0, 23) * 43200 + match p.minute {
                    None => 0,
                    Some(mi) => clamp(mi as int, 0, 59) * 720 + match p.second {
                        None => 0,
                        Some(s) => clamp(s as int, 0, 59) * 12,
                    },
                },
            },
        },
    }
}

/// Time of day of a start: hours, minutes and seconds that are given, each on its own.
pub open spec fn clock_units(p: DateParts) -> int {
    clamp(match p.hour { Some(h) => h as int, None => 0 }, 0, 23) * 43200
        + clamp(match p.minute { Some(m) => m as int, None => 0 }, 0, 59) * 720
        + clamp(match p.second { Some(s) => s as int, None => 0 }, 0, 59) * 12
}

/// Where a period's start is drawn: the start of its first day, plus its time of day.
pub open spec fn start_units(year: int, p: DateParts) -> int {
    point_units(year, DateParts { hour: None, minute: None, second: None, ..p }) + clock_units(p)
}

/// Where a period's end is drawn: with a time of day, like a start; otherwise the start
/// of its last day (31 December for a bare year, the month's last day for a month).
pub open spec fn end_units(year: int, p: DateParts) -> int {
    if p.hour is Some {
        start_units(year, p)
    } else {
        match p.month {
            None => year * 378691200 + 11 * 31557600 + 30 * 1036800,
            Some(m) => match p.day {
                None => year * 378691200 + (clamp(m as int, 1, 12) - 1) * 31557600
                    + (month_days(year, clamp(m as int, 1, 12)) - 1) * 1036800,
                Some(d) => year * 378691200 + (clamp(m as int, 1, 12) - 1) * 31557600
                    + (clamp(d as int, 1, 31) - 1) * 1036800,
            },
        }
    }
}

fn clamp_u8(v: u8, lo: u8, hi: u8) -> (r: i128)
    requires
        lo <= hi,
    ensures
        r == clamp(v as int, lo as int, hi as int),
{
    if v < lo { lo as i128 } else if v > hi { hi as i128 } else { v as i128 }
}

/// The axis position of a point in time (see [`point_units`]).
pub fn point_position(year: i64, p: DateParts) -> (r: i128)
    ensures
        r == point_units(year as int, p),
{
    let base = (year as i128) * UNITS_PER_YEAR;
    let rest: i128 = match p.month {
        None => 0,
        Some(m) => (clamp_u8(m, 1, 12) - 1) * UNITS_PER_MONTH + match p.day {
            None => 0,
            Some(d) => (clamp_u8(d, 1, 31) - 1) * UNITS_PER_DAY + match p.hour {
                None => 0,
                Some(h) => clamp_u8(h, 0, 23) * UNITS_PER_HOUR + match p.minute {
                    None => 0,
                    Some(mi) => clamp_u8(mi, 0, 59) * UNITS_PER_MINUTE + match p.second {
                        None => 0,
                        Some(s) => clamp_u8(s, 0, 59) * UNITS_PER_SECOND,
                    },
                },
            },
        },
    };
    base + rest
}

/// The axis position of a period's start (see [`start_units`]).
pub fn start_position(year: i64, p: DateParts) -> (r: i128)
    ensures
        r == start_units(year as int, p),
{
    let day_part = point_position(year, DateParts { hour: None, minute: None, second: None, ..p });
    let h = clamp_u8(match p.hour { Some(h) => h, None => 0 }, 0, 23);
    let mi = clamp_u8(match p.minute { Some(m) => m, None => 0 }, 0, 59);
    let s = clamp_u8(match p.second { Some(s) => s, None => 0 }, 0, 59);
    day_part + h * UNITS_PER_HOUR + mi * UNITS_PER_MINUTE + s * UNITS_PER_SECOND
}

/// The axis position of a period's end (see [`end_units`]).
pub fn end_position(year: i64, p: DateParts) -> (r: i128)
    ensures
        r == end_units(year as int, p),
{
    if p.hour.is_some() {
        return start_position(year, p);
    }
    let base = (year as i128) * UNITS_PER_YEAR;
    match p.month {
        None => base + 11 * UNITS_PER_MONTH + 30 * UNITS_PER_DAY,
        Some(m) => {
            let mc = clamp_u8(m, 1, 12);
            match p.day {
                None => {
                    let last = days_in_month(year, mc as u8) as i128;
                    base + (mc - 1) * UNITS_PER_MONTH + (last - 1) * UNITS_PER_DAY
                },
                Some(d) => base + (mc - 1) * UNITS_PER_MONTH + (clamp_u8(d, 1, 31) - 1) * UNITS_PER_DAY,
            }
        },
    }
}

/// The `[start, end]` axis interval of a span or ranged event (the end never before the
/// start); `None` for a point event.
pub open spec fn bar_units(item: ItemView) -> Option<(int, int)> {
    match item {
        ItemView::Span { start, start_at, end, end_at, .. } => {
            let s = start_units(start as int, start_at);
            let e = end_units(end as int, end_at);
            Some((s, if e > s { e } else { s }))
        },
        ItemView::EventRange { start, start_at, end, end_at, .. } => {
            let s = start_units(start as int, start_at);
            let e = end_units(end as int, end_at);
            Some((s, if e > s { e } else { s }))
        },
        ItemView::Event { .. } => None,
    }
}

/// The axis position where an item starts (a point event at its time).
pub open spec fn item_start_units(item: ItemView) -> int {
    match item {
        ItemView::Span { start, start_at, .. } => start_units(start as int, start_at),
        ItemView::EventRange { start, start_at, .. } => start_units(start as int, start_at),
        ItemView::Event { time, time_at, .. } => point_units(time as int, time_at),
    }
}

/// The axis interval of a span or ranged event.
pub fn bar_interval(item: &Item) -> (r: Option<(i128, i128)>)
    ensures
        match r {
            Some((s, e)) => bar_units(item@) == Some((s as int, e as int)),
            None => bar_units(item@) is None,
        },
{
    match item {
        Item::Span { start, start_at, end, end_at, .. } | Item::EventRange { start, start_at, end, end_at, .. } => {
            let s = start_position(*start, *start_at);
            let e = end_position(*end, *end_at);
            Some((s, if e > s { e } else { s }))
        },
        Item::Event { .. } => None,
    }
}

/// The axis position where an item starts.
pub fn item_start_position(item: &Item) -> (r: i128)
    ensures
        r == item_start_units(item@),
{
    match item {
        Item::Span { start, start_at, .. } | Item::EventRange { start, start_at, .. } => start_position(*start, *start_at),
        Item::Event { time, time_at, .. } => point_position(*time, *time_at),
    }
}

/// Order in which bars of a lane are stacked: by start, then end, then item index.
pub open spec fn bar_before(items: Seq<ItemView>, a: int, b: int) -> bool {
    match (bar_units(items[a]), bar_units(items[b])) {
        (Some((sa, ea)), Some((sb, eb))) => sa < sb || (sa == sb && (ea < eb || (ea == eb && a < b))),
        _ => false,
    }
}

/// `levels` is the first-fit stacking of every lane's bars taken in [`bar_before`]
/// order: a bar never shares a level with an earlier bar of its lane that it overlaps,
/// and every lower level holds an earlier bar of its lane that it overlaps. Point
/// events are at level 0.
pub open spec fn first_fit_levels(items: Seq<ItemView>, levels: Seq<usize>) -> bool {
    &&& levels.len() == items.len()
    &&& forall|i: int| 0 <= i < items.len() && bar_units(items[i]) is None ==> #[trigger] levels[i] == 0
    &&& forall|i: int, j: int| 0 <= i < items.len() && 0 <= j < items.len() && bar_before(items, j, i)
            && items[j].info().lane == items[i].info().lane && levels[i] == levels[j]
            ==> #[trigger] bar_units(items[j]).unwrap().1 <= #[trigger] bar_units(items[i]).unwrap().0
    &&& forall|i: int, l: int| 0 <= i < items.len() && 0 <= l < levels[i] ==> #[trigger] blocked_below(items, levels, i, l)
}

/// Some earlier bar of item `i`'s lane is at level `l` and overlaps item `i`.
pub open spec fn blocked_below(items: Seq<ItemView>, levels: Seq<usize>, i: int, l: int) -> bool {
    exists|j: int| 0 <= j < items.len() && bar_before(items, j, i) && items[j].info().lane == items[i].info().lane
        && #[trigger] levels[j] == l && bar_units(items[j]).unwrap().1 > bar_units(items[i]).unwrap().0
}

/// Two bars of one lane whose intervals overlap are never on the same level.
pub proof fn lemma_overlapping_bars_differ(items: Seq<ItemView>, levels: Seq<usize>, i: int, j: int)
    requires
        first_fit_levels(items, levels),
        0 <= i < items.len(),
        0 <= j < items.len(),
        i != j,
        items[i].info().lane == items[j].info().lane,
        bar_units(items[i]) matches Some((si, ei)) && bar_units(items[j]) matches Some((sj, ej)) && si < ej && sj < ei,
    ensures
        levels[i] != levels[j],
{
    if levels[i] == levels[j] {
        let (si, ei) = bar_units(items[i]).unwrap();
        let (sj, ej) = bar_units(items[j]).unwrap();
        if bar_before(items, j, i) {
            assert(bar_units(items[j]).unwrap().1 <= bar_units(items[i]).unwrap().0);
        } else {
            assert(bar_before(items, i, j));
            assert(bar_units(items[i]).unwrap().1 <= bar_units(items[j]).unwrap().0);
        }
    }
}

/// Bar `j` covers the moment `t` (in time units).
pub open spec fn active_at(items: Seq<ItemView>, j: int, t: int) -> bool {
    bar_units(items[j]) matches Some((s, e)) && s <= t < e
}

/// Some other bar of item `i`'s lane is on level `l` and still running when item `i`
/// starts.
pub open spec fn level_running_at_start(items: Seq<ItemView>, levels: Seq<usize>, i: int, l: int) -> bool {
    exists|j: int| 0 <= j < items.len() && j != i
        && items[j].info().lane == items[i].info().lane && #[trigger] levels[j] == l
        && active_at(items, j, bar_units(items[i]).unwrap().0)
}

/// The first-fit stacking uses no more levels than needed: below the level of any bar,
/// every level holds another bar of its lane that is still running when it starts, so
/// at that moment the lane has one running bar per level up to it; and bars of one lane
/// running at a common moment are all on different levels.
pub proof fn lemma_levels_are_tight(items: Seq<ItemView>, levels: Seq<usize>, i: int)
    requires
        first_fit_levels(items, levels),
        0 <= i < items.len(),
        bar_units(items[i]) is Some,
    ensures
        forall|l: int| 0 <= l < levels[i] ==> #[trigger] level_running_at_start(items, levels, i, l),
        forall|j: int, k: int, t: int| 0 <= j < items.len() && 0 <= k < items.len() && j != k
            && items[j].info().lane == items[k].info().lane
            && #[trigger] active_at(items, j, t) && #[trigger] active_at(items, k, t)
            ==> levels[j] != levels[k],
{
    assert forall|l: int| 0 <= l < levels[i] implies #[trigger] level_running_at_start(items, levels, i, l) by {
        assert(blocked_below(items, levels, i, l));
        let j = choose|j: int| 0 <= j < items.len() && bar_before(items, j, i) && items[j].info().lane == items[i].info().lane
            && #[trigger] levels[j] == l && bar_units(items[j]).unwrap().1 > bar_units(items[i]).unwrap().0;
        if j == i {
            assert(!bar_before(items, i, i));
        }
        assert(active_at(items, j, bar_units(items[i]).unwrap().0));
    }
    assert forall|j: int, k: int, t: int| 0 <= j < items.len() && 0 <= k < items.len() && j != k
        && items[j].info().lane == items[k].info().lane
        && #[trigger] active_at(items, j, t) && #[trigger] active_at(items, k, t)
        implies levels[j] != levels[k] by {
        lemma_overlapping_bars_differ(items, levels, j, k);
    }
}

/// `keys` holds the bar interval of every item.
pub open spec fn keys_of(keys: Seq<Option<(i128, i128)>>, items: Seq<ItemView>) -> bool {
    &&& keys.len() == items.len()
    &&& forall|i: int| 0 <= i < items.len() ==> match #[trigger] keys[i] {
        Some((s, e)) => bar_units(items[i]) == Some((s as int, e as int)),
        None => bar_units(items[i]) is None,
    }
}

/// Stacking order on the bars described by `keys`: start, end, then index.
pub open spec fn key_before(keys: Seq<Option<(i128, i128)>>, a: int, b: int) -> bool {
    match (keys[a], keys[b]) {
        (Some((sa, ea)), Some((sb, eb))) => sa < sb || (sa == sb && (ea < eb || (ea == eb && a < b))),
        _ => false,
    }
}

/// `order` lists every bar of `keys` exactly once, in [`key_before`] order.
pub open spec fn key_order(order: Seq<usize>, keys: Seq<Option<(i128, i128)>>) -> bool {
    &&& forall|k: int| 0 <= k < order.len() ==> (#[trigger] order[k]) < keys.len() && keys[order[k] as int] is Some
    &&& forall|a: int, b: int| 0 <= a < b < order.len() ==> key_before(keys, #[trigger] order[a] as int, #[trigger] order[b] as int)
    &&& forall|i: int| 0 <= i < keys.len() && keys[i] is Some ==> #[trigger] order.contains(i as usize)
}

fn key_less(keys: &Vec<Option<(i128, i128)>>, a: usize, b: usize) -> (r: bool)
    requires
        a < keys.len(),
        b < keys.len(),
    ensures
        r == key_before(keys@, a as int, b as int),
{
    match (keys[a], keys[b]) {
        (Some((sa, ea)), Some((sb, eb))) => sa < sb || (sa == sb && (ea < eb || (ea == eb && a < b))),
        _ => false,
    }
}

/// Inserts bar `i`, later than every listed bar by index, at its place in stacking order.
fn insert_bar(order: &mut Vec<usize>, keys: &Vec<Option<(i128, i128)>>, i: usize)
    requires
        i < keys.len(),
        keys@[i as int] is Some,
        forall|k: int| 0 <= k < old(order).len() ==> (#[trigger] old(order)@[k]) < i && keys@[old(order)@[k] as int] is Some,
        forall|a: int, b: int| 0 <= a < b < old(order).len() ==> key_before(keys@, #[trigger] old(order)@[a] as int, #[trigger] old(order)@[b] as int),
    ensures
        forall|k: int| 0 <= k < final(order).len() ==> (#[trigger] final(order)@[k]) <= i && keys@[final(order)@[k] as int] is Some,
        forall|a: int, b: int| 0 <= a < b < final(order).len() ==> key_before(keys@, #[trigger] final(order)@[a] as int, #[trigger] final(order)@[b] as int),
        forall|j: usize| #[trigger] final(order)@.contains(j) <==> (old(order)@.contains(j) || j == i),
{
    let ghost kv = keys@;
    let mut p: usize = 0;
    let mut stop = false;
    while p < order.len() && !stop
        invariant
            p <= order.len(),
            i < keys.len(),
            kv == keys@,
            order@ == old(order)@,
            forall|k: int| 0 <= k < order.len() ==> (#[trigger] order@[k]) < i && kv[order@[k] as int] is Some,
            stop ==> p < order.len() && key_before(kv, i as int, order@[p as int] as int),
            forall|k: int| 0 <= k < p ==> !key_before(kv, i as int, #[trigger] order@[k] as int),
        decreases order.len() - p + (if stop { 0int } else { 1int }),
    {
        if key_less(keys, i, order[p]) {
            stop = true;
        } else {
            p = p + 1;
        }
    }
    let ghost before = order@;
    proof {
        assert forall|k: int| p <= k < before.len() implies key_before(kv, i as int, #[trigger] before[k] as int) by {
            if k > p {
                assert(key_before(kv, before[p as int] as int, before[k] as int));
            }
        }
        assert forall|k: int| 0 <= k < p implies key_before(kv, #[trigger] before[k] as int, i as int) by {
            assert(!key_before(kv, i as int, before[k] as int));
        }
    }
    order.insert(p, i);
    proof {
        assert forall|a: int, b: int| 0 <= a < b < order.len() implies key_before(kv, #[trigger] order@[a] as int, #[trigger] order@[b] as int) by {
            if a < p && b < p {
                assert(order@[a] == before[a] && order@[b] == before[b]);
            } else if a < p && b == p {
                assert(order@[a] == before[a]);
            } else if a < p {
                assert(order@[a] == before[a] && order@[b] == before[b - 1]);
                assert(key_before(kv, before[a] as int, i as int));
            } else if a == p {
                assert(order@[b] == before[b - 1]);
            } else {
                assert(order@[a] == before[a - 1] && order@[b] == before[b - 1]);
            }
        }
        assert forall|k: int| 0 <= k < order.len() implies (#[trigger] order@[k]) <= i && kv[order@[k] as int] is Some by {
            if k < p {
                assert(order@[k] == before[k]);
            } else if k > p {
                assert(order@[k] == before[k - 1]);
            }
        }
        assert forall|j: usize| #[trigger] order@.contains(j) <==> (before.contains(j) || j == i) by {
            if order@.contains(j) {
                let k = choose|k: int| 0 <= k < order.len() && order@[k] == j;
                if k < p {
                    assert(before[k] == j);
                } else if k > p {
                    assert(before[k - 1] == j);
                }
            }
            if before.contains(j) {
                let k = choose|k: int| 0 <= k < before.len() && before[k] == j;
                if k < p {
                    assert(order@[k] == j);
                } else {
                    assert(order@[k + 1] == j);
                }
            }
            if j == i {
                assert(order@[p as int] == i);
            }
        }
    }
}

/// The bars of `keys`, sorted by start, end and index.
fn sort_bars(keys: &Vec<Option<(i128, i128)>>) -> (order: Vec<usize>)
    ensures
        key_order(order@, keys@),
{
    let mut order: Vec<usize> = Vec::new();
    let mut i: usize = 0;
    while i < keys.len()
        invariant
            i <= keys.len(),
            forall|k: int| 0 <= k < order.len() ==> (#[trigger] order@[k]) < i && keys@[order@[k] as int] is Some,
            forall|a: int, b: int| 0 <= a < b < order.len() ==> key_before(keys@, #[trigger] order@[a] as int, #[trigger] order@[b] as int),
            forall|j: int| 0 <= j < i && keys@[j] is Some ==> #[trigger] order@.contains(j as usize),
        decreases keys.len() - i,
    {
        if keys[i].is_some() {
            let ghost before = order@;
            insert_bar(&mut order, keys, i);
            proof {
                assert forall|j: int| 0 <= j < i + 1 && keys@[j] is Some implies #[trigger] order@.contains(j as usize) by {
                    if j < i {
                        assert(before.contains(j as usize));
                    }
                }
            }
        }
        i = i + 1;
    }
    order
}

/// Lane of item `i`.
pub open spec fn lane_at(items: Seq<ItemView>, i: int) -> Seq<char> {
    items[i].info().lane
}

/// Among the first `q` bars of `order`, one in the lane of item `x` is at level `l` and
/// ends after `s`.
pub open spec fn level_taken(items: Seq<ItemView>, keys: Seq<Option<(i128, i128)>>, order: Seq<usize>, levels: Seq<usize>,
    q: int, x: int, l: int) -> bool
{
    exists|q1: int| 0 <= q1 < q && lane_at(items, #[trigger] order[q1] as int) == lane_at(items, x)
        && levels[order[q1] as int] == l && keys[order[q1] as int].unwrap().1 > keys[x].unwrap().0
}

/// Greedy first-fit in stacking order, stated by positions in `order`.
pub open spec fn greedy_done(items: Seq<ItemView>, keys: Seq<Option<(i128, i128)>>, order: Seq<usize>, levels: Seq<usize>, q: int) -> bool {
    &&& forall|q1: int, q2: int| 0 <= q1 < q2 < q && lane_at(items, order[q1] as int) == lane_at(items, order[q2] as int)
            && #[trigger] levels[order[q1] as int] == #[trigger] levels[order[q2] as int]
            ==> keys[order[q1] as int].unwrap().1 <= keys[order[q2] as int].unwrap().0
    &&& forall|q2: int, l: int| 0 <= q2 < q && 0 <= l < levels[order[q2] as int]
            ==> #[trigger] level_taken(items, keys, order, levels, q2, order[q2] as int, l)
    &&& forall|q1: int| 0 <= q1 < q ==> #[trigger] levels[order[q1] as int] <= q1
}

fn is_level_taken(items: &Vec<Item>, keys: &Vec<Option<(i128, i128)>>, order: &Vec<usize>, levels: &Vec<usize>,
    q: usize, x: usize, l: usize) -> (r: bool)
    requires
        q <= order.len(),
        x < keys.len(),
        keys@[x as int] is Some,
        keys.len() == items.len(),
        levels.len() == items.len(),
        key_order(order@, keys@),
    ensures
        r == level_taken(items_view(items@), keys@, order@, levels@, q as int, x as int, l as int),
{
    let ghost iv = items_view(items@);
    let sx = match keys[x] { Some((s, _)) => s, None => 0 };
    let mut k: usize = 0;
    while k < q
        invariant
            k <= q,
            q <= order.len(),
            iv == items_view(items@),
            keys.len() == items.len(),
            levels.len() == items.len(),
            key_order(order@, keys@),
            sx == keys@[x as int].unwrap().0,
            x < items.len(),
            forall|q1: int| 0 <= q1 < k ==> !(lane_at(iv, #[trigger] order@[q1] as int) == lane_at(iv, x as int)
                && levels@[order@[q1] as int] == l && keys@[order@[q1] as int].unwrap().1 > sx),
        decreases q - k,
    {
        let y = order[k];
        let ey = match keys[y] { Some((_, e)) => e, None => 0 };
        if levels[y] == l && ey > sx && str_eq(items[y].lane_id(), items[x].lane_id()) {
            assert(lane_at(iv, order@[k as int] as int) == lane_at(iv, x as int));
            return true;
        }
        k = k + 1;
    }
    false
}

/// First-fit levels of the bars taken in `order` (stacking order).
#[verifier::rlimit(60)]
fn greedy_levels(items: &Vec<Item>, keys: &Vec<Option<(i128, i128)>>, order: &Vec<usize>) -> (levels: Vec<usize>)
    requires
        keys.len() == items.len(),
        key_order(order@, keys@),
    ensures
        levels.len() == items.len(),
        forall|i: int| 0 <= i < items.len() && keys@[i] is None ==> #[trigger] levels@[i] == 0,
        greedy_done(items_view(items@), keys@, order@, levels@, order.len() as int),
{
    let ghost iv = items_view(items@);
    let mut levels: Vec<usize> = Vec::new();
    let mut i: usize = 0;
    while i < items.len()
        invariant
            i <= items.len(),
            levels.len() == i,
            forall|j: int| 0 <= j < i ==> #[trigger] levels@[j] == 0,
        decreases items.len() - i,
    {
        levels.push(0);
        i = i + 1;
    }
    let mut q: usize = 0;
    while q < order.len()
        invariant
            q <= order.len(),
            iv == items_view(items@),
            keys.len() == items.len(),
            levels.len() == items.len(),
            key_order(order@, keys@),
            forall|i: int| 0 <= i < items.len() && keys@[i] is None ==> #[trigger] levels@[i] == 0,
            greedy_done(iv, keys@, order@, levels@, q as int),
        decreases order.len() - q,
    {
        let x = order[q];
        let mut l: usize = 0;
        while is_level_taken(items, keys, order, &levels, q, x, l)
            invariant
                q < order.len(),
                x == order@[q as int],
                x < items.len(),
                keys@[x as int] is Some,
                iv == items_view(items@),
                keys.len() == items.len(),
                levels.len() == items.len(),
                key_order(order@, keys@),
                greedy_done(iv, keys@, order@, levels@, q as int),
                l <= q,
                forall|l2: int| 0 <= l2 < l ==> #[trigger] level_taken(iv, keys@, order@, levels@, q as int, x as int, l2),
            decreases q - l,
        {
            proof {
                let q1 = choose|q1: int| 0 <= q1 < q && lane_at(iv, #[trigger] order@[q1] as int) == lane_at(iv, x as int)
                    && levels@[order@[q1] as int] == l && keys@[order@[q1] as int].unwrap().1 > keys@[x as int].unwrap().0;
                assert(levels@[order@[q1] as int] <= q1);
            }
            l = l + 1;
        }
        let ghost old_levels = levels@;
        proof {
            // `x` is not among the bars already placed.
            assert forall|q1: int| 0 <= q1 < q implies #[trigger] order@[q1] != x by {
                assert(key_before(keys@, order@[q1] as int, x as int));
            }
        }
        levels.set(x, l);
        proof {
            assert forall|q1: int| 0 <= q1 < q implies #[trigger] levels@[order@[q1] as int] == old_levels[order@[q1] as int] by {
                assert(order@[q1] != x);
            }
            assert forall|q2: int, l2: int| 0 <= q2 < q + 1 && 0 <= l2 < levels@[order@[q2] as int]
                implies #[trigger] level_taken(iv, keys@, order@, levels@, q2, order@[q2] as int, l2) by {
                if q2 < q {
                    assert(level_taken(iv, keys@, order@, old_levels, q2, order@[q2] as int, l2));
                    let q1 = choose|q1: int| 0 <= q1 < q2 && lane_at(iv, #[trigger] order@[q1] as int) == lane_at(iv, order@[q2] as int)
                        && old_levels[order@[q1] as int] == l2 && keys@[order@[q1] as int].unwrap().1 > keys@[order@[q2] as int].unwrap().0;
                    assert(levels@[order@[q1] as int] == old_levels[order@[q1] as int]);
                } else {
                    assert(level_taken(iv, keys@, order@, old_levels, q as int, x as int, l2));
                    let q1 = choose|q1: int| 0 <= q1 < q && lane_at(iv, #[trigger] order@[q1] as int) == lane_at(iv, x as int)
                        && old_levels[order@[q1] as int] == l2 && keys@[order@[q1] as int].unwrap().1 > keys@[x as int].unwrap().0;
                    assert(levels@[order@[q1] as int] == old_levels[order@[q1] as int]);
                }
            }
            assert forall|q1: int, q2: int| 0 <= q1 < q2 < q + 1 && lane_at(iv, order@[q1] as int) == lane_at(iv, order@[q2] as int)
                && #[trigger] levels@[order@[q1] as int] == #[trigger] levels@[order@[q2] as int]
                implies keys@[order@[q1] as int].unwrap().1 <= keys@[order@[q2] as int].unwrap().0 by {
                assert(levels@[order@[q1] as int] == old_levels[order@[q1] as int]);
                if q2 < q {
                    assert(levels@[order@[q2] as int] == old_levels[order@[q2] as int]);
                } else {
                    if keys@[order@[q1] as int].unwrap().1 > keys@[order@[q2] as int].unwrap().0 {
                        assert(level_taken(iv, keys@, order@, old_levels, q as int, x as int, l as int));
                    }
                }
            }
            assert forall|q1: int| 0 <= q1 < q + 1 implies #[trigger] levels@[order@[q1] as int] <= q1 by {
                if q1 < q {
                    assert(levels@[order@[q1] as int] == old_levels[order@[q1] as int]);
                }
            }
            assert forall|i: int| 0 <= i < items.len() && keys@[i] is None implies #[trigger] levels@[i] == 0 by {
                assert(i != x);
            }
        }
        q = q + 1;
    }
    levels
}

/// Stacks the bars (spans and ranged events) of every lane into sub-rows: each bar, in
/// order of start, end and index, goes to the lowest level where it overlaps no earlier
/// bar of its lane (see [`first_fit_levels`]). Point events stay at level 0.
pub fn assign_bar_stack_levels(items: &Vec<Item>) -> (levels: Vec<usize>)
    ensures
        first_fit_levels(items_view(items@), levels@),
        // Two bars of one lane on the same level never overlap.
        forall|i: int, j: int| #![trigger levels@[i], levels@[j]]
            0 <= i < items.len() && 0 <= j < items.len() && i != j
            && items_view(items@)[i].info().lane == items_view(items@)[j].info().lane
            && bar_units(items_view(items@)[i]) is Some && bar_units(items_view(items@)[j]) is Some
            && levels@[i] == levels@[j]
            ==> bar_units(items_view(items@)[i]).unwrap().1 <= bar_units(items_view(items@)[j]).unwrap().0
                || bar_units(items_view(items@)[j]).unwrap().1 <= bar_units(items_view(items@)[i]).unwrap().0,
{
    let ghost iv = items_view(items@);
    let mut keys: Vec<Option<(i128, i128)>> = Vec::new();
    let mut i: usize = 0;
    while i < items.len()
        invariant
            i <= items.len(),
            iv == items_view(items@),
            keys.len() == i,
            forall|j: int| 0 <= j < i ==> match #[trigger] keys@[j] {
                Some((s, e)) => bar_units(iv[j]) == Some((s as int, e as int)),
                None => bar_units(iv[j]) is None,
            },
        decreases items.len() - i,
    {
        keys.push(bar_interval(&items[i]));
        i = i + 1;
    }
    assert(keys_of(keys@, iv));
    let order = sort_bars(&keys);
    let levels = greedy_levels(items, &keys, &order);
    proof {
        lemma_first_fit_from_greedy(iv, keys@, order@, levels@);
        assert forall|i: int, j: int| #![trigger levels@[i], levels@[j]]
            0 <= i < items.len() && 0 <= j < items.len() && i != j
            && iv[i].info().lane == iv[j].info().lane
            && bar_units(iv[i]) is Some && bar_units(iv[j]) is Some
            && levels@[i] == levels@[j]
            implies bar_units(iv[i]).unwrap().1 <= bar_units(iv[j]).unwrap().0
                || bar_units(iv[j]).unwrap().1 <= bar_units(iv[i]).unwrap().0 by {
            let (si, ei) = bar_units(iv[i]).unwrap();
            let (sj, ej) = bar_units(iv[j]).unwrap();
            if si < ej && sj < ei {
                lemma_overlapping_bars_differ(iv, levels@, i, j);
            }
        }
    }
    levels
}

/// Greedy placement along a stacking order is the first-fit stacking.
proof fn lemma_first_fit_from_greedy(iv: Seq<ItemView>, keys: Seq<Option<(i128, i128)>>, order: Seq<usize>, levels: Seq<usize>)
    requires
        keys_of(keys, iv),
        key_order(order, keys),
        iv.len() <= usize::MAX,
        levels.len() == iv.len(),
        forall|i: int| 0 <= i < iv.len() && keys[i] is None ==> #[trigger] levels[i] == 0,
        greedy_done(iv, keys, order, levels, order.len() as int),
    ensures
        first_fit_levels(iv, levels),
{
    assert forall|a: int, b: int| 0 <= a < iv.len() && 0 <= b < iv.len() implies
        #[trigger] key_before(keys, a, b) == bar_before(iv, a, b) by {
        assert(keys[a] == keys[a] && keys[b] == keys[b]);
    }
    assert forall|i: int| 0 <= i < iv.len() && bar_units(iv[i]) is None implies #[trigger] levels[i] == 0 by {
        assert(keys[i] == keys[i]);
    }
    assert forall|i: int, j: int| 0 <= i < iv.len() && 0 <= j < iv.len() && bar_before(iv, j, i)
        && iv[j].info().lane == iv[i].info().lane && levels[i] == levels[j]
        implies #[trigger] bar_units(iv[j]).unwrap().1 <= #[trigger] bar_units(iv[i]).unwrap().0 by {
        assert(keys[i] == keys[i] && keys[j] == keys[j]);
        assert(key_before(keys, j, i));
        assert(order.contains(i as usize) && order.contains(j as usize));
        let pi = choose|k: int| 0 <= k < order.len() && order[k] == i as usize;
        let pj = choose|k: int| 0 <= k < order.len() && order[k] == j as usize;
        if pi < pj {
            assert(key_before(keys, order[pi] as int, order[pj] as int));
        } else if pi == pj {
        } else {
            assert(lane_at(iv, order[pj] as int) == lane_at(iv, order[pi] as int));
            assert(levels[order[pj] as int] == levels[order[pi] as int]);
        }
    }
    assert forall|i: int, l: int| 0 <= i < iv.len() && 0 <= l < levels[i] implies #[trigger] blocked_below(iv, levels, i, l) by {
        assert(keys[i] == keys[i]);
        assert(keys[i] is Some);
        assert(order.contains(i as usize));
        let pi = choose|k: int| 0 <= k < order.len() && order[k] == i as usize;
        assert(level_taken(iv, keys, order, levels, pi, order[pi] as int, l));
        let q1 = choose|q1: int| 0 <= q1 < pi && lane_at(iv, #[trigger] order[q1] as int) == lane_at(iv, order[pi] as int)
            && levels[order[q1] as int] == l && keys[order[q1] as int].unwrap().1 > keys[order[pi] as int].unwrap().0;
        let j = order[q1] as int;
        assert(keys[j] == keys[j]);
        assert(key_before(keys, j, i));
        assert(bar_before(iv, j, i));
    }
}

/// Highest stacking level among the bars of lane `lane` (0 when it has none).
pub open spec fn lane_max_level(items: Seq<ItemView>, levels: Seq<usize>, lane: Seq<char>, n: int) -> int
    decreases n,
{
    if n <= 0 {
        0
    } else {
        let rest = lane_max_level(items, levels, lane, n - 1);
        if bar_units(items[n - 1]) is Some && items[n - 1].info().lane == lane && levels[n - 1] > rest {
            levels[n - 1] as int
        } else {
            rest
        }
    }
}

/// The highest stacking level in a lane, which decides how much the lane grows.
pub fn lane_max_stack_level(items: &Vec<Item>, levels: &Vec<usize>, lane: &str) -> (r: usize)
    requires
        levels.len() == items.len(),
    ensures
        r == lane_max_level(items_view(items@), levels@, lane@, items.len() as int),
{
    let ghost iv = items_view(items@);
    let mut r: usize = 0;
    let mut i: usize = 0;
    while i < items.len()
        invariant
            i <= items.len(),
            levels.len() == items.len(),
            iv == items_view(items@),
            r == lane_max_level(iv, levels@, lane@, i as int),
        decreases items.len() - i,
    {
        let is_bar = bar_interval(&items[i]).is_some();
        if is_bar && str_eq(items[i].lane_id(), lane) && levels[i] > r {
            r = levels[i];
        }
        i = i + 1;
    }
    r
}

/// Order of items within a lane for zigzag placement: by start position, then index.
pub open spec fn zig_before(items: Seq<ItemView>, j: int, i: int) -> bool {
    item_start_units(items[j]) < item_start_units(items[i])
        || (item_start_units(items[j]) == item_start_units(items[i]) && j < i)
}

/// Number of items among the first `n` that share item `i`'s lane and come before it.
pub open spec fn rank_in_lane(items: Seq<ItemView>, i: int, n: int) -> int
    decreases n,
{
    if n <= 0 {
        0
    } else {
        rank_in_lane(items, i, n - 1)
            + if items[n - 1].info().lane == items[i].info().lane && zig_before(items, n - 1, i) { 1int } else { 0int }
    }
}

proof fn lemma_rank_after_predecessor(items: Seq<ItemView>, i: int, j: int, n: int)
    requires
        0 <= i < items.len(),
        0 <= j < items.len(),
        0 <= n <= items.len(),
        items[j].info().lane == items[i].info().lane,
        zig_before(items, j, i),
        forall|k: int| 0 <= k < items.len() && items[k].info().lane == items[i].info().lane && #[trigger] zig_before(items, j, k)
            ==> !zig_before(items, k, i),
    ensures
        rank_in_lane(items, i, n) == rank_in_lane(items, j, n) + if j < n { 1int } else { 0int },
    decreases n,
{
    if n > 0 {
        lemma_rank_after_predecessor(items, i, j, n - 1);
        let m = n - 1;
        if items[m].info().lane == items[i].info().lane && m != j {
            if zig_before(items, m, i) && !zig_before(items, m, j) {
                assert(zig_before(items, j, m));
            }
        }
    }
}

/// Zigzag sides alternate along each lane: the earliest item of a lane (by start, then
/// index) is on the `true` side, and an item directly following another of its lane in
/// that order is on the other side.
pub proof fn lemma_zigzag_alternates(items: Seq<ItemView>, i: int, j: int)
    requires
        0 <= i < items.len(),
        0 <= j < items.len(),
    ensures
        (forall|k: int| 0 <= k < items.len() && items[k].info().lane == items[i].info().lane ==> !#[trigger] zig_before(items, k, i))
            ==> rank_in_lane(items, i, items.len() as int) == 0,
        items[j].info().lane == items[i].info().lane && zig_before(items, j, i)
            && (forall|k: int| 0 <= k < items.len() && items[k].info().lane == items[i].info().lane && #[trigger] zig_before(items, j, k)
                ==> !zig_before(items, k, i))
            ==> rank_in_lane(items, i, items.len() as int) == rank_in_lane(items, j, items.len() as int) + 1,
{
    if forall|k: int| 0 <= k < items.len() && items[k].info().lane == items[i].info().lane ==> !#[trigger] zig_before(items, k, i) {
        lemma_rank_zero_when_first(items, i, items.len() as int);
    }
    if items[j].info().lane == items[i].info().lane && zig_before(items, j, i)
        && (forall|k: int| 0 <= k < items.len() && items[k].info().lane == items[i].info().lane && #[trigger] zig_before(items, j, k)
            ==> !zig_before(items, k, i)) {
        lemma_rank_after_predecessor(items, i, j, items.len() as int);
    }
}

proof fn lemma_rank_zero_when_first(items: Seq<ItemView>, i: int, n: int)
    requires
        0 <= i < items.len(),
        0 <= n <= items.len(),
        forall|k: int| 0 <= k < items.len() && items[k].info().lane == items[i].info().lane ==> !#[trigger] zig_before(items, k, i),
    ensures
        rank_in_lane(items, i, n) == 0,
    decreases n,
{
    if n > 0 {
        lemma_rank_zero_when_first(items, i, n - 1);
        let m = n - 1;
        if items[m].info().lane == items[i].info().lane {
            assert(!zig_before(items, m, i));
        }
    }
}

/// Zigzag side of every item: within each lane, items sorted by start (then index)
/// alternate, the first on the `true` side.
pub fn assign_zigzag_parity(items: &Vec<Item>) -> (parity: Vec<bool>)
    ensures
        parity.len() == items.len(),
        forall|i: int| 0 <= i < items.len() ==> #[trigger] parity@[i]
            == (rank_in_lane(items_view(items@), i, items.len() as int) % 2 == 0),
{
    let ghost iv = items_view(items@);
    let mut starts: Vec<i128> = Vec::new();
    let mut k: usize = 0;
    while k < items.len()
        invariant
            k <= items.len(),
            iv == items_view(items@),
            starts.len() == k,
            forall|j: int| 0 <= j < k ==> #[trigger] starts@[j] == item_start_units(iv[j]),
        decreases items.len() - k,
    {
        starts.push(item_start_position(&items[k]));
        k = k + 1;
    }
    let mut parity: Vec<bool> = Vec::new();
    let mut i: usize = 0;
    while i < items.len()
        invariant
            i <= items.len(),
            iv == items_view(items@),
            starts.len() == items.len(),
            forall|j: int| 0 <= j < items.len() ==> #[trigger] starts@[j] == item_start_units(iv[j]),
            parity.len() == i,
            forall|j: int| 0 <= j < i ==> #[trigger] parity@[j] == (rank_in_lane(iv, j, items.len() as int) % 2 == 0),
        decreases items.len() - i,
    {
        let mut count: usize = 0;
        let mut j: usize = 0;
        while j < items.len()
            invariant
                j <= items.len(),
                i < items.len(),
                iv == items_view(items@),
                starts.len() == items.len(),
                forall|m: int| 0 <= m < items.len() ==> #[trigger] starts@[m] == item_start_units(iv[m]),
                count == rank_in_lane(iv, i as int, j as int),
                count <= j,
            decreases items.len() - j,
        {
            let before = starts[j] < starts[i] || (starts[j] == starts[i] && j < i);
            if before && str_eq(items[j].lane_id(), items[i].lane_id()) {
                count = count + 1;
            }
            j = j + 1;
        }
        parity.push(count % 2 == 0);
        i = i + 1;
    }
    parity
}

} // verus!