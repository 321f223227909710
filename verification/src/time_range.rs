//! Splitting a timeline into chart pages along the time axis.
//!
//! The declared year range is cut into `page_count` contiguous, non-empty integer-year
//! segments; every page keeps all lanes and items. Bars that straddle an interior
//! boundary are reported, and each page can say which bars continue beyond its edges.

use vstd::prelude::*;
use crate::ir::{DateParts, Item, ItemView, Meta, TimelineIr, TimelineIrView, clone_lanes, clone_items, clone_imports, clone_sources};
use crate::layout::RenderError;
use crate::pagination::ChartPage;

verus! {

/// Why time-range pagination failed.
#[derive(Debug)]
pub enum TimeRangePaginationError {
    /// `page_count` was 0.
    InvalidPageCount,
    /// The range is empty (`end <= start`).
    EmptyRange { start: i64, end: i64 },
    /// The range has fewer distinct year boundaries than pages need.
    RangeTooNarrowForPageCount { start: i64, end: i64, span: i64, page_count: usize },
    /// `page_index` is not below `page_count`.
    InvalidPageIndex { page_index: usize, page_count: usize },
    /// Rendering a page failed.
    Render(RenderError),
}

/// Boundary `i` of an `n`-way split of a range of `span` years starting at `start`:
/// every segment is `span / n` years long, and the first `span % n` segments are one
/// year longer, so the split is as even as possible and earlier segments absorb the
/// remainder.
pub open spec fn boundary(start: int, span: int, n: int, i: int) -> int {
    start + i * (span / n) + if i < span % n { i } else { span % n }
}

/// All `n + 1` boundaries of an `n`-way split of `range`.
pub open spec fn boundaries_of(range: (i64, i64), n: int) -> Seq<int> {
    Seq::new((n + 1) as nat, |i: int| boundary(range.0 as int, range.1 - range.0, n, i))
}

/// Every boundary is strictly greater than the one before.
pub open spec fn strictly_increasing(b: Seq<int>) -> bool {
    forall|i: int| 0 <= i < b.len() - 1 ==> #[trigger] b[i] < b[i + 1]
}

pub open spec fn i64s_view(v: Seq<i64>) -> Seq<int> {
    Seq::new(v.len(), |i: int| v[i] as int)
}

/// Years from the range start to boundary `i`: `i·(span / n)` plus one year for each
/// of the first `i` segments that absorbs part of the remainder.
fn share_before(span: u64, n: u64, i: u64) -> (r: u64)
    requires
        n >= 1,
        i <= n,
    ensures
        r == i * (span / n) + if i < span % n { i as int } else { (span % n) as int },
        r <= span,
{
    let q = span / n;
    let rem = span % n;
    proof {
        vstd::arithmetic::div_mod::lemma_fundamental_div_mod(span as int, n as int);
        assert(q * i <= q * n) by (nonlinear_arith) requires i <= n, q >= 0;
        assert(q * n == n * q) by (nonlinear_arith);
        assert(q * i == i * q) by (nonlinear_arith);
    }
    let extra: u64 = if i < rem { i } else { rem };
    q * i + extra
}

/// The `page_count + 1` integer-year boundaries that split `range` into `page_count`
/// segments as evenly as possible, earlier segments absorbing the remainder (see
/// [`boundary`]); an error when the range is empty or too narrow for every segment to
/// be non-empty.
pub fn segment_boundaries(range: (i64, i64), page_count: usize) -> (r: Result<Vec<i64>, TimeRangePaginationError>)
    requires
        range.1 - range.0 <= i64::MAX,
        page_count < usize::MAX,
    ensures
        range.1 <= range.0 <==> (r matches Err(TimeRangePaginationError::EmptyRange { start, end })
            && start == range.0 && end == range.1),
        range.1 > range.0 && page_count == 0 ==> (r matches Ok(b) && b@ == seq![range.0]),
        range.1 > range.0 && page_count > 0 && strictly_increasing(boundaries_of(range, page_count as int))
            ==> (r matches Ok(v) && i64s_view(v@) == boundaries_of(range, page_count as int)),
        range.1 > range.0 && page_count > 0 && !strictly_increasing(boundaries_of(range, page_count as int))
            ==> (r matches Err(TimeRangePaginationError::RangeTooNarrowForPageCount { start, end, span, page_count: pc })
                && start == range.0 && end == range.1 && span == range.1 - range.0 && pc == page_count),
{
    let (start, end) = range;
    if end <= start {
        return Err(TimeRangePaginationError::EmptyRange { start, end });
    }
    let span: u64 = ((end as i128) - (start as i128)) as u64;
    if page_count == 0 {
        let mut v: Vec<i64> = Vec::new();
        v.push(start);
        assert(v@ =~= seq![range.0]);
        return Ok(v);
    }
    let n = page_count as u64;
    let ghost b = boundaries_of(range, page_count as int);
    let mut v: Vec<i64> = Vec::new();
    let mut i: u64 = 0;
    while i <= n
        invariant
            n == page_count,
            n >= 1,
            span == end - start,
            start == range.0 && end == range.1,
            b == boundaries_of(range, page_count as int),
            i <= n + 1,
            n < u64::MAX,
            v.len() == i,
            forall|k: int| 0 <= k < i ==> #[trigger] v@[k] as int == b[k],
        decreases n + 1 - i,
    {
        let share = share_before(span, n, i);
        let val = ((start as i128) + (share as i128)) as i64;
        assert(val as int == start as int + share as int);
        assert(val as int == b[i as int]);
        v.push(val);
        i = i + 1;
    }
    assert(i64s_view(v@) =~= b);
    let mut k: usize = 0;
    while k + 1 < v.len()
        invariant
            v.len() == page_count + 1,
            start == range.0 && end == range.1,
            range.1 > range.0,
            range.1 - range.0 <= i64::MAX,
            b == boundaries_of(range, page_count as int),
            i64s_view(v@) == b,
            k + 1 <= v.len(),
            forall|j: int| 0 <= j < k ==> #[trigger] b[j] < b[j + 1],
        decreases v.len() - k,
    {
        if v[k + 1] <= v[k] {
            assert(b[k as int] >= b[k + 1]);
            return Err(TimeRangePaginationError::RangeTooNarrowForPageCount {
                start,
                end,
                span: end - start,
                page_count,
            });
        }
        k = k + 1;
    }
    Ok(v)
}

/// The first boundary is the range start and the last is the range end; the segments
/// cover the range exactly.
pub proof fn lemma_boundaries_cover_range(range: (i64, i64), n: int)
    requires
        range.1 > range.0,
        n >= 1,
    ensures
        boundaries_of(range, n)[0] == range.0,
        boundaries_of(range, n)[n] == range.1,
{
    let span = range.1 - range.0;
    vstd::arithmetic::div_mod::lemma_fundamental_div_mod(span, n);
    assert(n * (span / n) == (span / n) * n) by (nonlinear_arith);
}

/// Segment `i` of an `n`-way split is `span / n + 1` years long when `i < span % n` and
/// `span / n` years long otherwise: the earlier segments absorb the remainder.
pub proof fn lemma_segment_lengths(range: (i64, i64), n: int, i: int)
    requires
        range.1 > range.0,
        n >= 1,
        0 <= i < n,
    ensures
        ({
            let b = boundaries_of(range, n);
            let span = range.1 - range.0;
            b[i + 1] - b[i] == span / n + if i < span % n { 1int } else { 0int }
        }),
{
    let span = range.1 - range.0;
    let q = span / n;
    assert((i + 1) * q == i * q + q) by (nonlinear_arith);
}

/// Splitting succeeds exactly when the range has at least one year per page.
pub proof fn lemma_split_possible_iff_wide_enough(range: (i64, i64), n: int)
    requires
        range.1 > range.0,
        n >= 1,
    ensures
        strictly_increasing(boundaries_of(range, n)) <==> range.1 - range.0 >= n,
{
    let span = range.1 - range.0;
    let b = boundaries_of(range, n);
    if span >= n {
        assert(span / n >= 1) by {
            vstd::arithmetic::div_mod::lemma_div_is_ordered(n, span, n);
            vstd::arithmetic::div_mod::lemma_div_by_self(n);
        }
        assert forall|i: int| 0 <= i < b.len() - 1 implies #[trigger] b[i] < b[i + 1] by {
            lemma_segment_lengths(range, n, i);
        }
    } else {
        // With fewer years than pages, segment `span` (the first past the remainder)
        // has `span / n == 0` years.
        vstd::arithmetic::div_mod::lemma_basic_div(span, n);
        vstd::arithmetic::div_mod::lemma_small_mod(span as nat, n as nat);
        lemma_segment_lengths(range, n, span);
        assert(!(b[span] < b[span + 1]));
    }
}

/// The meta of a time-range page: the segment as its range, with no sub-year precision.
pub open spec fn page_meta(meta: crate::ir::MetaView, seg: (i64, i64)) -> crate::ir::MetaView {
    crate::ir::MetaView {
        range: seg,
        range_start_at: crate::ir::no_parts(),
        range_end_at: crate::ir::no_parts(),
        ..meta
    }
}

/// One page of a time-range split: the segment and its timeline.
pub struct TimeRangePage {
    pub range: (i64, i64),
    pub ir: TimelineIr,
}

/// Splits the declared range into `page_count` segments (see [`segment_boundaries`])
/// and builds one timeline per segment: all lanes and items, the segment as the range,
/// and no sub-year precision on the range (which would misdescribe the boundary).
pub fn split_ir_by_time_range(ir: &TimelineIr, page_count: usize) -> (r: Result<Vec<TimeRangePage>, TimeRangePaginationError>)
    requires
        ir@.meta.range.1 - ir@.meta.range.0 <= i64::MAX,
        page_count < usize::MAX,
    ensures
        page_count == 0 <==> r matches Err(TimeRangePaginationError::InvalidPageCount),
        page_count > 0 && ir@.meta.range.1 <= ir@.meta.range.0 ==> r matches Err(TimeRangePaginationError::EmptyRange { .. }),
        page_count > 0 && ir@.meta.range.1 > ir@.meta.range.0 ==> {
            let b = boundaries_of(ir@.meta.range, page_count as int);
            if strictly_increasing(b) {
                r matches Ok(pages) && pages.len() == page_count
                && forall|k: int| 0 <= k < pages.len() ==> {
                    let p = #[trigger] pages@[k];
                    &&& p.range.0 == b[k] && p.range.1 == b[k + 1]
                    &&& p.ir@.meta == page_meta(ir@.meta, p.range)
                    &&& p.ir@.lanes == ir@.lanes
                    &&& p.ir@.items == ir@.items
                    &&& p.ir@.imports == ir@.imports
                    &&& p.ir@.sources == ir@.sources
                }
            } else {
                r matches Err(TimeRangePaginationError::RangeTooNarrowForPageCount { .. })
            }
        },
{
    if page_count == 0 {
        return Err(TimeRangePaginationError::InvalidPageCount);
    }
    let boundaries = match segment_boundaries(ir.meta.range, page_count) {
        Ok(b) => b,
        Err(e) => return Err(e),
    };
    let ghost b = boundaries_of(ir@.meta.range, page_count as int);
    assert(i64s_view(boundaries@) == b);
    assert(boundaries@.len() == i64s_view(boundaries@).len());
    let mut pages: Vec<TimeRangePage> = Vec::new();
    let mut k: usize = 0;
    while k < page_count
        invariant
            boundaries.len() == page_count + 1,
            i64s_view(boundaries@) == b,
            k <= page_count,
            pages.len() == k,
            forall|j: int| 0 <= j < k ==> {
                let p = #[trigger] pages@[j];
                &&& p.range.0 == b[j] && p.range.1 == b[j + 1]
                &&& p.ir@.meta == page_meta(ir@.meta, p.range)
                &&& p.ir@.lanes == ir@.lanes
                &&& p.ir@.items == ir@.items
                &&& p.ir@.imports == ir@.imports
                &&& p.ir@.sources == ir@.sources
            },
        decreases page_count - k,
    {
        let seg = (boundaries[k], boundaries[k + 1]);
        assert(seg.0 as int == b[k as int] && seg.1 as int == b[k + 1]);
        let meta = Meta {
            title: ir.meta.title.clone(),
            unit: ir.meta.unit.clone(),
            range: seg,
            calendar: ir.meta.calendar.clone(),
            range_start_at: DateParts::year_only(),
            range_end_at: DateParts::year_only(),
        };
        let page_ir = TimelineIr {
            meta,
            lanes: clone_lanes(&ir.lanes),
            items: clone_items(&ir.items),
            imports: clone_imports(&ir.imports),
            sources: clone_sources(&ir.sources),
        };
        pages.push(TimeRangePage { range: seg, ir: page_ir });
        k = k + 1;
    }
    Ok(pages)
}

/// An item whose extent straddles an interior page boundary.
#[derive(Debug, PartialEq, Eq)]
pub struct BoundaryCrossingItem {
    pub id: String,
    pub start: i64,
    pub end: i64,
    /// The interior boundaries strictly inside `(start, end)`, ascending.
    pub crossed_boundaries: Vec<i64>,
}

/// The boundaries of `interior` strictly inside `(start, end)`, in order.
pub open spec fn crossed(interior: Seq<int>, start: int, end: int) -> Seq<int>
    decreases interior.len(),
{
    if interior.len() == 0 {
        Seq::empty()
    } else {
        crossed(interior.drop_last(), start, end)
            + if start < interior.last() && interior.last() < end { seq![interior.last()] } else { Seq::empty() }
    }
}

/// `(id, start, end, crossed boundaries)` of every span or ranged event that straddles
/// an interior boundary, in item order.
pub open spec fn crossings(items: Seq<ItemView>, interior: Seq<int>) -> Seq<(Seq<char>, int, int, Seq<int>)>
    decreases items.len(),
{
    if items.len() == 0 {
        Seq::empty()
    } else {
        let rest = crossings(items.drop_last(), interior);
        match items.last().extent() {
            Some((s, e)) => {
                let c = crossed(interior, s as int, e as int);
                if c.len() > 0 { rest.push((items.last().info().id, s as int, e as int, c)) } else { rest }
            },
            None => rest,
        }
    }
}

pub open spec fn crossing_view(c: BoundaryCrossingItem) -> (Seq<char>, int, int, Seq<int>) {
    (c.id@, c.start as int, c.end as int, i64s_view(c.crossed_boundaries@))
}

fn crossed_boundaries_of(interior: &[i64], start: i64, end: i64) -> (r: Vec<i64>)
    ensures
        i64s_view(r@) == crossed(i64s_view(interior@), start as int, end as int),
{
    let ghost iv = i64s_view(interior@);
    let mut r: Vec<i64> = Vec::new();
    let mut k: usize = 0;
    while k < interior.len()
        invariant
            k <= interior.len(),
            iv == i64s_view(interior@),
            i64s_view(r@) == crossed(iv.take(k as int), start as int, end as int),
        decreases interior.len() - k,
    {
        let b = interior[k];
        if start < b && b < end {
            r.push(b);
        }
        proof {
            assert(iv.take(k + 1).drop_last() =~= iv.take(k as int));
            assert(i64s_view(r@) =~= crossed(iv.take(k + 1), start as int, end as int));
        }
        k = k + 1;
    }
    assert(iv.take(interior.len() as int) =~= iv);
    r
}

/// Reports every span or ranged event whose extent strictly contains an interior
/// boundary of a `page_count`-way split of `range` (point events have no extent and
/// are never reported; touching a boundary is not crossing it). A page count of 0 is
/// refused.
pub fn items_crossing_boundaries(ir: &TimelineIr, range: (i64, i64), page_count: usize)
    -> (r: Result<Vec<BoundaryCrossingItem>, TimeRangePaginationError>)
    requires
        page_count < usize::MAX,
        range.1 - range.0 <= i64::MAX,
    ensures
        page_count == 0 <==> r matches Err(TimeRangePaginationError::InvalidPageCount),
        page_count > 0 && range.1 <= range.0 ==> r matches Err(TimeRangePaginationError::EmptyRange { .. }),
        page_count > 0 && range.1 > range.0 ==> {
            let b = boundaries_of(range, page_count as int);
            if strictly_increasing(b) {
                r matches Ok(v) && Seq::new(v@.len(), |k: int| crossing_view(v@[k]))
                    == crossings(ir@.items, b.subrange(1, page_count as int))
            } else {
                r matches Err(TimeRangePaginationError::RangeTooNarrowForPageCount { .. })
            }
        },
{
    if page_count == 0 {
        return Err(TimeRangePaginationError::InvalidPageCount);
    }
    let boundaries = match segment_boundaries(range, page_count) {
        Ok(b) => b,
        Err(e) => return Err(e),
    };
    let ghost b = boundaries_of(range, page_count as int);
    assert(i64s_view(boundaries@) == b);
    assert(boundaries@.len() == i64s_view(boundaries@).len());
    let mut interior: Vec<i64> = Vec::new();
    let mut k: usize = 1;
    while k < page_count
        invariant
            boundaries.len() == page_count + 1,
            1 <= k <= page_count,
            interior.len() == k - 1,
            forall|j: int| 0 <= j < k - 1 ==> #[trigger] interior@[j] == boundaries@[j + 1],
        decreases page_count - k,
    {
        interior.push(boundaries[k]);
        k = k + 1;
    }
    let ghost inner = i64s_view(interior@);
    assert(inner =~= b.subrange(1, page_count as int));
    let ghost iv = ir@.items;
    let mut out: Vec<BoundaryCrossingItem> = Vec::new();
    let mut i: usize = 0;
    while i < ir.items.len()
        invariant
            i <= ir.items.len(),
            iv == ir@.items,
            inner == i64s_view(interior@),
            Seq::new(out@.len(), |k: int| crossing_view(out@[k])) == crossings(iv.take(i as int), inner),
        decreases ir.items.len() - i,
    {
        let ghost before = Seq::new(out@.len(), |k: int| crossing_view(out@[k]));
        let item = &ir.items[i];
        match item.extent() {
            Some((s, e)) => {
                let c = crossed_boundaries_of(interior.as_slice(), s, e);
                if c.len() > 0 {
                    out.push(BoundaryCrossingItem { id: item.info().id.clone(), start: s, end: e, crossed_boundaries: c });
                }
            },
            None => {},
        }
        proof {
            assert(iv.take(i + 1).drop_last() =~= iv.take(i as int));
            assert(iv.take(i + 1).last() == ir.items@[i as int]@);
            assert(Seq::new(out@.len(), |k: int| crossing_view(out@[k])) =~= crossings(iv.take(i + 1), inner));
        }
        i = i + 1;
    }
    assert(iv.take(ir.items.len() as int) =~= iv);
    Ok(out)
}

/// Which edges of a page a bar continues beyond.
#[derive(Debug, PartialEq, Eq)]
pub struct ClipMarker {
    pub id: String,
    /// The bar starts before the page's segment.
    pub continues_from_previous_page: bool,
    /// The bar ends after the page's segment.
    pub continues_to_next_page: bool,
}

/// `(id, starts before, ends after)` for every span or ranged event that overlaps the
/// segment `[s0, s1)` (bars ending at `s0` or starting at `s1` are outside), in order.
pub open spec fn markers(items: Seq<ItemView>, s0: int, s1: int) -> Seq<(Seq<char>, bool, bool)>
    decreases items.len(),
{
    if items.len() == 0 {
        Seq::empty()
    } else {
        let rest = markers(items.drop_last(), s0, s1);
        match items.last().extent() {
            Some((s, e)) => if e <= s0 || s >= s1 { rest } else {
                rest.push((items.last().info().id, s < s0, e > s1))
            },
            None => rest,
        }
    }
}

/// The crossed boundaries of `(start, end)` are, in order, the boundaries at the
/// positions `idx`, and `idx` lists exactly the boundaries strictly inside the extent.
pub open spec fn crossed_at(interior: Seq<int>, start: int, end: int, idx: Seq<int>) -> bool {
    &&& selects(idx, interior.len() as int, |j: int| start < interior[j] < end)
    &&& crossed(interior, start, end).len() == idx.len()
    &&& forall|k: int| 0 <= k < idx.len() ==> crossed(interior, start, end)[k] == interior[#[trigger] idx[k]]
}

/// The boundaries an extent crosses are, in order, exactly the interior boundaries
/// strictly between its start and end; touching one at either end is not crossing it.
pub proof fn lemma_crossed_boundaries_are_those_inside(interior: Seq<int>, start: int, end: int)
    ensures
        exists|idx: Seq<int>| #[trigger] crossed_at(interior, start, end, idx),
        crossed(interior, start, end).len() > 0 <==> exists|j: int| 0 <= j < interior.len() && start < #[trigger] interior[j] < end,
    decreases interior.len(),
{
    let all = crossed(interior, start, end);
    let p = |j: int| start < interior[j] < end;
    if interior.len() == 0 {
        let idx = Seq::<int>::empty();
        assert(crossed_at(interior, start, end, idx));
    } else {
        let init = interior.drop_last();
        let n = init.len() as int;
        lemma_crossed_boundaries_are_those_inside(init, start, end);
        let r = crossed(init, start, end);
        let idx0 = choose|idx: Seq<int>| #[trigger] crossed_at(init, start, end, idx);
        assert(selects(idx0, n, p)) by {
            assert forall|k: int| 0 <= k < idx0.len() implies 0 <= #[trigger] idx0[k] < n && p(idx0[k]) by {
                assert(init[idx0[k]] == interior[idx0[k]]);
                assert((|j: int| start < init[j] < end)(idx0[k]));
            }
            assert forall|i: int| 0 <= i < n && #[trigger] p(i) implies exists|k: int| 0 <= k < idx0.len() && idx0[k] == i by {
                assert(init[i] == interior[i]);
                assert((|j: int| start < init[j] < end)(i));
            }
        }
        lemma_selects_extend(idx0, n, p);
        assert(interior.last() == interior[n]);
        let idx = if p(n) { idx0.push(n) } else { idx0 };
        if p(n) {
            assert(all =~= r + seq![interior[n]]);
        } else {
            assert(all =~= r);
        }
        assert forall|k: int| 0 <= k < idx.len() implies all[k] == interior[#[trigger] idx[k]] by {
            if k < idx0.len() {
                assert(init[idx0[k]] == interior[idx0[k]]);
                assert(all[k] == r[k]);
            }
        }
        assert(crossed_at(interior, start, end, idx));
        if exists|j: int| 0 <= j < interior.len() && start < #[trigger] interior[j] < end {
            let j = choose|j: int| 0 <= j < interior.len() && start < #[trigger] interior[j] < end;
            assert(p(j));
            let k = choose|k: int| 0 <= k < idx.len() && idx[k] == j;
            assert(all.len() > 0);
        }
        if all.len() > 0 {
            assert(p(idx[0]));
            assert(start < interior[idx[0]] < end);
        }
    }
}

/// The item is a span or ranged event whose extent strictly contains an interior
/// boundary.
pub open spec fn crosses_a_boundary(item: ItemView, interior: Seq<int>) -> bool {
    item.extent() is Some && exists|j: int| 0 <= j < interior.len()
        && item.extent().unwrap().0 < #[trigger] interior[j] < item.extent().unwrap().1
}

/// The report entry of an item: its id, its extent and the boundaries it crosses.
pub open spec fn crossing_for(item: ItemView, interior: Seq<int>) -> (Seq<char>, int, int, Seq<int>) {
    let (s, e) = item.extent().unwrap();
    (item.info().id, s as int, e as int, crossed(interior, s as int, e as int))
}

/// The crossing report lists, in order, the entries of the items at the positions
/// `idx`, and `idx` lists exactly the items that cross a boundary.
pub open spec fn crossings_at(items: Seq<ItemView>, interior: Seq<int>, idx: Seq<int>) -> bool {
    &&& selects(idx, items.len() as int, |i: int| crosses_a_boundary(items[i], interior))
    &&& crossings(items, interior).len() == idx.len()
    &&& forall|k: int| 0 <= k < idx.len() ==> crossings(items, interior)[k] == crossing_for(items[#[trigger] idx[k]], interior)
}

/// The crossing report holds, in item order, one entry for each span or ranged event
/// whose extent strictly contains an interior boundary, and nothing else.
pub proof fn lemma_crossings_are_the_straddling_bars(items: Seq<ItemView>, interior: Seq<int>)
    ensures
        exists|idx: Seq<int>| #[trigger] crossings_at(items, interior, idx),
    decreases items.len(),
{
    let all = crossings(items, interior);
    let p = |i: int| crosses_a_boundary(items[i], interior);
    if items.len() == 0 {
        let idx = Seq::<int>::empty();
        assert(crossings_at(items, interior, idx));
    } else {
        let init = items.drop_last();
        let n = init.len() as int;
        lemma_crossings_are_the_straddling_bars(init, interior);
        let r = crossings(init, interior);
        let idx0 = choose|idx: Seq<int>| #[trigger] crossings_at(init, interior, idx);
        assert(selects(idx0, n, p)) by {
            assert forall|k: int| 0 <= k < idx0.len() implies 0 <= #[trigger] idx0[k] < n && p(idx0[k]) by {
                assert(init[idx0[k]] == items[idx0[k]]);
                assert((|i: int| crosses_a_boundary(init[i], interior))(idx0[k]));
            }
            assert forall|i: int| 0 <= i < n && #[trigger] p(i) implies exists|k: int| 0 <= k < idx0.len() && idx0[k] == i by {
                assert(init[i] == items[i]);
                assert((|i: int| crosses_a_boundary(init[i], interior))(i));
            }
        }
        lemma_selects_extend(idx0, n, p);
        let last = items[n];
        assert(items.last() == last);
        match last.extent() {
            Some((s, e)) => {
                lemma_crossed_boundaries_are_those_inside(interior, s as int, e as int);
            },
            None => {},
        }
        let idx = if p(n) { idx0.push(n) } else { idx0 };
        if p(n) {
            assert(all == r.push(crossing_for(last, interior)));
        } else {
            assert(all == r);
        }
        assert forall|k: int| 0 <= k < idx.len() implies all[k] == crossing_for(items[#[trigger] idx[k]], interior) by {
            if k < idx0.len() {
                assert(init[idx0[k]] == items[idx0[k]]);
                assert(all[k] == r[k]);
            }
        }
        assert(crossings_at(items, interior, idx));
    }
}

/// The item is a span or ranged event whose extent `(s, e)` overlaps the segment
/// `[s0, s1)`: neither `e <= s0` nor `s >= s1`.
pub open spec fn on_segment(item: ItemView, s0: int, s1: int) -> bool {
    item.extent() is Some && !(item.extent().unwrap().1 <= s0 || item.extent().unwrap().0 >= s1)
}

/// The marker of a bar on the segment `[s0, s1)`: its id, whether it starts before the
/// segment, and whether it ends after it.
pub open spec fn marker_for(item: ItemView, s0: int, s1: int) -> (Seq<char>, bool, bool) {
    (item.info().id, item.extent().unwrap().0 < s0, item.extent().unwrap().1 > s1)
}

/// The markers of a page are exactly those of the bars on it: every span or ranged event
/// that overlaps the segment, bars wholly inside it included, has its marker there, and
/// every marker is that of such a bar; point events have none.
pub proof fn lemma_markers_are_the_overlapping_bars(items: Seq<ItemView>, s0: int, s1: int)
    ensures
        forall|i: int| 0 <= i < items.len() && #[trigger] on_segment(items[i], s0, s1)
            ==> markers(items, s0, s1).contains(marker_for(items[i], s0, s1)),
        forall|m: (Seq<char>, bool, bool)| #[trigger] markers(items, s0, s1).contains(m) ==> exists|i: int|
            0 <= i < items.len() && #[trigger] on_segment(items[i], s0, s1) && m == marker_for(items[i], s0, s1),
        markers(items, s0, s1).len() <= items.len(),
    decreases items.len(),
{
    if items.len() > 0 {
        let init = items.drop_last();
        lemma_markers_are_the_overlapping_bars(init, s0, s1);
        let r = markers(init, s0, s1);
        let all = markers(items, s0, s1);
        let n = items.len() - 1;
        let last = items[n];
        assert(items.last() == last);
        if on_segment(last, s0, s1) {
            assert(all == r.push(marker_for(last, s0, s1)));
        } else {
            assert(all == r);
        }
        assert forall|i: int| 0 <= i < items.len() && #[trigger] on_segment(items[i], s0, s1)
            implies all.contains(marker_for(items[i], s0, s1)) by {
            let m = marker_for(items[i], s0, s1);
            if i == n {
                assert(all[r.len() as int] == m);
            } else {
                assert(init[i] == items[i]);
                assert(on_segment(init[i], s0, s1));
                assert(r.contains(m));
                let k = choose|k: int| 0 <= k < r.len() && r[k] == m;
                assert(all[k] == m);
            }
        }
        assert forall|m: (Seq<char>, bool, bool)| #[trigger] all.contains(m) implies exists|i: int|
            0 <= i < items.len() && #[trigger] on_segment(items[i], s0, s1) && m == marker_for(items[i], s0, s1) by {
            let k = choose|k: int| 0 <= k < all.len() && all[k] == m;
            if k < r.len() {
                assert(all[k] == r[k]);
                assert(r.contains(m));
                let i = choose|i: int| 0 <= i < init.len() && #[trigger] on_segment(init[i], s0, s1) && m == marker_for(init[i], s0, s1);
                assert(init[i] == items[i]);
                assert(on_segment(items[i], s0, s1));
            } else {
                assert(on_segment(items[n], s0, s1));
            }
        }
    }
}

/// `idx` lists, in increasing order, exactly the positions below `n` that satisfy `p`.
pub open spec fn selects(idx: Seq<int>, n: int, p: spec_fn(int) -> bool) -> bool {
    &&& forall|k: int| 0 <= k < idx.len() ==> 0 <= #[trigger] idx[k] < n && p(idx[k])
    &&& forall|k: int, l: int| 0 <= k < l < idx.len() ==> idx[k] < idx[l]
    &&& forall|i: int| 0 <= i < n && #[trigger] p(i) ==> exists|k: int| 0 <= k < idx.len() && idx[k] == i
}

pub proof fn lemma_selects_extend(idx: Seq<int>, n: int, p: spec_fn(int) -> bool)
    requires
        n >= 0,
        selects(idx, n, p),
    ensures
        p(n) ==> selects(idx.push(n), n + 1, p),
        !p(n) ==> selects(idx, n + 1, p),
{
    if p(n) {
        let j = idx.push(n);
        assert forall|i: int| 0 <= i < n + 1 && #[trigger] p(i) implies exists|k: int| 0 <= k < j.len() && j[k] == i by {
            if i == n {
                assert(j[idx.len() as int] == n);
            } else {
                let k = choose|k: int| 0 <= k < idx.len() && idx[k] == i;
                assert(j[k] == i);
            }
        }
    } else {
        assert forall|i: int| 0 <= i < n + 1 && #[trigger] p(i) implies exists|k: int| 0 <= k < idx.len() && idx[k] == i by {
            assert(i != n);
        }
    }
}

/// The markers of the page `[s0, s1)` are, in order, those of the items at the
/// positions `idx`, and `idx` lists exactly the bars on the segment in item order.
pub open spec fn markers_at(items: Seq<ItemView>, s0: int, s1: int, idx: Seq<int>) -> bool {
    &&& selects(idx, items.len() as int, |i: int| on_segment(items[i], s0, s1))
    &&& markers(items, s0, s1).len() == idx.len()
    &&& forall|k: int| 0 <= k < idx.len() ==> markers(items, s0, s1)[k] == marker_for(items[#[trigger] idx[k]], s0, s1)
}

/// The markers of a page list, in item order, one marker for each bar on the segment
/// and nothing else.
pub proof fn lemma_markers_in_item_order(items: Seq<ItemView>, s0: int, s1: int)
    ensures
        exists|idx: Seq<int>| #[trigger] markers_at(items, s0, s1, idx),
    decreases items.len(),
{
    let all = markers(items, s0, s1);
    if items.len() == 0 {
        let idx = Seq::<int>::empty();
        assert(selects(idx, 0, |i: int| on_segment(items[i], s0, s1)));
        assert(markers_at(items, s0, s1, idx));
    } else {
        let init = items.drop_last();
        let n = init.len() as int;
        lemma_markers_in_item_order(init, s0, s1);
        let r = markers(init, s0, s1);
        let idx0 = choose|idx: Seq<int>| #[trigger] markers_at(init, s0, s1, idx);
        let p = |i: int| on_segment(items[i], s0, s1);
        assert(selects(idx0, n, p)) by {
            assert forall|k: int| 0 <= k < idx0.len() implies 0 <= #[trigger] idx0[k] < n && p(idx0[k]) by {
                assert(init[idx0[k]] == items[idx0[k]]);
            }
            assert forall|i: int| 0 <= i < n && #[trigger] p(i) implies exists|k: int| 0 <= k < idx0.len() && idx0[k] == i by {
                assert(init[i] == items[i]);
                assert((|i: int| on_segment(init[i], s0, s1))(i));
            }
        }
        lemma_selects_extend(idx0, n, p);
        assert(items.last() == items[n]);
        if on_segment(items[n], s0, s1) {
            let idx = idx0.push(n);
            assert(all == r.push(marker_for(items[n], s0, s1)));
            assert forall|k: int| 0 <= k < idx.len() implies all[k] == marker_for(items[#[trigger] idx[k]], s0, s1) by {
                if k < idx0.len() {
                    assert(init[idx0[k]] == items[idx0[k]]);
                }
            }
            assert(selects(idx, items.len() as int, |i: int| on_segment(items[i], s0, s1)));
            assert(markers_at(items, s0, s1, idx));
        } else {
            assert(all == r);
            assert forall|k: int| 0 <= k < idx0.len() implies all[k] == marker_for(items[#[trigger] idx0[k]], s0, s1) by {
                assert(init[idx0[k]] == items[idx0[k]]);
            }
            assert(selects(idx0, items.len() as int, |i: int| on_segment(items[i], s0, s1)));
            assert(markers_at(items, s0, s1, idx0));
        }
    }
}

/// A span or ranged event that crosses the boundary `b1` between the pages `[b0, b1)` and
/// `[b1, b2)` is marked on both: as continuing to the next page on the first, and as
/// continuing from the previous page on the second.
pub proof fn lemma_crossing_bar_marked_on_both_pages(items: Seq<ItemView>, i: int, b0: int, b1: int, b2: int)
    requires
        0 <= i < items.len(),
        b0 < b1 < b2,
        items[i].extent() matches Some((s, e)) && s < b1 < e,
    ensures
        ({
            let (s, e) = items[i].extent().unwrap();
            &&& markers(items, b0, b1).contains((items[i].info().id, s < b0, true))
            &&& markers(items, b1, b2).contains((items[i].info().id, true, e > b2))
        }),
    decreases items.len(),
{
    let (s, e) = items[i].extent().unwrap();
    let m1 = (items[i].info().id, s < b0, true);
    let m2 = (items[i].info().id, true, e > b2);
    if i == items.len() - 1 {
        assert(markers(items, b0, b1).last() == m1);
        assert(markers(items, b1, b2).last() == m2);
    } else {
        let rest = items.drop_last();
        assert(rest[i] == items[i]);
        lemma_crossing_bar_marked_on_both_pages(rest, i, b0, b1, b2);
        let r1 = markers(rest, b0, b1);
        let r2 = markers(rest, b1, b2);
        let k1 = choose|k: int| 0 <= k < r1.len() && r1[k] == m1;
        let k2 = choose|k: int| 0 <= k < r2.len() && r2[k] == m2;
        match items.last().extent() {
            Some((s2, e2)) => {
                if !(e2 <= b0 || s2 >= b1) {
                    assert(markers(items, b0, b1)[k1] == m1);
                }
                if !(e2 <= b1 || s2 >= b2) {
                    assert(markers(items, b1, b2)[k2] == m2);
                }
            },
            None => {},
        }
        assert(markers(items, b0, b1)[k1] == m1);
        assert(markers(items, b1, b2)[k2] == m2);
    }
}

/// Continuation markers of page `page_index` of a `page_count`-way split of `range`:
/// for each span or ranged event that overlaps the page's segment, whether it starts
/// before and whether it ends after the segment.
pub fn clip_with_continuation_markers(ir: &TimelineIr, range: (i64, i64), page_count: usize, page_index: usize)
    -> (r: Result<Vec<ClipMarker>, TimeRangePaginationError>)
    requires
        page_count < usize::MAX,
        range.1 - range.0 <= i64::MAX,
    ensures
        page_index >= page_count <==> (r matches Err(TimeRangePaginationError::InvalidPageIndex { page_index: pi, page_count: pc })
            && pi == page_index && pc == page_count),
        page_index < page_count && range.1 <= range.0 ==> r matches Err(TimeRangePaginationError::EmptyRange { .. }),
        page_index < page_count && range.1 > range.0 ==> {
            let b = boundaries_of(range, page_count as int);
            if strictly_increasing(b) {
                r matches Ok(v) && Seq::new(v@.len(), |k: int| (v@[k].id@, v@[k].continues_from_previous_page, v@[k].continues_to_next_page))
                    == markers(ir@.items, b[page_index as int], b[page_index + 1])
            } else {
                r matches Err(TimeRangePaginationError::RangeTooNarrowForPageCount { .. })
            }
        },
{
    if page_index >= page_count {
        return Err(TimeRangePaginationError::InvalidPageIndex { page_index, page_count });
    }
    let boundaries = match segment_boundaries(range, page_count) {
        Ok(b) => b,
        Err(e) => return Err(e),
    };
    let ghost b = boundaries_of(range, page_count as int);
    assert(i64s_view(boundaries@) == b);
    assert(boundaries@.len() == i64s_view(boundaries@).len());
    let seg_start = boundaries[page_index];
    let seg_end = boundaries[page_index + 1];
    let ghost iv = ir@.items;
    let mut out: Vec<ClipMarker> = Vec::new();
    let mut i: usize = 0;
    while i < ir.items.len()
        invariant
            i <= ir.items.len(),
            iv == ir@.items,
            Seq::new(out@.len(), |k: int| (out@[k].id@, out@[k].continues_from_previous_page, out@[k].continues_to_next_page))
                == markers(iv.take(i as int), seg_start as int, seg_end as int),
        decreases ir.items.len() - i,
    {
        let item = &ir.items[i];
        match item.extent() {
            Some((s, e)) => {
                if !(e <= seg_start || s >= seg_end) {
                    out.push(ClipMarker {
                        id: item.info().id.clone(),
                        continues_from_previous_page: s < seg_start,
                        continues_to_next_page: e > seg_end,
                    });
                }
            },
            None => {},
        }
        proof {
            assert(iv.take(i + 1).drop_last() =~= iv.take(i as int));
            assert(iv.take(i + 1).last() == ir.items@[i as int]@);
            assert(Seq::new(out@.len(), |k: int| (out@[k].id@, out@[k].continues_from_previous_page, out@[k].continues_to_next_page))
                =~= markers(iv.take(i + 1), seg_start as int, seg_end as int));
        }
        i = i + 1;
    }
    assert(iv.take(ir.items.len() as int) =~= iv);
    Ok(out)
}

/// The result of paginating along the time axis.
#[derive(Debug)]
pub struct TimeRangeChartPagination {
    pub pages: Vec<ChartPage>,
    /// Bars that straddle an interior page boundary; callers must warn when not empty.
    pub items_crossing_boundaries: Vec<BoundaryCrossingItem>,
}

} // verus!
