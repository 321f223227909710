//! Layout decisions that do not depend on pixel geometry: the year range, lane order,
//! lane colors, layout-style constraints and the text-width model.

use vstd::prelude::*;
use crate::text::{seq_lt, chars_of, compare_chars, push_str, push_nat, lemma_seq_lt_irrefl, lemma_seq_lt_trans, lemma_seq_lt_total, nat_digits, str_eq};
use crate::ir::{Item, ItemView, Lane, LaneView, lanes_view, items_view};
use crate::table::is_permutation;

verus! {

/// Timeline layout orientation.
#[derive(Debug, Clone, Copy, PartialEq, Eq, Structural)]
pub enum Orientation {
    /// Time runs left to right; lanes are stacked top to bottom (the default).
    Horizontal,
    /// Time runs top to bottom; lanes are arranged left to right.
    Vertical,
}

/// Color/style theme of the HTML output.
#[derive(Debug, Clone, Copy, PartialEq, Eq, Structural)]
pub enum Theme {
    Default,
    Dark,
    Print,
    Pastel,
}

/// Grid lines drawn behind the time axis.
#[derive(Debug, Clone, Copy, PartialEq, Eq, Structural)]
pub enum GridStyle {
    /// No grid lines (the default).
    Off,
    /// A line every 10 years.
    Decade,
    /// A line every year.
    Year,
    /// A line every month (1/12 year).
    Month,
}

/// High-level visual layout style, orthogonal to the orientation.
#[derive(Debug, Clone, Copy, PartialEq, Eq, Structural)]
pub enum LayoutStyle {
    /// Standard lane timeline (the default).
    Timeline,
    /// Background blocks spanning contiguous lane groups.
    GroupBands,
    /// Project-management style: emphasized month grid and always-on period labels.
    Gantt,
    /// Items of a lane alternate above and below the lane axis in start order; only
    /// for timelines with at most [`ZIGZAG_MAX_LANES`] lanes.
    Zigzag,
}

impl Default for Orientation {
    fn default() -> (r: Orientation)
        ensures
            r == Orientation::Horizontal,
    {
        Orientation::Horizontal
    }
}

impl Default for Theme {
    fn default() -> (r: Theme)
        ensures
            r == Theme::Default,
    {
        Theme::Default
    }
}

impl Default for GridStyle {
    fn default() -> (r: GridStyle)
        ensures
            r == GridStyle::Off,
    {
        GridStyle::Off
    }
}

impl Default for LayoutStyle {
    fn default() -> (r: LayoutStyle)
        ensures
            r == LayoutStyle::Timeline,
    {
        LayoutStyle::Timeline
    }
}

/// Why a timeline cannot be laid out.
#[derive(Debug)]
pub enum RenderError {
    /// `range` is reversed and no item carries a date to derive one from.
    DegenerateRange { start: i64, end: i64 },
    /// An item names a lane that the timeline does not declare.
    UnknownLane { lane: String, item: String },
    /// The layout style cannot be used with this many lanes.
    UnsupportedLayout { style: String, lane_count: usize, message: String },
    /// Writing the output failed.
    Fmt,
}

/// Largest lane count that `LayoutStyle::Zigzag` supports.
pub const ZIGZAG_MAX_LANES: usize = 2;

/// Smallest start (or point) year over the items.
pub open spec fn items_min_year(items: Seq<ItemView>) -> Option<int>
    decreases items.len(),
{
    if items.len() == 0 {
        None
    } else {
        let y: int = match items.last() {
            ItemView::Span { start, .. } => start as int,
            ItemView::EventRange { start, .. } => start as int,
            ItemView::Event { time, .. } => time as int,
        };
        match items_min_year(items.drop_last()) {
            Some(m) => Some(if y < m { y } else { m }),
            None => Some(y),
        }
    }
}

/// Largest end (or point) year over the items.
pub open spec fn items_max_year(items: Seq<ItemView>) -> Option<int>
    decreases items.len(),
{
    if items.len() == 0 {
        None
    } else {
        let y: int = match items.last() {
            ItemView::Span { end, .. } => end as int,
            ItemView::EventRange { end, .. } => end as int,
            ItemView::Event { time, .. } => time as int,
        };
        match items_max_year(items.drop_last()) {
            Some(m) => Some(if y > m { y } else { m }),
            None => Some(y),
        }
    }
}

/// The year range spanned by the items, widened by ten years on each side when it is
/// empty or a single year; `None` when there are no items.
pub open spec fn derived_range(items: Seq<ItemView>) -> Option<(int, int)> {
    match (items_min_year(items), items_max_year(items)) {
        (Some(a), Some(b)) => if b > a { Some((a, b)) } else { Some((a - 10, b + 10)) },
        _ => None,
    }
}

/// The year an item starts (its time for a point event).
pub open spec fn first_year(item: ItemView) -> int {
    match item {
        ItemView::Span { start, .. } => start as int,
        ItemView::EventRange { start, .. } => start as int,
        ItemView::Event { time, .. } => time as int,
    }
}

/// The year an item ends (its time for a point event).
pub open spec fn last_year(item: ItemView) -> int {
    match item {
        ItemView::Span { end, .. } => end as int,
        ItemView::EventRange { end, .. } => end as int,
        ItemView::Event { time, .. } => time as int,
    }
}

/// The items' smallest year is the least start year of an item and their largest year
/// the greatest end year of an item, each reached by some item; with no items there
/// are none. The derived range then holds every item.
pub proof fn lemma_derived_range_holds_every_item(items: Seq<ItemView>)
    ensures
        items.len() == 0 <==> items_min_year(items) is None,
        items.len() == 0 <==> items_max_year(items) is None,
        items.len() > 0 ==> {
            let lo = items_min_year(items).unwrap();
            let hi = items_max_year(items).unwrap();
            &&& forall|i: int| 0 <= i < items.len() ==> lo <= #[trigger] first_year(items[i]) && last_year(items[i]) <= hi
            &&& exists|i: int| 0 <= i < items.len() && #[trigger] first_year(items[i]) == lo
            &&& exists|i: int| 0 <= i < items.len() && #[trigger] last_year(items[i]) == hi
        },
        derived_range(items) matches Some((a, b)) ==> forall|i: int| 0 <= i < items.len() ==> a <= #[trigger] first_year(items[i]) && last_year(items[i]) <= b,
    decreases items.len(),
{
    if items.len() > 0 {
        let init = items.drop_last();
        let n = init.len() as int;
        lemma_derived_range_holds_every_item(init);
        assert(items.last() == items[n]);
        let lo = items_min_year(items).unwrap();
        let hi = items_max_year(items).unwrap();
        assert forall|i: int| 0 <= i < items.len() implies lo <= #[trigger] first_year(items[i]) && last_year(items[i]) <= hi by {
            if i < n {
                assert(init[i] == items[i]);
                assert(first_year(init[i]) == first_year(items[i]));
            }
        }
        if init.len() > 0 && items_min_year(init).unwrap() <= first_year(items[n]) {
            let i = choose|i: int| 0 <= i < init.len() && #[trigger] first_year(init[i]) == items_min_year(init).unwrap();
            assert(init[i] == items[i]);
            assert(first_year(items[i]) == lo);
        } else {
            assert(first_year(items[n]) == lo);
        }
        if init.len() > 0 && items_max_year(init).unwrap() >= last_year(items[n]) {
            let i = choose|i: int| 0 <= i < init.len() && #[trigger] last_year(init[i]) == items_max_year(init).unwrap();
            assert(init[i] == items[i]);
            assert(last_year(items[i]) == hi);
        } else {
            assert(last_year(items[n]) == hi);
        }
    }
}

/// The smallest start (or point) year and the largest end (or point) year of the items.
fn items_year_bounds(items: &Vec<Item>) -> (r: (Option<i64>, Option<i64>))
    ensures
        match r.0 { Some(m) => items_min_year(items_view(items@)) == Some(m as int), None => items_min_year(items_view(items@)) is None },
        match r.1 { Some(m) => items_max_year(items_view(items@)) == Some(m as int), None => items_max_year(items_view(items@)) is None },
{
    let ghost iv = items_view(items@);
    let mut min: Option<i64> = None;
    let mut max: Option<i64> = None;
    let mut i: usize = 0;
    while i < items.len()
        invariant
            i <= items.len(),
            iv == items_view(items@),
            match min { Some(m) => items_min_year(iv.take(i as int)) == Some(m as int), None => items_min_year(iv.take(i as int)) is None },
            match max { Some(m) => items_max_year(iv.take(i as int)) == Some(m as int), None => items_max_year(iv.take(i as int)) is None },
        decreases items.len() - i,
    {
        let (lo, hi): (i64, i64) = match &items[i] {
            Item::Span { start, end, .. } => (*start, *end),
            Item::EventRange { start, end, .. } => (*start, *end),
            Item::Event { time, .. } => (*time, *time),
        };
        min = Some(match min { Some(m) => if lo < m { lo } else { m }, None => lo });
        max = Some(match max { Some(m) => if hi > m { hi } else { m }, None => hi });
        proof {
            assert(iv.take(i + 1).drop_last() =~= iv.take(i as int));
            assert(iv.take(i + 1).last() == items@[i as int]@);
        }
        i = i + 1;
    }
    assert(iv.take(items.len() as int) =~= iv);
    (min, max)
}

/// Derives a year range from the items' own years.
pub fn derive_range_from_items(items: &Vec<Item>) -> (r: Option<(i64, i64)>)
    requires
        match derived_range(items_view(items@)) {
            Some((a, b)) => i64::MIN <= a && b <= i64::MAX,
            None => true,
        },
    ensures
        match r {
            Some((a, b)) => derived_range(items_view(items@)) == Some((a as int, b as int)),
            None => derived_range(items_view(items@)) is None,
        },
{
    match items_year_bounds(items) {
        (Some(a), Some(b)) => if b > a { Some((a, b)) } else { Some((a - 10, b + 10)) },
        _ => None,
    }
}

/// Whether the year range to lay out stays within `i64`: a one-year range cannot start
/// at the largest year, and a range derived from the items must fit once widened.
pub open spec fn year_range_fits(declared: (i64, i64), items: Seq<ItemView>) -> bool {
    &&& (declared.1 == declared.0 ==> declared.1 < i64::MAX)
    &&& (declared.1 < declared.0 ==> match derived_range(items) {
        Some((a, b)) => i64::MIN <= a && b <= i64::MAX,
        None => true,
    })
}

/// Decides whether [`resolve_year_range`] can be asked for this range and these items.
pub fn year_range_representable(declared: (i64, i64), items: &Vec<Item>) -> (r: bool)
    ensures
        r == year_range_fits(declared, items_view(items@)),
{
    if declared.1 == declared.0 {
        declared.1 < i64::MAX
    } else if declared.1 > declared.0 {
        true
    } else {
        match items_year_bounds(items) {
            (Some(a), Some(b)) => b > a || (a >= i64::MIN + 10 && b <= i64::MAX - 10),
            _ => true,
        }
    }
}

/// The year range actually laid out: the declared range when it is increasing, one
/// year from the start when start and end are equal, and otherwise the range derived
/// from the items (an error when there is none).
pub open spec fn year_range(declared: (i64, i64), items: Seq<ItemView>) -> Option<(int, int)> {
    if declared.1 > declared.0 {
        Some((declared.0 as int, declared.1 as int))
    } else if declared.1 == declared.0 {
        Some((declared.0 as int, declared.1 + 1))
    } else {
        derived_range(items)
    }
}

/// Resolves the year range to lay out (see [`year_range`]).
pub fn resolve_year_range(declared: (i64, i64), items: &Vec<Item>) -> (r: Result<(i64, i64), RenderError>)
    requires
        year_range_fits(declared, items_view(items@)),
    ensures
        match r {
            Ok((a, b)) => year_range(declared, items_view(items@)) == Some((a as int, b as int)),
            Err(RenderError::DegenerateRange { start, end }) =>
                year_range(declared, items_view(items@)) is None && start == declared.0 && end == declared.1,
            Err(_) => false,
        },
{
    let (year_min, year_max) = declared;
    if year_max > year_min {
        Ok((year_min, year_max))
    } else if year_max == year_min {
        Ok((year_min, year_max + 1))
    } else {
        match derive_range_from_items(items) {
            Some(r) => Ok(r),
            None => Err(RenderError::DegenerateRange { start: year_min, end: year_max }),
        }
    }
}

/// Lane order: by `order`, then by id; lanes equal on both keep their declaration order.
pub open spec fn lane_before(a: LaneView, ia: int, b: LaneView, ib: int) -> bool {
    if a.order != b.order {
        a.order < b.order
    } else if a.id != b.id {
        seq_lt(a.id, b.id)
    } else {
        ia < ib
    }
}

proof fn lemma_lane_before_trans(a: LaneView, ia: int, b: LaneView, ib: int, c: LaneView, ic: int)
    requires
        lane_before(a, ia, b, ib),
        lane_before(b, ib, c, ic),
    ensures
        lane_before(a, ia, c, ic),
{
    if a.order == b.order && b.order == c.order {
        if a.id != b.id && b.id != c.id {
            lemma_seq_lt_trans(a.id, b.id, c.id);
        }
        if a.id == c.id && a.id != b.id {
            lemma_seq_lt_trans(a.id, b.id, a.id);
            lemma_seq_lt_irrefl(a.id);
        }
    }
}

/// `order` lists the indices of `lanes` in lane order.
pub open spec fn is_lane_order(order: Seq<int>, lanes: Seq<LaneView>) -> bool {
    &&& is_permutation(order, lanes.len() as int)
    &&& forall|j: int, k: int| 0 <= j < k < order.len() ==> lane_before(lanes[order[j]], order[j], lanes[order[k]], order[k])
}

/// A lane order sorts the lanes by their `order` field, ascending, and lanes with the
/// same `order` by id; lanes equal on both keep their declaration order.
pub proof fn lemma_lane_order_sorted(order: Seq<int>, lanes: Seq<LaneView>)
    requires
        is_lane_order(order, lanes),
    ensures
        forall|j: int, k: int| 0 <= j < k < order.len() ==> {
            let a = #[trigger] lanes[order[j]];
            let b = #[trigger] lanes[order[k]];
            &&& a.order <= b.order
            &&& a.order == b.order ==> !seq_lt(b.id, a.id)
            &&& a.order == b.order && a.id == b.id ==> order[j] < order[k]
        },
{
    assert forall|j: int, k: int| 0 <= j < k < order.len() implies {
        let a = #[trigger] lanes[order[j]];
        let b = #[trigger] lanes[order[k]];
        &&& a.order <= b.order
        &&& a.order == b.order ==> !seq_lt(b.id, a.id)
        &&& a.order == b.order && a.id == b.id ==> order[j] < order[k]
    } by {
        let (a, b) = (lanes[order[j]], lanes[order[k]]);
        assert(lane_before(a, order[j], b, order[k]));
        if a.order == b.order && a.id != b.id && seq_lt(b.id, a.id) {
            crate::text::lemma_seq_lt_trans(b.id, a.id, b.id);
            crate::text::lemma_seq_lt_irrefl(b.id);
        }
        if a.id == b.id {
            crate::text::lemma_seq_lt_irrefl(a.id);
        }
    }
}

pub open spec fn usizes_view(v: Seq<usize>) -> Seq<int> {
    Seq::new(v.len(), |i: int| v[i] as int)
}

/// The indices of `lanes` sorted by `(order, id)`, stable for equal keys.
pub fn lane_order(lanes: &Vec<Lane>) -> (order: Vec<usize>)
    ensures
        is_lane_order(usizes_view(order@), lanes_view(lanes@)),
{
    let ghost lv = lanes_view(lanes@);
    let mut ids: Vec<Vec<char>> = Vec::new();
    let mut k: usize = 0;
    while k < lanes.len()
        invariant
            k <= lanes.len(),
            ids.len() == k,
            forall|j: int| 0 <= j < k ==> #[trigger] ids@[j]@ == lanes@[j].id@,
        decreases lanes.len() - k,
    {
        ids.push(chars_of(lanes[k].id.as_str()));
        k = k + 1;
    }
    let mut order: Vec<usize> = Vec::new();
    let mut i: usize = 0;
    while i < lanes.len()
        invariant
            i <= lanes.len(),
            lv == lanes_view(lanes@),
            ids.len() == lanes.len(),
            forall|j: int| 0 <= j < lanes.len() ==> #[trigger] ids@[j]@ == lanes@[j].id@,
            order.len() == i,
            forall|k: int| 0 <= k < i ==> 0 <= #[trigger] order@[k] < i,
            forall|j: int, k: int| 0 <= j < k < i ==> order@[j] != order@[k],
            forall|j: int, k: int| 0 <= j < k < i ==> lane_before(lv[order@[j] as int], order@[j] as int, lv[order@[k] as int], order@[k] as int),
        decreases lanes.len() - i,
    {
        let mut p: usize = 0;
        let mut stop = false;
        while p < order.len() && !stop
            invariant
                p <= order.len(),
                order.len() == i,
                i < lanes.len(),
                lv == lanes_view(lanes@),
                ids.len() == lanes.len(),
                forall|j: int| 0 <= j < lanes.len() ==> #[trigger] ids@[j]@ == lanes@[j].id@,
                forall|k: int| 0 <= k < i ==> 0 <= #[trigger] order@[k] < i,
                stop ==> p < order.len() && lane_before(lv[i as int], i as int, lv[order@[p as int] as int], order@[p as int] as int),
                forall|k: int| 0 <= k < p ==> !lane_before(lv[i as int], i as int, #[trigger] lv[order@[k] as int], order@[k] as int),
            decreases order.len() - p + (if stop { 0int } else { 1int }),
        {
            let o = order[p];
            let a = &lanes[i];
            let b = &lanes[o];
            let less = if a.order != b.order {
                a.order < b.order
            } else {
                compare_chars(ids[i].as_slice(), ids[o].as_slice()) == -1
            };
            proof {
                lemma_seq_lt_irrefl(lv[i as int].id);
            }
            if less {
                stop = true;
            } else {
                p = p + 1;
            }
        }
        proof {
            assert forall|k: int| p <= k < i implies lane_before(lv[i as int], i as int, #[trigger] lv[order@[k] as int], order@[k] as int) by {
                if k > p {
                    lemma_lane_before_trans(lv[i as int], i as int, lv[order@[p as int] as int], order@[p as int] as int, lv[order@[k] as int], order@[k] as int);
                }
            }
            assert forall|k: int| 0 <= k < p implies lane_before(#[trigger] lv[order@[k] as int], order@[k] as int, lv[i as int], i as int) by {
                lemma_seq_lt_total(lv[i as int].id, lv[order@[k] as int].id);
            }
        }
        let ghost before = order@;
        order.insert(p, i);
        proof {
            assert forall|j: int, k: int| 0 <= j < k < i + 1 implies order@[j] != order@[k] by {
                if j < p && k > p {
                    assert(order@[k] == before[k - 1]);
                } else if j > p {
                    assert(order@[k] == before[k - 1]);
                    assert(order@[j] == before[j - 1]);
                } else if j == p {
                    assert(order@[k] == before[k - 1]);
                }
            }
            assert forall|k: int| 0 <= k < i + 1 implies 0 <= #[trigger] order@[k] < i + 1 by {
                if k > p {
                    assert(order@[k] == before[k - 1]);
                }
            }
            assert forall|j: int, k: int| 0 <= j < k < i + 1 implies lane_before(lv[order@[j] as int], order@[j] as int, lv[order@[k] as int], order@[k] as int) by {
                if j < p && k > p {
                    assert(order@[k] == before[k - 1]);
                    lemma_lane_before_trans(lv[order@[j] as int], order@[j] as int, lv[i as int], i as int, lv[order@[k] as int], order@[k] as int);
                } else if j > p {
                    assert(order@[k] == before[k - 1]);
                    assert(order@[j] == before[j - 1]);
                } else if j == p {
                    assert(order@[k] == before[k - 1]);
                }
            }
        }
        i = i + 1;
    }
    proof {
        let ov = usizes_view(order@);
        assert forall|k: int| 0 <= k < ov.len() implies 0 <= #[trigger] ov[k] < lanes.len() by {}
        assert forall|j: int, k: int| 0 <= j < k < ov.len() implies ov[j] != ov[k] by {}
        assert forall|j: int, k: int| 0 <= j < k < ov.len() implies lane_before(lv[ov[j]], ov[j], lv[ov[k]], ov[k]) by {}
    }
    order
}

/// Rejects a layout style that the timeline has too many lanes for: Zigzag supports
/// at most [`ZIGZAG_MAX_LANES`] lanes.
pub fn check_layout_lane_count(style: LayoutStyle, lane_count: usize) -> (r: Result<(), RenderError>)
    ensures
        r is Ok <==> !(style == LayoutStyle::Zigzag && lane_count > ZIGZAG_MAX_LANES),
        match r {
            Err(RenderError::UnsupportedLayout { style, lane_count: n, message }) =>
                style@ == "zigzag"@ && n == lane_count
                && message@ == "use --chart-pagination or choose a different layout style"@,
            Err(_) => false,
            Ok(_) => true,
        },
{
    if style == LayoutStyle::Zigzag && lane_count > ZIGZAG_MAX_LANES {
        Err(RenderError::UnsupportedLayout {
            style: String::from_str("zigzag"),
            lane_count,
            message: String::from_str("use --chart-pagination or choose a different layout style"),
        })
    } else {
        Ok(())
    }
}

/// The eight lane colors, assigned to lanes in lane order, cycling.
pub open spec fn palette_hex(i: int) -> Seq<char> {
    if i == 0 { "#4682B4"@ } else if i == 1 { "#E67E22"@ } else if i == 2 { "#27AE60"@ }
    else if i == 3 { "#8E44AD"@ } else if i == 4 { "#E74C3C"@ } else if i == 5 { "#1ABC9C"@ }
    else if i == 6 { "#F39C12"@ } else { "#2980B9"@ }
}

/// Number of palette colors.
pub const LANE_PALETTE_LEN: usize = 8;

/// The color of a palette entry (`i < 8`).
pub fn lane_palette(i: usize) -> (s: &'static str)
    requires
        i < LANE_PALETTE_LEN,
    ensures
        s@ == palette_hex(i as int),
{
    match i {
        0 => "#4682B4",
        1 => "#E67E22",
        2 => "#27AE60",
        3 => "#8E44AD",
        4 => "#E74C3C",
        5 => "#1ABC9C",
        6 => "#F39C12",
        _ => "#2980B9",
    }
}

/// The color of the lane at position `idx` in lane order: the palette color, or with
/// CSS variables the reference `var(--tdsl-lane-N, #hex)` that embedding pages can
/// override.
pub open spec fn lane_color_text(idx: int, use_css_vars: bool) -> Seq<char> {
    let p = idx % 8;
    if use_css_vars {
        "var(--tdsl-lane-"@ + nat_digits(p as nat) + ", "@ + palette_hex(p) + ")"@
    } else {
        palette_hex(p)
    }
}

/// The color of the lane at position `idx` in lane order.
pub fn lane_color(idx: usize, use_css_vars: bool) -> (s: String)
    ensures
        s@ == lane_color_text(idx as int, use_css_vars),
{
    let p = idx % LANE_PALETTE_LEN;
    let hex = lane_palette(p);
    if use_css_vars {
        let mut s = String::from_str("var(--tdsl-lane-");
        push_nat(&mut s, p as u64);
        push_str(&mut s, ", ");
        push_str(&mut s, hex);
        push_str(&mut s, ")");
        s
    } else {
        String::from_str(hex)
    }
}

/// `(lane id, color)` for each lane, in lane order.
pub fn lane_colors(lanes: &Vec<Lane>, order: &Vec<usize>, use_css_vars: bool) -> (r: Vec<(String, String)>)
    requires
        forall|k: int| 0 <= k < order.len() ==> #[trigger] order@[k] < lanes.len(),
    ensures
        r.len() == order.len(),
        forall|k: int| 0 <= k < r.len() ==> (#[trigger] r@[k]).0@ == lanes@[order@[k] as int].id@
            && r@[k].1@ == lane_color_text(k, use_css_vars),
{
    let mut r: Vec<(String, String)> = Vec::new();
    let mut k: usize = 0;
    while k < order.len()
        invariant
            k <= order.len(),
            r.len() == k,
            forall|j: int| 0 <= j < order.len() ==> #[trigger] order@[j] < lanes.len(),
            forall|j: int| 0 <= j < k ==> (#[trigger] r@[j]).0@ == lanes@[order@[j] as int].id@
                && r@[j].1@ == lane_color_text(j, use_css_vars),
        decreases order.len() - k,
    {
        r.push((lanes[order[k]].id.clone(), lane_color(k, use_css_vars)));
        k = k + 1;
    }
    r
}

/// Rows of the static legend: a title row, one per lane and one per tag color; none
/// when the legend is off.
pub fn legend_row_count(show_legend: bool, lane_count: usize, tag_color_count: usize) -> (n: usize)
    requires
        1 + lane_count + tag_color_count <= usize::MAX,
    ensures
        n == if show_legend { 1 + lane_count + tag_color_count } else { 0 },
{
    if show_legend { 1 + lane_count + tag_color_count } else { 0 }
}

/// The grid actually drawn: Gantt layouts without an explicit grid get a month grid.
pub fn effective_grid_style(layout_style: LayoutStyle, grid: GridStyle) -> (g: GridStyle)
    ensures
        g == if layout_style == LayoutStyle::Gantt && grid == GridStyle::Off { GridStyle::Month } else { grid },
{
    if layout_style == LayoutStyle::Gantt && grid == GridStyle::Off {
        GridStyle::Month
    } else {
        grid
    }
}

/// Whether `year` lies in `[year_min, year_max]`.
pub fn year_in_range(year: i64, year_min: i64, year_max: i64) -> (r: bool)
    ensures
        r == (year_min <= year <= year_max),
{
    year >= year_min && year <= year_max
}

/// A name for an item in error messages: its id, or its label when the id is empty.
pub fn item_display_name(item: &Item) -> (s: String)
    ensures
        s@ == if item@.info().id.len() == 0 { item@.info().label } else { item@.info().id },
{
    let info = item.info();
    if info.id.unicode_len() == 0 {
        info.label.clone()
    } else {
        info.id.clone()
    }
}

/// Whether some lane has id `id`.
pub open spec fn lane_declared(lanes: Seq<LaneView>, id: Seq<char>) -> bool {
    exists|k: int| 0 <= k < lanes.len() && #[trigger] lanes[k].id == id
}

/// Whether some lane has the given id.
pub fn has_lane(lanes: &[Lane], id: &str) -> (r: bool)
    ensures
        r == lane_declared(lanes_view(lanes@), id@),
{
    let ghost lv = lanes_view(lanes@);
    let mut k: usize = 0;
    while k < lanes.len()
        invariant
            k <= lanes.len(),
            lv == lanes_view(lanes@),
            forall|j: int| 0 <= j < k ==> lv[j].id != id@,
        decreases lanes.len() - k,
    {
        if str_eq(lanes[k].id.as_str(), id) {
            assert(lv[k as int].id == id@);
            return true;
        }
        k = k + 1;
    }
    false
}

/// The first item whose lane is not declared, if any.
pub open spec fn first_unknown_lane(items: Seq<ItemView>, lanes: Seq<LaneView>) -> Option<int> {
    if exists|k: int| 0 <= k < items.len() && !lane_declared(lanes, #[trigger] items[k].info().lane) {
        Some(choose|k: int| 0 <= k < items.len() && !lane_declared(lanes, #[trigger] items[k].info().lane)
            && forall|j: int| 0 <= j < k ==> lane_declared(lanes, #[trigger] items[j].info().lane))
    } else {
        None
    }
}

/// The index of the first item whose lane no lane declares.
pub fn find_unknown_lane_item(items: &Vec<Item>, lanes: &[Lane]) -> (r: Option<usize>)
    ensures
        match r {
            Some(k) => k < items.len() && !lane_declared(lanes_view(lanes@), items@[k as int]@.info().lane)
                && forall|j: int| 0 <= j < k ==> lane_declared(lanes_view(lanes@), #[trigger] items@[j]@.info().lane),
            None => forall|j: int| 0 <= j < items.len() ==> lane_declared(lanes_view(lanes@), #[trigger] items@[j]@.info().lane),
        },
{
    let mut k: usize = 0;
    while k < items.len()
        invariant
            k <= items.len(),
            forall|j: int| 0 <= j < k ==> lane_declared(lanes_view(lanes@), #[trigger] items@[j]@.info().lane),
        decreases items.len() - k,
    {
        if !has_lane(lanes, items[k].lane_id()) {
            return Some(k);
        }
        k = k + 1;
    }
    None
}

/// Checks that every item's lane is declared; the first item that names an undeclared
/// lane is reported with its lane and display name.
pub fn check_item_lanes(items: &Vec<Item>, lanes: &[Lane]) -> (r: Result<(), RenderError>)
    ensures
        r is Ok <==> forall|j: int| 0 <= j < items.len() ==> lane_declared(lanes_view(lanes@), #[trigger] items@[j]@.info().lane),
        match r {
            Err(RenderError::UnknownLane { lane, item }) => exists|k: int| 0 <= k < items.len()
                && !lane_declared(lanes_view(lanes@), #[trigger] items@[k]@.info().lane)
                && (forall|j: int| 0 <= j < k ==> lane_declared(lanes_view(lanes@), #[trigger] items@[j]@.info().lane))
                && lane@ == items@[k]@.info().lane
                && item@ == (if items@[k]@.info().id.len() == 0 { items@[k]@.info().label } else { items@[k]@.info().id }),
            Err(_) => false,
            Ok(_) => true,
        },
{
    match find_unknown_lane_item(items, lanes) {
        Some(k) => Err(RenderError::UnknownLane {
            lane: String::from_str(items[k].lane_id()),
            item: item_display_name(&items[k]),
        }),
        None => Ok(()),
    }
}

/// Characters that occupy a full em: Hangul, CJK ideographs and kana, fullwidth forms.
pub open spec fn cjk_like(c: char) -> bool {
    let u = c as u32;
    (0x1100 <= u <= 0x11ff) || (0x2e80 <= u <= 0x9fff) || (0xac00 <= u <= 0xd7af)
        || (0xf900 <= u <= 0xfaff) || (0xff00 <= u <= 0xffef) || (0x20000 <= u <= 0x2fa1f)
}

/// Whether a character is drawn about one em wide (CJK-like).
pub fn is_cjk_like(c: char) -> (r: bool)
    ensures
        r == cjk_like(c),
{
    let u = c as u32;
    (0x1100 <= u && u <= 0x11ff) || (0x2e80 <= u && u <= 0x9fff) || (0xac00 <= u && u <= 0xd7af)
        || (0xf900 <= u && u <= 0xfaff) || (0xff00 <= u && u <= 0xffef) || (0x20000 <= u && u <= 0x2fa1f)
}

/// Estimated advance width of a character in hundredths of an em, for layout heuristics.
pub open spec fn char_width(c: char) -> int {
    if crate::color::is_ws(c) {
        33
    } else if '0' <= c <= '9' {
        56
    } else if crate::color::is_alpha(c) {
        if c == 'i' || c == 'j' || c == 'l' || c == 'I' { 32 }
        else if c == 'm' || c == 'w' || c == 'M' || c == 'W' { 86 }
        else { 62 }
    } else if ascii_punct(c) {
        38
    } else if cjk_like(c) {
        100
    } else {
        75
    }
}

/// ASCII punctuation: the printable ASCII characters that are neither letters nor digits.
pub open spec fn ascii_punct(c: char) -> bool {
    ('!' <= c <= '/') || (':' <= c <= '@') || ('[' <= c <= '`') || ('{' <= c <= '~')
}

/// Estimated advance width of a character in hundredths of an em.
pub fn char_width_em(c: char) -> (w: u32)
    ensures
        w == char_width(c),
{
    if crate::color::is_whitespace(c) {
        33
    } else if '0' <= c && c <= '9' {
        56
    } else if ('a' <= c && c <= 'z') || ('A' <= c && c <= 'Z') {
        if c == 'i' || c == 'j' || c == 'l' || c == 'I' {
            32
        } else if c == 'm' || c == 'w' || c == 'M' || c == 'W' {
            86
        } else {
            62
        }
    } else if ('!' <= c && c <= '/') || (':' <= c && c <= '@') || ('[' <= c && c <= '`') || ('{' <= c && c <= '~') {
        38
    } else if is_cjk_like(c) {
        100
    } else {
        75
    }
}

/// Sum of the character widths of `s`, in hundredths of an em.
pub open spec fn text_width(s: Seq<char>) -> int
    decreases s.len(),
{
    if s.len() == 0 { 0 } else { text_width(s.drop_last()) + char_width(s.last()) }
}

/// Estimated width of a text in hundredths of an em (multiply by the font size and
/// divide by 100 for pixels).
pub fn text_width_centi_em(text: &str) -> (w: u64)
    requires
        text@.len() <= 1_000_000_000,
    ensures
        w == text_width(text@),
{
    let v = chars_of(text);
    let mut w: u64 = 0;
    let mut i: usize = 0;
    while i < v.len()
        invariant
            i <= v.len(),
            v@ == text@,
            v@.len() <= 1_000_000_000,
            w == text_width(v@.take(i as int)),
            w <= 100 * i,
        decreases v.len() - i,
    {
        proof {
            assert(v@.take(i + 1).drop_last() =~= v@.take(i as int));
        }
        w = w + char_width_em(v[i]) as u64;
        i = i + 1;
    }
    assert(v@.take(v.len() as int) =~= v@);
    w
}

/// `(continues before, continues after)` for a bar `[start, end]` (axis units) drawn on
/// the year range `[year_min, year_max]`: only when markers are enabled and the bar is on
/// the page at all.
pub open spec fn continuation(enabled: bool, start: int, end: int, year_min: int, year_max: int) -> (bool, bool) {
    let lo = year_min * 378691200;
    let hi = year_max * 378691200;
    if !enabled || !(end > lo && start < hi) {
        (false, false)
    } else {
        (start < lo, end > hi)
    }
}

/// Which edges of the page a clipped bar continues beyond.
pub fn continuation_marker_flags(enabled: bool, start: i128, end: i128, year_min: i64, year_max: i64) -> (r: (bool, bool))
    ensures
        r == continuation(enabled, start as int, end as int, year_min as int, year_max as int),
{
    let lo = (year_min as i128) * 378691200;
    let hi = (year_max as i128) * 378691200;
    if !enabled || !(end > lo && start < hi) {
        (false, false)
    } else {
        (start < lo, end > hi)
    }
}

/// Index of the last lane of the run of equal groups starting at `i` (in the given
/// order).
pub open spec fn group_run_end(groups: Seq<Option<Seq<char>>>, i: int) -> int
    decreases groups.len() - i,
{
    if 0 <= i && i + 1 < groups.len() && groups[i + 1] == groups[i] { group_run_end(groups, i + 1) } else { i }
}

/// `(first, last, label)` of each maximal run of lanes sharing a group, from position
/// `i` on; lanes without a group form no band.
pub open spec fn group_runs_from(groups: Seq<Option<Seq<char>>>, i: int) -> Seq<(int, int, Seq<char>)>
    decreases groups.len() - i,
{
    if i < 0 || i >= groups.len() {
        Seq::empty()
    } else {
        let e = group_run_end(groups, i);
        if e < i || e >= groups.len() {
            Seq::empty()
        } else {
            (match groups[i] {
                Some(g) => seq![(i, e, g)],
                None => Seq::empty(),
            }) + group_runs_from(groups, e + 1)
        }
    }
}

proof fn lemma_group_run_end(groups: Seq<Option<Seq<char>>>, i: int)
    requires
        0 <= i < groups.len(),
    ensures
        i <= group_run_end(groups, i) < groups.len(),
    decreases groups.len() - i,
{
    if i + 1 < groups.len() && groups[i + 1] == groups[i] {
        lemma_group_run_end(groups, i + 1);
    }
}

/// The bands of a group-band layout: for each maximal run of consecutive lanes (in the
/// given order) that share a group, its first and last position and the group label.
pub fn group_runs(groups: &Vec<Option<String>>) -> (r: Vec<(usize, usize, String)>)
    ensures
        Seq::new(r@.len(), |k: int| (r@[k].0 as int, r@[k].1 as int, r@[k].2@))
            == group_runs_from(Seq::new(groups@.len(), |k: int| crate::ir::opt_str_view(groups@[k])), 0),
{
    let ghost gs = Seq::new(groups@.len(), |k: int| crate::ir::opt_str_view(groups@[k]));
    let mut r: Vec<(usize, usize, String)> = Vec::new();
    let mut idx: usize = 0;
    while idx < groups.len()
        invariant
            idx <= groups.len(),
            gs == Seq::new(groups@.len(), |k: int| crate::ir::opt_str_view(groups@[k])),
            group_runs_from(gs, 0) == Seq::new(r@.len(), |k: int| (r@[k].0 as int, r@[k].1 as int, r@[k].2@))
                + group_runs_from(gs, idx as int),
        decreases groups.len() - idx,
    {
        let start = idx;
        let mut end = idx;
        proof {
            lemma_group_run_end(gs, idx as int);
        }
        while end + 1 < groups.len() && same_opt(&groups[end + 1], &groups[start])
            invariant
                start <= end < groups.len(),
                gs == Seq::new(groups@.len(), |k: int| crate::ir::opt_str_view(groups@[k])),
                group_run_end(gs, start as int) == group_run_end(gs, end as int),
                gs[end as int] == gs[start as int],
            decreases groups.len() - end,
        {
            end = end + 1;
        }
        let ghost before = Seq::new(r@.len(), |k: int| (r@[k].0 as int, r@[k].1 as int, r@[k].2@));
        match &groups[start] {
            Some(g) => {
                r.push((start, end, g.clone()));
            },
            None => {},
        }
        proof {
            assert(Seq::new(r@.len(), |k: int| (r@[k].0 as int, r@[k].1 as int, r@[k].2@)) =~= before + match gs[start as int] {
                Some(g) => seq![(start as int, end as int, g)],
                None => Seq::empty(),
            });
        }
        idx = end + 1;
    }
    proof {
        let v = Seq::new(r@.len(), |k: int| (r@[k].0 as int, r@[k].1 as int, r@[k].2@));
        assert(v + group_runs_from(gs, idx as int) =~= v);
    }
    r
}

fn same_opt(a: &Option<String>, b: &Option<String>) -> (r: bool)
    ensures
        r == (crate::ir::opt_str_view(*a) == crate::ir::opt_str_view(*b)),
{
    match (a, b) {
        (Some(x), Some(y)) => str_eq(x.as_str(), y.as_str()),
        (None, None) => true,
        _ => false,
    }
}

} // verus!
