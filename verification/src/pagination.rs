//! Splitting a timeline into chart pages by groups of lanes.
//!
//! Lanes are taken in lane order and cut into chunks of `lanes_per_page`; every page
//! keeps the whole time axis and holds exactly the items of its lanes, so no bar is ever
//! cut.

use vstd::prelude::*;
use crate::ir::{Item, ItemView, Lane, LaneView, Meta, TimelineIr, lanes_view, items_view, clone_imports, clone_sources, records_view, sources_view, opt_str_view};
use crate::layout::{RenderError, lane_order, is_lane_order, usizes_view};
use crate::table::is_permutation;
use crate::text::str_eq;

verus! {

/// Kind of a rendered page.
#[derive(Debug, Clone, Copy, PartialEq, Eq, Structural)]
pub enum PageKind {
    /// A chart of a subset of the lanes.
    Chart,
    /// The trailing table of every item.
    Table,
}

/// One rendered page.
#[derive(Debug)]
pub struct ChartPage {
    /// Ids of the lanes on this page, in lane order; empty for the table page.
    pub lane_ids: Vec<String>,
    /// The page's standalone SVG.
    pub svg: String,
    pub kind: PageKind,
}

/// The result of paginating by lane groups.
#[derive(Debug)]
pub struct ChartPagination {
    pub pages: Vec<ChartPage>,
    /// Group labels whose contiguous run of lanes was cut across two or more pages;
    /// callers must warn when this is not empty.
    pub group_bands_split_across_pages: Vec<String>,
}

/// Why lane-group pagination failed.
#[derive(Debug)]
pub enum PaginationError {
    /// `lanes_per_page` was 0.
    InvalidLanesPerPage,
    /// An item names a lane that no lane declares.
    UnknownLane { lane: String },
    /// Rendering a page failed.
    Render(RenderError),
}

/// The lanes of page `c`: positions `c·n .. min((c+1)·n, len)` of the lane order.
pub open spec fn chunk(order: Seq<int>, n: int, c: int) -> Seq<int> {
    let end = if (c + 1) * n < order.len() { (c + 1) * n } else { order.len() as int };
    order.subrange(c * n, end)
}

/// Number of pages for `len` lanes at `n` per page.
pub open spec fn chunk_count(len: int, n: int) -> int {
    (len + n - 1) / n
}

/// Whether some lane listed in `idx` has id `id`.
pub open spec fn on_lanes(lanes: Seq<LaneView>, idx: Seq<int>, id: Seq<char>) -> bool {
    exists|k: int| 0 <= k < idx.len() && #[trigger] lanes[idx[k]].id == id
}

/// The items whose lane is one of the lanes listed in `idx`, in item order.
pub open spec fn items_on(items: Seq<ItemView>, lanes: Seq<LaneView>, idx: Seq<int>) -> Seq<ItemView>
    decreases items.len(),
{
    if items.len() == 0 {
        Seq::empty()
    } else {
        items_on(items.drop_last(), lanes, idx)
            + if on_lanes(lanes, idx, items.last().info().lane) { seq![items.last()] } else { Seq::empty() }
    }
}

/// Index of the last lane of the run of equal groups that starts at `i`.
pub open spec fn run_end(groups: Seq<Option<Seq<char>>>, i: int) -> int
    decreases groups.len() - i,
{
    if i + 1 < groups.len() && groups[i + 1] == groups[i] { run_end(groups, i + 1) } else { i }
}

/// Labels of the runs of lanes, from position `i` on, that share a group and whose
/// first and last lanes fall on different pages of `n` lanes.
pub open spec fn split_groups_from(groups: Seq<Option<Seq<char>>>, n: int, i: int) -> Seq<Seq<char>>
    decreases groups.len() - i,
{
    if i < 0 || i >= groups.len() || n <= 0 {
        Seq::empty()
    } else {
        let e = run_end(groups, i);
        if e < i || e >= groups.len() {
            Seq::empty()
        } else {
            (match groups[i] {
                Some(g) => if i / n != e / n { seq![g] } else { Seq::empty() },
                None => Seq::empty(),
            }) + split_groups_from(groups, n, e + 1)
        }
    }
}

proof fn lemma_run_end_bounds(groups: Seq<Option<Seq<char>>>, i: int)
    requires
        0 <= i < groups.len(),
    ensures
        i <= run_end(groups, i) < groups.len(),
        forall|j: int| i <= j <= run_end(groups, i) ==> #[trigger] groups[j] == groups[i],
        run_end(groups, i) + 1 < groups.len() ==> groups[run_end(groups, i) + 1] != groups[i],
    decreases groups.len() - i,
{
    if i + 1 < groups.len() && groups[i + 1] == groups[i] {
        lemma_run_end_bounds(groups, i + 1);
    }
}

/// The groups of `lanes` taken in the order `order`.
pub open spec fn groups_in_order(lanes: Seq<LaneView>, order: Seq<int>) -> Seq<Option<Seq<char>>> {
    Seq::new(order.len(), |k: int| lanes[order[k]].group)
}

/// A lane-group page plan: the lane order, each page's timeline, and the groups cut.
pub struct LanePagePlan {
    /// Lane indices of each page, in lane order.
    pub chunks: Vec<Vec<usize>>,
    /// The timeline of each page: the whole `meta`, the page's lanes and their items.
    pub pages: Vec<TimelineIr>,
    /// Group labels whose run of lanes spans more than one page.
    pub group_bands_split_across_pages: Vec<String>,
}

pub open spec fn strings_view(v: Seq<String>) -> Seq<Seq<char>> {
    Seq::new(v.len(), |i: int| v[i]@)
}

/// Labels of the runs of equal `Some` groups (in `groups` order) whose first and last
/// positions are on different pages of `n`.
pub fn find_groups_split_across_chunks(groups: &Vec<Option<String>>, n: usize) -> (r: Vec<String>)
    requires
        n >= 1,
    ensures
        strings_view(r@) == split_groups_from(Seq::new(groups@.len(), |k: int| opt_str_view(groups@[k])), n as int, 0),
{
    let ghost gs = Seq::new(groups@.len(), |k: int| opt_str_view(groups@[k]));
    let mut r: Vec<String> = Vec::new();
    let mut idx: usize = 0;
    while idx < groups.len()
        invariant
            idx <= groups.len(),
            n >= 1,
            gs == Seq::new(groups@.len(), |k: int| opt_str_view(groups@[k])),
            split_groups_from(gs, n as int, 0) == strings_view(r@) + split_groups_from(gs, n as int, idx as int),
        decreases groups.len() - idx,
    {
        let start = idx;
        let mut end = idx;
        proof {
            lemma_run_end_bounds(gs, idx as int);
        }
        while end + 1 < groups.len() && same_group(&groups[end + 1], &groups[start])
            invariant
                start <= end < groups.len(),
                gs == Seq::new(groups@.len(), |k: int| opt_str_view(groups@[k])),
                run_end(gs, start as int) == run_end(gs, end as int),
                gs[end as int] == gs[start as int],
            decreases groups.len() - end,
        {
            end = end + 1;
        }
        proof {
            assert(run_end(gs, end as int) == end);
        }
        let ghost before = r@;
        match &groups[start] {
            Some(g) => {
                if start / n != end / n {
                    r.push(g.clone());
                }
            },
            None => {},
        }
        proof {
            assert(strings_view(r@) =~= strings_view(before) + match gs[start as int] {
                Some(g) => if (start as int) / (n as int) != (end as int) / (n as int) { seq![g] } else { Seq::empty() },
                None => Seq::empty(),
            });
        }
        idx = end + 1;
    }
    proof {
        assert(strings_view(r@) + split_groups_from(gs, n as int, idx as int) =~= strings_view(r@));
    }
    r
}

fn same_group(a: &Option<String>, b: &Option<String>) -> (r: bool)
    ensures
        r == (opt_str_view(*a) == opt_str_view(*b)),
{
    match (a, b) {
        (Some(x), Some(y)) => str_eq(x.as_str(), y.as_str()),
        (None, None) => true,
        _ => false,
    }
}

/// Whether the item's lane is one of the lanes at indices `idx`.
fn lane_in_chunk(lanes: &Vec<Lane>, idx: &Vec<usize>, id: &str) -> (r: bool)
    requires
        forall|k: int| 0 <= k < idx.len() ==> #[trigger] idx@[k] < lanes.len(),
    ensures
        r == on_lanes(lanes_view(lanes@), usizes_view(idx@), id@),
{
    let ghost lv = lanes_view(lanes@);
    let ghost iv = usizes_view(idx@);
    let mut k: usize = 0;
    while k < idx.len()
        invariant
            k <= idx.len(),
            lv == lanes_view(lanes@),
            iv == usizes_view(idx@),
            forall|j: int| 0 <= j < idx.len() ==> #[trigger] idx@[j] < lanes.len(),
            forall|j: int| 0 <= j < k ==> lv[iv[j]].id != id@,
        decreases idx.len() - k,
    {
        if str_eq(lanes[idx[k]].id.as_str(), id) {
            assert(lv[iv[k as int]].id == id@);
            return true;
        }
        k = k + 1;
    }
    false
}

/// The timeline of one page: the whole `meta`, the lanes at `idx`, and the items on them.
fn page_timeline(ir: &TimelineIr, idx: &Vec<usize>) -> (page: TimelineIr)
    requires
        forall|k: int| 0 <= k < idx.len() ==> #[trigger] idx@[k] < ir.lanes.len(),
    ensures
        page@.meta == ir@.meta,
        page@.lanes == Seq::new(idx@.len(), |k: int| ir@.lanes[idx@[k] as int]),
        page@.items == items_on(ir@.items, ir@.lanes, usizes_view(idx@)),
        page@.imports == ir@.imports,
        page@.sources == ir@.sources,
{
    let ghost lv = lanes_view(ir.lanes@);
    let ghost iv = items_view(ir.items@);
    let mut lanes: Vec<Lane> = Vec::new();
    let mut k: usize = 0;
    while k < idx.len()
        invariant
            k <= idx.len(),
            lv == lanes_view(ir.lanes@),
            forall|j: int| 0 <= j < idx.len() ==> #[trigger] idx@[j] < ir.lanes.len(),
            lanes.len() == k,
            forall|j: int| 0 <= j < k ==> #[trigger] lanes@[j]@ == lv[idx@[j] as int],
        decreases idx.len() - k,
    {
        lanes.push(ir.lanes[idx[k]].clone());
        k = k + 1;
    }
    let mut items: Vec<Item> = Vec::new();
    let mut i: usize = 0;
    while i < ir.items.len()
        invariant
            i <= ir.items.len(),
            lv == lanes_view(ir.lanes@),
            iv == items_view(ir.items@),
            forall|j: int| 0 <= j < idx.len() ==> #[trigger] idx@[j] < ir.lanes.len(),
            items_view(items@) == items_on(iv.take(i as int), lv, usizes_view(idx@)),
        decreases ir.items.len() - i,
    {
        let ghost before = items_view(items@);
        if lane_in_chunk(&ir.lanes, idx, ir.items[i].lane_id()) {
            items.push(ir.items[i].clone());
        }
        proof {
            assert(iv.take(i + 1).drop_last() =~= iv.take(i as int));
            assert(iv.take(i + 1).last() == ir.items@[i as int]@);
            assert(items_view(items@) =~= items_on(iv.take(i + 1), lv, usizes_view(idx@)));
        }
        i = i + 1;
    }
    assert(iv.take(ir.items.len() as int) =~= iv);
    let page = TimelineIr {
        meta: ir.meta.clone(),
        lanes,
        items,
        imports: clone_imports(&ir.imports),
        sources: clone_sources(&ir.sources),
    };
    assert(page@.lanes =~= Seq::new(idx@.len(), |k: int| ir@.lanes[idx@[k] as int]));
    page
}

/// What [`plan_lane_pages`] promises on success.
pub open spec fn lane_plan_spec(plan: LanePagePlan, ir: crate::ir::TimelineIrView, n: int) -> bool {
    exists|order: Seq<int>| #![trigger is_lane_order(order, ir.lanes)]
        is_lane_order(order, ir.lanes)
        && plan.chunks@.len() == chunk_count(ir.lanes.len() as int, n)
        && plan.pages@.len() == plan.chunks@.len()
        && (forall|c: int| 0 <= c < plan.chunks@.len() ==> usizes_view(#[trigger] plan.chunks@[c]@) == chunk(order, n, c))
        && (forall|c: int| 0 <= c < plan.pages@.len() ==> {
            let p = (#[trigger] plan.pages@[c])@;
            &&& p.meta == ir.meta
            &&& p.lanes == Seq::new(chunk(order, n, c).len(), |k: int| ir.lanes[chunk(order, n, c)[k]])
            &&& p.items == items_on(ir.items, ir.lanes, chunk(order, n, c))
            &&& p.imports == ir.imports
            &&& p.sources == ir.sources
        })
        && strings_view(plan.group_bands_split_across_pages@) == split_groups_from(groups_in_order(ir.lanes, order), n, 0)
}

/// Plans lane-group pagination: orders the lanes by `(order, id)`, cuts them into pages of
/// `lanes_per_page`, and builds each page's timeline (the whole time axis, the page's
/// lanes and exactly their items). Fails for a page size of 0, and when an item names a
/// lane that no lane declares (instead of dropping it from every page).
pub fn plan_lane_pages(ir: &TimelineIr, lanes_per_page: usize) -> (r: Result<LanePagePlan, PaginationError>)
    ensures
        lanes_per_page == 0 <==> r matches Err(PaginationError::InvalidLanesPerPage),
        lanes_per_page > 0 ==> match crate::layout::first_unknown_lane(ir@.items, ir@.lanes) {
            Some(k) => r matches Err(PaginationError::UnknownLane { lane }) && lane@ == ir@.items[k].info().lane,
            None => r matches Ok(plan) && lane_plan_spec(plan, ir@, lanes_per_page as int),
        },
{
    if lanes_per_page == 0 {
        return Err(PaginationError::InvalidLanesPerPage);
    }
    let n = lanes_per_page;
    let ghost lv = lanes_view(ir.lanes@);
    let order = lane_order(&ir.lanes);
    let ghost ov = usizes_view(order@);
    proof {
        assert forall|k: int| 0 <= k < order.len() implies #[trigger] order@[k] < ir.lanes.len() by {
            assert(ov[k] == order@[k] as int);
        }
    }
    // Lane indices of each page.
    let mut chunks: Vec<Vec<usize>> = Vec::new();
    let mut start: usize = 0;
    assert(chunks.len() * n == 0) by (nonlinear_arith) requires chunks.len() == 0;
    if order.len() == 0 {
        assert(chunk_count(0, n as int) == 0) by {
            assert((n as int - 1) / (n as int) == 0) by (nonlinear_arith) requires n >= 1;
        }
    }
    while start < order.len()
        invariant
            n >= 1,
            ov == usizes_view(order@),
            start <= order.len(),
            start < order.len() ==> start == chunks.len() * n,
            start == order.len() ==> chunks.len() == chunk_count(order.len() as int, n as int),
            forall|q: int, j: int| 0 <= q < chunks.len() && 0 <= j < chunks@[q].len() ==> #[trigger] chunks@[q]@[j] < ir.lanes.len(),
            forall|c: int| 0 <= c < chunks.len() ==> usizes_view(#[trigger] chunks@[c]@) == chunk(ov, n as int, c),
            forall|k: int| 0 <= k < order.len() ==> #[trigger] order@[k] < ir.lanes.len(),
        decreases order.len() - start,
    {
        let end = if order.len() - start > n { start + n } else { order.len() };
        let mut c: Vec<usize> = Vec::new();
        let mut k = start;
        while k < end
            invariant
                start <= k <= end,
                end <= order.len(),
                c.len() == k - start,
                forall|j: int| 0 <= j < c.len() ==> #[trigger] c@[j] == order@[start + j],
            decreases end - k,
        {
            c.push(order[k]);
            k = k + 1;
        }
        proof {
            let ci = chunks.len() as int;
            assert(ci * n == start);
            assert((ci + 1) * n == start + n) by (nonlinear_arith) requires ci * n == start;
            assert(usizes_view(c@) =~= chunk(ov, n as int, ci));
            if end == order.len() {
                assert(chunk_count(order.len() as int, n as int) == ci + 1) by {
                    assert((order.len() + n - 1) / (n as int) == ci + 1) by (nonlinear_arith)
                        requires ci * n == start, start < order.len(), order.len() <= start + n, n >= 1;
                }
            }
        }
        chunks.push(c);
        start = end;
    }
    // Groups in lane order, and the runs of them cut across pages.
    let mut groups: Vec<Option<String>> = Vec::new();
    let mut g: usize = 0;
    while g < order.len()
        invariant
            g <= order.len(),
            lv == lanes_view(ir.lanes@),
            ov == usizes_view(order@),
            forall|k: int| 0 <= k < order.len() ==> #[trigger] order@[k] < ir.lanes.len(),
            groups.len() == g,
            forall|j: int| 0 <= j < g ==> opt_str_view(#[trigger] groups@[j]) == lv[ov[j]].group,
        decreases order.len() - g,
    {
        groups.push(crate::ir::clone_opt_string(&ir.lanes[order[g]].group));
        g = g + 1;
    }
    let split = find_groups_split_across_chunks(&groups, n);
    proof {
        assert(Seq::new(groups@.len(), |k: int| opt_str_view(groups@[k])) =~= groups_in_order(lv, ov));
    }
    match crate::layout::find_unknown_lane_item(&ir.items, &ir.lanes) {
        Some(k) => {
            proof {
                let iv = ir@.items;
                assert(!crate::layout::lane_declared(lv, iv[k as int].info().lane));
                let w = crate::layout::first_unknown_lane(iv, lv);
                assert(w is Some);
                let j = w.unwrap();
                if j < k {
                    assert(crate::layout::lane_declared(lv, ir.items@[j]@.info().lane));
                }
                if k < j {
                    assert(crate::layout::lane_declared(lv, iv[k as int].info().lane));
                }
            }
            return Err(PaginationError::UnknownLane { lane: String::from_str(ir.items[k].lane_id()) });
        },
        None => {
            proof {
                let iv = ir@.items;
                if exists|k: int| 0 <= k < iv.len() && !crate::layout::lane_declared(lv, #[trigger] iv[k].info().lane) {
                    let k = choose|k: int| 0 <= k < iv.len() && !crate::layout::lane_declared(lv, #[trigger] iv[k].info().lane);
                    assert(crate::layout::lane_declared(lv, ir.items@[k]@.info().lane));
                }
            }
        },
    }
    // One timeline per page.
    let mut pages: Vec<TimelineIr> = Vec::new();
    let mut c: usize = 0;
    while c < chunks.len()
        invariant
            c <= chunks.len(),
            ov == usizes_view(order@),
            forall|k: int| 0 <= k < order.len() ==> #[trigger] order@[k] < ir.lanes.len(),
            forall|q: int| 0 <= q < chunks.len() ==> usizes_view(#[trigger] chunks@[q]@) == chunk(ov, n as int, q),
            forall|q: int, j: int| 0 <= q < chunks.len() && 0 <= j < chunks@[q].len() ==> #[trigger] chunks@[q]@[j] < ir.lanes.len(),
            pages.len() == c,
            forall|q: int| 0 <= q < c ==> {
                let p = (#[trigger] pages@[q])@;
                &&& p.meta == ir@.meta
                &&& p.lanes == Seq::new(chunk(ov, n as int, q).len(), |k: int| ir@.lanes[chunk(ov, n as int, q)[k]])
                &&& p.items == items_on(ir@.items, ir@.lanes, chunk(ov, n as int, q))
                &&& p.imports == ir@.imports
                &&& p.sources == ir@.sources
            },
        decreases chunks.len() - c,
    {
        let p = page_timeline(ir, &chunks[c]);
        proof {
            let cv = usizes_view(chunks@[c as int]@);
            assert(p@.lanes =~= Seq::new(chunk(ov, n as int, c as int).len(), |k: int| ir@.lanes[chunk(ov, n as int, c as int)[k]]));
        }
        pages.push(p);
        c = c + 1;
    }
    let plan = LanePagePlan { chunks, pages, group_bands_split_across_pages: split };
    assert(lane_plan_spec(plan, ir@, n as int));
    Ok(plan)
}

/// Every lane is on exactly one page: with lane order `order` (a permutation of the
/// lanes), the lane at position `k` of the order is on page `k / n` and on no other.
proof fn lemma_permutation_onto(perm: Seq<int>, n: int, x: int)
    requires
        is_permutation(perm, n),
        0 <= x < n,
    ensures
        exists|k: int| 0 <= k < n && perm[k] == x,
{
    broadcast use vstd::seq_lib::seq_to_set_is_finite;
    assert(perm.no_duplicates()) by {
        assert forall|i: int, j: int| 0 <= i < perm.len() && 0 <= j < perm.len() && i != j implies perm[i] != perm[j] by {
            if i < j {
                assert(perm[i] != perm[j]);
            } else {
                assert(perm[j] != perm[i]);
            }
        }
    }
    perm.unique_seq_to_set();
    vstd::set_lib::lemma_int_range(0, n);
    let range = vstd::set_lib::set_int_range(0, n);
    assert(perm.to_set().subset_of(range)) by {
        assert forall|v: int| perm.to_set().contains(v) implies range.contains(v) by {
            let k = choose|k: int| 0 <= k < perm.len() && perm[k] == v;
            assert(0 <= perm[k] < n);
        }
    }
    vstd::set_lib::lemma_subset_equality(perm.to_set(), range);
    assert(range.contains(x));
    assert(perm.to_set().contains(x));
}

/// With distinct lane ids, the lanes of exactly one page include the lane of any item
/// whose lane is declared: every such item is drawn on exactly one page.
pub proof fn lemma_each_item_on_one_page(order: Seq<int>, lanes: Seq<LaneView>, n: int, id: Seq<char>)
    requires
        n >= 1,
        is_lane_order(order, lanes),
        forall|a: int, b: int| 0 <= a < b < lanes.len() ==> lanes[a].id != lanes[b].id,
        crate::layout::lane_declared(lanes, id),
    ensures
        exists|c: int| 0 <= c < chunk_count(lanes.len() as int, n) && on_lanes(lanes, #[trigger] chunk(order, n, c), id)
            && forall|c2: int| 0 <= c2 < chunk_count(lanes.len() as int, n) && on_lanes(lanes, #[trigger] chunk(order, n, c2), id) ==> c2 == c,
{
    let l = choose|l: int| 0 <= l < lanes.len() && #[trigger] lanes[l].id == id;
    lemma_permutation_onto(order, lanes.len() as int, l);
    let k = choose|k: int| 0 <= k < lanes.len() && order[k] == l;
    lemma_each_lane_on_one_page(order, n, k);
    let c = k / n;
    let ch = chunk(order, n, c);
    let j = choose|j: int| 0 <= j < ch.len() && ch[j] == order[k];
    assert(lanes[ch[j]].id == id);
    assert(on_lanes(lanes, ch, id));
    assert forall|c2: int| 0 <= c2 < chunk_count(lanes.len() as int, n) && on_lanes(lanes, #[trigger] chunk(order, n, c2), id) implies c2 == c by {
        let ch2 = chunk(order, n, c2);
        let j2 = choose|j2: int| 0 <= j2 < ch2.len() && #[trigger] lanes[ch2[j2]].id == id;
        let len = order.len() as int;
        let end = if (c2 + 1) * n < len { (c2 + 1) * n } else { len };
        assert(0 <= c2 * n) by (nonlinear_arith) requires 0 <= c2, n >= 1;
        assert(c2 * n < len) by (nonlinear_arith) requires 0 <= c2, c2 < (len + n - 1) / n, n >= 1;
        assert((c2 + 1) * n == c2 * n + n) by (nonlinear_arith);
        assert(c2 * n <= end <= len);
        assert(ch2 == order.subrange(c2 * n, end));
        assert(ch2[j2] == order[c2 * n + j2]);
        let x = ch2[j2];
        assert(0 <= x < lanes.len());
        if x != l {
            if x < l {
                assert(lanes[x].id != lanes[l].id);
            } else {
                assert(lanes[l].id != lanes[x].id);
            }
        }
        assert(ch2.contains(order[k]));
        if c2 != c {
            if exists|k2: int| 0 <= k2 < order.len() && k2 != k && order[k2] == order[k] {
                let k2 = choose|k2: int| 0 <= k2 < order.len() && k2 != k && order[k2] == order[k];
                if k2 < k {
                    assert(order[k2] != order[k]);
                } else {
                    assert(order[k] != order[k2]);
                }
            }
        }
    }
}

pub proof fn lemma_each_lane_on_one_page(order: Seq<int>, n: int, k: int)
    requires
        n >= 1,
        0 <= k < order.len(),
    ensures
        0 <= k / n < chunk_count(order.len() as int, n),
        chunk(order, n, k / n).contains(order[k]),
        forall|c: int| 0 <= c < chunk_count(order.len() as int, n) && c != k / n
            ==> !(#[trigger] chunk(order, n, c)).contains(order[k]) || exists|k2: int| 0 <= k2 < order.len() && k2 != k && order[k2] == order[k],
{
    let c = k / n;
    vstd::arithmetic::div_mod::lemma_fundamental_div_mod(k, n);
    assert(c * n <= k < c * n + n) by (nonlinear_arith) requires k == n * (k / n) + k % n, 0 <= k % n < n, c == k / n;
    assert(0 <= c) by (nonlinear_arith) requires k >= 0, n >= 1, c == k / n;
    assert(c < chunk_count(order.len() as int, n)) by {
        let len = order.len() as int;
        assert((len + n - 1) / n >= c + 1) by (nonlinear_arith)
            requires c * n <= k, k < len, n >= 1, c >= 0;
    }
    assert((c + 1) * n == c * n + n) by (nonlinear_arith);
    let ch = chunk(order, n, c);
    assert(ch[k - c * n] == order[k]);
    assert forall|c2: int| 0 <= c2 < chunk_count(order.len() as int, n) && c2 != c
        implies !(#[trigger] chunk(order, n, c2)).contains(order[k]) || exists|k2: int| 0 <= k2 < order.len() && k2 != k && order[k2] == order[k] by {
        let ch2 = chunk(order, n, c2);
        let len = order.len() as int;
        assert((c2 + 1) * n == c2 * n + n) by (nonlinear_arith);
        assert(0 <= c2 * n < len) by (nonlinear_arith)
            requires 0 <= c2, c2 < (len + n - 1) / n, n >= 1;
        if ch2.contains(order[k]) {
            let j = choose|j: int| 0 <= j < ch2.len() && ch2[j] == order[k];
            let k2 = c2 * n + j;
            assert(ch2[j] == order[k2]);
            assert(k2 != k) by (nonlinear_arith)
                requires k2 == c2 * n + j, 0 <= j < n, c * n <= k < c * n + n, c2 != c;
        }
    }
}

/// The lanes of every page, page by page.
pub open spec fn page_lanes(order: Seq<int>, n: int) -> Seq<Seq<int>> {
    Seq::new(chunk_count(order.len() as int, n) as nat, |c: int| chunk(order, n, c))
}

proof fn lemma_chunks_concat_from(order: Seq<int>, n: int, c0: int)
    requires
        n >= 1,
        0 <= c0 <= chunk_count(order.len() as int, n),
    ensures
        Seq::new((chunk_count(order.len() as int, n) - c0) as nat, |c: int| chunk(order, n, c0 + c)).flatten()
            == if c0 * n < order.len() { order.subrange(c0 * n, order.len() as int) } else { Seq::empty() },
    decreases chunk_count(order.len() as int, n) - c0,
{
    let len = order.len() as int;
    let cc = chunk_count(len, n);
    let s = Seq::new((cc - c0) as nat, |c: int| chunk(order, n, c0 + c));
    vstd::arithmetic::div_mod::lemma_fundamental_div_mod(len + n - 1, n);
    if c0 == cc {
        assert(c0 * n >= len) by (nonlinear_arith)
            requires c0 == cc, len + n - 1 == n * cc + (len + n - 1) % n, 0 <= (len + n - 1) % n < n;
    } else {
        assert(c0 * n < len) by (nonlinear_arith)
            requires c0 < cc, len + n - 1 == n * cc + (len + n - 1) % n, 0 <= (len + n - 1) % n < n, c0 >= 0, n >= 1;
        assert(0 <= c0 * n) by (nonlinear_arith) requires c0 >= 0, n >= 1;
        assert((c0 + 1) * n == c0 * n + n) by (nonlinear_arith);
        lemma_chunks_concat_from(order, n, c0 + 1);
        let rest = Seq::new((cc - (c0 + 1)) as nat, |c: int| chunk(order, n, c0 + 1 + c));
        assert(s.drop_first() =~= rest);
        assert(s.first() == chunk(order, n, c0));
        assert(s.flatten() == s.first() + s.drop_first().flatten());
        assert(s.flatten() =~= order.subrange(c0 * n, len));
    }
}

proof fn lemma_items_on_members(items: Seq<ItemView>, lanes: Seq<LaneView>, idx: Seq<int>)
    ensures
        forall|i: int| 0 <= i < items.len() && on_lanes(lanes, idx, items[i].info().lane)
            ==> #[trigger] items_on(items, lanes, idx).contains(items[i]),
        forall|x: ItemView| #[trigger] items_on(items, lanes, idx).contains(x)
            ==> items.contains(x) && on_lanes(lanes, idx, x.info().lane),
    decreases items.len(),
{
    if items.len() > 0 {
        let init = items.drop_last();
        lemma_items_on_members(init, lanes, idx);
        let r = items_on(init, lanes, idx);
        let tail = if on_lanes(lanes, idx, items.last().info().lane) { seq![items.last()] } else { Seq::<ItemView>::empty() };
        assert(items_on(items, lanes, idx) == r + tail);
        assert forall|i: int| 0 <= i < items.len() && on_lanes(lanes, idx, items[i].info().lane)
            implies #[trigger] items_on(items, lanes, idx).contains(items[i]) by {
            if i == items.len() - 1 {
                assert((r + tail)[r.len() as int] == items[i]);
            } else {
                assert(init[i] == items[i]);
                assert(r.contains(init[i]));
                let k = choose|k: int| 0 <= k < r.len() && r[k] == init[i];
                assert((r + tail)[k] == items[i]);
            }
        }
        assert forall|x: ItemView| #[trigger] items_on(items, lanes, idx).contains(x)
            implies items.contains(x) && on_lanes(lanes, idx, x.info().lane) by {
            let k = choose|k: int| 0 <= k < (r + tail).len() && (r + tail)[k] == x;
            if k < r.len() {
                assert(r[k] == x);
                assert(r.contains(x));
                let m = choose|m: int| 0 <= m < init.len() && init[m] == x;
                assert(items[m] == x);
            } else {
                assert(x == items.last());
                assert(items[items.len() - 1] == x);
            }
        }
    }
}

/// The pages of a lane plan partition the timeline: the pages' lanes, page after page,
/// are the lanes in `(order, id)` order, each page holding `n` of them but the last; a
/// page draws an item exactly when the item's lane is on it, and nothing else; and with
/// distinct lane ids every item whose lane is declared is drawn on exactly one page.
pub proof fn lemma_lane_pages_partition(plan: LanePagePlan, ir: crate::ir::TimelineIrView, n: int)
    requires
        n >= 1,
        lane_plan_spec(plan, ir, n),
    ensures
        exists|order: Seq<int>| #![trigger is_lane_order(order, ir.lanes)] {
            &&& is_lane_order(order, ir.lanes)
            &&& plan.chunks@.len() == chunk_count(ir.lanes.len() as int, n)
            &&& page_lanes(order, n).flatten() == order
            &&& forall|c: int| 0 <= c < plan.chunks@.len() ==> usizes_view(#[trigger] plan.chunks@[c]@) == page_lanes(order, n)[c]
            &&& forall|c: int| 0 <= c < page_lanes(order, n).len() - 1 ==> #[trigger] page_lanes(order, n)[c].len() == n
            &&& forall|c: int, i: int| 0 <= c < plan.pages@.len() && 0 <= i < ir.items.len()
                    && on_lanes(ir.lanes, chunk(order, n, c), ir.items[i].info().lane)
                    ==> #[trigger] plan.pages@[c]@.items.contains(#[trigger] ir.items[i])
            &&& forall|c: int, x: ItemView| 0 <= c < plan.pages@.len() && #[trigger] plan.pages@[c]@.items.contains(x)
                    ==> ir.items.contains(x) && on_lanes(ir.lanes, chunk(order, n, c), x.info().lane)
            &&& (forall|a: int, b: int| 0 <= a < b < ir.lanes.len() ==> ir.lanes[a].id != ir.lanes[b].id) ==>
                    forall|i: int| 0 <= i < ir.items.len() && crate::layout::lane_declared(ir.lanes, #[trigger] ir.items[i].info().lane)
                    ==> exists|c: int| 0 <= c < chunk_count(ir.lanes.len() as int, n) && on_lanes(ir.lanes, #[trigger] chunk(order, n, c), ir.items[i].info().lane)
                        && forall|c2: int| 0 <= c2 < chunk_count(ir.lanes.len() as int, n) && on_lanes(ir.lanes, #[trigger] chunk(order, n, c2), ir.items[i].info().lane) ==> c2 == c
        },
{
    let order = choose|order: Seq<int>| #![trigger is_lane_order(order, ir.lanes)]
        is_lane_order(order, ir.lanes)
        && plan.chunks@.len() == chunk_count(ir.lanes.len() as int, n)
        && plan.pages@.len() == plan.chunks@.len()
        && (forall|c: int| 0 <= c < plan.chunks@.len() ==> usizes_view(#[trigger] plan.chunks@[c]@) == chunk(order, n, c))
        && (forall|c: int| 0 <= c < plan.pages@.len() ==> {
            let p = (#[trigger] plan.pages@[c])@;
            &&& p.meta == ir.meta
            &&& p.lanes == Seq::new(chunk(order, n, c).len(), |k: int| ir.lanes[chunk(order, n, c)[k]])
            &&& p.items == items_on(ir.items, ir.lanes, chunk(order, n, c))
            &&& p.imports == ir.imports
            &&& p.sources == ir.sources
        })
        && strings_view(plan.group_bands_split_across_pages@) == split_groups_from(groups_in_order(ir.lanes, order), n, 0);
    let len = order.len() as int;
    assert(len == ir.lanes.len());
    lemma_chunks_concat_from(order, n, 0);
    assert(Seq::new((chunk_count(len, n) - 0) as nat, |c: int| chunk(order, n, 0 + c)) =~= page_lanes(order, n));
    if len > 0 {
        assert(order.subrange(0, len) =~= order);
    } else {
        assert(order =~= Seq::<int>::empty());
    }
    assert forall|c: int| 0 <= c < page_lanes(order, n).len() - 1 implies #[trigger] page_lanes(order, n)[c].len() == n by {
        let cc = chunk_count(len, n);
        vstd::arithmetic::div_mod::lemma_fundamental_div_mod(len + n - 1, n);
        assert((c + 1) * n < len + 1) by (nonlinear_arith)
            requires c + 1 < cc, len + n - 1 == n * cc + (len + n - 1) % n, 0 <= (len + n - 1) % n < n, c >= 0, n >= 1;
        assert((c + 1) * n == c * n + n) by (nonlinear_arith);
        assert(0 <= c * n) by (nonlinear_arith) requires c >= 0, n >= 1;
    }
    assert forall|c: int, i: int| 0 <= c < plan.pages@.len() && 0 <= i < ir.items.len()
        && on_lanes(ir.lanes, chunk(order, n, c), ir.items[i].info().lane)
        implies #[trigger] plan.pages@[c]@.items.contains(#[trigger] ir.items[i]) by {
        lemma_items_on_members(ir.items, ir.lanes, chunk(order, n, c));
    }
    assert forall|c: int, x: ItemView| 0 <= c < plan.pages@.len() && #[trigger] plan.pages@[c]@.items.contains(x)
        implies ir.items.contains(x) && on_lanes(ir.lanes, chunk(order, n, c), x.info().lane) by {
        lemma_items_on_members(ir.items, ir.lanes, chunk(order, n, c));
    }
    if forall|a: int, b: int| 0 <= a < b < ir.lanes.len() ==> ir.lanes[a].id != ir.lanes[b].id {
        assert forall|i: int| 0 <= i < ir.items.len() && crate::layout::lane_declared(ir.lanes, #[trigger] ir.items[i].info().lane)
            implies exists|c: int| 0 <= c < chunk_count(ir.lanes.len() as int, n) && on_lanes(ir.lanes, #[trigger] chunk(order, n, c), ir.items[i].info().lane)
                && forall|c2: int| 0 <= c2 < chunk_count(ir.lanes.len() as int, n) && on_lanes(ir.lanes, #[trigger] chunk(order, n, c2), ir.items[i].info().lane) ==> c2 == c by {
            lemma_each_item_on_one_page(order, ir.lanes, n, ir.items[i].info().lane);
        }
    }
}

} // verus!
