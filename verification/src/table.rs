//! The "all items" table: one row per item, in chronological order.

use vstd::prelude::*;
use crate::text::{chars_of, compare_chars, seq_lt, push_str, str_eq, lemma_seq_lt_irrefl, lemma_seq_lt_trans, lemma_seq_lt_total};
use crate::ir::{Item, ItemView, Lane, LaneView, lanes_view, items_view, strs_view, DateParts};
use crate::format::{join, join_strings, parts_text, format_date};

verus! {

/// Column header: time period.
pub const TABLE_COL_TIME: &'static str = "時期";
/// Column header: label.
pub const TABLE_COL_LABEL: &'static str = "ラベル";
/// Column header: lane.
pub const TABLE_COL_LANE: &'static str = "レーン";
/// Column header: tags.
pub const TABLE_COL_TAGS: &'static str = "タグ";

/// A single row of the item table.
pub struct TableRow {
    /// Start (or point) year, the first sort key.
    pub sort_year: i64,
    /// Item kind order: 0 span, 1 ranged event, 2 point event.
    pub sort_type: u8,
    /// Formatted time period, e.g. `BC206〜220` or `1944 Jun 6`.
    pub time_str: String,
    pub label: String,
    pub lane_label: String,
    pub tags: String,
}

pub struct TableRowView {
    pub sort_year: i64,
    pub sort_type: u8,
    pub time_str: Seq<char>,
    pub label: Seq<char>,
    pub lane_label: Seq<char>,
    pub tags: Seq<char>,
}

impl View for TableRow {
    type V = TableRowView;

    open spec fn view(&self) -> TableRowView {
        TableRowView {
            sort_year: self.sort_year,
            sort_type: self.sort_type,
            time_str: self.time_str@,
            label: self.label@,
            lane_label: self.lane_label@,
            tags: self.tags@,
        }
    }
}

pub open spec fn rows_view(v: Seq<TableRow>) -> Seq<TableRowView> {
    Seq::new(v.len(), |i: int| v[i]@)
}

/// The display label of the first lane with id `id`, or `id` itself when no lane has it.
pub open spec fn lane_label_of(lanes: Seq<LaneView>, id: Seq<char>) -> Seq<char>
    decreases lanes.len(),
{
    if lanes.len() == 0 {
        id
    } else if lanes[0].id == id {
        lanes[0].label
    } else {
        lane_label_of(lanes.drop_first(), id)
    }
}

/// Resolves a lane id to its display label (the id itself when no lane has it).
pub fn lane_label_lookup(lanes: &[Lane], lane_id: &str) -> (s: String)
    ensures
        s@ == lane_label_of(lanes_view(lanes@), lane_id@),
{
    let ghost all = lanes_view(lanes@);
    let mut i: usize = 0;
    assert(all.skip(0) =~= all);
    while i < lanes.len()
        invariant
            i <= lanes.len(),
            all == lanes_view(lanes@),
            lane_label_of(all, lane_id@) == lane_label_of(all.skip(i as int), lane_id@),
        decreases lanes.len() - i,
    {
        assert(all.skip(i as int)[0] == lanes@[i as int]@);
        if str_eq(lanes[i].id.as_str(), lane_id) {
            return lanes[i].label.clone();
        }
        assert(all.skip(i as int).drop_first() =~= all.skip(i + 1));
        i = i + 1;
    }
    assert(all.skip(i as int).len() == 0);
    String::from_str(lane_id)
}

/// The row an item contributes to the table.
pub open spec fn table_row_of(item: ItemView, lanes: Seq<LaneView>) -> TableRowView {
    TableRowView {
        sort_year: match item {
            ItemView::Span { start, .. } => start,
            ItemView::EventRange { start, .. } => start,
            ItemView::Event { time, .. } => time,
        },
        sort_type: match item {
            ItemView::Span { .. } => 0u8,
            ItemView::EventRange { .. } => 1u8,
            ItemView::Event { .. } => 2u8,
        },
        time_str: match item {
            ItemView::Span { start, start_at, end, end_at, .. } =>
                parts_text(start as int, start_at) + "〜"@ + parts_text(end as int, end_at),
            ItemView::EventRange { start, start_at, end, end_at, .. } =>
                parts_text(start as int, start_at) + "〜"@ + parts_text(end as int, end_at),
            ItemView::Event { time, time_at, .. } => parts_text(time as int, time_at),
        },
        label: item.info().label,
        lane_label: lane_label_of(lanes, item.info().lane),
        tags: join(item.info().tags, ", "@),
    }
}

/// Table order: year, then kind, then label; rows equal on all three keep item order
/// (`ia`, `ib` are the rows' item indices).
pub open spec fn row_before(a: TableRowView, ia: int, b: TableRowView, ib: int) -> bool {
    if a.sort_year != b.sort_year {
        a.sort_year < b.sort_year
    } else if a.sort_type != b.sort_type {
        a.sort_type < b.sort_type
    } else if a.label != b.label {
        seq_lt(a.label, b.label)
    } else {
        ia < ib
    }
}

/// Table order is transitive.
pub proof fn lemma_row_before_trans(a: TableRowView, ia: int, b: TableRowView, ib: int, c: TableRowView, ic: int)
    requires
        row_before(a, ia, b, ib),
        row_before(b, ib, c, ic),
    ensures
        row_before(a, ia, c, ic),
{
    if a.sort_year == b.sort_year && b.sort_year == c.sort_year && a.sort_type == b.sort_type
        && b.sort_type == c.sort_type {
        if a.label != b.label && b.label != c.label {
            lemma_seq_lt_trans(a.label, b.label, c.label);
        }
        if a.label == c.label && a.label != b.label {
            lemma_seq_lt_trans(a.label, b.label, a.label);
            lemma_seq_lt_irrefl(a.label);
        }
    }
}

/// Table order is total on rows of distinct items.
pub proof fn lemma_row_before_total(a: TableRowView, ia: int, b: TableRowView, ib: int)
    requires
        ia != ib,
    ensures
        row_before(a, ia, b, ib) || row_before(b, ib, a, ia),
{
    lemma_seq_lt_total(a.label, b.label);
}

/// `perm` lists each of `0..n` exactly once.
pub open spec fn is_permutation(perm: Seq<int>, n: int) -> bool {
    &&& perm.len() == n
    &&& forall|k: int| 0 <= k < n ==> 0 <= #[trigger] perm[k] < n
    &&& forall|j: int, k: int| 0 <= j < k < n ==> perm[j] != perm[k]
}

/// `rows` holds the row of item `perm[k]` at position `k`, in table order.
pub open spec fn table_rows_spec(rows: Seq<TableRowView>, items: Seq<ItemView>, lanes: Seq<LaneView>, perm: Seq<int>) -> bool {
    &&& is_permutation(perm, items.len() as int)
    &&& rows.len() == items.len()
    &&& forall|k: int| 0 <= k < rows.len() ==> #[trigger] rows[k] == table_row_of(items[perm[k]], lanes)
    &&& forall|j: int, k: int| 0 <= j < k < rows.len() ==> row_before(rows[j], perm[j], rows[k], perm[k])
}

/// The year an item is filed under: the start of a span or ranged event, the time of a
/// point event.
pub open spec fn filing_year(item: ItemView) -> int {
    match item {
        ItemView::Span { start, .. } => start as int,
        ItemView::EventRange { start, .. } => start as int,
        ItemView::Event { time, .. } => time as int,
    }
}

/// The table is chronological: rows come in order of their items' years; within a year
/// spans come before ranged events and ranged events before point events; items of one
/// year and kind come in label order, and each row shows its item's label.
pub proof fn lemma_table_is_chronological(rows: Seq<TableRowView>, items: Seq<ItemView>, lanes: Seq<LaneView>, perm: Seq<int>)
    requires
        table_rows_spec(rows, items, lanes, perm),
    ensures
        forall|k: int| 0 <= k < rows.len() ==> (#[trigger] rows[k]).label == items[perm[k]].info().label,
        forall|j: int, k: int| 0 <= j < k < rows.len() ==> {
            let a = #[trigger] items[perm[j]];
            let b = #[trigger] items[perm[k]];
            &&& filing_year(a) <= filing_year(b)
            &&& filing_year(a) == filing_year(b) && b is Span ==> a is Span
            &&& filing_year(a) == filing_year(b) && a is Event ==> b is Event
            &&& filing_year(a) == filing_year(b) && (a is Span <==> b is Span) && (a is Event <==> b is Event)
                ==> !seq_lt(b.info().label, a.info().label)
        },
{
    assert forall|j: int, k: int| 0 <= j < k < rows.len() implies {
        let a = #[trigger] items[perm[j]];
        let b = #[trigger] items[perm[k]];
        &&& filing_year(a) <= filing_year(b)
        &&& filing_year(a) == filing_year(b) && b is Span ==> a is Span
        &&& filing_year(a) == filing_year(b) && a is Event ==> b is Event
        &&& filing_year(a) == filing_year(b) && (a is Span <==> b is Span) && (a is Event <==> b is Event)
            ==> !seq_lt(b.info().label, a.info().label)
    } by {
        assert(rows[j] == table_row_of(items[perm[j]], lanes));
        assert(rows[k] == table_row_of(items[perm[k]], lanes));
        assert(row_before(rows[j], perm[j], rows[k], perm[k]));
        let (a, b) = (items[perm[j]], items[perm[k]]);
        if rows[j].label != rows[k].label && seq_lt(rows[k].label, rows[j].label) && seq_lt(rows[j].label, rows[k].label) {
            lemma_seq_lt_trans(rows[k].label, rows[j].label, rows[k].label);
            lemma_seq_lt_irrefl(rows[k].label);
        }
        if rows[j].label == rows[k].label {
            lemma_seq_lt_irrefl(rows[k].label);
        }
    }
    assert forall|k: int| 0 <= k < rows.len() implies (#[trigger] rows[k]).label == items[perm[k]].info().label by {
        assert(rows[k] == table_row_of(items[perm[k]], lanes));
    }
}

fn push_parts(out: &mut String, year: i64, p: DateParts)
    ensures
        final(out)@ == old(out)@ + parts_text(year as int, p),
{
    let d = format_date(year, p.month, p.day, p.hour, p.minute);
    push_str(out, d.as_str());
}

/// Builds the table row of one item.
fn make_row(item: &Item, lanes: &[Lane]) -> (r: TableRow)
    ensures
        r@ == table_row_of(item@, lanes_view(lanes@)),
{
    let info = item.info();
    let mut time_str = String::new();
    let (sort_year, sort_type): (i64, u8) = match item {
        Item::Span { start, start_at, end, end_at, .. } => {
            push_parts(&mut time_str, *start, *start_at);
            push_str(&mut time_str, "〜");
            push_parts(&mut time_str, *end, *end_at);
            (*start, 0u8)
        },
        Item::EventRange { start, start_at, end, end_at, .. } => {
            push_parts(&mut time_str, *start, *start_at);
            push_str(&mut time_str, "〜");
            push_parts(&mut time_str, *end, *end_at);
            (*start, 1u8)
        },
        Item::Event { time, time_at, .. } => {
            push_parts(&mut time_str, *time, *time_at);
            (*time, 2u8)
        },
    };
    let r = TableRow {
        sort_year,
        sort_type,
        time_str,
        label: info.label.clone(),
        lane_label: lane_label_lookup(lanes, info.lane.as_str()),
        tags: join_strings(&info.tags, ", "),
    };
    assert(r@.time_str =~= table_row_of(item@, lanes_view(lanes@)).time_str);
    r
}

/// Row `a` sorts strictly before row `b` on (year, kind, label).
pub open spec fn key_lt(a: TableRowView, b: TableRowView) -> bool {
    if a.sort_year != b.sort_year { a.sort_year < b.sort_year }
    else if a.sort_type != b.sort_type { a.sort_type < b.sort_type }
    else { seq_lt(a.label, b.label) }
}

/// Whether row `a` sorts strictly before row `b` on (year, kind, label).
fn key_less(a: &TableRow, a_label: &Vec<char>, b: &TableRow, b_label: &Vec<char>) -> (r: bool)
    requires
        a_label@ == a.label@,
        b_label@ == b.label@,
    ensures
        r == key_lt(a@, b@),
{
    if a.sort_year != b.sort_year {
        a.sort_year < b.sort_year
    } else if a.sort_type != b.sort_type {
        a.sort_type < b.sort_type
    } else {
        compare_chars(a_label.as_slice(), b_label.as_slice()) == -1
    }
}

/// Collects one row per item and sorts them by year, then kind (span, ranged event,
/// point event), then label; items equal on all three keep the order they are given in.
/// Lane ids are shown by the label of the first lane in `lanes` with that id.
pub fn collect_table_rows(items: &Vec<Item>, lanes: &[Lane]) -> (rows: Vec<TableRow>)
    ensures
        exists|perm: Seq<int>| table_rows_spec(rows_view(rows@), items_view(items@), lanes_view(lanes@), perm),
{
    let ghost iv = items_view(items@);
    let ghost lv = lanes_view(lanes@);
    let mut rows: Vec<TableRow> = Vec::new();
    let mut labels: Vec<Vec<char>> = Vec::new();
    let ghost mut perm: Seq<int> = Seq::empty();
    let mut i: usize = 0;
    while i < items.len()
        invariant
            i <= items.len(),
            iv == items_view(items@),
            lv == lanes_view(lanes@),
            rows.len() == i,
            labels.len() == i,
            perm.len() == i,
            forall|k: int| 0 <= k < i ==> #[trigger] labels@[k]@ == rows@[k].label@,
            forall|k: int| 0 <= k < i ==> 0 <= #[trigger] perm[k] < i,
            forall|j: int, k: int| 0 <= j < k < i ==> perm[j] != perm[k],
            forall|k: int| 0 <= k < i ==> #[trigger] rows@[k]@ == table_row_of(iv[perm[k]], lv),
            forall|j: int, k: int| 0 <= j < k < i ==> row_before(rows@[j]@, perm[j], rows@[k]@, perm[k]),
        decreases items.len() - i,
    {
        let row = make_row(&items[i], lanes);
        let label = chars_of(row.label.as_str());
        // First position whose row sorts strictly after the new one on the visible keys.
        let mut p: usize = 0;
        let mut stop = false;
        while p < rows.len() && !stop
            invariant
                p <= rows.len(),
                rows.len() == i,
                labels.len() == i,
                label@ == row.label@,
                stop ==> p < rows.len() && key_lt(row@, rows@[p as int]@),
                forall|k: int| 0 <= k < i ==> #[trigger] labels@[k]@ == rows@[k].label@,
                forall|k: int| 0 <= k < p ==> !(#[trigger] row_before(row@, i as int, rows@[k]@, perm[k])),
                forall|k: int| 0 <= k < i ==> 0 <= #[trigger] perm[k] < i,
            decreases rows.len() - p + (if stop { 0int } else { 1int }),
        {
            if key_less(&row, &label, &rows[p], &labels[p]) {
                stop = true;
            } else {
                p = p + 1;
            }
        }
        proof {
            // Everything at or after `p` sorts after the new row, everything before it
            // sorts before it.
            assert forall|k: int| p <= k < i implies row_before(row@, i as int, #[trigger] rows@[k]@, perm[k]) by {
                lemma_seq_lt_irrefl(row@.label);
                assert(row_before(row@, i as int, rows@[p as int]@, perm[p as int]));
                if k > p {
                    lemma_row_before_trans(row@, i as int, rows@[p as int]@, perm[p as int], rows@[k]@, perm[k]);
                }
            }
            assert forall|k: int| 0 <= k < p implies row_before(#[trigger] rows@[k]@, perm[k], row@, i as int) by {
                lemma_row_before_total(row@, i as int, rows@[k]@, perm[k]);
            }
        }
        let ghost rv = row@;
        let ghost rows_before = rows@;
        let ghost labels_before = labels@;
        let ghost old_perm = perm;
        rows.insert(p, row);
        labels.insert(p, label);
        proof {
            perm = old_perm.insert(p as int, i as int);
            assert(rows@ == rows_before.insert(p as int, rows@[p as int]));
            assert forall|k: int| 0 <= k < i + 1 implies #[trigger] rows@[k]@ == table_row_of(iv[perm[k]], lv) by {
                if k < p {
                    assert(rows@[k] == rows_before[k]);
                } else if k > p {
                    assert(rows@[k] == rows_before[k - 1]);
                }
            }
            assert forall|k: int| 0 <= k < i + 1 implies #[trigger] labels@[k]@ == rows@[k].label@ by {
                if k < p {
                    assert(rows@[k] == rows_before[k]);
                    assert(labels@[k] == labels_before[k]);
                } else if k > p {
                    assert(rows@[k] == rows_before[k - 1]);
                    assert(labels@[k] == labels_before[k - 1]);
                }
            }
            assert forall|k: int| 0 <= k < i + 1 implies 0 <= #[trigger] perm[k] < i + 1 by {}
            assert forall|j: int, k: int| 0 <= j < k < i + 1 implies perm[j] != perm[k] by {
                if j < p && k < p {
                } else if j < p && k == p {
                } else if j < p {
                    assert(perm[k] == old_perm[k - 1]);
                } else if j == p {
                    assert(perm[k] == old_perm[k - 1]);
                } else {
                    assert(perm[k] == old_perm[k - 1]);
                    assert(perm[j] == old_perm[j - 1]);
                }
            }
            assert forall|j: int, k: int| 0 <= j < k < i + 1 implies row_before(rows@[j]@, perm[j], rows@[k]@, perm[k]) by {
                if j < p && k < p {
                    assert(rows@[k] == rows_before[k]);
                    assert(rows@[j] == rows_before[j]);
                } else if j < p && k == p {
                    assert(rows@[j] == rows_before[j]);
                } else if j < p {
                    assert(rows@[k] == rows_before[k - 1]);
                    assert(rows@[j] == rows_before[j]);
                } else if j == p {
                    assert(rows@[k] == rows_before[k - 1]);
                } else {
                    assert(rows@[k] == rows_before[k - 1]);
                    assert(rows@[j] == rows_before[j - 1]);
                }
            }
        }
        i = i + 1;
    }
    proof {
        assert(rows_view(rows@).len() == iv.len());
        assert forall|k: int| 0 <= k < rows@.len() implies #[trigger] rows_view(rows@)[k] == table_row_of(iv[perm[k]], lv) by {}
        assert(table_rows_spec(rows_view(rows@), iv, lv, perm));
    }
    rows
}

} // verus!
