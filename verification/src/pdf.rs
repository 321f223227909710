//! Page-level choices of the PDF output that do not involve geometry.

use vstd::prelude::*;

verus! {

/// Standard page sizes.
#[derive(Debug, Clone, Copy, PartialEq, Eq, Structural)]
pub enum PdfPageSize {
    /// ISO A4, 210 × 297 mm (the default).
    A4,
    /// ISO A3, 297 × 420 mm.
    A3,
    /// US Letter, 8.5 × 11 in.
    Letter,
}

impl Default for PdfPageSize {
    /// The default page size, A4.
    fn default() -> (p: PdfPageSize)
        ensures
            p == PdfPageSize::A4,
    {
        PdfPageSize::A4
    }
}

impl PdfPageSize {
    /// Human-readable name of the page size, for diagnostics.
    pub fn name(self) -> (s: &'static str)
        ensures
            s@ == match self {
                PdfPageSize::A4 => "A4"@,
                PdfPageSize::A3 => "A3"@,
                PdfPageSize::Letter => "Letter"@,
            },
    {
        match self {
            PdfPageSize::A4 => "A4",
            PdfPageSize::A3 => "A3",
            PdfPageSize::Letter => "Letter",
        }
    }
}

/// A calendar date for the PDF creation date, supplied by the caller so that output
/// does not depend on the clock.
#[derive(Debug, Clone, Copy, PartialEq, Eq, Structural)]
pub struct PdfDate {
    /// Four-digit year.
    pub year: u16,
    /// Month, 1 to 12.
    pub month: u8,
    /// Day of the month, 1 to 31.
    pub day: u8,
}

/// The pages of a PDF, in order.
#[derive(Debug, Clone, Copy, PartialEq, Eq, Structural)]
pub enum PdfPageLayout {
    /// One page with the whole chart (and the table in it when the table is shown).
    SingleChart,
    /// The whole chart on one page, then the table split across pages.
    ChartThenTablePages,
    /// The chart split into lane-group pages, and nothing else.
    LanePages,
    /// Lane-group chart pages, then one page with the whole table.
    LanePagesThenTable,
    /// Lane-group chart pages, then the table split across pages.
    LanePagesThenTablePages,
}

/// Why the page options of a PDF cannot be honoured.
#[derive(Debug, Clone, Copy, PartialEq, Eq, Structural)]
pub enum PdfLayoutError {
    /// Splitting the table into pages was asked for, but no table is shown.
    PaginationRequiresTable,
}

/// The pages of a PDF whose chart is (or is not) split by lane groups and whose table
/// is (or is not) split into pages; `None` when a split table is asked for without a
/// table. Chart pages always come before table pages.
pub open spec fn page_layout(chart_paginated: bool, table_paginated: bool, show_table: bool) -> Option<PdfPageLayout> {
    if table_paginated && !show_table {
        None
    } else if !chart_paginated {
        Some(if table_paginated { PdfPageLayout::ChartThenTablePages } else { PdfPageLayout::SingleChart })
    } else if !show_table {
        Some(PdfPageLayout::LanePages)
    } else if table_paginated {
        Some(PdfPageLayout::LanePagesThenTablePages)
    } else {
        Some(PdfPageLayout::LanePagesThenTable)
    }
}

/// Decides which pages a PDF has (see [`page_layout`]).
pub fn pdf_page_layout(chart_paginated: bool, table_paginated: bool, show_table: bool) -> (r: Result<PdfPageLayout, PdfLayoutError>)
    ensures
        match page_layout(chart_paginated, table_paginated, show_table) {
            Some(l) => r == Ok::<PdfPageLayout, PdfLayoutError>(l),
            None => r == Err::<PdfPageLayout, PdfLayoutError>(PdfLayoutError::PaginationRequiresTable),
        },
{
    if table_paginated && !show_table {
        Err(PdfLayoutError::PaginationRequiresTable)
    } else if !chart_paginated {
        Ok(if table_paginated { PdfPageLayout::ChartThenTablePages } else { PdfPageLayout::SingleChart })
    } else if !show_table {
        Ok(PdfPageLayout::LanePages)
    } else if table_paginated {
        Ok(PdfPageLayout::LanePagesThenTablePages)
    } else {
        Ok(PdfPageLayout::LanePagesThenTable)
    }
}

/// The title metadata of a PDF: the one given, else the timeline's title unless it is
/// empty.
pub fn pdf_title(given: Option<String>, timeline_title: &str) -> (r: Option<String>)
    ensures
        match given {
            Some(t) => r matches Some(s) && s@ == t@,
            None => if timeline_title@.len() == 0 { r is None } else { r matches Some(s) && s@ == timeline_title@ },
        },
{
    match given {
        Some(t) => Some(t),
        None => if timeline_title.unicode_len() == 0 { None } else { Some(String::from_str(timeline_title)) },
    }
}

/// `(start, end)` row ranges of the table pages: consecutive chunks of `rows_per_page`
/// rows, the last one possibly shorter; a single empty page when there are no rows.
pub fn table_page_ranges(row_count: usize, rows_per_page: usize) -> (r: Vec<(usize, usize)>)
    requires
        rows_per_page >= 1,
    ensures
        row_count == 0 ==> r@ == seq![(0usize, 0usize)],
        row_count > 0 ==> r.len() == (row_count + rows_per_page - 1) / (rows_per_page as int)
            && forall|k: int| 0 <= k < r.len() ==> (#[trigger] r@[k]).0 == k * rows_per_page
                && r@[k].1 == (if (k + 1) * rows_per_page < row_count { (k + 1) * rows_per_page } else { row_count as int }),
{
    let mut r: Vec<(usize, usize)> = Vec::new();
    if row_count == 0 {
        r.push((0, 0));
        assert(r@ =~= seq![(0usize, 0usize)]);
        return r;
    }
    let mut start: usize = 0;
    assert(r.len() * rows_per_page == 0) by (nonlinear_arith) requires r.len() == 0;
    while start < row_count
        invariant
            rows_per_page >= 1,
            start <= row_count,
            start < row_count ==> start == r.len() * rows_per_page,
            start == row_count ==> r.len() == (row_count + rows_per_page - 1) / (rows_per_page as int),
            r.len() == 0 ==> start == 0,
            forall|k: int| 0 <= k < r.len() ==> (#[trigger] r@[k]).0 == k * rows_per_page
                && r@[k].1 == (if (k + 1) * rows_per_page < row_count { (k + 1) * rows_per_page } else { row_count as int }),
        decreases row_count - start,
    {
        let end = if row_count - start > rows_per_page { start + rows_per_page } else { row_count };
        proof {
            let k = r.len() as int;
            assert(k * rows_per_page == start);
            assert((k + 1) * rows_per_page == start + rows_per_page) by (nonlinear_arith)
                requires k * rows_per_page == start;
            if end == row_count {
                assert((row_count + rows_per_page - 1) / (rows_per_page as int) == k + 1) by (nonlinear_arith)
                    requires k * rows_per_page == start, start < row_count, row_count <= start + rows_per_page, rows_per_page >= 1;
            }
        }
        r.push((start, end));
        start = end;
    }
    r
}

} // verus!
