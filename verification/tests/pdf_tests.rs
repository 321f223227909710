use tdsl::pdf::{pdf_page_layout, pdf_title, table_page_ranges, PdfDate, PdfLayoutError, PdfPageLayout, PdfPageSize};

#[test]
fn page_size_names_and_default() {
    assert_eq!(PdfPageSize::default(), PdfPageSize::A4);
    assert_eq!(PdfPageSize::A4.name(), "A4");
    assert_eq!(PdfPageSize::A3.name(), "A3");
    assert_eq!(PdfPageSize::Letter.name(), "Letter");
}

#[test]
fn pdf_date_keeps_its_fields() {
    let d = PdfDate { year: 2026, month: 3, day: 14 };
    assert_eq!((d.year, d.month, d.day), (2026, 3, 14));
}

#[test]
fn table_pages_are_whole_row_chunks() {
    assert_eq!(table_page_ranges(0, 5), vec![(0, 0)]);
    assert_eq!(table_page_ranges(5, 5), vec![(0, 5)]);
    assert_eq!(table_page_ranges(12, 5), vec![(0, 5), (5, 10), (10, 12)]);
    assert_eq!(table_page_ranges(3, 1), vec![(0, 1), (1, 2), (2, 3)]);
}

#[test]
fn unpaginated_pdf_is_a_single_chart_page_with_or_without_table() {
    assert_eq!(pdf_page_layout(false, false, false), Ok(PdfPageLayout::SingleChart));
    assert_eq!(pdf_page_layout(false, false, true), Ok(PdfPageLayout::SingleChart));
}

#[test]
fn table_pagination_requires_a_table() {
    assert_eq!(pdf_page_layout(false, true, false), Err(PdfLayoutError::PaginationRequiresTable));
    assert_eq!(pdf_page_layout(true, true, false), Err(PdfLayoutError::PaginationRequiresTable));
    assert_eq!(pdf_page_layout(false, true, true), Ok(PdfPageLayout::ChartThenTablePages));
}

#[test]
fn chart_pagination_puts_chart_pages_before_table_pages() {
    assert_eq!(pdf_page_layout(true, false, false), Ok(PdfPageLayout::LanePages));
    assert_eq!(pdf_page_layout(true, false, true), Ok(PdfPageLayout::LanePagesThenTable));
    assert_eq!(pdf_page_layout(true, true, true), Ok(PdfPageLayout::LanePagesThenTablePages));
}

#[test]
fn pdf_title_falls_back_to_timeline_title() {
    assert_eq!(pdf_title(Some("Given".to_string()), "Timeline"), Some("Given".to_string()));
    assert_eq!(pdf_title(None, "Timeline"), Some("Timeline".to_string()));
    assert_eq!(pdf_title(None, ""), None);
    assert_eq!(pdf_title(Some(String::new()), "Timeline"), Some(String::new()));
}
