use tdsl::ir::{DateParts, ImportRecord, Item, ItemInfo, Lane, Meta, SourceRecord, TimelineIr};
use tdsl::time_range::{
    clip_with_continuation_markers, items_crossing_boundaries, segment_boundaries,
    split_ir_by_time_range, TimeRangePaginationError,
};

fn year() -> DateParts {
    DateParts { month: None, day: None, hour: None, minute: None, second: None, offset_minutes: None }
}

fn meta(start: i64, end: i64) -> Meta {
    Meta {
        title: "time-range pagination".into(),
        unit: "year".into(),
        range: (start, end),
        calendar: "proleptic_gregorian".into(),
        range_start_at: year(),
        range_end_at: year(),
    }
}

fn lane(id: &str) -> Lane {
    Lane { id: id.to_string(), label: format!("Lane {id}"), kind: "custom".into(), order: 1, group: None, source_span: None }
}

fn info(id: &str, lane_id: &str, label: String) -> ItemInfo {
    ItemInfo {
        id: id.to_string(),
        lane: lane_id.to_string(),
        label,
        tags: vec![],
        source: None,
        origin: None,
        note: None,
        link: None,
        color: None,
        source_span: None,
    }
}

fn span(id: &str, lane_id: &str, start: i64, end: i64) -> Item {
    Item::Span { info: info(id, lane_id, format!("Span {id}")), start, start_at: year(), end, end_at: year(), end_open: false }
}

fn event(id: &str, lane_id: &str, time: i64) -> Item {
    Item::Event { info: info(id, lane_id, format!("Event {id}")), time, time_at: year() }
}

fn event_range(id: &str, lane_id: &str, start: i64, end: i64) -> Item {
    Item::EventRange { info: info(id, lane_id, format!("EventRange {id}")), start, start_at: year(), end, end_at: year(), end_open: false }
}

fn no_crossing_ir() -> TimelineIr {
    TimelineIr {
        meta: meta(0, 400),
        lanes: vec![lane("a")],
        items: vec![span("s-1", "a", 10, 90), span("s-2", "a", 110, 190), span("s-3", "a", 210, 290), event("e-1", "a", 350)],
        imports: Vec::<ImportRecord>::new(),
        sources: Vec::<SourceRecord>::new(),
    }
}

fn crossing_ir() -> TimelineIr {
    let mut ir = no_crossing_ir();
    ir.items.push(span("s-crossing", "a", 80, 220));
    ir
}

#[test]
fn time_range_pagination_page_ranges_partition_the_original_range_contiguously() {
    let ir = no_crossing_ir();
    let pages = split_ir_by_time_range(&ir, 4).expect("split should succeed");
    assert_eq!(pages[0].range, (0, 100));
    assert_eq!(pages[1].range, (100, 200));
    assert_eq!(pages[2].range, (200, 300));
    assert_eq!(pages[3].range, (300, 400));
}

#[test]
fn every_page_keeps_all_lanes_and_items() {
    let ir = no_crossing_ir();
    let pages = split_ir_by_time_range(&ir, 4).expect("split should succeed");
    assert_eq!(pages.len(), 4);
    for page in &pages {
        assert_eq!(page.ir.items.len(), 4);
        assert_eq!(page.ir.lanes.len(), 1);
        assert_eq!(page.ir.meta.range, page.range);
        assert_eq!(page.ir.meta.title, "time-range pagination");
    }
}

#[test]
fn time_range_pagination_sub_year_precision_fields_are_cleared_on_each_page() {
    let mut ir = no_crossing_ir();
    ir.meta.range_start_at.month = Some(6);
    ir.meta.range_end_at.day = Some(15);
    let pages = split_ir_by_time_range(&ir, 4).expect("split should succeed");
    for page in &pages {
        assert_eq!(page.ir.meta.range_start_at.month, None);
        assert_eq!(page.ir.meta.range_end_at.day, None);
    }
}

#[test]
fn time_range_pagination_zero_page_count_is_rejected_explicitly() {
    let ir = no_crossing_ir();
    let err = split_ir_by_time_range(&ir, 0).err().expect("page_count=0 must be a hard error");
    assert!(matches!(err, TimeRangePaginationError::InvalidPageCount));
}

#[test]
fn time_range_pagination_empty_range_is_rejected_explicitly() {
    let mut ir = no_crossing_ir();
    ir.meta.range = (100, 100);
    let err = split_ir_by_time_range(&ir, 4).err().expect("an empty range must be a hard error");
    assert!(matches!(err, TimeRangePaginationError::EmptyRange { start: 100, end: 100 }));
}

#[test]
fn time_range_pagination_inverted_range_is_rejected_explicitly() {
    let mut ir = no_crossing_ir();
    ir.meta.range = (100, 50);
    let err = split_ir_by_time_range(&ir, 4).err().expect("an inverted range must be a hard error");
    assert!(matches!(err, TimeRangePaginationError::EmptyRange { start: 100, end: 50 }));
}

#[test]
fn time_range_pagination_range_too_narrow_for_page_count_is_rejected_explicitly() {
    let mut ir = no_crossing_ir();
    ir.meta.range = (0, 2);
    let err = split_ir_by_time_range(&ir, 5).err().expect("a too narrow range must be a hard error");
    assert!(matches!(
        err,
        TimeRangePaginationError::RangeTooNarrowForPageCount { start: 0, end: 2, span: 2, page_count: 5 }
    ));
}

#[test]
fn uneven_split_gives_the_remainder_to_earlier_pages() {
    let b = segment_boundaries((0, 10), 3).ok().expect("10 years fit 3 pages");
    assert_eq!(b, vec![0, 4, 7, 10]);
    let b = segment_boundaries((0, 10), 4).ok().expect("10 years fit 4 pages");
    assert_eq!(b, vec![0, 3, 6, 8, 10]);
    let b = segment_boundaries((-7, 0), 2).ok().expect("7 years fit 2 pages");
    assert_eq!(b, vec![-7, -3, 0]);
    let b = segment_boundaries((5, 6), 1).ok().expect("one year fits one page");
    assert_eq!(b, vec![5, 6]);
}

#[test]
fn crossing_detection_refuses_zero_page_count() {
    let ir = crossing_ir();
    let err = items_crossing_boundaries(&ir, ir.meta.range, 0).err().expect("zero pages must be refused");
    assert!(matches!(err, TimeRangePaginationError::InvalidPageCount));
}

#[test]
fn time_range_pagination_span_crossing_a_page_boundary_is_detected() {
    let mut ir = no_crossing_ir();
    ir.items.push(span("s-crossing", "a", 80, 220));
    let crossing = items_crossing_boundaries(&ir, ir.meta.range, 4).expect("boundary detection should succeed");
    assert_eq!(crossing.len(), 1);
    assert_eq!(crossing[0].id, "s-crossing");
    assert_eq!(crossing[0].crossed_boundaries, vec![100, 200]);
}

#[test]
fn time_range_pagination_event_range_crossing_a_page_boundary_is_detected() {
    let mut ir = no_crossing_ir();
    ir.items.push(event_range("er-crossing", "a", 290, 310));
    let crossing = items_crossing_boundaries(&ir, ir.meta.range, 4).expect("boundary detection should succeed");
    assert_eq!(crossing.len(), 1);
    assert_eq!(crossing[0].id, "er-crossing");
    assert_eq!(crossing[0].crossed_boundaries, vec![300]);
}

#[test]
fn time_range_pagination_no_crossing_items_report_empty_list() {
    let ir = no_crossing_ir();
    let crossing = items_crossing_boundaries(&ir, ir.meta.range, 4).expect("boundary detection should succeed");
    assert!(crossing.is_empty());
}

#[test]
fn time_range_pagination_event_items_are_not_reported_as_crossing() {
    let mut ir = no_crossing_ir();
    ir.items.push(event("e-on-boundary", "a", 200));
    let crossing = items_crossing_boundaries(&ir, ir.meta.range, 4).expect("boundary detection should succeed");
    assert!(crossing.iter().all(|c| c.id != "e-on-boundary"));
}

#[test]
fn time_range_pagination_item_touching_a_boundary_at_its_own_edge_is_not_a_crossing() {
    let mut ir = no_crossing_ir();
    ir.items.push(span("s-touches-edge", "a", 50, 100));
    let crossing = items_crossing_boundaries(&ir, ir.meta.range, 4).expect("boundary detection should succeed");
    assert!(crossing.iter().all(|c| c.id != "s-touches-edge"));
}

#[test]
fn clip_markers_are_present_on_every_page_the_item_intersects() {
    let ir = crossing_ir();
    let range = ir.meta.range;

    let page0 = clip_with_continuation_markers(&ir, range, 4, 0).ok().unwrap();
    let m0 = page0.iter().find(|m| m.id == "s-crossing").unwrap();
    assert!(!m0.continues_from_previous_page);
    assert!(m0.continues_to_next_page);

    let page1 = clip_with_continuation_markers(&ir, range, 4, 1).ok().unwrap();
    let m1 = page1.iter().find(|m| m.id == "s-crossing").unwrap();
    assert!(m1.continues_from_previous_page);
    assert!(m1.continues_to_next_page);

    let page2 = clip_with_continuation_markers(&ir, range, 4, 2).ok().unwrap();
    let m2 = page2.iter().find(|m| m.id == "s-crossing").unwrap();
    assert!(m2.continues_from_previous_page);
    assert!(!m2.continues_to_next_page);

    let page3 = clip_with_continuation_markers(&ir, range, 4, 3).ok().unwrap();
    assert!(page3.iter().all(|m| m.id != "s-crossing"));
}

#[test]
fn clip_markers_page_index_equal_to_page_count_is_rejected_explicitly() {
    let ir = crossing_ir();
    let range = ir.meta.range;
    let err = clip_with_continuation_markers(&ir, range, 4, 4).err().expect("page_index == page_count must be an error");
    assert!(matches!(err, TimeRangePaginationError::InvalidPageIndex { page_index: 4, page_count: 4 }));
}

#[test]
fn clip_markers_page_index_greater_than_page_count_is_rejected_explicitly() {
    let ir = crossing_ir();
    let range = ir.meta.range;
    let err = clip_with_continuation_markers(&ir, range, 4, 100).err().expect("page_index > page_count must be an error");
    assert!(matches!(err, TimeRangePaginationError::InvalidPageIndex { page_index: 100, page_count: 4 }));
}
