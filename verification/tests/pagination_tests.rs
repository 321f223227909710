use tdsl::ir::{DateParts, ImportRecord, Item, ItemInfo, Lane, Meta, SourceRecord, TimelineIr};
use tdsl::pagination::{find_groups_split_across_chunks, plan_lane_pages, PaginationError};

fn year() -> DateParts {
    DateParts { month: None, day: None, hour: None, minute: None, second: None, offset_minutes: None }
}

fn lane(id: &str, order: i64, group: Option<&str>) -> Lane {
    Lane { id: id.to_string(), label: format!("Lane {id}"), kind: "custom".into(), order, group: group.map(str::to_string), source_span: None }
}

fn span(id: &str, lane_id: &str, start: i64, end: i64) -> Item {
    Item::Span {
        info: ItemInfo {
            id: id.to_string(),
            lane: lane_id.to_string(),
            label: format!("Span {id}"),
            tags: vec![],
            source: None,
            origin: None,
            note: None,
            link: None,
            color: None,
            source_span: None,
        },
        start,
        start_at: year(),
        end,
        end_at: year(),
        end_open: false,
    }
}

fn base_meta() -> Meta {
    Meta {
        title: "pagination test".into(),
        unit: "year".into(),
        range: (0, 1000),
        calendar: "proleptic_gregorian".into(),
        range_start_at: year(),
        range_end_at: year(),
    }
}

fn four_lane_ir() -> TimelineIr {
    TimelineIr {
        meta: base_meta(),
        lanes: vec![lane("d", 4, None), lane("a", 1, None), lane("c", 3, None), lane("b", 2, None)],
        items: vec![span("s-a", "a", 100, 200), span("s-b", "b", 150, 250), span("s-c", "c", 300, 400), span("s-d", "d", 500, 600)],
        imports: Vec::<ImportRecord>::new(),
        sources: Vec::<SourceRecord>::new(),
    }
}

fn page_lane_ids(ir: &TimelineIr) -> Vec<String> {
    ir.lanes.iter().map(|l| l.id.clone()).collect()
}

fn page_item_ids(ir: &TimelineIr) -> Vec<String> {
    ir.items.iter().map(|i| i.info().id.clone()).collect()
}

#[test]
fn lane_pages_follow_lane_order() {
    let plan = plan_lane_pages(&four_lane_ir(), 2).ok().expect("valid plan");
    assert_eq!(plan.pages.len(), 2);
    assert_eq!(page_lane_ids(&plan.pages[0]), vec!["a", "b"]);
    assert_eq!(page_lane_ids(&plan.pages[1]), vec!["c", "d"]);
    assert_eq!(plan.chunks, vec![vec![1, 3], vec![2, 0]]);
}

#[test]
fn every_item_is_on_the_page_of_its_lane() {
    let plan = plan_lane_pages(&four_lane_ir(), 2).ok().expect("valid plan");
    assert_eq!(page_item_ids(&plan.pages[0]), vec!["s-a", "s-b"]);
    assert_eq!(page_item_ids(&plan.pages[1]), vec!["s-c", "s-d"]);
    for page in &plan.pages {
        assert_eq!(page.meta.range, (0, 1000));
    }
}

#[test]
fn last_page_holds_the_remaining_lanes() {
    let plan = plan_lane_pages(&four_lane_ir(), 3).ok().expect("valid plan");
    assert_eq!(plan.pages.len(), 2);
    assert_eq!(page_lane_ids(&plan.pages[1]), vec!["d"]);
    let one = plan_lane_pages(&four_lane_ir(), 10).ok().expect("valid plan");
    assert_eq!(one.pages.len(), 1);
    assert_eq!(page_item_ids(&one.pages[0]).len(), 4);
}

#[test]
fn zero_lanes_per_page_is_rejected() {
    let err = plan_lane_pages(&four_lane_ir(), 0).err().expect("0 lanes per page is an error");
    assert!(matches!(err, PaginationError::InvalidLanesPerPage));
}

#[test]
fn item_with_unknown_lane_is_rejected() {
    let mut ir = four_lane_ir();
    ir.items.push(span("s-ghost", "ghost", 1, 2));
    let err = plan_lane_pages(&ir, 2).err().expect("an unknown lane is an error");
    match err {
        PaginationError::UnknownLane { lane } => assert_eq!(lane, "ghost"),
        _ => panic!("expected UnknownLane"),
    }
}

#[test]
fn group_split_across_pages_is_reported() {
    let mut ir = four_lane_ir();
    ir.lanes = vec![lane("a", 1, None), lane("b", 2, Some("G")), lane("c", 3, Some("G")), lane("d", 4, None)];
    let plan = plan_lane_pages(&ir, 2).ok().expect("valid plan");
    assert_eq!(plan.group_bands_split_across_pages, vec!["G".to_string()]);
}

#[test]
fn group_within_one_page_is_not_reported() {
    let groups = vec![Some("G".to_string()), Some("G".to_string()), None, Some("H".to_string())];
    assert!(find_groups_split_across_chunks(&groups, 2).is_empty());
    assert_eq!(find_groups_split_across_chunks(&groups, 1), vec!["G".to_string()]);
}
