use tdsl::axis::{day_ticks, grid_positions_twelfths, hour_ticks, is_single_day_range, minute_ticks, month_ticks, second_ticks, year_ticks};
use tdsl::calendar::{advance_time_minutes, advance_time_seconds, days_in_month, is_leap};
use tdsl::color::{is_safe_color_value, resolve_item_color};
use tdsl::ir::{DateParts, ImportRecord, Item, ItemInfo, Lane, Meta, SourceRecord};
use tdsl::layout::{
    char_width_em, check_item_lanes, check_layout_lane_count, continuation_marker_flags, derive_range_from_items,
    effective_grid_style, group_runs, is_cjk_like, item_display_name, lane_color, lane_colors, lane_order,
    legend_row_count, resolve_year_range, text_width_centi_em, year_in_range, year_range_representable, GridStyle,
    LayoutStyle, RenderError,
};
use tdsl::stacking::{assign_bar_stack_levels, assign_zigzag_parity, bar_interval, lane_max_stack_level, point_position};
use tdsl::table::{collect_table_rows, lane_label_lookup};

fn parts(month: Option<u8>, day: Option<u8>) -> DateParts {
    DateParts { month, day, hour: None, minute: None, second: None, offset_minutes: None }
}

fn year() -> DateParts {
    parts(None, None)
}

fn lane(id: &str, order: i64) -> Lane {
    Lane { id: id.to_string(), label: format!("Lane {}", id.to_uppercase()), kind: "custom".into(), order, group: None, source_span: None }
}

fn info(id: &str, lane_id: &str, label: &str) -> ItemInfo {
    ItemInfo {
        id: id.to_string(),
        lane: lane_id.to_string(),
        label: label.to_string(),
        tags: vec![],
        source: None,
        origin: None,
        note: None,
        link: None,
        color: None,
        source_span: None,
    }
}

fn span(id: &str, lane_id: &str, start: i64, end: i64) -> Item {
    Item::Span { info: info(id, lane_id, id), start, start_at: year(), end, end_at: year(), end_open: false }
}

fn event(id: &str, lane_id: &str, time: i64) -> Item {
    Item::Event { info: info(id, lane_id, id), time, time_at: year() }
}

fn meta_with(unit: &str, range: (i64, i64), start: DateParts, end: DateParts) -> Meta {
    Meta { title: "t".into(), unit: unit.into(), range, calendar: "proleptic_gregorian".into(), range_start_at: start, range_end_at: end }
}

#[test]
fn degenerate_range_without_items_is_an_error() {
    let err = resolve_year_range((10, 5), &vec![]).err().expect("no range and no items is an error");
    assert!(matches!(err, RenderError::DegenerateRange { start: 10, end: 5 }));
}

#[test]
fn degenerate_range_with_items_derives_from_items() {
    let items = vec![span("s", "a", 100, 200), event("e", "a", 50)];
    assert_eq!(resolve_year_range((10, 5), &items).ok(), Some((50, 200)));
    assert_eq!(derive_range_from_items(&vec![event("e", "a", 7)]), Some((-3, 17)));
}

#[test]
fn equal_range_widens_to_one_year() {
    assert_eq!(resolve_year_range((1939, 1939), &vec![]).ok(), Some((1939, 1940)));
    assert_eq!(resolve_year_range((0, 300), &vec![]).ok(), Some((0, 300)));
}

#[test]
fn lane_y_ordered_by_order_field() {
    let lanes = vec![lane("b", 20), lane("a", 10), lane("c", 10)];
    assert_eq!(lane_order(&lanes), vec![1, 2, 0]);
}

#[test]
fn lane_order_is_stable_for_equal_keys() {
    let lanes = vec![lane("x", 1), lane("x", 1), lane("a", 2)];
    assert_eq!(lane_order(&lanes), vec![0, 1, 2]);
}

#[test]
fn zigzag_errors_when_lane_count_exceeds_threshold() {
    assert!(check_layout_lane_count(LayoutStyle::Zigzag, 2).is_ok());
    match check_layout_lane_count(LayoutStyle::Zigzag, 3) {
        Err(RenderError::UnsupportedLayout { style, lane_count, message }) => {
            assert_eq!(style, "zigzag");
            assert_eq!(lane_count, 3);
            assert_eq!(message, "use --chart-pagination or choose a different layout style");
        },
        _ => panic!("expected UnsupportedLayout"),
    }
    assert!(check_layout_lane_count(LayoutStyle::Timeline, 30).is_ok());
}

#[test]
fn unknown_lane_item_is_an_error_not_a_silent_drop() {
    let lanes = vec![lane("a", 1)];
    let mut ghost = span("", "ghost", 1, 2);
    if let Item::Span { info, .. } = &mut ghost {
        info.label = "Ghost label".to_string();
    }
    let items = vec![span("ok", "a", 1, 2), ghost];
    match check_item_lanes(&items, &lanes) {
        Err(RenderError::UnknownLane { lane, item }) => {
            assert_eq!(lane, "ghost");
            assert_eq!(item, "Ghost label");
        },
        _ => panic!("expected UnknownLane"),
    }
    assert!(check_item_lanes(&vec![span("ok", "a", 1, 2)], &lanes).is_ok());
    assert_eq!(item_display_name(&span("id1", "a", 1, 2)), "id1");
}

#[test]
fn lane_colors_cycle_through_palette() {
    assert_eq!(lane_color(0, true), "var(--tdsl-lane-0, #4682B4)");
    assert_eq!(lane_color(9, true), "var(--tdsl-lane-1, #E67E22)");
    assert_eq!(lane_color(7, false), "#2980B9");
    let lanes = vec![lane("b", 2), lane("a", 1)];
    let order = lane_order(&lanes);
    let colors = lane_colors(&lanes, &order, false);
    assert_eq!(colors, vec![("a".to_string(), "#4682B4".to_string()), ("b".to_string(), "#E67E22".to_string())]);
}

#[test]
fn legend_rows_and_grid_choice() {
    assert_eq!(legend_row_count(true, 3, 2), 6);
    assert_eq!(legend_row_count(false, 3, 2), 0);
    assert_eq!(effective_grid_style(LayoutStyle::Gantt, GridStyle::Off), GridStyle::Month);
    assert_eq!(effective_grid_style(LayoutStyle::Gantt, GridStyle::Decade), GridStyle::Decade);
    assert_eq!(effective_grid_style(LayoutStyle::Timeline, GridStyle::Off), GridStyle::Off);
    assert!(year_in_range(5, 5, 10));
    assert!(!year_in_range(11, 5, 10));
}

#[test]
fn safe_colors_accept_hex_and_keywords_only() {
    assert!(is_safe_color_value("#cc0000"));
    assert!(is_safe_color_value("  rebeccapurple "));
    assert!(is_safe_color_value("#abcd"));
    assert!(!is_safe_color_value("#abcde"));
    assert!(!is_safe_color_value("red; background:url(x)"));
    assert!(!is_safe_color_value("rgb(1,2,3)"));
    assert!(!is_safe_color_value(""));
    assert!(!is_safe_color_value("1red"));
}

#[test]
fn item_color_beats_tag_color_beats_lane_color() {
    let cmap = vec![("dynasty".to_string(), " #cc0000 ".to_string()), ("bad".to_string(), "x;y".to_string())];
    let lanes = vec![("a".to_string(), "var(--tdsl-lane-0, #4682B4)".to_string())];
    let tags = vec!["bad".to_string(), "dynasty".to_string()];
    assert_eq!(resolve_item_color(&Some(" teal ".to_string()), &tags, &cmap, "a", &lanes), "teal");
    assert_eq!(resolve_item_color(&Some("<x>".to_string()), &tags, &cmap, "a", &lanes), "#cc0000");
    assert_eq!(resolve_item_color(&None, &vec![], &cmap, "a", &lanes), "var(--tdsl-lane-0, #4682B4)");
    assert_eq!(resolve_item_color(&None, &vec![], &cmap, "zz", &lanes), "#4682B4");
}

#[test]
fn estimate_text_width_handles_ascii_and_cjk_mix() {
    assert!(is_cjk_like('漢'));
    assert!(!is_cjk_like('A'));
    assert_eq!(char_width_em('i'), 32);
    assert_eq!(char_width_em('W'), 86);
    assert_eq!(char_width_em('5'), 56);
    assert_eq!(char_width_em(' '), 33);
    assert_eq!(char_width_em('-'), 38);
    assert_eq!(char_width_em('é'), 75);
    assert_eq!(text_width_centi_em("ABC123"), 62 * 3 + 56 * 3);
    assert_eq!(text_width_centi_em("漢字かな"), 400);
}

#[test]
fn year_ticks_are_multiples_of_the_step() {
    assert_eq!(year_ticks(-300, 300, 100), vec![-300, -200, -100, 0, 100, 200, 300]);
    assert_eq!(year_ticks(-250, 20, 100), vec![-200, -100, 0]);
    assert_eq!(year_ticks(3, 5, 0), vec![3, 4, 5]);
}

#[test]
fn grid_positions_in_twelfths() {
    assert_eq!(grid_positions_twelfths(GridStyle::Off, 0, 30), Vec::<i64>::new());
    assert_eq!(grid_positions_twelfths(GridStyle::Decade, 5, 30), vec![120, 240, 360]);
    assert_eq!(grid_positions_twelfths(GridStyle::Year, 1, 2), vec![12, 24]);
    assert_eq!(grid_positions_twelfths(GridStyle::Month, 1, 2).len(), 13);
}

#[test]
fn month_ticks_cover_years_before_the_end() {
    let t = month_ticks(2000, 2002);
    assert_eq!(t.len(), 22);
    assert_eq!(t[0], (2000, 2));
    assert_eq!(t[10], (2000, 12));
    assert_eq!(t[11], (2001, 2));
    assert!(month_ticks(2000, 2000).is_empty());
}

#[test]
fn day_ticks_step_marks_first_days() {
    let all = day_ticks(2023, 2024, 1);
    assert_eq!(all.len(), 365);
    let leap = day_ticks(2024, 2025, 1);
    assert_eq!(leap.len(), 366);
    let weekly = day_ticks(2023, 2024, 7);
    assert_eq!(&weekly[0..6], &[(2023, 1, 1), (2023, 1, 8), (2023, 1, 15), (2023, 1, 22), (2023, 1, 29), (2023, 2, 1)]);
}

#[test]
fn calendar_leap_years_and_month_lengths() {
    assert!(is_leap(2000));
    assert!(!is_leap(1900));
    assert!(is_leap(2024));
    assert!(is_leap(-4));
    assert!(!is_leap(-1));
    assert_eq!(days_in_month(2023, 2), 28);
    assert_eq!(days_in_month(2024, 2), 29);
    assert_eq!(days_in_month(2024, 4), 30);
    assert_eq!(days_in_month(2024, 12), 31);
}

#[test]
fn advance_time_rolls_over_calendar_fields() {
    assert_eq!(advance_time_minutes((1999, 12, 31, 23, 59), 1), (2000, 1, 1, 0, 0));
    assert_eq!(advance_time_minutes((2024, 2, 28, 23, 30), 60), (2024, 2, 29, 0, 30));
    assert_eq!(advance_time_minutes((2024, 2, 28, 23, 30), -5), (2024, 2, 28, 23, 30));
    assert_eq!(advance_time_seconds((2023, 12, 31, 23, 59, 59), 2), (2024, 1, 1, 0, 0, 1));
}

#[test]
fn is_single_day_range_detects_same_day() {
    let m = meta_with("hour", (1945, 1945), parts(Some(8), Some(15)), parts(Some(8), Some(15)));
    assert!(is_single_day_range(&m));
}

#[test]
fn is_single_day_range_false_for_multi_day() {
    let m = meta_with("hour", (1945, 1945), parts(Some(8), Some(15)), parts(Some(8), Some(16)));
    assert!(!is_single_day_range(&m));
    let no_day = meta_with("hour", (1945, 1945), parts(Some(8), None), parts(Some(8), None));
    assert!(!is_single_day_range(&no_day));
}

#[test]
fn hour_ticks_follow_the_declared_bounds() {
    let mut start = parts(Some(7), Some(20));
    start.hour = Some(22);
    let mut end = parts(Some(7), Some(21));
    end.hour = Some(2);
    end.minute = Some(0);
    let m = meta_with("hour", (2024, 2024), start, end);
    assert_eq!(hour_ticks(&m, 1), vec![(2024, 7, 20, 22), (2024, 7, 20, 23), (2024, 7, 21, 0), (2024, 7, 21, 1), (2024, 7, 21, 2)]);
    assert_eq!(hour_ticks(&m, 3), vec![(2024, 7, 20, 22), (2024, 7, 21, 1)]);
    let not_hour = meta_with("day", (2024, 2024), start, end);
    assert!(hour_ticks(&not_hour, 1).is_empty());
    let no_bounds = meta_with("hour", (2024, 2025), year(), year());
    assert!(hour_ticks(&no_bounds, 1).is_empty());
}

#[test]
fn minute_and_second_ticks_step_through_the_range() {
    let mut start = parts(Some(1), Some(1));
    start.hour = Some(10);
    start.minute = Some(0);
    let mut end = parts(Some(1), Some(1));
    end.hour = Some(10);
    end.minute = Some(30);
    let m = meta_with("minute", (2000, 2000), start, end);
    let t = minute_ticks(&m, 15);
    assert_eq!(t, vec![(2000, 1, 1, 10, 0), (2000, 1, 1, 10, 15), (2000, 1, 1, 10, 30)]);
    let mut end_s = end;
    end_s.minute = Some(0);
    end_s.second = Some(59);
    let ms = meta_with("second", (2000, 2000), start, end_s);
    let s = second_ticks(&ms, 30);
    assert_eq!(s, vec![(2000, 1, 1, 10, 0, 0), (2000, 1, 1, 10, 0, 30)]);
}

#[test]
fn overlapping_spans_stack_and_touching_spans_share_a_row() {
    let items = vec![
        span("s1", "a", 1900, 1950),
        span("s2", "a", 1920, 1930),
        span("s3", "a", 1960, 1970),
        span("s4", "b", 1920, 1930),
        event("e", "a", 1925),
    ];
    let levels = assign_bar_stack_levels(&items);
    assert_eq!(levels, vec![0, 1, 0, 0, 0]);
    assert_eq!(lane_max_stack_level(&items, &levels, "a"), 1);
    assert_eq!(lane_max_stack_level(&items, &levels, "b"), 0);

    // A bar ending on 31 December and the next starting on 1 January of the next year touch.
    let touching = vec![span("t1", "a", 1900, 1909), span("t2", "a", 1910, 1920)];
    assert_eq!(assign_bar_stack_levels(&touching), vec![0, 0]);
}

#[test]
fn bar_interval_covers_whole_end_year() {
    let (s, e) = bar_interval(&span("s", "a", 1939, 1945)).unwrap();
    assert_eq!(s, 1939 * 378691200);
    assert_eq!(e, 1945 * 378691200 + 11 * 31557600 + 30 * 1036800);
    assert_eq!(point_position(2000, parts(Some(3), Some(2))), 2000 * 378691200 + 2 * 31557600 + 1036800);
    assert!(bar_interval(&event("e", "a", 1)).is_none());
}

#[test]
fn zigzag_single_lane_alternates_by_start_order() {
    let items = vec![event("e3", "a", 30), event("e1", "a", 10), event("x", "b", 5), event("e2", "a", 20)];
    assert_eq!(assign_zigzag_parity(&items), vec![true, true, true, false]);
}

#[test]
fn continuation_flags_mark_clipped_edges() {
    let u = 378691200i128;
    assert_eq!(continuation_marker_flags(true, 80 * u, 220 * u, 100, 200), (true, true));
    assert_eq!(continuation_marker_flags(true, 120 * u, 180 * u, 100, 200), (false, false));
    assert_eq!(continuation_marker_flags(false, 80 * u, 220 * u, 100, 200), (false, false));
    assert_eq!(continuation_marker_flags(true, 10 * u, 90 * u, 100, 200), (false, false));
}

#[test]
fn group_runs_are_maximal() {
    let groups = vec![Some("A".to_string()), Some("A".to_string()), None, Some("B".to_string()), Some("A".to_string())];
    assert_eq!(group_runs(&groups), vec![(0, 1, "A".to_string()), (3, 3, "B".to_string()), (4, 4, "A".to_string())]);
}

#[test]
fn table_rows_sorted_by_year_kind_and_label() {
    let lanes = vec![lane("a", 1)];
    let items = vec![
        event("ev", "a", 100),
        span("zz", "a", 100, 200),
        Item::EventRange { info: info("r", "a", "r"), start: 100, start_at: year(), end: 150, end_at: year(), end_open: true },
        span("aa", "a", 100, 120),
        span("early", "ghost", 50, 60),
    ];
    let rows = collect_table_rows(&items, &lanes);
    let labels: Vec<&str> = rows.iter().map(|r| r.label.as_str()).collect();
    assert_eq!(labels, vec!["early", "aa", "zz", "r", "ev"]);
    assert_eq!(rows[0].lane_label, "ghost");
    assert_eq!(rows[1].lane_label, "Lane A");
    assert_eq!(rows[3].time_str, "100〜150");
    assert_eq!(rows[4].sort_type, 2);
    assert_eq!(lane_label_lookup(&lanes, "a"), "Lane A");
}

#[test]
fn records_are_plain_values() {
    let r = ImportRecord { source: "wikidata".into(), qid: "Q1".into(), mapped_to: "x".into() };
    let s = SourceRecord { id: "s".into(), provider: "p".into(), license: "CC0".into() };
    assert_eq!(r.qid, "Q1");
    assert_eq!(s.license, "CC0");
}

#[test]
fn year_range_representable_rejects_only_overflowing_ranges() {
    assert!(year_range_representable((0, i64::MAX), &vec![]));
    assert!(!year_range_representable((i64::MAX, i64::MAX), &vec![]));
    assert!(year_range_representable((5, 5), &vec![]));
    assert!(year_range_representable((10, 5), &vec![]));
    assert!(year_range_representable((10, 5), &vec![event("e", "a", 7)]));
    assert!(!year_range_representable((10, 5), &vec![event("e", "a", i64::MAX - 3)]));
    assert!(!year_range_representable((10, 5), &vec![event("e", "a", i64::MIN + 3)]));
}

#[test]
fn style_enums_default_to_the_plain_timeline() {
    assert_eq!(tdsl::layout::Orientation::default(), tdsl::layout::Orientation::Horizontal);
    assert_eq!(tdsl::layout::Theme::default(), tdsl::layout::Theme::Default);
    assert_eq!(GridStyle::default(), GridStyle::Off);
    assert_eq!(LayoutStyle::default(), LayoutStyle::Timeline);
}
