use tdsl::arith::div_floor;
use tdsl::format::{
    format_date, format_hour_tick_label, format_minute_tick_label, format_second_tick_label,
    format_year, gantt_period_label, item_tooltip, join_strings, month_abbr, open_ended_end_label,
    push_common,
};
use tdsl::ir::{DateParts, Item, ItemInfo};

fn info(id: &str, label: &str) -> ItemInfo {
    ItemInfo {
        id: id.to_string(),
        lane: "a".to_string(),
        label: label.to_string(),
        tags: vec![],
        source: None,
        origin: None,
        note: None,
        link: None,
        color: None,
        source_span: None,
    }
}

fn parts(month: Option<u8>, day: Option<u8>) -> DateParts {
    DateParts { month, day, hour: None, minute: None, second: None, offset_minutes: None }
}

#[test]
fn div_floor_handles_negative() {
    assert_eq!(div_floor(-500, 100), -5);
    assert_eq!(div_floor(-501, 100), -6);
    assert_eq!(div_floor(501, 100), 5);
}

#[test]
fn div_floor_with_negative_divisor_rounds_down() {
    assert_eq!(div_floor(7, -2), -4);
    assert_eq!(div_floor(-7, -2), 3);
    assert_eq!(div_floor(i64::MIN, 1), i64::MIN);
}

#[test]
fn format_hour_tick_label_single_vs_multi_day() {
    assert_eq!(format_hour_tick_label(7, 20, 14, true), "14:00");
    assert_eq!(format_hour_tick_label(7, 20, 14, false), "07-20 14:00");
}

#[test]
fn format_minute_tick_label_single_vs_multi_day() {
    assert_eq!(format_minute_tick_label(7, 20, 20, 17, true), "20:17");
    assert_eq!(format_minute_tick_label(7, 20, 20, 17, false), "07-20 20:17");
}

#[test]
fn format_second_tick_label_pads_every_field() {
    assert_eq!(format_second_tick_label(1, 2, 3, 4, 5, true), "03:04:05");
    assert_eq!(format_second_tick_label(1, 2, 3, 4, 5, false), "01-02 03:04:05");
}

#[test]
fn format_year_prefixes_bc_for_negative() {
    assert_eq!(format_year(-206), "BC206");
    assert_eq!(format_year(0), "0");
    assert_eq!(format_year(220), "220");
}

#[test]
fn format_year_handles_extremes() {
    assert_eq!(format_year(i64::MIN), "BC9223372036854775808");
    assert_eq!(format_year(i64::MAX), "9223372036854775807");
}

#[test]
fn format_date_includes_month_abbr() {
    assert_eq!(format_date(1900, Some(2), None, None, None), "1900 Feb");
    assert_eq!(format_date(-206, Some(3), Some(15), None, None), "BC206 Mar 15");
    assert_eq!(format_date(2000, None, None, None, None), "2000");
}

#[test]
fn format_date_with_clock_needs_hour_and_minute() {
    assert_eq!(format_date(1944, Some(6), Some(6), Some(6), Some(30)), "1944 Jun 6 06:30");
    assert_eq!(format_date(1944, Some(6), Some(6), Some(6), None), "1944 Jun 6");
    assert_eq!(format_date(1944, None, Some(6), None, None), "1944");
}

#[test]
fn month_abbr_rejects_out_of_range_months() {
    assert_eq!(month_abbr(1), "Jan");
    assert_eq!(month_abbr(12), "Dec");
    assert_eq!(month_abbr(0), "?");
    assert_eq!(month_abbr(13), "?");
}

#[test]
fn open_ended_end_label_says_ongoing() {
    assert_eq!(open_ended_end_label(2024, None, None, None, None, true), "進行中");
    assert_eq!(open_ended_end_label(2024, Some(5), None, None, None, false), "2024 May");
}

#[test]
fn join_strings_separates_parts() {
    let parts = vec!["a".to_string(), "b".to_string(), "c".to_string()];
    assert_eq!(join_strings(&parts, ", "), "a, b, c");
    assert_eq!(join_strings(&vec![], ", "), "");
    assert_eq!(join_strings(&vec!["x".to_string()], "-"), "x");
}

#[test]
fn push_common_lists_present_fields_then_id() {
    let mut i = info("span:han", "漢");
    i.tags = vec!["dynasty".to_string(), "china".to_string()];
    i.source = Some("wd:Q7209".to_string());
    i.color = Some("#cc0000".to_string());
    let mut lines = vec!["first".to_string()];
    push_common(&mut lines, &i);
    assert_eq!(
        lines,
        vec![
            "first".to_string(),
            "tags: dynasty, china".to_string(),
            "source: wd:Q7209".to_string(),
            "color: #cc0000".to_string(),
            "id: span:han".to_string(),
        ]
    );
}

#[test]
fn tooltip_of_span_has_period_and_details() {
    let mut i = info("span:han", "漢");
    i.tags = vec!["dynasty".to_string()];
    let item = Item::Span {
        info: i,
        start: -206,
        start_at: parts(None, None),
        end: 220,
        end_at: parts(None, None),
        end_open: false,
    };
    assert_eq!(item_tooltip(&item), "漢\nBC206〜220\ntags: dynasty\nid: span:han");
}

#[test]
fn tooltip_of_open_ended_span_says_ongoing() {
    let item = Item::EventRange {
        info: info("r", "Reign"),
        start: 2019,
        start_at: parts(Some(5), Some(1)),
        end: 2099,
        end_at: parts(None, None),
        end_open: true,
    };
    assert_eq!(item_tooltip(&item), "Reign\n2019 May 1〜進行中\nid: r");
}

#[test]
fn tooltip_includes_month_for_precision_event() {
    let item = Item::Event {
        info: info("e", "Meiji"),
        time: 1868,
        time_at: parts(Some(1), Some(3)),
    };
    assert_eq!(item_tooltip(&item), "Meiji\n1868 Jan 3\nid: e");
}

#[test]
fn gantt_period_label_for_bars_only() {
    let span = Item::Span {
        info: info("s", "S"),
        start: 1939,
        start_at: parts(Some(9), None),
        end: 1945,
        end_at: parts(Some(8), Some(15)),
        end_open: false,
    };
    assert_eq!(gantt_period_label(&span), "1939 Sep〜1945 Aug 15");
    let event = Item::Event { info: info("e", "E"), time: 1, time_at: parts(None, None) };
    assert_eq!(gantt_period_label(&event), "");
}

#[test]
fn tooltip_lines_run_from_label_to_id_with_tags_only_when_tagged() {
    let mut tagged = info("t:1", "Tagged");
    tagged.tags = vec!["a".to_string(), "b".to_string()];
    tagged.note = Some("n".to_string());
    let item = Item::Event { info: tagged, time: 1900, time_at: parts(None, None) };
    let text = item_tooltip(&item);
    let lines: Vec<&str> = text.split('\n').collect();
    assert_eq!(lines[0], "Tagged");
    assert_eq!(lines[1], "1900");
    assert_eq!(lines[2], "tags: a, b");
    assert_eq!(*lines.last().unwrap(), "id: t:1");
    assert_eq!(lines.iter().filter(|l| l.starts_with("tags: ")).count(), 1);

    let plain = Item::Event { info: info("p:1", "Plain"), time: 1900, time_at: parts(None, None) };
    let text = item_tooltip(&plain);
    let lines: Vec<&str> = text.split('\n').collect();
    assert_eq!(lines, vec!["Plain", "1900", "id: p:1"]);
    assert!(!lines.iter().any(|l| l.starts_with("tags: ")));
}
