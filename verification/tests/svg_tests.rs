use tdsl::html::{escape_html, generate_table_html, wrap_html, wrap_html_interactive};
use tdsl::ir::{DateParts, Item, ItemInfo, Lane, SourceSpan};
use tdsl::layout::Theme;
use tdsl::svg::{
    build_interactive_attrs, escape_xml, escape_xml_attr, item_aria_label, item_data_attrs, item_group_open,
    resolve_lane_vars_in_styles, resolve_vars_in_css_value,
};

fn info(id: &str, label: &str, lane: &str) -> ItemInfo {
    ItemInfo {
        id: id.to_string(),
        lane: lane.to_string(),
        label: label.to_string(),
        tags: vec![],
        source: None,
        origin: None,
        note: None,
        link: None,
        color: None,
        source_span: None,
    }
}

fn year() -> DateParts {
    DateParts { month: None, day: None, hour: None, minute: None, second: None, offset_minutes: None }
}

fn lane(id: &str, label: &str, order: i64) -> Lane {
    Lane { id: id.to_string(), label: label.to_string(), kind: "custom".to_string(), order, group: None, source_span: None }
}

#[test]
fn resolve_lane_vars_in_styles_replaces_within_style_attr() {
    let input = r#"<rect style="fill:var(--tdsl-lane-0, #4682B4);" x="0"/>"#;
    let got = resolve_lane_vars_in_styles(input);
    assert_eq!(got, r#"<rect style="fill:#4682B4;" x="0"/>"#);
}

#[test]
fn resolve_lane_vars_in_styles_leaves_text_content_untouched() {
    let input = r#"<title>var(--tdsl-lane-0, #color)</title><rect style="fill:var(--tdsl-lane-0, #4682B4);"/>"#;
    let got = resolve_lane_vars_in_styles(input);
    assert!(got.contains("<title>var(--tdsl-lane-0, #color)</title>"));
    assert!(got.contains(r#"style="fill:#4682B4;""#));
}

#[test]
fn resolve_lane_vars_in_styles_leaves_root_css_block_untouched() {
    let input = ":root { --tdsl-lane-0: #4682B4; }";
    assert_eq!(resolve_lane_vars_in_styles(input), input);
}

#[test]
fn resolve_lane_vars_in_styles_handles_multiple_attrs() {
    let input = r#"<rect style="fill:var(--tdsl-lane-0, #4682B4);fill-opacity:0.75;"/><circle style="fill:var(--tdsl-lane-1, #E67E22);"/>"#;
    let got = resolve_lane_vars_in_styles(input);
    assert!(got.contains(r#"style="fill:#4682B4;fill-opacity:0.75;""#));
    assert!(got.contains(r#"style="fill:#E67E22;""#));
}

#[test]
fn resolve_lane_vars_keeps_unterminated_attribute() {
    let input = r#"<rect style="fill:var(--tdsl-lane-0, #4682B4);"#;
    assert_eq!(resolve_lane_vars_in_styles(input), input);
}

#[test]
fn resolve_vars_keeps_reference_without_fallback() {
    assert_eq!(resolve_vars_in_css_value("fill:var(--tdsl-lane-3)"), "fill:var(--tdsl-lane-3)");
    assert_eq!(resolve_vars_in_css_value("a var(--tdsl-lane-1,  red ) b"), "a red b");
}

#[test]
fn escape_xml_replaces_markup_characters() {
    assert_eq!(escape_xml(r#"<a & "b" 'c'>"#), "&lt;a &amp; &quot;b&quot; &#39;c&#39;&gt;");
    assert_eq!(escape_xml("漢"), "漢");
}

#[test]
fn escape_xml_attr_keeps_line_breaks() {
    assert_eq!(escape_xml_attr("a\r\nb<"), "a&#10;b&lt;");
}

#[test]
fn escape_html_matches_xml_escaping() {
    assert_eq!(escape_html("<x>&'\""), "&lt;x&gt;&amp;&#39;&quot;");
}

#[test]
fn interactive_attrs_include_source_and_line() {
    let mut i = info("e1", "A \"quote\"", "a");
    i.source = Some("wd:Q1".to_string());
    i.source_span = Some(SourceSpan { line: 12, col_start: 1, col_end: 5 });
    let item = Item::Event { info: i, time: 1, time_at: year() };
    assert_eq!(
        build_interactive_attrs(&item),
        r#" data-id="e1" data-label="A &quot;quote&quot;" data-type="event" data-source="wd:Q1" data-line="12""#
    );
    let span = Item::Span { info: info("s", "S", "a"), start: 1, start_at: year(), end: 2, end_at: year(), end_open: false };
    assert_eq!(build_interactive_attrs(&span), r#" data-id="s" data-label="S" data-type="span""#);
}

#[test]
fn aria_label_is_one_line() {
    let item = Item::EventRange { info: info("r", "R", "a"), start: 1, start_at: year(), end: 2, end_at: year(), end_open: false };
    assert_eq!(item_aria_label(&item, "R\n1〜2\nid: r", "Lane A"), "Event range: R, 1〜2, id: r, Lane: Lane A");
}

#[test]
fn html_wraps_with_doctype_and_svg() {
    let html = wrap_html("<svg></svg>", "test title", Theme::Default, None, None);
    assert!(html.starts_with("<!DOCTYPE html>"));
    assert!(html.contains("<title>test title</title>"));
    assert!(html.contains("<style>"));
    assert!(html.contains("<svg></svg>"));
    assert!(html.contains(r#"id="tdsl-tooltip""#));
    assert!(html.contains(r#"data-tdsl-tooltip"#));
    assert!(html.ends_with("</html>\n"));
}

#[test]
fn standalone_html_has_no_external_font_dependency() {
    let html = wrap_html("<svg></svg>", "test title", Theme::Default, None, None);
    assert!(!html.contains("fonts.googleapis.com"));
    assert!(!html.contains("fonts.gstatic.com"));
    assert!(!html.contains("https://"));
    assert!(html.contains("Hiragino Sans"));
}

#[test]
fn interactive_html_has_no_external_font_dependency() {
    let html = wrap_html_interactive("<svg></svg>", "test title", Theme::Default, None, &[], None);
    assert!(!html.contains("fonts.googleapis.com"));
    assert!(!html.contains("fonts.gstatic.com"));
    assert!(!html.contains("fonts.googleapis.com/css2"));
}

#[test]
fn html_escapes_title() {
    let html = wrap_html("<svg></svg>", "A & B <danger>", Theme::Default, None, None);
    assert!(html.contains("A &amp; B &lt;danger&gt;"));
    assert!(!html.contains("<danger>"));
}

#[test]
fn html_escapes_title_and_adds_custom_css_and_table() {
    let html = wrap_html("<svg/>", "<T>", Theme::Dark, Some("h1 { color: red; }"), Some("<table></table>"));
    assert!(html.contains("<title>&lt;T&gt;</title>"));
    assert!(html.contains("\n<style>\nh1 { color: red; }\n</style>"));
    assert!(html.contains("<div class=\"tdsl-table-wrap\">\n<table></table>\n</div>"));
    assert!(html.contains("#1a1a2e"));
}

#[test]
fn interactive_html_has_lane_legend() {
    let lanes = vec![lane("han", "漢", 1), lane("<x>", "X", 2)];
    let html = wrap_html_interactive("<svg/>", "t", Theme::Default, None, &lanes, None);
    assert!(html.contains(r#"<label class="tdsl-legend-item"><input type="checkbox" checked data-lane-toggle="han"> 漢</label>"#));
    assert!(html.contains(r#"data-lane-toggle="&lt;x&gt;""#));
    assert!(html.contains(r#"id="tdsl-search""#));
}

#[test]
fn table_html_lists_rows_in_order() {
    let lanes = vec![lane("a", "Lane A", 1)];
    let items = vec![
        Item::Event { info: info("e", "<E>", "a"), time: 5, time_at: year() },
        Item::Span { info: info("s", "S", "a"), start: 1, start_at: year(), end: 9, end_at: year(), end_open: false },
    ];
    let html = generate_table_html(&items, &lanes);
    assert_eq!(
        html,
        "<table class=\"tdsl-table\">\n<thead>\n<tr><th>時期</th><th>ラベル</th><th>レーン</th><th>タグ</th></tr>\n</thead>\n<tbody>\n<tr><td>1〜9</td><td>S</td><td>Lane A</td><td></td></tr>\n<tr><td>5</td><td>&lt;E&gt;</td><td>Lane A</td><td></td></tr>\n</tbody>\n</table>"
    );
}

#[test]
fn dark_theme_applies_dark_background() {
    let html = wrap_html("<svg></svg>", "test", Theme::Dark, None, None);
    assert!(html.contains("1a1a2e"), "dark theme should include #1a1a2e");
}

#[test]
fn custom_css_is_injected() {
    let html = wrap_html("<svg></svg>", "test", Theme::Default, Some(".tdsl-span { fill: hotpink; }"), None);
    assert!(html.contains("hotpink"), "custom CSS should be in output");
}

#[test]
fn print_theme_applies_monochrome_background() {
    let html = wrap_html("<svg></svg>", "test", Theme::Print, None, None);
    assert!(html.contains("#fff") || html.contains("#ffffff"), "print theme should include white background");
    assert!(html.contains("#000") || html.contains("#000000"), "print theme should include black foreground");
}

#[test]
fn pastel_theme_applies_soft_colors() {
    let html = wrap_html("<svg></svg>", "test", Theme::Pastel, None, None);
    assert!(html.contains("fef9f0"), "pastel theme should include #fef9f0 background");
    assert!(html.contains("b5d5f5"), "pastel theme should include pastel blue span color");
}

#[test]
fn table_html_is_inserted_when_some() {
    let table = "<table class=\"tdsl-table\"><thead><tr><th>時期</th></tr></thead><tbody></tbody></table>";
    let html = wrap_html("<svg></svg>", "test", Theme::Default, None, Some(table));
    assert!(html.contains("<div class=\"tdsl-table-wrap\">"));
    assert!(html.contains("<table class=\"tdsl-table\">"));
}

#[test]
fn table_html_absent_when_none() {
    let html = wrap_html("<svg></svg>", "test", Theme::Default, None, None);
    assert!(!html.contains("<div class=\"tdsl-table-wrap\">"));
}

fn span_item(id: &str, lane: &str, label: &str, start: i64, end: i64, tags: &[&str]) -> Item {
    let mut i = info(id, label, lane);
    i.tags = tags.iter().map(|t| t.to_string()).collect();
    Item::Span { info: i, start, start_at: year(), end, end_at: year(), end_open: false }
}

fn event_item(id: &str, lane: &str, label: &str, time: i64, tags: &[&str]) -> Item {
    let mut i = info(id, label, lane);
    i.tags = tags.iter().map(|t| t.to_string()).collect();
    Item::Event { info: i, time, time_at: year() }
}

fn event_range_item(id: &str, lane: &str, label: &str, start: i64, end: i64) -> Item {
    Item::EventRange { info: info(id, label, lane), start, start_at: year(), end, end_at: year(), end_open: false }
}

#[test]
fn generate_table_html_basic() {
    let lanes = vec![Lane {
        id: "han".to_string(),
        label: "漢".to_string(),
        kind: "dynasty".to_string(),
        order: 10,
        group: None,
        source_span: None,
    }];
    let items = vec![
        span_item("span:han", "han", "漢王朝", -206, 220, &["dynasty"]),
        event_item("event:1", "han", "紀元", 0, &[]),
    ];
    let table = generate_table_html(&items, &lanes);
    assert!(table.contains("<table class=\"tdsl-table\">"));
    assert!(table.contains("<thead>"));
    assert!(table.contains("<tbody>"));
    assert!(table.contains("漢王朝"));
    assert!(table.contains("紀元"));
    assert!(table.contains("漢"));
    assert!(table.contains("dynasty"));
}

#[test]
fn generate_table_html_escapes_special_chars() {
    let lanes = vec![Lane {
        id: "l".to_string(),
        label: "Lane <A> & \"B\"".to_string(),
        kind: "k".to_string(),
        order: 1,
        group: None,
        source_span: None,
    }];
    let items = vec![event_item("e1", "l", "<script>alert('xss')</script>", 50, &["<bad>"])];
    let table = generate_table_html(&items, &lanes);
    assert!(!table.contains("<script>"));
    assert!(table.contains("&lt;script&gt;"));
    assert!(!table.contains("<bad>"));
    assert!(table.contains("Lane &lt;A&gt; &amp; &quot;B&quot;"));
}

#[test]
fn generate_table_html_sort_order() {
    let lanes = vec![lane("l", "L", 1)];
    let items = vec![
        event_item("e3", "l", "C_event", 300, &[]),
        span_item("s1", "l", "A_span", 100, 200, &[]),
        event_range_item("er2", "l", "B_event_range", 200, 250),
    ];
    let table = generate_table_html(&items, &lanes);
    let pos_a = table.find("A_span").expect("A_span must be in table");
    let pos_b = table.find("B_event_range").expect("B_event_range must be in table");
    let pos_c = table.find("C_event").expect("C_event must be in table");
    assert!(pos_a < pos_b);
    assert!(pos_b < pos_c);
}

#[test]
fn item_data_attrs_name_lane_tags_and_interactive_fields() {
    let item = span_item("s<1>", "han", "漢 & co", -206, 220, &["a\"b", "c"]);
    assert_eq!(item_data_attrs(&item, false), r#" data-lane="han" data-tags="a&quot;b,c""#);
    assert_eq!(
        item_data_attrs(&item, true),
        r#" data-lane="han" data-tags="a&quot;b,c" data-id="s&lt;1&gt;" data-label="漢 &amp; co" data-type="span""#
    );
    let plain = event_item("e", "l", "E", 5, &[]);
    assert_eq!(item_data_attrs(&plain, false), r#" data-lane="l""#);
}

#[test]
fn item_group_open_escapes_all_item_text() {
    let mut item = span_item("s1", "l<x>", "A", 0, 10, &[]);
    if let Item::Span { end_open, .. } = &mut item {
        *end_open = true;
    }
    let tag = item_group_open(&item, "<b>\n\"x\"", "L&M", false);
    assert_eq!(
        tag,
        r#"<g class="tdsl-item tdsl-item-span tdsl-item-open-ended" role="group" aria-label="Span: &lt;b&gt;, &quot;x&quot;, Lane: L&amp;M" tabindex="0" data-tdsl-tooltip="&lt;b&gt;&#10;&quot;x&quot;" data-lane="l&lt;x&gt;">"#
    );
    assert!(tag.starts_with('<') && tag.ends_with('>'));
    assert!(!tag[1..tag.len() - 1].contains('<') && !tag[1..tag.len() - 1].contains('>'));
}

#[test]
fn event_groups_have_no_open_ended_class() {
    let ev = event_item("e1", "l", "E", 3, &[]);
    let tag = item_group_open(&ev, "E\n3", "L", false);
    assert!(tag.starts_with(r#"<g class="tdsl-item tdsl-item-event" role="group""#));
    let er = event_range_item("r1", "l", "R", 1, 2);
    let tag = item_group_open(&er, "R", "L", false);
    assert!(tag.starts_with(r#"<g class="tdsl-item tdsl-item-event-range" role="group""#));
}
