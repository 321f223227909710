//! Standalone HTML documents around a rendered SVG, and the HTML item table.

use vstd::prelude::*;
use crate::text::push_str;
use crate::svg::{escape_xml, xml_escaped, occurs_at};
use crate::layout::Theme;
use crate::ir::{Item, Lane, lanes_view, items_view};
use crate::table::{TableRow, TableRowView, collect_table_rows, rows_view, table_rows_spec, TABLE_COL_TIME, TABLE_COL_LABEL, TABLE_COL_LANE, TABLE_COL_TAGS};

verus! {

/// Base stylesheet of every HTML page.
pub const EMBEDDED_CSS: &'static str = r#"body {
  font-family: "Hiragino Sans", "Yu Gothic UI", "Yu Gothic", "Meiryo",
    -apple-system, BlinkMacSystemFont, "Segoe UI", Roboto, sans-serif;
  margin: 24px;
  color: #222;
  background: #fafafa;
}
h1 {
  font-size: 18px;
  margin: 0 0 16px;
  font-weight: 600;
}
.tdsl-timeline {
  background: #fff;
  border: 1px solid #e5e5e5;
  border-radius: 4px;
  padding: 8px;
  overflow-x: auto;
}
.tdsl-timeline svg {
  display: block;
}
.tdsl-lane-band-even { fill: #fff; }
.tdsl-lane-band-odd  { fill: #f5f5f7; }
.tdsl-group-band-even { fill: #eef4fb; }
.tdsl-group-band-odd  { fill: #f6f0fb; }
.tdsl-group-label    { font-size: 11px; fill: #555; font-weight: bold; }
.tdsl-axis-baseline       { stroke: #888; stroke-width: 1; }
.tdsl-axis-tick           { stroke: #e0e0e0; stroke-width: 1; }
.tdsl-axis-month-tick     { stroke: #ccc; stroke-width: 1; }
.tdsl-axis-text           { font-size: 11px; fill: #666; }
.tdsl-lane-label     { font-size: 13px; fill: #333; font-weight: 500; }
.tdsl-span {
  fill: #4682B4;
  fill-opacity: 0.78;
  stroke: #2a4d6e;
  stroke-width: 1;
  cursor: pointer;
  transition: fill-opacity 0.15s;
}
.tdsl-span:hover { fill-opacity: 1; }
.tdsl-event-range {
  fill: #DC143C;
  fill-opacity: 0.75;
  stroke: #8b0c1a;
  stroke-width: 1;
  cursor: pointer;
  transition: fill-opacity 0.15s;
}
.tdsl-event-range:hover { fill-opacity: 1; }
.tdsl-event-dot {
  fill: #333;
  stroke: #fff;
  stroke-width: 1;
  cursor: pointer;
}
.tdsl-event-dot:hover { fill: #1a73e8; }
.tdsl-event-stem     { stroke: #aaa; stroke-width: 1; stroke-dasharray: 2 2; }
/* Invisible but hoverable hit-area so the thin stem + tiny dot are easy to hover for tooltips. */
.tdsl-event-hit      { fill: transparent; cursor: pointer; }
/* #550: open-ended (`now`-terminated) span/event_range bars get a dashed
   right edge to visually signal "still ongoing". Override via --custom-css. */
.tdsl-item-open-ended .tdsl-span,
.tdsl-item-open-ended .tdsl-event-range {
  stroke-dasharray: 4 2;
}
.tdsl-item-label {
  font-size: 11px;
  fill: #fff;
  pointer-events: none;
  font-weight: 500;
}
.tdsl-event-label {
  font-size: 10px;
  fill: #333;
  pointer-events: none;
  user-select: none;
}
.tdsl-item:focus-visible .tdsl-span,
.tdsl-item:focus-visible .tdsl-event-range,
.tdsl-item:focus-visible .tdsl-event-dot {
  stroke: #1a73e8;
  stroke-width: 2;
}
.tdsl-tooltip {
  position: fixed;
  left: 0;
  top: 0;
  z-index: 9999;
  max-width: min(360px, calc(100vw - 16px));
  padding: 8px 10px;
  border-radius: 6px;
  border: 1px solid #d0d7de;
  background: rgba(255, 255, 255, 0.96);
  color: #111;
  box-shadow: 0 6px 20px rgba(0, 0, 0, 0.18);
  font-size: 12px;
  line-height: 1.45;
  white-space: pre-line;
  pointer-events: none;
}
.tdsl-table-wrap { margin-top: 2rem; overflow-x: auto; }
.tdsl-table { width: 100%; border-collapse: collapse; font-size: 0.9em; }
.tdsl-table th, .tdsl-table td { border: 1px solid #ccc; padding: 0.4em 0.6em; text-align: left; }
.tdsl-table th { background: #f5f5f5; font-weight: bold; position: sticky; top: 0; }
.tdsl-table tbody tr:nth-child(even) { background: #fafafa; }
"#;

/// Overrides of the dark theme.
pub const DARK_THEME_CSS: &'static str = r#"body {
  background: #1a1a2e;
  color: #e0e0e0;
}
h1 { color: #e0e0e0; }
.tdsl-timeline {
  background: #16213e;
  border-color: #0f3460;
}
.tdsl-lane-band-even { fill: #16213e; }
.tdsl-lane-band-odd  { fill: #0f3460; }
.tdsl-group-band-even { fill: #1f2b4d; }
.tdsl-group-band-odd  { fill: #142a52; }
.tdsl-group-label     { fill: #ccc; }
.tdsl-axis-baseline       { stroke: #555; }
.tdsl-axis-tick           { stroke: #2a4a7f; }
.tdsl-axis-month-tick     { stroke: #1e3a5f; }
.tdsl-axis-text           { fill: #aaa; }
.tdsl-lane-label     { fill: #ccc; }
.tdsl-item-label     { fill: #f0f0f0; }
.tdsl-tooltip {
  background: rgba(22, 33, 62, 0.96);
  border-color: #0f3460;
  color: #e0e0e0;
}
"#;

/// Overrides of the print theme.
pub const PRINT_THEME_CSS: &'static str = r#"body {
  background: #fff;
  color: #000;
}
.tdsl-timeline {
  background: #fff;
  border-color: #000;
}
.tdsl-lane-band-even { fill: #fff; }
.tdsl-lane-band-odd  { fill: #eee; }
.tdsl-group-band-even { fill: #fff; }
.tdsl-group-band-odd  { fill: #ddd; }
.tdsl-group-label     { fill: #000; }
.tdsl-axis-baseline       { stroke: #000; }
.tdsl-axis-tick           { stroke: #bbb; }
.tdsl-axis-month-tick     { stroke: #999; }
.tdsl-axis-text           { fill: #000; }
.tdsl-lane-label     { fill: #000; }
.tdsl-span {
  fill: #333;
  stroke: #000;
}
.tdsl-event-range {
  fill: #666;
  stroke: #000;
}
.tdsl-event-dot      { fill: #000; }
.tdsl-item-label     { fill: #fff; }
@media print {
  .tdsl-table th { background: #333 !important; color: #fff !important; }
  .tdsl-table th, .tdsl-table td { border-color: #333; }
  thead { display: table-header-group; }
}
"#;

/// Overrides of the pastel theme.
pub const PASTEL_THEME_CSS: &'static str = r#"body {
  background: #fef9f0;
  color: #444;
}
.tdsl-timeline {
  background: #fffdf7;
  border-color: #e8dcc8;
}
.tdsl-lane-band-even { fill: #fffdf7; }
.tdsl-lane-band-odd  { fill: #fdf3e3; }
.tdsl-group-band-even { fill: #fdf3e3; }
.tdsl-group-band-odd  { fill: #f3e6f5; }
.tdsl-group-label     { fill: #888; }
.tdsl-axis-baseline       { stroke: #ccc; }
.tdsl-axis-tick           { stroke: #e8dcc8; }
.tdsl-axis-month-tick     { stroke: #ddd; }
.tdsl-axis-text           { fill: #888; }
.tdsl-lane-label     { fill: #666; }
.tdsl-span {
  fill: #b5d5f5;
  stroke: #7aabdf;
  rx: 6;
}
.tdsl-event-range {
  fill: #f5c6b5;
  stroke: #df8a7a;
}
.tdsl-event-dot      { fill: #888; stroke: #fff; }
.tdsl-item-label     { fill: #333; }
"#;

/// Script of the static page: hover tooltips.
pub const EMBEDDED_JS: &'static str = r#"(() => {
  const tooltip = document.getElementById("tdsl-tooltip");
  if (!tooltip) return;

  const items = document.querySelectorAll(".tdsl-item[data-tdsl-tooltip]");
  if (!items.length) return;

  const GAP = 12;
  const PAD = 8;

  const hide = () => {
    tooltip.hidden = true;
    tooltip.setAttribute("aria-hidden", "true");
  };

  const show = (text) => {
    if (!text) return;
    tooltip.textContent = text;
    tooltip.hidden = false;
    tooltip.setAttribute("aria-hidden", "false");
  };

  const move = (clientX, clientY) => {
    if (tooltip.hidden) return;
    const rect = tooltip.getBoundingClientRect();
    let x = clientX + GAP;
    let y = clientY + GAP;

    if (x + rect.width > window.innerWidth - PAD) {
      x = Math.max(PAD, clientX - rect.width - GAP);
    }
    if (y + rect.height > window.innerHeight - PAD) {
      y = Math.max(PAD, clientY - rect.height - GAP);
    }

    tooltip.style.left = `${x}px`;
    tooltip.style.top = `${y}px`;
  };

  const showAtElement = (el) => {
    const text = el.getAttribute("data-tdsl-tooltip");
    if (!text) return;
    show(text);
    const box = el.getBoundingClientRect();
    move(box.left + box.width / 2, box.top + box.height / 2);
  };

  for (const el of items) {
    el.addEventListener("pointerenter", (event) => {
      show(el.getAttribute("data-tdsl-tooltip"));
      move(event.clientX, event.clientY);
    });
    el.addEventListener("pointermove", (event) => {
      move(event.clientX, event.clientY);
    });
    el.addEventListener("pointerleave", hide);
    el.addEventListener("focus", () => showAtElement(el));
    el.addEventListener("blur", hide);
  }

  document.addEventListener("keydown", (event) => {
    if (event.key === "Escape") hide();
  });
  window.addEventListener("scroll", hide, { passive: true });
  window.addEventListener("resize", hide);
})();"#;

/// Extra stylesheet of the interactive page.
pub const INTERACTIVE_CSS: &'static str = r#"
/* Interactive mode layout */
#tdsl-app {
  display: flex;
  flex-direction: column;
  height: 100vh;
  margin: 0;
  overflow: hidden;
}
#tdsl-header {
  display: flex;
  align-items: center;
  gap: 16px;
  padding: 8px 16px;
  background: #fff;
  border-bottom: 1px solid #e5e5e5;
  flex-shrink: 0;
}
#tdsl-header h1 {
  margin: 0;
  font-size: 16px;
}
#tdsl-search {
  padding: 5px 10px;
  border: 1px solid #ccc;
  border-radius: 4px;
  font-size: 13px;
  width: 200px;
  outline-offset: 2px;
}
#tdsl-main {
  display: flex;
  flex: 1;
  overflow: hidden;
}
#tdsl-legend {
  width: 160px;
  flex-shrink: 0;
  padding: 12px 8px;
  border-right: 1px solid #e5e5e5;
  overflow-y: auto;
  background: #fafafa;
  font-size: 12px;
}
.tdsl-legend-item {
  display: flex;
  align-items: center;
  gap: 6px;
  padding: 3px 0;
  cursor: pointer;
  user-select: none;
}
#tdsl-canvas {
  flex: 1;
  overflow: auto;
  position: relative;
  cursor: grab;
}
#tdsl-canvas.dragging {
  cursor: grabbing;
}
#tdsl-canvas svg {
  display: block;
}
#tdsl-detail {
  width: 240px;
  flex-shrink: 0;
  padding: 12px;
  border-left: 1px solid #e5e5e5;
  background: #fafafa;
  font-size: 13px;
  overflow-y: auto;
  position: relative;
}
#tdsl-detail[hidden] {
  display: none;
}
#tdsl-detail-close {
  position: absolute;
  top: 8px;
  right: 8px;
  background: none;
  border: none;
  font-size: 18px;
  cursor: pointer;
  color: #666;
  line-height: 1;
  padding: 2px 6px;
}
#tdsl-detail-close:hover {
  color: #111;
}
#tdsl-detail-content {
  margin-top: 4px;
}
#tdsl-detail-content dl {
  margin: 0;
  display: grid;
  grid-template-columns: auto 1fr;
  gap: 4px 8px;
}
#tdsl-detail-content dt {
  font-weight: 600;
  color: #555;
  white-space: nowrap;
}
#tdsl-detail-content dd {
  margin: 0;
  word-break: break-all;
}
/* Search highlight / dim */
.tdsl-item.tdsl-search-dim {
  opacity: 0.15;
}
.tdsl-item.tdsl-search-match .tdsl-span,
.tdsl-item.tdsl-search-match .tdsl-event-range,
.tdsl-item.tdsl-search-match .tdsl-event-dot {
  stroke: #f5c000;
  stroke-width: 2.5;
}
/* Lane hide */
.tdsl-item.tdsl-lane-hidden {
  display: none;
}
"#;

/// Script of the interactive page: zoom, pan, search, legend and detail panel.
pub const INTERACTIVE_JS: &'static str = r#"(() => {
  // ── Tooltip (reuse existing logic) ──────────────────────────────────────
  const tooltip = document.getElementById("tdsl-tooltip");
  const items = document.querySelectorAll(".tdsl-item[data-tdsl-tooltip]");
  if (tooltip && items.length) {
    const GAP = 12, PAD = 8;
    const hide = () => { tooltip.hidden = true; tooltip.setAttribute("aria-hidden","true"); };
    const show = (text) => {
      if (!text) return;
      tooltip.textContent = text;
      tooltip.hidden = false;
      tooltip.setAttribute("aria-hidden","false");
    };
    const move = (cx, cy) => {
      if (tooltip.hidden) return;
      const r = tooltip.getBoundingClientRect();
      let x = cx + GAP, y = cy + GAP;
      if (x + r.width  > window.innerWidth  - PAD) x = Math.max(PAD, cx - r.width  - GAP);
      if (y + r.height > window.innerHeight - PAD) y = Math.max(PAD, cy - r.height - GAP);
      tooltip.style.left = x + "px";
      tooltip.style.top  = y + "px";
    };
    const showAt = (el) => {
      const text = el.getAttribute("data-tdsl-tooltip");
      if (!text) return;
      show(text);
      const box = el.getBoundingClientRect();
      move(box.left + box.width / 2, box.top + box.height / 2);
    };
    for (const el of items) {
      el.addEventListener("pointerenter", (e) => { show(el.getAttribute("data-tdsl-tooltip")); move(e.clientX, e.clientY); });
      el.addEventListener("pointermove",  (e) => move(e.clientX, e.clientY));
      el.addEventListener("pointerleave", hide);
      el.addEventListener("focus", () => showAt(el));
      el.addEventListener("blur",  hide);
    }
    document.addEventListener("keydown", (e) => { if (e.key === "Escape") hide(); });
    window.addEventListener("scroll", hide, { passive: true });
    window.addEventListener("resize", hide);
  }

  // ── Zoom (wheel) + Pan (drag) ────────────────────────────────────────────
  const canvas = document.getElementById("tdsl-canvas");
  if (canvas) {
    const svg = canvas.querySelector("svg");
    let svgBaseWidth = svg ? parseFloat(svg.getAttribute("width") || "0") : 0;
    let zoomLevel = 1.0;

    // Zoom: scale SVG width on wheel; canvas overflow:auto provides scrollbars.
    if (svg && svgBaseWidth > 0) {
      canvas.addEventListener("wheel", (e) => {
        e.preventDefault();
        const factor = e.deltaY < 0 ? 1.12 : 0.893;
        zoomLevel = Math.min(10, Math.max(0.25, zoomLevel * factor));
        // Preserve the hovered x-position after zoom.
        const canvasRect = canvas.getBoundingClientRect();
        const mouseX = e.clientX - canvasRect.left + canvas.scrollLeft;
        const ratio = mouseX / (svgBaseWidth * zoomLevel / factor);
        svg.style.width = (svgBaseWidth * zoomLevel) + "px";
        canvas.scrollLeft = ratio * svgBaseWidth * zoomLevel - (e.clientX - canvasRect.left);
      }, { passive: false });
    }

    // Pan: drag to scroll horizontally.
    let dragging = false;
    let startX = 0, startScrollLeft = 0;
    canvas.addEventListener("mousedown", (e) => {
      if (e.button !== 0) return;
      dragging = true;
      startX = e.clientX;
      startScrollLeft = canvas.scrollLeft;
      canvas.classList.add("dragging");
    });
    document.addEventListener("mousemove", (e) => {
      if (!dragging) return;
      const dx = e.clientX - startX;
      canvas.scrollLeft = startScrollLeft - dx;
    });
    document.addEventListener("mouseup", () => {
      if (dragging) {
        dragging = false;
        canvas.classList.remove("dragging");
      }
    });
  }

  // ── Search filter ────────────────────────────────────────────────────────
  const searchInput = document.getElementById("tdsl-search");
  const allItems = Array.from(document.querySelectorAll(".tdsl-item[data-label]"));
  if (searchInput && allItems.length) {
    searchInput.addEventListener("input", () => {
      const q = searchInput.value.trim().toLowerCase();
      for (const el of allItems) {
        const label = (el.getAttribute("data-label") || "").toLowerCase();
        if (!q) {
          el.classList.remove("tdsl-search-dim", "tdsl-search-match");
        } else if (label.includes(q)) {
          el.classList.remove("tdsl-search-dim");
          el.classList.add("tdsl-search-match");
        } else {
          el.classList.remove("tdsl-search-match");
          el.classList.add("tdsl-search-dim");
        }
      }
    });
  }

  // ── Click detail panel ───────────────────────────────────────────────────
  const detail = document.getElementById("tdsl-detail");
  const detailContent = document.getElementById("tdsl-detail-content");
  const detailClose = document.getElementById("tdsl-detail-close");
  if (detail && detailContent && allItems.length) {
    const showDetail = (el) => {
      const label  = el.getAttribute("data-label")  || "";
      const type_  = el.getAttribute("data-type")   || "";
      const lane   = el.getAttribute("data-lane")   || "";
      const source = el.getAttribute("data-source") || "";
      let html = "<dl>";
      if (label)  html += "<dt>ラベル</dt><dd>" + escapeHtml(label) + "</dd>";
      if (type_)  html += "<dt>種別</dt><dd>"   + escapeHtml(type_) + "</dd>";
      if (lane)   html += "<dt>レーン</dt><dd>"  + escapeHtml(lane)  + "</dd>";
      if (source) {
        const wd = source.match(/^wd:(Q\d+)$/);
        if (wd) {
          html += "<dt>出典</dt><dd><a href='https://www.wikidata.org/wiki/" + wd[1] + "' target='_blank' rel='noopener'>" + escapeHtml(source) + "</a></dd>";
        } else {
          html += "<dt>出典</dt><dd>" + escapeHtml(source) + "</dd>";
        }
      }
      html += "</dl>";
      detailContent.innerHTML = html;
      detail.hidden = false;
    };
    for (const el of allItems) {
      el.addEventListener("click", () => showDetail(el));
    }
    if (detailClose) {
      detailClose.addEventListener("click", () => { detail.hidden = true; });
    }
    document.addEventListener("keydown", (e) => { if (e.key === "Escape") detail.hidden = true; });
  }

  // ── Legend toggles ───────────────────────────────────────────────────────
  const laneToggles = document.querySelectorAll("[data-lane-toggle]");
  if (laneToggles.length) {
    const laneItemMap = {};
    for (const el of allItems) {
      const l = el.getAttribute("data-lane") || "";
      if (!laneItemMap[l]) laneItemMap[l] = [];
      laneItemMap[l].push(el);
    }
    for (const cb of laneToggles) {
      cb.addEventListener("change", () => {
        const laneId = cb.getAttribute("data-lane-toggle");
        const visible = cb.checked;
        for (const el of (laneItemMap[laneId] || [])) {
          el.classList.toggle("tdsl-lane-hidden", !visible);
        }
      });
    }
  }

  // ── Utility ─────────────────────────────────────────────────────────────
  function escapeHtml(s) {
    return String(s)
      .replace(/&/g, "&amp;")
      .replace(/</g, "&lt;")
      .replace(/>/g, "&gt;")
      .replace(/"/g, "&quot;")
      .replace(/'/g, "&#39;");
  }
})();"#;


/// Escapes text for HTML content and attribute values (`& < > " '`).
pub fn escape_html(s: &str) -> (r: String)
    ensures
        r@ == xml_escaped(s@),
{
    escape_xml(s)
}

/// The stylesheet that a theme adds.
pub open spec fn theme_css(theme: Theme) -> Seq<char> {
    match theme {
        Theme::Default => Seq::empty(),
        Theme::Dark => DARK_THEME_CSS@,
        Theme::Print => PRINT_THEME_CSS@,
        Theme::Pastel => PASTEL_THEME_CSS@,
    }
}

fn theme_css_text(theme: Theme) -> (s: &'static str)
    ensures
        s@ == theme_css(theme),
{
    match theme {
        Theme::Default => {
            proof { reveal_strlit(""); }
            ""
        },
        Theme::Dark => DARK_THEME_CSS,
        Theme::Print => PRINT_THEME_CSS,
        Theme::Pastel => PASTEL_THEME_CSS,
    }
}

/// The user's stylesheet block, after the theme.
pub open spec fn custom_css_block(custom_css: Option<Seq<char>>) -> Seq<char> {
    match custom_css {
        Some(css) => "\n<style>\n"@ + css + "\n</style>"@,
        None => Seq::empty(),
    }
}

/// The item table block below the chart.
pub open spec fn table_block(table_html: Option<Seq<char>>) -> Seq<char> {
    match table_html {
        Some(t) => "\n<div class=\"tdsl-table-wrap\">\n"@ + t + "\n</div>"@,
        None => Seq::empty(),
    }
}

fn push_custom_css(out: &mut String, custom_css: Option<&str>)
    ensures
        final(out)@ == old(out)@ + custom_css_block(match custom_css { Some(c) => Some(c@), None => None }),
{
    match custom_css {
        Some(css) => {
            push_str(out, "\n<style>\n");
            push_str(out, css);
            push_str(out, "\n</style>");
        },
        None => {},
    }
}

fn push_table(out: &mut String, table_html: Option<&str>)
    ensures
        final(out)@ == old(out)@ + table_block(match table_html { Some(t) => Some(t@), None => None }),
{
    match table_html {
        Some(t) => {
            push_str(out, "\n<div class=\"tdsl-table-wrap\">\n");
            push_str(out, t);
            push_str(out, "\n</div>");
        },
        None => {},
    }
}

pub open spec fn opt_view(o: Option<&str>) -> Option<Seq<char>> {
    match o {
        Some(s) => Some(s@),
        None => None,
    }
}

/// The static HTML page: the page title (escaped) as `<title>` and heading, the base
/// and theme stylesheets, the user's stylesheet, the SVG, the optional table, a tooltip
/// element and the tooltip script.
pub open spec fn static_page(svg: Seq<char>, title: Seq<char>, theme: Theme, custom_css: Option<Seq<char>>, table_html: Option<Seq<char>>) -> Seq<char> {
    "<!DOCTYPE html>\n<html lang=\"ja\">\n<head>\n<meta charset=\"UTF-8\">\n<meta name=\"viewport\" content=\"width=device-width, initial-scale=1\">\n<title>"@
    + xml_escaped(title) + "</title>\n<style>\n"@ + EMBEDDED_CSS@ + "\n"@ + theme_css(theme) + "</style>"@
    + custom_css_block(custom_css) + "\n</head>\n<body>\n<h1>"@ + xml_escaped(title)
    + "</h1>\n<div class=\"tdsl-timeline\">\n"@ + svg + "\n</div>"@ + table_block(table_html)
    + "\n<div id=\"tdsl-tooltip\" class=\"tdsl-tooltip\" role=\"tooltip\" hidden aria-hidden=\"true\"></div>\n<script>\n"@
    + EMBEDDED_JS@ + "\n</script>\n</body>\n</html>\n"@
}

/// Wraps a rendered SVG in a standalone HTML document with embedded CSS and the tooltip
/// script (see [`static_page`]).
pub fn wrap_html(svg_body: &str, title: &str, theme: Theme, custom_css: Option<&str>, table_html: Option<&str>) -> (s: String)
    ensures
        s@ == static_page(svg_body@, title@, theme, opt_view(custom_css), opt_view(table_html)),
{
    let t = escape_html(title);
    let mut s = String::from_str("<!DOCTYPE html>\n<html lang=\"ja\">\n<head>\n<meta charset=\"UTF-8\">\n<meta name=\"viewport\" content=\"width=device-width, initial-scale=1\">\n<title>");
    push_str(&mut s, t.as_str());
    push_str(&mut s, "</title>\n<style>\n");
    push_str(&mut s, EMBEDDED_CSS);
    push_str(&mut s, "\n");
    push_str(&mut s, theme_css_text(theme));
    push_str(&mut s, "</style>");
    push_custom_css(&mut s, custom_css);
    push_str(&mut s, "\n</head>\n<body>\n<h1>");
    push_str(&mut s, t.as_str());
    push_str(&mut s, "</h1>\n<div class=\"tdsl-timeline\">\n");
    push_str(&mut s, svg_body);
    push_str(&mut s, "\n</div>");
    push_table(&mut s, table_html);
    push_str(&mut s, "\n<div id=\"tdsl-tooltip\" class=\"tdsl-tooltip\" role=\"tooltip\" hidden aria-hidden=\"true\"></div>\n<script>\n");
    push_str(&mut s, EMBEDDED_JS);
    push_str(&mut s, "\n</script>\n</body>\n</html>\n");
    s
}

/// `t` occurs somewhere in `s`.
pub open spec fn contains_text(s: Seq<char>, t: Seq<char>) -> bool {
    exists|i: int| occurs_at(s, t, i)
}

proof fn lemma_occurs_between(x: Seq<char>, t: Seq<char>, y: Seq<char>)
    ensures
        contains_text(x + t + y, t),
{
    assert((x + t + y).subrange(x.len() as int, (x.len() + t.len()) as int) =~= t);
    assert(occurs_at(x + t + y, t, x.len() as int));
}

spec fn page_head() -> Seq<char> {
    "<!DOCTYPE html>\n<html lang=\"ja\">\n<head>\n<meta charset=\"UTF-8\">\n<meta name=\"viewport\" content=\"width=device-width, initial-scale=1\">\n<title>"@
}

spec fn page_tail() -> Seq<char> {
    "\n</script>\n</body>\n</html>\n"@
}

spec fn page_before_svg(title: Seq<char>, theme: Theme, custom_css: Option<Seq<char>>) -> Seq<char> {
    page_head() + xml_escaped(title) + "</title>\n<style>\n"@ + EMBEDDED_CSS@ + "\n"@ + theme_css(theme) + "</style>"@
        + custom_css_block(custom_css) + "\n</head>\n<body>\n<h1>"@ + xml_escaped(title)
        + "</h1>\n<div class=\"tdsl-timeline\">\n"@
}

spec fn page_after_svg(table_html: Option<Seq<char>>) -> Seq<char> {
    "\n</div>"@ + table_block(table_html)
        + "\n<div id=\"tdsl-tooltip\" class=\"tdsl-tooltip\" role=\"tooltip\" hidden aria-hidden=\"true\"></div>\n<script>\n"@
        + EMBEDDED_JS@
}

proof fn lemma_static_page_parts(svg: Seq<char>, title: Seq<char>, theme: Theme, custom_css: Option<Seq<char>>, table_html: Option<Seq<char>>)
    ensures
        static_page(svg, title, theme, custom_css, table_html)
            == page_before_svg(title, theme, custom_css) + svg + page_after_svg(table_html) + page_tail(),
{
    assert(static_page(svg, title, theme, custom_css, table_html)
        =~= page_before_svg(title, theme, custom_css) + svg + page_after_svg(table_html) + page_tail());
}

proof fn lemma_page_head_ends() -> (pre: Seq<char>)
    ensures
        page_head() == pre + "<title>"@,
        page_head().len() >= 15 && page_head().subrange(0, 15) == "<!DOCTYPE html>"@,
{
    reveal_strlit("<!DOCTYPE html>\n<html lang=\"ja\">\n<head>\n<meta charset=\"UTF-8\">\n<meta name=\"viewport\" content=\"width=device-width, initial-scale=1\">\n<title>");
    reveal_strlit("<!DOCTYPE html>");
    reveal_strlit("<title>");
    let h = page_head();
    assert(h.subrange(0, 15) =~= "<!DOCTYPE html>"@);
    let pre = h.subrange(0, h.len() - 7);
    assert(h =~= pre + "<title>"@);
    pre
}

proof fn lemma_page_tail_ends()
    ensures
        page_tail().len() >= 8,
        page_tail().subrange(page_tail().len() - 8, page_tail().len() as int) == "</html>\n"@,
{
    reveal_strlit("\n</script>\n</body>\n</html>\n");
    reveal_strlit("</html>\n");
    let t = page_tail();
    assert(t.subrange(t.len() - 8, t.len() as int) =~= "</html>\n"@);
}

proof fn lemma_title_close_literal() -> (rest: Seq<char>)
    ensures
        "</title>\n<style>\n"@ == "</title>"@ + rest,
{
    reveal_strlit("</title>\n<style>\n");
    reveal_strlit("</title>");
    let l = "</title>\n<style>\n"@;
    let rest = l.subrange(8, l.len() as int);
    assert(l =~= "</title>"@ + rest);
    rest
}

proof fn lemma_block_literals()
    ensures
        "\n<style>\n"@ == seq!['\n'] + "<style>\n"@,
        "\n<div class=\"tdsl-table-wrap\">\n"@ == seq!['\n'] + "<div class=\"tdsl-table-wrap\">\n"@,
{
    reveal_strlit("\n<style>\n");
    reveal_strlit("<style>\n");
    reveal_strlit("\n<div class=\"tdsl-table-wrap\">\n");
    reveal_strlit("<div class=\"tdsl-table-wrap\">\n");
    assert("\n<style>\n"@ =~= seq!['\n'] + "<style>\n"@);
    assert("\n<div class=\"tdsl-table-wrap\">\n"@ =~= seq!['\n'] + "<div class=\"tdsl-table-wrap\">\n"@);
}

/// The static page is a whole document: it starts with `<!DOCTYPE html>` and ends with
/// `</html>` and a newline; it holds the SVG as given, the escaped title inside
/// `<title>`, and, when given, the user's stylesheet inside `<style>` and the item table
/// inside its wrapper `<div>`.
pub proof fn lemma_static_page_shape(svg: Seq<char>, title: Seq<char>, theme: Theme, custom_css: Option<Seq<char>>, table_html: Option<Seq<char>>)
    ensures
        ({
            let page = static_page(svg, title, theme, custom_css, table_html);
            &&& page.len() >= 15 && page.subrange(0, 15) == "<!DOCTYPE html>"@
            &&& page.len() >= 8 && page.subrange(page.len() - 8, page.len() as int) == "</html>\n"@
            &&& contains_text(page, svg)
            &&& contains_text(page, "<title>"@ + xml_escaped(title) + "</title>"@)
            &&& (custom_css matches Some(c) ==> contains_text(page, "<style>\n"@ + c + "\n</style>"@))
            &&& (table_html matches Some(t) ==> contains_text(page, "<div class=\"tdsl-table-wrap\">\n"@ + t + "\n</div>"@))
        }),
{
    lemma_page_starts_and_ends(svg, title, theme, custom_css, table_html);
    lemma_page_holds_svg(svg, title, theme, custom_css, table_html);
    lemma_page_holds_title(svg, title, theme, custom_css, table_html);
    lemma_page_holds_custom_css(svg, title, theme, custom_css, table_html);
    lemma_page_holds_table(svg, title, theme, custom_css, table_html);
}

proof fn lemma_page_starts_and_ends(svg: Seq<char>, title: Seq<char>, theme: Theme, custom_css: Option<Seq<char>>, table_html: Option<Seq<char>>)
    ensures
        ({
            let page = static_page(svg, title, theme, custom_css, table_html);
            &&& page.len() >= 15 && page.subrange(0, 15) == "<!DOCTYPE html>"@
            &&& page.len() >= 8 && page.subrange(page.len() - 8, page.len() as int) == "</html>\n"@
        }),
{
    let page = static_page(svg, title, theme, custom_css, table_html);
    let tail = page_tail();
    let body = page_before_svg(title, theme, custom_css) + svg + page_after_svg(table_html);
    lemma_static_page_parts(svg, title, theme, custom_css, table_html);
    let _ = lemma_page_head_ends();
    lemma_page_tail_ends();
    let head_rest = body.subrange(page_head().len() as int, body.len() as int);
    assert(body =~= page_head() + head_rest);
    assert(page.subrange(0, 15) =~= page_head().subrange(0, 15));
    assert(page.subrange(page.len() - 8, page.len() as int) =~= tail.subrange(tail.len() - 8, tail.len() as int));
}

proof fn lemma_page_holds_svg(svg: Seq<char>, title: Seq<char>, theme: Theme, custom_css: Option<Seq<char>>, table_html: Option<Seq<char>>)
    ensures
        contains_text(static_page(svg, title, theme, custom_css, table_html), svg),
{
    let before = page_before_svg(title, theme, custom_css);
    let after = page_after_svg(table_html);
    lemma_static_page_parts(svg, title, theme, custom_css, table_html);
    assert(before + svg + after + page_tail() =~= before + svg + (after + page_tail()));
    lemma_occurs_between(before, svg, after + page_tail());
}

proof fn lemma_page_holds_title(svg: Seq<char>, title: Seq<char>, theme: Theme, custom_css: Option<Seq<char>>, table_html: Option<Seq<char>>)
    ensures
        contains_text(static_page(svg, title, theme, custom_css, table_html), "<title>"@ + xml_escaped(title) + "</title>"@),
{
    let esc = xml_escaped(title);
    let pre = lemma_page_head_ends();
    let close_rest = lemma_title_close_literal();
    let rest = close_rest + EMBEDDED_CSS@ + "\n"@ + theme_css(theme) + "</style>"@
        + custom_css_block(custom_css) + "\n</head>\n<body>\n<h1>"@ + esc
        + "</h1>\n<div class=\"tdsl-timeline\">\n"@ + svg + page_after_svg(table_html) + page_tail();
    let t = "<title>"@ + esc + "</title>"@;
    lemma_static_page_parts(svg, title, theme, custom_css, table_html);
    assert(static_page(svg, title, theme, custom_css, table_html) =~= pre + t + rest);
    lemma_occurs_between(pre, t, rest);
}

proof fn lemma_page_holds_custom_css(svg: Seq<char>, title: Seq<char>, theme: Theme, custom_css: Option<Seq<char>>, table_html: Option<Seq<char>>)
    ensures
        custom_css matches Some(c) ==> contains_text(static_page(svg, title, theme, custom_css, table_html), "<style>\n"@ + c + "\n</style>"@),
{
    match custom_css {
        Some(c) => {
            lemma_block_literals();
            let esc = xml_escaped(title);
            let block = "<style>\n"@ + c + "\n</style>"@;
            let x = page_head() + esc + "</title>\n<style>\n"@ + EMBEDDED_CSS@ + "\n"@ + theme_css(theme) + "</style>"@ + seq!['\n'];
            let y = "\n</head>\n<body>\n<h1>"@ + esc + "</h1>\n<div class=\"tdsl-timeline\">\n"@
                + svg + page_after_svg(table_html) + page_tail();
            assert(custom_css_block(custom_css) =~= seq!['\n'] + block);
            assert(static_page(svg, title, theme, custom_css, table_html) =~= x + block + y);
            lemma_occurs_between(x, block, y);
        },
        None => {},
    }
}

proof fn lemma_page_holds_table(svg: Seq<char>, title: Seq<char>, theme: Theme, custom_css: Option<Seq<char>>, table_html: Option<Seq<char>>)
    ensures
        table_html matches Some(t) ==> contains_text(static_page(svg, title, theme, custom_css, table_html),
            "<div class=\"tdsl-table-wrap\">\n"@ + t + "\n</div>"@),
{
    match table_html {
        Some(t) => {
            lemma_block_literals();
            let block = "<div class=\"tdsl-table-wrap\">\n"@ + t + "\n</div>"@;
            let x = page_before_svg(title, theme, custom_css) + svg + "\n</div>"@ + seq!['\n'];
            let y = "\n<div id=\"tdsl-tooltip\" class=\"tdsl-tooltip\" role=\"tooltip\" hidden aria-hidden=\"true\"></div>\n<script>\n"@
                + EMBEDDED_JS@ + page_tail();
            lemma_static_page_parts(svg, title, theme, custom_css, table_html);
            assert(table_block(table_html) =~= seq!['\n'] + block);
            assert(static_page(svg, title, theme, custom_css, table_html) =~= x + block + y);
            lemma_occurs_between(x, block, y);
        },
        None => {},
    }
}

/// One legend checkbox per lane, in the order given.
pub open spec fn legend_html(lanes: Seq<crate::ir::LaneView>) -> Seq<char>
    decreases lanes.len(),
{
    if lanes.len() == 0 {
        Seq::empty()
    } else {
        legend_html(lanes.drop_last()) + "<label class=\"tdsl-legend-item\"><input type=\"checkbox\" checked data-lane-toggle=\""@
            + xml_escaped(lanes.last().id) + "\"> "@ + xml_escaped(lanes.last().label) + "</label>"@
    }
}

fn build_legend(lanes: &[Lane]) -> (s: String)
    ensures
        s@ == legend_html(lanes_view(lanes@)),
{
    let ghost lv = lanes_view(lanes@);
    let mut s = String::new();
    let mut i: usize = 0;
    while i < lanes.len()
        invariant
            i <= lanes.len(),
            lv == lanes_view(lanes@),
            s@ == legend_html(lv.take(i as int)),
        decreases lanes.len() - i,
    {
        push_str(&mut s, "<label class=\"tdsl-legend-item\"><input type=\"checkbox\" checked data-lane-toggle=\"");
        push_str(&mut s, escape_html(lanes[i].id.as_str()).as_str());
        push_str(&mut s, "\"> ");
        push_str(&mut s, escape_html(lanes[i].label.as_str()).as_str());
        push_str(&mut s, "</label>");
        proof {
            assert(lv.take(i + 1).drop_last() =~= lv.take(i as int));
            assert(lv.take(i + 1).last() == lanes@[i as int]@);
        }
        i = i + 1;
    }
    assert(lv.take(lanes.len() as int) =~= lv);
    s
}

/// The interactive HTML page: like [`static_page`], with a search box, a lane legend
/// of checkboxes, a detail panel, and the interactive stylesheet and script.
pub open spec fn interactive_page(svg: Seq<char>, title: Seq<char>, theme: Theme, custom_css: Option<Seq<char>>, lanes: Seq<crate::ir::LaneView>, table_html: Option<Seq<char>>) -> Seq<char> {
    "<!DOCTYPE html>\n<html lang=\"ja\">\n<head>\n<meta charset=\"UTF-8\">\n<meta name=\"viewport\" content=\"width=device-width, initial-scale=1\">\n<title>"@
    + xml_escaped(title) + "</title>\n<style>\n"@ + EMBEDDED_CSS@ + "\n"@ + theme_css(theme) + INTERACTIVE_CSS@ + "</style>"@
    + custom_css_block(custom_css)
    + "\n</head>\n<body>\n<div id=\"tdsl-app\">\n  <header id=\"tdsl-header\">\n    <h1>"@ + xml_escaped(title)
    + "</h1>\n    <input id=\"tdsl-search\" type=\"search\" placeholder=\"ラベル検索...\" autocomplete=\"off\">\n  </header>\n  <div id=\"tdsl-main\">\n    <div id=\"tdsl-legend\">\n      "@
    + legend_html(lanes) + "\n    </div>\n    <div id=\"tdsl-canvas\">\n      "@ + svg
    + "\n    </div>\n    <div id=\"tdsl-detail\" hidden>\n      <button id=\"tdsl-detail-close\" aria-label=\"閉じる\">&times;</button>\n      <div id=\"tdsl-detail-content\"></div>\n    </div>\n  </div>\n</div>"@
    + table_block(table_html)
    + "\n<div id=\"tdsl-tooltip\" class=\"tdsl-tooltip\" role=\"tooltip\" hidden aria-hidden=\"true\"></div>\n<script>\n"@
    + INTERACTIVE_JS@ + "\n</script>\n</body>\n</html>\n"@
}

/// Wraps a rendered SVG in an interactive standalone HTML document (see
/// [`interactive_page`]).
pub fn wrap_html_interactive(svg_body: &str, title: &str, theme: Theme, custom_css: Option<&str>, lanes: &[Lane], table_html: Option<&str>) -> (s: String)
    ensures
        s@ == interactive_page(svg_body@, title@, theme, opt_view(custom_css), lanes_view(lanes@), opt_view(table_html)),
{
    let t = escape_html(title);
    let legend = build_legend(lanes);
    let mut s = String::from_str("<!DOCTYPE html>\n<html lang=\"ja\">\n<head>\n<meta charset=\"UTF-8\">\n<meta name=\"viewport\" content=\"width=device-width, initial-scale=1\">\n<title>");
    push_str(&mut s, t.as_str());
    push_str(&mut s, "</title>\n<style>\n");
    push_str(&mut s, EMBEDDED_CSS);
    push_str(&mut s, "\n");
    push_str(&mut s, theme_css_text(theme));
    push_str(&mut s, INTERACTIVE_CSS);
    push_str(&mut s, "</style>");
    push_custom_css(&mut s, custom_css);
    push_str(&mut s, "\n</head>\n<body>\n<div id=\"tdsl-app\">\n  <header id=\"tdsl-header\">\n    <h1>");
    push_str(&mut s, t.as_str());
    push_str(&mut s, "</h1>\n    <input id=\"tdsl-search\" type=\"search\" placeholder=\"ラベル検索...\" autocomplete=\"off\">\n  </header>\n  <div id=\"tdsl-main\">\n    <div id=\"tdsl-legend\">\n      ");
    push_str(&mut s, legend.as_str());
    push_str(&mut s, "\n    </div>\n    <div id=\"tdsl-canvas\">\n      ");
    push_str(&mut s, svg_body);
    push_str(&mut s, "\n    </div>\n    <div id=\"tdsl-detail\" hidden>\n      <button id=\"tdsl-detail-close\" aria-label=\"閉じる\">&times;</button>\n      <div id=\"tdsl-detail-content\"></div>\n    </div>\n  </div>\n</div>");
    push_table(&mut s, table_html);
    push_str(&mut s, "\n<div id=\"tdsl-tooltip\" class=\"tdsl-tooltip\" role=\"tooltip\" hidden aria-hidden=\"true\"></div>\n<script>\n");
    push_str(&mut s, INTERACTIVE_JS);
    push_str(&mut s, "\n</script>\n</body>\n</html>\n");
    s
}

/// The `<tbody>` rows of the item table.
pub open spec fn table_body(rows: Seq<TableRowView>) -> Seq<char>
    decreases rows.len(),
{
    if rows.len() == 0 {
        Seq::empty()
    } else {
        let r = rows.last();
        table_body(rows.drop_last()) + "<tr>"@ + "<td>"@ + xml_escaped(r.time_str) + "</td>"@
            + "<td>"@ + xml_escaped(r.label) + "</td>"@ + "<td>"@ + xml_escaped(r.lane_label) + "</td>"@
            + "<td>"@ + xml_escaped(r.tags) + "</td>"@ + "</tr>\n"@
    }
}

/// The HTML item table of given rows.
pub open spec fn table_html(rows: Seq<TableRowView>) -> Seq<char> {
    "<table class=\"tdsl-table\">\n<thead>\n<tr>"@
        + "<th>"@ + xml_escaped(TABLE_COL_TIME@) + "</th>"@ + "<th>"@ + xml_escaped(TABLE_COL_LABEL@) + "</th>"@
        + "<th>"@ + xml_escaped(TABLE_COL_LANE@) + "</th>"@ + "<th>"@ + xml_escaped(TABLE_COL_TAGS@) + "</th>"@
        + "</tr>\n</thead>\n<tbody>\n"@ + table_body(rows) + "</tbody>\n</table>"@
}

fn push_cell(out: &mut String, text: &str)
    ensures
        final(out)@ == old(out)@ + "<td>"@ + xml_escaped(text@) + "</td>"@,
{
    push_str(out, "<td>");
    push_str(out, escape_html(text).as_str());
    push_str(out, "</td>");
}

fn push_header(out: &mut String, text: &str)
    ensures
        final(out)@ == old(out)@ + "<th>"@ + xml_escaped(text@) + "</th>"@,
{
    push_str(out, "<th>");
    push_str(out, escape_html(text).as_str());
    push_str(out, "</th>");
}

/// An HTML table of every item in chronological order (the rows of
/// [`collect_table_rows`]), with the time, label, lane and tags columns.
pub fn generate_table_html(items: &Vec<Item>, lanes: &[Lane]) -> (s: String)
    ensures
        exists|rows: Seq<TableRowView>, perm: Seq<int>| table_rows_spec(rows, items_view(items@), lanes_view(lanes@), perm)
            && s@ == table_html(rows),
{
    let rows = collect_table_rows(items, lanes);
    let ghost rv = rows_view(rows@);
    let mut s = String::from_str("<table class=\"tdsl-table\">\n<thead>\n<tr>");
    push_header(&mut s, TABLE_COL_TIME);
    push_header(&mut s, TABLE_COL_LABEL);
    push_header(&mut s, TABLE_COL_LANE);
    push_header(&mut s, TABLE_COL_TAGS);
    push_str(&mut s, "</tr>\n</thead>\n<tbody>\n");
    let ghost head = s@;
    let mut i: usize = 0;
    while i < rows.len()
        invariant
            i <= rows.len(),
            rv == rows_view(rows@),
            s@ == head + table_body(rv.take(i as int)),
        decreases rows.len() - i,
    {
        let r = &rows[i];
        push_str(&mut s, "<tr>");
        push_cell(&mut s, r.time_str.as_str());
        push_cell(&mut s, r.label.as_str());
        push_cell(&mut s, r.lane_label.as_str());
        push_cell(&mut s, r.tags.as_str());
        push_str(&mut s, "</tr>\n");
        proof {
            assert(rv.take(i + 1).drop_last() =~= rv.take(i as int));
            assert(rv.take(i + 1).last() == rows@[i as int]@);
            assert(s@ =~= head + table_body(rv.take(i + 1)));
        }
        i = i + 1;
    }
    assert(rv.take(rows.len() as int) =~= rv);
    push_str(&mut s, "</tbody>\n</table>");
    s
}

} // verus!
