//! Human-readable text for dates, tick labels, tooltips and period labels.

use vstd::prelude::*;
use crate::text::{push_char, push_str, push_int, push_nat, push_pad2, nat_digits, pad2_digits, int_digits};
use crate::ir::{DateParts, Item, ItemInfo, ItemInfoView, ItemView, strs_view};

verus! {

/// `year` as shown to readers: negative years carry a `BC` prefix and no sign.
pub open spec fn year_text(year: int) -> Seq<char> {
    if year < 0 {
        "BC"@ + nat_digits((-year) as nat)
    } else {
        nat_digits(year as nat)
    }
}

/// Three-letter English month abbreviation; `?` outside 1..=12.
pub open spec fn month_abbr_text(m: u8) -> Seq<char> {
    if m == 1 { "Jan"@ } else if m == 2 { "Feb"@ } else if m == 3 { "Mar"@ }
    else if m == 4 { "Apr"@ } else if m == 5 { "May"@ } else if m == 6 { "Jun"@ }
    else if m == 7 { "Jul"@ } else if m == 8 { "Aug"@ } else if m == 9 { "Sep"@ }
    else if m == 10 { "Oct"@ } else if m == 11 { "Nov"@ } else if m == 12 { "Dec"@ }
    else { "?"@ }
}

/// A date at the precision it was given: `Y`, `Y Mon`, `Y Mon D`, or `Y Mon D HH:MM`
/// (the clock part only when both hour and minute are present).
pub open spec fn date_text(year: int, month: Option<u8>, day: Option<u8>, hour: Option<u8>, minute: Option<u8>) -> Seq<char> {
    match (month, day, hour, minute) {
        (Some(m), Some(d), Some(h), Some(mi)) => year_text(year) + " "@ + month_abbr_text(m) + " "@
            + nat_digits(d as nat) + " "@ + pad2_digits(h as nat) + ":"@ + pad2_digits(mi as nat),
        (Some(m), Some(d), _, _) => year_text(year) + " "@ + month_abbr_text(m) + " "@ + nat_digits(d as nat),
        (Some(m), None, _, _) => year_text(year) + " "@ + month_abbr_text(m),
        _ => year_text(year),
    }
}

/// `date_text` of a year together with its sub-year parts.
pub open spec fn parts_text(year: int, p: DateParts) -> Seq<char> {
    date_text(year, p.month, p.day, p.hour, p.minute)
}

/// The end of a period: the "ongoing" word when the end is open, else the date.
pub open spec fn end_text(year: int, p: DateParts, open: bool) -> Seq<char> {
    if open { "進行中"@ } else { parts_text(year, p) }
}

/// Joins `parts` with `sep` between consecutive parts.
pub open spec fn join(parts: Seq<Seq<char>>, sep: Seq<char>) -> Seq<char>
    decreases parts.len(),
{
    if parts.len() == 0 {
        Seq::empty()
    } else if parts.len() == 1 {
        parts[0]
    } else {
        join(parts.drop_last(), sep) + sep + parts.last()
    }
}

/// Appends `year_text(year)`.
fn push_year(out: &mut String, year: i64)
    ensures
        final(out)@ == old(out)@ + year_text(year as int),
{
    if year < 0 {
        push_str(out, "BC");
        let m: u64 = if year == i64::MIN { 9223372036854775808u64 } else { (-year) as u64 };
        push_nat(out, m);
        assert(final(out)@ =~= old(out)@ + year_text(year as int));
    } else {
        push_nat(out, year as u64);
    }
}

/// Formats a year for display: negative years get a `BC` prefix.
pub fn format_year(year: i64) -> (s: String)
    ensures
        s@ == year_text(year as int),
{
    let mut s = String::new();
    push_year(&mut s, year);
    assert(s@ =~= year_text(year as int));
    s
}

/// Short three-letter English month abbreviation (`?` for an invalid month).
pub fn month_abbr(m: u8) -> (s: &'static str)
    ensures
        s@ == month_abbr_text(m),
{
    match m {
        1 => "Jan",
        2 => "Feb",
        3 => "Mar",
        4 => "Apr",
        5 => "May",
        6 => "Jun",
        7 => "Jul",
        8 => "Aug",
        9 => "Sep",
        10 => "Oct",
        11 => "Nov",
        12 => "Dec",
        _ => "?",
    }
}

fn push_date(out: &mut String, year: i64, month: Option<u8>, day: Option<u8>, hour: Option<u8>, minute: Option<u8>)
    ensures
        final(out)@ == old(out)@ + date_text(year as int, month, day, hour, minute),
{
    push_year(out, year);
    match (month, day, hour, minute) {
        (Some(m), Some(d), Some(h), Some(mi)) => {
            push_char(out, ' ');
            push_str(out, month_abbr(m));
            push_char(out, ' ');
            push_nat(out, d as u64);
            push_char(out, ' ');
            push_pad2(out, h as u64);
            push_char(out, ':');
            push_pad2(out, mi as u64);
        },
        (Some(m), Some(d), _, _) => {
            push_char(out, ' ');
            push_str(out, month_abbr(m));
            push_char(out, ' ');
            push_nat(out, d as u64);
        },
        (Some(m), None, _, _) => {
            push_char(out, ' ');
            push_str(out, month_abbr(m));
        },
        _ => {},
    }
    proof {
        reveal_strlit(" ");
        reveal_strlit(":");
    }
    assert(final(out)@ =~= old(out)@ + date_text(year as int, month, day, hour, minute));
}

/// Formats a date with optional month/day/hour/minute precision.
pub fn format_date(year: i64, month: Option<u8>, day: Option<u8>, hour: Option<u8>, minute: Option<u8>) -> (s: String)
    ensures
        s@ == date_text(year as int, month, day, hour, minute),
{
    let mut s = String::new();
    push_date(&mut s, year, month, day, hour, minute);
    assert(s@ =~= date_text(year as int, month, day, hour, minute));
    s
}

/// Hour-tick label: `HH:00` on a single-day timeline, `MM-DD HH:00` otherwise.
pub fn format_hour_tick_label(month: u8, day: u8, hour: u8, single_day: bool) -> (s: String)
    ensures
        single_day ==> s@ == pad2_digits(hour as nat) + ":00"@,
        !single_day ==> s@ == pad2_digits(month as nat) + "-"@ + pad2_digits(day as nat) + " "@
            + pad2_digits(hour as nat) + ":00"@,
{
    let mut s = String::new();
    if !single_day {
        push_pad2(&mut s, month as u64);
        push_char(&mut s, '-');
        push_pad2(&mut s, day as u64);
        push_char(&mut s, ' ');
    }
    push_pad2(&mut s, hour as u64);
    push_str(&mut s, ":00");
    proof {
        reveal_strlit("-");
        reveal_strlit(" ");
    }
    assert(single_day ==> s@ =~= pad2_digits(hour as nat) + ":00"@);
    assert(!single_day ==> s@ =~= pad2_digits(month as nat) + "-"@ + pad2_digits(day as nat) + " "@
        + pad2_digits(hour as nat) + ":00"@);
    s
}

/// Minute-tick label: `HH:MM` on a single-day timeline, `MM-DD HH:MM` otherwise.
pub fn format_minute_tick_label(month: u8, day: u8, hour: u8, minute: u8, single_day: bool) -> (s: String)
    ensures
        single_day ==> s@ == pad2_digits(hour as nat) + ":"@ + pad2_digits(minute as nat),
        !single_day ==> s@ == pad2_digits(month as nat) + "-"@ + pad2_digits(day as nat) + " "@
            + pad2_digits(hour as nat) + ":"@ + pad2_digits(minute as nat),
{
    let mut s = String::new();
    if !single_day {
        push_pad2(&mut s, month as u64);
        push_char(&mut s, '-');
        push_pad2(&mut s, day as u64);
        push_char(&mut s, ' ');
    }
    push_pad2(&mut s, hour as u64);
    push_char(&mut s, ':');
    push_pad2(&mut s, minute as u64);
    proof {
        reveal_strlit("-");
        reveal_strlit(" ");
        reveal_strlit(":");
    }
    assert(single_day ==> s@ =~= pad2_digits(hour as nat) + ":"@ + pad2_digits(minute as nat));
    assert(!single_day ==> s@ =~= pad2_digits(month as nat) + "-"@ + pad2_digits(day as nat) + " "@
        + pad2_digits(hour as nat) + ":"@ + pad2_digits(minute as nat));
    s
}

/// Second-tick label: `HH:MM:SS` on a single-day timeline, `MM-DD HH:MM:SS` otherwise.
pub fn format_second_tick_label(month: u8, day: u8, hour: u8, minute: u8, second: u8, single_day: bool) -> (s: String)
    ensures
        single_day ==> s@ == pad2_digits(hour as nat) + ":"@ + pad2_digits(minute as nat) + ":"@
            + pad2_digits(second as nat),
        !single_day ==> s@ == pad2_digits(month as nat) + "-"@ + pad2_digits(day as nat) + " "@
            + pad2_digits(hour as nat) + ":"@ + pad2_digits(minute as nat) + ":"@ + pad2_digits(second as nat),
{
    let mut s = String::new();
    if !single_day {
        push_pad2(&mut s, month as u64);
        push_char(&mut s, '-');
        push_pad2(&mut s, day as u64);
        push_char(&mut s, ' ');
    }
    push_pad2(&mut s, hour as u64);
    push_char(&mut s, ':');
    push_pad2(&mut s, minute as u64);
    push_char(&mut s, ':');
    push_pad2(&mut s, second as u64);
    proof {
        reveal_strlit("-");
        reveal_strlit(" ");
        reveal_strlit(":");
    }
    assert(single_day ==> s@ =~= pad2_digits(hour as nat) + ":"@ + pad2_digits(minute as nat) + ":"@
        + pad2_digits(second as nat));
    assert(!single_day ==> s@ =~= pad2_digits(month as nat) + "-"@ + pad2_digits(day as nat) + " "@
        + pad2_digits(hour as nat) + ":"@ + pad2_digits(minute as nat) + ":"@ + pad2_digits(second as nat));
    s
}

/// The end of a period as shown in tooltips: `進行中` (ongoing) when open-ended.
pub fn open_ended_end_label(year: i64, month: Option<u8>, day: Option<u8>, hour: Option<u8>, minute: Option<u8>, end_open: bool) -> (s: String)
    ensures
        end_open ==> s@ == "進行中"@,
        !end_open ==> s@ == date_text(year as int, month, day, hour, minute),
{
    if end_open {
        String::from_str("進行中")
    } else {
        format_date(year, month, day, hour, minute)
    }
}

/// `start〜end` of a span or ranged event; empty for a point event.
pub open spec fn period_text(item: ItemView) -> Seq<char> {
    match item {
        ItemView::Span { start, start_at, end, end_at, end_open, .. } =>
            parts_text(start as int, start_at) + "〜"@ + end_text(end as int, end_at, end_open),
        ItemView::EventRange { start, start_at, end, end_at, end_open, .. } =>
            parts_text(start as int, start_at) + "〜"@ + end_text(end as int, end_at, end_open),
        ItemView::Event { .. } => Seq::empty(),
    }
}

fn push_period(out: &mut String, start: i64, start_at: DateParts, end: i64, end_at: DateParts, end_open: bool)
    ensures
        final(out)@ == old(out)@ + parts_text(start as int, start_at) + "〜"@ + end_text(end as int, end_at, end_open),
{
    push_date(out, start, start_at.month, start_at.day, start_at.hour, start_at.minute);
    push_str(out, "〜");
    if end_open {
        push_str(out, "進行中");
    } else {
        push_date(out, end, end_at.month, end_at.day, end_at.hour, end_at.minute);
    }
    assert(final(out)@ =~= old(out)@ + parts_text(start as int, start_at) + "〜"@ + end_text(end as int, end_at, end_open));
}

/// The always-on period label of a Gantt bar: `start〜end` (`進行中` for an open end);
/// empty for a point event.
pub fn gantt_period_label(item: &Item) -> (s: String)
    ensures
        s@ == period_text(item@),
{
    let mut s = String::new();
    match item {
        Item::Span { start, start_at, end, end_at, end_open, .. } => {
            push_period(&mut s, *start, *start_at, *end, *end_at, *end_open);
        },
        Item::EventRange { start, start_at, end, end_at, end_open, .. } => {
            push_period(&mut s, *start, *start_at, *end, *end_at, *end_open);
        },
        Item::Event { .. } => {},
    }
    assert(s@ =~= period_text(item@));
    s
}

/// Joins strings with a separator.
pub fn join_strings(parts: &Vec<String>, sep: &str) -> (s: String)
    ensures
        s@ == join(strs_view(parts@), sep@),
{
    let mut s = String::new();
    let mut i: usize = 0;
    while i < parts.len()
        invariant
            i <= parts.len(),
            s@ == join(strs_view(parts@).take(i as int), sep@),
        decreases parts.len() - i,
    {
        let ghost before = strs_view(parts@).take(i as int);
        if i > 0 {
            push_str(&mut s, sep);
        }
        push_str(&mut s, parts[i].as_str());
        i = i + 1;
        proof {
            let now = strs_view(parts@).take(i as int);
            assert(now.drop_last() =~= before);
            assert(now.last() == parts@[i - 1]@);
            if i == 1 {
                assert(s@ =~= join(now, sep@));
            } else {
                assert(s@ =~= join(now, sep@));
            }
        }
    }
    assert(strs_view(parts@).take(parts.len() as int) =~= strs_view(parts@));
    s
}

/// One `prefix value` line when the value is present, none otherwise.
pub open spec fn opt_line(prefix: Seq<char>, value: Option<Seq<char>>) -> Seq<Seq<char>> {
    match value {
        Some(v) => seq![prefix + v],
        None => Seq::empty(),
    }
}

/// The `tags: a, b` line when the item has tags, none otherwise.
pub open spec fn tags_line(tags: Seq<Seq<char>>) -> Seq<Seq<char>> {
    if tags.len() > 0 { seq!["tags: "@ + join(tags, ", "@)] } else { Seq::empty() }
}

/// The optional detail lines shared by every item kind, followed by its id.
pub open spec fn common_lines(info: ItemInfoView) -> Seq<Seq<char>> {
    tags_line(info.tags) + opt_line("source: "@, info.source) + opt_line("origin: "@, info.origin)
        + opt_line("note: "@, info.note) + opt_line("link: "@, info.link)
        + opt_line("color: "@, info.color) + seq!["id: "@ + info.id]
}

fn labeled(prefix: &str, value: &str) -> (s: String)
    ensures
        s@ == prefix@ + value@,
{
    let mut s = String::from_str(prefix);
    push_str(&mut s, value);
    s
}

fn push_labeled_opt(lines: &mut Vec<String>, prefix: &str, value: &Option<String>)
    ensures
        strs_view(final(lines)@) == strs_view(old(lines)@) + opt_line(prefix@, crate::ir::opt_str_view(*value)),
{
    match value {
        Some(v) => {
            lines.push(labeled(prefix, v.as_str()));
        },
        None => {},
    }
    assert(strs_view(final(lines)@) =~= strs_view(old(lines)@) + opt_line(prefix@, crate::ir::opt_str_view(*value)));
}

/// Appends the detail lines common to every item kind (tags, source, origin, note,
/// link, color when present, then the id).
#[verifier::rlimit(30)]
pub fn push_common(lines: &mut Vec<String>, info: &ItemInfo)
    ensures
        strs_view(final(lines)@) == strs_view(old(lines)@) + common_lines(info@),
{
    let ghost l0 = strs_view(lines@);
    if info.tags.len() > 0 {
        let tags = join_strings(&info.tags, ", ");
        lines.push(labeled("tags: ", tags.as_str()));
    }
    let ghost l1 = strs_view(lines@);
    assert(l1 =~= l0 + tags_line(info@.tags));
    push_labeled_opt(lines, "source: ", &info.source);
    let ghost l2 = strs_view(lines@);
    push_labeled_opt(lines, "origin: ", &info.origin);
    let ghost l3 = strs_view(lines@);
    push_labeled_opt(lines, "note: ", &info.note);
    let ghost l4 = strs_view(lines@);
    push_labeled_opt(lines, "link: ", &info.link);
    let ghost l5 = strs_view(lines@);
    push_labeled_opt(lines, "color: ", &info.color);
    let ghost l6 = strs_view(lines@);
    lines.push(labeled("id: ", info.id.as_str()));
    let ghost l7 = strs_view(lines@);
    assert(l7 =~= l6 + seq!["id: "@ + info@.id]);
    let ghost a = tags_line(info@.tags);
    let ghost b = opt_line("source: "@, info@.source);
    let ghost c = opt_line("origin: "@, info@.origin);
    let ghost d = opt_line("note: "@, info@.note);
    let ghost e = opt_line("link: "@, info@.link);
    let ghost f = opt_line("color: "@, info@.color);
    let ghost g = seq!["id: "@ + info@.id];
    assert(l7 == l0 + (a + b + c + d + e + f + g)) by {
        assert(l2 == l0 + a + b);
        assert(l3 == l0 + a + b + c);
        assert(l4 == l0 + a + b + c + d);
        assert(l5 == l0 + a + b + c + d + e);
        assert(l6 == l0 + a + b + c + d + e + f);
        assert(l0 + a + b + c + d + e + f + g =~= l0 + (a + b + c + d + e + f + g));
    }
}

/// The lines of an item's tooltip: label, period (or date), then the common details.
pub open spec fn tooltip_lines(item: ItemView) -> Seq<Seq<char>> {
    match item {
        ItemView::Event { info, time, time_at } =>
            seq![info.label, parts_text(time as int, time_at)] + common_lines(info),
        _ => seq![item.info().label, period_text(item)] + common_lines(item.info()),
    }
}

/// A tooltip line that lists tags.
pub open spec fn is_tags_line(line: Seq<char>) -> bool {
    line.len() >= 6 && line.subrange(0, 6) == "tags: "@
}

/// A detail line other than the tags line: it does not begin with `t`.
spec fn other_detail(line: Seq<char>) -> bool {
    line.len() > 0 && line[0] != 't'
}

proof fn lemma_opt_line_other(prefix: Seq<char>, value: Option<Seq<char>>)
    requires
        prefix.len() > 0,
        prefix[0] != 't',
    ensures
        forall|m: int| 0 <= m < opt_line(prefix, value).len() ==> other_detail(#[trigger] opt_line(prefix, value)[m]),
{
    match value {
        Some(v) => {
            assert(opt_line(prefix, value)[0] == prefix + v);
            assert((prefix + v)[0] == prefix[0]);
        },
        None => {},
    }
}

proof fn lemma_concat_other(a: Seq<Seq<char>>, b: Seq<Seq<char>>)
    requires
        forall|m: int| 0 <= m < a.len() ==> other_detail(#[trigger] a[m]),
        forall|m: int| 0 <= m < b.len() ==> other_detail(#[trigger] b[m]),
    ensures
        forall|m: int| 0 <= m < (a + b).len() ==> other_detail(#[trigger] (a + b)[m]),
{
    assert forall|m: int| 0 <= m < (a + b).len() implies other_detail(#[trigger] (a + b)[m]) by {
        if m < a.len() {
            assert((a + b)[m] == a[m]);
        } else {
            assert((a + b)[m] == b[m - a.len()]);
        }
    }
}

/// The lines of a tooltip: the first is the item's label, the second its date (point
/// events) or period, the last `id: ` and the id; a `tags: ` line follows the period
/// exactly when the item has tags, and no other line after the period is one.
pub proof fn lemma_tooltip_line_layout(item: ItemView)
    ensures
        ({
            let l = tooltip_lines(item);
            let info = item.info();
            &&& l.len() >= 3
            &&& l[0] == info.label
            &&& l[1] == match item {
                ItemView::Event { time, time_at, .. } => parts_text(time as int, time_at),
                _ => period_text(item),
            }
            &&& l.last() == "id: "@ + info.id
            &&& info.tags.len() > 0 ==> l[2] == "tags: "@ + join(info.tags, ", "@)
            &&& forall|k: int| 2 <= k < l.len() ==> (#[trigger] is_tags_line(l[k]) <==> (k == 2 && info.tags.len() > 0))
        }),
{
    reveal_strlit("tags: ");
    reveal_strlit("source: ");
    reveal_strlit("origin: ");
    reveal_strlit("note: ");
    reveal_strlit("link: ");
    reveal_strlit("color: ");
    reveal_strlit("id: ");
    let info = item.info();
    let l = tooltip_lines(item);
    let head = seq![info.label, match item {
        ItemView::Event { time, time_at, .. } => parts_text(time as int, time_at),
        _ => period_text(item),
    }];
    let a = tags_line(info.tags);
    let b = opt_line("source: "@, info.source);
    let c = opt_line("origin: "@, info.origin);
    let d = opt_line("note: "@, info.note);
    let e = opt_line("link: "@, info.link);
    let f = opt_line("color: "@, info.color);
    let g = seq!["id: "@ + info.id];
    lemma_opt_line_other("source: "@, info.source);
    lemma_opt_line_other("origin: "@, info.origin);
    lemma_opt_line_other("note: "@, info.note);
    lemma_opt_line_other("link: "@, info.link);
    lemma_opt_line_other("color: "@, info.color);
    assert(("id: "@ + info.id)[0] == 'i');
    assert(other_detail(g[0]));
    lemma_concat_other(b, c);
    lemma_concat_other(b + c, d);
    lemma_concat_other(b + c + d, e);
    lemma_concat_other(b + c + d + e, f);
    lemma_concat_other(b + c + d + e + f, g);
    let rest = b + c + d + e + f + g;
    assert(common_lines(info) =~= a + rest);
    assert(l =~= head + (a + rest));
    assert(l.last() == g[0]);
    if info.tags.len() > 0 {
        let t = "tags: "@ + join(info.tags, ", "@);
        assert(t.subrange(0, 6) =~= "tags: "@);
    }
    assert forall|k: int| 2 <= k < l.len() implies (#[trigger] is_tags_line(l[k]) <==> (k == 2 && info.tags.len() > 0)) by {
        if k - 2 < a.len() {
            let t = "tags: "@ + join(info.tags, ", "@);
            assert(l[k] == t);
            assert(t.subrange(0, 6) =~= "tags: "@);
        } else {
            let m = k - 2 - a.len();
            assert(l[k] == rest[m]);
            assert(other_detail(rest[m]));
            if is_tags_line(l[k]) {
                assert(l[k].subrange(0, 6)[0] == l[k][0]);
            }
        }
    }
}

/// The tooltip text of an item (not yet XML-escaped): its lines joined by newlines.
pub fn item_tooltip(item: &Item) -> (s: String)
    ensures
        s@ == join(tooltip_lines(item@), "\n"@),
{
    let mut lines: Vec<String> = Vec::new();
    let info = item.info();
    lines.push(info.label.clone());
    match item {
        Item::Event { time, time_at, .. } => {
            lines.push(format_date(*time, time_at.month, time_at.day, time_at.hour, time_at.minute));
        },
        _ => {
            lines.push(gantt_period_label(item));
        },
    }
    let ghost head = strs_view(lines@);
    push_common(&mut lines, info);
    assert(strs_view(lines@) =~= tooltip_lines(item@));
    join_strings(&lines, "\n")
}

} // verus!
