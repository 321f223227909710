//! Text-level pieces of the SVG output: escaping, per-item attributes, and the rewrite
//! of lane color variables for renderers without CSS variables.

use vstd::prelude::*;
use crate::text::{chars_of, push_char, push_str, push_nat, string_from_chars, nat_digits};
use crate::color::{trim, trim_chars};
use crate::ir::{Item, ItemView, SourceSpan, opt_str_view};
use crate::format::{join, join_strings};

verus! {

/// The escape of one character in XML text and attributes.
pub open spec fn xml_char(c: char) -> Seq<char> {
    if c == '&' { "&amp;"@ }
    else if c == '<' { "&lt;"@ }
    else if c == '>' { "&gt;"@ }
    else if c == '"' { "&quot;"@ }
    else if c == '\'' { "&#39;"@ }
    else { seq![c] }
}

/// `s` with `& < > " '` replaced by entities.
pub open spec fn xml_escaped(s: Seq<char>) -> Seq<char>
    decreases s.len(),
{
    if s.len() == 0 { Seq::empty() } else { xml_escaped(s.drop_last()) + xml_char(s.last()) }
}

/// The escape of one character in an attribute that keeps line breaks: newlines become
/// `&#10;`, carriage returns are dropped.
pub open spec fn attr_char(c: char) -> Seq<char> {
    if c == '\n' { "&#10;"@ } else if c == '\r' { Seq::empty() } else { xml_char(c) }
}

/// `s` escaped for an attribute value, newlines preserved as `&#10;`.
pub open spec fn attr_escaped(s: Seq<char>) -> Seq<char>
    decreases s.len(),
{
    if s.len() == 0 { Seq::empty() } else { attr_escaped(s.drop_last()) + attr_char(s.last()) }
}

fn push_xml_char(out: &mut String, c: char)
    ensures
        final(out)@ == old(out)@ + xml_char(c),
{
    if c == '&' {
        push_str(out, "&amp;");
    } else if c == '<' {
        push_str(out, "&lt;");
    } else if c == '>' {
        push_str(out, "&gt;");
    } else if c == '"' {
        push_str(out, "&quot;");
    } else if c == '\'' {
        push_str(out, "&#39;");
    } else {
        push_char(out, c);
        assert(final(out)@ =~= old(out)@ + seq![c]);
    }
}

/// Escapes text for XML content and attribute values.
pub fn escape_xml(s: &str) -> (r: String)
    ensures
        r@ == xml_escaped(s@),
{
    let v = chars_of(s);
    let mut out = String::new();
    let mut i: usize = 0;
    while i < v.len()
        invariant
            i <= v.len(),
            v@ == s@,
            out@ == xml_escaped(v@.take(i as int)),
        decreases v.len() - i,
    {
        assert(v@.take(i + 1).drop_last() =~= v@.take(i as int));
        push_xml_char(&mut out, v[i]);
        i = i + 1;
    }
    assert(v@.take(v.len() as int) =~= v@);
    out
}

/// Escapes text for an XML attribute value, keeping line breaks as `&#10;`.
pub fn escape_xml_attr(s: &str) -> (r: String)
    ensures
        r@ == attr_escaped(s@),
{
    let v = chars_of(s);
    let mut out = String::new();
    let mut i: usize = 0;
    while i < v.len()
        invariant
            i <= v.len(),
            v@ == s@,
            out@ == attr_escaped(v@.take(i as int)),
        decreases v.len() - i,
    {
        assert(v@.take(i + 1).drop_last() =~= v@.take(i as int));
        let c = v[i];
        if c == '\n' {
            push_str(&mut out, "&#10;");
        } else if c == '\r' {
            assert(out@ =~= out@ + Seq::<char>::empty());
        } else {
            push_xml_char(&mut out, c);
        }
        i = i + 1;
    }
    assert(v@.take(v.len() as int) =~= v@);
    out
}

/// The item's kind as written in `data-type`.
pub open spec fn data_type_text(item: ItemView) -> Seq<char> {
    match item {
        ItemView::Span { .. } => "span"@,
        ItemView::Event { .. } => "event"@,
        ItemView::EventRange { .. } => "event_range"@,
    }
}

/// The `data-*` attributes of an item in interactive output (with a leading space):
/// id, label, type, then the source and the source line when known.
pub open spec fn interactive_attrs(item: ItemView) -> Seq<char> {
    let info = item.info();
    " data-id=\""@ + attr_escaped(info.id) + "\" data-label=\""@ + attr_escaped(info.label)
        + "\" data-type=\""@ + data_type_text(item) + "\""@
        + (match info.source { Some(s) => " data-source=\""@ + attr_escaped(s) + "\""@, None => Seq::empty() })
        + (match info.source_span { Some(ss) => " data-line=\""@ + nat_digits(ss.line as nat) + "\""@, None => Seq::empty() })
}

/// Builds the `data-*` attributes of an item for interactive output.
pub fn build_interactive_attrs(item: &Item) -> (s: String)
    ensures
        s@ == interactive_attrs(item@),
{
    let info = item.info();
    let type_str = match item {
        Item::Span { .. } => "span",
        Item::Event { .. } => "event",
        Item::EventRange { .. } => "event_range",
    };
    let mut s = String::from_str(" data-id=\"");
    push_str(&mut s, escape_xml_attr(info.id.as_str()).as_str());
    push_str(&mut s, "\" data-label=\"");
    push_str(&mut s, escape_xml_attr(info.label.as_str()).as_str());
    push_str(&mut s, "\" data-type=\"");
    push_str(&mut s, type_str);
    push_str(&mut s, "\"");
    let ghost head = s@;
    match &info.source {
        Some(src) => {
            push_str(&mut s, " data-source=\"");
            push_str(&mut s, escape_xml_attr(src.as_str()).as_str());
            push_str(&mut s, "\"");
        },
        None => {},
    }
    let ghost mid = s@;
    match info.source_span {
        Some(ss) => {
            push_str(&mut s, " data-line=\"");
            push_nat(&mut s, ss.line as u64);
            push_str(&mut s, "\"");
        },
        None => {},
    }
    assert(s@ =~= interactive_attrs(item@));
    s
}

/// The item's kind as spoken in its ARIA label.
pub open spec fn aria_type(item: ItemView) -> Seq<char> {
    match item {
        ItemView::Span { .. } => "Span"@,
        ItemView::Event { .. } => "Event"@,
        ItemView::EventRange { .. } => "Event range"@,
    }
}

/// `s` with every newline replaced by `, `.
pub open spec fn one_line(s: Seq<char>) -> Seq<char>
    decreases s.len(),
{
    if s.len() == 0 { Seq::empty() } else {
        one_line(s.drop_last()) + if s.last() == '\n' { ", "@ } else { seq![s.last()] }
    }
}

/// The ARIA label of an item: `<kind>: <tooltip on one line>, Lane: <lane label>`.
pub fn item_aria_label(item: &Item, tooltip: &str, lane_label: &str) -> (s: String)
    ensures
        s@ == aria_type(item@) + ": "@ + one_line(tooltip@) + ", Lane: "@ + lane_label@,
{
    let type_str = match item {
        Item::Span { .. } => "Span",
        Item::Event { .. } => "Event",
        Item::EventRange { .. } => "Event range",
    };
    let mut s = String::from_str(type_str);
    push_str(&mut s, ": ");
    let ghost head = s@;
    let v = chars_of(tooltip);
    let mut i: usize = 0;
    while i < v.len()
        invariant
            i <= v.len(),
            v@ == tooltip@,
            s@ == head + one_line(v@.take(i as int)),
        decreases v.len() - i,
    {
        assert(v@.take(i + 1).drop_last() =~= v@.take(i as int));
        if v[i] == '\n' {
            push_str(&mut s, ", ");
        } else {
            push_char(&mut s, v[i]);
        }
        i = i + 1;
        assert(s@ =~= head + one_line(v@.take(i as int)));
    }
    assert(v@.take(v.len() as int) =~= v@);
    push_str(&mut s, ", Lane: ");
    push_str(&mut s, lane_label);
    s
}

/// The ARIA label text of an item (see [`item_aria_label`]).
pub open spec fn aria_text(item: ItemView, tooltip: Seq<char>, lane_label: Seq<char>) -> Seq<char> {
    aria_type(item) + ": "@ + one_line(tooltip) + ", Lane: "@ + lane_label
}

/// The class naming an item's kind on its group.
pub open spec fn kind_class(item: ItemView) -> Seq<char> {
    match item {
        ItemView::Span { .. } => "tdsl-item-span"@,
        ItemView::Event { .. } => "tdsl-item-event"@,
        ItemView::EventRange { .. } => "tdsl-item-event-range"@,
    }
}

/// The hook class of an ongoing span or ranged event (with a leading space); nothing for
/// other items.
pub open spec fn open_class_text(item: ItemView) -> Seq<char> {
    match item {
        ItemView::Span { end_open, .. } => if end_open { " tdsl-item-open-ended"@ } else { Seq::empty() },
        ItemView::EventRange { end_open, .. } => if end_open { " tdsl-item-open-ended"@ } else { Seq::empty() },
        ItemView::Event { .. } => Seq::empty(),
    }
}

/// The data attributes of an item's group (with a leading space): its lane, its tags
/// joined by commas when it has any, and the interactive attributes when asked for.
pub open spec fn data_attrs_text(item: ItemView, interactive: bool) -> Seq<char> {
    let info = item.info();
    " data-lane=\""@ + attr_escaped(info.lane) + "\""@
        + (if info.tags.len() > 0 { " data-tags=\""@ + attr_escaped(join(info.tags, ","@)) + "\""@ } else { Seq::empty() })
        + (if interactive { interactive_attrs(item) } else { Seq::empty() })
}

/// Builds the data attributes of an item's group.
pub fn item_data_attrs(item: &Item, interactive: bool) -> (s: String)
    ensures
        s@ == data_attrs_text(item@, interactive),
{
    let info = item.info();
    let mut s = String::from_str(" data-lane=\"");
    push_str(&mut s, escape_xml_attr(info.lane.as_str()).as_str());
    push_str(&mut s, "\"");
    let ghost head = s@;
    if info.tags.len() > 0 {
        push_str(&mut s, " data-tags=\"");
        let joined = join_strings(&info.tags, ",");
        push_str(&mut s, escape_xml_attr(joined.as_str()).as_str());
        push_str(&mut s, "\"");
    }
    let ghost mid = s@;
    if interactive {
        push_str(&mut s, build_interactive_attrs(item).as_str());
    }
    assert(s@ =~= data_attrs_text(item@, interactive));
    s
}

/// The opening tag of an item's group: kind and ongoing classes, ARIA label, tooltip
/// and data attributes, every piece of item text escaped.
pub open spec fn item_group_open_text(item: ItemView, tooltip: Seq<char>, lane_label: Seq<char>, interactive: bool) -> Seq<char> {
    "<g class=\"tdsl-item "@ + kind_class(item) + open_class_text(item)
        + "\" role=\"group\" aria-label=\""@ + attr_escaped(aria_text(item, tooltip, lane_label))
        + "\" tabindex=\"0\" data-tdsl-tooltip=\""@ + attr_escaped(tooltip) + "\""@
        + data_attrs_text(item, interactive) + ">"@
}

/// Builds the opening tag of an item's group.
pub fn item_group_open(item: &Item, tooltip: &str, lane_label: &str, interactive: bool) -> (s: String)
    ensures
        s@ == item_group_open_text(item@, tooltip@, lane_label@, interactive),
{
    let mut s = String::from_str("<g class=\"tdsl-item ");
    match item {
        Item::Span { end_open, .. } => {
            push_str(&mut s, "tdsl-item-span");
            if *end_open {
                push_str(&mut s, " tdsl-item-open-ended");
            }
        },
        Item::Event { .. } => {
            push_str(&mut s, "tdsl-item-event");
        },
        Item::EventRange { end_open, .. } => {
            push_str(&mut s, "tdsl-item-event-range");
            if *end_open {
                push_str(&mut s, " tdsl-item-open-ended");
            }
        },
    }
    let ghost head = s@;
    assert(head =~= "<g class=\"tdsl-item "@ + kind_class(item@) + open_class_text(item@));
    push_str(&mut s, "\" role=\"group\" aria-label=\"");
    let aria = item_aria_label(item, tooltip, lane_label);
    push_str(&mut s, escape_xml_attr(aria.as_str()).as_str());
    push_str(&mut s, "\" tabindex=\"0\" data-tdsl-tooltip=\"");
    push_str(&mut s, escape_xml_attr(tooltip).as_str());
    push_str(&mut s, "\"");
    push_str(&mut s, item_data_attrs(item, interactive).as_str());
    push_str(&mut s, ">");
    assert(s@ =~= item_group_open_text(item@, tooltip@, lane_label@, interactive));
    s
}

/// `s` holds neither `<` nor `>`.
pub open spec fn tag_free(s: Seq<char>) -> bool {
    forall|i: int| 0 <= i < s.len() ==> #[trigger] s[i] != '<' && s[i] != '>'
}

proof fn lemma_tag_free_concat(a: Seq<char>, b: Seq<char>)
    requires
        tag_free(a),
        tag_free(b),
    ensures
        tag_free(a + b),
{
    assert forall|i: int| 0 <= i < (a + b).len() implies #[trigger] (a + b)[i] != '<' && (a + b)[i] != '>' by {
        if i < a.len() {
            assert((a + b)[i] == a[i]);
        } else {
            assert((a + b)[i] == b[i - a.len()]);
        }
    }
}

proof fn lemma_attr_escaped_tag_free(s: Seq<char>)
    ensures
        tag_free(attr_escaped(s)),
    decreases s.len(),
{
    reveal_strlit("&amp;");
    reveal_strlit("&lt;");
    reveal_strlit("&gt;");
    reveal_strlit("&quot;");
    reveal_strlit("&#39;");
    reveal_strlit("&#10;");
    if s.len() > 0 {
        lemma_attr_escaped_tag_free(s.drop_last());
        let c = s.last();
        assert(tag_free(attr_char(c))) by {
            if c == '\n' {
                assert("&#10;"@ =~= seq!['&', '#', '1', '0', ';']);
            } else if c == '&' {
                assert("&amp;"@ =~= seq!['&', 'a', 'm', 'p', ';']);
            } else if c == '<' {
                assert("&lt;"@ =~= seq!['&', 'l', 't', ';']);
            } else if c == '>' {
                assert("&gt;"@ =~= seq!['&', 'g', 't', ';']);
            } else if c == '"' {
                assert("&quot;"@ =~= seq!['&', 'q', 'u', 'o', 't', ';']);
            } else if c == '\'' {
                assert("&#39;"@ =~= seq!['&', '#', '3', '9', ';']);
            }
        }
        lemma_tag_free_concat(attr_escaped(s.drop_last()), attr_char(c));
    }
}

proof fn lemma_digits_tag_free(n: nat)
    ensures
        tag_free(nat_digits(n)),
    decreases n,
{
    if n >= 10 {
        lemma_digits_tag_free(n / 10);
        lemma_tag_free_concat(nat_digits(n / 10), seq![crate::text::digit_char(n % 10)]);
        assert(nat_digits(n / 10).push(crate::text::digit_char(n % 10)) =~= nat_digits(n / 10) + seq![crate::text::digit_char(n % 10)]);
    }
}

proof fn lemma_interactive_attrs_tag_free(item: ItemView)
    ensures
        tag_free(interactive_attrs(item)),
{
    let info = item.info();
    reveal_strlit(" data-id=\"");
    reveal_strlit("\" data-label=\"");
    reveal_strlit("\" data-type=\"");
    reveal_strlit("\"");
    reveal_strlit(" data-source=\"");
    reveal_strlit(" data-line=\"");
    reveal_strlit("span");
    reveal_strlit("event");
    reveal_strlit("event_range");
    lemma_attr_escaped_tag_free(info.id);
    lemma_attr_escaped_tag_free(info.label);
    let a = " data-id=\""@ + attr_escaped(info.id);
    lemma_tag_free_concat(" data-id=\""@, attr_escaped(info.id));
    lemma_tag_free_concat(a, "\" data-label=\""@);
    lemma_tag_free_concat(a + "\" data-label=\""@, attr_escaped(info.label));
    let b = a + "\" data-label=\""@ + attr_escaped(info.label);
    lemma_tag_free_concat(b, "\" data-type=\""@);
    lemma_tag_free_concat(b + "\" data-type=\""@, data_type_text(item));
    lemma_tag_free_concat(b + "\" data-type=\""@ + data_type_text(item), "\""@);
    let c = b + "\" data-type=\""@ + data_type_text(item) + "\""@;
    let src = match info.source { Some(s) => " data-source=\""@ + attr_escaped(s) + "\""@, None => Seq::empty() };
    match info.source {
        Some(s) => {
            lemma_attr_escaped_tag_free(s);
            lemma_tag_free_concat(" data-source=\""@, attr_escaped(s));
            lemma_tag_free_concat(" data-source=\""@ + attr_escaped(s), "\""@);
        },
        None => {},
    }
    let line = match info.source_span { Some(ss) => " data-line=\""@ + nat_digits(ss.line as nat) + "\""@, None => Seq::empty() };
    match info.source_span {
        Some(ss) => {
            lemma_digits_tag_free(ss.line as nat);
            lemma_tag_free_concat(" data-line=\""@, nat_digits(ss.line as nat));
            lemma_tag_free_concat(" data-line=\""@ + nat_digits(ss.line as nat), "\""@);
        },
        None => {},
    }
    lemma_tag_free_concat(c, src);
    lemma_tag_free_concat(c + src, line);
}

/// Whatever text an item carries, the opening tag of its group is a single tag: it
/// starts with `<`, ends with `>`, and has no other `<` or `>` in between.
pub proof fn lemma_item_group_open_is_one_tag(item: ItemView, tooltip: Seq<char>, lane_label: Seq<char>, interactive: bool)
    ensures
        ({
            let t = item_group_open_text(item, tooltip, lane_label, interactive);
            t.len() >= 2 && t[0] == '<' && t[t.len() - 1] == '>' && tag_free(t.subrange(1, t.len() - 1))
        }),
{
    let info = item.info();
    reveal_strlit("<g class=\"tdsl-item ");
    reveal_strlit("g class=\"tdsl-item ");
    reveal_strlit("tdsl-item-span");
    reveal_strlit("tdsl-item-event");
    reveal_strlit("tdsl-item-event-range");
    reveal_strlit(" tdsl-item-open-ended");
    reveal_strlit("\" role=\"group\" aria-label=\"");
    reveal_strlit("\" tabindex=\"0\" data-tdsl-tooltip=\"");
    reveal_strlit("\"");
    reveal_strlit(">");
    reveal_strlit(" data-lane=\"");
    reveal_strlit(" data-tags=\"");
    let t = item_group_open_text(item, tooltip, lane_label, interactive);
    let d = data_attrs_text(item, interactive);
    // The data attributes hold no tag characters.
    lemma_attr_escaped_tag_free(info.lane);
    lemma_tag_free_concat(" data-lane=\""@, attr_escaped(info.lane));
    lemma_tag_free_concat(" data-lane=\""@ + attr_escaped(info.lane), "\""@);
    let d0 = " data-lane=\""@ + attr_escaped(info.lane) + "\""@;
    let tags = if info.tags.len() > 0 { " data-tags=\""@ + attr_escaped(join(info.tags, ","@)) + "\""@ } else { Seq::empty() };
    if info.tags.len() > 0 {
        lemma_attr_escaped_tag_free(join(info.tags, ","@));
        lemma_tag_free_concat(" data-tags=\""@, attr_escaped(join(info.tags, ","@)));
        lemma_tag_free_concat(" data-tags=\""@ + attr_escaped(join(info.tags, ","@)), "\""@);
    }
    let inter = if interactive { interactive_attrs(item) } else { Seq::empty() };
    lemma_interactive_attrs_tag_free(item);
    lemma_tag_free_concat(d0, tags);
    lemma_tag_free_concat(d0 + tags, inter);
    assert(d == d0 + tags + inter);
    // The middle of the tag.
    let m0 = "g class=\"tdsl-item "@ + kind_class(item) + open_class_text(item);
    lemma_tag_free_concat("g class=\"tdsl-item "@, kind_class(item));
    lemma_tag_free_concat("g class=\"tdsl-item "@ + kind_class(item), open_class_text(item));
    lemma_attr_escaped_tag_free(aria_text(item, tooltip, lane_label));
    lemma_attr_escaped_tag_free(tooltip);
    let p1 = "\" role=\"group\" aria-label=\""@;
    let p2 = "\" tabindex=\"0\" data-tdsl-tooltip=\""@;
    lemma_tag_free_concat(m0, p1);
    lemma_tag_free_concat(m0 + p1, attr_escaped(aria_text(item, tooltip, lane_label)));
    let m1 = m0 + p1 + attr_escaped(aria_text(item, tooltip, lane_label));
    lemma_tag_free_concat(m1, p2);
    lemma_tag_free_concat(m1 + p2, attr_escaped(tooltip));
    lemma_tag_free_concat(m1 + p2 + attr_escaped(tooltip), "\""@);
    let m2 = m1 + p2 + attr_escaped(tooltip) + "\""@;
    lemma_tag_free_concat(m2, d);
    let m = m2 + d;
    assert("<g class=\"tdsl-item "@ =~= seq!['<'] + "g class=\"tdsl-item "@);
    assert(t =~= seq!['<'] + m + seq!['>']);
    assert(t.subrange(1, t.len() - 1) =~= m);
}

/// `pat` occurs in `s` at `i`.
pub open spec fn occurs_at(s: Seq<char>, pat: Seq<char>, i: int) -> bool {
    0 <= i && i + pat.len() <= s.len() && s.subrange(i, i + pat.len()) == pat
}

/// The first position at or after `i` where `pat` occurs in `s` (`str::find` on the
/// rest of `s`).
pub open spec fn find_from(s: Seq<char>, pat: Seq<char>, i: int) -> Option<int>
    decreases s.len() + 1 - i,
{
    if i < 0 || i + pat.len() > s.len() {
        None
    } else if occurs_at(s, pat, i) {
        Some(i)
    } else {
        find_from(s, pat, i + 1)
    }
}

proof fn lemma_find_from_bounds(s: Seq<char>, pat: Seq<char>, i: int)
    ensures
        find_from(s, pat, i) matches Some(j) ==> i <= j && occurs_at(s, pat, j),
    decreases s.len() + 1 - i,
{
    if !(i < 0 || i + pat.len() > s.len()) && !occurs_at(s, pat, i) {
        lemma_find_from_bounds(s, pat, i + 1);
    }
}

/// Finds `pat` in `s` at or after `from`.
fn find_seq(s: &Vec<char>, pat: &Vec<char>, from: usize) -> (r: Option<usize>)
    requires
        from <= s.len(),
    ensures
        match r {
            Some(j) => find_from(s@, pat@, from as int) == Some(j as int),
            None => find_from(s@, pat@, from as int) is None,
        },
{
    let mut i = from;
    while i <= s.len() && pat.len() <= s.len() - i
        invariant
            from <= i,
            i <= s.len() + 1,
            find_from(s@, pat@, from as int) == find_from(s@, pat@, i as int),
        decreases s.len() + 1 - i,
    {
        let mut k: usize = 0;
        while k < pat.len() && s[i + k] == pat[k]
            invariant
                k <= pat.len(),
                i + pat.len() <= s.len(),
                forall|j: int| 0 <= j < k ==> s@[i + j] == pat@[j],
            decreases pat.len() - k,
        {
            k = k + 1;
        }
        if k == pat.len() {
            assert(s@.subrange(i as int, i + pat.len()) =~= pat@);
            return Some(i);
        }
        assert(s@.subrange(i as int, i + pat.len())[k as int] != pat@[k as int]);
        i = i + 1;
    }
    None
}

/// The lane-variable prefix, `var(--tdsl-lane-`.
pub open spec fn var_prefix() -> Seq<char> {
    "var(--tdsl-lane-"@
}

/// The position of the first `c` at or after `from` (the length when there is none).
pub open spec fn char_pos(s: Seq<char>, from: int, c: char) -> int {
    from + crate::wikidata::entity::index_of(s.skip(from), c)
}

/// `css` from position `pos` on, with every `var(--tdsl-lane-N, <fallback>)` replaced
/// by its trimmed fallback; a reference without a `,` before its `)` is kept as written.
pub open spec fn resolve_vars_from(css: Seq<char>, pos: int) -> Seq<char>
    decreases css.len() + 1 - pos,
{
    if pos < 0 || pos > css.len() {
        Seq::empty()
    } else {
        match find_from(css, var_prefix(), pos) {
            None => css.subrange(pos, css.len() as int),
            Some(start) => {
                let after = start + var_prefix().len();
                let comma = char_pos(css, after, ',');
                let close = char_pos(css, after, ')');
                if start < pos || after > css.len() || after <= pos {
                    css.subrange(pos, css.len() as int)
                } else if after <= comma && comma < close && close < css.len() {
                    css.subrange(pos, start) + trim(css.subrange(comma + 1, close)) + resolve_vars_from(css, close + 1)
                } else {
                    css.subrange(pos, start) + var_prefix() + resolve_vars_from(css, after)
                }
            },
        }
    }
}

/// A CSS value with its lane variables resolved (see [`resolve_vars_from`]).
pub open spec fn resolve_vars(css: Seq<char>) -> Seq<char> {
    resolve_vars_from(css, 0)
}

fn sub_chars(s: &Vec<char>, a: usize, b: usize) -> (r: Vec<char>)
    requires
        a <= b <= s.len(),
    ensures
        r@ == s@.subrange(a as int, b as int),
{
    let mut r: Vec<char> = Vec::new();
    let mut k = a;
    while k < b
        invariant
            a <= k <= b,
            b <= s.len(),
            r@ == s@.subrange(a as int, k as int),
        decreases b - k,
    {
        r.push(s[k]);
        k = k + 1;
        assert(r@ =~= s@.subrange(a as int, k as int));
    }
    r
}

fn push_chars(out: &mut String, v: &Vec<char>)
    ensures
        final(out)@ == old(out)@ + v@,
{
    let s = string_from_chars(v.as_slice());
    push_str(out, s.as_str());
}

fn find_char_from(s: &Vec<char>, from: usize, c: char) -> (r: usize)
    requires
        from <= s.len(),
    ensures
        r == char_pos(s@, from as int, c),
        from <= r <= s.len(),
{
    proof {
        crate::wikidata::entity::lemma_index_of(s@.skip(from as int), c);
    }
    let mut i = from;
    while i < s.len() && s[i] != c
        invariant
            from <= i <= s.len(),
            forall|j: int| from <= j < i ==> s@[j] != c,
        decreases s.len() - i,
    {
        i = i + 1;
    }
    proof {
        let t = s@.skip(from as int);
        let k = crate::wikidata::entity::index_of(t, c);
        if k < i - from {
            assert(t[k] == s@[from + k]);
        }
        if i - from < k {
            assert(t[i - from] == s@[i as int]);
        }
    }
    i
}

/// One step of [`resolve_vars_in_css_value`]: the output for `css[pos..]` up to and
/// including the next lane variable, and where to continue; `None` when no variable is
/// left.
fn resolve_vars_step(s: &Vec<char>, prefix: &Vec<char>, pos: usize) -> (r: Option<(Vec<char>, usize)>)
    requires
        pos <= s.len(),
        prefix@ == var_prefix(),
    ensures
        match r {
            None => resolve_vars_from(s@, pos as int) == s@.subrange(pos as int, s.len() as int),
            Some((chunk, next)) => pos < next <= s.len()
                && resolve_vars_from(s@, pos as int) == chunk@ + resolve_vars_from(s@, next as int),
        },
{
    proof {
        reveal_strlit("var(--tdsl-lane-");
        lemma_find_from_bounds(s@, prefix@, pos as int);
    }
    match find_seq(s, prefix, pos) {
        None => None,
        Some(start) => {
            let after = start + prefix.len();
            let comma = find_char_from(s, after, ',');
            let close = find_char_from(s, after, ')');
            let mut chunk = sub_chars(s, pos, start);
            if after <= comma && comma < close && close < s.len() {
                let inner = string_from_chars(sub_chars(s, comma + 1, close).as_slice());
                let trimmed = trim_chars(inner.as_str());
                let ghost c0 = chunk@;
                let mut k: usize = 0;
                while k < trimmed.len()
                    invariant
                        k <= trimmed.len(),
                        chunk@ == c0 + trimmed@.take(k as int),
                    decreases trimmed.len() - k,
                {
                    chunk.push(trimmed[k]);
                    k = k + 1;
                    assert(chunk@ =~= c0 + trimmed@.take(k as int));
                }
                assert(trimmed@.take(trimmed.len() as int) =~= trimmed@);
                Some((chunk, close + 1))
            } else {
                let ghost c0 = chunk@;
                let mut k: usize = 0;
                while k < prefix.len()
                    invariant
                        k <= prefix.len(),
                        chunk@ == c0 + prefix@.take(k as int),
                    decreases prefix.len() - k,
                {
                    chunk.push(prefix[k]);
                    k = k + 1;
                    assert(chunk@ =~= c0 + prefix@.take(k as int));
                }
                assert(prefix@.take(prefix.len() as int) =~= prefix@);
                Some((chunk, after))
            }
        },
    }
}

/// Replaces `var(--tdsl-lane-N, <fallback>)` by its fallback within one CSS value.
pub fn resolve_vars_in_css_value(css: &str) -> (r: String)
    ensures
        r@ == resolve_vars(css@),
{
    let s = chars_of(css);
    let prefix = chars_of("var(--tdsl-lane-");
    let mut out = String::new();
    let mut pos: usize = 0;
    loop
        invariant
            pos <= s.len(),
            s@ == css@,
            prefix@ == var_prefix(),
            resolve_vars(s@) == out@ + resolve_vars_from(s@, pos as int),
        decreases s.len() - pos,
    {
        match resolve_vars_step(&s, &prefix, pos) {
            None => {
                push_chars(&mut out, &sub_chars(&s, pos, s.len()));
                return out;
            },
            Some((chunk, next)) => {
                push_chars(&mut out, &chunk);
                pos = next;
            },
        }
    }
}

/// `svg` from position `pos` on, with the lane variables inside every `style="…"` value
/// resolved; everything outside those values is unchanged, and an unterminated value
/// is kept as written.
pub open spec fn resolve_styles_from(svg: Seq<char>, pos: int) -> Seq<char>
    decreases svg.len() + 1 - pos,
{
    let attr = "style=\""@;
    if pos < 0 || pos > svg.len() {
        Seq::empty()
    } else {
        match find_from(svg, attr, pos) {
            None => svg.subrange(pos, svg.len() as int),
            Some(start) => {
                let after = start + attr.len();
                let end = char_pos(svg, after, '"');
                if start < pos || after > svg.len() || after <= pos || end < after {
                    svg.subrange(pos, svg.len() as int)
                } else if end < svg.len() {
                    svg.subrange(pos, after) + resolve_vars(svg.subrange(after, end)) + seq!['"']
                        + resolve_styles_from(svg, end + 1)
                } else {
                    svg.subrange(pos, svg.len() as int)
                }
            },
        }
    }
}

/// An SVG document with the lane variables in its style attributes resolved.
pub open spec fn resolve_styles(svg: Seq<char>) -> Seq<char> {
    resolve_styles_from(svg, 0)
}

fn resolve_styles_step(s: &Vec<char>, attr: &Vec<char>, pos: usize) -> (r: Option<(String, usize)>)
    requires
        pos <= s.len(),
        attr@ == "style=\""@,
    ensures
        match r {
            None => resolve_styles_from(s@, pos as int) == s@.subrange(pos as int, s.len() as int),
            Some((chunk, next)) => pos < next <= s.len()
                && resolve_styles_from(s@, pos as int) == chunk@ + resolve_styles_from(s@, next as int),
        },
{
    proof {
        reveal_strlit("style=\"");
        lemma_find_from_bounds(s@, attr@, pos as int);
    }
    match find_seq(s, attr, pos) {
        None => None,
        Some(start) => {
            let after = start + attr.len();
            let end = find_char_from(s, after, '"');
            if end < s.len() {
                let mut chunk = string_from_chars(sub_chars(s, pos, after).as_slice());
                let value = string_from_chars(sub_chars(s, after, end).as_slice());
                let resolved = resolve_vars_in_css_value(value.as_str());
                push_str(&mut chunk, resolved.as_str());
                push_char(&mut chunk, '"');
                Some((chunk, end + 1))
            } else {
                None
            }
        },
    }
}

/// Resolves the lane color variables inside `style="…"` attributes, for renderers that
/// do not support CSS variables; text content and other attributes are untouched.
pub fn resolve_lane_vars_in_styles(svg: &str) -> (r: String)
    ensures
        r@ == resolve_styles(svg@),
{
    let s = chars_of(svg);
    let attr = chars_of("style=\"");
    let mut out = String::new();
    let mut pos: usize = 0;
    loop
        invariant
            pos <= s.len(),
            s@ == svg@,
            attr@ == "style=\""@,
            resolve_styles(s@) == out@ + resolve_styles_from(s@, pos as int),
        decreases s.len() - pos,
    {
        match resolve_styles_step(&s, &attr, pos) {
            None => {
                push_chars(&mut out, &sub_chars(&s, pos, s.len()));
                return out;
            },
            Some((chunk, next)) => {
                push_str(&mut out, chunk.as_str());
                pos = next;
            },
        }
    }
}

proof fn lemma_find_from_none(s: Seq<char>, pat: Seq<char>, i: int)
    requires
        forall|j: int| i <= j ==> !occurs_at(s, pat, j),
    ensures
        find_from(s, pat, i) is None,
    decreases s.len() + 1 - i,
{
    if !(i < 0 || i + pat.len() > s.len()) {
        lemma_find_from_none(s, pat, i + 1);
    }
}

/// CSS in which no lane variable reference `var(--tdsl-lane-` occurs is left as it is.
pub proof fn lemma_resolve_vars_without_reference(css: Seq<char>)
    requires
        forall|j: int| !occurs_at(css, var_prefix(), j),
    ensures
        resolve_vars(css) == css,
{
    lemma_find_from_none(css, var_prefix(), 0);
    assert(css.subrange(0, css.len() as int) =~= css);
}

/// An SVG with no `style="` attribute is left as it is, so text content and `<style>`
/// blocks are never rewritten.
pub proof fn lemma_resolve_styles_without_style_attr(svg: Seq<char>)
    requires
        forall|j: int| !occurs_at(svg, "style=\""@, j),
    ensures
        resolve_styles(svg) == svg,
{
    lemma_find_from_none(svg, "style=\""@, 0);
    assert(svg.subrange(0, svg.len() as int) =~= svg);
}

proof fn lemma_find_from_first(s: Seq<char>, pat: Seq<char>, i: int, k: int)
    requires
        0 <= i <= k,
        occurs_at(s, pat, k),
        forall|j: int| i <= j < k ==> !occurs_at(s, pat, j),
    ensures
        find_from(s, pat, i) == Some(k),
    decreases k - i,
{
    if i < k {
        lemma_find_from_first(s, pat, i + 1, k);
    }
}

proof fn lemma_find_from_shift(a: Seq<char>, b: Seq<char>, pat: Seq<char>, p: int)
    requires
        0 <= p,
    ensures
        find_from(a + b, pat, a.len() + p) == match find_from(b, pat, p) {
            Some(j) => Some(a.len() + j),
            None => None,
        },
    decreases b.len() + 1 - p,
{
    let s = a + b;
    let i = a.len() + p;
    if !(i < 0 || i + pat.len() > s.len()) {
        if p + pat.len() <= b.len() {
            assert(s.subrange(i, i + pat.len()) =~= b.subrange(p, p + pat.len()));
        }
        if !occurs_at(s, pat, i) {
            lemma_find_from_shift(a, b, pat, p + 1);
        }
    }
}

proof fn lemma_char_pos_shift(a: Seq<char>, b: Seq<char>, p: int, c: char)
    requires
        0 <= p <= b.len(),
    ensures
        char_pos(a + b, a.len() + p, c) == a.len() + char_pos(b, p, c),
{
    assert((a + b).skip(a.len() + p) =~= b.skip(p));
}

/// Rewriting from position `a.len() + p` of `a + b` is rewriting `b` from `p`: what came
/// before does not change what follows.
proof fn lemma_resolve_styles_shift(a: Seq<char>, b: Seq<char>, p: int)
    requires
        0 <= p <= b.len(),
    ensures
        resolve_styles_from(a + b, a.len() + p) == resolve_styles_from(b, p),
    decreases b.len() + 1 - p,
{
    let attr = "style=\""@;
    let s = a + b;
    let n = a.len();
    lemma_find_from_shift(a, b, attr, p);
    assert(s.subrange(n + p, s.len() as int) =~= b.subrange(p, b.len() as int));
    match find_from(b, attr, p) {
        None => {},
        Some(start) => {
            lemma_find_from_bounds(b, attr, p);
            let after = start + attr.len();
            if !(start < p || after > b.len() || after <= p) {
                lemma_char_pos_shift(a, b, after, '"');
                let end = char_pos(b, after, '"');
                crate::wikidata::entity::lemma_index_of(b.skip(after), '"');
                if end >= after && end < b.len() {
                    assert(s.subrange(n + p, n + after) =~= b.subrange(p, after));
                    assert(s.subrange(n + after, n + end) =~= b.subrange(after, end));
                    lemma_resolve_styles_shift(a, b, end + 1);
                }
            }
        },
    }
}

/// Only the value of a `style` attribute changes: in an SVG that reads `pre`, then the
/// first `style="`, a value without `"`, the closing `"` and `rest`, the value's lane
/// variables are resolved, `pre` and the attribute's quotes are kept as written, and the
/// rest is rewritten in the same way on its own.
pub proof fn lemma_resolve_styles_rewrites_only_style_values(pre: Seq<char>, value: Seq<char>, rest: Seq<char>)
    requires
        forall|j: int| 0 <= j < pre.len() ==> !#[trigger] occurs_at(pre + "style=\""@ + value + seq!['"'] + rest, "style=\""@, j),
        forall|j: int| 0 <= j < value.len() ==> value[j] != '"',
    ensures
        resolve_styles(pre + "style=\""@ + value + seq!['"'] + rest)
            == pre + "style=\""@ + resolve_vars(value) + seq!['"'] + resolve_styles(rest),
{
    reveal_strlit("style=\"");
    let attr = "style=\""@;
    let head = pre + attr + value + seq!['"'];
    let svg = pre + attr + value + seq!['"'] + rest;
    assert(svg =~= head + rest);
    let start = pre.len() as int;
    let after = start + attr.len();
    let end = after + value.len();
    assert(svg.subrange(start, after) =~= attr);
    lemma_find_from_first(svg, attr, 0, start);
    let tail = svg.skip(after);
    crate::wikidata::entity::lemma_index_of(tail, '"');
    assert(tail[value.len() as int] == '"');
    assert forall|j: int| 0 <= j < value.len() implies tail[j] != '"' by {
        assert(tail[j] == value[j]);
    }
    assert(crate::wikidata::entity::index_of(tail, '"') == value.len());
    assert(char_pos(svg, after, '"') == end);
    assert(svg.subrange(0, after) =~= pre + attr);
    assert(svg.subrange(after, end) =~= value);
    lemma_resolve_styles_shift(head, rest, 0);
    assert(head.len() == end + 1);
}

/// Escaped text holds no markup characters: no `<`, `>`, `"` or `'`.
pub proof fn lemma_escaped_has_no_markup(s: Seq<char>)
    ensures
        forall|i: int| 0 <= i < xml_escaped(s).len() ==> {
            let c = #[trigger] xml_escaped(s)[i];
            c != '<' && c != '>' && c != '"' && c != '\''
        },
    decreases s.len(),
{
    reveal_strlit("&amp;");
    reveal_strlit("&lt;");
    reveal_strlit("&gt;");
    reveal_strlit("&quot;");
    reveal_strlit("&#39;");
    if s.len() > 0 {
        lemma_escaped_has_no_markup(s.drop_last());
        let a = xml_escaped(s.drop_last());
        let b = xml_char(s.last());
        assert forall|i: int| 0 <= i < xml_escaped(s).len() implies {
            let c = #[trigger] xml_escaped(s)[i];
            c != '<' && c != '>' && c != '"' && c != '\''
        } by {
            if i >= a.len() {
                assert(xml_escaped(s)[i] == b[i - a.len()]);
            } else {
                assert(xml_escaped(s)[i] == a[i]);
            }
        }
    }
}

} // verus!
