//! Color values: which user-supplied CSS colors are safe to emit, and which color an
//! item is drawn with.

use vstd::prelude::*;
use crate::text::{chars_of, string_from_chars, str_eq};
use crate::ir::strs_view;

verus! {

/// Unicode `White_Space`, the set `char::is_whitespace` tests.
pub open spec fn is_ws(c: char) -> bool {
    let u = c as u32;
    (0x09 <= u <= 0x0d) || u == 0x20 || u == 0x85 || u == 0xa0 || u == 0x1680
        || (0x2000 <= u <= 0x200a) || u == 0x2028 || u == 0x2029 || u == 0x202f || u == 0x205f
        || u == 0x3000
}

pub fn is_whitespace(c: char) -> (r: bool)
    ensures
        r == is_ws(c),
{
    let u = c as u32;
    (0x09 <= u && u <= 0x0d) || u == 0x20 || u == 0x85 || u == 0xa0 || u == 0x1680
        || (0x2000 <= u && u <= 0x200a) || u == 0x2028 || u == 0x2029 || u == 0x202f || u == 0x205f
        || u == 0x3000
}

/// `s` without leading whitespace.
pub open spec fn trim_start(s: Seq<char>) -> Seq<char>
    decreases s.len(),
{
    if s.len() > 0 && is_ws(s[0]) { trim_start(s.drop_first()) } else { s }
}

/// `s` without trailing whitespace.
pub open spec fn trim_end(s: Seq<char>) -> Seq<char>
    decreases s.len(),
{
    if s.len() > 0 && is_ws(s.last()) { trim_end(s.drop_last()) } else { s }
}

/// `s` without leading or trailing whitespace (`str::trim`).
pub open spec fn trim(s: Seq<char>) -> Seq<char> {
    trim_end(trim_start(s))
}

/// The characters of `s` without leading or trailing whitespace.
pub fn trim_chars(s: &str) -> (r: Vec<char>)
    ensures
        r@ == trim(s@),
{
    let v = chars_of(s);
    let mut a: usize = 0;
    assert(v@.skip(0) =~= v@);
    while a < v.len() && is_whitespace(v[a])
        invariant
            a <= v.len(),
            v@ == s@,
            trim_start(s@) == trim_start(v@.skip(a as int)),
        decreases v.len() - a,
    {
        assert(v@.skip(a as int).drop_first() =~= v@.skip(a + 1));
        a = a + 1;
    }
    let ghost front = v@.skip(a as int);
    assert(trim_start(front) == front);
    let mut b: usize = v.len();
    assert(v@.subrange(a as int, b as int) =~= front);
    while b > a && is_whitespace(v[b - 1])
        invariant
            a <= b <= v.len(),
            trim_end(front) == trim_end(v@.subrange(a as int, b as int)),
        decreases b,
    {
        assert(v@.subrange(a as int, b as int).drop_last() =~= v@.subrange(a as int, b - 1));
        b = b - 1;
    }
    let mut r: Vec<char> = Vec::new();
    let mut k: usize = a;
    while k < b
        invariant
            a <= k <= b,
            b <= v.len(),
            r@ == v@.subrange(a as int, k as int),
        decreases b - k,
    {
        r.push(v[k]);
        k = k + 1;
        assert(r@ =~= v@.subrange(a as int, k as int));
    }
    r
}

pub open spec fn is_hex_digit(c: char) -> bool {
    ('0' <= c <= '9') || ('a' <= c <= 'f') || ('A' <= c <= 'F')
}

pub open spec fn is_alpha(c: char) -> bool {
    ('a' <= c <= 'z') || ('A' <= c <= 'Z')
}

pub open spec fn is_alnum(c: char) -> bool {
    is_alpha(c) || ('0' <= c <= '9')
}

/// A color value that can be written into a `fill` attribute as is: after trimming,
/// `#` followed by 3, 4, 6 or 8 hex digits, or a keyword-like identifier (a letter,
/// then letters, digits and hyphens).
pub open spec fn safe_color(value: Seq<char>) -> bool {
    let v = trim(value);
    if v.len() == 0 {
        false
    } else if v[0] == '#' {
        let n = v.len() - 1;
        (n == 3 || n == 4 || n == 6 || n == 8) && forall|i: int| 1 <= i < v.len() ==> is_hex_digit(#[trigger] v[i])
    } else {
        is_alpha(v[0]) && forall|i: int| 1 <= i < v.len() ==> (is_alnum(#[trigger] v[i]) || v[i] == '-')
    }
}

fn safe_trimmed(v: &Vec<char>) -> (r: bool)
    ensures
        r == (v@.len() > 0 && if v@[0] == '#' {
            let n = v@.len() - 1;
            (n == 3 || n == 4 || n == 6 || n == 8) && forall|i: int| 1 <= i < v@.len() ==> is_hex_digit(#[trigger] v@[i])
        } else {
            is_alpha(v@[0]) && forall|i: int| 1 <= i < v@.len() ==> (is_alnum(#[trigger] v@[i]) || v@[i] == '-')
        }),
{
    if v.len() == 0 {
        return false;
    }
    if v[0] == '#' {
        let n = v.len() - 1;
        if !(n == 3 || n == 4 || n == 6 || n == 8) {
            return false;
        }
        let mut i: usize = 1;
        while i < v.len()
            invariant
                1 <= i <= v.len(),
                v@[0] == '#',
                forall|j: int| 1 <= j < i ==> is_hex_digit(#[trigger] v@[j]),
            decreases v.len() - i,
        {
            let c = v[i];
            if !(('0' <= c && c <= '9') || ('a' <= c && c <= 'f') || ('A' <= c && c <= 'F')) {
                assert(!is_hex_digit(v@[i as int]));
                return false;
            }
            i = i + 1;
        }
        true
    } else {
        let c0 = v[0];
        if !(('a' <= c0 && c0 <= 'z') || ('A' <= c0 && c0 <= 'Z')) {
            return false;
        }
        let mut i: usize = 1;
        while i < v.len()
            invariant
                1 <= i <= v.len(),
                v@[0] != '#',
                is_alpha(v@[0]),
                forall|j: int| 1 <= j < i ==> (is_alnum(#[trigger] v@[j]) || v@[j] == '-'),
            decreases v.len() - i,
        {
            let c = v[i];
            if !(('a' <= c && c <= 'z') || ('A' <= c && c <= 'Z') || ('0' <= c && c <= '9') || c == '-') {
                assert(!(is_alnum(v@[i as int]) || v@[i as int] == '-'));
                return false;
            }
            i = i + 1;
        }
        true
    }
}

/// Whether a user-supplied color may be emitted verbatim (see [`safe_color`]); anything
/// else (a stray `;`, a function call, markup) is rejected.
pub fn is_safe_color_value(value: &str) -> (r: bool)
    ensures
        r == safe_color(value@),
{
    let v = trim_chars(value);
    safe_trimmed(&v)
}

/// The value of the first entry of `map` whose key is `key`.
pub open spec fn map_get(map: Seq<(Seq<char>, Seq<char>)>, key: Seq<char>) -> Option<Seq<char>>
    decreases map.len(),
{
    if map.len() == 0 {
        None
    } else if map[0].0 == key {
        Some(map[0].1)
    } else {
        map_get(map.drop_first(), key)
    }
}

/// No key occurs twice in a table of pairs, so it reads as a map.
pub open spec fn keys_distinct(map: Seq<(Seq<char>, Seq<char>)>) -> bool {
    forall|i: int, j: int| 0 <= i < j < map.len() ==> map[i].0 != map[j].0
}

pub open spec fn pairs_view(v: Seq<(String, String)>) -> Seq<(Seq<char>, Seq<char>)> {
    Seq::new(v.len(), |i: int| (v[i].0@, v[i].1@))
}

/// Looks a key up in a string-to-string table.
pub fn map_lookup<'a>(map: &'a [(String, String)], key: &str) -> (r: Option<&'a String>)
    ensures
        match r {
            Some(v) => map_get(pairs_view(map@), key@) == Some(v@),
            None => map_get(pairs_view(map@), key@) is None,
        },
{
    let ghost all = pairs_view(map@);
    let mut i: usize = 0;
    assert(all.skip(0) =~= all);
    while i < map.len()
        invariant
            i <= map.len(),
            all == pairs_view(map@),
            map_get(all, key@) == map_get(all.skip(i as int), key@),
        decreases map.len() - i,
    {
        assert(all.skip(i as int)[0] == (map@[i as int].0@, map@[i as int].1@));
        if str_eq(map[i].0.as_str(), key) {
            return Some(&map[i].1);
        }
        assert(all.skip(i as int).drop_first() =~= all.skip(i + 1));
        i = i + 1;
    }
    None
}

/// The color of the first tag (in tag order) whose `color_map` entry is a safe color.
pub open spec fn tag_color(tags: Seq<Seq<char>>, color_map: Seq<(Seq<char>, Seq<char>)>) -> Option<Seq<char>>
    decreases tags.len(),
{
    if tags.len() == 0 {
        None
    } else {
        match map_get(color_map, tags[0]) {
            Some(c) if safe_color(c) => Some(trim(c)),
            _ => tag_color(tags.drop_first(), color_map),
        }
    }
}

/// The fill of an item: its own color when safe, else the first safe tag color from
/// `color_map`, else its lane's palette color, else steel blue.
pub open spec fn item_fill(
    item_color: Option<Seq<char>>,
    tags: Seq<Seq<char>>,
    color_map: Seq<(Seq<char>, Seq<char>)>,
    lane_id: Seq<char>,
    lane_colors: Seq<(Seq<char>, Seq<char>)>,
) -> Seq<char> {
    match item_color {
        Some(c) if safe_color(c) => trim(c),
        _ => match tag_color(tags, color_map) {
            Some(c) => c,
            None => match map_get(lane_colors, lane_id) {
                Some(c) => c,
                None => "#4682B4"@,
            },
        },
    }
}

/// A table lookup gives the value of the earliest entry with the key; with no such
/// entry it gives nothing.
pub proof fn lemma_map_get_first_entry(map: Seq<(Seq<char>, Seq<char>)>, key: Seq<char>, k: int)
    requires
        0 <= k <= map.len(),
        forall|j: int| 0 <= j < k ==> (#[trigger] map[j]).0 != key,
        k < map.len() ==> map[k].0 == key,
    ensures
        k < map.len() ==> map_get(map, key) == Some(map[k].1),
        k == map.len() ==> map_get(map, key) is None,
    decreases k,
{
    if k > 0 {
        let rest = map.drop_first();
        assert forall|j: int| 0 <= j < k - 1 implies (#[trigger] rest[j]).0 != key by {
            assert(rest[j] == map[j + 1]);
        }
        assert(map[0].0 != key);
        lemma_map_get_first_entry(rest, key, k - 1);
        if k < map.len() {
            assert(rest[k - 1] == map[k]);
        }
    }
}

/// The tag `tags[i]` has a safe color in `color_map`.
pub open spec fn tag_has_safe_color(tags: Seq<Seq<char>>, color_map: Seq<(Seq<char>, Seq<char>)>, i: int) -> bool {
    map_get(color_map, tags[i]) matches Some(c) && safe_color(c)
}

/// The tag color is that of the earliest tag, in tag order, whose entry in the color
/// map is safe (trimmed); when no tag has a safe entry there is none.
pub proof fn lemma_tag_color_first_safe_tag(tags: Seq<Seq<char>>, color_map: Seq<(Seq<char>, Seq<char>)>, k: int)
    requires
        0 <= k <= tags.len(),
        forall|j: int| 0 <= j < k ==> !#[trigger] tag_has_safe_color(tags, color_map, j),
        k < tags.len() ==> tag_has_safe_color(tags, color_map, k),
    ensures
        k < tags.len() ==> tag_color(tags, color_map) == Some(trim(map_get(color_map, tags[k]).unwrap())),
        k == tags.len() ==> tag_color(tags, color_map) is None,
    decreases k,
{
    if k > 0 {
        let rest = tags.drop_first();
        assert forall|j: int| 0 <= j < k - 1 implies !#[trigger] tag_has_safe_color(rest, color_map, j) by {
            assert(rest[j] == tags[j + 1]);
            assert(!tag_has_safe_color(tags, color_map, j + 1));
        }
        assert(!tag_has_safe_color(tags, color_map, 0));
        lemma_tag_color_first_safe_tag(rest, color_map, k - 1);
        if k < tags.len() {
            assert(rest[k - 1] == tags[k]);
            assert(tag_has_safe_color(rest, color_map, k - 1));
        }
    }
}

/// The fill of an item: a safe item color wins (trimmed); otherwise the color of the
/// earliest tag with a safe entry in the color map; otherwise the lane's color, and
/// steel blue for a lane without one.
pub proof fn lemma_item_fill_precedence(
    item_color: Option<Seq<char>>,
    tags: Seq<Seq<char>>,
    color_map: Seq<(Seq<char>, Seq<char>)>,
    lane_id: Seq<char>,
    lane_colors: Seq<(Seq<char>, Seq<char>)>,
    k: int,
)
    requires
        0 <= k <= tags.len(),
        forall|j: int| 0 <= j < k ==> !#[trigger] tag_has_safe_color(tags, color_map, j),
        k < tags.len() ==> tag_has_safe_color(tags, color_map, k),
    ensures
        item_color is Some && safe_color(item_color.unwrap()) ==>
            item_fill(item_color, tags, color_map, lane_id, lane_colors) == trim(item_color.unwrap()),
        !(item_color is Some && safe_color(item_color.unwrap())) && k < tags.len() ==>
            item_fill(item_color, tags, color_map, lane_id, lane_colors) == trim(map_get(color_map, tags[k]).unwrap()),
        !(item_color is Some && safe_color(item_color.unwrap())) && k == tags.len() ==>
            item_fill(item_color, tags, color_map, lane_id, lane_colors) == match map_get(lane_colors, lane_id) {
                Some(c) => c,
                None => "#4682B4"@,
            },
{
    lemma_tag_color_first_safe_tag(tags, color_map, k);
}

/// Resolves the fill of an item: item color, then tag colors, then the lane palette.
/// The tag-color and lane-color tables are maps: no key occurs twice in either.
pub fn resolve_item_color(
    item_color: &Option<String>,
    tags: &Vec<String>,
    color_map: &[(String, String)],
    lane_id: &str,
    lane_colors: &[(String, String)],
) -> (r: String)
    requires
        keys_distinct(pairs_view(color_map@)),
        keys_distinct(pairs_view(lane_colors@)),
    ensures
        r@ == item_fill(crate::ir::opt_str_view(*item_color), strs_view(tags@), pairs_view(color_map@),
            lane_id@, pairs_view(lane_colors@)),
{
    if let Some(color) = item_color {
        let t = trim_chars(color.as_str());
        if safe_trimmed(&t) {
            return string_from_chars(t.as_slice());
        }
        assert(!safe_color(color@));
    }
    let ghost tv = strs_view(tags@);
    let ghost cm = pairs_view(color_map@);
    let mut i: usize = 0;
    assert(tv.skip(0) =~= tv);
    while i < tags.len()
        invariant
            i <= tags.len(),
            tv == strs_view(tags@),
            cm == pairs_view(color_map@),
            tag_color(tv, cm) == tag_color(tv.skip(i as int), cm),
            match crate::ir::opt_str_view(*item_color) { Some(c) => !safe_color(c), None => true },
        decreases tags.len() - i,
    {
        assert(tv.skip(i as int)[0] == tags@[i as int]@);
        if let Some(color) = map_lookup(color_map, tags[i].as_str()) {
            let t = trim_chars(color.as_str());
            if safe_trimmed(&t) {
                assert(safe_color(color@));
                assert(tag_color(tv.skip(i as int), cm) == Some(t@));
                return string_from_chars(t.as_slice());
            }
            assert(!safe_color(color@));
        }
        assert(tv.skip(i as int).drop_first() =~= tv.skip(i + 1));
        i = i + 1;
    }
    match map_lookup(lane_colors, lane_id) {
        Some(c) => c.clone(),
        None => String::from_str("#4682B4"),
    }
}

} // verus!
