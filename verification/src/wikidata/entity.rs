//! Wikidata entities and the parsing of their time values.

use vstd::prelude::*;
use crate::text::{chars_of, str_eq, string_from_chars};
use crate::wikidata::error::WikidataError;

verus! {

/// A language-tagged label.
#[derive(Debug, Clone)]
pub struct LabelValue {
    pub language: String,
    pub value: String,
}

/// A text in one language.
#[derive(Debug, Clone)]
pub struct MonolingualTextValue {
    pub text: String,
    pub language: String,
}

/// A Wikidata time value, e.g. `+1868-01-01T00:00:00Z` with precision 9 (year).
#[derive(Debug, Clone)]
pub struct TimeValue {
    pub time: String,
    pub precision: u8,
    pub calendarmodel: String,
}

/// A reference to another entity.
#[derive(Debug, Clone)]
pub struct EntityIdValue {
    pub id: String,
    pub numeric_id: u64,
}

/// A claim's value. Quantities and coordinates are kept as their raw JSON text.
#[derive(Debug, Clone)]
pub enum DataValue {
    Time { value: TimeValue },
    WikibaseEntityId { value: EntityIdValue },
    String { value: String },
    MonolingualText { value: MonolingualTextValue },
    Quantity { json: String },
    GlobeCoordinate { json: String },
}

/// The unit of a claim: a property and, unless it is "no value", its value.
#[derive(Debug, Clone)]
pub struct Snak {
    pub snaktype: String,
    pub property: String,
    pub datavalue: Option<DataValue>,
}

/// One statement about an entity, with its rank and qualifiers.
#[derive(Debug, Clone)]
pub struct Statement {
    pub mainsnak: Snak,
    pub rank: String,
    pub qualifiers: Vec<(String, Vec<Snak>)>,
}

/// A Wikidata entity: labels by language and statements by property (each key once).
#[derive(Debug, Clone)]
pub struct WikidataEntity {
    pub id: String,
    pub labels: Vec<(String, LabelValue)>,
    pub claims: Vec<(String, Vec<Statement>)>,
}

/// The value of the label in language `lang` (first entry with that key).
pub open spec fn label_in(labels: Seq<(String, LabelValue)>, lang: Seq<char>) -> Option<Seq<char>>
    decreases labels.len(),
{
    if labels.len() == 0 {
        None
    } else if labels[0].0@ == lang {
        Some(labels[0].1.value@)
    } else {
        label_in(labels.drop_first(), lang)
    }
}

/// The label in the first language of `langs` that has one.
pub open spec fn label_fallback(labels: Seq<(String, LabelValue)>, langs: Seq<Seq<char>>) -> Option<Seq<char>>
    decreases langs.len(),
{
    if langs.len() == 0 {
        None
    } else {
        match label_in(labels, langs[0]) {
            Some(v) => Some(v),
            None => label_fallback(labels, langs.drop_first()),
        }
    }
}

pub open spec fn strs(v: Seq<&str>) -> Seq<Seq<char>> {
    Seq::new(v.len(), |i: int| v[i]@)
}

/// The statements of property `p` (first entry with that key).
pub open spec fn statements_of(claims: Seq<(String, Vec<Statement>)>, p: Seq<char>) -> Option<Seq<Statement>>
    decreases claims.len(),
{
    if claims.len() == 0 {
        None
    } else if claims[0].0@ == p {
        Some(claims[0].1@)
    } else {
        statements_of(claims.drop_first(), p)
    }
}

/// The value of the first statement that is not deprecated, if that statement has one.
pub open spec fn first_current_value(stmts: Seq<Statement>) -> Option<DataValue>
    decreases stmts.len(),
{
    if stmts.len() == 0 {
        None
    } else if stmts[0].rank@ != "deprecated"@ {
        stmts[0].mainsnak.datavalue
    } else {
        first_current_value(stmts.drop_first())
    }
}

/// A claim's value comes from the earliest statement that is not deprecated: when
/// statement `k` is not deprecated and every statement before it is, that statement's
/// value is the claim's value; when every statement is deprecated there is none.
pub proof fn lemma_claim_is_first_current_statement(stmts: Seq<Statement>, k: int)
    requires
        0 <= k <= stmts.len(),
        forall|j: int| 0 <= j < k ==> (#[trigger] stmts[j]).rank@ == "deprecated"@,
        k < stmts.len() ==> stmts[k].rank@ != "deprecated"@,
    ensures
        k < stmts.len() ==> first_current_value(stmts) == stmts[k].mainsnak.datavalue,
        k == stmts.len() ==> first_current_value(stmts) is None,
    decreases k,
{
    if k > 0 {
        let rest = stmts.drop_first();
        assert forall|j: int| 0 <= j < k - 1 implies (#[trigger] rest[j]).rank@ == "deprecated"@ by {
            assert(rest[j] == stmts[j + 1]);
        }
        assert(stmts[0].rank@ == "deprecated"@);
        lemma_claim_is_first_current_statement(rest, k - 1);
        if k < stmts.len() {
            assert(rest[k - 1] == stmts[k]);
        }
    }
}

/// The statements of a property are those of the earliest entry with that property;
/// with no such entry there are none.
pub proof fn lemma_statements_of_first_entry(claims: Seq<(String, Vec<Statement>)>, p: Seq<char>, k: int)
    requires
        0 <= k <= claims.len(),
        forall|j: int| 0 <= j < k ==> (#[trigger] claims[j]).0@ != p,
        k < claims.len() ==> claims[k].0@ == p,
    ensures
        k < claims.len() ==> statements_of(claims, p) == Some(claims[k].1@),
        k == claims.len() ==> statements_of(claims, p) is None,
    decreases k,
{
    if k > 0 {
        let rest = claims.drop_first();
        assert forall|j: int| 0 <= j < k - 1 implies (#[trigger] rest[j]).0@ != p by {
            assert(rest[j] == claims[j + 1]);
        }
        assert(claims[0].0@ != p);
        lemma_statements_of_first_entry(rest, p, k - 1);
        if k < claims.len() {
            assert(rest[k - 1] == claims[k]);
        }
    }
}

/// The label in a language is the value of the earliest entry for it; with no entry
/// there is none.
pub proof fn lemma_label_in_first_entry(labels: Seq<(String, LabelValue)>, lang: Seq<char>, k: int)
    requires
        0 <= k <= labels.len(),
        forall|j: int| 0 <= j < k ==> (#[trigger] labels[j]).0@ != lang,
        k < labels.len() ==> labels[k].0@ == lang,
    ensures
        k < labels.len() ==> label_in(labels, lang) == Some(labels[k].1.value@),
        k == labels.len() ==> label_in(labels, lang) is None,
    decreases k,
{
    if k > 0 {
        let rest = labels.drop_first();
        assert forall|j: int| 0 <= j < k - 1 implies (#[trigger] rest[j]).0@ != lang by {
            assert(rest[j] == labels[j + 1]);
        }
        assert(labels[0].0@ != lang);
        lemma_label_in_first_entry(rest, lang, k - 1);
        if k < labels.len() {
            assert(rest[k - 1] == labels[k]);
        }
    }
}

/// The fallback label is the label in the earliest of `langs` that has one: when
/// `langs[k]` has a label and no earlier language does, it is that label; when no
/// language has one there is none.
pub proof fn lemma_label_fallback_first_language(labels: Seq<(String, LabelValue)>, langs: Seq<Seq<char>>, k: int)
    requires
        0 <= k <= langs.len(),
        forall|j: int| 0 <= j < k ==> label_in(labels, #[trigger] langs[j]) is None,
        k < langs.len() ==> label_in(labels, langs[k]) is Some,
    ensures
        k < langs.len() ==> label_fallback(labels, langs) == label_in(labels, langs[k]),
        k == langs.len() ==> label_fallback(labels, langs) is None,
    decreases k,
{
    if k > 0 {
        let rest = langs.drop_first();
        assert forall|j: int| 0 <= j < k - 1 implies label_in(labels, #[trigger] rest[j]) is None by {
            assert(rest[j] == langs[j + 1]);
        }
        assert(label_in(labels, langs[0]) is None);
        lemma_label_fallback_first_language(labels, rest, k - 1);
        if k < langs.len() {
            assert(rest[k - 1] == langs[k]);
        }
    }
}

impl WikidataEntity {
    fn label_for(&self, lang: &str) -> (r: Option<&String>)
        ensures
            match r {
                Some(v) => label_in(self.labels@, lang@) == Some(v@),
                None => label_in(self.labels@, lang@) is None,
            },
    {
        let mut i: usize = 0;
        assert(self.labels@.skip(0) =~= self.labels@);
        while i < self.labels.len()
            invariant
                i <= self.labels.len(),
                label_in(self.labels@, lang@) == label_in(self.labels@.skip(i as int), lang@),
            decreases self.labels.len() - i,
        {
            if str_eq(self.labels[i].0.as_str(), lang) {
                return Some(&self.labels[i].1.value);
            }
            assert(self.labels@.skip(i as int).drop_first() =~= self.labels@.skip(i + 1));
            i = i + 1;
        }
        None
    }

    /// The label in the first of `langs` that has one, or `None`.
    pub fn label_with_fallback(&self, langs: &[&str]) -> (r: Option<&str>)
        ensures
            match r {
                Some(v) => label_fallback(self.labels@, strs(langs@)) == Some(v@),
                None => label_fallback(self.labels@, strs(langs@)) is None,
            },
    {
        let ghost lv = strs(langs@);
        let mut i: usize = 0;
        assert(lv.skip(0) =~= lv);
        while i < langs.len()
            invariant
                i <= langs.len(),
                lv == strs(langs@),
                label_fallback(self.labels@, lv) == label_fallback(self.labels@, lv.skip(i as int)),
            decreases langs.len() - i,
        {
            assert(lv.skip(i as int)[0] == langs@[i as int]@);
            match self.label_for(langs[i]) {
                Some(v) => {
                    return Some(v.as_str());
                },
                None => {},
            }
            assert(lv.skip(i as int).drop_first() =~= lv.skip(i + 1));
            i = i + 1;
        }
        None
    }

    /// The value of the first non-deprecated statement of `property`, if it has a value.
    pub fn claim(&self, property: &str) -> (r: Option<&DataValue>)
        ensures
            r == match statements_of(self.claims@, property@) {
                Some(stmts) => match first_current_value(stmts) {
                    Some(v) => Some(&v),
                    None => None,
                },
                None => None,
            },
    {
        let mut i: usize = 0;
        assert(self.claims@.skip(0) =~= self.claims@);
        while i < self.claims.len()
            invariant
                i <= self.claims.len(),
                statements_of(self.claims@, property@) == statements_of(self.claims@.skip(i as int), property@),
            decreases self.claims.len() - i,
        {
            if str_eq(self.claims[i].0.as_str(), property) {
                let stmts = &self.claims[i].1;
                assert(self.claims@.skip(i as int)[0] == self.claims@[i as int]);
                assert(statements_of(self.claims@, property@) == Some(stmts@));
                let mut k: usize = 0;
                assert(stmts@.skip(0) =~= stmts@);
                while k < stmts.len()
                    invariant
                        k <= stmts.len(),
                        statements_of(self.claims@, property@) == Some(stmts@),
                        first_current_value(stmts@) == first_current_value(stmts@.skip(k as int)),
                    decreases stmts.len() - k,
                {
                    if !str_eq(stmts[k].rank.as_str(), "deprecated") {
                        return match &stmts[k].mainsnak.datavalue {
                            Some(v) => Some(v),
                            None => None,
                        };
                    }
                    assert(stmts@.skip(k as int).drop_first() =~= stmts@.skip(k + 1));
                    k = k + 1;
                }
                assert(stmts@.skip(k as int).len() == 0);
                return None;
            }
            assert(self.claims@.skip(i as int).drop_first() =~= self.claims@.skip(i + 1));
            i = i + 1;
        }
        None
    }
}

/// A parsed time: the year, and the month and day when the precision includes them.
#[derive(Debug, Clone, Copy, PartialEq, Eq, Structural)]
pub struct TimePoint {
    pub year: i64,
    /// Present when the precision is at least 10 (month) and the month is valid.
    pub month: Option<u8>,
    /// Present when the precision is at least 11 (day) and the day is valid.
    pub day: Option<u8>,
    pub precision: u8,
}

pub open spec fn is_digit(c: char) -> bool {
    '0' <= c <= '9'
}

/// A non-empty run of ASCII digits.
pub open spec fn all_digits(s: Seq<char>) -> bool {
    s.len() > 0 && forall|i: int| 0 <= i < s.len() ==> is_digit(#[trigger] s[i])
}

/// The value of a digit string, most significant digit first.
pub open spec fn digits_value(s: Seq<char>) -> nat
    decreases s.len(),
{
    if s.len() == 0 {
        0
    } else {
        digits_value(s.drop_last()) * 10 + ((s.last() as int) - ('0' as int)) as nat
    }
}

/// What `str::parse::<i64>` accepts: an optional `+` or `-` sign, then one or more
/// ASCII digits, with the value in range.
pub open spec fn parse_i64_spec(s: Seq<char>) -> Option<i64> {
    let neg = s.len() > 0 && s[0] == '-';
    let body = if s.len() > 0 && (s[0] == '-' || s[0] == '+') { s.drop_first() } else { s };
    if all_digits(body) {
        let v: int = if neg { -(digits_value(body) as int) } else { digits_value(body) as int };
        if i64::MIN <= v <= i64::MAX { Some(v as i64) } else { None }
    } else {
        None
    }
}

/// What `str::parse::<u8>` accepts: an optional `+` sign, then one or more ASCII
/// digits, with the value at most 255.
pub open spec fn parse_u8_spec(s: Seq<char>) -> Option<u8> {
    let body = if s.len() > 0 && s[0] == '+' { s.drop_first() } else { s };
    if all_digits(body) && digits_value(body) <= 255 { Some(digits_value(body) as u8) } else { None }
}

proof fn lemma_digits_step(s: Seq<char>, i: int)
    requires
        0 <= i < s.len(),
        is_digit(s[i]),
    ensures
        digits_value(s.take(i + 1)) == digits_value(s.take(i)) * 10 + ((s[i] as int) - ('0' as int)),
{
    assert(s.take(i + 1).drop_last() =~= s.take(i));
}

/// Value of a digit string, or `None` when it is empty, holds a non-digit, or exceeds
/// `limit`.
pub(crate) fn digits_up_to(s: &[char], start: usize, limit: u64) -> (r: Option<u64>)
    requires
        start <= s.len(),
        limit >= 9,
    ensures
        match r {
            Some(v) => all_digits(s@.skip(start as int)) && v == digits_value(s@.skip(start as int)) && v <= limit,
            None => !all_digits(s@.skip(start as int)) || digits_value(s@.skip(start as int)) > limit,
        },
{
    let ghost body = s@.skip(start as int);
    if start == s.len() {
        return None;
    }
    let mut acc: u64 = 0;
    let mut big = false;
    let mut i = start;
    while i < s.len()
        invariant
            start <= i <= s.len(),
            body == s@.skip(start as int),
            forall|j: int| 0 <= j < i - start ==> is_digit(#[trigger] body[j]),
            limit >= 9,
            big ==> digits_value(body.take(i - start)) > limit,
            !big ==> acc == digits_value(body.take(i - start)) && acc <= limit,
        decreases s.len() - i,
    {
        let c = s[i];
        if !('0' <= c && c <= '9') {
            assert(!is_digit(body[i - start]));
            return None;
        }
        let d = (c as u32 - '0' as u32) as u64;
        proof {
            lemma_digits_step(body, i - start);
            assert(body[i - start] == c);
        }
        if !big {
            if acc > (limit - d) / 10 {
                big = true;
                proof {
                    assert(acc * 10 + d > limit) by (nonlinear_arith) requires acc > (limit - d) / 10, d <= 9, d <= limit || true;
                }
            } else {
                assert(acc * 10 + d <= limit) by (nonlinear_arith) requires acc <= (limit - d) / 10, limit >= d || acc == 0;
                acc = acc * 10 + d;
            }
        }
        i = i + 1;
    }
    assert(body.take(s.len() - start) =~= body);
    if big { None } else { Some(acc) }
}

/// Parses a decimal `i64` the way `str::parse::<i64>` does.
pub fn parse_i64(s: &[char]) -> (r: Option<i64>)
    ensures
        r == parse_i64_spec(s@),
{
    let neg = s.len() > 0 && s[0] == '-';
    let start: usize = if s.len() > 0 && (s[0] == '-' || s[0] == '+') { 1 } else { 0 };
    proof {
        assert(s@.skip(0) =~= s@);
        assert(s@.len() > 0 ==> s@.skip(1) =~= s@.drop_first());
    }
    let limit: u64 = if neg { 9223372036854775808 } else { 9223372036854775807 };
    match digits_up_to(s, start, limit) {
        Some(v) => {
            if neg {
                if v == 9223372036854775808 { Some(i64::MIN) } else { Some(-(v as i64)) }
            } else {
                Some(v as i64)
            }
        },
        None => None,
    }
}

/// Parses a decimal `u8` the way `str::parse::<u8>` does.
pub fn parse_u8(s: &[char]) -> (r: Option<u8>)
    ensures
        r == parse_u8_spec(s@),
{
    let start: usize = if s.len() > 0 && s[0] == '+' { 1 } else { 0 };
    proof {
        assert(s@.skip(0) =~= s@);
        assert(s@.len() > 0 ==> s@.skip(1) =~= s@.drop_first());
    }
    match digits_up_to(s, start, 255) {
        Some(v) => Some(v as u8),
        None => None,
    }
}

/// Index of the first `c` in `s`, or its length when there is none.
pub open spec fn index_of(s: Seq<char>, c: char) -> int
    decreases s.len(),
{
    if s.len() == 0 {
        0
    } else if s[0] == c {
        0
    } else {
        1 + index_of(s.drop_first(), c)
    }
}

pub proof fn lemma_index_of(s: Seq<char>, c: char)
    ensures
        0 <= index_of(s, c) <= s.len(),
        index_of(s, c) < s.len() ==> s[index_of(s, c)] == c,
        forall|j: int| 0 <= j < index_of(s, c) ==> s[j] != c,
    decreases s.len(),
{
    if s.len() > 0 && s[0] != c {
        lemma_index_of(s.drop_first(), c);
        assert forall|j: int| 0 <= j < index_of(s, c) implies s[j] != c by {
            if j > 0 {
                assert(s[j] == s.drop_first()[j - 1]);
            }
        }
    }
}

/// The part of `s` before the first `c`.
pub open spec fn before(s: Seq<char>, c: char) -> Seq<char> {
    s.take(index_of(s, c))
}

/// The part of `s` after the first `c`, if `s` has one.
pub open spec fn after(s: Seq<char>, c: char) -> Option<Seq<char>> {
    if index_of(s, c) < s.len() { Some(s.skip(index_of(s, c) + 1)) } else { None }
}

fn find_char(s: &[char], from: usize, c: char) -> (r: usize)
    requires
        from <= s.len(),
    ensures
        r == from + index_of(s@.skip(from as int), c),
{
    proof {
        lemma_index_of(s@.skip(from as int), c);
    }
    let mut i = from;
    while i < s.len() && s[i] != c
        invariant
            from <= i <= s.len(),
            forall|j: int| from <= j < i ==> s@[j] != c,
        decreases s.len() - i,
    {
        i = i + 1;
    }
    proof {
        let t = s@.skip(from as int);
        let k = index_of(t, c);
        if k < i - from {
            assert(t[k] == s@[from + k]);
        }
        if i - from < k {
            assert(t[i - from] == s@[i as int]);
        }
    }
    i
}

fn slice_chars(s: &[char], a: usize, b: usize) -> (r: Vec<char>)
    requires
        a <= b <= s.len(),
    ensures
        r@ == s@.subrange(a as int, b as int),
{
    let mut r: Vec<char> = Vec::new();
    let mut k = a;
    while k < b
        invariant
            a <= k <= b,
            b <= s.len(),
            r@ == s@.subrange(a as int, k as int),
        decreases b - k,
    {
        r.push(s[k]);
        k = k + 1;
        assert(r@ =~= s@.subrange(a as int, k as int));
    }
    r
}

/// The time string with a leading `+` or `-` removed.
pub open spec fn unsigned_part(s: Seq<char>) -> Seq<char> {
    if s.len() > 0 && (s[0] == '+' || s[0] == '-') { s.drop_first() } else { s }
}

/// The parse of a Wikidata time string `±YYYY-MM-DDThh:mm:ssZ`: the year (required), then
/// the month from precision 10 and the day from precision 11, each dropped when it does
/// not parse or is out of range.
pub open spec fn timepoint_of(time: Seq<char>, precision: u8) -> Option<TimePoint> {
    let neg = time.len() > 0 && time[0] == '-';
    let rest = unsigned_part(time);
    match parse_i64_spec(before(rest, '-')) {
        None => None,
        Some(year) => {
            let tail = after(rest, '-');
            let month: Option<u8> = if precision >= 10 {
                match tail {
                    Some(t) => match parse_u8_spec(before(t, '-')) {
                        Some(m) => if 1 <= m <= 12 { Some(m) } else { None },
                        None => None,
                    },
                    None => None,
                }
            } else {
                None
            };
            let day: Option<u8> = if precision >= 11 {
                match tail {
                    Some(t) => match after(t, '-') {
                        Some(u) => match parse_u8_spec(before(u, 'T')) {
                            Some(d) => if 1 <= d <= 31 { Some(d) } else { None },
                            None => None,
                        },
                        None => None,
                    },
                    None => None,
                }
            } else {
                None
            };
            Some(TimePoint { year: if neg { (-year) as i64 } else { year }, month, day, precision })
        },
    }
}

/// Parses a Wikidata time value into a [`TimePoint`]; the error carries the time string.
pub fn time_value_to_timepoint(tv: &TimeValue) -> (r: Result<TimePoint, WikidataError>)
    ensures
        match timepoint_of(tv.time@, tv.precision) {
            Some(p) => r matches Ok(q) && q == p,
            None => r matches Err(WikidataError::TimeParseError(s)) && s@ == tv.time@,
        },
{
    let s = chars_of(tv.time.as_str());
    let neg = s.len() > 0 && s[0] == '-';
    let start: usize = if s.len() > 0 && (s[0] == '+' || s[0] == '-') { 1 } else { 0 };
    let ghost rest = unsigned_part(s@);
    proof {
        assert(s@.skip(0) =~= s@);
        assert(s@.len() > 0 ==> s@.skip(1) =~= s@.drop_first());
        lemma_index_of(rest, '-');
    }
    // Year: up to the first '-'.
    let y_end = find_char(s.as_slice(), start, '-');
    let year_chars = slice_chars(s.as_slice(), start, y_end);
    assert(year_chars@ =~= before(rest, '-'));
    let year = match parse_i64(year_chars.as_slice()) {
        Some(y) => y,
        None => return Err(WikidataError::TimeParseError(tv.time.clone())),
    };
    proof {
        // The year text holds no '-', so the parsed year is not negative.
        let b = before(rest, '-');
        if b.len() > 0 {
            assert(b[0] == rest[0]);
            assert(b[0] != '-');
        }
        assert(year >= 0);
    }
    let ghost tail = after(rest, '-');
    let mut month: Option<u8> = None;
    let mut day: Option<u8> = None;
    if y_end < s.len() {
        assert(tail == Some(s@.skip(y_end + 1)));
        let ghost t = s@.skip(y_end + 1);
        proof {
            lemma_index_of(t, '-');
        }
        let m_end = find_char(s.as_slice(), y_end + 1, '-');
        if tv.precision >= 10 {
            let m_chars = slice_chars(s.as_slice(), y_end + 1, m_end);
            assert(m_chars@ =~= before(t, '-'));
            month = match parse_u8(m_chars.as_slice()) {
                Some(m) => if 1 <= m && m <= 12 { Some(m) } else { None },
                None => None,
            };
        }
        if tv.precision >= 11 && m_end < s.len() {
            let ghost u = s@.skip(m_end + 1);
            assert(after(t, '-') == Some(u));
            proof {
                lemma_index_of(u, 'T');
            }
            let d_end = find_char(s.as_slice(), m_end + 1, 'T');
            let d_chars = slice_chars(s.as_slice(), m_end + 1, d_end);
            assert(d_chars@ =~= before(u, 'T'));
            day = match parse_u8(d_chars.as_slice()) {
                Some(d) => if 1 <= d && d <= 31 { Some(d) } else { None },
                None => None,
            };
        }
    }
    let y = if neg { -year } else { year };
    Ok(TimePoint { year: y, month, day, precision: tv.precision })
}

/// The year of a Wikidata time value.
pub fn time_value_to_year(tv: &TimeValue) -> (r: Result<i64, WikidataError>)
    ensures
        match timepoint_of(tv.time@, tv.precision) {
            Some(p) => r matches Ok(y) && y == p.year,
            None => r matches Err(WikidataError::TimeParseError(s)) && s@ == tv.time@,
        },
{
    match time_value_to_timepoint(tv) {
        Ok(p) => Ok(p.year),
        Err(e) => Err(e),
    }
}

} // verus!
