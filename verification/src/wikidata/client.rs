//! The decisions of the Wikidata HTTP client: which page a Wikipedia URL names, what to
//! do after each response, and how answers are read. The requests themselves are made by
//! the caller.

use vstd::prelude::*;
use crate::text::{chars_of, str_eq, string_from_chars, push_str, push_char, push_nat, nat_digits};
use crate::color::{trim, trim_chars};
use crate::wikidata::entity::WikidataEntity;
use crate::wikidata::error::WikidataError;

verus! {

/// A Wikipedia article as a Wikidata sitelink: site (`jawiki`) and title.
#[derive(Debug, Clone, PartialEq, Eq)]
pub struct WikipediaPageRef {
    pub site: String,
    pub title: String,
}

/// One hit of an entity search.
#[derive(Debug, Clone)]
pub struct SearchResult {
    pub id: String,
    pub label: String,
    pub description: Option<String>,
    pub aliases: Vec<String>,
}

/// Default number of retries after transient failures.
pub const DEFAULT_MAX_RETRIES: u32 = 5;

/// Longest `Retry-After` wait (seconds) that the client honours; longer requests fail
/// at once instead of blocking.
pub const MAX_RETRY_AFTER_SECS: u64 = 60;

/// The parts of a parsed URL that the client reads.
pub struct UrlParts {
    pub scheme: String,
    pub host: Option<String>,
    pub path: String,
    /// The query's key/value pairs, percent-decoded, in order.
    pub query_pairs: Vec<(String, String)>,
}

pub struct UrlPartsView {
    pub scheme: Seq<char>,
    pub host: Option<Seq<char>>,
    pub path: Seq<char>,
    pub query_pairs: Seq<(Seq<char>, Seq<char>)>,
}

pub open spec fn pairs_view(v: Seq<(String, String)>) -> Seq<(Seq<char>, Seq<char>)> {
    Seq::new(v.len(), |i: int| (v[i].0@, v[i].1@))
}

impl View for UrlParts {
    type V = UrlPartsView;

    open spec fn view(&self) -> UrlPartsView {
        UrlPartsView {
            scheme: self.scheme@,
            host: crate::ir::opt_str_view(self.host),
            path: self.path@,
            query_pairs: pairs_view(self.query_pairs@),
        }
    }
}

/// What `url::Url::parse` makes of a string: its parts, or the text of its error.
pub uninterp spec fn url_parse_result(raw: Seq<char>) -> Result<UrlPartsView, Seq<char>>;

/// Parses a URL with `url::Url::parse` and reads its scheme, host, path and decoded
/// query pairs.
///
/// Trusted: the contract only names the result as a function of the input string.
#[verifier::external_body]
fn parse_url(raw: &str) -> (r: Result<UrlParts, String>)
    ensures
        match r {
            Ok(p) => url_parse_result(raw@) == Ok::<UrlPartsView, Seq<char>>(p@),
            Err(e) => url_parse_result(raw@) == Err::<UrlPartsView, Seq<char>>(e@),
        },
{
    match url::Url::parse(raw) {
        Ok(u) => Ok(UrlParts {
            scheme: u.scheme().to_string(),
            host: u.host_str().map(|h| h.to_string()),
            path: u.path().to_string(),
            query_pairs: u.query_pairs().map(|(k, v)| (k.into_owned(), v.into_owned())).collect(),
        }),
        Err(e) => Err(e.to_string()),
    }
}

/// The key/value pairs that `url::form_urlencoded::parse` decodes from the UTF-8 bytes
/// of a string.
pub uninterp spec fn form_urlencoded_pairs(input: Seq<char>) -> Seq<(Seq<char>, Seq<char>)>;

/// Decodes `application/x-www-form-urlencoded` text with `url::form_urlencoded::parse`.
///
/// Trusted: the contract only names the result as a function of the input string.
#[verifier::external_body]
fn form_decode(input: &str) -> (r: Vec<(String, String)>)
    ensures
        pairs_view(r@) == form_urlencoded_pairs(input@),
{
    url::form_urlencoded::parse(input.as_bytes()).map(|(k, v)| (k.into_owned(), v.into_owned())).collect()
}

/// The value of the first pair whose key is `key`.
pub open spec fn first_value(pairs: Seq<(Seq<char>, Seq<char>)>, key: Seq<char>) -> Option<Seq<char>>
    decreases pairs.len(),
{
    if pairs.len() == 0 {
        None
    } else if pairs[0].0 == key {
        Some(pairs[0].1)
    } else {
        first_value(pairs.drop_first(), key)
    }
}

fn find_value<'a>(pairs: &'a Vec<(String, String)>, key: &str) -> (r: Option<&'a String>)
    ensures
        match r {
            Some(v) => first_value(pairs_view(pairs@), key@) == Some(v@),
            None => first_value(pairs_view(pairs@), key@) is None,
        },
{
    let ghost pv = pairs_view(pairs@);
    let mut i: usize = 0;
    assert(pv.skip(0) =~= pv);
    while i < pairs.len()
        invariant
            i <= pairs.len(),
            pv == pairs_view(pairs@),
            first_value(pv, key@) == first_value(pv.skip(i as int), key@),
        decreases pairs.len() - i,
    {
        assert(pv.skip(i as int)[0] == (pairs@[i as int].0@, pairs@[i as int].1@));
        if str_eq(pairs[i].0.as_str(), key) {
            return Some(&pairs[i].1);
        }
        assert(pv.skip(i as int).drop_first() =~= pv.skip(i + 1));
        i = i + 1;
    }
    None
}

/// A percent-encoded URL component decoded as a form value (`+` becomes a space); the
/// raw text when decoding yields nothing.
pub open spec fn decoded_component(raw: Seq<char>) -> Seq<char> {
    if raw.len() == 0 {
        Seq::empty()
    } else {
        value_or_raw(form_urlencoded_pairs("v="@ + raw), raw)
    }
}

/// The value of the pair keyed `v` among decoded pairs, or `raw` when there is none.
pub open spec fn value_or_raw(pairs: Seq<(Seq<char>, Seq<char>)>, raw: Seq<char>) -> Seq<char> {
    match first_value(pairs, "v"@) {
        Some(v) => v,
        None => raw,
    }
}

/// Reads the decoded component out of the pairs that decoding `v=<raw>` produced.
pub fn decoded_value(pairs: &Vec<(String, String)>, raw: &str) -> (s: String)
    ensures
        s@ == value_or_raw(pairs_view(pairs@), raw@),
{
    match find_value(pairs, "v") {
        Some(v) => v.clone(),
        None => String::from_str(raw),
    }
}

/// Decodes a percent-encoded URL component.
pub fn decode_url_component(raw: &str) -> (s: String)
    ensures
        s@ == decoded_component(raw@),
{
    if raw.unicode_len() == 0 {
        return String::new();
    }
    let mut fake = String::from_str("v=");
    push_str(&mut fake, raw);
    let pairs = form_decode(fake.as_str());
    decoded_value(&pairs, raw)
}

/// ASCII letters lowered, everything else unchanged.
pub open spec fn ascii_lower(s: Seq<char>) -> Seq<char> {
    Seq::new(s.len(), |i: int| if 'A' <= s[i] <= 'Z' { ((s[i] as u32) + 32) as char } else { s[i] })
}

fn to_ascii_lower(s: &Vec<char>) -> (r: Vec<char>)
    ensures
        r@ == ascii_lower(s@),
{
    let mut r: Vec<char> = Vec::new();
    let mut i: usize = 0;
    while i < s.len()
        invariant
            i <= s.len(),
            r.len() == i,
            forall|j: int| 0 <= j < i ==> #[trigger] r@[j] == ascii_lower(s@)[j],
        decreases s.len() - i,
    {
        let c = s[i];
        let l = if 'A' <= c && c <= 'Z' {
            let u: u8 = (c as u32 as u8) + 32;
            u as char
        } else {
            c
        };
        r.push(l);
        i = i + 1;
    }
    assert(r@ =~= ascii_lower(s@));
    r
}

/// The parts of `s` between occurrences of `c` (`str::split`).
pub open spec fn split(s: Seq<char>, c: char) -> Seq<Seq<char>>
    decreases s.len(),
{
    match crate::wikidata::entity::after(s, c) {
        Some(rest) => if rest.len() < s.len() {
            seq![crate::wikidata::entity::before(s, c)] + split(rest, c)
        } else {
            seq![s]
        },
        None => seq![s],
    }
}

fn split_chars(s: &Vec<char>, c: char) -> (r: Vec<Vec<char>>)
    ensures
        Seq::new(r@.len(), |i: int| r@[i]@) == split(s@, c),
{
    let mut r: Vec<Vec<char>> = Vec::new();
    let mut start: usize = 0;
    proof {
        assert(s@.skip(0) =~= s@);
    }
    loop
        invariant
            start <= s.len(),
            split(s@, c) == Seq::new(r@.len(), |i: int| r@[i]@) + split(s@.skip(start as int), c),
        decreases s.len() - start,
    {
        let ghost rest = s@.skip(start as int);
        proof {
            crate::wikidata::entity::lemma_index_of(rest, c);
        }
        let mut i = start;
        while i < s.len() && s[i] != c
            invariant
                start <= i <= s.len(),
                forall|j: int| start <= j < i ==> s@[j] != c,
            decreases s.len() - i,
        {
            i = i + 1;
        }
        let ghost k = crate::wikidata::entity::index_of(rest, c);
        proof {
            if k < i - start {
                assert(rest[k] == s@[start + k]);
            }
            if i - start < k {
                assert(rest[i - start] == s@[i as int]);
            }
        }
        let mut part: Vec<char> = Vec::new();
        let mut j = start;
        while j < i
            invariant
                start <= j <= i,
                i <= s.len(),
                part@ == s@.subrange(start as int, j as int),
            decreases i - j,
        {
            part.push(s[j]);
            j = j + 1;
            assert(part@ =~= s@.subrange(start as int, j as int));
        }
        let ghost before_r = Seq::new(r@.len(), |q: int| r@[q]@);
        if i < s.len() {
            proof {
                assert(s@.skip(i + 1) =~= rest.skip(k + 1));
                assert(part@ =~= rest.take(k));
                assert(split(rest, c) == seq![part@] + split(s@.skip(i + 1), c));
            }
            r.push(part);
            proof {
                assert(Seq::new(r@.len(), |q: int| r@[q]@) =~= before_r + seq![part@]);
            }
            start = i + 1;
        } else {
            proof {
                assert(part@ =~= rest);
                assert(split(rest, c) == seq![rest]);
            }
            r.push(part);
            proof {
                assert(Seq::new(r@.len(), |q: int| r@[q]@) =~= before_r + seq![part@]);
            }
            return r;
        }
    }
}

/// `s` with every space replaced by `_`.
pub open spec fn underscored(s: Seq<char>) -> Seq<char> {
    Seq::new(s.len(), |i: int| if s[i] == ' ' { '_' } else { s[i] })
}

/// Which sitelink a Wikipedia article URL names, or the message of the input error:
/// the URL must parse, use http(s), have a `<lang>.wikipedia.org` host, and name an
/// article by `/wiki/<title>` or `/w/index.php?title=<title>`.
pub open spec fn wikipedia_ref_of(input: Seq<char>) -> Result<(Seq<char>, Seq<char>), Seq<char>> {
    let raw = trim(input);
    if raw.len() == 0 {
        Err("wikipedia URL must not be empty"@)
    } else {
        wikipedia_ref_from(raw, url_parse_result(raw))
    }
}

/// A URL is accepted only when it parses with an `http` or `https` scheme and a host of
/// at least three dot-separated labels (compared in lower case) ending in
/// `wikipedia.org`, whose first label names the wiki; the article title is not empty.
pub proof fn lemma_accepted_url_is_wikipedia(input: Seq<char>)
    ensures
        wikipedia_ref_of(input) matches Ok((site, title)) ==> {
            &&& url_parse_result(trim(input)) matches Ok(u)
            &&& (u.scheme == "http"@ || u.scheme == "https"@)
            &&& u.host matches Some(h)
            &&& {
                let parts = split(ascii_lower(h), '.');
                &&& parts.len() >= 3
                &&& parts[parts.len() - 2] == "wikipedia"@
                &&& parts[parts.len() - 1] == "org"@
                &&& parts[0].len() > 0
                &&& site == parts[0] + "wiki"@
            }
            &&& title.len() > 0
        },
{
    let raw = trim(input);
    if raw.len() > 0 {
        match url_parse_result(raw) {
            Ok(u) => {
                if let Some(h) = u.host {
                    let title = trim(wiki_title(u));
                    assert(underscored(title).len() == title.len());
                }
            },
            Err(_) => {},
        }
    }
}

/// The sitelink named by the trimmed URL text `raw`, given what parsing it gave.
pub open spec fn wikipedia_ref_from(raw: Seq<char>, parsed: Result<UrlPartsView, Seq<char>>) -> Result<(Seq<char>, Seq<char>), Seq<char>> {
    match parsed {
        Err(e) => Err("invalid URL: "@ + raw + " ("@ + e + ")"@),
        Ok(u) => if u.scheme != "http"@ && u.scheme != "https"@ {
            Err("unsupported URL scheme: "@ + u.scheme)
        } else {
            match u.host {
                None => Err("missing host"@),
                Some(h) => {
                    let host = ascii_lower(h);
                    let parts = split(host, '.');
                    if parts.len() < 3 || parts[parts.len() - 2] != "wikipedia"@ || parts[parts.len() - 1] != "org"@ {
                        Err("unsupported host (expected *.wikipedia.org): "@ + host)
                    } else if parts[0].len() == 0 {
                        Err("invalid wikipedia host: "@ + host)
                    } else {
                        let title = trim(wiki_title(u));
                        if title.len() == 0 {
                            Err("could not extract article title from URL"@)
                        } else {
                            Ok((parts[0] + "wiki"@, underscored(title)))
                        }
                    }
                },
            }
        },
    }
}

/// A URL parse result by its view.
pub open spec fn url_result_view(r: Result<UrlParts, String>) -> Result<UrlPartsView, Seq<char>> {
    match r {
        Ok(p) => Ok(p@),
        Err(e) => Err(e@),
    }
}

/// The article title a Wikipedia URL carries, before trimming.
pub open spec fn wiki_title(u: UrlPartsView) -> Seq<char> {
    if u.path.len() >= 6 && u.path.take(6) == "/wiki/"@ {
        decoded_component(u.path.skip(6))
    } else if u.path == "/w/index.php"@ {
        match first_value(u.query_pairs, "title"@) {
            Some(v) => decoded_component(v),
            None => Seq::empty(),
        }
    } else {
        Seq::empty()
    }
}

fn invalid(msg: String) -> (e: WikidataError)
    ensures
        e matches WikidataError::InvalidInput(m) && m@ == msg@,
{
    WikidataError::InvalidInput(msg)
}

fn starts_with_wiki(path: &Vec<char>) -> (r: bool)
    ensures
        r == (path@.len() >= 6 && path@.take(6) == "/wiki/"@),
{
    proof {
        reveal_strlit("/wiki/");
        assert("/wiki/"@ =~= seq!['/', 'w', 'i', 'k', 'i', '/']);
    }
    if path.len() < 6 {
        return false;
    }
    let r = path[0] == '/' && path[1] == 'w' && path[2] == 'i' && path[3] == 'k' && path[4] == 'i' && path[5] == '/';
    proof {
        if r {
            assert(path@.take(6) =~= "/wiki/"@);
        } else {
            if path@.take(6) == "/wiki/"@ {
                assert(path@.take(6)[0] == path@[0]);
                assert(path@.take(6)[1] == path@[1]);
                assert(path@.take(6)[2] == path@[2]);
                assert(path@.take(6)[3] == path@[3]);
                assert(path@.take(6)[4] == path@[4]);
                assert(path@.take(6)[5] == path@[5]);
            }
        }
    }
    r
}

/// Parses a Wikipedia article URL (`https://ja.wikipedia.org/wiki/漢`,
/// `https://ja.wikipedia.org/w/index.php?title=漢`) into sitelink parameters; spaces in
/// the title become underscores.
pub fn parse_wikipedia_url(input: &str) -> (r: Result<WikipediaPageRef, WikidataError>)
    ensures
        match wikipedia_ref_of(input@) {
            Ok((site, title)) => r matches Ok(p) && p.site@ == site && p.title@ == title,
            Err(msg) => r matches Err(WikidataError::InvalidInput(m)) && m@ == msg,
        },
{
    let raw_chars = trim_chars(input);
    if raw_chars.len() == 0 {
        return Err(invalid(String::from_str("wikipedia URL must not be empty")));
    }
    let raw = string_from_chars(raw_chars.as_slice());
    let parsed = parse_url(raw.as_str());
    wikipedia_ref_from_url_parts(raw.as_str(), parsed)
}

/// The sitelink named by the trimmed URL text `raw`, from what `url::Url::parse` made
/// of it (see [`wikipedia_ref_from`]).
pub fn wikipedia_ref_from_url_parts(raw: &str, parsed: Result<UrlParts, String>) -> (r: Result<WikipediaPageRef, WikidataError>)
    ensures
        match wikipedia_ref_from(raw@, url_result_view(parsed)) {
            Ok((site, title)) => r matches Ok(p) && p.site@ == site && p.title@ == title,
            Err(msg) => r matches Err(WikidataError::InvalidInput(m)) && m@ == msg,
        },
{
    let u = match parsed {
        Ok(u) => u,
        Err(e) => {
            let mut msg = String::from_str("invalid URL: ");
            push_str(&mut msg, raw);
            push_str(&mut msg, " (");
            push_str(&mut msg, e.as_str());
            push_str(&mut msg, ")");
            return Err(invalid(msg));
        },
    };
    if !str_eq(u.scheme.as_str(), "http") && !str_eq(u.scheme.as_str(), "https") {
        let mut msg = String::from_str("unsupported URL scheme: ");
        push_str(&mut msg, u.scheme.as_str());
        return Err(invalid(msg));
    }
    let h = match &u.host {
        Some(h) => h,
        None => return Err(invalid(String::from_str("missing host"))),
    };
    let host = to_ascii_lower(&chars_of(h.as_str()));
    let host_s = string_from_chars(host.as_slice());
    let parts = split_chars(&host, '.');
    let ghost pv = Seq::new(parts@.len(), |i: int| parts@[i]@);
    let n = parts.len();
    if n < 3 || !str_eq(string_from_chars(parts[n - 2].as_slice()).as_str(), "wikipedia")
        || !str_eq(string_from_chars(parts[n - 1].as_slice()).as_str(), "org") {
        proof {
            if n >= 3 {
                assert(pv[n - 2] == parts@[n - 2]@);
                assert(pv[n - 1] == parts@[n - 1]@);
            }
        }
        let mut msg = String::from_str("unsupported host (expected *.wikipedia.org): ");
        push_str(&mut msg, host_s.as_str());
        return Err(invalid(msg));
    }
    assert(pv[0] == parts@[0]@);
    if parts[0].len() == 0 {
        let mut msg = String::from_str("invalid wikipedia host: ");
        push_str(&mut msg, host_s.as_str());
        return Err(invalid(msg));
    }
    let mut site = string_from_chars(parts[0].as_slice());
    push_str(&mut site, "wiki");
    let path = chars_of(u.path.as_str());
    let title0 = if starts_with_wiki(&path) {
        let mut rest: Vec<char> = Vec::new();
        let mut k: usize = 6;
        while k < path.len()
            invariant
                6 <= k <= path.len(),
                rest@ == path@.subrange(6, k as int),
            decreases path.len() - k,
        {
            rest.push(path[k]);
            k = k + 1;
            assert(rest@ =~= path@.subrange(6, k as int));
        }
        assert(rest@ =~= path@.skip(6));
        decode_url_component(string_from_chars(rest.as_slice()).as_str())
    } else if str_eq(u.path.as_str(), "/w/index.php") {
        match find_value(&u.query_pairs, "title") {
            Some(v) => decode_url_component(v.as_str()),
            None => String::new(),
        }
    } else {
        String::new()
    };
    assert(title0@ == wiki_title(u@));
    let t = trim_chars(title0.as_str());
    if t.len() == 0 {
        return Err(invalid(String::from_str("could not extract article title from URL")));
    }
    let mut title_chars: Vec<char> = Vec::new();
    let mut i: usize = 0;
    while i < t.len()
        invariant
            i <= t.len(),
            title_chars.len() == i,
            forall|j: int| 0 <= j < i ==> #[trigger] title_chars@[j] == underscored(t@)[j],
        decreases t.len() - i,
    {
        title_chars.push(if t[i] == ' ' { '_' } else { t[i] });
        i = i + 1;
    }
    assert(title_chars@ =~= underscored(t@));
    Ok(WikipediaPageRef { site, title: string_from_chars(title_chars.as_slice()) })
}

/// Whether `s` starts with `Q`.
pub open spec fn is_item_id(s: Seq<char>) -> bool {
    s.len() > 0 && s[0] == 'Q'
}

fn starts_with_q(s: &str) -> (r: bool)
    ensures
        r == is_item_id(s@),
{
    s.unicode_len() > 0 && s.get_char(0) == 'Q'
}

/// Picks the first entity (in the order given) whose id is an item id (`Q…`); the
/// error names what was looked up.
pub fn first_entity(entities: Vec<WikidataEntity>, key_hint: &str) -> (r: Result<WikidataEntity, WikidataError>)
    ensures
        (exists|k: int| 0 <= k < entities.len() && is_item_id(#[trigger] entities@[k].id@)) ==> (r matches Ok(e)
            && exists|k: int| 0 <= k < entities.len() && #[trigger] entities@[k] == e && is_item_id(e.id@)
                && forall|j: int| 0 <= j < k ==> !is_item_id(#[trigger] entities@[j].id@)),
        !(exists|k: int| 0 <= k < entities.len() && is_item_id(#[trigger] entities@[k].id@)) ==> (r matches Err(WikidataError::NotFound(h)) && h@ == key_hint@),
{
    let ghost all = entities@;
    let mut list = entities;
    let mut k: usize = 0;
    while k < list.len()
        invariant
            k <= list.len(),
            list@ == all,
            all == entities@,
            forall|j: int| 0 <= j < k ==> !is_item_id(#[trigger] all[j].id@),
        decreases list.len() - k,
    {
        if starts_with_q(list[k].id.as_str()) {
            let e = list.remove(k);
            assert(all[k as int] == e);
            assert(is_item_id(all[k as int].id@));
            return Ok(e);
        }
        k = k + 1;
    }
    Err(WikidataError::NotFound(String::from_str(key_hint)))
}

/// The result limit sent to entity search: the requested limit clamped to 1..=50.
pub fn search_limit(limit: usize) -> (r: usize)
    ensures
        r == if limit < 1 { 1 } else if limit > 50 { 50 } else { limit },
{
    if limit < 1 { 1 } else if limit > 50 { 50 } else { limit }
}

/// The text of the clamped search limit, as sent in the query.
pub fn search_limit_text(limit: usize) -> (s: String)
    ensures
        s@ == nat_digits((if limit < 1 { 1 } else if limit > 50 { 50 } else { limit }) as nat),
{
    let mut s = String::new();
    push_nat(&mut s, search_limit(limit) as u64);
    assert(s@ =~= nat_digits((if limit < 1 { 1 } else if limit > 50 { 50 } else { limit }) as nat));
    s
}

/// The part of `s` after its last `/` (all of `s` when it has none).
pub open spec fn last_segment(s: Seq<char>) -> Seq<char>
    decreases s.len(),
{
    if s.len() == 0 {
        Seq::empty()
    } else if s.last() == '/' {
        Seq::empty()
    } else {
        last_segment(s.drop_last()).push(s.last())
    }
}

/// Whether `s` starts with `p`.
pub open spec fn has_prefix(s: Seq<char>, p: Seq<char>) -> bool {
    p.len() <= s.len() && s.take(p.len() as int) == p
}

/// The entity a SPARQL result row names: its `item` binding, else the first binding that
/// is a Wikidata item URI; the item id is the URI's last segment, if it starts with `Q`.
pub open spec fn row_qid(row: Seq<(Seq<char>, Seq<char>)>) -> Option<Seq<char>> {
    let value = match first_value(row, "item"@) {
        Some(v) => Some(v),
        None => first_with_prefix(row, "http://www.wikidata.org/entity/Q"@),
    };
    match value {
        Some(v) => if is_item_id(last_segment(v)) { Some(last_segment(v)) } else { None },
        None => None,
    }
}

/// The first value of `row` that starts with `p`.
pub open spec fn first_with_prefix(row: Seq<(Seq<char>, Seq<char>)>, p: Seq<char>) -> Option<Seq<char>>
    decreases row.len(),
{
    if row.len() == 0 {
        None
    } else if has_prefix(row[0].1, p) {
        Some(row[0].1)
    } else {
        first_with_prefix(row.drop_first(), p)
    }
}

fn str_has_prefix(s: &str, p: &str) -> (r: bool)
    ensures
        r == has_prefix(s@, p@),
{
    let n = p.unicode_len();
    if n > s.unicode_len() {
        return false;
    }
    let mut i: usize = 0;
    while i < n
        invariant
            i <= n,
            n == p@.len(),
            n <= s@.len(),
            forall|j: int| 0 <= j < i ==> s@[j] == p@[j],
        decreases n - i,
    {
        if s.get_char(i) != p.get_char(i) {
            assert(s@.take(n as int)[i as int] != p@[i as int]);
            return false;
        }
        i = i + 1;
    }
    assert(s@.take(n as int) =~= p@);
    true
}

fn last_segment_of(s: &str) -> (r: Vec<char>)
    ensures
        r@ == last_segment(s@),
{
    let v = chars_of(s);
    let mut start = v.len();
    assert(v@.take(start as int) =~= v@);
    assert(v@.skip(start as int) =~= Seq::<char>::empty());
    assert(last_segment(v@) + Seq::<char>::empty() =~= last_segment(v@));
    while start > 0 && v[start - 1] != '/'
        invariant
            start <= v.len(),
            last_segment(v@) == last_segment(v@.take(start as int)) + v@.skip(start as int),
        decreases start,
    {
        proof {
            assert(v@.take(start as int).drop_last() =~= v@.take(start - 1));
            assert(v@.skip(start - 1) =~= seq![v@[start - 1]] + v@.skip(start as int));
            assert(last_segment(v@.take(start as int)) =~= last_segment(v@.take(start - 1)).push(v@[start - 1]));
        }
        start = start - 1;
    }
    proof {
        if start > 0 {
            assert(v@.take(start as int).last() == '/');
        }
        assert(last_segment(v@.take(start as int)) =~= Seq::<char>::empty());
    }
    let mut r: Vec<char> = Vec::new();
    let mut k = start;
    while k < v.len()
        invariant
            start <= k <= v.len(),
            r@ == v@.subrange(start as int, k as int),
        decreases v.len() - k,
    {
        r.push(v[k]);
        k = k + 1;
        assert(r@ =~= v@.subrange(start as int, k as int));
    }
    assert(r@ =~= v@.skip(start as int));
    r
}

fn first_prefixed<'a>(row: &'a Vec<(String, String)>, prefix: &str) -> (r: Option<&'a String>)
    ensures
        match r {
            Some(v) => first_with_prefix(pairs_view(row@), prefix@) == Some(v@),
            None => first_with_prefix(pairs_view(row@), prefix@) is None,
        },
{
    let ghost pv = pairs_view(row@);
    let mut i: usize = 0;
    assert(pv.skip(0) =~= pv);
    while i < row.len()
        invariant
            i <= row.len(),
            pv == pairs_view(row@),
            first_with_prefix(pv, prefix@) == first_with_prefix(pv.skip(i as int), prefix@),
        decreases row.len() - i,
    {
        assert(pv.skip(i as int)[0] == (row@[i as int].0@, row@[i as int].1@));
        if str_has_prefix(row[i].1.as_str(), prefix) {
            return Some(&row[i].1);
        }
        assert(pv.skip(i as int).drop_first() =~= pv.skip(i + 1));
        i = i + 1;
    }
    None
}

/// The item id a SPARQL result row names (see [`row_qid`]).
pub fn qid_from_row(row: &Vec<(String, String)>) -> (r: Option<String>)
    ensures
        match r {
            Some(q) => row_qid(pairs_view(row@)) == Some(q@),
            None => row_qid(pairs_view(row@)) is None,
        },
{
    let ghost pv = pairs_view(row@);
    let value: Option<&String> = match find_value(row, "item") {
        Some(v) => Some(v),
        None => first_prefixed(row, "http://www.wikidata.org/entity/Q"),
    };
    match value {
        Some(v) => {
            let seg = last_segment_of(v.as_str());
            if seg.len() > 0 && seg[0] == 'Q' {
                Some(string_from_chars(seg.as_slice()))
            } else {
                None
            }
        },
        None => None,
    }
}

/// The item ids named by SPARQL result rows, in row order (rows naming none are skipped).
pub fn qids_from_rows(rows: &Vec<Vec<(String, String)>>) -> (r: Vec<String>)
    ensures
        Seq::new(r@.len(), |i: int| r@[i]@) == qids_spec(Seq::new(rows@.len(), |i: int| pairs_view(rows@[i]@))),
{
    let ghost rv = Seq::new(rows@.len(), |i: int| pairs_view(rows@[i]@));
    let mut r: Vec<String> = Vec::new();
    let mut i: usize = 0;
    while i < rows.len()
        invariant
            i <= rows.len(),
            rv == Seq::new(rows@.len(), |i: int| pairs_view(rows@[i]@)),
            Seq::new(r@.len(), |k: int| r@[k]@) == qids_spec(rv.take(i as int)),
        decreases rows.len() - i,
    {
        let ghost before = Seq::new(r@.len(), |k: int| r@[k]@);
        match qid_from_row(&rows[i]) {
            Some(q) => r.push(q),
            None => {},
        }
        proof {
            assert(rv.take(i + 1).drop_last() =~= rv.take(i as int));
            assert(rv.take(i + 1).last() == pairs_view(rows@[i as int]@));
            assert(Seq::new(r@.len(), |k: int| r@[k]@) =~= qids_spec(rv.take(i + 1)));
        }
        i = i + 1;
    }
    assert(rv.take(rows.len() as int) =~= rv);
    r
}

/// The item ids of the rows that name one, in order.
pub open spec fn qids_spec(rows: Seq<Seq<(Seq<char>, Seq<char>)>>) -> Seq<Seq<char>>
    decreases rows.len(),
{
    if rows.len() == 0 {
        Seq::empty()
    } else {
        let rest = qids_spec(rows.drop_last());
        match row_qid(rows.last()) {
            Some(q) => rest.push(q),
            None => rest,
        }
    }
}

/// A key lookup gives the value of the earliest pair with the key; with no such pair it
/// gives nothing.
pub proof fn lemma_first_value_earliest_pair(pairs: Seq<(Seq<char>, Seq<char>)>, key: Seq<char>, k: int)
    requires
        0 <= k <= pairs.len(),
        forall|j: int| 0 <= j < k ==> (#[trigger] pairs[j]).0 != key,
        k < pairs.len() ==> pairs[k].0 == key,
    ensures
        k < pairs.len() ==> first_value(pairs, key) == Some(pairs[k].1),
        k == pairs.len() ==> first_value(pairs, key) is None,
    decreases k,
{
    if k > 0 {
        let rest = pairs.drop_first();
        assert forall|j: int| 0 <= j < k - 1 implies (#[trigger] rest[j]).0 != key by {
            assert(rest[j] == pairs[j + 1]);
        }
        assert(pairs[0].0 != key);
        lemma_first_value_earliest_pair(rest, key, k - 1);
        if k < pairs.len() {
            assert(rest[k - 1] == pairs[k]);
        }
    }
}

/// The prefixed value of a row is the earliest value with the prefix; with none there
/// is none.
pub proof fn lemma_first_with_prefix_earliest(row: Seq<(Seq<char>, Seq<char>)>, p: Seq<char>, k: int)
    requires
        0 <= k <= row.len(),
        forall|j: int| 0 <= j < k ==> !has_prefix(#[trigger] row[j].1, p),
        k < row.len() ==> has_prefix(row[k].1, p),
    ensures
        k < row.len() ==> first_with_prefix(row, p) == Some(row[k].1),
        k == row.len() ==> first_with_prefix(row, p) is None,
    decreases k,
{
    if k > 0 {
        let rest = row.drop_first();
        assert forall|j: int| 0 <= j < k - 1 implies !has_prefix(#[trigger] rest[j].1, p) by {
            assert(rest[j] == row[j + 1]);
        }
        assert(!has_prefix(row[0].1, p));
        lemma_first_with_prefix_earliest(rest, p, k - 1);
        if k < row.len() {
            assert(rest[k - 1] == row[k]);
        }
    }
}

/// The item ids of a SPARQL answer are, in row order, the ids of the rows at the
/// positions `idx`, and `idx` lists exactly the rows that carry an item id.
pub open spec fn qids_at(rows: Seq<Seq<(Seq<char>, Seq<char>)>>, idx: Seq<int>) -> bool {
    &&& crate::time_range::selects(idx, rows.len() as int, |i: int| row_qid(rows[i]) is Some)
    &&& qids_spec(rows).len() == idx.len()
    &&& forall|k: int| 0 <= k < idx.len() ==> qids_spec(rows)[k] == row_qid(rows[#[trigger] idx[k]]).unwrap()
}

/// A SPARQL answer gives, in row order, one item id for each row that carries one and
/// nothing for the other rows.
pub proof fn lemma_qids_in_row_order(rows: Seq<Seq<(Seq<char>, Seq<char>)>>)
    ensures
        exists|idx: Seq<int>| #[trigger] qids_at(rows, idx),
    decreases rows.len(),
{
    let all = qids_spec(rows);
    let p = |i: int| row_qid(rows[i]) is Some;
    if rows.len() == 0 {
        let idx = Seq::<int>::empty();
        assert(qids_at(rows, idx));
    } else {
        let init = rows.drop_last();
        let n = init.len() as int;
        lemma_qids_in_row_order(init);
        let r = qids_spec(init);
        let idx0 = choose|idx: Seq<int>| #[trigger] qids_at(init, idx);
        assert(crate::time_range::selects(idx0, n, p)) by {
            assert forall|k: int| 0 <= k < idx0.len() implies 0 <= #[trigger] idx0[k] < n && p(idx0[k]) by {
                assert(init[idx0[k]] == rows[idx0[k]]);
                assert((|i: int| row_qid(init[i]) is Some)(idx0[k]));
            }
            assert forall|i: int| 0 <= i < n && #[trigger] p(i) implies exists|k: int| 0 <= k < idx0.len() && idx0[k] == i by {
                assert(init[i] == rows[i]);
                assert((|i: int| row_qid(init[i]) is Some)(i));
            }
        }
        crate::time_range::lemma_selects_extend(idx0, n, p);
        assert(rows.last() == rows[n]);
        let idx = if p(n) { idx0.push(n) } else { idx0 };
        if p(n) {
            assert(all == r.push(row_qid(rows[n]).unwrap()));
        } else {
            assert(all == r);
        }
        assert forall|k: int| 0 <= k < idx.len() implies all[k] == row_qid(rows[#[trigger] idx[k]]).unwrap() by {
            if k < idx0.len() {
                assert(init[idx0[k]] == rows[idx0[k]]);
                assert(all[k] == r[k]);
            }
        }
        assert(qids_at(rows, idx));
    }
}

/// What happened to one request.
#[derive(Debug, Clone, Copy, PartialEq, Eq, Structural)]
pub enum RequestOutcome {
    /// No response: the transport failed (timed out, could not connect, or otherwise).
    TransportError { is_timeout: bool, is_connect: bool },
    /// A response with this status and, for 429, the `Retry-After` seconds if given.
    Response { status: u16, retry_after: Option<u64> },
}

/// Why the client gives up.
#[derive(Debug, Clone, Copy, PartialEq, Eq, Structural)]
pub enum RequestFailure {
    /// The request timed out.
    Timeout,
    /// The transport failed; the caller reports the transport error.
    Transport,
    /// HTTP 429 and no retries left.
    RateLimit,
    /// HTTP 429 asking to wait longer than [`MAX_RETRY_AFTER_SECS`].
    RetryAfterTooLong { requested_secs: u64, max_secs: u64 },
    /// Another error status; the caller reports it.
    Status,
}

/// What the client does next.
#[derive(Debug, Clone, Copy, PartialEq, Eq, Structural)]
pub enum RetryAction {
    /// Hand the successful response to the caller.
    Accept,
    /// Sleep this many seconds, then send the request again.
    Retry { wait_secs: u64 },
    /// Give up.
    Fail(RequestFailure),
}

/// `2^n`.
pub open spec fn two_pow(n: nat) -> nat {
    vstd::arithmetic::power2::pow2(n)
}

/// The exponential backoff before retry number `attempt + 1`: `2^attempt` seconds.
pub fn backoff_secs(attempt: u32) -> (s: u64)
    requires
        attempt < 64,
    ensures
        s == two_pow(attempt as nat),
{
    let sh = attempt as u64;
    proof {
        vstd::bits::lemma_u64_pow2_no_overflow(sh as nat);
        vstd::bits::lemma_u64_shl_is_mul(1, sh);
    }
    1u64 << sh
}

/// The retry policy as a transition: what to do after attempt number `attempt`
/// (counting from 0) had `outcome`.
pub open spec fn retry_decision(attempt: u32, max_retries: u32, outcome: RequestOutcome) -> RetryAction {
    match outcome {
        RequestOutcome::TransportError { is_timeout, is_connect } =>
            if is_timeout {
                RetryAction::Fail(RequestFailure::Timeout)
            } else if attempt < max_retries && is_connect {
                RetryAction::Retry { wait_secs: two_pow(attempt as nat) as u64 }
            } else {
                RetryAction::Fail(RequestFailure::Transport)
            },
        RequestOutcome::Response { status, retry_after } =>
            if 200 <= status <= 299 {
                RetryAction::Accept
            } else if status == 429 {
                if attempt >= max_retries {
                    RetryAction::Fail(RequestFailure::RateLimit)
                } else {
                    match retry_after {
                        Some(secs) => if secs > MAX_RETRY_AFTER_SECS {
                            RetryAction::Fail(RequestFailure::RetryAfterTooLong { requested_secs: secs, max_secs: MAX_RETRY_AFTER_SECS })
                        } else {
                            RetryAction::Retry { wait_secs: secs }
                        },
                        None => RetryAction::Retry { wait_secs: two_pow(attempt as nat) as u64 },
                    }
                }
            } else if 500 <= status <= 599 && attempt < max_retries {
                RetryAction::Retry { wait_secs: two_pow(attempt as nat) as u64 }
            } else {
                RetryAction::Fail(RequestFailure::Status)
            },
    }
}

/// Decides what to do after a request: accept a success, retry transient failures
/// (connection errors, 429, 5xx) with exponential backoff or the server's `Retry-After`
/// while retries remain, and otherwise fail.
pub fn decide_retry(attempt: u32, max_retries: u32, outcome: RequestOutcome) -> (a: RetryAction)
    requires
        max_retries <= 64,
    ensures
        a == retry_decision(attempt, max_retries, outcome),
{
    match outcome {
        RequestOutcome::TransportError { is_timeout, is_connect } => {
            if is_timeout {
                RetryAction::Fail(RequestFailure::Timeout)
            } else if attempt < max_retries && is_connect {
                RetryAction::Retry { wait_secs: backoff_secs(attempt) }
            } else {
                RetryAction::Fail(RequestFailure::Transport)
            }
        },
        RequestOutcome::Response { status, retry_after } => {
            if 200 <= status && status <= 299 {
                RetryAction::Accept
            } else if status == 429 {
                if attempt >= max_retries {
                    RetryAction::Fail(RequestFailure::RateLimit)
                } else {
                    match retry_after {
                        Some(secs) => if secs > MAX_RETRY_AFTER_SECS {
                            RetryAction::Fail(RequestFailure::RetryAfterTooLong { requested_secs: secs, max_secs: MAX_RETRY_AFTER_SECS })
                        } else {
                            RetryAction::Retry { wait_secs: secs }
                        },
                        None => RetryAction::Retry { wait_secs: backoff_secs(attempt) },
                    }
                }
            } else if 500 <= status && status <= 599 && attempt < max_retries {
                RetryAction::Retry { wait_secs: backoff_secs(attempt) }
            } else {
                RetryAction::Fail(RequestFailure::Status)
            }
        },
    }
}

/// A retry is only ever decided while retries remain, and it never waits longer than
/// [`MAX_RETRY_AFTER_SECS`] or the exponential backoff: a request is sent at most
/// `max_retries + 1` times.
pub proof fn lemma_retry_bounded(attempt: u32, max_retries: u32, outcome: RequestOutcome)
    requires
        max_retries <= 64,
    ensures
        retry_decision(attempt, max_retries, outcome) matches RetryAction::Retry { wait_secs } ==> attempt < max_retries
            && (wait_secs <= MAX_RETRY_AFTER_SECS || wait_secs == two_pow(attempt as nat)),
{
    if attempt < max_retries {
        vstd::bits::lemma_u64_pow2_no_overflow(attempt as nat);
    }
}

/// How many requests a client following [`retry_decision`] sends when request number
/// `k` (counting from `attempt`) has outcome `outcomes[k]`: it stops at the first
/// outcome that is not retried, or when the outcomes run out.
pub open spec fn requests_sent(outcomes: Seq<RequestOutcome>, attempt: nat, max_retries: u32) -> nat
    decreases outcomes.len() - attempt,
{
    if attempt >= outcomes.len() || attempt > u32::MAX {
        0
    } else {
        match retry_decision(attempt as u32, max_retries, outcomes[attempt as int]) {
            RetryAction::Retry { .. } => 1 + requests_sent(outcomes, attempt + 1, max_retries),
            _ => 1,
        }
    }
}

proof fn lemma_requests_sent_from(outcomes: Seq<RequestOutcome>, attempt: nat, max_retries: u32)
    requires
        max_retries <= 64,
        attempt <= max_retries,
    ensures
        requests_sent(outcomes, attempt, max_retries) <= max_retries + 1 - attempt,
    decreases max_retries - attempt,
{
    if attempt < outcomes.len() {
        lemma_retry_bounded(attempt as u32, max_retries, outcomes[attempt as int]);
        if attempt < max_retries {
            lemma_requests_sent_from(outcomes, attempt + 1, max_retries);
        }
    }
}

/// Whatever the outcomes, a client following [`retry_decision`] from the first attempt
/// sends at most `max_retries + 1` requests.
pub proof fn lemma_at_most_max_retries_plus_one_requests(outcomes: Seq<RequestOutcome>, max_retries: u32)
    requires
        max_retries <= 64,
    ensures
        requests_sent(outcomes, 0, max_retries) <= max_retries + 1,
{
    lemma_requests_sent_from(outcomes, 0, max_retries);
}

/// The retry policy, outcome by outcome. With retries left (`attempt < max_retries`):
/// every server error (500 to 599) and every refused connection is retried after
/// `2^attempt` seconds; a 429 is retried after the server's `Retry-After` when that is at
/// most [`MAX_RETRY_AFTER_SECS`], fails when it is longer, and is retried after
/// `2^attempt` seconds without one. With no retries left these fail (server error and 429
/// by their status, connection errors as transport failures). A success (200 to 299) is
/// accepted, a timeout fails, and any other status fails at once.
pub proof fn lemma_retry_policy(attempt: u32, max_retries: u32, status: u16, retry_after: Option<u64>, is_connect: bool)
    requires
        max_retries <= 64,
    ensures
        ({
            let resp = RequestOutcome::Response { status, retry_after };
            let conn = RequestOutcome::TransportError { is_timeout: false, is_connect };
            let backoff = RetryAction::Retry { wait_secs: two_pow(attempt as nat) as u64 };
            &&& attempt < max_retries ==> two_pow(attempt as nat) <= u64::MAX
            &&& 200 <= status <= 299 ==> retry_decision(attempt, max_retries, resp) == RetryAction::Accept
            &&& 500 <= status <= 599 && attempt < max_retries ==> retry_decision(attempt, max_retries, resp) == backoff
            &&& 500 <= status <= 599 && attempt >= max_retries
                ==> retry_decision(attempt, max_retries, resp) == RetryAction::Fail(RequestFailure::Status)
            &&& status == 429 && attempt >= max_retries
                ==> retry_decision(attempt, max_retries, resp) == RetryAction::Fail(RequestFailure::RateLimit)
            &&& status == 429 && attempt < max_retries && retry_after is None
                ==> retry_decision(attempt, max_retries, resp) == backoff
            &&& status == 429 && attempt < max_retries && retry_after is Some && retry_after.unwrap() <= MAX_RETRY_AFTER_SECS
                ==> retry_decision(attempt, max_retries, resp) == RetryAction::Retry { wait_secs: retry_after.unwrap() }
            &&& status == 429 && attempt < max_retries && retry_after is Some && retry_after.unwrap() > MAX_RETRY_AFTER_SECS
                ==> retry_decision(attempt, max_retries, resp) == RetryAction::Fail(RequestFailure::RetryAfterTooLong {
                    requested_secs: retry_after.unwrap(), max_secs: MAX_RETRY_AFTER_SECS })
            &&& !(200 <= status <= 299) && status != 429 && !(500 <= status <= 599)
                ==> retry_decision(attempt, max_retries, resp) == RetryAction::Fail(RequestFailure::Status)
            &&& is_connect && attempt < max_retries ==> retry_decision(attempt, max_retries, conn) == backoff
            &&& !(is_connect && attempt < max_retries)
                ==> retry_decision(attempt, max_retries, conn) == RetryAction::Fail(RequestFailure::Transport)
        }),
{
    if attempt < max_retries {
        vstd::bits::lemma_u64_pow2_no_overflow(attempt as nat);
    }
}

/// A success is always accepted and a timeout always fails, whatever the attempt.
pub proof fn lemma_success_and_timeout_final(attempt: u32, max_retries: u32, status: u16, retry_after: Option<u64>, is_connect: bool)
    ensures
        200 <= status <= 299 ==> retry_decision(attempt, max_retries, RequestOutcome::Response { status, retry_after }) == RetryAction::Accept,
        retry_decision(attempt, max_retries, RequestOutcome::TransportError { is_timeout: true, is_connect })
            == RetryAction::Fail(RequestFailure::Timeout),
{
}

/// The `Retry-After` header as a whole number of seconds, if it is one (an HTTP date
/// gives `None`).
pub fn parse_retry_after(header: &str) -> (r: Option<u64>)
    ensures
        r == parse_u64_spec(header@),
{
    let v = chars_of(header);
    parse_u64(v.as_slice())
}

/// What `str::parse::<u64>` accepts: an optional `+`, then ASCII digits, in range.
pub open spec fn parse_u64_spec(s: Seq<char>) -> Option<u64> {
    let body = if s.len() > 0 && s[0] == '+' { s.drop_first() } else { s };
    if crate::wikidata::entity::all_digits(body) && crate::wikidata::entity::digits_value(body) <= u64::MAX {
        Some(crate::wikidata::entity::digits_value(body) as u64)
    } else {
        None
    }
}

fn parse_u64(s: &[char]) -> (r: Option<u64>)
    ensures
        r == parse_u64_spec(s@),
{
    let start: usize = if s.len() > 0 && s[0] == '+' { 1 } else { 0 };
    proof {
        assert(s@.skip(0) =~= s@);
        assert(s@.len() > 0 ==> s@.skip(1) =~= s@.drop_first());
    }
    crate::wikidata::entity::digits_up_to(s, start, u64::MAX)
}

/// `langs` joined by `sep`, as sent in a `languages` parameter or a cache key.
pub fn join_strs(langs: &[&str], sep: &str) -> (s: String)
    ensures
        s@ == crate::format::join(crate::wikidata::entity::strs(langs@), sep@),
{
    let ghost lv = crate::wikidata::entity::strs(langs@);
    let mut s = String::new();
    let mut i: usize = 0;
    while i < langs.len()
        invariant
            i <= langs.len(),
            lv == crate::wikidata::entity::strs(langs@),
            s@ == crate::format::join(lv.take(i as int), sep@),
        decreases langs.len() - i,
    {
        let ghost before = lv.take(i as int);
        if i > 0 {
            push_str(&mut s, sep);
        }
        push_str(&mut s, langs[i]);
        i = i + 1;
        proof {
            let now = lv.take(i as int);
            assert(now.drop_last() =~= before);
            assert(now.last() == langs@[i - 1]@);
            assert(s@ =~= crate::format::join(now, sep@));
        }
    }
    assert(lv.take(langs.len() as int) =~= lv);
    s
}

/// The lookup key reported when no entity matches a sitelink: `site:title`.
pub fn sitelink_key(site: &str, title: &str) -> (s: String)
    ensures
        s@ == site@ + ":"@ + title@,
{
    let mut s = String::from_str(site);
    push_str(&mut s, ":");
    push_str(&mut s, title);
    s
}

} // verus!
