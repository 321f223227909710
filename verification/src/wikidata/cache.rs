//! The file cache in front of a Wikidata client: where entries live, when they are
//! fresh, and which files a clean-up removes. Reading and writing the files is the
//! caller's part.

use vstd::prelude::*;
use crate::text::{chars_of, push_str, push_char, string_from_chars};
use crate::wikidata::client::{join_strs, has_prefix};
use crate::wikidata::entity::strs;

verus! {

/// A filesystem path, carried through unchanged.
#[verifier::external_type_specification]
#[verifier::external_body]
pub struct ExPathBuf(std::path::PathBuf);

/// A point in time, carried through unchanged.
#[verifier::external_type_specification]
#[verifier::external_body]
pub struct ExSystemTime(std::time::SystemTime);

/// The path that `Path::join` makes of a directory and a relative file name.
pub uninterp spec fn joined_path(dir: std::path::PathBuf, name: Seq<char>) -> std::path::PathBuf;

/// Joins a file name onto a directory (`Path::join`).
///
/// Trusted: the contract only names the result as a function of the directory and
/// the name; nothing is claimed of what the path holds.
#[verifier::external_body]
fn join_path(dir: &std::path::PathBuf, name: &str) -> (r: std::path::PathBuf)
    ensures
        r == joined_path(*dir, name@),
{
    dir.join(name)
}

/// Cache behaviour.
#[derive(Debug, Clone, Copy)]
pub struct CacheOptions {
    /// Always ask the API, ignoring cached entries.
    pub no_cache: bool,
    /// How long an entry stays fresh: whole seconds.
    pub ttl_secs: u64,
    /// How long an entry stays fresh: the nanoseconds beyond `ttl_secs`.
    pub ttl_subsec_nanos: u32,
}

impl Default for CacheOptions {
    /// Caching on, entries fresh for 24 hours.
    fn default() -> (o: CacheOptions)
        ensures
            !o.no_cache && o.ttl_secs == 86400 && o.ttl_subsec_nanos == 0,
    {
        CacheOptions { no_cache: false, ttl_secs: 86400, ttl_subsec_nanos: 0 }
    }
}

/// Whether a cache entry of age `age` (seconds, nanoseconds) may be used: caching is on,
/// the time-to-live is not zero, and the entry is younger than it. An unknown age is
/// never fresh.
pub open spec fn fresh(opts: CacheOptions, age: Option<(u64, u32)>) -> bool {
    !opts.no_cache && !(opts.ttl_secs == 0 && opts.ttl_subsec_nanos == 0) && match age {
        Some((s, n)) => s < opts.ttl_secs || (s == opts.ttl_secs && n < opts.ttl_subsec_nanos),
        None => false,
    }
}

/// Decides whether a cache entry of the given age may be used (see [`fresh`]).
pub fn is_cache_fresh(opts: &CacheOptions, age: Option<(u64, u32)>) -> (r: bool)
    ensures
        r == fresh(*opts, age),
{
    if opts.no_cache || (opts.ttl_secs == 0 && opts.ttl_subsec_nanos == 0) {
        return false;
    }
    match age {
        Some((s, n)) => s < opts.ttl_secs || (s == opts.ttl_secs && n < opts.ttl_subsec_nanos),
        None => false,
    }
}

/// With the default options an entry stays usable for a day: one written less than
/// 24 hours ago is fresh, one 24 hours old or older is not.
pub proof fn lemma_default_entries_fresh_for_a_day(opts: CacheOptions, secs: u64, nanos: u32)
    requires
        !opts.no_cache && opts.ttl_secs == 86400 && opts.ttl_subsec_nanos == 0,
    ensures
        fresh(opts, Some((secs, nanos))) <==> secs < 86400,
{
}

/// A client with a file cache in front of it.
pub struct CachedWikidataClient<C> {
    pub inner: C,
    pub cache_dir: std::path::PathBuf,
    pub opts: CacheOptions,
}

/// The cache file name of an entity: `get_<qid>_<langs joined by ->.json`.
pub open spec fn entity_file_name(qid: Seq<char>, langs: Seq<Seq<char>>) -> Seq<char> {
    "get_"@ + qid + "_"@ + crate::format::join(langs, "-"@) + ".json"@
}

/// A title with the characters that file names cannot hold replaced by `_`.
pub open spec fn safe_title(title: Seq<char>) -> Seq<char> {
    Seq::new(title.len(), |i: int| if unsafe_in_file_name(title[i]) { '_' } else { title[i] })
}

pub open spec fn unsafe_in_file_name(c: char) -> bool {
    c == '/' || c == '\\' || c == ':' || c == '*' || c == '?' || c == '"' || c == '<' || c == '>'
        || c == '|' || c == ' '
}

/// The cache file name of a sitelink lookup: `sitelink_<site>_<safe title>_<langs>.json`.
pub open spec fn sitelink_file_name(site: Seq<char>, title: Seq<char>, langs: Seq<Seq<char>>) -> Seq<char> {
    "sitelink_"@ + site + "_"@ + safe_title(title) + "_"@ + crate::format::join(langs, "-"@) + ".json"@
}

/// Lookups of one entity whose language keys differ are cached in different files, so
/// a lookup in one set of languages never reads an entry fetched in another.
pub proof fn lemma_entity_file_names_distinct(qid: Seq<char>, a: Seq<Seq<char>>, b: Seq<Seq<char>>)
    requires
        crate::format::join(a, "-"@) != crate::format::join(b, "-"@),
    ensures
        entity_file_name(qid, a) != entity_file_name(qid, b),
{
    let ja = crate::format::join(a, "-"@);
    let jb = crate::format::join(b, "-"@);
    let p = "get_"@ + qid + "_"@;
    let fa = entity_file_name(qid, a);
    let fb = entity_file_name(qid, b);
    assert(fa == p + ja + ".json"@);
    assert(fb == p + jb + ".json"@);
    if fa == fb {
        assert(ja.len() == jb.len());
        assert(ja =~= fa.subrange(p.len() as int, (p.len() + ja.len()) as int));
        assert(jb =~= fb.subrange(p.len() as int, (p.len() + jb.len()) as int));
    }
}

/// The cache file name of an entity.
pub fn entity_cache_file_name(qid: &str, langs: &[&str]) -> (s: String)
    ensures
        s@ == entity_file_name(qid@, strs(langs@)),
{
    let key = join_strs(langs, "-");
    let mut s = String::from_str("get_");
    push_str(&mut s, qid);
    push_str(&mut s, "_");
    push_str(&mut s, key.as_str());
    push_str(&mut s, ".json");
    s
}

/// The cache file name of a sitelink lookup.
pub fn sitelink_cache_file_name(site: &str, title: &str, langs: &[&str]) -> (s: String)
    ensures
        s@ == sitelink_file_name(site@, title@, strs(langs@)),
{
    let key = join_strs(langs, "-");
    let t = chars_of(title);
    let mut safe: Vec<char> = Vec::new();
    let mut i: usize = 0;
    while i < t.len()
        invariant
            i <= t.len(),
            safe.len() == i,
            forall|j: int| 0 <= j < i ==> #[trigger] safe@[j] == safe_title(t@)[j],
        decreases t.len() - i,
    {
        let c = t[i];
        let bad = c == '/' || c == '\\' || c == ':' || c == '*' || c == '?' || c == '"' || c == '<' || c == '>'
            || c == '|' || c == ' ';
        safe.push(if bad { '_' } else { c });
        i = i + 1;
    }
    assert(safe@ =~= safe_title(title@));
    let mut s = String::from_str("sitelink_");
    push_str(&mut s, site);
    push_str(&mut s, "_");
    let st = string_from_chars(safe.as_slice());
    push_str(&mut s, st.as_str());
    push_str(&mut s, "_");
    push_str(&mut s, key.as_str());
    push_str(&mut s, ".json");
    s
}

impl<C> CachedWikidataClient<C> {
    /// A cached client whose cache lives in `cache_dir`.
    pub fn with_cache_dir(inner: C, opts: CacheOptions, cache_dir: std::path::PathBuf) -> (c: Self)
        ensures
            c.inner == inner,
            c.opts == opts,
            c.cache_dir == cache_dir,
    {
        CachedWikidataClient { inner, cache_dir, opts }
    }

    /// The cache file of an entity lookup: [`entity_cache_file_name`] in the cache directory.
    pub fn cache_path_for_entity(&self, qid: &str, langs: &[&str]) -> (p: std::path::PathBuf)
        ensures
            p == joined_path(self.cache_dir, entity_file_name(qid@, strs(langs@))),
    {
        let name = entity_cache_file_name(qid, langs);
        join_path(&self.cache_dir, name.as_str())
    }

    /// The cache file of a sitelink lookup: [`sitelink_cache_file_name`] in the cache
    /// directory.
    pub fn cache_path_for_sitelink(&self, site: &str, title: &str, langs: &[&str]) -> (p: std::path::PathBuf)
        ensures
            p == joined_path(self.cache_dir, sitelink_file_name(site@, title@, strs(langs@))),
    {
        let name = sitelink_cache_file_name(site, title, langs);
        join_path(&self.cache_dir, name.as_str())
    }
}

/// Statistics of the cache directory.
#[derive(Debug)]
pub struct CacheStatus {
    pub cache_dir: std::path::PathBuf,
    /// Number of cache files.
    pub file_count: usize,
    /// Total size of the cache files in bytes.
    pub total_bytes: u64,
    /// Modification time of the oldest file, when there is one.
    pub oldest: Option<std::time::SystemTime>,
    /// Modification time of the newest file, when there is one.
    pub newest: Option<std::time::SystemTime>,
}

/// Whether a file name is a cached entity of `qid` (`get_<qid>_….json`), whatever the
/// language key.
pub open spec fn is_entity_file_of(name: Seq<char>, qid: Seq<char>) -> bool {
    has_prefix(name, "get_"@ + qid + "_"@)
        && name.len() >= 5 && name.skip(name.len() - 5) == ".json"@
}

/// Whether a file name is a cached entity of `qid`.
pub fn is_entity_cache_file(name: &str, qid: &str) -> (r: bool)
    ensures
        r == is_entity_file_of(name@, qid@),
{
    let mut prefix = String::from_str("get_");
    push_str(&mut prefix, qid);
    push_str(&mut prefix, "_");
    let n = chars_of(name);
    let p = chars_of(prefix.as_str());
    if p.len() > n.len() {
        return false;
    }
    let mut i: usize = 0;
    while i < p.len()
        invariant
            i <= p.len(),
            p.len() <= n.len(),
            p@ == "get_"@ + qid@ + "_"@,
            n@ == name@,
            forall|j: int| 0 <= j < i ==> n@[j] == p@[j],
        decreases p.len() - i,
    {
        if n[i] != p[i] {
            assert(n@.take(p.len() as int)[i as int] != p@[i as int]);
            return false;
        }
        i = i + 1;
    }
    assert(n@.take(p.len() as int) =~= p@);
    if n.len() < 5 {
        return false;
    }
    let k = n.len() - 5;
    let ends = n[k] == '.' && n[k + 1] == 'j' && n[k + 2] == 's' && n[k + 3] == 'o' && n[k + 4] == 'n';
    proof {
        reveal_strlit(".json");
        assert(".json"@ =~= seq!['.', 'j', 's', 'o', 'n']);
        let t = n@.skip(k as int);
        if ends {
            assert(t =~= ".json"@);
        } else if t == ".json"@ {
            assert(t[0] == n@[k as int] && t[1] == n@[k + 1] && t[2] == n@[k + 2] && t[3] == n@[k + 3] && t[4] == n@[k + 4]);
        }
    }
    ends
}

/// Whether a cache clean-up removes a file: every file without an age limit, else files
/// at least `days` days old (a file of unknown age counts as new).
pub open spec fn clear_removes(older_than_days: Option<u64>, age_secs: Option<u64>) -> bool {
    match older_than_days {
        None => true,
        Some(d) => match age_secs {
            Some(a) => a >= d * 86400,
            None => 0 >= d * 86400,
        },
    }
}

/// A clean-up without an age limit removes every file; with a limit of `days` days it
/// removes exactly the files at least `days · 24 · 60 · 60` seconds old, and a file of
/// unknown age only when the limit is zero days.
pub proof fn lemma_clean_up_by_age(days: u64, age_secs: u64)
    ensures
        clear_removes(None, Some(age_secs)) && clear_removes(None, None),
        clear_removes(Some(days), Some(age_secs)) <==> age_secs >= days * 24 * 60 * 60,
        clear_removes(Some(days), None) <==> days == 0,
{
}

/// Decides whether a cache clean-up removes a file of the given age.
pub fn should_delete(older_than_days: Option<u64>, age_secs: Option<u64>) -> (r: bool)
    requires
        match older_than_days { Some(d) => d * 86400 <= u64::MAX, None => true },
    ensures
        r == clear_removes(older_than_days, age_secs),
{
    match older_than_days {
        None => true,
        Some(d) => {
            let min_age = d * 86400;
            match age_secs {
                Some(a) => a >= min_age,
                None => min_age == 0,
            }
        },
    }
}

} // verus!
