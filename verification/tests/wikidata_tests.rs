use tdsl::wikidata::cache::{
    entity_cache_file_name, is_cache_fresh, is_entity_cache_file, should_delete, sitelink_cache_file_name,
    CacheOptions, CachedWikidataClient,
};
use tdsl::wikidata::client::{
    backoff_secs, decide_retry, decode_url_component, first_entity, join_strs, parse_retry_after,
    parse_wikipedia_url, qid_from_row, qids_from_rows, search_limit, search_limit_text, sitelink_key,
    RequestFailure, RequestOutcome, RetryAction, WikipediaPageRef, DEFAULT_MAX_RETRIES, MAX_RETRY_AFTER_SECS,
    decoded_value, wikipedia_ref_from_url_parts, UrlParts,
};
use tdsl::wikidata::entity::{
    parse_i64, parse_u8, time_value_to_timepoint, time_value_to_year, DataValue, LabelValue, Snak, Statement,
    TimePoint, TimeValue, WikidataEntity,
};
use tdsl::wikidata::error::WikidataError;

fn make_time(time_str: &str) -> TimeValue {
    TimeValue { time: time_str.to_string(), precision: 9, calendarmodel: String::new() }
}

fn entity(id: &str) -> WikidataEntity {
    WikidataEntity { id: id.to_string(), labels: vec![], claims: vec![] }
}

#[test]
fn parse_positive_year() {
    let tv = make_time("+1868-01-01T00:00:00Z");
    assert_eq!(time_value_to_year(&tv).unwrap(), 1868);
}

#[test]
fn parse_negative_year() {
    let tv = make_time("-0206-01-01T00:00:00Z");
    assert_eq!(time_value_to_year(&tv).unwrap(), -206);
}

#[test]
fn parse_large_negative_year() {
    let tv = make_time("-13798000000-01-01T00:00:00Z");
    assert_eq!(time_value_to_year(&tv).unwrap(), -13798000000);
}

#[test]
fn parse_year_zero() {
    let tv = make_time("+0000-01-01T00:00:00Z");
    assert_eq!(time_value_to_year(&tv).unwrap(), 0);
}

#[test]
fn parse_year_one_bce() {
    let tv = make_time("-0001-01-01T00:00:00Z");
    assert_eq!(time_value_to_year(&tv).unwrap(), -1);
}

#[test]
fn parse_time_precision_century() {
    let tv = TimeValue { time: "+1900-01-01T00:00:00Z".to_string(), precision: 7, calendarmodel: String::new() };
    assert_eq!(time_value_to_year(&tv).unwrap(), 1900);
}

#[test]
fn parse_time_precision_decade() {
    let tv = TimeValue { time: "+1940-01-01T00:00:00Z".to_string(), precision: 8, calendarmodel: String::new() };
    assert_eq!(time_value_to_year(&tv).unwrap(), 1940);
}

#[test]
fn parse_time_precision_millennium() {
    let tv = TimeValue { time: "+1000-01-01T00:00:00Z".to_string(), precision: 6, calendarmodel: String::new() };
    assert_eq!(time_value_to_year(&tv).unwrap(), 1000);
}

#[test]
fn parse_time_precision_day() {
    let tv = TimeValue { time: "+1868-01-03T00:00:00Z".to_string(), precision: 11, calendarmodel: String::new() };
    assert_eq!(time_value_to_year(&tv).unwrap(), 1868);
}

#[test]
fn parse_time_without_sign_prefix() {
    let tv = TimeValue { time: "1868-01-01T00:00:00Z".to_string(), precision: 9, calendarmodel: String::new() };
    assert_eq!(time_value_to_year(&tv).unwrap(), 1868);
}

#[test]
fn parse_time_invalid_returns_error() {
    let tv = TimeValue { time: "+not-a-year-01-01T00:00:00Z".to_string(), precision: 9, calendarmodel: String::new() };
    assert!(time_value_to_year(&tv).is_err());
}

#[test]
fn timepoint_keeps_month_and_day_by_precision() {
    let day = TimeValue { time: "+1868-10-23T00:00:00Z".to_string(), precision: 11, calendarmodel: String::new() };
    assert_eq!(
        time_value_to_timepoint(&day).unwrap(),
        TimePoint { year: 1868, month: Some(10), day: Some(23), precision: 11 }
    );
    let month = TimeValue { time: "+1868-10-23T00:00:00Z".to_string(), precision: 10, calendarmodel: String::new() };
    assert_eq!(time_value_to_timepoint(&month).unwrap(), TimePoint { year: 1868, month: Some(10), day: None, precision: 10 });
    let bad_month = TimeValue { time: "+1868-00-00T00:00:00Z".to_string(), precision: 11, calendarmodel: String::new() };
    assert_eq!(time_value_to_timepoint(&bad_month).unwrap(), TimePoint { year: 1868, month: None, day: None, precision: 11 });
    match time_value_to_timepoint(&make_time("")) {
        Err(WikidataError::TimeParseError(s)) => assert_eq!(s, ""),
        _ => panic!("an empty time string is an error"),
    }
}

#[test]
fn integer_parsing_follows_std_rules() {
    let c = |s: &str| s.chars().collect::<Vec<char>>();
    assert_eq!(parse_i64(&c("+42")), Some(42));
    assert_eq!(parse_i64(&c("-9223372036854775808")), Some(i64::MIN));
    assert_eq!(parse_i64(&c("9223372036854775808")), None);
    assert_eq!(parse_i64(&c("-")), None);
    assert_eq!(parse_i64(&c("")), None);
    assert_eq!(parse_u8(&c("255")), Some(255));
    assert_eq!(parse_u8(&c("256")), None);
    assert_eq!(parse_u8(&c("-1")), None);
    for s in ["0", "17", "-17", "+5", "12a", "99999999999999999999"] {
        assert_eq!(parse_i64(&c(s)), s.parse::<i64>().ok());
        assert_eq!(parse_u8(&c(s)), s.parse::<u8>().ok());
    }
}

#[test]
fn label_fallback() {
    let entity = WikidataEntity {
        id: "Q7209".to_string(),
        labels: vec![
            ("ja".to_string(), LabelValue { language: "ja".to_string(), value: "漢".to_string() }),
            ("en".to_string(), LabelValue { language: "en".to_string(), value: "Han dynasty".to_string() }),
        ],
        claims: vec![],
    };
    assert_eq!(entity.label_with_fallback(&["ja", "en"]), Some("漢"));
    assert_eq!(entity.label_with_fallback(&["zh", "en"]), Some("Han dynasty"));
    assert_eq!(entity.label_with_fallback(&["fr"]), None);
}

#[test]
fn claim_skips_deprecated_statements() {
    let snak = |v: Option<DataValue>| Snak { snaktype: "value".to_string(), property: "P580".to_string(), datavalue: v };
    let stmt = |rank: &str, v: Option<DataValue>| Statement { mainsnak: snak(v), rank: rank.to_string(), qualifiers: vec![] };
    let e = WikidataEntity {
        id: "Q1".to_string(),
        labels: vec![],
        claims: vec![(
            "P580".to_string(),
            vec![
                stmt("deprecated", Some(DataValue::String { value: "old".to_string() })),
                stmt("normal", Some(DataValue::String { value: "new".to_string() })),
            ],
        )],
    };
    match e.claim("P580") {
        Some(DataValue::String { value }) => assert_eq!(value, "new"),
        _ => panic!("expected the normal-rank value"),
    }
    assert!(e.claim("P582").is_none());
}

#[test]
fn parse_wikipedia_url_from_wiki_path() {
    let page = parse_wikipedia_url("https://ja.wikipedia.org/wiki/%E6%BC%A2").unwrap();
    assert_eq!(page, WikipediaPageRef { site: "jawiki".to_string(), title: "漢".to_string() });
}

#[test]
fn parse_wikipedia_url_from_index_php_title() {
    let page = parse_wikipedia_url("https://en.wikipedia.org/w/index.php?title=Han_dynasty").unwrap();
    assert_eq!(page, WikipediaPageRef { site: "enwiki".to_string(), title: "Han_dynasty".to_string() });
}

#[test]
fn parse_wikipedia_url_rejects_non_wikipedia_host() {
    let err = parse_wikipedia_url("https://example.com/wiki/Han").unwrap_err();
    assert!(matches!(err, WikidataError::InvalidInput(_)));
}

#[test]
fn parse_wikipedia_url_http_scheme_accepted() {
    let page = parse_wikipedia_url("http://ja.wikipedia.org/wiki/%E6%BC%A2").unwrap();
    assert_eq!(page, WikipediaPageRef { site: "jawiki".to_string(), title: "漢".to_string() });
}

#[test]
fn parse_wikipedia_url_rejects_empty_string() {
    let err = parse_wikipedia_url("").unwrap_err();
    assert!(matches!(err, WikidataError::InvalidInput(_)));
}

#[test]
fn parse_wikipedia_url_rejects_unsupported_scheme() {
    let err = parse_wikipedia_url("ftp://ja.wikipedia.org/wiki/漢").unwrap_err();
    assert!(matches!(err, WikidataError::InvalidInput(_)));
}

#[test]
fn parse_wikipedia_url_with_underscored_title() {
    let page = parse_wikipedia_url("https://en.wikipedia.org/wiki/Han_dynasty").unwrap();
    assert_eq!(page, WikipediaPageRef { site: "enwiki".to_string(), title: "Han_dynasty".to_string() });
}

#[test]
fn parse_wikipedia_url_messages_and_spaces() {
    match parse_wikipedia_url("   ") {
        Err(WikidataError::InvalidInput(m)) => assert_eq!(m, "wikipedia URL must not be empty"),
        _ => panic!("blank input is an error"),
    }
    match parse_wikipedia_url("https://EN.Wikipedia.ORG/wiki/") {
        Err(WikidataError::InvalidInput(m)) => assert_eq!(m, "could not extract article title from URL"),
        _ => panic!("a missing title is an error"),
    }
    let page = parse_wikipedia_url(" https://en.wikipedia.org/wiki/Han%20dynasty ").unwrap();
    assert_eq!(page.title, "Han_dynasty");
    assert_eq!(decode_url_component("a+b%21"), "a b!");
    assert_eq!(decode_url_component(""), "");
}

fn rows_from_sparql_json(payload: &str) -> Vec<Vec<(String, String)>> {
    let v: serde_json::Value = serde_json::from_str(payload).unwrap();
    v["results"]["bindings"]
        .as_array()
        .unwrap()
        .iter()
        .map(|row| {
            row.as_object()
                .unwrap()
                .iter()
                .map(|(k, b)| (k.clone(), b["value"].as_str().unwrap().to_string()))
                .collect()
        })
        .collect()
}

#[test]
fn parse_sparql_response_prefers_item_key() {
    let payload = r#"
    {
      "results": {
        "bindings": [
          {
            "name": { "value": "http://www.wikidata.org/entity/Q9999" },
            "item": { "value": "http://www.wikidata.org/entity/Q42" }
          },
          {
            "name": { "value": "http://www.wikidata.org/entity/Q8888" },
            "item": { "value": "http://www.wikidata.org/entity/Q7209" }
          }
        ]
      }
    }"#;
    let qids = qids_from_rows(&rows_from_sparql_json(payload));
    assert_eq!(qids, vec!["Q42", "Q7209"]);
}

#[test]
fn parse_sparql_response_fallback_to_uri_binding() {
    let payload = r#"
    {
      "results": {
        "bindings": [
          { "entity": { "value": "http://www.wikidata.org/entity/Q7183" } },
          { "entity": { "value": "http://www.wikidata.org/entity/Q7209" } }
        ]
      }
    }"#;
    let qids = qids_from_rows(&rows_from_sparql_json(payload));
    assert_eq!(qids, vec!["Q7183", "Q7209"]);
}

#[test]
fn sparql_rows_without_item_ids_are_skipped() {
    let row = vec![("label".to_string(), "plain text".to_string())];
    assert_eq!(qid_from_row(&row), None);
    let lexeme = vec![("item".to_string(), "http://www.wikidata.org/entity/L1".to_string())];
    assert_eq!(qid_from_row(&lexeme), None);
}

#[test]
fn first_entity_picks_first_item_id() {
    let got = first_entity(vec![entity("-1"), entity("Q7209"), entity("Q1")], "jawiki:漢").unwrap();
    assert_eq!(got.id, "Q7209");
    match first_entity(vec![entity("-1")], "jawiki:漢") {
        Err(WikidataError::NotFound(k)) => assert_eq!(k, "jawiki:漢"),
        _ => panic!("expected NotFound"),
    }
    assert_eq!(sitelink_key("jawiki", "漢"), "jawiki:漢");
}

#[test]
fn search_limit_is_clamped() {
    assert_eq!(search_limit(0), 1);
    assert_eq!(search_limit(10), 10);
    assert_eq!(search_limit(500), 50);
    assert_eq!(search_limit_text(500), "50");
    assert_eq!(join_strs(&["ja", "en"], "|"), "ja|en");
}

#[test]
fn retry_loop_sends_at_most_max_retries_plus_one_requests() {
    let outcomes = [
        RequestOutcome::Response { status: 503, retry_after: None },
        RequestOutcome::Response { status: 429, retry_after: Some(1) },
        RequestOutcome::TransportError { is_timeout: false, is_connect: true },
    ];
    for max_retries in [0u32, 1, 3, 5] {
        for outcome in outcomes {
            let mut attempt: u32 = 0;
            let mut requests: u32 = 0;
            loop {
                requests += 1;
                match decide_retry(attempt, max_retries, outcome) {
                    RetryAction::Retry { .. } => attempt += 1,
                    _ => break,
                }
            }
            assert_eq!(requests, max_retries + 1);
        }
    }
}

#[test]
fn retry_policy_backs_off_and_gives_up() {
    let ok = RequestOutcome::Response { status: 200, retry_after: None };
    let busy = RequestOutcome::Response { status: 429, retry_after: None };
    let busy_hint = RequestOutcome::Response { status: 429, retry_after: Some(3) };
    let busy_long = RequestOutcome::Response { status: 429, retry_after: Some(86400) };
    let down = RequestOutcome::Response { status: 503, retry_after: None };
    let missing = RequestOutcome::Response { status: 404, retry_after: None };
    let timeout = RequestOutcome::TransportError { is_timeout: true, is_connect: false };
    let refused = RequestOutcome::TransportError { is_timeout: false, is_connect: true };
    assert_eq!(decide_retry(0, 5, ok), RetryAction::Accept);
    assert_eq!(decide_retry(2, 5, busy), RetryAction::Retry { wait_secs: 4 });
    assert_eq!(decide_retry(2, 5, busy_hint), RetryAction::Retry { wait_secs: 3 });
    assert_eq!(
        decide_retry(0, 5, busy_long),
        RetryAction::Fail(RequestFailure::RetryAfterTooLong { requested_secs: 86400, max_secs: MAX_RETRY_AFTER_SECS })
    );
    assert_eq!(decide_retry(5, 5, busy), RetryAction::Fail(RequestFailure::RateLimit));
    assert_eq!(decide_retry(1, 5, down), RetryAction::Retry { wait_secs: 2 });
    assert_eq!(decide_retry(5, 5, down), RetryAction::Fail(RequestFailure::Status));
    assert_eq!(decide_retry(0, 5, missing), RetryAction::Fail(RequestFailure::Status));
    assert_eq!(decide_retry(0, 5, timeout), RetryAction::Fail(RequestFailure::Timeout));
    assert_eq!(decide_retry(3, 5, refused), RetryAction::Retry { wait_secs: 8 });
    assert_eq!(decide_retry(5, 5, refused), RetryAction::Fail(RequestFailure::Transport));
    assert_eq!(backoff_secs(0), 1);
    assert_eq!(backoff_secs(63), 1u64 << 63);
    assert_eq!(DEFAULT_MAX_RETRIES, 5);
    assert_eq!(parse_retry_after("120"), Some(120));
    assert_eq!(parse_retry_after("Wed, 21 Oct 2015 07:28:00 GMT"), None);
}

#[test]
fn cache_file_names() {
    assert_eq!(entity_cache_file_name("Q7209", &["ja", "en"]), "get_Q7209_ja-en.json");
    assert_eq!(entity_cache_file_name("Q7209", &["en"]), "get_Q7209_en.json");
    assert_eq!(sitelink_cache_file_name("jawiki", "A/B: C?", &["ja", "en"]), "sitelink_jawiki_A_B__C__ja-en.json");
    assert!(is_entity_cache_file("get_Q7209_ja-en.json", "Q7209"));
    assert!(!is_entity_cache_file("get_Q72090_ja-en.json", "Q7209"));
    assert!(!is_entity_cache_file("get_Q7209_ja-en.txt", "Q7209"));
}

#[test]
fn different_langs_use_different_cache_files() {
    let dir = std::path::PathBuf::from("/tmp/tdsl-cache-test");
    let client = CachedWikidataClient::with_cache_dir((), CacheOptions::default(), dir.clone());
    let ja = client.cache_path_for_entity("Q1", &["ja"]);
    let en = client.cache_path_for_entity("Q1", &["en"]);
    assert_ne!(ja, en);
    assert_eq!(ja, dir.join("get_Q1_ja.json"));
    let s = client.cache_path_for_sitelink("jawiki", "漢 朝", &["ja"]);
    assert_eq!(s, dir.join("sitelink_jawiki_漢_朝_ja.json"));
}

#[test]
fn cache_freshness_and_cleanup_decisions() {
    let opts = CacheOptions::default();
    assert!(is_cache_fresh(&opts, Some((10, 0))));
    assert!(!is_cache_fresh(&opts, Some((86400, 0))));
    assert!(!is_cache_fresh(&opts, None));
    let off = CacheOptions { no_cache: true, ..opts };
    assert!(!is_cache_fresh(&off, Some((0, 0))));
    let zero = CacheOptions { no_cache: false, ttl_secs: 0, ttl_subsec_nanos: 0 };
    assert!(!is_cache_fresh(&zero, Some((0, 0))));
    assert!(should_delete(None, None));
    assert!(should_delete(Some(1), Some(86400)));
    assert!(!should_delete(Some(1), Some(86399)));
    assert!(!should_delete(Some(1), None));
    assert!(should_delete(Some(0), None));
}

fn url_parts(scheme: &str, host: Option<&str>, path: &str, query: &[(&str, &str)]) -> UrlParts {
    UrlParts {
        scheme: scheme.to_string(),
        host: host.map(str::to_string),
        path: path.to_string(),
        query_pairs: query.iter().map(|(k, v)| (k.to_string(), v.to_string())).collect(),
    }
}

#[test]
fn url_parts_with_wiki_path_give_sitelink() {
    let parts = url_parts("https", Some("EN.Wikipedia.org"), "/wiki/Han_dynasty", &[]);
    let r = wikipedia_ref_from_url_parts("https://EN.Wikipedia.org/wiki/Han_dynasty", Ok(parts)).unwrap();
    assert_eq!(r, WikipediaPageRef { site: "enwiki".to_string(), title: "Han_dynasty".to_string() });
}

#[test]
fn url_parts_with_index_php_title_give_sitelink() {
    let parts = url_parts("http", Some("ja.wikipedia.org"), "/w/index.php", &[("action", "view"), ("title", "漢 朝")]);
    let r = wikipedia_ref_from_url_parts("http://ja.wikipedia.org/w/index.php?action=view&title=漢 朝", Ok(parts)).unwrap();
    assert_eq!(r, WikipediaPageRef { site: "jawiki".to_string(), title: "漢_朝".to_string() });
}

#[test]
fn url_parts_errors_name_the_problem() {
    let e = wikipedia_ref_from_url_parts("nope", Err("relative URL without a base".to_string())).unwrap_err();
    assert!(matches!(e, WikidataError::InvalidInput(m) if m == "invalid URL: nope (relative URL without a base)"));
    let e = wikipedia_ref_from_url_parts("ftp://x", Ok(url_parts("ftp", Some("ja.wikipedia.org"), "/wiki/A", &[]))).unwrap_err();
    assert!(matches!(e, WikidataError::InvalidInput(m) if m == "unsupported URL scheme: ftp"));
    let e = wikipedia_ref_from_url_parts("https://x", Ok(url_parts("https", None, "/", &[]))).unwrap_err();
    assert!(matches!(e, WikidataError::InvalidInput(m) if m == "missing host"));
    let e = wikipedia_ref_from_url_parts("https://example.com/wiki/A", Ok(url_parts("https", Some("example.com"), "/wiki/A", &[]))).unwrap_err();
    assert!(matches!(e, WikidataError::InvalidInput(m) if m == "unsupported host (expected *.wikipedia.org): example.com"));
    let e = wikipedia_ref_from_url_parts("https://.wikipedia.org/wiki/A", Ok(url_parts("https", Some(".wikipedia.org"), "/wiki/A", &[]))).unwrap_err();
    assert!(matches!(e, WikidataError::InvalidInput(m) if m == "invalid wikipedia host: .wikipedia.org"));
    let e = wikipedia_ref_from_url_parts("https://ja.wikipedia.org/", Ok(url_parts("https", Some("ja.wikipedia.org"), "/", &[]))).unwrap_err();
    assert!(matches!(e, WikidataError::InvalidInput(m) if m == "could not extract article title from URL"));
}

#[test]
fn decoded_value_reads_the_v_pair_or_keeps_raw() {
    let pairs = vec![("v".to_string(), "漢 朝".to_string())];
    assert_eq!(decoded_value(&pairs, "%E6%BC%A2+%E6%9C%9D"), "漢 朝");
    let other = vec![("w".to_string(), "x".to_string())];
    assert_eq!(decoded_value(&other, "raw%"), "raw%");
    assert_eq!(decoded_value(&vec![], "raw"), "raw");
}

#[test]
fn default_cache_entries_stay_fresh_for_a_day() {
    let opts = CacheOptions::default();
    assert!(is_cache_fresh(&opts, Some((0, 0))));
    assert!(is_cache_fresh(&opts, Some((86399, 999_999_999))));
    assert!(!is_cache_fresh(&opts, Some((86400, 0))));
    assert!(!is_cache_fresh(&opts, None));
}
