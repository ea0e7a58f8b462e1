use chrono::{Datelike, NaiveDate};
use serde_json::Value;

use dione::gate::OutboundGate;
use dione::json::Json;
use dione::mcp::tools::messaging::MessageInfo;
use dione::mcp::tools::search::{
    failure_answer, filter_results, parse_timestamp, search_answer, search_url, FoundMessage,
    SearchError, SearchHas, SearchLimit, SearchOffset, SearchParams, SearchTimestamp, SortBy,
    SortOrder, DISCORD_EPOCH_MS,
};

fn from_value(v: &Value) -> Json {
    match v {
        Value::Null => Json::Null,
        Value::Bool(b) => Json::Bool(*b),
        Value::Number(n) => match (n.as_u64(), n.as_i64()) {
            (Some(n), _) => Json::Unsigned(n),
            (None, Some(n)) => Json::Negative(n),
            (None, None) => Json::Fraction(n.to_string()),
        },
        Value::String(s) => Json::Text(s.clone()),
        Value::Array(list) => Json::Array(list.iter().map(from_value).collect()),
        Value::Object(fields) => Json::Object(
            fields
                .iter()
                .map(|(name, field)| (name.clone(), from_value(field)))
                .collect(),
        ),
    }
}

fn json(text: &str) -> Json {
    from_value(&serde_json::from_str(text).unwrap())
}

fn params(text: &str) -> SearchParams {
    SearchParams::from_json(&json(text)).unwrap()
}

fn refused(text: &str) -> bool {
    SearchParams::from_json(&json(text)).is_err()
}

fn date(y: i32, m: u32, d: u32) -> SearchTimestamp {
    SearchTimestamp::Date(
        NaiveDate::from_ymd_opt(y, m, d)
            .unwrap()
            .num_days_from_ce(),
    )
}

#[test]
fn search_limit_default_is_25() {
    assert_eq!(SearchLimit::default().get(), 25);
}

#[test]
fn search_limit_accepts_valid_range() {
    for v in 1..=25 {
        let limit = SearchLimit::try_from(v).unwrap();
        assert_eq!(limit.get(), v as u8);
    }
}

#[test]
fn search_limit_rejects_zero() {
    assert!(SearchLimit::try_from(0u64).is_err());
}

#[test]
fn search_limit_rejects_over_25() {
    assert!(SearchLimit::try_from(26u64).is_err());
    assert_eq!(
        SearchLimit::try_from(100u64),
        Err(SearchError::InvalidLimit(100))
    );
}

#[test]
fn search_limit_deserializes_from_json() {
    let p = params(r#"{"limit": 10}"#);
    assert_eq!(p.limit.unwrap().get(), 10);
}

#[test]
fn search_limit_rejects_invalid_json() {
    assert!(refused(r#"{"limit": 0}"#));
    assert!(refused(r#"{"limit": 26}"#));
}

#[test]
fn search_offset_default_is_0() {
    assert_eq!(SearchOffset::default().get(), 0);
}

#[test]
fn search_offset_accepts_valid_range() {
    assert_eq!(SearchOffset::try_from(0u64).unwrap().get(), 0);
    assert_eq!(SearchOffset::try_from(100u64).unwrap().get(), 100);
    assert_eq!(SearchOffset::try_from(9975u64).unwrap().get(), 9975);
}

#[test]
fn search_offset_rejects_over_9975() {
    assert_eq!(
        SearchOffset::try_from(9976u64),
        Err(SearchError::InvalidOffset(9976))
    );
    assert!(SearchOffset::try_from(10000u64).is_err());
}

#[test]
fn search_offset_deserializes_from_json() {
    let p = params(r#"{"offset": 500}"#);
    assert_eq!(p.offset.unwrap().get(), 500);
}

#[test]
fn search_timestamp_date_to_snowflake() {
    let sf = date(2024, 1, 15).to_snowflake().unwrap();
    let expected = (1_705_276_800_000i64 - DISCORD_EPOCH_MS) as u64;
    assert_eq!(sf, expected << 22);
}

#[test]
fn search_timestamp_discord_epoch() {
    assert_eq!(date(2015, 1, 1).to_snowflake().unwrap(), 0);
}

#[test]
fn search_timestamp_before_epoch_is_error() {
    assert_eq!(
        date(2014, 12, 31).to_snowflake(),
        Err(SearchError::InvalidDate(
            "2014-12-31: date is before Discord epoch (2015-01-01)".into()
        ))
    );
}

#[test]
fn search_timestamp_snowflake_passthrough() {
    let ts = SearchTimestamp::Snowflake(123456789);
    assert_eq!(ts.to_snowflake().unwrap(), 123456789);
}

#[test]
fn search_timestamp_deserializes_date_string() {
    let ts = parse_timestamp(&json(r#""2024-01-15""#)).unwrap();
    assert_eq!(ts, date(2024, 1, 15));
}

#[test]
fn search_timestamp_deserializes_snowflake_number() {
    let ts = parse_timestamp(&json("123456789")).unwrap();
    assert!(matches!(ts, SearchTimestamp::Snowflake(123456789)));
}

#[test]
fn search_timestamp_deserializes_snowflake_string() {
    let ts = parse_timestamp(&json(r#""123456789""#)).unwrap();
    assert!(matches!(ts, SearchTimestamp::Snowflake(123456789)));
}

#[test]
fn search_timestamp_rejects_invalid() {
    assert!(parse_timestamp(&json(r#""not-a-date""#)).is_err());
    assert!(parse_timestamp(&json("0")).is_err());
}

#[test]
fn search_params_deserializes_minimal() {
    let p = params(r#"{ "content": "hello" }"#);
    assert_eq!(p.content.as_deref(), Some("hello"));
    assert!(p.author_ids.is_empty());
    assert!(p.mentions.is_empty());
    assert!(p.channel_ids.is_empty());
    assert!(p.has.is_empty());
    assert!(p.limit.is_none());
    assert!(p.offset.is_none());
}

const FULL: &str = r#"{
    "content": "hello",
    "author_id": "123",
    "mentions": "456",
    "has": ["image", "file"],
    "before": "2024-06-01",
    "after": "2024-01-01",
    "channel_id": "789",
    "sort_by": "timestamp",
    "sort_order": "desc",
    "limit": 10,
    "offset": 25
}"#;

#[test]
fn search_params_deserializes_full() {
    let p = params(FULL);
    assert_eq!(p.content.as_deref(), Some("hello"));
    assert_eq!(p.author_ids, vec![123]);
    assert_eq!(p.mentions, vec![456]);
    assert_eq!(p.has, vec![SearchHas::Image, SearchHas::File]);
    assert!(matches!(p.before, Some(SearchTimestamp::Date(_))));
    assert!(matches!(p.after, Some(SearchTimestamp::Date(_))));
    assert_eq!(p.channel_ids, vec![789]);
    assert_eq!(p.sort_by, Some(SortBy::Timestamp));
    assert_eq!(p.sort_order, Some(SortOrder::Desc));
    assert_eq!(p.limit.unwrap().get(), 10);
    assert_eq!(p.offset.unwrap().get(), 25);
}

#[test]
fn a_search_becomes_a_query() {
    let after = date(2024, 1, 1).to_snowflake().unwrap().to_string();
    let before = date(2024, 6, 1).to_snowflake().unwrap().to_string();
    let expected = [
        ("content", "hello"),
        ("author_id", "123"),
        ("mentions", "456"),
        ("has", "image"),
        ("has", "file"),
        ("max_id", before.as_str()),
        ("min_id", after.as_str()),
        ("channel_id", "789"),
        ("sort_by", "timestamp"),
        ("sort_order", "desc"),
        ("limit", "10"),
        ("offset", "25"),
    ];
    let query = params(FULL).query().unwrap();
    let pairs: Vec<(&str, &str)> = query.iter().map(|(n, v)| (*n, v.as_str())).collect();
    assert_eq!(pairs, expected);
    assert_eq!(
        search_url(7),
        "https://discord.com/api/v10/guilds/7/messages/search"
    );
}

#[test]
fn a_search_without_filters_is_refused() {
    assert_eq!(
        params("{}").query(),
        Err(Json::error(SearchError::NoFilters.to_string()))
    );
}

#[test]
fn search_params_deserializes_id_arrays() {
    let p = params(
        r#"{
            "content": "hello",
            "author_id": ["100", "200"],
            "mentions": ["300"],
            "channel_id": ["400", "500", "600"]
        }"#,
    );
    assert_eq!(p.author_ids, vec![100, 200]);
    assert_eq!(p.mentions, vec![300]);
    assert_eq!(p.channel_ids, vec![400, 500, 600]);
}

#[test]
fn search_params_deserializes_numeric_ids() {
    let p = params(r#"{ "content": "hello", "author_id": 123, "mentions": [456, 789] }"#);
    assert_eq!(p.author_ids, vec![123]);
    assert_eq!(p.mentions, vec![456, 789]);
}

#[test]
fn search_params_rejects_zero_id() {
    assert!(refused(r#"{ "author_id": "0" }"#));
    assert!(refused(r#"{ "channel_id": 0 }"#));
    assert!(refused(r#"{ "mentions": ["123", "0"] }"#));
}

#[test]
fn search_params_rejects_non_numeric_id() {
    assert!(refused(r#"{ "author_id": "not-a-number" }"#));
    assert!(refused(r#"{ "channel_id": ["123", "abc"] }"#));
}

#[test]
fn search_params_ignores_unknown_fields() {
    let p = params(r#"{ "content": "hello", "guild_id": "999", "unknown_field": true }"#);
    assert_eq!(p.content.as_deref(), Some("hello"));
}

#[test]
fn search_params_has_any_filter_empty() {
    assert!(
        !params("{}").has_any_filter(),
        "params with no filters must return false"
    );
}

#[test]
fn search_params_has_any_filter_content() {
    assert!(params(r#"{"content": "x"}"#).has_any_filter());
}

#[test]
fn search_params_has_any_filter_has() {
    assert!(params(r#"{"has": ["image"]}"#).has_any_filter());
}

#[test]
fn search_params_has_any_filter_before() {
    assert!(params(r#"{"before": "2024-01-01"}"#).has_any_filter());
}

#[test]
fn search_params_has_any_filter_channel() {
    assert!(params(r#"{"channel_id": "123"}"#).has_any_filter());
}

#[test]
fn search_params_has_any_filter_author_id() {
    assert!(params(r#"{"author_id": "123"}"#).has_any_filter());
}

#[test]
fn search_params_has_any_filter_mentions() {
    assert!(params(r#"{"mentions": "456"}"#).has_any_filter());
}

#[test]
fn search_params_has_any_filter_after() {
    assert!(params(r#"{"after": "2024-06-01"}"#).has_any_filter());
}

#[test]
fn search_params_has_any_filter_pinned() {
    assert!(params(r#"{"pinned": true}"#).has_any_filter());
}

#[test]
fn search_params_has_any_filter_sort_by_alone_is_not_filter() {
    assert!(
        !params(r#"{"sort_by": "timestamp"}"#).has_any_filter(),
        "sort_by alone is not a search filter"
    );
}

#[test]
fn search_params_has_any_filter_sort_order_alone_is_not_filter() {
    assert!(
        !params(r#"{"sort_order": "desc"}"#).has_any_filter(),
        "sort_order alone is not a search filter"
    );
}

fn group(channel_id: u64) -> Json {
    Json::Array(vec![Json::Object(vec![(
        "channel_id".into(),
        Json::Text(channel_id.to_string()),
    )])])
}

fn found(id: u64, channel_id: u64) -> Option<FoundMessage> {
    Some(FoundMessage {
        channel_id,
        message: MessageInfo {
            id,
            author: "test".into(),
            author_id: 1,
            content: "hello".into(),
            timestamp: "2024-01-01T00:00:00+00:00".into(),
            attachments: vec![],
            evidence: None,
        },
    })
}

#[test]
fn filter_results_omits_unconfigured_channels() {
    let gate = OutboundGate::configured(vec![42]);
    let results = filter_results(
        &gate,
        false,
        &vec![group(42), group(999)],
        &vec![found(1, 42), found(2, 999)],
    );
    assert_eq!(
        results.len(),
        1,
        "only the configured channel's message should survive"
    );
    assert_eq!(
        results[0].get("channel_id").and_then(|v| v.as_str()),
        Some("42")
    );
}

#[test]
fn filter_results_passes_thread_of_configured_channel() {
    let mut gate = OutboundGate::configured(vec![42]);
    gate.record_thread_parent(77, 42);
    let results = filter_results(&gate, false, &vec![group(77)], &vec![found(100, 77)]);
    assert_eq!(results.len(), 1, "thread of configured channel should pass");
}

#[test]
fn filter_results_passes_dm_channel() {
    let mut gate = OutboundGate::configured(vec![]);
    gate.record_dm_channel(55);
    let results = filter_results(&gate, false, &vec![group(55)], &vec![found(101, 55)]);
    assert_eq!(results.len(), 1, "known DM channel should pass");
}

#[test]
fn a_full_page_says_that_there_may_be_more() {
    let gate = OutboundGate::configured(vec![42]);
    let body = Json::Object(vec![(
        "messages".into(),
        Json::Array(vec![group(42), group(999)]),
    )]);
    let answer = search_answer(
        &gate,
        false,
        &params(r#"{"content": "x", "limit": 2, "offset": 4}"#),
        &body,
        &vec![found(1, 42), found(2, 999)],
    );
    assert_eq!(answer.get("count"), Some(&Json::Unsigned(1)));
    assert_eq!(answer.get("offset"), Some(&Json::Unsigned(4)));
    assert_eq!(answer.get("has_more"), Some(&Json::Bool(true)));
}

#[test]
fn failed_searches_are_answered_with_what_discord_said() {
    assert_eq!(failure_answer(200, "200 OK", None, ""), None);
    let wait = failure_answer(429, "429 Too Many Requests", Some("3"), "").unwrap();
    assert_eq!(
        wait.get("error"),
        Some(&Json::Text(
            "rate limited by Discord, retry after 3s".into()
        ))
    );
    let other = failure_answer(403, "403 Forbidden", None, "no").unwrap();
    assert_eq!(
        other,
        Json::error("Discord API error 403 Forbidden: no".into())
    );
}

#[test]
fn search_has_display() {
    assert_eq!(SearchHas::Link.to_string(), "link");
    assert_eq!(SearchHas::Image.to_string(), "image");
    assert_eq!(SearchHas::Sticker.to_string(), "sticker");
}

#[test]
fn sort_by_display() {
    assert_eq!(SortBy::Timestamp.to_string(), "timestamp");
    assert_eq!(SortBy::Relevance.to_string(), "relevance");
}

#[test]
fn sort_order_display() {
    assert_eq!(SortOrder::Asc.to_string(), "asc");
    assert_eq!(SortOrder::Desc.to_string(), "desc");
}

#[test]
fn search_has_deserializes_all_variants() {
    for (s, expected) in [
        ("link", SearchHas::Link),
        ("embed", SearchHas::Embed),
        ("file", SearchHas::File),
        ("video", SearchHas::Video),
        ("image", SearchHas::Image),
        ("sound", SearchHas::Sound),
        ("sticker", SearchHas::Sticker),
    ] {
        assert_eq!(SearchHas::parse(s), Some(expected));
    }
    assert_eq!(SearchHas::parse("Link"), None);
}

#[test]
fn sort_by_deserializes() {
    assert_eq!(SortBy::parse("timestamp"), Some(SortBy::Timestamp));
    assert_eq!(SortBy::parse("relevance"), Some(SortBy::Relevance));
}

#[test]
fn sort_order_deserializes() {
    assert_eq!(SortOrder::parse("asc"), Some(SortOrder::Asc));
    assert_eq!(SortOrder::parse("desc"), Some(SortOrder::Desc));
}

#[test]
fn search_errors_say_what_is_wrong() {
    assert_eq!(
        SearchError::InvalidDate("x".into()).to_string(),
        "invalid date 'x': expected YYYY-MM-DD"
    );
    assert_eq!(
        SearchError::InvalidLimit(0).to_string(),
        "search limit must be 1..=25, got 0"
    );
    assert_eq!(
        SearchError::InvalidOffset(9976).to_string(),
        "search offset must be 0..=9975, got 9976"
    );
}

#[test]
fn search_params_can_be_a_list() {
    assert_eq!(
        params(r#"["cats", "7", [8, "9"], ["link"], null, "2024-01-15", 5, true, "relevance", "asc", 10, 20]"#),
        params(
            r#"{"content": "cats", "author_id": "7", "mentions": [8, "9"], "has": ["link"],
                "after": "2024-01-15", "channel_id": 5, "pinned": true, "sort_by": "relevance",
                "sort_order": "asc", "limit": 10, "offset": 20}"#
        )
    );
    assert_eq!(params(r#"["cats"]"#), params(r#"{"content": "cats"}"#));
    assert_eq!(params("[]"), params("{}"));
    assert!(refused(r#"[null, null, null, [], null, null, null, null, null, null, null, null, null]"#));
    assert!(!refused(r#"[null, null, null, [], null, null, null, null, null, null, null, null]"#));
    assert!(refused("7"));
    let said = |text: &str| SearchParams::from_json(&json(text)).unwrap_err();
    assert_eq!(
        said(r#"[1, null, null, 2]"#),
        "invalid type: integer `1`, expected a string"
    );
    assert_eq!(
        said(r#"[null, null, null, [], null, null, null, null, null, null, null, null, null]"#),
        "invalid length 13, expected fewer elements in array"
    );
    assert_eq!(said("7"), "invalid type: integer `7`, expected struct SearchParams");
    assert_eq!(said(r#"[null, null, null, [], null, 0, null, 7]"#), said(r#"{"after": 0}"#));
    assert_eq!(
        said(r#"{"sort_by": 1, "pinned": 2}"#),
        "invalid type: integer `2`, expected a boolean"
    );
}

#[test]
fn search_words_can_be_objects() {
    assert_eq!(
        params(r#"{"has": [{"link": null}, "file"], "sort_by": {"timestamp": null}, "sort_order": {"desc": null}}"#),
        params(r#"{"has": ["link", "file"], "sort_by": "timestamp", "sort_order": "desc"}"#)
    );
    for wrong in [
        r#"{"has": [{"link": 1}]}"#,
        r#"{"has": [{"link": null, "file": null}]}"#,
        r#"{"has": [{}]}"#,
        r#"{"sort_by": {"other": null}}"#,
        r#"{"sort_order": {"asc": true}}"#,
    ] {
        assert!(refused(wrong), "{wrong}");
    }
}

#[test]
fn wrong_arguments_are_named() {
    let said = |text: &str| SearchParams::from_json(&json(text)).unwrap_err();
    let wrong = [
        "null", "true", "false", "7", "-7", "1.5", "1e300", "18446744073709551616",
        r#""a \"b\"""#, "[]", "{}",
    ];
    for value in wrong {
        let parsed = || serde_json::from_str::<Value>(value).unwrap();
        if let Err(e) = serde_json::from_value::<Option<String>>(parsed()) {
            assert_eq!(said(&format!(r#"{{"content": {value}}}"#)), e.to_string());
        }
        if let Err(e) = serde_json::from_value::<Option<bool>>(parsed()) {
            assert_eq!(said(&format!(r#"{{"pinned": {value}}}"#)), e.to_string());
        }
        if let Err(e) = serde_json::from_value::<Option<u64>>(parsed()) {
            assert_eq!(said(&format!(r#"{{"limit": {value}}}"#)), e.to_string());
            assert_eq!(said(&format!(r#"{{"offset": {value}}}"#)), e.to_string());
        }
        if let Err(e) = serde_json::from_value::<Vec<u8>>(parsed()) {
            assert_eq!(said(&format!(r#"{{"has": {value}}}"#)), e.to_string());
        }
        if let Err(e) = serde_json::from_value::<Result<u8, u8>>(parsed()) {
            let like = e
                .to_string()
                .replace("`Ok` or `Err`", "`timestamp` or `relevance`");
            if value != "null" {
                assert_eq!(said(&format!(r#"{{"sort_by": {value}}}"#)), like);
            }
        }
    }
    assert_eq!(
        said(r#"{"has": ["link", "photo", 7]}"#),
        "unknown variant `photo`, expected one of `link`, `embed`, `file`, `video`, `image`, \
         `sound`, `sticker`"
    );
    assert_eq!(
        said(r#"{"sort_order": "up"}"#),
        "unknown variant `up`, expected `asc` or `desc`"
    );
    assert_eq!(
        said(r#"{"sort_order": {"asc": 1}}"#),
        "invalid type: integer `1`, expected unit"
    );
    assert_eq!(
        said(r#"{"has": [{"link": null, "file": null}]}"#),
        "invalid value: map, expected map with a single key"
    );
    assert_eq!(
        said(r#"{"has": [null]}"#),
        "invalid type: null, expected string or map"
    );
    assert_eq!(
        said(r#"{"before": -3}"#),
        "invalid type: integer `-3`, expected a snowflake ID (integer/string) or YYYY-MM-DD date"
    );
    assert_eq!(
        said(r#"{"author_id": {}}"#),
        "invalid type: map, expected a snowflake ID or array of snowflake IDs (string or number)"
    );
}

#[test]
fn messages_that_end_in_a_place_are_about_it() {
    for id in [
        "x", "x at line 3 column 4", "x at line 03 column 004", "x at line 0 column 9",
        "x at line column 4", "x at line 3 column ", "x at line 3 column 4.",
        "x at line 1 column 2 at line 3 column 4", " at line 5 column 6", " column 6",
        "x at line 99999999999999999999 column 4", "at line 3 column 4",
    ] {
        let arguments = Json::Object(vec![(
            "mentions".into(),
            Json::Array(vec![Json::Text(id.into())]),
        )]);
        let e: serde_json::Error = serde::de::Error::custom(format!("invalid ID: {id}"));
        assert_eq!(SearchParams::from_json(&arguments), Err(e.to_string()));
    }
}
