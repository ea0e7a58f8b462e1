use serde_json::Value;

use dione::json::Json;
use dione::mcp::tools::embed::{
    extract_text_surfaces, parse_author, parse_color, parse_embeds, parse_footer, parse_one, Embed,
};

fn from_value(v: &Value) -> Json {
    match v {
        Value::Null => Json::Null,
        Value::Bool(b) => Json::Bool(*b),
        Value::Number(n) => match (n.as_u64(), n.as_i64()) {
            (Some(n), _) => Json::Unsigned(n),
            (None, Some(n)) => Json::Negative(n),
            (None, None) => Json::Fraction(n.to_string()),
        },
        Value::String(s) => Json::Text(s.clone()),
        Value::Array(list) => Json::Array(list.iter().map(from_value).collect()),
        Value::Object(fields) => Json::Object(
            fields
                .iter()
                .map(|(name, field)| (name.clone(), from_value(field)))
                .collect(),
        ),
    }
}

fn json(text: &str) -> Json {
    from_value(&serde_json::from_str(text).unwrap())
}

fn failure<T>(r: Result<T, String>) -> String {
    match r {
        Ok(_) => panic!("expected an error"),
        Err(e) => e,
    }
}

fn one(text: &str) -> Embed {
    parse_one(&json(text), 0).unwrap_or_else(|e| panic!("{e}"))
}

#[test]
fn extracts_title_and_description() {
    let text = extract_text_surfaces(&json(
        r#"[{ "title": "My Title", "description": "My description" }]"#,
    ));
    assert!(text.contains("My Title"));
    assert!(text.contains("My description"));
}

#[test]
fn extracts_field_names_and_values() {
    let text = extract_text_surfaces(&json(
        r#"[{ "fields": [ { "name": "Field Name", "value": "Field Value" } ] }]"#,
    ));
    assert!(text.contains("Field Name"));
    assert!(text.contains("Field Value"));
}

#[test]
fn extracts_footer_and_author() {
    let text = extract_text_surfaces(&json(
        r#"[{ "footer": { "text": "Footer Text" }, "author": { "name": "Author Name" } }]"#,
    ));
    assert!(text.contains("Footer Text"));
    assert!(text.contains("Author Name"));
}

#[test]
fn extracts_footer_from_string_shorthand() {
    let text = extract_text_surfaces(&json(r#"[{ "footer": "Simple Footer" }]"#));
    assert!(text.contains("Simple Footer"));
}

#[test]
fn excludes_urls_and_non_text() {
    let text = extract_text_surfaces(&json(
        r#"[{
            "url": "https://example.com",
            "thumbnail": "https://example.com/thumb.png",
            "image": "https://example.com/img.png",
            "color": 16711680
        }]"#,
    ));
    assert!(!text.contains("https://"));
}

#[test]
fn empty_on_non_array() {
    assert!(extract_text_surfaces(&json(r#""not an array""#)).is_empty());
    assert!(extract_text_surfaces(&json("42")).is_empty());
}

#[test]
fn empty_on_empty_array() {
    assert!(extract_text_surfaces(&json("[]")).is_empty());
}

#[test]
fn text_surfaces_stand_on_lines_of_their_own() {
    let text = extract_text_surfaces(&json(
        r#"[{ "title": "T", "description": "D" }, { "author": "A" }]"#,
    ));
    assert_eq!(text, "T\nD\nA");
}

#[test]
fn rejects_non_array() {
    assert!(parse_embeds(&json(r#""not an array""#)).is_err());
    assert!(parse_embeds(&json("42")).is_err());
    assert!(parse_embeds(&json("{}")).is_err());
}

#[test]
fn rejects_too_many_embeds() {
    let all = Json::Array((0..11).map(|_| Json::Object(vec![])).collect());
    assert!(failure(parse_embeds(&all)).contains("too many embeds"));
}

#[test]
fn accepts_empty_array() {
    assert_eq!(parse_embeds(&json("[]")).map(|l| l.len()), Ok(0));
}

#[test]
fn rejects_non_object_element() {
    let result = parse_embeds(&json(r#"["not an object"]"#));
    assert!(failure(result).contains("must be a JSON object"));
}

#[test]
fn parses_minimal_embed() {
    let embeds = parse_embeds(&json(r#"[{ "title": "hello" }]"#)).unwrap_or_default();
    assert_eq!(embeds.len(), 1);
    assert_eq!(embeds[0].title.as_deref(), Some("hello"));
}

#[test]
fn parses_empty_object_embed() {
    let embeds = parse_embeds(&json("[{}]")).unwrap_or_default();
    assert_eq!(embeds.len(), 1);
}

#[test]
fn color_from_integer() {
    assert_eq!(parse_color(Some(&Json::Unsigned(0xFF0000))), Some(0xFF0000));
}

#[test]
fn color_from_hex_string() {
    assert_eq!(parse_color(Some(&json(r#""FF0000""#))), Some(0xFF0000));
}

#[test]
fn color_from_hex_string_with_hash() {
    assert_eq!(parse_color(Some(&json(r##""#FF0000""##))), Some(0xFF0000));
}

#[test]
fn color_none_when_absent() {
    assert_eq!(parse_color(None), None);
}

#[test]
fn color_none_for_invalid_string() {
    assert_eq!(parse_color(Some(&json(r#""not-a-color""#))), None);
}

#[test]
fn footer_from_string() {
    let footer = parse_footer(&json(r#""simple footer""#), 0).unwrap_or_else(|e| panic!("{e}"));
    assert_eq!(footer.text, "simple footer");
    assert_eq!(footer.icon_url, None);
}

#[test]
fn footer_from_object() {
    let footer = parse_footer(
        &json(r#"{ "text": "footer text", "icon_url": "https://example.com/icon.png" }"#),
        0,
    )
    .unwrap_or_else(|e| panic!("{e}"));
    assert_eq!(footer.text, "footer text");
    assert_eq!(
        footer.icon_url.as_deref(),
        Some("https://example.com/icon.png")
    );
}

#[test]
fn footer_requires_text() {
    let result = parse_footer(&json(r#"{ "icon_url": "https://example.com/icon.png" }"#), 0);
    assert!(failure(result).contains("text is required"));
}

#[test]
fn author_from_string() {
    let author = parse_author(&json(r#""Author Name""#), 0).unwrap_or_else(|e| panic!("{e}"));
    assert_eq!(author.name, "Author Name");
}

#[test]
fn author_from_object() {
    let author = parse_author(
        &json(
            r#"{
                "name": "Author",
                "url": "https://example.com",
                "icon_url": "https://example.com/avatar.png"
            }"#,
        ),
        0,
    )
    .unwrap_or_else(|e| panic!("{e}"));
    assert_eq!(author.name, "Author");
    assert_eq!(author.url.as_deref(), Some("https://example.com"));
    assert_eq!(
        author.icon_url.as_deref(),
        Some("https://example.com/avatar.png")
    );
}

#[test]
fn author_requires_name() {
    let result = parse_author(&json(r#"{ "url": "https://example.com" }"#), 0);
    assert!(failure(result).contains("name is required"));
}

#[test]
fn fields_parsed_correctly() {
    let embed = one(
        r#"{ "fields": [
            { "name": "Field 1", "value": "Value 1", "inline": true },
            { "name": "Field 2", "value": "Value 2" }
        ] }"#,
    );
    assert_eq!(embed.fields.len(), 2);
    assert_eq!(embed.fields[0].name, "Field 1");
    assert!(embed.fields[0].inline);
    assert_eq!(embed.fields[1].value, "Value 2");
    assert!(!embed.fields[1].inline);
}

#[test]
fn fields_require_name_and_value() {
    let result = parse_one(&json(r#"{ "fields": [{ "name": "missing value" }] }"#), 0);
    assert!(failure(result).contains("value is required"));

    let result = parse_one(&json(r#"{ "fields": [{ "value": "missing name" }] }"#), 0);
    assert!(failure(result).contains("name is required"));
}

#[test]
fn thumbnail_from_string() {
    let embed = one(r#"{ "thumbnail": "https://example.com/thumb.png" }"#);
    assert_eq!(
        embed.thumbnail.as_deref(),
        Some("https://example.com/thumb.png")
    );
}

#[test]
fn thumbnail_from_url_object() {
    let embed = one(r#"{ "thumbnail": { "url": "https://example.com/thumb.png" } }"#);
    assert_eq!(
        embed.thumbnail.as_deref(),
        Some("https://example.com/thumb.png")
    );
}

#[test]
fn image_from_string() {
    let embed = one(r#"{ "image": "https://example.com/img.png" }"#);
    assert_eq!(embed.image.as_deref(), Some("https://example.com/img.png"));
}

#[test]
fn image_from_url_object() {
    let embed = one(r#"{ "image": { "url": "https://example.com/img.png" } }"#);
    assert_eq!(embed.image.as_deref(), Some("https://example.com/img.png"));
}

#[test]
fn valid_timestamp_parses() {
    let embed = one(r#"{ "timestamp": "2026-06-20T12:00:00Z" }"#);
    assert_eq!(embed.timestamp, Some((1_781_956_800, 0)));
}

#[test]
fn invalid_timestamp_rejected() {
    let result = parse_one(&json(r#"{ "timestamp": "not-a-date" }"#), 0);
    assert!(failure(result).contains("timestamp"));
}

#[test]
fn full_embed_parses() {
    let input = json(
        r#"[{
            "title": "Reading Digest",
            "description": "Today's highlights from the feeds.",
            "url": "https://example.com/digest",
            "color": 3447003,
            "timestamp": "2026-06-20T08:30:00Z",
            "footer": {
                "text": "Generated by Ariadne",
                "icon_url": "https://example.com/footer-icon.png"
            },
            "author": {
                "name": "Ariadne",
                "url": "https://example.com/ariadne",
                "icon_url": "https://example.com/avatar.png"
            },
            "thumbnail": { "url": "https://example.com/thumb.png" },
            "image": { "url": "https://example.com/hero.png" },
            "fields": [
                { "name": "Article", "value": "Something interesting", "inline": true },
                { "name": "Source", "value": "example.com", "inline": true },
                { "name": "Summary", "value": "A longer description of the article." }
            ]
        }]"#,
    );
    let embeds = parse_embeds(&input).unwrap_or_default();
    assert_eq!(embeds.len(), 1);
    assert_eq!(embeds[0].color, Some(3447003));
    assert_eq!(embeds[0].fields.len(), 3);
    let text = extract_text_surfaces(&input);
    for word in [
        "Reading Digest",
        "Today's highlights from the feeds.",
        "Generated by Ariadne",
        "Ariadne",
        "Article",
        "Something interesting",
        "A longer description of the article.",
    ] {
        assert!(text.contains(word), "{word}");
    }
}

#[test]
fn multiple_embeds_parse() {
    let input = json(
        r#"[
            { "title": "First" },
            { "title": "Second", "color": 16711680 },
            { "description": "Third — no title" }
        ]"#,
    );
    assert_eq!(parse_embeds(&input).map(|l| l.len()), Ok(3));
}

#[test]
fn exactly_ten_embeds_accepted() {
    let all = Json::Array(
        (0..10)
            .map(|i| Json::Object(vec![("title".into(), Json::Text(format!("Embed {i}")))]))
            .collect(),
    );
    assert_eq!(parse_embeds(&all).map(|l| l.len()), Ok(10));
}
