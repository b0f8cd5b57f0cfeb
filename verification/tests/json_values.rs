//! Tests for reading values out of a provider's JSON.

use connector_sync::pipeline::json::{
    cursor_of, end_cursor, flag_at, scalar_text, token_at, unless_blank,
};
use connector_sync::pipeline::{first_array, next_page_token, pick_str};
use connector_sync::value::Json;

fn convert(value: serde_json::Value) -> Json {
    match value {
        serde_json::Value::Null => Json::Null,
        serde_json::Value::Bool(b) => Json::Bool(b),
        serde_json::Value::Number(n) => Json::Number(n),
        serde_json::Value::String(text) => Json::Text(text),
        serde_json::Value::Array(items) => Json::Array(items.into_iter().map(convert).collect()),
        serde_json::Value::Object(map) => {
            Json::Object(map.into_iter().map(|(k, v)| (k, convert(v))).collect())
        }
    }
}

fn parse(text: &str) -> Json {
    convert(serde_json::from_str(text).unwrap())
}

fn picked(text: &str, paths: &[&str]) -> Option<String> {
    pick_str(&parse(text), paths)
}

// ---- the value itself ----

#[test]
fn a_value_writes_its_compact_text() {
    let text = r#"{"a":[1,-2.5,true,null,"x\"y"],"b":{"c":{}}}"#;
    assert_eq!(parse(text).to_text(), text);
    assert_eq!(parse(r#"{ "b": 1, "a": 2 }"#).to_text(), r#"{"a":2,"b":1}"#, "sorted by key");
    assert_eq!(Json::whole(18446744073709551615).to_text(), "18446744073709551615");
    assert_eq!(Json::text("é|\n").to_text(), "\"é|\\n\"");
}

#[test]
fn the_last_member_with_a_key_counts() {
    let twice = Json::Object(vec![
        ("k".to_string(), Json::whole(1)),
        ("other".to_string(), Json::Null),
        ("k".to_string(), Json::whole(2)),
    ]);
    assert_eq!(twice.to_text(), r#"{"k":2,"other":null}"#);
    assert_eq!(twice.get("k").unwrap().to_text(), "2");
    assert_eq!(pick_str(&twice, &["k"]).as_deref(), Some("2"));
    assert!(twice.get("missing").is_none());
    assert!(Json::Null.get("k").is_none());
}

#[test]
fn setting_a_member_replaces_it() {
    let mut object = parse(r#"{ "a": 1, "b": 2 }"#);
    object.set("a", Json::Bool(false));
    object.set("c", Json::Null);
    assert_eq!(object.to_text(), r#"{"a":false,"b":2,"c":null}"#);
}

#[test]
fn a_pointer_addresses_members_and_elements() {
    let value = parse(r#"{ "a": { "x/y": 1, "m~n": 2, "": 3, "~1": 4 }, "list": ["p", "q"] }"#);
    let at = |pointer: &str| value.pointer(pointer).map(|found| found.to_text());
    assert_eq!(at("/a/x~1y").as_deref(), Some("1"));
    assert_eq!(at("/a/m~0n").as_deref(), Some("2"));
    assert_eq!(at("/a/").as_deref(), Some("3"));
    assert_eq!(at("/a/~01").as_deref(), Some("4"));
    assert_eq!(at("/list/1").as_deref(), Some("\"q\""));
    assert_eq!(at(""), Some(value.to_text()));
    for pointer in ["a", "/b", "/list/2", "/list/01", "/list/+1", "/list/-1", "/list/", "/a/x/y"] {
        assert_eq!(at(pointer), None, "{pointer}");
    }
    assert_eq!(at("/list/99999999999999999999"), None);
}

// ---- pick_str ----

#[test]
fn numbers_and_strings_are_picked_alike() {
    assert_eq!(picked(r#"{ "id": "123" }"#, &["id"]).as_deref(), Some("123"));
    assert_eq!(picked(r#"{ "id": 123 }"#, &["id"]).as_deref(), Some("123"));
    assert_eq!(picked(r#"{ "id": -7 }"#, &["id"]).as_deref(), Some("-7"));
    assert_eq!(picked(r#"{ "id": 1.5 }"#, &["id"]).as_deref(), Some("1.5"));
}

#[test]
fn a_numeric_segment_indexes_an_array() {
    let text = r#"{ "messages": [{ "id": "m0" }, { "id": "m1" }] }"#;
    assert_eq!(picked(text, &["messages.0.id"]).as_deref(), Some("m0"));
    assert_eq!(picked(text, &["messages.1.id"]).as_deref(), Some("m1"));
    assert_eq!(picked(text, &["messages.2.id"]), None);
}

#[test]
fn blank_scalars_are_passed_over() {
    let text = r#"{ "a": "  \t\n", "b": null, "c": [1], "d": true, "e": " kept " }"#;
    assert_eq!(picked(text, &["a", "b", "c", "d", "missing", "e"]).as_deref(), Some("kept"));
    assert_eq!(picked(text, &["a", "b"]), None);
    assert_eq!(picked(text, &[]), None);
}

#[test]
fn the_first_path_that_leads_somewhere_wins() {
    let text = r#"{ "a": "one", "b": "two" }"#;
    assert_eq!(picked(text, &["a", "b"]).as_deref(), Some("one"));
    assert_eq!(picked(text, &["b", "a"]).as_deref(), Some("two"));
    assert_eq!(picked(r#""top""#, &["", "x"]), None, "the empty path names the member with no name");
}

#[test]
fn scalars_are_texts_and_numbers() {
    assert_eq!(scalar_text(&Json::text(" x ")).as_deref(), Some("x"));
    assert_eq!(scalar_text(&Json::whole(5)).as_deref(), Some("5"));
    assert_eq!(scalar_text(&Json::Bool(true)), None);
    assert_eq!(scalar_text(&Json::Null), None);
    assert_eq!(unless_blank(" \u{3000}"), None);
    assert_eq!(unless_blank(" a b ").as_deref(), Some("a b"));
}

// ---- arrays, tokens, connections, flags ----

#[test]
fn the_first_array_is_taken_even_when_it_is_empty() {
    let value = parse(r#"{ "a": { "x": 1 }, "b": [], "c": [1, 2] }"#);
    assert_eq!(first_array(&value, &["/a", "/c"]).len(), 2);
    assert_eq!(first_array(&value, &["/b", "/c"]).len(), 0);
    assert_eq!(first_array(&value, &["/missing"]).len(), 0);
    let items = first_array(&value, &["/c"]);
    assert_eq!(items[1].to_text(), "2");
}

#[test]
fn a_page_token_is_found_in_every_envelope() {
    for text in [
        r#"{ "data": { "nextPageToken": "t" } }"#,
        r#"{ "nextPageToken": " t " }"#,
        r#"{ "data": { "data": { "nextPageToken": "t" } } }"#,
        r#"{ "data": { "next_page_token": "t" } }"#,
        r#"{ "next_page_token": "t" }"#,
    ] {
        assert_eq!(next_page_token(&parse(text)).as_deref(), Some("t"), "{text}");
    }
    assert_eq!(next_page_token(&parse("{}")), None);
    assert_eq!(next_page_token(&parse(r#"{ "nextPageToken": 5 }"#)), None);
}

#[test]
fn an_empty_token_is_no_token() {
    for text in [r#"{ "nextPageToken": "" }"#, r#"{ "nextPageToken": "  " }"#] {
        assert_eq!(next_page_token(&parse(text)), None, "{text}");
    }
    // The first string decides, blank or not.
    let value = parse(r#"{ "a": "", "b": "t", "c": 1 }"#);
    assert_eq!(token_at(&value, &["/a", "/b"]), None);
    assert_eq!(token_at(&value, &["/c", "/b"]).as_deref(), Some("t"));
}

#[test]
fn a_connection_is_followed_only_while_it_has_a_next_page() {
    let pointers = ["/data/pageInfo", "/pageInfo"];
    let at = |text: &str| end_cursor(&parse(text), &pointers);
    assert_eq!(
        at(r#"{ "pageInfo": { "hasNextPage": true, "endCursor": " c " } }"#).as_deref(),
        Some("c")
    );
    for text in [
        r#"{ "pageInfo": { "hasNextPage": false, "endCursor": "c" } }"#,
        r#"{ "pageInfo": { "endCursor": "c" } }"#,
        r#"{ "pageInfo": { "hasNextPage": "true", "endCursor": "c" } }"#,
        r#"{ "pageInfo": { "hasNextPage": true, "endCursor": "" } }"#,
        r#"{ "pageInfo": { "hasNextPage": true, "endCursor": 3 } }"#,
        r#"{ "pageInfo": { "hasNextPage": true } }"#,
        r#"{ "data": { "pageInfo": null }, "pageInfo": { "hasNextPage": true, "endCursor": "c" } }"#,
        "{}",
    ] {
        assert_eq!(at(text), None, "{text}");
    }
    assert_eq!(cursor_of(&Json::Null), None);
}

#[test]
fn the_first_boolean_is_the_flag() {
    let value = parse(r#"{ "a": "true", "b": false, "c": true }"#);
    assert_eq!(flag_at(&value, &["/a", "/b", "/c"]), Some(false));
    assert_eq!(flag_at(&value, &["/c", "/b"]), Some(true));
    assert_eq!(flag_at(&value, &["/a", "/missing"]), None);
}
