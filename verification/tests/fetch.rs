//! Tests for reading one page from a provider.

use connector_sync::pipeline::fetch::{
    body, github_updated_since, github_updated_since_at, gmail_after_query, gmail_after_query_at,
    item_count, next_page_number, page_from, page_number, page_reply, page_request,
    page_request_at, MAX_BODY_CHARS,
};
use connector_sync::pipeline::{DepthWindow, PageSpec, Paging, ProviderPage};
use connector_sync::provider::{Error, SyncLimits};
use connector_sync::value::Json;

fn convert(value: serde_json::Value) -> Json {
    match value {
        serde_json::Value::Null => Json::Null,
        serde_json::Value::Bool(b) => Json::Bool(b),
        serde_json::Value::Number(n) => Json::Number(n),
        serde_json::Value::String(text) => Json::Text(text),
        serde_json::Value::Array(items) => Json::Array(items.into_iter().map(convert).collect()),
        serde_json::Value::Object(map) => {
            Json::Object(map.into_iter().map(|(k, v)| (k, convert(v))).collect())
        }
    }
}

fn parse(text: &str) -> Json {
    convert(serde_json::from_str(text).unwrap())
}

/// 2023-11-14T22:13:20Z.
const NOW: i64 = 1_700_000_000;

const TOKEN: Paging = Paging::Token { next: &["/next", "/data/next"] };

const NUMBERED: Paging = Paging::Numbered {
    first: 1,
    reachable: Some(100),
    last_page: &["/last_page"],
};

const LIMITS: SyncLimits = SyncLimits { max_items: 10, depth_days: None };

fn spec(paging: Paging, depth_window: Option<DepthWindow>, clean_bodies: bool) -> PageSpec {
    PageSpec {
        action: "READ_ITEMS",
        item_pointers: &["/data/items", "/items"],
        id_paths: &["id"],
        title_paths: &["title"],
        content_paths: &["body"],
        url_paths: &["link"],
        version_paths: &["updated"],
        fixed_arguments: &[("q", "is:issue"), ("sort", "updated")],
        page_size_arg: "per_page",
        cursor_arg: "page",
        paging,
        depth_window,
        clean_bodies,
    }
}

fn shout(raw: &str) -> String {
    raw.to_uppercase()
}

fn read(text: &str, spec: &PageSpec, page_size: usize, number: Option<u32>) -> ProviderPage {
    page_reply(Ok(parse(text)), spec, page_size, number, &shout).unwrap()
}

// ---- page numbers ----

#[test]
fn a_numbered_cursor_names_its_page() {
    assert_eq!(page_number(None, 1), 1);
    assert_eq!(page_number(Some("3"), 1), 3);
    assert_eq!(page_number(Some(" 3\n"), 1), 3);
    assert_eq!(page_number(Some("+3"), 1), 3);
    assert_eq!(page_number(Some("4294967295"), 1), u32::MAX);
    for cursor in ["", "x", "-1", "0", "3.0", "4294967296"] {
        assert_eq!(page_number(Some(cursor), 1), 1, "{cursor}");
    }
    assert_eq!(page_number(Some("0"), 0), 0);
}

#[test]
fn a_full_page_is_followed_by_another_and_a_short_one_is_not() {
    assert_eq!(next_page_number(1, 1, None, 50, 50, None), Some(2));
    assert_eq!(next_page_number(1, 1, None, 51, 50, None), Some(2));
    assert_eq!(next_page_number(1, 1, None, 49, 50, None), None);
    assert_eq!(next_page_number(0, 0, None, 1, 1, None), Some(1));
}

#[test]
fn a_last_page_flag_is_believed() {
    assert_eq!(next_page_number(4, 0, None, 3, 50, Some(false)), Some(5));
    assert_eq!(next_page_number(4, 0, None, 50, 50, Some(true)), None);
}

#[test]
fn an_empty_page_is_the_last_whatever_its_flag_says() {
    assert_eq!(next_page_number(4, 0, None, 0, 50, Some(false)), None);
    assert_eq!(next_page_number(4, 0, None, 0, 0, None), None);
}

#[test]
fn a_walk_stops_before_the_results_run_out_of_reach() {
    assert_eq!(next_page_number(9, 1, Some(1000), 100, 100, None), Some(10));
    assert_eq!(next_page_number(10, 1, Some(1000), 100, 100, None), None);
    assert_eq!(next_page_number(3, 1, Some(1000), 300, 300, None), Some(4));
    assert_eq!(next_page_number(4, 1, Some(1000), 300, 300, None), None);
    // A page before the first counts as the first.
    assert_eq!(next_page_number(0, 5, Some(101), 100, 100, None), Some(1));
    assert_eq!(next_page_number(u32::MAX, 0, Some(1), 1, usize::MAX, Some(false)), None);
}

#[test]
fn there_is_no_page_after_the_last_number() {
    assert_eq!(next_page_number(u32::MAX, 0, None, 50, 50, None), None);
    assert_eq!(next_page_number(u32::MAX - 1, 0, None, 50, 50, None), Some(u32::MAX));
}

// ---- the depth window ----

#[test]
fn search_terms_name_a_calendar_date() {
    assert_eq!(gmail_after_query_at(NOW, 0), "after:2023/11/14");
    assert_eq!(gmail_after_query_at(NOW, 30), "after:2023/10/15");
    assert_eq!(github_updated_since_at(NOW, 30), "updated:>=2023-10-15");
    assert_eq!(github_updated_since_at(951_868_799, 0), "updated:>=2000-02-29");
    assert_eq!(github_updated_since_at(951_868_800, 0), "updated:>=2000-03-01");
    assert_eq!(gmail_after_query_at(0, 1), "after:1969/12/31");
    assert_eq!(gmail_after_query_at(86_399, 0), "after:1970/01/01");
}

#[test]
fn search_terms_reach_both_ends_of_the_calendar() {
    let latest = 8_210_266_876_799;
    assert_eq!(gmail_after_query_at(latest, 0), "after:+262142/12/31");
    assert_eq!(github_updated_since_at(0, 96_465_292), "updated:>=-262143-01-01");
    // The first and the last day of year 9999, and the day after it.
    assert_eq!(gmail_after_query_at(253_402_300_799, 0), "after:9999/12/31");
    assert_eq!(gmail_after_query_at(253_402_300_800, 0), "after:+10000/01/01");
    // Year 0, and the day before it.
    assert_eq!(gmail_after_query_at(0, 719_528), "after:0000/01/01");
    assert_eq!(gmail_after_query_at(0, 719_529), "after:-0001/12/31");
}

#[test]
fn search_terms_count_from_now() {
    let date = |layout: &str| {
        (chrono::Utc::now() - chrono::TimeDelta::days(14)).format(layout).to_string()
    };
    // The date may turn between two looks at the clock, so it is looked at on both sides.
    let before = date("%Y/%m/%d");
    let term = gmail_after_query(14);
    let after = date("%Y/%m/%d");
    assert!(term == format!("after:{before}") || term == format!("after:{after}"), "{term}");
    let before = date("%Y-%m-%d");
    let term = github_updated_since(14);
    let after = date("%Y-%m-%d");
    assert!(
        term == format!("updated:>={before}") || term == format!("updated:>={after}"),
        "{term}"
    );
}

#[test]
fn a_window_is_added_to_the_arguments() {
    let mut arguments = parse(r#"{ "q": "is:issue" }"#);
    DepthWindow::GmailQueryAfter.apply_at(&mut arguments, NOW, 30);
    assert_eq!(arguments.to_text(), r#"{"q":"is:issue","query":"after:2023/10/15"}"#);

    let mut arguments = Json::Null;
    DepthWindow::GmailQueryAfter.apply_at(&mut arguments, NOW, 30);
    assert_eq!(arguments.to_text(), r#"{"query":"after:2023/10/15"}"#);

    let mut arguments = parse(r#"{ "q": "is:issue", "sort": "x" }"#);
    DepthWindow::GithubUpdatedSince.apply_at(&mut arguments, NOW, 30);
    assert_eq!(arguments.to_text(), r#"{"q":"is:issue updated:>=2023-10-15","sort":"x"}"#);
}

#[test]
fn the_github_window_never_stands_in_for_a_query() {
    for text in [r#"{"sort":"x"}"#, r#"{"q":5}"#, "null", "[1]", r#""q""#] {
        let mut arguments = parse(text);
        DepthWindow::GithubUpdatedSince.apply_at(&mut arguments, NOW, 30);
        assert_eq!(arguments.to_text(), text);
        DepthWindow::GithubUpdatedSince.apply(&mut arguments, 30);
        assert_eq!(arguments.to_text(), text);
    }
}

// ---- the request ----

#[test]
fn a_request_carries_what_every_read_sends_and_what_this_one_does() {
    let extra = vec![("team_id", Json::text("w1")), ("sort", Json::Bool(true))];
    let request = page_request_at(&LIMITS, Some("abc"), &spec(TOKEN, None, false), extra, NOW);
    assert_eq!(request.action, "READ_ITEMS");
    assert_eq!(request.page_size, 10);
    assert_eq!(request.number, None);
    assert_eq!(
        request.arguments.to_text(),
        r#"{"page":"abc","per_page":10,"q":"is:issue","sort":true,"team_id":"w1"}"#
    );
}

#[test]
fn a_first_token_page_names_no_cursor() {
    let request = page_request(&LIMITS, None, &spec(TOKEN, None, false), Vec::new());
    assert_eq!(
        request.arguments.to_text(),
        r#"{"per_page":10,"q":"is:issue","sort":"updated"}"#
    );
}

#[test]
fn a_numbered_request_always_names_its_page() {
    let numbered = spec(NUMBERED, None, false);
    for (cursor, page) in [(None, 1), (Some("7"), 7), (Some("0"), 1), (Some("what"), 1)] {
        let request = page_request(&LIMITS, cursor, &numbered, Vec::new());
        assert_eq!(request.number, Some(page));
        assert_eq!(request.arguments.get("page").unwrap().to_text(), page.to_string());
    }
}

#[test]
fn a_request_never_asks_for_more_than_the_run_can_use() {
    for (max_items, page_size) in [(0, 1), (1, 1), (3, 3), (100, 100), (101, 100), (usize::MAX, 100)] {
        let limits = SyncLimits { max_items, depth_days: None };
        let request = page_request(&limits, None, &spec(TOKEN, None, false), Vec::new());
        assert_eq!(request.page_size, page_size);
        assert_eq!(request.arguments.get("per_page").unwrap().to_text(), page_size.to_string());
    }
}

#[test]
fn a_request_is_bounded_when_both_the_run_and_the_toolkit_say_so() {
    let bounded = SyncLimits { max_items: 10, depth_days: Some(30) };
    let github = spec(TOKEN, Some(DepthWindow::GithubUpdatedSince), false);
    let q = |limits: &SyncLimits, spec: &PageSpec| {
        let request = page_request_at(limits, None, spec, Vec::new(), NOW);
        request.arguments.get("q").unwrap().to_text()
    };
    assert_eq!(q(&bounded, &github), r#""is:issue updated:>=2023-10-15""#);
    assert_eq!(q(&LIMITS, &github), r#""is:issue""#);
    assert_eq!(q(&bounded, &spec(TOKEN, None, false)), r#""is:issue""#);

    let gmail = spec(TOKEN, Some(DepthWindow::GmailQueryAfter), false);
    let request = page_request(&bounded, None, &gmail, Vec::new());
    let query = request.arguments.get("query").unwrap().to_text();
    assert!(query.starts_with("\"after:20"), "{query}");
}

// ---- the reply ----

#[test]
fn items_become_records() {
    let text = r#"{ "items": [
        { "id": 7, "title": " A title ", "body": " text ", "link": "http://x", "updated": 99 },
        { "id": "b" }
    ], "next": "t2" }"#;
    let page = read(text, &spec(TOKEN, None, false), 10, None);
    assert_eq!(page.records.len(), 2);
    let record = &page.records[0];
    assert_eq!(record.item_id, "7");
    assert_eq!(record.title, "A title");
    assert_eq!(record.content, "text");
    assert_eq!(record.mime.as_deref(), Some("text/plain"));
    assert_eq!(record.url.as_deref(), Some("http://x"));
    assert_eq!(record.updated_at_ms, None);
    assert!(record.tags.is_empty());
    // An item with no recognizable body field carries the whole item.
    let record = &page.records[1];
    assert_eq!(record.title, "");
    assert_eq!(record.content, r#"{"id":"b"}"#);
    assert_eq!(record.url, None);
    assert_eq!(page.versions, vec![("7".to_string(), "99".to_string())]);
    assert_eq!(page.next_cursor.as_deref(), Some("t2"));
    assert_eq!(page.requests_used, 1);
}

#[test]
fn an_item_with_no_id_is_dropped_but_counted() {
    let text = r#"{ "items": [{ "title": "x", "updated": 1 }, { "id": "b" }, { "id": " " }] }"#;
    let numbered = spec(NUMBERED, None, false);
    assert_eq!(item_count(&parse(text), &numbered), 3);
    let page = read(text, &numbered, 3, Some(1));
    assert_eq!(page.records.len(), 1);
    assert_eq!(page.records[0].item_id, "b");
    assert!(page.versions.is_empty());
    // The provider's page was full, whatever was kept of it.
    assert_eq!(page.next_cursor.as_deref(), Some("2"));
    assert_eq!(item_count(&parse("{}"), &numbered), 0);
}

#[test]
fn bodies_are_cleaned_where_the_toolkit_says_so() {
    let text = r#"{ "items": [{ "id": "a", "body": "quiet" }] }"#;
    assert_eq!(read(text, &spec(TOKEN, None, true), 1, None).records[0].content, "QUIET");
    assert_eq!(read(text, &spec(TOKEN, None, false), 1, None).records[0].content, "quiet");
    assert_eq!(body(" a ", false, &shout), "a");
    assert_eq!(body(" a ", true, &shout), " A ");
}

#[test]
fn a_body_is_cut_to_the_longest_kept() {
    let long = "é".repeat(MAX_BODY_CHARS + 5);
    assert_eq!(body(&long, false, &shout).chars().count(), 20_000);
    assert_eq!(body(&long, true, &shout).chars().count(), 20_000);
    let exact = "x".repeat(MAX_BODY_CHARS);
    assert_eq!(body(&exact, false, &shout), exact);
}

#[test]
fn a_token_page_goes_on_where_the_payload_says() {
    let token = spec(TOKEN, None, false);
    assert_eq!(read(r#"{ "data": { "next": "n" } }"#, &token, 1, None).next_cursor.as_deref(), Some("n"));
    assert_eq!(read(r#"{ "next": "" }"#, &token, 1, None).next_cursor, None);
    let connection = spec(Paging::PageInfo { page_info: &["/pageInfo"] }, None, false);
    let text = r#"{ "pageInfo": { "hasNextPage": true, "endCursor": "e" } }"#;
    assert_eq!(read(text, &connection, 1, None).next_cursor.as_deref(), Some("e"));
    let text = r#"{ "pageInfo": { "hasNextPage": false, "endCursor": "e" } }"#;
    assert_eq!(read(text, &connection, 1, None).next_cursor, None);
}

#[test]
fn a_numbered_page_goes_on_at_the_next_number() {
    let numbered = spec(NUMBERED, None, false);
    let one = r#"{ "items": [{ "id": "a" }] }"#;
    assert_eq!(read(one, &numbered, 1, Some(1)).next_cursor.as_deref(), Some("2"));
    assert_eq!(read(one, &numbered, 2, Some(1)).next_cursor, None);
    assert_eq!(read(one, &numbered, 1, Some(100)).next_cursor, None, "out of reach");
    let flagged = r#"{ "items": [{ "id": "a" }], "last_page": true }"#;
    assert_eq!(read(flagged, &numbered, 1, Some(1)).next_cursor, None);
    // What the page itself says is read back as the page after it.
    let next = read(one, &numbered, 1, Some(41)).next_cursor;
    assert_eq!(page_number(next.as_deref(), 1), 42);
    // A payload on its own does not say which page it is.
    assert_eq!(page_from(&parse(one), &numbered, &shout).next_cursor, None);
}

#[test]
fn a_failed_request_fails_the_page() {
    let error = Error::Action { action: "READ_ITEMS".to_string(), message: "503".to_string() };
    match page_reply(Err(error), &spec(TOKEN, None, false), 1, None, &shout) {
        Err(Error::Action { action, message }) => {
            assert_eq!((action.as_str(), message.as_str()), ("READ_ITEMS", "503"));
        }
        other => panic!("{other:?}"),
    }
    let error = Error::Decode { key: "k".to_string(), message: "m".to_string() };
    assert!(matches!(
        page_reply(Err(error), &spec(TOKEN, None, false), 1, None, &shout),
        Err(Error::Decode { .. })
    ));
}
