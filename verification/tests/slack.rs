//! Tests for the Slack walk over channels, their history and their threads.

use connector_sync::pipeline::{pick_str, ConnectorRecord, ProviderPage};
use connector_sync::provider::{Error, SyncLimits};
use connector_sync::toolkits::slack::cursor::Cursor;
use connector_sync::toolkits::slack::read::{Reply, SlackRead, Stage};
use connector_sync::toolkits::slack::state::{Channel, Mark, WalkState, USERS_TTL_MS};
use connector_sync::toolkits::slack::walk::{
    after_thread, empty_page, HistoryReply, Outcome, ThreadReply, UserDirectory,
    ACTION_CONVERSATIONS, ACTION_HISTORY, ACTION_THREAD, ACTION_USERS, PROFILE_ACTION,
};
use connector_sync::toolkits::SlackProvider;
use connector_sync::value::Json;

// ---- doubles ----

const NOW: i64 = 1_700_000_000;
const NOW_MS: i64 = 1_700_000_000_000;

fn convert(value: serde_json::Value) -> Json {
    match value {
        serde_json::Value::Null => Json::Null,
        serde_json::Value::Bool(b) => Json::Bool(b),
        serde_json::Value::Number(n) => Json::Number(n),
        serde_json::Value::String(text) => Json::Text(text),
        serde_json::Value::Array(items) => Json::Array(items.into_iter().map(convert).collect()),
        serde_json::Value::Object(map) => {
            Json::Object(map.into_iter().map(|(k, v)| (k, convert(v))).collect())
        }
    }
}

fn parse(text: &str) -> Json {
    convert(serde_json::from_str(text).unwrap())
}

fn some(text: &str) -> Option<String> {
    Some(text.to_string())
}

fn limits(max_items: usize, depth_days: Option<u32>) -> SyncLimits {
    SyncLimits { max_items, depth_days }
}

fn channel(id: &str) -> Channel {
    Channel { id: id.to_string(), name: format!("name-of-{id}") }
}

/// A walk with a roster of `ids` and a directory that is not stale.
fn walk_over(ids: &[&str]) -> WalkState {
    let mut walk = WalkState::default();
    walk.channels = ids.iter().map(|id| channel(id)).collect();
    walk.users.insert("U1".to_string(), "Ada".to_string());
    walk.users_fetched_ms = NOW_MS;
    walk
}

fn record(id: &str) -> ConnectorRecord {
    ConnectorRecord {
        item_id: id.to_string(),
        title: String::new(),
        content: String::new(),
        mime: None,
        url: None,
        updated_at_ms: None,
        tags: Vec::new(),
    }
}

/// A page of history: messages by `ts`, those marked `true` with replies.
fn history(messages: &[(&str, bool)], more: Option<&str>) -> HistoryReply {
    HistoryReply {
        messages: messages
            .iter()
            .map(|(ts, _)| Json::Object(vec![("ts".to_string(), Json::text(ts))]))
            .collect(),
        parents: messages.iter().map(|(ts, replies)| if *replies { some(ts) } else { None }).collect(),
        records: messages.iter().map(|(ts, _)| record(ts)).collect(),
        versions: Vec::new(),
        more: more.map(str::to_string),
    }
}

fn thread(ids: &[&str], more: Option<&str>) -> ThreadReply {
    ThreadReply {
        records: ids.iter().map(|id| record(id)).collect(),
        versions: ids.iter().map(|id| (id.to_string(), "v".to_string())).collect(),
        more: more.map(str::to_string),
    }
}

fn failure() -> Error {
    Error::Action { action: "A".to_string(), message: "channel_not_found".to_string() }
}

/// The action and the arguments that a read waits for.
fn asked(read: &SlackRead) -> (String, String) {
    let (action, arguments) = read.request_at(NOW).unwrap();
    (action.to_string(), arguments.to_text())
}

/// The page of a read that is over.
fn page(read: &SlackRead) -> &ProviderPage {
    match &read.stage {
        Stage::Done(page) => page,
        other => panic!("{other:?}"),
    }
}

/// One page read that makes one request.
fn one(walk: WalkState, cursor: &str, depth_days: Option<u32>, reply: Reply) -> SlackRead {
    SlackRead::begin(Some(cursor), walk, limits(50, depth_days)).supply_at(reply, NOW_MS).unwrap()
}

fn mark(walk: &WalkState, id: &str) -> Option<(String, Option<u32>)> {
    walk.high_water.get(id).map(|mark| (mark.ts.clone(), mark.depth_days))
}

// ---- the cursor ----

#[test]
fn a_cursor_survives_being_stored() {
    for cursor in [
        Cursor::default(),
        Cursor::new(7, None),
        Cursor::new(7, some("aGVsbG8=")),
        Cursor::in_thread(7, None, "1700.0001".to_string(), None),
        Cursor::in_thread(7, some("h"), "1700.0001".to_string(), some("p")),
        Cursor::in_thread(usize::MAX, None, "t".to_string(), some("p|q")),
    ] {
        assert_eq!(Cursor::decode(Some(&cursor.encode())), cursor);
        assert_eq!(cursor.clone(), cursor);
    }
    assert_eq!(Cursor::in_thread(3, some("h"), "t".to_string(), some("p")).encode(), "3|h|t|p");
    assert_eq!(Cursor::new(3, None).encode(), "3|||");
}

#[test]
fn a_cursor_from_an_older_release_is_in_no_thread() {
    assert_eq!(Cursor::decode(Some("3")), Cursor::new(3, None));
    assert_eq!(Cursor::decode(Some("3|h")), Cursor::new(3, some("h")));
    assert_eq!(Cursor::decode(Some("3|h|")), Cursor::new(3, some("h")));
}

#[test]
fn a_cursor_that_does_not_parse_restarts_the_walk() {
    for raw in ["", "x|h|t|p", "-1|h", "|h|t|p", " 3|h", "99999999999999999999999|h"] {
        assert_eq!(Cursor::decode(Some(raw)), Cursor::default(), "{raw}");
    }
    assert_eq!(Cursor::decode(None), Cursor::default());
}

// ---- what the walk remembers ----

#[test]
fn the_walk_has_a_key_of_its_own() {
    assert_eq!(WalkState::key("conn_1"), "slack-walk:conn_1");
}

#[test]
fn a_walk_that_does_not_decode_starts_over() {
    assert!(WalkState::load(Ok(None)).unwrap().channels.is_empty(), "nothing stored");
    assert!(WalkState::load(Ok(Some(None))).unwrap().channels.is_empty(), "nothing decoded");
    let stored = WalkState::load(Ok(Some(Some(walk_over(&["C1"]))))).unwrap();
    assert_eq!(stored.channels, vec![channel("C1")]);
    match WalkState::load(Err(failure())) {
        Err(Error::Action { action, .. }) => assert_eq!(action, "A"),
        other => panic!("{other:?}"),
    }
}

#[test]
fn a_mark_covers_its_own_window_and_narrower_ones() {
    let mark = |depth_days| Mark { ts: "1".to_string(), depth_days };
    assert!(mark(Some(14)).covers(Some(14)));
    assert!(mark(Some(14)).covers(Some(7)));
    assert!(!mark(Some(14)).covers(Some(90)));
    assert!(!mark(Some(14)).covers(None));
    assert!(mark(None).covers(None));
    assert!(mark(None).covers(Some(90)));
}

#[test]
fn a_committed_mark_bounds_the_runs_it_covers() {
    let mut walk = WalkState::default();
    walk.pending.insert("C1".to_string(), "1699999999.000100".to_string());
    assert_eq!(walk.oldest_for_at("C1", Some(14), NOW).as_deref(), Some("1698790400.000000"));
    walk.commit_high_water("C1", Some(14));
    assert!(walk.pending.get("C1").is_none());
    assert_eq!(walk.oldest_for_at("C1", Some(14), NOW).as_deref(), Some("1699999999.000100"));
    assert_eq!(walk.oldest_for_at("C1", Some(7), NOW).as_deref(), Some("1699999999.000100"));
    // Wider than the mark: let past it.
    assert_eq!(walk.oldest_for_at("C1", Some(90), NOW).as_deref(), Some("1692224000.000000"));
    assert_eq!(walk.oldest_for_at("C1", None, NOW), None);
    // Another channel is not touched.
    assert_eq!(walk.oldest_for_at("C2", None, NOW), None);
    walk.commit_high_water("C2", None);
    assert_eq!(mark(&walk, "C2"), None);
    // Before the epoch.
    assert_eq!(walk.oldest_for_at("C2", Some(1), 0).as_deref(), Some("-86400.000000"));
}

#[test]
fn a_mark_that_the_bound_has_passed_gives_way_to_it() {
    let oldest = |ts: &str, collected, depth_days, now| {
        let mut walk = WalkState::default();
        walk.high_water.insert("C1".to_string(), Mark { ts: ts.to_string(), depth_days: collected });
        walk.oldest_for_at("C1", depth_days, now)
    };
    let week = "1699395200.000000";
    assert_eq!(oldest("17.5", Some(14), Some(7), NOW).as_deref(), Some(week));
    assert_eq!(oldest("17.5", None, Some(7), NOW).as_deref(), Some(week));
    assert_eq!(oldest("1699395199.999999", Some(14), Some(7), NOW).as_deref(), Some(week));
    assert_eq!(oldest("1699395200.5", Some(14), Some(7), NOW).as_deref(), Some("1699395200.5"));
    assert_eq!(oldest("1699395201", Some(14), Some(7), NOW).as_deref(), Some("1699395201"));
    // A run without a bound starts at a mark of any age.
    assert_eq!(oldest("17.5", None, None, NOW).as_deref(), Some("17.5"));
    // A mark that names no time cannot stand in for the bound.
    for ts in ["", ".5", "soon", "-", "--5", "-+5", "99999999999999999999.1"] {
        assert_eq!(oldest(ts, None, Some(7), NOW).as_deref(), Some(week), "{ts}");
    }
    // Before the epoch.
    assert_eq!(oldest("-5.0", None, Some(1), 0).as_deref(), Some("-5.0"));
    assert_eq!(oldest("-86401.0", None, Some(1), 0).as_deref(), Some("-86400.000000"));
}

#[test]
fn the_window_counts_from_now() {
    let walk = WalkState::default();
    let since: i64 = walk
        .oldest_for("C1", Some(2))
        .unwrap()
        .strip_suffix(".000000")
        .unwrap()
        .parse()
        .unwrap();
    let expected = chrono::Utc::now().timestamp() - 2 * 86400;
    assert!((expected - 60..=expected).contains(&since), "{since}");
    assert_eq!(walk.oldest_for("C1", None), None);
}

#[test]
fn a_directory_is_trusted_for_a_day() {
    let walk = walk_over(&[]);
    assert!(!walk.users_are_stale(NOW_MS + USERS_TTL_MS));
    assert!(walk.users_are_stale(NOW_MS + USERS_TTL_MS + 1));
    assert!(WalkState::default().users_are_stale(0), "an empty directory is always stale");
    assert_eq!(USERS_TTL_MS, 86_400_000);
}

// ---- a walk that starts ----

#[test]
fn a_walk_starts_with_the_roster_and_the_directory() {
    let read = SlackRead::begin(None, WalkState::default(), limits(50, None));
    assert_eq!(asked(&read), (
        ACTION_CONVERSATIONS.to_string(),
        r#"{"exclude_archived":true,"limit":200,"types":"public_channel,private_channel"}"#.to_string(),
    ));
    let payload = parse(
        r#"{ "data": { "channels": [
            { "id": "C1", "name": "general" }, { "name": "no id" }, { "data": { "id": "C2" } }
        ] } }"#,
    );
    let read = read.supply_at(Reply::Listing { payload, next: some("r2") }, NOW_MS).unwrap();
    assert!(read.changed);
    assert_eq!(read.walk.channels.len(), 2);
    assert_eq!(read.walk.channels[0].name, "general");
    assert_eq!(read.walk.channels[1], Channel { id: "C2".to_string(), name: "C2".to_string() });
    assert_eq!(read.walk.channels_cursor.as_deref(), Some("r2"));

    assert_eq!(asked(&read), (ACTION_USERS.to_string(), r#"{"limit":200}"#.to_string()));
    let payload = parse(
        r#"{ "members": [
            { "id": "U1", "profile": { "display_name": "Ada" }, "name": "al" },
            { "id": "U2", "real_name": "Grace" }, { "id": "U3" }, { "name": "nobody" }
        ] }"#,
    );
    let read = read.supply_at(Reply::Listing { payload, next: None }, NOW_MS + 5).unwrap();
    assert_eq!(read.walk.users.get("U1").map(String::as_str), Some("Ada"));
    assert_eq!(read.walk.users.get("U2").map(String::as_str), Some("Grace"));
    assert_eq!(read.walk.users.entries().len(), 2);
    assert_eq!(read.walk.users_fetched_ms, NOW_MS, "the time the directory read started");

    assert_eq!(asked(&read), (
        ACTION_HISTORY.to_string(),
        r#"{"channel":"C1","inclusive":false,"limit":50}"#.to_string(),
    ));
    let read = read.supply_at(Reply::History(history(&[("1.1", false)], None)), NOW_MS).unwrap();
    assert_eq!(page(&read).next_cursor.as_deref(), Some("1|||"));
    assert!(read.request_at(NOW).is_none());
}

#[test]
fn a_fresh_directory_is_not_read_again() {
    let read = SlackRead::begin(None, walk_over(&[]), limits(50, None));
    let payload = parse(r#"{ "channels": [{ "id": "C9" }] }"#);
    let read = read.supply_at(Reply::Listing { payload, next: None }, NOW_MS + 1).unwrap();
    assert_eq!(asked(&read).0, ACTION_HISTORY);
    assert!(SlackProvider.refresh_users(&read.walk, NOW_MS + 1).is_none());
}

#[test]
fn a_directory_that_cannot_be_read_does_not_fail_the_walk() {
    let read = SlackRead::begin(None, WalkState::default(), limits(50, None));
    let payload = parse(r#"{ "channels": [{ "id": "C1" }] }"#);
    let read = read.supply_at(Reply::Listing { payload, next: None }, NOW_MS).unwrap();
    let failed = Reply::Failed { error: failure(), fatal: true };
    let read = read.supply_at(failed, NOW_MS).unwrap();
    assert!(read.walk.users.is_empty());
    assert_eq!(read.walk.users_fetched_ms, 0);
    assert_eq!(asked(&read).0, ACTION_HISTORY);
}

#[test]
fn what_was_read_of_a_directory_is_kept_when_it_breaks_off() {
    let mut directory = UserDirectory::new(NOW_MS);
    let payload = parse(r#"{ "members": [{ "id": "U1", "name": "a" }] }"#);
    assert!(directory.take_page(&payload, some("p2")));
    assert_eq!(directory.arguments().to_text(), r#"{"cursor":"p2","limit":200}"#);
    let mut walk = WalkState::default();
    assert!(directory.finish(&mut walk));
    assert_eq!(walk.users.entries().len(), 1);
    assert!(!UserDirectory::new(NOW_MS).finish(&mut walk), "nothing found, nothing replaced");
    assert_eq!(walk.users.entries().len(), 1);
}

#[test]
fn a_directory_is_read_for_five_pages_at_most() {
    let mut directory = UserDirectory::new(NOW_MS);
    let empty = parse("{}");
    for next in ["2", "3", "4", "5"] {
        assert!(directory.take_page(&empty, some(next)));
    }
    assert!(!directory.take_page(&empty, some("6")));
    // A cursor that does not move ends it sooner.
    let mut directory = UserDirectory::new(NOW_MS);
    assert!(directory.take_page(&empty, some("2")));
    assert!(!directory.take_page(&empty, some("2")));
}

#[test]
fn a_start_makes_no_more_than_seven_requests() {
    let mut read = SlackRead::begin(None, WalkState::default(), limits(50, None));
    let mut requests = 0;
    while let Some((action, _)) = read.request_at(NOW) {
        requests += 1;
        let reply = if action == ACTION_HISTORY {
            Reply::History(history(&[], None))
        } else {
            let payload = parse(r#"{ "channels": [{ "id": "C1" }] }"#);
            Reply::Listing { payload, next: Some(requests.to_string()) }
        };
        read = read.supply_at(reply, NOW_MS).unwrap();
    }
    assert_eq!(requests, 7);
}

#[test]
fn a_roster_that_cannot_be_read_fails_the_page() {
    let read = SlackRead::begin(None, WalkState::default(), limits(50, None));
    assert!(read.supply_at(Reply::Failed { error: failure(), fatal: false }, NOW_MS).is_err());
    let mut walk = walk_over(&["C1"]);
    walk.channels_cursor = some("r2");
    let read = SlackRead::begin(Some("1|||"), walk, limits(50, None));
    match read.supply_at(Reply::Failed { error: failure(), fatal: false }, NOW_MS) {
        Err(Error::Action { message, .. }) => assert_eq!(message, "channel_not_found"),
        other => panic!("{other:?}"),
    }
}

// ---- the roster ----

#[test]
fn the_walk_moves_to_the_next_roster_page() {
    let mut walk = walk_over(&["C1"]);
    walk.channels_cursor = some("r2");
    let read = SlackRead::begin(Some("1|||"), walk, limits(50, None));
    let (action, arguments) = asked(&read);
    assert_eq!(action, ACTION_CONVERSATIONS);
    assert!(arguments.contains(r#""cursor":"r2""#), "{arguments}");
    let payload = parse(r#"{ "channels": [{ "id": "C2" }] }"#);
    let read = read.supply_at(Reply::Listing { payload, next: some("r3") }, NOW_MS).unwrap();
    assert_eq!(page(&read).next_cursor.as_deref(), Some("0|||"));
    assert!(page(&read).records.is_empty());
    assert_eq!(read.walk.channels[0].id, "C2");
    assert_eq!(read.walk.channels_cursor.as_deref(), Some("r3"));
    assert!(read.changed);
}

#[test]
fn a_roster_cursor_that_does_not_move_ends_the_walk() {
    let mut walk = walk_over(&[]);
    walk.channels_cursor = some("r2");
    let read = one(walk, "0|||", None, Reply::Listing { payload: parse("{}"), next: some("r2") });
    assert_eq!(page(&read).next_cursor.as_deref(), Some("1|||"));
    assert_eq!(read.walk.channels_cursor, None);
    let read = SlackRead::begin(Some("1|||"), read.walk, limits(50, None));
    assert!(page(&read).next_cursor.is_none());
}

#[test]
fn a_roster_page_moves_a_walk_that_is_at_its_start() {
    let empty = || {
        let mut walk = walk_over(&[]);
        walk.channels_cursor = some("r2");
        walk
    };
    // Channels at last: the first is read at once, in the same page.
    let payload = parse(r#"{ "channels": [{ "id": "C2" }] }"#);
    let read = one(empty(), "0|||", None, Reply::Listing { payload, next: some("r3") });
    assert_eq!(asked(&read).0, ACTION_HISTORY);
    let reply = Reply::History(history(&[("1.1", false)], None));
    let read = read.supply_at(reply, NOW_MS).unwrap();
    assert_eq!(page(&read).next_cursor.as_deref(), Some("1|||"));
    assert_eq!(page(&read).records.len(), 1);
    // None yet: past a first channel that is not there, and from there to the start again.
    let read = one(empty(), "0|||", None, Reply::Listing { payload: parse("{}"), next: some("r3") });
    assert_eq!(page(&read).next_cursor.as_deref(), Some("1|||"));
    let payload = parse(r#"{ "channels": [{ "id": "C2" }] }"#);
    let read = one(read.walk, "1|||", None, Reply::Listing { payload, next: None });
    assert_eq!(page(&read).next_cursor.as_deref(), Some("0|||"));
    assert_eq!(read.walk.channels[0].id, "C2");
    // A walk that starts was given no cursor to repeat.
    let read = SlackRead::begin(None, walk_over(&[]), limits(50, None));
    let read = read
        .supply_at(Reply::Listing { payload: parse("{}"), next: some("r2") }, NOW_MS)
        .unwrap();
    let read = read.supply_at(Reply::Listing { payload: parse("{}"), next: None }, NOW_MS).unwrap();
    assert_eq!(page(&read).next_cursor.as_deref(), Some("0|||"));
}

// ---- a page never reports the position it was given ----

#[test]
fn a_history_cursor_that_does_not_move_is_not_followed() {
    let mut walk = walk_over(&["C1", "C2"]);
    walk.pending.insert("C1".to_string(), "9.9".to_string());
    walk.high_water.insert("C1".to_string(), Mark { ts: "1".to_string(), depth_days: None });
    let reply = Reply::History(history(&[("9.7", false)], Some("H")));
    let read = one(walk, "0|H||", None, reply);
    assert_eq!(page(&read).records.len(), 1, "what the page holds is kept");
    assert_eq!(page(&read).next_cursor.as_deref(), Some("1|||"));
    // What lies below was not read, so the mark stays.
    assert_eq!(mark(&read.walk, "C1"), Some(("1".to_string(), None)));
}

#[test]
fn a_lost_history_still_owes_its_threads() {
    let mut walk = walk_over(&["C1"]);
    walk.pending.insert("C1".to_string(), "9.9".to_string());
    let reply = Reply::History(history(&[("9.7", true)], Some("H")));
    let read = one(walk, "0|H||", None, reply);
    assert_eq!(page(&read).next_cursor.as_deref(), Some("0||9.7|"));
    let read = one(read.walk, "0||9.7|", None, Reply::Thread(thread(&["r"], None)));
    assert_eq!(page(&read).next_cursor.as_deref(), Some("1|||"));
    assert_eq!(mark(&read.walk, "C1"), None);
}

#[test]
fn a_reply_cursor_that_does_not_move_ends_the_thread() {
    let mut walk = walk_over(&["C1"]);
    walk.pending.insert("C1".to_string(), "9.9".to_string());
    let read = one(walk, "0||T|R", None, Reply::Thread(thread(&["r"], Some("R"))));
    assert_eq!(page(&read).records.len(), 1);
    assert_eq!(page(&read).next_cursor.as_deref(), Some("1|||"));
    assert_eq!(mark(&read.walk, "C1"), Some(("9.9".to_string(), None)));
}

#[test]
fn a_thread_owed_twice_is_not_read_twice_in_a_row() {
    let mut walk = walk_over(&["C1"]);
    walk.threads = vec!["S".to_string(), "T".to_string(), "T".to_string()];
    let read = one(walk, "0||T|", None, Reply::Thread(thread(&["r"], None)));
    assert_eq!(page(&read).next_cursor.as_deref(), Some("0||S|"));
    assert!(read.walk.threads.is_empty());
    // A copy that stands before another thread is read in its turn.
    let mut walk = walk_over(&["C1"]);
    walk.threads = vec!["t.0".to_string(), "x.1".to_string()];
    let read = one(walk, "0||t.0|", None, Reply::Thread(thread(&["r"], None)));
    assert_eq!(page(&read).next_cursor.as_deref(), Some("0||x.1|"));
    assert_eq!(read.walk.threads, ["t.0"]);
    let read = one(read.walk, "0||x.1|", None, Reply::Thread(thread(&["r"], None)));
    assert_eq!(page(&read).next_cursor.as_deref(), Some("0||t.0|"));
    // Nor is it read again at once when it could not be read.
    let mut walk = walk_over(&["C1"]);
    walk.threads = vec!["T".to_string()];
    let failed = Reply::Failed { error: failure(), fatal: false };
    let read = one(walk, "0|h|T|", None, failed);
    assert_eq!(page(&read).next_cursor.as_deref(), Some("0|h||"));
}

#[test]
fn what_a_cursor_could_not_hold_is_not_put_into_one() {
    // An empty cursor is no cursor.
    let read = one(walk_over(&["C1"]), "0|||", None, Reply::History(history(&[("5", false)], Some(""))));
    assert_eq!(page(&read).next_cursor.as_deref(), Some("1|||"));
    assert_eq!(mark(&read.walk, "C1"), Some(("5".to_string(), None)));
    let read = one(walk_over(&["C1"]), "0||T|", None, Reply::Thread(thread(&[], Some(""))));
    assert_eq!(page(&read).next_cursor.as_deref(), Some("1|||"));
    // One that holds the mark would be read back as another position.
    let reply = Reply::History(history(&[("5", false)], Some("h|")));
    let read = one(walk_over(&["C1"]), "0|h|||", None, reply);
    assert_eq!(page(&read).next_cursor.as_deref(), Some("1|||"));
    assert_eq!(mark(&read.walk, "C1"), None);
    // The same goes for the id of a thread.
    let mut reply = history(&[("5", true), ("4", true), ("3", true)], None);
    reply.parents = vec![some(""), some("a|b"), some("3")];
    let read = one(walk_over(&["C1"]), "0|||", None, Reply::History(reply));
    assert_eq!(page(&read).next_cursor.as_deref(), Some("0||3|"));
    assert!(read.walk.threads.is_empty());
}

#[test]
fn no_page_reports_the_cursor_it_was_given() {
    let fields = ["", "H", "T", "R"];
    for index in ["0", "1", "2", "+0"] {
        for (h, t, r) in (0..64).map(|n| (n / 16, n / 4 % 4, n % 4)) {
            let given = format!("{index}|{}|{}|{}", fields[h], fields[t], fields[r]);
            for more in [None, Some(""), Some("H"), Some("T"), Some("R"), Some("H|"), Some("|")] {
                for fails in [false, true] {
                    for roster in [0, 1] {
                        let mut walk = walk_over(&["C1", "C2"][..2 * roster]);
                        walk.channels_cursor = some("r2");
                        walk.threads = ["T", "", "T|", "T"].map(str::to_string).to_vec();
                        let mut read = SlackRead::begin(Some(&given), walk, limits(50, None));
                        while let Some((action, _)) = read.request_at(NOW) {
                            let reply = match action {
                                ACTION_CONVERSATIONS => Reply::Listing {
                                    payload: parse(r#"{ "channels": [{ "id": "C3" }] }"#),
                                    next: more.map(str::to_string),
                                },
                                _ if fails => Reply::Failed { error: failure(), fatal: false },
                                ACTION_THREAD => Reply::Thread(thread(&["r"], more)),
                                _ => Reply::History(history(&[("T", h == 1)], more)),
                            };
                            read = read.supply_at(reply, NOW_MS).unwrap();
                        }
                        let next = page(&read).next_cursor.as_deref();
                        assert_ne!(next, Some(given.as_str()));
                        assert_ne!(
                            next.map(|next| Cursor::decode(Some(next))),
                            Some(Cursor::decode(Some(&given))),
                            "{given} {more:?}"
                        );
                    }
                }
            }
        }
    }
}

#[test]
fn the_walk_is_over_after_the_last_channel() {
    let read = SlackRead::begin(Some("1|||"), walk_over(&["C1"]), limits(50, None));
    assert!(read.request().is_none());
    assert!(page(&read).next_cursor.is_none());
    assert!(page(&read).records.is_empty());
    assert!(!read.changed);
}

// ---- history ----

#[test]
fn a_history_read_asks_for_what_is_newer_than_the_mark() {
    let mut walk = walk_over(&["C1"]);
    let ts = "1699999999.5".to_string();
    walk.high_water.insert("C1".to_string(), Mark { ts, depth_days: None });
    let read = SlackRead::begin(Some("0|h|||"), walk, limits(0, Some(3)));
    assert_eq!(
        asked(&read).1,
        r#"{"channel":"C1","cursor":"h","inclusive":false,"limit":1,"oldest":"1699999999.5"}"#
    );
    let read = SlackRead::begin(Some("0"), walk_over(&["C1"]), limits(1000, Some(1)));
    assert_eq!(
        asked(&read).1,
        r#"{"channel":"C1","inclusive":false,"limit":200,"oldest":"1699913600.000000"}"#
    );
    assert!(SlackProvider
        .history_arguments(&read.walk, &read.position, &channel("C1"), &read.limits)
        .get("oldest")
        .is_some());
}

#[test]
fn a_channel_pages_to_its_end_before_its_mark_moves() {
    let reply = Reply::History(history(&[("9.9", false), ("9.8", false)], Some("h2")));
    let read = one(walk_over(&["C1", "C2"]), "0|||", Some(14), reply);
    assert_eq!(page(&read).next_cursor.as_deref(), Some("0|h2||"));
    assert_eq!(page(&read).records.len(), 2);
    assert_eq!(mark(&read.walk, "C1"), None);

    let reply = Reply::History(history(&[("9.7", false)], None));
    let read = one(read.walk, "0|h2||", Some(14), reply);
    assert_eq!(page(&read).next_cursor.as_deref(), Some("1|||"));
    // The newest message of the whole channel, not of its last page.
    assert_eq!(mark(&read.walk, "C1"), Some(("9.9".to_string(), Some(14))));
    assert_eq!(mark(&read.walk, "C2"), None);
}

#[test]
fn the_newest_message_is_the_first_that_has_an_id() {
    let mut reply = history(&[("", false), ("8.8", false)], None);
    reply.messages.insert(0, Json::Null);
    let read = one(walk_over(&["C1"]), "0|||", None, Reply::History(reply));
    assert_eq!(mark(&read.walk, "C1"), Some(("8.8".to_string(), None)));
    // A channel with nothing in it gets no mark.
    let read = one(walk_over(&["C1"]), "0|||", None, Reply::History(history(&[], None)));
    assert_eq!(mark(&read.walk, "C1"), None);
}

#[test]
fn threads_come_back_in_the_order_they_were_listed() {
    let messages = [("5", true), ("4", false), ("3", true), ("2", true)];
    let mut read = one(walk_over(&["C1"]), "0|||", None, Reply::History(history(&messages, Some("h2"))));
    let mut order = Vec::new();
    let mut cursor = page(&read).next_cursor.clone().unwrap();
    while let Some(parent) = Cursor::decode(Some(&cursor)).thread {
        order.push(parent);
        assert_eq!(mark(&read.walk, "C1"), None);
        read = one(read.walk, &cursor, None, Reply::Thread(thread(&["r"], None)));
        cursor = page(&read).next_cursor.clone().unwrap();
    }
    assert_eq!(order, ["5", "3", "2"]);
    assert_eq!(cursor, "0|h2||", "the history carries on where it left off");
}

#[test]
fn a_channel_is_not_exhausted_until_its_threads_are_drained() {
    let read = one(walk_over(&["C1"]), "0|||", Some(7), Reply::History(history(&[("5", true)], None)));
    assert_eq!(page(&read).next_cursor.as_deref(), Some("0||5|"));
    assert_eq!(mark(&read.walk, "C1"), None);
    let read = one(read.walk, "0||5|", Some(7), Reply::Thread(thread(&["r1"], Some("p2"))));
    assert_eq!(page(&read).next_cursor.as_deref(), Some("0||5|p2"));
    assert_eq!(page(&read).versions, vec![("r1".to_string(), "v".to_string())]);
    assert_eq!(mark(&read.walk, "C1"), None);
    let read = one(read.walk, "0||5|p2", Some(7), Reply::Thread(thread(&[], None)));
    assert_eq!(page(&read).next_cursor.as_deref(), Some("1|||"));
    assert_eq!(mark(&read.walk, "C1"), Some(("5".to_string(), Some(7))));
}

#[test]
fn entering_a_channel_drops_what_another_still_owed() {
    let mut walk = walk_over(&["C1"]);
    walk.threads = vec!["stale".to_string()];
    let read = one(walk, "0|||", None, Reply::History(history(&[("5", false)], None)));
    assert!(read.walk.threads.is_empty());
    assert_eq!(page(&read).next_cursor.as_deref(), Some("1|||"));
    // Part way in, what is owed is this channel's own.
    let mut walk = walk_over(&["C1"]);
    walk.threads = vec!["owed".to_string()];
    let read = one(walk, "0|h||", None, Reply::History(history(&[("5", true)], None)));
    assert_eq!(page(&read).next_cursor.as_deref(), Some("0||5|"));
    assert_eq!(read.walk.threads, ["owed"]);
}

#[test]
fn a_channel_that_cannot_be_read_is_skipped_and_keeps_its_mark() {
    let mut walk = walk_over(&["C1", "C2"]);
    walk.threads = vec!["t".to_string()];
    walk.pending.insert("C1".to_string(), "9".to_string());
    let read = one(walk, "0|h||", None, Reply::Failed { error: failure(), fatal: false });
    assert_eq!(page(&read).next_cursor.as_deref(), Some("1|||"));
    assert!(page(&read).records.is_empty());
    assert!(read.walk.threads.is_empty());
    assert_eq!(mark(&read.walk, "C1"), None);
    assert!(read.changed);
}

#[test]
fn a_fatal_failure_fails_the_page() {
    for cursor in ["0|||", "0||5|"] {
        let read = SlackRead::begin(Some(cursor), walk_over(&["C1"]), limits(50, None));
        let failed = Reply::Failed { error: failure(), fatal: true };
        match read.supply(failed) {
            Err(Error::Action { action, .. }) => assert_eq!(action, "A"),
            other => panic!("{other:?}"),
        }
    }
}

// ---- threads ----

#[test]
fn a_thread_read_names_its_channel_and_its_parent() {
    let read = SlackRead::begin(Some("0|h|5.5|p"), walk_over(&["C1"]), limits(50, Some(1)));
    assert_eq!(asked(&read), (
        ACTION_THREAD.to_string(),
        r#"{"channel":"C1","cursor":"p","limit":200,"ts":"5.5"}"#.to_string(),
    ));
    assert_eq!(read.left_out(), Some("5.5"), "the parent is repeated as the first reply");
    let read = SlackRead::begin(Some("0|h||"), walk_over(&["C1"]), limits(50, None));
    assert_eq!(read.left_out(), None);
}

#[test]
fn a_thread_that_cannot_be_read_costs_only_its_replies() {
    let mut walk = walk_over(&["C1"]);
    walk.threads = vec!["2".to_string(), "3".to_string()];
    let failed = Reply::Failed { error: failure(), fatal: false };
    let read = one(walk, "0|h|5|p", None, failed);
    assert_eq!(page(&read).next_cursor.as_deref(), Some("0|h|3|"));
    assert!(page(&read).records.is_empty());
    assert_eq!(read.walk.threads, ["2"]);
}

#[test]
fn a_step_can_be_taken_on_its_own() {
    let mut walk = walk_over(&["C1"]);
    walk.pending.insert("C1".to_string(), "9".to_string());
    let position = Cursor::in_thread(0, None, "5".to_string(), None);
    let read = after_thread(&mut walk, &position, &channel("C1"), "5", None, vec![record("r")], None);
    assert_eq!(read.page.next_cursor.as_deref(), Some("1|||"));
    assert_eq!(read.page.records.len(), 1);
    assert!(read.changed);
    assert_eq!(mark(&walk, "C1"), Some(("9".to_string(), None)));

    let outcome = Outcome::Failed { error: failure(), fatal: true };
    assert!(SlackProvider
        .read_history(&mut walk, &position, &channel("C1"), None, outcome)
        .is_err());
    let outcome = Outcome::Reply(thread(&["r"], some("m").as_deref()));
    let read = SlackProvider
        .read_thread(&mut walk, &position, &channel("C1"), "5", None, outcome)
        .unwrap();
    assert_eq!(read.page.next_cursor.as_deref(), Some("0||5|m"));
    assert_eq!(empty_page(some("x")).next_cursor.as_deref(), Some("x"));
}

#[test]
fn an_answer_of_another_kind_changes_nothing() {
    let read = SlackRead::begin(Some("0|||"), walk_over(&["C1"]), limits(50, None));
    let read = read.supply_at(Reply::Thread(thread(&["r"], None)), NOW_MS).unwrap();
    assert_eq!(asked(&read).0, ACTION_HISTORY);
    assert!(!read.changed);
}

// ---- the toolkit ----

#[test]
fn a_slack_profile_is_of_the_workspace() {
    let pick = |payload: &Json, paths: &[&str]| pick_str(payload, paths);
    let payload = parse(
        r#"{ "team": { "name": "Acme", "domain": "acme", "icon": { "image_132": "http://i" } } }"#,
    );
    let profile = SlackProvider.user_profile("conn_1", Ok(payload), &pick).unwrap();
    assert_eq!(profile.toolkit, "slack");
    assert_eq!(profile.connection_id.as_deref(), Some("conn_1"));
    assert_eq!(profile.display_name.as_deref(), Some("Acme"));
    assert_eq!(profile.username.as_deref(), Some("acme"));
    assert_eq!(profile.avatar_url.as_deref(), Some("http://i"));
    assert_eq!(profile.email, None);
    assert!(profile.extras.get("team").is_some());
    assert!(SlackProvider.user_profile("conn_1", Err(failure()), &pick).is_err());
    assert_eq!(PROFILE_ACTION, "SLACK_FETCH_TEAM_INFO");
    assert_eq!(SlackProvider.toolkit_slug(), "slack");
    assert_eq!(SlackProvider.sync_interval_secs(), Some(900));
    assert!(SlackProvider.description().starts_with("Read and send Slack messages"));
}
