//! Tests for the `ClickUp` walk over workspaces and their task pages.

use std::collections::VecDeque;

use connector_sync::pipeline::ProviderPage;
use connector_sync::provider::{Error, SyncLimits};
use connector_sync::toolkits::clickup::{
    decode_cursor, next_workspace, onward, resume, task_page, workspace_ids, ClickupStep,
};
use connector_sync::toolkits::ClickupProvider;
use connector_sync::value::Json;

const WORKSPACES: &str = "CLICKUP_GET_AUTHORIZED_TEAMS_WORKSPACES";
const TASKS: &str = "CLICKUP_GET_FILTERED_TEAM_TASKS";

// ---- doubles ----

fn convert(value: serde_json::Value) -> Json {
    match value {
        serde_json::Value::Null => Json::Null,
        serde_json::Value::Bool(b) => Json::Bool(b),
        serde_json::Value::Number(n) => Json::Number(n),
        serde_json::Value::String(text) => Json::Text(text),
        serde_json::Value::Array(items) => Json::Array(items.into_iter().map(convert).collect()),
        serde_json::Value::Object(map) => {
            Json::Object(map.into_iter().map(|(k, v)| (k, convert(v))).collect())
        }
    }
}

fn parse(text: &str) -> Json {
    convert(serde_json::from_str(text).unwrap())
}

fn copy(json: &Json) -> Json {
    parse(&json.to_text())
}

/// The text of an argument, as JSON.
fn argument(request: &Json, name: &str) -> String {
    request.get(name).map_or(String::new(), Json::to_text)
}

/// An action runner scripted per action, recording what it was asked.
#[derive(Default)]
struct ScriptedActions {
    replies: VecDeque<(&'static str, Result<Json, Error>)>,
    calls: Vec<(String, Json)>,
}

impl ScriptedActions {
    fn queue(&mut self, action: &'static str, reply: Result<Json, Error>) {
        self.replies.push_back((action, reply));
    }

    /// Every call made against `action`, in order, with its arguments.
    fn calls_to(&self, action: &str) -> Vec<&Json> {
        self.calls.iter().filter(|(name, _)| name == action).map(|(_, arguments)| arguments).collect()
    }

    fn run(&mut self, action: &str, arguments: &Json) -> Result<Json, Error> {
        self.calls.push((action.to_string(), copy(arguments)));
        match self.replies.iter().position(|(name, _)| *name == action) {
            Some(at) => self.replies.remove(at).unwrap().1,
            None => Ok(Json::Object(Vec::new())),
        }
    }
}

/// The workspaces payload, listing `ids`.
fn workspaces(ids: &[&str]) -> Json {
    let teams: Vec<Json> = ids
        .iter()
        .map(|id| {
            Json::Object(vec![
                ("id".to_string(), Json::text(id)),
                ("name".to_string(), Json::text("A workspace")),
            ])
        })
        .collect();
    let data = Json::Object(vec![("teams".to_string(), Json::Array(teams))]);
    Json::Object(vec![("data".to_string(), data)])
}

/// A task page of `count` tasks, carrying `ClickUp`'s `last_page` flag when given.
fn tasks(count: usize, last_page: Option<bool>) -> Json {
    let tasks: Vec<Json> = (0..count)
        .map(|n| {
            Json::Object(vec![
                ("id".to_string(), Json::Text(format!("t{n}"))),
                ("name".to_string(), Json::text("A task")),
                ("description".to_string(), Json::text("details")),
                ("date_updated".to_string(), Json::text("1700000000000")),
            ])
        })
        .collect();
    let mut data = Json::Object(vec![("tasks".to_string(), Json::Array(tasks))]);
    if let Some(last_page) = last_page {
        data.set("last_page", Json::Bool(last_page));
    }
    Json::Object(vec![("data".to_string(), data)])
}

fn action_error(action: &str) -> Error {
    Error::Action {
        action: action.into(),
        message: "upstream 503".into(),
    }
}

/// One page read, with the requests it makes run against `actions`.
fn read(actions: &mut ScriptedActions, cursor: Option<&str>) -> Result<ProviderPage, Error> {
    let limits = SyncLimits { max_items: 50, depth_days: Some(30) };
    let provider = ClickupProvider;
    let listing = actions.run(provider.workspaces_action(), &Json::Object(Vec::new()));
    match provider.task_read(&limits, cursor, listing)? {
        ClickupStep::Done(page) => Ok(page),
        ClickupStep::Read(read) => {
            let reply = actions.run(read.request.action, &read.request.arguments);
            provider.task_reply(read, reply)
        }
    }
}

// ---- the walk ----

#[test]
fn a_walk_starts_on_the_first_workspace_at_page_zero() {
    // `ClickUp` reads tasks one workspace at a time, and its task search refuses a request that
    // names none.
    let mut actions = ScriptedActions::default();
    actions.queue(WORKSPACES, Ok(workspaces(&["w1", "w2"])));
    actions.queue(TASKS, Ok(tasks(2, Some(false))));

    let page = read(&mut actions, None).unwrap();

    assert_eq!(page.records.len(), 2);
    assert_eq!(page.next_cursor.as_deref(), Some("w1|1"));
    let request = actions.calls_to(TASKS)[0];
    assert_eq!(argument(request, "team_id"), "\"w1\"");
    assert_eq!(argument(request, "page"), "0", "pages count from zero");
    // Most recently updated first, subtasks included.
    assert_eq!(argument(request, "order_by"), "\"updated\"");
    assert_eq!(argument(request, "reverse"), "true");
    assert_eq!(argument(request, "subtasks"), "true");
}

#[test]
fn the_walk_moves_to_the_next_workspace_after_a_last_page() {
    let mut actions = ScriptedActions::default();
    actions.queue(WORKSPACES, Ok(workspaces(&["w1", "w2"])));
    actions.queue(TASKS, Ok(tasks(3, Some(true))));

    let page = read(&mut actions, Some("w1|4")).unwrap();

    let request = actions.calls_to(TASKS)[0];
    assert_eq!(argument(request, "team_id"), "\"w1\"");
    assert_eq!(argument(request, "page"), "4");
    assert_eq!(page.records.len(), 3);
    assert_eq!(page.next_cursor.as_deref(), Some("w2|0"));
}

#[test]
fn the_walk_ends_after_the_last_workspace() {
    let mut actions = ScriptedActions::default();
    actions.queue(WORKSPACES, Ok(workspaces(&["w1", "w2"])));
    actions.queue(TASKS, Ok(tasks(1, Some(true))));

    let page = read(&mut actions, Some("w2|0")).unwrap();

    assert_eq!(page.records.len(), 1);
    assert!(page.next_cursor.is_none());
}

#[test]
fn without_the_flag_a_full_page_reads_on_and_a_short_one_ends_the_workspace() {
    let mut actions = ScriptedActions::default();
    actions.queue(WORKSPACES, Ok(workspaces(&["w1", "w2"])));
    actions.queue(TASKS, Ok(tasks(50, None)));
    actions.queue(WORKSPACES, Ok(workspaces(&["w1", "w2"])));
    actions.queue(TASKS, Ok(tasks(10, None)));

    let full = read(&mut actions, Some("w1|0")).unwrap();
    assert_eq!(full.next_cursor.as_deref(), Some("w1|1"));
    let short = read(&mut actions, Some("w1|1")).unwrap();
    assert_eq!(short.next_cursor.as_deref(), Some("w2|0"));
}

#[test]
fn an_empty_page_ends_the_workspace_whatever_its_flag_says() {
    // A page of nothing cannot be followed by more. Believing the flag here would walk empty
    // pages until the day's request budget ran out.
    let mut actions = ScriptedActions::default();
    actions.queue(WORKSPACES, Ok(workspaces(&["w1"])));
    actions.queue(TASKS, Ok(tasks(0, Some(false))));

    let page = read(&mut actions, Some("w1|3")).unwrap();

    assert!(page.next_cursor.is_none());
}

#[test]
fn an_account_with_no_workspace_reads_nothing() {
    let mut actions = ScriptedActions::default();
    actions.queue(WORKSPACES, Ok(workspaces(&[])));

    let page = read(&mut actions, None).unwrap();

    assert!(page.records.is_empty());
    assert!(page.next_cursor.is_none());
    assert!(actions.calls_to(TASKS).is_empty(), "no workspace, no task read");
}

#[test]
fn a_cursor_naming_a_workspace_no_longer_listed_starts_over() {
    // The account left that workspace. Reading its tasks would fail on every run from then on;
    // starting from the first listed workspace recovers.
    let mut actions = ScriptedActions::default();
    actions.queue(WORKSPACES, Ok(workspaces(&["w2"])));
    actions.queue(TASKS, Ok(tasks(1, Some(true))));

    read(&mut actions, Some("gone|3")).unwrap();

    let request = actions.calls_to(TASKS)[0];
    assert_eq!(argument(request, "team_id"), "\"w2\"");
    assert_eq!(argument(request, "page"), "0");
}

#[test]
fn an_unreadable_cursor_starts_the_walk_over() {
    for cursor in ["page-2", "w1|", "w1|-1", "|3"] {
        let mut actions = ScriptedActions::default();
        actions.queue(WORKSPACES, Ok(workspaces(&["w1"])));
        actions.queue(TASKS, Ok(tasks(1, Some(true))));

        read(&mut actions, Some(cursor)).unwrap();

        let request = actions.calls_to(TASKS)[0];
        assert_eq!(argument(request, "team_id"), "\"w1\"", "{cursor}");
        assert_eq!(argument(request, "page"), "0", "{cursor}");
    }
}

#[test]
fn workspace_ids_are_read_from_either_envelope() {
    for payload in [
        r#"{ "teams": [{ "id": 9001 }] }"#,
        r#"{ "data": { "workspaces": [{ "id": "9001" }] } }"#,
    ] {
        let mut actions = ScriptedActions::default();
        actions.queue(WORKSPACES, Ok(parse(payload)));
        actions.queue(TASKS, Ok(tasks(1, Some(true))));

        read(&mut actions, None).unwrap();

        assert_eq!(argument(actions.calls_to(TASKS)[0], "team_id"), "\"9001\"", "{payload}");
    }
}

#[test]
fn a_workspace_listed_twice_is_walked_once() {
    // The walk finds the next workspace by position. A repeated id would send the end of the
    // first copy to the second, and on to itself forever, never reaching the workspaces listed
    // after it.
    let mut actions = ScriptedActions::default();
    actions.queue(WORKSPACES, Ok(workspaces(&["w1", "w1", "w2"])));
    actions.queue(TASKS, Ok(tasks(1, Some(true))));

    let page = read(&mut actions, Some("w1|2")).unwrap();

    assert_eq!(page.next_cursor.as_deref(), Some("w2|0"));
}

#[test]
fn a_page_read_reports_every_request_it_made() {
    // The workspace list and the task page are two requests, and the day's budget has to count
    // both or it lets a run spend twice its limit.
    let mut actions = ScriptedActions::default();
    actions.queue(WORKSPACES, Ok(workspaces(&["w1"])));
    actions.queue(TASKS, Ok(tasks(1, Some(true))));
    assert_eq!(read(&mut actions, None).unwrap().requests_used, 2);

    // With no workspace there is no task read: the list is the only request.
    let mut actions = ScriptedActions::default();
    actions.queue(WORKSPACES, Ok(workspaces(&[])));
    assert_eq!(read(&mut actions, None).unwrap().requests_used.max(1), 1);
}

#[test]
fn a_failed_read_fails_the_page() {
    // Either request failing is the run's failure to report. An empty page would read as "nothing
    // to sync".
    let mut actions = ScriptedActions::default();
    actions.queue(WORKSPACES, Err(action_error(WORKSPACES)));
    assert!(read(&mut actions, None).is_err());

    let mut actions = ScriptedActions::default();
    actions.queue(WORKSPACES, Ok(workspaces(&["w1"])));
    actions.queue(TASKS, Err(action_error(TASKS)));
    assert!(read(&mut actions, None).is_err());
}

#[test]
fn a_failed_read_keeps_the_error_it_failed_with() {
    let limits = SyncLimits { max_items: 50, depth_days: None };
    match ClickupProvider.task_read(&limits, None, Err(action_error(WORKSPACES))) {
        Err(Error::Action { action, message }) => {
            assert_eq!(action, WORKSPACES);
            assert_eq!(message, "upstream 503");
        }
        other => panic!("{other:?}"),
    }
}

// ---- the parts ----

#[test]
fn a_cursor_names_a_workspace_and_a_page() {
    assert_eq!(decode_cursor("w1|4"), Some(("w1".to_string(), 4)));
    assert_eq!(decode_cursor("a|b|12"), Some(("a|b".to_string(), 12)));
    assert_eq!(decode_cursor("w1|+7"), Some(("w1".to_string(), 7)));
    assert_eq!(decode_cursor("w1|4294967295"), Some(("w1".to_string(), u32::MAX)));
    for cursor in ["", "|", "w1", "w1|", "w1|-1", "|3", "w1| 3", "w1|4294967296", "w1|x"] {
        assert_eq!(decode_cursor(cursor), None, "{cursor}");
    }
}

#[test]
fn a_cursor_after_a_page_reads_back() {
    let listed = vec!["w|1".to_string(), "w2".to_string()];
    let cursor = onward(&listed, "w|1", Some("5".to_string())).unwrap();
    assert_eq!(cursor, "w|1|5");
    assert_eq!(resume(Some(&cursor), &listed), Some(("w|1".to_string(), 5)));
    let cursor = onward(&listed, "w|1", None).unwrap();
    assert_eq!(resume(Some(&cursor), &listed), Some(("w2".to_string(), 0)));
    assert_eq!(onward(&listed, "w2", None), None);
}

#[test]
fn the_next_workspace_is_the_one_listed_after() {
    let listed: Vec<String> = ["a", "b", "c"].iter().map(|id| id.to_string()).collect();
    assert_eq!(next_workspace(&listed, "a"), Some("b"));
    assert_eq!(next_workspace(&listed, "b"), Some("c"));
    assert_eq!(next_workspace(&listed, "c"), None);
    assert_eq!(next_workspace(&listed, "d"), None);
    assert_eq!(next_workspace(&[], "a"), None);
}

#[test]
fn a_workspace_without_an_id_is_not_listed() {
    let payload = parse(
        r#"{ "data": { "teams": [{ "name": "x" }, { "team_id": 7 }, { "workspace_id": " w " }, { "id": "7" }] } }"#,
    );
    assert_eq!(workspace_ids(&payload), vec!["7".to_string(), "w".to_string()]);
}

#[test]
fn a_task_page_asks_for_what_the_run_can_use() {
    for (max_items, asked) in [(0, "1"), (1, "1"), (50, "50"), (100, "100"), (5000, "100")] {
        let limits = SyncLimits { max_items, depth_days: None };
        match ClickupProvider.task_read(&limits, None, Ok(workspaces(&["w1"]))) {
            Ok(ClickupStep::Read(read)) => {
                assert_eq!(argument(&read.request.arguments, "page_size"), asked);
            }
            other => panic!("{other:?}"),
        }
    }
}

#[test]
fn a_task_becomes_a_record() {
    let mut actions = ScriptedActions::default();
    actions.queue(WORKSPACES, Ok(workspaces(&["w1"])));
    actions.queue(TASKS, Ok(tasks(1, Some(true))));
    let page = read(&mut actions, None).unwrap();
    let record = &page.records[0];
    assert_eq!(record.item_id, "t0");
    assert_eq!(record.title, "A task");
    assert_eq!(record.content, "details");
    assert_eq!(record.mime.as_deref(), Some("text/plain"));
    assert_eq!(page.versions, vec![("t0".to_string(), "1700000000000".to_string())]);
    assert_eq!(task_page().action, TASKS);
}

#[test]
fn a_clickup_profile_is_read_from_the_payload() {
    let pick = |payload: &Json, paths: &[&str]| connector_sync::pipeline::pick_str(payload, paths);
    let payload = parse(r#"{ "username": "ada", "email": "a@b.c", "profilePicture": "http://p" }"#);
    let profile = ClickupProvider.user_profile("conn_1", Ok(payload), &pick).unwrap();
    assert_eq!(profile.toolkit, "clickup");
    assert_eq!(profile.connection_id.as_deref(), Some("conn_1"));
    assert_eq!(profile.username.as_deref(), Some("ada"));
    assert_eq!(profile.display_name.as_deref(), Some("ada"));
    assert_eq!(profile.email.as_deref(), Some("a@b.c"));
    assert_eq!(profile.avatar_url.as_deref(), Some("http://p"));
    assert!(ClickupProvider
        .user_profile("conn_1", Err(action_error(ClickupProvider.profile_action())), &pick)
        .is_err());
    assert_eq!(ClickupProvider.toolkit_slug(), "clickup");
    assert_eq!(ClickupProvider.sync_interval_secs(), Some(900));
    assert!(ClickupProvider.description().contains("`ClickUp` tasks"));
}
