//! What the library answers, call by call.
//!
//! Each law here speaks of the answer that a function gives, and of how the answers of two calls
//! relate.

use vstd::prelude::*;

use crate::clock;
use crate::pipeline::fetch;
use crate::pipeline::fetch::{PageRequest, PageSpec, Paging};
use crate::pipeline::json;
use crate::pipeline::laws;
use crate::pipeline::run::ProviderPage;
use crate::provider::{Error, ProviderUserProfile, SyncLimits};
use crate::text;
use crate::toolkits::clickup;
use crate::toolkits::clickup::{ClickupProvider, ClickupStep, TaskRead};
use crate::toolkits::slack::cursor;
use crate::toolkits::slack::cursor::Cursor;
use crate::toolkits::slack::laws as slack_laws;
use crate::toolkits::slack::read;
use crate::toolkits::slack::read::{Reply, SlackRead, Stage};
use crate::toolkits::slack::state;
use crate::toolkits::slack::state::{Mark, WalkState};
use crate::toolkits::slack::walk;
use crate::toolkits::slack::walk::SlackProvider;
use crate::value;
use crate::value::{Json, JsonView};

verus! {

// ---- reading values ----

/// A member that is a string is picked by its name, without the white space around it, whatever
/// other members there are and whatever paths are tried after it, unless it is blank.
pub proof fn member_is_picked_by_its_name(
    value: &Json,
    paths: &[&str],
    name: &str,
    member: Seq<char>,
    result: Option<String>,
)
    requires
        call_ensures(json::pick_str, (value, paths), result),
        paths@.len() > 0,
        paths@[0]@ == name@,
        value::at_pointer(value@, "/"@ + name@) == Some(JsonView::Text(member)),
        !name@.contains('.'),
        text::trimmed(member).len() > 0,
    ensures
        result matches Some(found) && found@ == text::trimmed(member),
{
    let all = text::texts(paths@);
    assert(all[0] == name@);
    laws::dotted_path_leads_on(name@, Seq::empty());
    laws::first_path_to_a_scalar_is_picked(value@, all, 0);
}

/// The items found at the first place that has an array are all of them, in their order.
pub proof fn array_at_the_first_place_is_taken(
    value: &Json,
    pointers: &[&str],
    elements: Seq<JsonView>,
    items: Vec<Json>,
)
    requires
        call_ensures(json::first_array, (value, pointers), items),
        pointers@.len() > 0,
        value::at_pointer(value@, pointers@[0]@) == Some(JsonView::Array(elements)),
    ensures
        items@.len() == elements.len(),
        forall|i: int| 0 <= i < elements.len() ==> (#[trigger] items@[i])@ == elements[i],
{
    laws::first_of_its_kind_is_taken(value@, text::texts(pointers@), 0);
    assert(text::texts(pointers@)[0] == pointers@[0]@);
    let views = json::views(items@);
    assert(views.len() == items@.len());
    assert forall|i: int| 0 <= i < elements.len() implies (#[trigger] items@[i])@
        == elements[i] by {
        assert(views[i] == items@[i]@);
    }
}

/// A page token at the first place that has a string is taken without the white space around it,
/// and a blank one is no token.
pub proof fn token_at_the_first_place_is_taken(
    value: &Json,
    pointers: &[&str],
    found: Seq<char>,
    token: Option<String>,
)
    requires
        call_ensures(json::token_at, (value, pointers), token),
        pointers@.len() > 0,
        value::at_pointer(value@, pointers@[0]@) == Some(JsonView::Text(found)),
    ensures
        text::trimmed(found).len() > 0 ==> (token matches Some(token) && token@ == text::trimmed(
            found,
        )),
        text::trimmed(found).len() == 0 ==> token is None,
{
    laws::first_of_its_kind_is_taken(value@, text::texts(pointers@), 0);
    assert(text::texts(pointers@)[0] == pointers@[0]@);
}

/// A Google-style token is found in the outermost `data` envelope before anywhere else.
pub proof fn page_token_is_found(value: &Json, found: Seq<char>, token: Option<String>)
    requires
        call_ensures(json::next_page_token, (value,), token),
        value::at_pointer(value@, "/data/nextPageToken"@) == Some(JsonView::Text(found)),
        text::trimmed(found).len() > 0,
    ensures
        token matches Some(token) && token@ == text::trimmed(found),
{
    laws::first_of_its_kind_is_taken(value@, json::page_token_pointers(), 0);
}

/// A connection at the first place that has a value goes on at its end cursor while it has a next
/// page, and nowhere otherwise.
pub proof fn connection_at_the_first_place_is_followed(
    value: &Json,
    pointers: &[&str],
    page_info: JsonView,
    end: Seq<char>,
    cursor: Option<String>,
)
    requires
        call_ensures(json::end_cursor, (value, pointers), cursor),
        pointers@.len() > 0,
        value::at_pointer(value@, pointers@[0]@) == Some(page_info),
        json::member(page_info, "endCursor"@) == Some(JsonView::Text(end)),
        text::trimmed(end).len() > 0,
    ensures
        json::member(page_info, "hasNextPage"@) == Some(JsonView::Bool(true)) ==> (cursor matches
            Some(cursor) && cursor@ == text::trimmed(end)),
        json::member(page_info, "hasNextPage"@) != Some(JsonView::Bool(true)) ==> cursor is None,
{
    laws::first_of_its_kind_is_taken(value@, text::texts(pointers@), 0);
    assert(text::texts(pointers@)[0] == pointers@[0]@);
}

/// A flag at the first place that has a boolean is what that says.
pub proof fn flag_at_the_first_place_is_believed(
    value: &Json,
    pointers: &[&str],
    says: bool,
    flag: Option<bool>,
)
    requires
        call_ensures(json::flag_at, (value, pointers), flag),
        pointers@.len() > 0,
        value::at_pointer(value@, pointers@[0]@) == Some(JsonView::Bool(says)),
    ensures
        flag == Some(says),
{
    laws::first_of_its_kind_is_taken(value@, text::texts(pointers@), 0);
    assert(text::texts(pointers@)[0] == pointers@[0]@);
}

// ---- page reads ----

/// The page that a numbered cursor names is the one after the page that reported it.
pub proof fn next_page_is_the_one_reported(
    page: u32,
    first: u32,
    items: usize,
    page_size: usize,
    next: Option<u32>,
    cursor: &str,
    read: u32,
)
    requires
        call_ensures(
            fetch::next_page_number,
            (page, first, None::<u32>, items, page_size, Some(false)),
            next,
        ),
        call_ensures(fetch::page_number, (Some(cursor), first), read),
        page >= first,
        page < u32::MAX,
        items > 0,
        next is Some ==> cursor@ == text::decimal(next->0 as nat),
    ensures
        next is Some,
        read == page + 1,
{
    laws::numbered_walk_does_not_stop_early(
        page,
        first,
        None,
        items as nat,
        page_size,
        Some(false),
    );
    fetch::numbered_cursor_reads_back((page + 1) as u32, first);
}

/// A page is asked for with its toolkit's action, in the size the run can use, and from where the
/// cursor resumes.
pub proof fn page_is_asked_for(
    limits: &SyncLimits,
    resumes: &str,
    spec: &PageSpec,
    this_read: Vec<(&'static str, Json)>,
    now: i64,
    request: PageRequest,
)
    requires
        call_ensures(
            fetch::page_request_at,
            (limits, Some(resumes), spec, this_read, now),
            request,
        ),
        spec.depth_window is None || limits.depth_days is None,
    ensures
        request.action@ == spec.action@,
        request.page_size == limits.max_items || request.page_size == 100 && limits.max_items > 100
            || request.page_size == 1 && limits.max_items == 0,
        match spec.paging {
            Paging::Numbered { first, .. } => request.number is Some && request.number->0 >= first
                && json::member(request.arguments@, spec.cursor_arg@) == Some(
                JsonView::Number(text::decimal(request.number->0 as nat)),
            ),
            _ => request.number is None && json::member(request.arguments@, spec.cursor_arg@)
                == Some(JsonView::Text(resumes@)),
        },
{
    fetch::no_window_no_bound(
        *limits,
        Some(resumes@),
        *spec,
        fetch::json_arguments(this_read@),
        now as int,
    );
}

/// A page has a record for each item that has an id, and counts one request. A request that failed
/// fails the page, with its own error.
pub proof fn page_is_read_or_fails<F: Fn(&str) -> String>(
    reply: Result<Json, Error>,
    spec: &PageSpec,
    page_size: usize,
    number: Option<u32>,
    clean_body: &F,
    result: Result<ProviderPage, Error>,
)
    requires
        call_ensures(
            fetch::page_reply::<F>,
            (reply, spec, page_size, number, clean_body),
            result,
        ),
    ensures
        reply matches Err(error) ==> result == Err::<ProviderPage, Error>(error),
        reply matches Ok(payload) ==> (result matches Ok(page) && ({
            let items = json::elements_found(payload@, text::texts(spec.item_pointers@));
            &&& page.records@.len() == laws::with_id(items, *spec)
            &&& page.versions@.len() == laws::with_version(items, *spec)
            &&& page.requests_used == 1
            &&& spec.paging matches Paging::Token { next } ==> text::string_view(page.next_cursor)
                == json::token_found(payload@, text::texts(next@))
            &&& spec.paging matches Paging::PageInfo { page_info } ==> text::string_view(
                page.next_cursor,
            ) == json::end_cursor_found(payload@, text::texts(page_info@))
        })),
{
    if let Ok(payload) = reply {
        if let Ok(page) = result {
            laws::cleaned_page_keeps_every_item_with_an_id(
                page,
                payload@,
                *spec,
                *clean_body,
                -1,
            );
        }
    }
}

// ---- ClickUp ----

/// A walk over an account that lists workspaces asks for a page of one of them: where the cursor
/// says, if the account lists that workspace, and otherwise the first page of the first. An
/// account that lists none reads nothing, and a listing that failed fails with its own error.
pub proof fn task_read_goes_where_the_cursor_says(
    provider: &ClickupProvider,
    limits: &SyncLimits,
    resumes: &str,
    listing: Result<Json, Error>,
    workspace: Seq<char>,
    page: u32,
    result: Result<ClickupStep, Error>,
)
    requires
        call_ensures(
            ClickupProvider::task_read,
            (provider, limits, Some(resumes), listing),
            result,
        ),
        resumes@ == workspace + "|"@ + text::decimal(page as nat),
        workspace.len() > 0,
    ensures
        listing matches Err(error) ==> result == Err::<ClickupStep, Error>(error),
        listing matches Ok(payload) ==> ({
            let listed = clickup::workspaces_listed(payload@);
            let (asked, number) = if listed.contains(workspace) {
                (workspace, page)
            } else {
                (listed[0], 0u32)
            };
            if listed.len() == 0 {
                result matches Ok(ClickupStep::Done(nothing)) && nothing.records@.len() == 0
                    && nothing.next_cursor is None
            } else {
                result matches Ok(ClickupStep::Read(read)) && read.workspace@ == asked
                    && text::strings(read.workspaces@) == listed && json::member(
                    read.request.arguments@,
                    "team_id"@,
                ) == Some(JsonView::Text(asked)) && json::member(
                    read.request.arguments@,
                    "page"@,
                ) == Some(JsonView::Number(text::decimal(number as nat)))
            }
        }),
{
    clickup::cursor_reads_back(workspace, page);
    if let Ok(payload) = listing {
        let listed = clickup::workspaces_listed(payload@);
        let (asked, number) = if listed.contains(workspace) {
            (workspace, page)
        } else {
            (listed[0], 0u32)
        };
        if let Ok(ClickupStep::Read(read)) = result {
            clickup::task_read_asks_for_its_workspace(
                read,
                listed,
                asked,
                number,
                limits.max_items,
            );
        }
    }
}

/// The page of a task read has a record for each task that has an id and counts both requests. It
/// goes on at the next page of its workspace while the workspace has one. A read that failed
/// fails with its own error.
pub proof fn task_reply_goes_on_in_its_workspace(
    provider: &ClickupProvider,
    read: TaskRead,
    reply: Result<Json, Error>,
    page: u32,
    result: Result<ProviderPage, Error>,
)
    requires
        call_ensures(ClickupProvider::task_reply, (provider, read, reply), result),
        clickup::reads_tasks(read.spec),
        read.request.number == Some(page),
        text::strings(read.workspaces@).contains(read.workspace@),
        read.workspace@.len() > 0,
        page < u32::MAX,
    ensures
        reply matches Err(error) ==> result == Err::<ProviderPage, Error>(error),
        reply matches Ok(payload) ==> (result matches Ok(given) && ({
            let tasks = clickup::tasks_in(payload@, read.spec);
            let flag = clickup::last_page_flag(payload@);
            &&& given.records@.len() == laws::with_id(tasks, read.spec)
            &&& given.requests_used == 2
            &&& tasks.len() > 0 && (flag == Some(false) || flag is None && tasks.len()
                >= read.request.page_size) ==> given.next_cursor is Some && clickup::resumed(
                text::string_view(given.next_cursor),
                text::strings(read.workspaces@),
            ) == Some((read.workspace@, (page + 1) as u32))
        })),
{
    if let Ok(payload) = reply {
        if let Ok(given) = result {
            laws::page_keeps_every_item_with_an_id(given, payload@, read.spec, -1);
            let tasks = clickup::tasks_in(payload@, read.spec);
            let flag = clickup::last_page_flag(payload@);
            if tasks.len() > 0 && (flag == Some(false) || flag is None && tasks.len()
                >= read.request.page_size) {
                clickup::workspace_is_read_to_its_end(
                    text::strings(read.workspaces@),
                    read.workspace@,
                    page,
                    payload@,
                    read.spec,
                    read.request.page_size,
                );
            }
        }
    }
}

/// Whether `pick` finds nothing but `found` at `paths` of a payload.
pub open spec fn picks_only<F: Fn(&Json, &[&str]) -> Option<String>>(
    pick: F,
    payload: Json,
    paths: Seq<Seq<char>>,
    found: Option<String>,
) -> bool {
    forall|given: &Json, asked: &[&str], result: Option<String>|
        *given == payload && text::texts(asked@) == paths && #[trigger] pick.ensures(
            (given, asked),
            result,
        ) ==> result == found
}

/// A profile of `ClickUp` is named by the account's user name, and has its address and its picture
/// where the payload has them.
pub proof fn clickup_profile_is_the_users<F: Fn(&Json, &[&str]) -> Option<String>>(
    provider: &ClickupProvider,
    connection_id: &str,
    reply: Result<Json, Error>,
    pick: &F,
    name: Option<String>,
    email: Option<String>,
    picture: Option<String>,
    result: Result<ProviderUserProfile, Error>,
)
    requires
        call_ensures(
            ClickupProvider::user_profile::<F>,
            (provider, connection_id, reply, pick),
            result,
        ),
        reply matches Ok(payload) ==> picks_only(*pick, payload, seq!["username"@], name)
            && picks_only(*pick, payload, seq!["email"@], email) && picks_only(
            *pick,
            payload,
            seq!["profilePicture"@],
            picture,
        ),
    ensures
        reply matches Err(error) ==> result == Err::<ProviderUserProfile, Error>(error),
        reply matches Ok(payload) ==> (result matches Ok(profile) && profile.toolkit@ == "clickup"@
            && text::string_view(profile.connection_id) == Some(connection_id@) && profile.username
            == name && profile.display_name == name && profile.email == email && profile.avatar_url
            == picture && profile.extras == payload),
{
}

/// A profile of Slack is that of the workspace: its name, its domain and its icon.
pub proof fn slack_profile_is_the_workspaces<F: Fn(&Json, &[&str]) -> Option<String>>(
    provider: &SlackProvider,
    connection_id: &str,
    reply: Result<Json, Error>,
    pick: &F,
    name: Option<String>,
    domain: Option<String>,
    icon: Option<String>,
    result: Result<ProviderUserProfile, Error>,
)
    requires
        call_ensures(
            SlackProvider::user_profile::<F>,
            (provider, connection_id, reply, pick),
            result,
        ),
        reply matches Ok(payload) ==> picks_only(
            *pick,
            payload,
            seq!["team.name"@, "name"@, "data.team.name"@],
            name,
        ) && picks_only(
            *pick,
            payload,
            seq!["team.domain"@, "domain"@, "data.team.domain"@],
            domain,
        ) && picks_only(
            *pick,
            payload,
            seq!["team.icon.image_132"@, "icon.image_132"@],
            icon,
        ),
    ensures
        reply matches Err(error) ==> result == Err::<ProviderUserProfile, Error>(error),
        reply matches Ok(payload) ==> (result matches Ok(profile) && profile.toolkit@ == "slack"@
            && text::string_view(profile.connection_id) == Some(connection_id@)
            && profile.display_name == name && profile.username == domain && profile.avatar_url
            == icon && profile.email is None && profile.extras == payload),
{
}

// ---- Slack ----

/// A cursor that is written is read back as it was, where a stored cursor can name its position.
pub proof fn written_cursor_is_read_back(
    cursor: &Cursor,
    raw: String,
    given: &str,
    back: Cursor,
)
    requires
        call_ensures(Cursor::encode, (cursor,), raw),
        call_ensures(Cursor::decode, (Some(given),), back),
        given@ == raw@,
        cursor::readable(cursor@),
    ensures
        back@ == cursor@,
{
    cursor::cursor_reads_back(cursor@);
}

/// A walk that nothing is stored of, or nothing that decodes, starts over, and one that does goes
/// on as it was. A store that could not be read fails with its own error.
pub proof fn stored_walk_goes_on(
    found: Result<Option<Option<WalkState>>, Error>,
    result: Result<WalkState, Error>,
)
    requires
        call_ensures(WalkState::load, (found,), result),
    ensures
        found matches Err(error) ==> result == Err::<WalkState, Error>(error),
        found matches Ok(Some(Some(stored))) ==> result == Ok::<WalkState, Error>(stored),
        found is Ok && !(found matches Ok(Some(Some(_)))) ==> (result matches Ok(walk)
            && walk@.channels.len() == 0 && walk@.channels_cursor is None && walk@.threads.len()
            == 0 && walk@.high_water.dom().is_empty() && walk@.pending.dom().is_empty()
            && walk@.users.dom().is_empty() && walk@.users_fetched_ms == 0),
{
}

/// No history is asked for that is older than the run's bound, and a mark that covers the run and
/// is not older than its bound is where the history starts.
pub proof fn history_starts_at_the_mark_within_the_bound(
    walk: &WalkState,
    channel: &str,
    days: u32,
    now: i64,
    since: Option<String>,
)
    requires
        call_ensures(WalkState::oldest_for_at, (walk, channel, Some(days), now), since),
        clock::shown(now as int),
    ensures
        since matches Some(ts) && state::not_before(ts@, now - days * 86400),
        walk@.high_water.contains_key(channel@) && state::window_covers(
            walk@.high_water[channel@].depth_days,
            Some(days),
        ) && state::not_before(walk@.high_water[channel@].ts, now - days * 86400) ==> (since matches
            Some(ts) && ts@ == walk@.high_water[channel@].ts),
{
    state::depth_bound_is_honoured(walk@, channel@, days, now as int);
}

/// A mark covers a run exactly when it was made without a bound, or with one no narrower than the
/// run's.
pub proof fn mark_covers_what_it_was_made_with(
    mark: &Mark,
    requested: Option<u32>,
    covers: bool,
)
    requires
        call_ensures(Mark::covers, (mark, requested), covers),
    ensures
        covers == match (mark.depth_days, requested) {
            (None, _) => true,
            (Some(_), None) => false,
            (Some(collected), Some(requested)) => collected >= requested,
        },
{
}

/// A page of history gives its records and its versions, and the walk goes on where the page
/// leaves it.
pub proof fn history_page_is_handed_on(
    before: SlackRead,
    reply: walk::HistoryReply,
    now_ms: i64,
    result: Result<SlackRead, Error>,
)
    requires
        call_ensures(SlackRead::supply_at, (before, Reply::History(reply), now_ms), result),
        before.stage is History,
    ensures
        result matches Ok(after) && (after.stage matches Stage::Done(page) && page.records
            == reply.records && page.versions == reply.versions && page.requests_used == 0)
            && after.changed && after.walk@ == walk::history_taken(
            before.walk@,
            before.position@,
            before.stage->History_0@.id,
            before.limits.depth_days,
            json::views(reply.messages@),
            walk::optional_strings(reply.parents@),
            text::string_view(reply.more),
        ).0,
{
}

/// A page of replies gives its records and its versions, and the walk goes on where the page
/// leaves it.
pub proof fn thread_page_is_handed_on(
    before: SlackRead,
    reply: walk::ThreadReply,
    now_ms: i64,
    result: Result<SlackRead, Error>,
)
    requires
        call_ensures(SlackRead::supply_at, (before, Reply::Thread(reply), now_ms), result),
        before.stage is Thread,
    ensures
        result matches Ok(after) && (after.stage matches Stage::Done(page) && page.records
            == reply.records && page.versions == reply.versions && page.requests_used == 0)
            && after.changed,
{
}

/// A failure of the roster, and a fatal one of a thread or of a channel, fails the read with its
/// own error. Any other gives a page without records, or lets the read go on.
pub proof fn failure_is_handed_on(
    before: SlackRead,
    error: Error,
    fatal: bool,
    now_ms: i64,
    result: Result<SlackRead, Error>,
)
    requires
        call_ensures(
            SlackRead::supply_at,
            (before, Reply::Failed { error, fatal }, now_ms),
            result,
        ),
        before.stage !is Done,
    ensures
        before.stage is Roster || before.stage is NextRoster || fatal && (before.stage is Thread
            || before.stage is History) ==> result == Err::<SlackRead, Error>(error),
        before.stage is Users || !fatal && (before.stage is Thread || before.stage is History) ==> (
        result matches Ok(after) && (after.stage matches Stage::Done(page) ==> page.records@.len()
            == 0 && page.versions@.len() == 0)),
{
}

/// No page of a read reports the cursor that the read was given.
pub proof fn page_never_reports_its_own_cursor(
    before: SlackRead,
    cursor: Seq<char>,
    reply: Reply,
    now_ms: i64,
    result: Result<SlackRead, Error>,
)
    requires
        call_ensures(SlackRead::supply_at, (before, reply, now_ms), result),
        read::consistent(before@),
        before@.given == Some(cursor),
    ensures
        result matches Ok(after) ==> (after.stage matches Stage::Done(page) ==> text::string_view(
            page.next_cursor,
        ) != Some(cursor)),
{
}

/// The action that a read asks for is the one of what it waits for, with the channel and the
/// parent of what is read.
pub proof fn read_asks_for_what_it_waits_for(
    waiting: &SlackRead,
    now: i64,
    request: Option<(&'static str, Json)>,
)
    requires
        call_ensures(SlackRead::request_at, (waiting, now), request),
    ensures
        request is None <==> waiting.stage is Done,
        request matches Some((action, arguments)) ==> match waiting.stage {
            Stage::Roster | Stage::NextRoster(_) => action@ == "SLACK_LIST_CONVERSATIONS"@,
            Stage::Users(_) => action@ == "SLACK_LIST_ALL_USERS"@,
            Stage::Thread(channel, parent) => action@
                == "SLACK_FETCH_MESSAGE_THREAD_FROM_A_CONVERSATION"@ && json::member(
                arguments@,
                "channel"@,
            ) == Some(JsonView::Text(channel.id@)) && json::member(arguments@, "ts"@) == Some(
                JsonView::Text(parent@),
            ),
            Stage::History(channel) => action@ == "SLACK_FETCH_CONVERSATION_HISTORY"@
                && json::member(arguments@, "channel"@) == Some(JsonView::Text(channel.id@)),
            Stage::Done(_) => false,
        },
{
    match waiting.stage {
        Stage::Thread(channel, parent) => {
            slack_laws::thread_asks_for_its_parent(
                channel.id@,
                parent@,
                waiting.position@.reply_page,
            );
        },
        Stage::History(channel) => {
            slack_laws::history_asks_for_what_is_newer(
                waiting.walk@,
                waiting.position@.history,
                channel.id@,
                waiting.limits,
                now as int,
            );
        },
        _ => {},
    }
}

/// A read starts where its cursor says, with the walk that is handed to it: in the thread, or else
/// in the history, of the channel at that place, and without a cursor at the top of the roster.
pub proof fn read_begins_where_its_cursor_says(
    given: Option<&str>,
    walk: WalkState,
    limits: SyncLimits,
    begun: SlackRead,
)
    requires
        call_ensures(SlackRead::begin, (given, walk, limits), begun),
    ensures
        begun.walk@ == walk@,
        begun.limits == limits,
        !begun.changed,
        given is None ==> begun.stage is Roster,
        given matches Some(given) ==> ({
            let position = cursor::position_in(Some(given@));
            &&& position.index < walk.channels@.len() ==> match (position.thread, begun.stage) {
                (Some(thread), Stage::Thread(channel, parent)) => parent@ == thread && channel@
                    == walk.channels@[position.index as int]@,
                (None, Stage::History(channel)) => channel@
                    == walk.channels@[position.index as int]@,
                _ => false,
            }
            &&& position.index >= walk.channels@.len() ==> match (
                walk.channels_cursor,
                begun.stage,
            ) {
                (Some(next), Stage::NextRoster(cursor)) => cursor@ == next@,
                (None, Stage::Done(page)) => page.next_cursor is None && page.records@.len() == 0,
                _ => false,
            }
        }),
{
    assert(state::channel_views(walk.channels@).len() == walk.channels@.len());
    if let Some(given) = given {
        let position = cursor::position_in(Some(given@));
        if position.index < walk.channels@.len() {
            assert(walk@.channels[position.index as int] == walk.channels@[position.index as int]@);
        }
    }
}

/// A read that looks at the clock hands on a page of messages, and a failure, as one that is told
/// the time does, and never reports the cursor it was given.
pub proof fn reply_is_handed_on(
    before: SlackRead,
    reply: Reply,
    result: Result<SlackRead, Error>,
)
    requires
        call_ensures(SlackRead::supply, (before, reply), result),
        read::consistent(before@),
    ensures
        before.stage is History ==> (reply matches Reply::History(sent) ==> (result matches Ok(after)
            && (after.stage matches Stage::Done(page) && page.records == sent.records
            && page.versions == sent.versions))),
        before.stage is Thread ==> (reply matches Reply::Thread(sent) ==> (result matches Ok(after)
            && (after.stage matches Stage::Done(page) && page.records == sent.records
            && page.versions == sent.versions))),
        (before.stage is History && reply is History || before.stage is Thread && reply is Thread)
            ==> (result matches Ok(after) && after.changed),
        reply matches Reply::Failed { error, fatal } ==> (before.stage is Roster || before.stage
            is NextRoster || fatal && (before.stage is Thread || before.stage is History) ==> result
            == Err::<SlackRead, Error>(error)),
        before.given is Some ==> (result matches Ok(after) ==> (after.stage matches Stage::Done(
            page,
        ) ==> text::string_view(page.next_cursor) is None || text::string_view(page.next_cursor)
            != text::string_view(before.given))),
{
}

/// A read that looks at the clock asks for the same action as one that is told the time, and for
/// nothing once it is over.
pub proof fn request_is_that_of_its_stage(
    waiting: &SlackRead,
    request: Option<(&'static str, Json)>,
)
    requires
        call_ensures(SlackRead::request, (waiting,), request),
    ensures
        request is None <==> waiting.stage is Done,
        request matches Some((action, _)) ==> match waiting.stage {
            Stage::Roster | Stage::NextRoster(_) => action@ == "SLACK_LIST_CONVERSATIONS"@,
            Stage::Users(_) => action@ == "SLACK_LIST_ALL_USERS"@,
            Stage::Thread(_, _) => action@ == "SLACK_FETCH_MESSAGE_THREAD_FROM_A_CONVERSATION"@,
            Stage::History(_) => action@ == "SLACK_FETCH_CONVERSATION_HISTORY"@,
            Stage::Done(_) => false,
        },
{
}

/// The records of a thread leave out its parent, which is repeated among its replies, and those of
/// anything else leave out nothing.
pub proof fn only_a_parent_is_left_out(waiting: &SlackRead, parent: Option<&str>)
    requires
        call_ensures(SlackRead::left_out, (waiting,), parent),
    ensures
        waiting.stage matches Stage::Thread(_, read) ==> (parent matches Some(parent) && parent@
            == read@),
        waiting.stage !is Thread ==> parent is None,
{
}

/// What the toolkits are called, how often their accounts are walked, and whose identity and
/// workspaces are asked for.
pub proof fn toolkits_are_named(
    clickup: &ClickupProvider,
    slack: &SlackProvider,
    slugs: (&'static str, &'static str),
    intervals: (Option<u64>, Option<u64>),
    actions: (&'static str, &'static str),
)
    requires
        call_ensures(ClickupProvider::toolkit_slug, (clickup,), slugs.0),
        call_ensures(SlackProvider::toolkit_slug, (slack,), slugs.1),
        call_ensures(ClickupProvider::sync_interval_secs, (clickup,), intervals.0),
        call_ensures(SlackProvider::sync_interval_secs, (slack,), intervals.1),
        call_ensures(ClickupProvider::profile_action, (clickup,), actions.0),
        call_ensures(ClickupProvider::workspaces_action, (clickup,), actions.1),
    ensures
        slugs.0@ == "clickup"@,
        slugs.1@ == "slack"@,
        intervals.0 == Some(900u64),
        intervals.1 == intervals.0,
        actions.0@ == "CLICKUP_GET_AUTHORIZED_USER"@,
        actions.1@ == "CLICKUP_GET_AUTHORIZED_TEAMS_WORKSPACES"@,
{
}

} // verus!
