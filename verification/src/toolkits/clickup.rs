//! The `ClickUp` provider.
//!
//! `ClickUp` reads tasks one workspace at a time: its task search needs the workspace's
//! `team_id`, and an account can belong to several. A walk lists the account's workspaces on every
//! page read and carries its position as `"<workspace>|<page>"`. Listing each time costs a second
//! request per page, which the page reports so the day's budget counts it; in exchange, a
//! workspace the account has since left sends the walk back to the start instead of failing every
//! run that resumes into it.

use vstd::prelude::*;

use crate::pipeline::fetch;
use crate::pipeline::fetch::{PageRequest, PageSpec, Paging};
use crate::pipeline::json;
use crate::pipeline::run::ProviderPage;
use crate::provider;
use crate::provider::{Error, ProviderUserProfile, SyncLimits};
use crate::text;
use crate::value;
use crate::value::{Json, JsonView};

verus! {

/// `ClickUp` as a connector toolkit.
#[derive(Debug, Default, Clone, Copy)]
pub struct ClickupProvider;

// ---- workspaces ----

/// Where a workspaces payload lists the workspaces.
pub open spec fn workspace_pointers() -> Seq<Seq<char>> {
    seq!["/teams"@, "/data/teams"@, "/workspaces"@, "/data/workspaces"@]
}

/// Where a listed workspace has its id.
pub open spec fn workspace_id_paths() -> Seq<Seq<char>> {
    seq!["id"@, "team_id"@, "workspace_id"@]
}

/// The ids of the workspaces in a list, in its order, each once.
pub open spec fn ids_once(items: Seq<JsonView>) -> Seq<Seq<char>>
    decreases items.len(),
{
    if items.len() == 0 {
        Seq::empty()
    } else {
        let before = ids_once(items.drop_last());
        match json::picked(items.last(), workspace_id_paths()) {
            Some(id) if !before.contains(id) => before.push(id),
            _ => before,
        }
    }
}

/// The workspace ids a workspaces payload lists, in its order, each once.
pub open spec fn workspaces_listed(payload: JsonView) -> Seq<Seq<char>> {
    ids_once(json::elements_found(payload, workspace_pointers()))
}

/// Where `text` first stands in `list`, or the length of `list` where it does not.
pub open spec fn place(list: Seq<Seq<char>>, text: Seq<char>) -> int
    decreases list.len(),
{
    if list.len() == 0 || list[0] == text {
        0
    } else {
        1 + place(list.skip(1), text)
    }
}

/// `place` is where the text first stands.
pub proof fn place_is_first(list: Seq<Seq<char>>, text: Seq<char>)
    ensures
        0 <= place(list, text) <= list.len(),
        place(list, text) < list.len() ==> list[place(list, text)] == text,
        forall|i: int| 0 <= i < place(list, text) ==> list[i] != text,
        list.contains(text) == (place(list, text) < list.len()),
    decreases list.len(),
{
    if list.len() > 0 && list[0] != text {
        let rest = list.skip(1);
        place_is_first(rest, text);
        assert forall|i: int| 0 <= i < place(list, text) implies list[i] != text by {
            if i > 0 {
                assert(rest[i - 1] == list[i]);
            }
        }
        if list.contains(text) {
            let i = choose|i: int| 0 <= i < list.len() && list[i] == text;
            assert(rest[i - 1] == text);
        }
    }
}

/// Where `text` first stands in `list`, if it does.
fn position(list: &[String], text: &str) -> (index: Option<usize>)
    ensures
        match index {
            Some(index) => index == place(text::strings(list@), text@) && index < list@.len(),
            None => place(text::strings(list@), text@) == list@.len(),
        },
{
    let ghost all = text::strings(list@);
    proof {
        place_is_first(all, text@);
    }
    let mut i: usize = 0;
    while i < list.len()
        invariant
            i <= list@.len(),
            all == text::strings(list@),
            0 <= place(all, text@) <= all.len(),
            place(all, text@) < all.len() ==> all[place(all, text@)] == text@,
            forall|k: int| 0 <= k < place(all, text@) ==> all[k] != text@,
            place(all, text@) >= i,
        decreases list@.len() - i,
    {
        assert(all[i as int] == list@[i as int]@);
        if text::same_text(list[i].as_str(), text) {
            return Some(i);
        }
        i += 1;
    }
    None
}

/// The workspace ids a workspaces payload lists, in its order, each once.
///
/// Once each: the walk moves to the workspace listed after the one it finished, found by
/// position, so an id listed twice would send the walk back into itself and it would never reach
/// the workspaces after it.
pub fn workspace_ids(payload: &Json) -> (ids: Vec<String>)
    ensures
        text::strings(ids@) == workspaces_listed(payload@),
{
    let pointers: [&str; 4] = ["/teams", "/data/teams", "/workspaces", "/data/workspaces"];
    assert(text::texts(pointers@) == workspace_pointers());
    let paths: [&str; 3] = ["id", "team_id", "workspace_id"];
    assert(text::texts(paths@) == workspace_id_paths());
    let items = json::first_array(payload, &pointers);
    let ghost says = json::views(items@);
    let mut ids: Vec<String> = Vec::new();
    assert(text::strings(ids@) == ids_once(says.take(0)));
    let mut i: usize = 0;
    while i < items.len()
        invariant
            i <= items@.len(),
            says == json::views(items@),
            text::texts(paths@) == workspace_id_paths(),
            text::strings(ids@) == ids_once(says.take(i as int)),
        decreases items@.len() - i,
    {
        assert(says.take(i + 1).drop_last() == says.take(i as int));
        if let Some(id) = json::pick_str(&items[i], &paths) {
            let ghost before = ids@;
            proof {
                place_is_first(text::strings(before), id@);
            }
            if position(&ids, id.as_str()).is_none() {
                ids.push(id);
                assert(text::strings(ids@) == text::strings(before).push(id@));
            }
        }
        i += 1;
    }
    assert(says.take(i as int) == says);
    ids
}

/// The workspace listed after `current`, if there is one.
pub open spec fn workspace_after(workspaces: Seq<Seq<char>>, current: Seq<char>) -> Option<
    Seq<char>,
> {
    let next = place(workspaces, current) + 1;
    if next < workspaces.len() {
        Some(workspaces[next])
    } else {
        None
    }
}

/// The workspace listed after `current`, if there is one.
pub fn next_workspace<'a>(workspaces: &'a [String], current: &str) -> (next: Option<&'a str>)
    ensures
        text::slice_view(next) == workspace_after(text::strings(workspaces@), current@),
{
    match position(workspaces, current) {
        Some(index) => {
            let count: usize = workspaces.len();
            if index < count - 1 {
                Some(workspaces[index + 1].as_str())
            } else {
                None
            }
        },
        None => None,
    }
}

// ---- cursors ----

/// The cursor of a page of a workspace.
pub open spec fn page_cursor(workspace: Seq<char>, page: Seq<char>) -> Seq<char> {
    workspace + "|"@ + page
}

/// The workspace and page a cursor names.
pub open spec fn decoded(cursor: Seq<char>) -> Option<(Seq<char>, u32)> {
    match text::split_last(cursor, '|') {
        Some((workspace, page)) => match text::parsed(page, u32::MAX as nat) {
            Some(page) if workspace.len() > 0 => Some((workspace, page as u32)),
            _ => None,
        },
        None => None,
    }
}

/// The workspace and page a cursor names, or `None` when it names neither.
pub fn decode_cursor(cursor: &str) -> (result: Option<(String, u32)>)
    ensures
        match result {
            Some((workspace, page)) => decoded(cursor@) == Some((workspace@, page)),
            None => decoded(cursor@) is None,
        },
{
    match text::rsplit_once(cursor, '|') {
        Some((workspace, page)) => match text::parse_number(page.as_str(), u32::MAX as u64) {
            Some(page) => {
                if workspace.as_str().is_empty() {
                    None
                } else {
                    Some((workspace, page as u32))
                }
            },
            None => None,
        },
        None => None,
    }
}

/// Where a walk resumes: where the cursor says, unless it names a workspace the account no longer
/// lists, and then at the start of the first workspace listed.
pub open spec fn resumed(cursor: Option<Seq<char>>, workspaces: Seq<Seq<char>>) -> Option<
    (Seq<char>, u32),
> {
    let named = match cursor {
        Some(cursor) => decoded(cursor),
        None => None,
    };
    match named {
        Some((workspace, page)) if workspaces.contains(workspace) => Some((workspace, page)),
        _ => if workspaces.len() > 0 {
            Some((workspaces[0], 0))
        } else {
            None
        },
    }
}

/// Where a walk resumes, or `None` when the account lists no workspace.
pub fn resume(cursor: Option<&str>, workspaces: &Vec<String>) -> (result: Option<(String, u32)>)
    ensures
        match result {
            Some((workspace, page)) => resumed(
                text::slice_view(cursor),
                text::strings(workspaces@),
            ) == Some((workspace@, page)),
            None => resumed(text::slice_view(cursor), text::strings(workspaces@)) is None,
        },
{
    if let Some(cursor) = cursor {
        if let Some((workspace, page)) = decode_cursor(cursor) {
            proof {
                place_is_first(text::strings(workspaces@), workspace@);
            }
            if position(workspaces, workspace.as_str()).is_some() {
                return Some((workspace, page));
            }
        }
    }
    if workspaces.len() > 0 {
        assert(text::strings(workspaces@)[0] == workspaces@[0]@);
        Some((workspaces[0].clone(), 0))
    } else {
        None
    }
}

/// Where the walk goes on after a page of `workspace` that goes on at `next_page`: to that page,
/// or else to the start of the workspace listed after it.
pub open spec fn cursor_onward(
    workspaces: Seq<Seq<char>>,
    workspace: Seq<char>,
    next_page: Option<Seq<char>>,
) -> Option<Seq<char>> {
    match next_page {
        Some(next_page) => Some(page_cursor(workspace, next_page)),
        None => match workspace_after(workspaces, workspace) {
            Some(next) => Some(page_cursor(next, "0"@)),
            None => None,
        },
    }
}

/// Where the walk goes on after a page of `workspace`.
pub fn onward(workspaces: &Vec<String>, workspace: &str, next_page: Option<String>) -> (cursor:
    Option<String>)
    ensures
        text::string_view(cursor) == cursor_onward(
            text::strings(workspaces@),
            workspace@,
            text::string_view(next_page),
        ),
{
    match next_page {
        Some(next_page) => {
            let mut cursor = workspace.to_owned();
            cursor.append("|");
            cursor.append(next_page.as_str());
            Some(cursor)
        },
        None => match next_workspace(workspaces, workspace) {
            Some(next) => {
                let mut cursor = next.to_owned();
                cursor.append("|");
                cursor.append("0");
                Some(cursor)
            },
            None => None,
        },
    }
}

// ---- one page read ----

/// Whether `spec` is how one page of a workspace's tasks is read.
pub open spec fn reads_tasks(spec: PageSpec) -> bool {
    &&& spec.action@ == "CLICKUP_GET_FILTERED_TEAM_TASKS"@
    &&& text::texts(spec.item_pointers@) =~= seq!["/data/tasks"@, "/tasks"@, "/data/data/tasks"@]
    &&& text::texts(spec.id_paths@) =~= seq!["id"@, "custom_id"@]
    &&& text::texts(spec.title_paths@) =~= seq!["name"@]
    &&& text::texts(spec.content_paths@) =~= seq!["description"@, "text_content"@]
    &&& text::texts(spec.url_paths@) =~= seq!["url"@]
    &&& text::texts(spec.version_paths@) =~= seq!["date_updated"@]
    &&& fetch::string_arguments(spec.fixed_arguments@) =~= seq![
        ("order_by"@, JsonView::Text("updated"@)),
    ]
    &&& spec.page_size_arg@ == "page_size"@
    &&& spec.cursor_arg@ == "page"@
    &&& spec.depth_window is None
    &&& !spec.clean_bodies
    &&& spec.paging matches Paging::Numbered { first, reachable, last_page }
    &&& first == 0
    &&& reachable is None
    &&& text::texts(last_page@) =~= seq![
        "/data/last_page"@,
        "/last_page"@,
        "/data/data/last_page"@,
    ]
}

/// How one page of a workspace's tasks is read.
///
/// The paths are alternatives, tried in order: provider payloads come wrapped inconsistently, and
/// the same field arrives under different names from different endpoints of the same API.
///
/// The workspace, and the arguments that are not strings, are added to each read by
/// [`ClickupProvider::task_read`].
pub fn task_page() -> (spec: PageSpec)
    ensures
        reads_tasks(spec),
{
    PageSpec {
        action: "CLICKUP_GET_FILTERED_TEAM_TASKS",
        item_pointers: &["/data/tasks", "/tasks", "/data/data/tasks"],
        id_paths: &["id", "custom_id"],
        title_paths: &["name"],
        content_paths: &["description", "text_content"],
        url_paths: &["url"],
        version_paths: &["date_updated"],
        // Most recently updated first, with `reverse`, so whatever changed since the last run is
        // on the first page.
        fixed_arguments: &[("order_by", "updated")],
        // `ClickUp` serves up to a hundred tasks a page whatever it is asked, so a page at least
        // this full reads on.
        page_size_arg: "page_size",
        cursor_arg: "page",
        // Pages count from zero, and the payload flags the last one.
        paging: Paging::Numbered {
            first: 0,
            reachable: None,
            last_page: &["/data/last_page", "/last_page", "/data/data/last_page"],
        },
        depth_window: None,
        clean_bodies: false,
    }
}

/// The arguments that a read of a workspace's tasks has beside those of every read.
pub open spec fn workspace_arguments(workspace: Seq<char>) -> Seq<(Seq<char>, JsonView)> {
    seq![
        ("team_id"@, JsonView::Text(workspace)),
        ("reverse"@, JsonView::Bool(true)),
        ("subtasks"@, JsonView::Bool(true)),
    ]
}

/// A read of one page of one workspace's tasks.
#[derive(Debug)]
pub struct TaskRead {
    /// The workspaces the account lists.
    pub workspaces: Vec<String>,
    /// The workspace whose tasks are read.
    pub workspace: String,
    /// How the page is read.
    pub spec: PageSpec,
    /// What is asked for.
    pub request: PageRequest,
}

impl TaskRead {
    /// Whether this is the read of page `page` of `workspace`, for a run that can use
    /// `max_items`.
    pub open spec fn reads(
        self,
        workspaces: Seq<Seq<char>>,
        workspace: Seq<char>,
        page: u32,
        max_items: usize,
    ) -> bool {
        &&& text::strings(self.workspaces@) == workspaces
        &&& self.workspace@ == workspace
        &&& reads_tasks(self.spec)
        &&& self.request.action@ == "CLICKUP_GET_FILTERED_TEAM_TASKS"@
        &&& self.request.page_size == fetch::page_size_for(max_items)
        &&& self.request.number == Some(page)
        &&& self.request.arguments@ == JsonView::Object(
            fetch::unbounded_arguments(
                max_items,
                Some(text::decimal(page as nat)),
                self.spec,
                workspace_arguments(workspace),
            ),
        )
    }
}

/// What follows once the account's workspaces are listed.
#[derive(Debug)]
pub enum ClickupStep {
    /// A page of tasks is to be read.
    Read(TaskRead),
    /// There is nothing to read.
    Done(ProviderPage),
}

impl ClickupProvider {
    /// The name by which the toolkit is known.
    pub fn toolkit_slug(&self) -> (slug: &'static str)
        ensures
            slug@ == "clickup"@,
    {
        "clickup"
    }

    /// What the toolkit does.
    pub fn description(&self) -> (description: &'static str)
        ensures
            description@ == "Read `ClickUp` tasks and spaces, and ingest them as memory."@,
    {
        "Read `ClickUp` tasks and spaces, and ingest them as memory."
    }

    /// How often an account is walked, in seconds.
    pub fn sync_interval_secs(&self) -> (secs: Option<u64>)
        ensures
            secs == Some(900u64),
    {
        Some(900)
    }

    /// The action that reads the connected account's identity.
    pub fn profile_action(&self) -> (action: &'static str)
        ensures
            action@ == "CLICKUP_GET_AUTHORIZED_USER"@,
    {
        "CLICKUP_GET_AUTHORIZED_USER"
    }

    /// The action that lists the workspaces the connected account belongs to.
    pub fn workspaces_action(&self) -> (action: &'static str)
        ensures
            action@ == "CLICKUP_GET_AUTHORIZED_TEAMS_WORKSPACES"@,
    {
        "CLICKUP_GET_AUTHORIZED_TEAMS_WORKSPACES"
    }

    /// Who the connected account belongs to, once its identity has been read. `pick` finds a
    /// field of the payload by its dotted paths. A request that failed fails the read.
    pub fn user_profile<F: Fn(&Json, &[&str]) -> Option<String>>(
        &self,
        connection_id: &str,
        reply: Result<Json, Error>,
        pick: &F,
    ) -> (result: Result<ProviderUserProfile, Error>)
        requires
            forall|payload: &Json, paths: &[&str]| pick.requires((payload, paths)),
        ensures
            match reply {
                Ok(payload) => result is Ok && ({
                    let profile = result->Ok_0;
                    &&& profile.toolkit@ == "clickup"@
                    &&& text::string_view(profile.connection_id) == Some(connection_id@)
                    &&& provider::picks(*pick, payload, seq!["username"@], profile.username)
                    &&& provider::picks(*pick, payload, seq!["username"@], profile.display_name)
                    &&& provider::picks(*pick, payload, seq!["email"@], profile.email)
                    &&& provider::picks(*pick, payload, seq!["profilePicture"@], profile.avatar_url)
                    &&& profile.extras == payload
                }),
                Err(error) => result == Err::<ProviderUserProfile, Error>(error),
            },
    {
        match reply {
            Ok(payload) => {
                let named: [&str; 1] = ["username"];
                let mailed: [&str; 1] = ["email"];
                let pictured: [&str; 1] = ["profilePicture"];
                assert(text::texts(named@) == seq!["username"@]);
                assert(text::texts(mailed@) == seq!["email"@]);
                assert(text::texts(pictured@) == seq!["profilePicture"@]);
                let username = pick(&payload, &named);
                let display_name = pick(&payload, &named);
                let email = pick(&payload, &mailed);
                let avatar_url = pick(&payload, &pictured);
                Ok(
                    ProviderUserProfile {
                        toolkit: self.toolkit_slug().to_owned(),
                        connection_id: Some(connection_id.to_owned()),
                        username,
                        display_name,
                        email,
                        avatar_url,
                        extras: payload,
                    },
                )
            },
            Err(error) => Err(error),
        }
    }

    /// What follows once the account's workspaces are listed: a read of a page of tasks, where
    /// the cursor resumes, or nothing when no workspace is listed. A listing that failed fails
    /// the page.
    pub fn task_read(
        &self,
        limits: &SyncLimits,
        cursor: Option<&str>,
        listing: Result<Json, Error>,
    ) -> (result: Result<ClickupStep, Error>)
        ensures
            match listing {
                Ok(payload) => ({
                    let workspaces = workspaces_listed(payload@);
                    match resumed(text::slice_view(cursor), workspaces) {
                        Some((workspace, page)) => result matches Ok(ClickupStep::Read(read))
                            && read.reads(workspaces, workspace, page, limits.max_items),
                        None => result matches Ok(ClickupStep::Done(nothing)) && nothing.is_bare()
                            && nothing.next_cursor is None,
                    }
                }),
                Err(error) => result == Err::<ClickupStep, Error>(error),
            },
    {
        let payload = match listing {
            Ok(payload) => payload,
            Err(error) => return Err(error),
        };
        let workspaces = workspace_ids(&payload);
        let (workspace, page) = match resume(cursor, &workspaces) {
            Some(resumed) => resumed,
            None => return Ok(ClickupStep::Done(ProviderPage::default())),
        };
        let spec = task_page();
        let this_read: Vec<(&'static str, Json)> = vec![
            ("team_id", Json::Text(workspace.clone())),
            ("reverse", Json::Bool(true)),
            ("subtasks", Json::Bool(true)),
        ];
        assert(fetch::json_arguments(this_read@) == workspace_arguments(workspace@));
        let page_text = text::decimal_text(page as u64);
        let request = fetch::page_request(limits, Some(page_text.as_str()), &spec, this_read);
        proof {
            fetch::numbered_cursor_reads_back(page, 0);
        }
        Ok(ClickupStep::Read(TaskRead { workspaces, workspace, spec, request }))
    }

    /// The page that a read of tasks gives, and where the walk goes on after it. A read that
    /// failed fails the page.
    pub fn task_reply(&self, read: TaskRead, reply: Result<Json, Error>) -> (result: Result<
        ProviderPage,
        Error,
    >)
        requires
            reads_tasks(read.spec),
        ensures
            match reply {
                Ok(payload) => result is Ok && ({
                    let page = result->Ok_0;
                    &&& fetch::holds_plain_items(page, payload@, read.spec)
                    &&& text::string_view(page.next_cursor) == cursor_onward(
                        text::strings(read.workspaces@),
                        read.workspace@,
                        fetch::cursor_after(
                            payload@,
                            read.spec,
                            read.request.page_size,
                            read.request.number,
                        ),
                    )
                    &&& page.requests_used == 2
                }),
                Err(error) => result == Err::<ProviderPage, Error>(error),
            },
    {
        let as_it_is = |raw: &str| -> (kept: String) { raw.to_owned() };
        let page_size = read.request.page_size;
        let number = read.request.number;
        match fetch::page_reply(reply, &read.spec, page_size, number, &as_it_is) {
            Ok(page) => {
                let mut page = page;
                let next_page = page.next_cursor.take();
                page.next_cursor = onward(&read.workspaces, read.workspace.as_str(), next_page);
                // The workspace list and the task page: the day's budget counts both.
                page.requests_used = 2;
                Ok(page)
            },
            Err(error) => Err(error),
        }
    }
}

// ---- laws ----

/// No workspace is listed twice, none has a blank id, and every workspace with an id is listed.
pub proof fn workspaces_are_listed_once(items: Seq<JsonView>)
    ensures
        ids_once(items).no_duplicates(),
        forall|i: int| 0 <= i < ids_once(items).len() ==> (#[trigger] ids_once(items)[i]).len() > 0,
        forall|i: int|
            0 <= i < items.len() ==> (json::picked(#[trigger] items[i], workspace_id_paths())
                matches Some(id) ==> ids_once(items).contains(id)),
    decreases items.len(),
{
    if items.len() > 0 {
        let before = ids_once(items.drop_last());
        let now = ids_once(items);
        workspaces_are_listed_once(items.drop_last());
        json::picked_is_trimmed(items.last(), workspace_id_paths());
        assert forall|i: int| 0 <= i < items.len() implies (json::picked(
            #[trigger] items[i],
            workspace_id_paths(),
        ) matches Some(id) ==> now.contains(id)) by {
            if let Some(id) = json::picked(items[i], workspace_id_paths()) {
                if i < items.len() - 1 {
                    assert(items.drop_last()[i] == items[i]);
                    let k = choose|k: int| 0 <= k < before.len() && before[k] == id;
                    assert(now[k] == id);
                } else if !before.contains(id) {
                    assert(now[now.len() - 1] == id);
                }
            }
        }
    }
}

/// A cursor names the workspace and the page it was made of, even where the workspace's id holds
/// the mark that stands between the two.
pub proof fn cursor_reads_back(workspace: Seq<char>, page: u32)
    requires
        workspace.len() > 0,
    ensures
        decoded(page_cursor(workspace, text::decimal(page as nat))) == Some((workspace, page)),
{
    let number = text::decimal(page as nat);
    reveal_strlit("|");
    assert(page_cursor(workspace, number) == workspace.push('|') + number);
    text::decimal_lacks(page as nat, '|');
    text::split_last_of_joined(workspace, '|', number);
    text::decimal_parses(page as nat, u32::MAX as nat);
}

/// A walk only moves on. The cursor after a page of a workspace resumes at the next page of the
/// same workspace, or at the start of the one listed after it, and the walk ends only after the
/// last workspace listed. So a walk over the same workspaces reaches each of them and never comes
/// back into one.
pub proof fn walk_moves_on(
    workspaces: Seq<Seq<char>>,
    workspace: Seq<char>,
    page: u32,
    payload: JsonView,
    spec: PageSpec,
    page_size: usize,
)
    requires
        reads_tasks(spec),
        workspaces.no_duplicates(),
        forall|i: int| 0 <= i < workspaces.len() ==> (#[trigger] workspaces[i]).len() > 0,
        workspaces.contains(workspace),
    ensures
        match cursor_onward(
            workspaces,
            workspace,
            fetch::cursor_after(payload, spec, page_size, Some(page)),
        ) {
            Some(cursor) => ({
                let at = place(workspaces, workspace);
                ||| resumed(Some(cursor), workspaces) == Some((workspace, (page + 1) as u32))
                    && page < u32::MAX
                ||| at + 1 < workspaces.len() && resumed(Some(cursor), workspaces) == Some(
                    (workspaces[at + 1], 0u32),
                )
            }),
            None => place(workspaces, workspace) == workspaces.len() - 1,
        },
{
    let at = place(workspaces, workspace);
    place_is_first(workspaces, workspace);
    match fetch::cursor_after(payload, spec, page_size, Some(page)) {
        Some(_) => {
            cursor_reads_back(workspace, (page + 1) as u32);
        },
        None => {
            if at + 1 < workspaces.len() {
                text::decimal_is_digits(0);
                reveal_strlit("0");
                assert("0"@ == text::decimal(0));
                cursor_reads_back(workspaces[at + 1], 0);
                assert(workspaces.contains(workspaces[at + 1]));
            }
        },
    }
}

/// A cursor that names a workspace the account no longer lists, or that names none at all, starts
/// the walk over at the first workspace listed, and so does a walk without a cursor.
pub proof fn lost_cursor_starts_over(cursor: Option<Seq<char>>, workspaces: Seq<Seq<char>>)
    requires
        workspaces.len() > 0,
        cursor matches Some(cursor) ==> (decoded(cursor) matches Some((workspace, _))
            ==> !workspaces.contains(workspace)),
    ensures
        resumed(cursor, workspaces) == Some((workspaces[0], 0u32)),
{
}

/// Workspaces are listed in the order that the payload lists them first: what follows a list adds
/// to its end, and nothing is listed that no item has for an id.
pub proof fn workspaces_keep_their_order(left: Seq<JsonView>, right: Seq<JsonView>)
    ensures
        ids_once(left).is_prefix_of(ids_once(left + right)),
        forall|k: int|
            ids_once(left).len() <= k < ids_once(left + right).len() ==> exists|i: int|
                0 <= i < right.len() && json::picked(#[trigger] right[i], workspace_id_paths())
                    == Some(#[trigger] ids_once(left + right)[k]),
        left.len() == 0 ==> ids_once(left).len() == 0,
    decreases right.len(),
{
    if right.len() == 0 {
        assert(left + right == left);
        assert(ids_once(left) == ids_once(left).take(ids_once(left).len() as int));
    } else {
        let shorter = right.drop_last();
        workspaces_keep_their_order(left, shorter);
        assert((left + right).drop_last() == left + shorter);
        assert((left + right).last() == right.last());
        let start = ids_once(left);
        let before = ids_once(left + shorter);
        let all = ids_once(left + right);
        assert(all.take(start.len() as int) == before.take(start.len() as int));
        assert forall|k: int| start.len() <= k < all.len() implies exists|i: int|
            0 <= i < right.len() && json::picked(#[trigger] right[i], workspace_id_paths()) == Some(
                #[trigger] all[k],
            ) by {
            if k < before.len() {
                assert(all[k] == before[k]);
                let i = choose|i: int|
                    0 <= i < shorter.len() && json::picked(
                        #[trigger] shorter[i],
                        workspace_id_paths(),
                    ) == Some(before[k]);
                assert(right[i] == shorter[i]);
            } else {
                assert(right[right.len() - 1] == right.last());
            }
        }
    }
}

/// The workspaces of a payload are listed from the first array at any of four places, each by the
/// first of three fields.
pub proof fn workspaces_have_four_places(payload: JsonView, items: Seq<JsonView>)
    requires
        ({
            let at = |pointer: Seq<char>| json::elements_at(payload, pointer);
            ||| at("/teams"@) == Some(items)
            ||| at("/teams"@) is None && at("/data/teams"@) == Some(items)
            ||| at("/teams"@) is None && at("/data/teams"@) is None && at("/workspaces"@) == Some(
                items,
            )
            ||| at("/teams"@) is None && at("/data/teams"@) is None && at("/workspaces"@) is None
                && at("/data/workspaces"@) == Some(items)
        }),
    ensures
        workspaces_listed(payload) == ids_once(items),
        workspace_id_paths() == seq!["id"@, "team_id"@, "workspace_id"@],
{
    let places = seq!["/teams"@, "/data/teams"@, "/workspaces"@, "/data/workspaces"@];
    assert(workspace_pointers() == places);
    reveal_with_fuel(json::first_found, 5);
    assert(places.skip(1) == seq!["/data/teams"@, "/workspaces"@, "/data/workspaces"@]);
    assert(places.skip(1).skip(1) == seq!["/workspaces"@, "/data/workspaces"@]);
    assert(places.skip(1).skip(1).skip(1) == seq!["/data/workspaces"@]);
}

/// After a workspace comes the one that is listed next, and none after the last or after one that
/// is not listed.
pub proof fn next_workspace_is_the_one_listed_after(workspaces: Seq<Seq<char>>, i: int)
    requires
        workspaces.no_duplicates(),
        0 <= i < workspaces.len(),
    ensures
        i + 1 < workspaces.len() ==> workspace_after(workspaces, workspaces[i]) == Some(
            workspaces[i + 1],
        ),
        i + 1 == workspaces.len() ==> workspace_after(workspaces, workspaces[i]) is None,
{
    place_is_first(workspaces, workspaces[i]);
    assert(workspaces.contains(workspaces[i]));
}

/// After a workspace that is not listed comes none.
pub proof fn nothing_comes_after_an_unlisted_workspace(
    workspaces: Seq<Seq<char>>,
    workspace: Seq<char>,
)
    requires
        !workspaces.contains(workspace),
    ensures
        workspace_after(workspaces, workspace) is None,
{
    place_is_first(workspaces, workspace);
}

/// A cursor is read only as a workspace, a mark and a page number, and resumes there where the
/// account lists the workspace. An account that lists none resumes nowhere.
pub proof fn cursor_resumes_where_it_says(cursor: Seq<char>, workspaces: Seq<Seq<char>>)
    ensures
        decoded(cursor) matches Some((workspace, page)) ==> {
            &&& workspace.len() > 0
            &&& workspace.push('|').is_prefix_of(cursor)
            &&& text::parsed(cursor.skip(workspace.len() as int + 1), u32::MAX as nat) == Some(
                page as nat,
            )
            &&& workspaces.contains(workspace) ==> resumed(Some(cursor), workspaces) == Some(
                (workspace, page),
            )
        },
        workspaces.len() == 0 ==> resumed(Some(cursor), workspaces) is None,
        workspaces.len() == 0 ==> resumed(None, workspaces) is None,
{
    text::split_text_joins_again(cursor, '|');
    if let Some((workspace, page)) = text::split_last(cursor, '|') {
        let start = workspace.len() as int + 1;
        assert(cursor.take(start) == workspace.push('|'));
        assert(cursor.skip(start) == page);
    }
}

/// The tasks that a payload holds.
pub open spec fn tasks_in(payload: JsonView, spec: PageSpec) -> Seq<JsonView> {
    json::elements_found(payload, text::texts(spec.item_pointers@))
}

/// What a payload says of whether its page is the last.
pub open spec fn last_page_flag(payload: JsonView) -> Option<bool> {
    json::flag_found(
        payload,
        seq!["/data/last_page"@, "/last_page"@, "/data/data/last_page"@],
    )
}

/// A workspace is read to its end. While a page has tasks on it, and the payload says that it is
/// not the last or, where it does not say, the page came back full, the walk resumes at the next
/// page of the same workspace.
pub proof fn workspace_is_read_to_its_end(
    workspaces: Seq<Seq<char>>,
    workspace: Seq<char>,
    page: u32,
    payload: JsonView,
    spec: PageSpec,
    page_size: usize,
)
    requires
        reads_tasks(spec),
        workspaces.contains(workspace),
        workspace.len() > 0,
        page < u32::MAX,
        tasks_in(payload, spec).len() > 0,
        last_page_flag(payload) == Some(false) || last_page_flag(payload) is None && tasks_in(
            payload,
            spec,
        ).len() >= page_size,
    ensures
        cursor_onward(
            workspaces,
            workspace,
            fetch::cursor_after(payload, spec, page_size, Some(page)),
        ) matches Some(cursor) && resumed(Some(cursor), workspaces) == Some(
            (workspace, (page + 1) as u32),
        ),
{
    cursor_reads_back(workspace, (page + 1) as u32);
}

/// A workspace whose last page has been read is left for the start of the one listed after it, or
/// the walk is over when there is none.
pub proof fn finished_workspace_is_left(
    workspaces: Seq<Seq<char>>,
    i: int,
    page: u32,
    payload: JsonView,
    spec: PageSpec,
    page_size: usize,
)
    requires
        reads_tasks(spec),
        workspaces.no_duplicates(),
        0 <= i < workspaces.len(),
        forall|k: int| 0 <= k < workspaces.len() ==> (#[trigger] workspaces[k]).len() > 0,
        tasks_in(payload, spec).len() == 0 || last_page_flag(payload) == Some(true)
            || last_page_flag(payload) is None && tasks_in(payload, spec).len() < page_size,
    ensures
        ({
            let next = cursor_onward(
                workspaces,
                workspaces[i],
                fetch::cursor_after(payload, spec, page_size, Some(page)),
            );
            &&& i + 1 == workspaces.len() ==> next is None
            &&& i + 1 < workspaces.len() ==> next is Some && resumed(next, workspaces) == Some(
                (workspaces[i + 1], 0u32),
            )
        }),
{
    next_workspace_is_the_one_listed_after(workspaces, i);
    if i + 1 < workspaces.len() {
        text::decimal_is_digits(0);
        reveal_strlit("0");
        assert("0"@ == text::decimal(0));
        cursor_reads_back(workspaces[i + 1], 0);
        assert(workspaces.contains(workspaces[i + 1]));
    }
}

/// A task is read from where `ClickUp` has it: its items in one of three envelopes, and of each
/// its id, its name, its description, its link and when it was updated.
pub proof fn task_is_read_from_its_fields(item: JsonView, spec: PageSpec)
    requires
        reads_tasks(spec),
    ensures
        text::texts(spec.item_pointers@) == seq!["/data/tasks"@, "/tasks"@, "/data/data/tasks"@],
        match (fetch::draft(item, spec), json::picked(item, seq!["id"@, "custom_id"@])) {
            (Some(draft), Some(id)) => {
                &&& draft.item_id == id
                &&& draft.title == fetch::or_else(json::picked(item, seq!["name"@]), Seq::empty())
                &&& draft.raw == match json::picked(
                    item,
                    seq!["description"@, "text_content"@],
                ) {
                    Some(content) => content,
                    None => value::json_text(item),
                }
                &&& draft.url == json::picked(item, seq!["url"@])
                &&& draft.version == json::picked(item, seq!["date_updated"@])
            },
            (None, None) => true,
            _ => false,
        },
{
}

/// A read of tasks asks `ClickUp` for one page of one workspace, most recently updated first, with
/// subtasks.
pub proof fn task_read_asks_for_its_workspace(
    read: TaskRead,
    workspaces: Seq<Seq<char>>,
    workspace: Seq<char>,
    page: u32,
    max_items: usize,
)
    requires
        read.reads(workspaces, workspace, page, max_items),
    ensures
        read.request.action@ == "CLICKUP_GET_FILTERED_TEAM_TASKS"@,
        json::member(read.request.arguments@, "team_id"@) == Some(JsonView::Text(workspace)),
        json::member(read.request.arguments@, "page"@) == Some(
            JsonView::Number(text::decimal(page as nat)),
        ),
        json::member(read.request.arguments@, "page_size"@) == Some(
            JsonView::Number(text::decimal(fetch::page_size_for(max_items) as nat)),
        ),
        json::member(read.request.arguments@, "order_by"@) == Some(JsonView::Text("updated"@)),
        json::member(read.request.arguments@, "reverse"@) == Some(JsonView::Bool(true)),
        json::member(read.request.arguments@, "subtasks"@) == Some(JsonView::Bool(true)),
{
    reveal_strlit("team_id");
    reveal_strlit("page");
    reveal_strlit("page_size");
    reveal_strlit("order_by");
    reveal_strlit("reverse");
    reveal_strlit("subtasks");
    assert("team_id"@.len() == 7 && "team_id"@[0] == 't' && "reverse"@.len() == 7 && "reverse"@[0]
        == 'r');
    assert("page"@.len() == 4 && "page_size"@.len() == 9);
    assert("order_by"@.len() == 8 && "order_by"@[0] == 'o' && "subtasks"@.len() == 8
        && "subtasks"@[0] == 's');
    reveal_with_fuel(fetch::extended, 4);
    fetch::numbered_cursor_reads_back(page, 0);
    let this_read = workspace_arguments(workspace);
    assert(this_read.drop_last().last() == ("reverse"@, JsonView::Bool(true)));
    assert(this_read.drop_last().drop_last().last() == ("team_id"@, JsonView::Text(workspace)));
    let fixed = fetch::string_arguments(read.spec.fixed_arguments@);
    assert(fixed.last() == ("order_by"@, JsonView::Text("updated"@)));
}

} // verus!
