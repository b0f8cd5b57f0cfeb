//! The steps of a Slack walk: what each read asks for, and where the walk goes once it is
//! answered.

use vstd::prelude::*;

use crate::clock;
use crate::pipeline::json;
use crate::pipeline::run::{ConnectorRecord, ProviderPage};
use crate::provider;
use crate::provider::{Error, ProviderUserProfile, SyncLimits};
use crate::text;
use crate::textmap::TextMap;
use crate::toolkits::slack::cursor;
use crate::toolkits::slack::cursor::{Cursor, Position};
use crate::toolkits::slack::state;
use crate::toolkits::slack::state::{Channel, ChannelView, MarkView, WalkState, WalkView};
use crate::value::{Json, JsonView};

verus! {

/// Lists the conversations the connected account can read.
pub const ACTION_CONVERSATIONS: &'static str = "SLACK_LIST_CONVERSATIONS";

/// Reads one page of one conversation.
pub const ACTION_HISTORY: &'static str = "SLACK_FETCH_CONVERSATION_HISTORY";

/// Reads one page of the replies under one message.
pub const ACTION_THREAD: &'static str = "SLACK_FETCH_MESSAGE_THREAD_FROM_A_CONVERSATION";

/// Reads the workspace the connection belongs to.
pub const PROFILE_ACTION: &'static str = "SLACK_FETCH_TEAM_INFO";

/// Reads the directory used to turn `<@U…>` into a name.
pub const ACTION_USERS: &'static str = "SLACK_LIST_ALL_USERS";

/// Conversations asked for per roster page.
///
/// Slack's own maximum for this call. The roster is walked one page at a time like everything
/// else, so a large workspace costs one extra request per two hundred channels rather than a loop
/// inside a single page read.
pub const CHANNELS_PER_PAGE: u64 = 200;

/// Ceiling on messages asked for in one history or thread page.
///
/// The run's own item limit is the real bound and is almost always smaller; this only stops an
/// unbounded limit from asking Slack for more than it will return anyway.
pub const MESSAGES_PER_PAGE: u64 = 200;

/// Directory entries asked for per page.
pub const USERS_PER_PAGE: u64 = 200;

/// Most directory pages read in one walk.
///
/// The directory is a nicety (it turns `<@U04AB>` into a name), so it is bounded rather than
/// walked to the end. A workspace larger than `USERS_PER_PAGE * USER_PAGES_MAX` people resolves
/// the first thousand and leaves the rest as ids, which reads worse but costs nothing else.
/// Spending an unbounded number of requests on it before a single message is read would be the
/// wrong trade.
pub const USER_PAGES_MAX: usize = 5;

/// Slack as a connector toolkit.
#[derive(Debug, Default, Clone, Copy)]
pub struct SlackProvider;

/// One page read, and whether it changed anything worth persisting.
#[derive(Debug)]
pub struct Read {
    /// What to hand back to the run loop.
    pub page: ProviderPage,
    /// Whether the walk moved and needs saving.
    pub changed: bool,
}

/// A page carrying nothing, resuming at `next`.
pub fn empty_page(next: Option<String>) -> (page: ProviderPage)
    ensures
        page.is_bare(),
        page.next_cursor == next,
{
    let mut page = ProviderPage::default();
    page.next_cursor = next;
    page
}

/// `arguments` with a cursor, when there is one.
pub open spec fn resuming(
    arguments: Map<Seq<char>, JsonView>,
    cursor: Option<Seq<char>>,
) -> Map<Seq<char>, JsonView> {
    match cursor {
        Some(cursor) => arguments.insert("cursor"@, JsonView::Text(cursor)),
        None => arguments,
    }
}

/// Give `arguments` a cursor, when there is one.
fn set_cursor(arguments: &mut Json, cursor: Option<&str>)
    requires
        old(arguments)@ is Object,
    ensures
        final(arguments)@ == JsonView::Object(
            resuming(old(arguments)@->Object_0, text::slice_view(cursor)),
        ),
{
    if let Some(cursor) = cursor {
        arguments.set("cursor", Json::text(cursor));
    }
}

/// The slice of an optional string.
fn as_slice(text: &Option<String>) -> (slice: Option<&str>)
    ensures
        text::slice_view(slice) == text::string_view(*text),
{
    match text {
        Some(text) => Some(text.as_str()),
        None => None,
    }
}

/// A whole number as JSON.
pub open spec fn number(n: nat) -> JsonView {
    JsonView::Number(text::decimal(n))
}

// ---- the roster ----

/// What a read of a roster page asks for. Channels only: direct messages are deliberately not
/// read.
pub open spec fn roster_request(cursor: Option<Seq<char>>) -> Map<Seq<char>, JsonView> {
    resuming(
        Map::empty().insert("limit"@, number(CHANNELS_PER_PAGE as nat)).insert(
            "types"@,
            JsonView::Text("public_channel,private_channel"@),
        ).insert("exclude_archived"@, JsonView::Bool(true)),
        cursor,
    )
}

/// The channels in a list of conversations: those that have an id. One without a name is named by
/// its id.
pub open spec fn channels_in(items: Seq<JsonView>) -> Seq<ChannelView>
    decreases items.len(),
{
    if items.len() == 0 {
        Seq::empty()
    } else {
        let before = channels_in(items.drop_last());
        match json::picked(items.last(), seq!["id"@, "data.id"@]) {
            Some(id) => before.push(
                ChannelView {
                    id,
                    name: match json::picked(items.last(), seq!["name"@, "data.name"@]) {
                        Some(name) => name,
                        None => id,
                    },
                },
            ),
            None => before,
        }
    }
}

/// `next`, unless it is the cursor that was just given.
pub open spec fn moved(next: Option<Seq<char>>, cursor: Option<Seq<char>>) -> Option<Seq<char>> {
    if next == cursor {
        None
    } else {
        next
    }
}

/// The walk once a roster page has been read from `cursor`, and the payload goes on at `next`.
pub open spec fn roster_taken(
    walk: WalkView,
    payload: JsonView,
    cursor: Option<Seq<char>>,
    next: Option<Seq<char>>,
) -> WalkView {
    WalkView {
        channels: channels_in(
            json::elements_found(
                payload,
                seq!["/data/channels"@, "/channels"@, "/data/data/channels"@],
            ),
        ),
        channels_cursor: moved(next, cursor),
        ..walk
    }
}

/// Where a walk goes once it has moved to a new roster page, or `None` when it goes on there at
/// once.
pub open spec fn roster_left(walk: WalkView, at_start: bool) -> Option<Position> {
    if !at_start {
        Some(cursor::in_channel(0, None))
    } else if walk.channels.len() == 0 {
        Some(cursor::in_channel(1, None))
    } else {
        None
    }
}

/// `next`, unless it is the cursor that was just given.
fn unless_unmoved(next: Option<String>, cursor: Option<&str>) -> (result: Option<String>)
    ensures
        text::string_view(result) == moved(text::string_view(next), text::slice_view(cursor)),
{
    match next {
        Some(next) => {
            if let Some(cursor) = cursor {
                if text::same_text(next.as_str(), cursor) {
                    return None;
                }
            }
            Some(next)
        },
        None => None,
    }
}

impl SlackProvider {
    /// What a read of the roster page at `cursor` asks for.
    pub fn channel_page_arguments(&self, cursor: Option<&str>) -> (arguments: Json)
        ensures
            arguments@ == JsonView::Object(roster_request(text::slice_view(cursor))),
    {
        let mut arguments = Json::Object(Vec::new());
        assert(arguments@->Object_0 == Map::<Seq<char>, JsonView>::empty());
        arguments.set("limit", Json::whole(CHANNELS_PER_PAGE));
        // Channels only: direct messages are deliberately not read.
        arguments.set("types", Json::text("public_channel,private_channel"));
        arguments.set("exclude_archived", Json::Bool(true));
        set_cursor(&mut arguments, cursor);
        arguments
    }

    /// Take one roster page, replacing the one in hand. `cursor` is where it was read from, and
    /// `next` where the payload goes on.
    ///
    /// Slack handing back the cursor it was just given would walk the same page for ever: the run
    /// loop stops on records or on the daily budget, and a roster page that yields no channels
    /// produces neither. Refusing a cursor that has not moved ends the walk instead of spending
    /// the budget discovering the same nothing.
    pub fn load_channel_page(
        &self,
        walk: &mut WalkState,
        payload: &Json,
        cursor: Option<&str>,
        next: Option<String>,
    )
        ensures
            final(walk)@ == roster_taken(
                old(walk)@,
                payload@,
                text::slice_view(cursor),
                text::string_view(next),
            ),
    {
        let pointers: [&str; 3] = ["/data/channels", "/channels", "/data/data/channels"];
        assert(text::texts(pointers@) == seq![
            "/data/channels"@,
            "/channels"@,
            "/data/data/channels"@,
        ]);
        let id_paths: [&str; 2] = ["id", "data.id"];
        assert(text::texts(id_paths@) == seq!["id"@, "data.id"@]);
        let name_paths: [&str; 2] = ["name", "data.name"];
        assert(text::texts(name_paths@) == seq!["name"@, "data.name"@]);
        let items = json::first_array(payload, &pointers);
        let ghost says = json::views(items@);
        let mut channels: Vec<Channel> = Vec::new();
        assert(state::channel_views(channels@) == channels_in(says.take(0)));
        let mut i: usize = 0;
        while i < items.len()
            invariant
                i <= items@.len(),
                says == json::views(items@),
                text::texts(id_paths@) == seq!["id"@, "data.id"@],
                text::texts(name_paths@) == seq!["name"@, "data.name"@],
                state::channel_views(channels@) == channels_in(says.take(i as int)),
            decreases items@.len() - i,
        {
            assert(says.take(i + 1).drop_last() == says.take(i as int));
            if let Some(id) = json::pick_str(&items[i], &id_paths) {
                let name = match json::pick_str(&items[i], &name_paths) {
                    Some(name) => name,
                    None => id.clone(),
                };
                let ghost before = channels@;
                channels.push(Channel { id, name });
                assert(state::channel_views(channels@) == state::channel_views(before).push(
                    channels@.last()@,
                ));
            }
            i += 1;
        }
        assert(says.take(i as int) == says);
        walk.channels = channels;
        walk.channels_cursor = unless_unmoved(next, cursor);
    }

    /// Move to the next roster page, which was read from `cursor`: the walk goes on at its first
    /// channel.
    ///
    /// A walk that was told to resume `at_start`, at the first channel of a roster page that has
    /// none, must not be told so again: reporting the position it was given is how it would be
    /// asked for again for ever. With channels in the new page it goes on there at once, and there
    /// is no page to report yet. Without, it steps past a first channel that does not exist.
    pub fn advance_roster(
        &self,
        walk: &mut WalkState,
        at_start: bool,
        payload: &Json,
        cursor: &str,
        next: Option<String>,
    ) -> (read: Option<Read>)
        ensures
            final(walk)@ == roster_taken(
                old(walk)@,
                payload@,
                Some(cursor@),
                text::string_view(next),
            ),
            match roster_left(final(walk)@, at_start) {
                Some(position) => read matches Some(read) && read.page.is_bare()
                    && text::string_view(read.page.next_cursor) == Some(
                    cursor::position_text(position),
                ) && read.changed,
                None => read is None,
            },
    {
        self.load_channel_page(walk, payload, Some(cursor), next);
        if at_start && walk.channels.len() > 0 {
            return None;
        }
        let index: usize = if at_start {
            1
        } else {
            0
        };
        let start = Cursor::new(index, None);
        Some(Read { page: empty_page(Some(start.encode())), changed: true })
    }
}

// ---- the user directory ----

/// What a read of a directory page asks for.
pub open spec fn users_request(cursor: Option<Seq<char>>) -> Map<Seq<char>, JsonView> {
    resuming(Map::empty().insert("limit"@, number(USERS_PER_PAGE as nat)), cursor)
}

/// `found` with the members of a list that have an id and a name.
pub open spec fn with_members(
    found: Map<Seq<char>, Seq<char>>,
    items: Seq<JsonView>,
) -> Map<Seq<char>, Seq<char>>
    decreases items.len(),
{
    if items.len() == 0 {
        found
    } else {
        let before = with_members(found, items.drop_last());
        match (
            json::picked(items.last(), seq!["id"@]),
            json::picked(items.last(), seq!["profile.display_name"@, "real_name"@, "name"@]),
        ) {
            (Some(id), Some(name)) => before.insert(id, name),
            _ => before,
        }
    }
}

/// A read of the user directory, page by page.
#[derive(Debug)]
pub struct UserDirectory {
    /// The names found so far, by user id.
    pub found: TextMap<String>,
    /// Where the next page starts, if part way in.
    pub cursor: Option<String>,
    /// How many pages have been read.
    pub pages: usize,
    /// When the read started, in milliseconds since the Unix epoch.
    pub now_ms: i64,
}

/// What a [`UserDirectory`] says.
#[verifier::ext_equal]
pub struct DirectoryView {
    pub found: Map<Seq<char>, Seq<char>>,
    pub cursor: Option<Seq<char>>,
    pub pages: int,
    pub now_ms: i64,
}

impl View for UserDirectory {
    type V = DirectoryView;

    open spec fn view(&self) -> DirectoryView {
        DirectoryView {
            found: self.found@,
            cursor: text::string_view(self.cursor),
            pages: self.pages as int,
            now_ms: self.now_ms,
        }
    }
}

/// The read of the directory that starts at `now_ms`.
pub open spec fn directory_start(now_ms: i64) -> DirectoryView {
    DirectoryView { found: Map::empty(), cursor: None, pages: 0, now_ms }
}

/// The directory once a page of it has been read, and the payload goes on at `next`.
pub open spec fn directory_taken(
    directory: DirectoryView,
    payload: JsonView,
    next: Option<Seq<char>>,
) -> DirectoryView {
    DirectoryView {
        found: with_members(
            directory.found,
            json::elements_found(
                payload,
                seq!["/data/members"@, "/members"@, "/data/data/members"@],
            ),
        ),
        cursor: moved(next, directory.cursor),
        pages: directory.pages + 1,
        now_ms: directory.now_ms,
    }
}

/// Whether another page of the directory is to be read.
pub open spec fn directory_goes_on(directory: DirectoryView) -> bool {
    directory.cursor is Some && directory.pages < USER_PAGES_MAX
}

/// The walk with a directory that has been read, unless nothing was found.
pub open spec fn users_taken(walk: WalkView, directory: DirectoryView) -> WalkView {
    if directory.found == Map::<Seq<char>, Seq<char>>::empty() {
        walk
    } else {
        WalkView { users: directory.found, users_fetched_ms: directory.now_ms, ..walk }
    }
}

impl UserDirectory {
    /// A read of the directory that starts at `now_ms`.
    pub fn new(now_ms: i64) -> (directory: UserDirectory)
        ensures
            directory@ == directory_start(now_ms),
    {
        UserDirectory { found: TextMap::new(), cursor: None, pages: 0, now_ms }
    }

    /// What the read of the next page asks for.
    pub fn arguments(&self) -> (arguments: Json)
        ensures
            arguments@ == JsonView::Object(users_request(self@.cursor)),
    {
        let mut arguments = Json::Object(Vec::new());
        assert(arguments@->Object_0 == Map::<Seq<char>, JsonView>::empty());
        arguments.set("limit", Json::whole(USERS_PER_PAGE));
        set_cursor(&mut arguments, as_slice(&self.cursor));
        arguments
    }

    /// Take a page of the directory, which goes on at `next`. Returns whether another page is to
    /// be read.
    pub fn take_page(&mut self, payload: &Json, next: Option<String>) -> (more: bool)
        requires
            old(self).pages < USER_PAGES_MAX,
        ensures
            final(self)@ == directory_taken(old(self)@, payload@, text::string_view(next)),
            more == directory_goes_on(final(self)@),
    {
        let pointers: [&str; 3] = ["/data/members", "/members", "/data/data/members"];
        assert(text::texts(pointers@) == seq![
            "/data/members"@,
            "/members"@,
            "/data/data/members"@,
        ]);
        let id_paths: [&str; 1] = ["id"];
        assert(text::texts(id_paths@) == seq!["id"@]);
        let name_paths: [&str; 3] = ["profile.display_name", "real_name", "name"];
        assert(text::texts(name_paths@) == seq![
            "profile.display_name"@,
            "real_name"@,
            "name"@,
        ]);
        let items = json::first_array(payload, &pointers);
        let ghost says = json::views(items@);
        let ghost before = self.found@;
        assert(with_members(before, says.take(0)) == before);
        let mut i: usize = 0;
        while i < items.len()
            invariant
                i <= items@.len(),
                says == json::views(items@),
                text::texts(id_paths@) == seq!["id"@],
                text::texts(name_paths@) == seq![
                    "profile.display_name"@,
                    "real_name"@,
                    "name"@,
                ],
                self.found@ == with_members(before, says.take(i as int)),
                self.cursor == old(self).cursor,
                self.pages == old(self).pages,
                self.now_ms == old(self).now_ms,
            decreases items@.len() - i,
        {
            assert(says.take(i + 1).drop_last() == says.take(i as int));
            if let Some(id) = json::pick_str(&items[i], &id_paths) {
                if let Some(name) = json::pick_str(&items[i], &name_paths) {
                    self.found.insert(id, name);
                }
            }
            i += 1;
        }
        assert(says.take(i as int) == says);
        let cursor = unless_unmoved(next, as_slice(&self.cursor));
        self.cursor = cursor;
        self.pages = self.pages + 1;
        self.cursor.is_some() && self.pages < USER_PAGES_MAX
    }

    /// Give `walk` the directory that was read, unless nothing was found. Returns whether it was
    /// given.
    ///
    /// A directory that cannot be read is no failure of the walk: mentions render as raw ids,
    /// which is worse to read and no reason to ingest nothing.
    pub fn finish(self, walk: &mut WalkState) -> (refreshed: bool)
        ensures
            final(walk)@ == users_taken(old(walk)@, self@),
            refreshed == (self@.found != Map::<Seq<char>, Seq<char>>::empty()),
    {
        if self.found.is_empty() {
            return false;
        }
        walk.users = self.found;
        walk.users_fetched_ms = self.now_ms;
        true
    }
}

impl SlackProvider {
    /// The read that refreshes the user directory, if it is missing or old at `now_ms`.
    pub fn refresh_users(&self, walk: &WalkState, now_ms: i64) -> (directory: Option<UserDirectory>)
        ensures
            match directory {
                Some(directory) => state::users_stale(walk@, now_ms as int) && directory@
                    == directory_start(now_ms),
                None => !state::users_stale(walk@, now_ms as int),
            },
    {
        if walk.users_are_stale(now_ms) {
            Some(UserDirectory::new(now_ms))
        } else {
            None
        }
    }
}

// ---- threads ----

/// What a read of a page of the replies under a message asks for.
pub open spec fn thread_request(
    channel: Seq<char>,
    parent: Seq<char>,
    reply_page: Option<Seq<char>>,
) -> Map<Seq<char>, JsonView> {
    resuming(
        Map::empty().insert("channel"@, JsonView::Text(channel)).insert(
            "ts"@,
            JsonView::Text(parent),
        ).insert("limit"@, number(MESSAGES_PER_PAGE as nat)),
        reply_page,
    )
}

/// Where the walk goes once the replies under a thread are read: to the next thread owed, or else
/// on with the channel's history, or else, with nothing left in the channel, to the next channel,
/// and then its mark is committed.
pub open spec fn channel_left(
    walk: WalkView,
    index: usize,
    history: Option<Seq<char>>,
    channel: Seq<char>,
    depth_days: Option<u32>,
) -> (WalkView, Position) {
    if walk.threads.len() > 0 {
        (
            WalkView { threads: walk.threads.drop_last(), ..walk },
            cursor::in_replies(index, history, walk.threads.last(), None),
        )
    } else if history is Some {
        (walk, cursor::in_channel(index, history))
    } else {
        (
            state::committed(walk, channel, depth_days),
            cursor::in_channel((index + 1) as usize, None),
        )
    }
}

/// The threads of a queue whose ids a cursor can hold.
pub open spec fn readable_threads(threads: Seq<Seq<char>>) -> Seq<Seq<char>>
    decreases threads.len(),
{
    if threads.len() == 0 {
        Seq::empty()
    } else {
        let before = readable_threads(threads.drop_last());
        if cursor::storable(Some(threads.last())) {
            before.push(threads.last())
        } else {
            before
        }
    }
}

/// A queue that does not end with `thread`: as many copies of it as stand at its end are cut off.
pub open spec fn not_ending_with(threads: Seq<Seq<char>>, thread: Seq<char>) -> Seq<Seq<char>>
    decreases threads.len(),
{
    if threads.len() > 0 && threads.last() == thread {
        not_ending_with(threads.drop_last(), thread)
    } else {
        threads
    }
}

/// The threads that a queue still owes once `just_read` has been read. The queue is drained from
/// its end, so a copy of that thread at its end would be read from its start at once; one that
/// stands before another thread is read in its turn.
pub open spec fn still_owed(threads: Seq<Seq<char>>, just_read: Seq<char>) -> Seq<Seq<char>> {
    not_ending_with(readable_threads(threads), just_read)
}

/// Where the replies under a message go on: at `more`, unless it is empty or the very cursor that
/// was given.
pub open spec fn replies_go_on(
    more: Option<Seq<char>>,
    given: Option<Seq<char>>,
) -> Option<Seq<char>> {
    match more {
        Some(next) if next.len() > 0 && more != given => more,
        _ => None,
    }
}

/// The walk, and where it goes, once a page of the replies under `parent` has been read that goes
/// on at `more`. Replies that go on nowhere new are at their end.
pub open spec fn thread_taken(
    walk: WalkView,
    position: Position,
    channel: Seq<char>,
    parent: Seq<char>,
    depth_days: Option<u32>,
    more: Option<Seq<char>>,
) -> (WalkView, Position) {
    match replies_go_on(more, position.reply_page) {
        Some(more) => (
            walk,
            cursor::in_replies(position.index, position.history, parent, Some(more)),
        ),
        None => channel_left(
            WalkView { threads: still_owed(walk.threads, parent), ..walk },
            position.index,
            position.history,
            channel,
            depth_days,
        ),
    }
}

/// A page of the replies under a message.
#[derive(Debug)]
pub struct ThreadReply {
    /// The records of the replies, the parent left out.
    pub records: Vec<ConnectorRecord>,
    /// The versions of the records that have one.
    pub versions: Vec<(String, String)>,
    /// Where the replies go on.
    pub more: Option<String>,
}

/// How a read of a page of messages ended.
#[derive(Debug)]
pub enum Outcome<T> {
    /// The page was read.
    Reply(T),
    /// The read failed. A fatal failure is one of the connection, not of what was read.
    Failed { error: Error, fatal: bool },
}

/// Leaves a channel whose thread, or whose page of history, has been dealt with.
fn leave(
    walk: &mut WalkState,
    index: usize,
    history: Option<String>,
    channel: &Channel,
    depth_days: Option<u32>,
) -> (next: Cursor)
    requires
        index < usize::MAX,
    ensures
        ({
            let (walk_after, position) = channel_left(
                old(walk)@,
                index,
                text::string_view(history),
                channel@.id,
                depth_days,
            );
            &&& final(walk)@ == walk_after
            &&& next@ == position
        }),
{
    let ghost before = walk@;
    if let Some(parent) = walk.threads.pop() {
        // This channel still owes replies elsewhere.
        assert(walk@.threads == before.threads.drop_last());
        assert(parent@ == before.threads.last());
        Cursor::in_thread(index, history, parent, None)
    } else if history.is_some() {
        // Threads drained; carry on where the history left off.
        Cursor::new(index, history)
    } else {
        // Nothing left in this channel, replies included: the mark is safe.
        walk.commit_high_water(channel.id.as_str(), depth_days);
        Cursor::new(index + 1, None)
    }
}

/// Takes out of the queue the threads whose ids a cursor could not hold.
fn drop_unreadable(threads: &mut Vec<String>)
    ensures
        text::strings(final(threads)@) == readable_threads(text::strings(old(threads)@)),
{
    let ghost all = text::strings(threads@);
    let mut kept: Vec<String> = Vec::new();
    assert(text::strings(kept@) == readable_threads(all.take(0)));
    let mut i: usize = 0;
    while i < threads.len()
        invariant
            i <= threads@.len(),
            all == text::strings(threads@),
            text::strings(kept@) == readable_threads(all.take(i as int)),
        decreases threads@.len() - i,
    {
        assert(all.take(i + 1).drop_last() == all.take(i as int));
        assert(all.take(i + 1).last() == threads@[i as int]@);
        if cursor::is_storable(threads[i].as_str()) {
            let ghost before = kept@;
            kept.push(threads[i].clone());
            assert(text::strings(kept@) == text::strings(before).push(all[i as int]));
        }
        i += 1;
    }
    assert(all.take(i as int) == all);
    *threads = kept;
}

/// Takes the thread just read off the end of the queue, and out of it the threads whose ids a
/// cursor could not hold.
fn drop_settled(threads: &mut Vec<String>, just_read: &str)
    ensures
        text::strings(final(threads)@) == still_owed(text::strings(old(threads)@), just_read@),
{
    drop_unreadable(threads);
    let ghost readable = text::strings(threads@);
    while threads.len() > 0
        invariant
            not_ending_with(readable, just_read@) == not_ending_with(
                text::strings(threads@),
                just_read@,
            ),
            readable == readable_threads(text::strings(old(threads)@)),
        decreases threads@.len(),
    {
        let last: usize = threads.len() - 1;
        assert(text::strings(threads@).last() == threads@[last as int]@);
        if !text::same_text(threads[last].as_str(), just_read) {
            return;
        }
        let ghost before = threads@;
        let _ = threads.pop();
        assert(text::strings(threads@) == text::strings(before).drop_last());
    }
}

/// Where the walk goes once a thread page has been read.
///
/// Slack handing back the cursor it was given would have the same replies read for ever, and a
/// thread queued behind itself would be read again at once. Neither is followed.
pub fn after_thread(
    walk: &mut WalkState,
    position: &Cursor,
    channel: &Channel,
    parent: &str,
    depth_days: Option<u32>,
    records: Vec<ConnectorRecord>,
    more: Option<String>,
) -> (read: Read)
    requires
        position.index < usize::MAX,
    ensures
        ({
            let (walk_after, next) = thread_taken(
                old(walk)@,
                position@,
                channel@.id,
                parent@,
                depth_days,
                text::string_view(more),
            );
            &&& final(walk)@ == walk_after
            &&& text::string_view(read.page.next_cursor) == Some(cursor::position_text(next))
        }),
        read.page.records == records,
        read.page.versions@.len() == 0,
        read.page.requests_used == 0,
        read.changed,
{
    let history = text::copy_string(&position.history);
    let further = match unless_unmoved(more, as_slice(&position.reply_page)) {
        Some(more) => {
            if more.as_str().is_empty() {
                None
            } else {
                Some(more)
            }
        },
        None => None,
    };
    let next = match further {
        // Same thread, further in. Named from the argument rather than read back out of the
        // cursor: a `None` there would silently report the whole workspace walked and abandon
        // every channel after this one.
        Some(more) => Cursor::in_thread(position.index, history, parent.to_owned(), Some(more)),
        None => {
            drop_settled(&mut walk.threads, parent);
            leave(walk, position.index, history, channel, depth_days)
        },
    };
    let mut page = ProviderPage::default();
    page.records = records;
    page.next_cursor = Some(next.encode());
    Read { page, changed: true }
}

impl SlackProvider {
    /// What a read of one page of the replies under `parent` asks for.
    pub fn thread_arguments(
        &self,
        position: &Cursor,
        channel: &Channel,
        parent: &str,
    ) -> (arguments: Json)
        ensures
            arguments@ == JsonView::Object(
                thread_request(channel@.id, parent@, position@.reply_page),
            ),
    {
        let mut arguments = Json::Object(Vec::new());
        assert(arguments@->Object_0 == Map::<Seq<char>, JsonView>::empty());
        arguments.set("channel", Json::text(channel.id.as_str()));
        arguments.set("ts", Json::text(parent));
        arguments.set("limit", Json::whole(MESSAGES_PER_PAGE));
        set_cursor(&mut arguments, as_slice(&position.reply_page));
        arguments
    }

    /// Take one page of the replies under the message the cursor names.
    ///
    /// A thread that cannot be read costs its replies, not the run: only a failure that is fatal
    /// fails the page.
    pub fn read_thread(
        &self,
        walk: &mut WalkState,
        position: &Cursor,
        channel: &Channel,
        parent: &str,
        depth_days: Option<u32>,
        outcome: Outcome<ThreadReply>,
    ) -> (result: Result<Read, Error>)
        requires
            position.index < usize::MAX,
        ensures
            match outcome {
                Outcome::Failed { error, fatal: true } => result == Err::<Read, Error>(error)
                    && final(walk)@ == old(walk)@,
                _ => result is Ok && ({
                    let read = result->Ok_0;
                    let more = match outcome {
                        Outcome::Reply(reply) => text::string_view(reply.more),
                        _ => None,
                    };
                    let (walk_after, next) = thread_taken(
                        old(walk)@,
                        position@,
                        channel@.id,
                        parent@,
                        depth_days,
                        more,
                    );
                    &&& final(walk)@ == walk_after
                    &&& text::string_view(read.page.next_cursor) == Some(
                        cursor::position_text(next),
                    )
                    &&& read.page.requests_used == 0
                    &&& read.changed
                    &&& match outcome {
                        Outcome::Reply(reply) => read.page.records == reply.records
                            && read.page.versions == reply.versions,
                        _ => read.page.is_bare(),
                    }
                }),
            },
    {
        match outcome {
            Outcome::Reply(reply) => {
                let mut read = after_thread(
                    walk,
                    position,
                    channel,
                    parent,
                    depth_days,
                    reply.records,
                    reply.more,
                );
                read.page.versions = reply.versions;
                Ok(read)
            },
            Outcome::Failed { error, fatal } => {
                if fatal {
                    Err(error)
                } else {
                    Ok(
                        after_thread(
                            walk,
                            position,
                            channel,
                            parent,
                            depth_days,
                            Vec::new(),
                            None,
                        ),
                    )
                }
            },
        }
    }
}

// ---- history ----

/// How many messages a read of a history page asks for.
pub open spec fn messages_asked(max_items: usize) -> nat {
    if max_items < 1 {
        1
    } else if max_items > MESSAGES_PER_PAGE {
        MESSAGES_PER_PAGE as nat
    } else {
        max_items as nat
    }
}

/// What a read of a page of a channel's history asks for at the second `now`.
pub open spec fn history_request(
    walk: WalkView,
    history: Option<Seq<char>>,
    channel: Seq<char>,
    limits: SyncLimits,
    now: int,
) -> Map<Seq<char>, JsonView> {
    let asked = Map::empty().insert("channel"@, JsonView::Text(channel)).insert(
        "inclusive"@,
        JsonView::Bool(false),
    ).insert("limit"@, number(messages_asked(limits.max_items)));
    let bounded = match state::oldest(walk, channel, limits.depth_days, now) {
        Some(oldest) => asked.insert("oldest"@, JsonView::Text(oldest)),
        None => asked,
    };
    resuming(bounded, history)
}

/// The first `ts` that any of `messages` has.
pub open spec fn newest_of(messages: Seq<JsonView>) -> Option<Seq<char>>
    decreases messages.len(),
{
    if messages.len() == 0 {
        None
    } else {
        match json::picked(messages[0], seq!["ts"@]) {
            Some(ts) => Some(ts),
            None => newest_of(messages.skip(1)),
        }
    }
}

/// The messages that have replies, in the order they are listed. One whose id a cursor could not
/// hold is left out.
pub open spec fn owed(parents: Seq<Option<Seq<char>>>) -> Seq<Seq<char>>
    decreases parents.len(),
{
    if parents.len() == 0 {
        Seq::empty()
    } else {
        match parents[0] {
            Some(parent) if cursor::storable(Some(parent)) => seq![parent] + owed(parents.skip(1)),
            _ => owed(parents.skip(1)),
        }
    }
}

/// The walk as a page of history finds it. Entering a channel, nothing earlier owes it replies,
/// and the newest message of the whole channel is on this page.
pub open spec fn channel_entered(
    walk: WalkView,
    history: Option<Seq<char>>,
    channel: Seq<char>,
    messages: Seq<JsonView>,
) -> WalkView {
    if history is Some {
        walk
    } else {
        WalkView {
            threads: Seq::empty(),
            pending: match newest_of(messages) {
                Some(ts) => walk.pending.insert(channel, ts),
                None => walk.pending,
            },
            ..walk
        }
    }
}

/// Where a channel's history goes on: at `more`, unless it is one that a cursor could not hold, or
/// the very cursor that was given.
pub open spec fn history_goes_on(
    more: Option<Seq<char>>,
    given: Option<Seq<char>>,
) -> Option<Seq<char>> {
    if cursor::storable(more) && more != given {
        more
    } else {
        None
    }
}

/// Whether a channel's history goes on, but nowhere that it could be followed to.
pub open spec fn history_is_lost(more: Option<Seq<char>>, given: Option<Seq<char>>) -> bool {
    more matches Some(next) && next.len() > 0 && history_goes_on(more, given) is None
}

/// The walk, and where it goes, once a page of a channel's history has been read that goes on at
/// `more`. The threads under the page's messages are queued behind the threads already owed, the
/// first listed last, since the queue is drained from its end. A channel whose history is lost is
/// left without its mark moving, then or later, once it owes no thread.
pub open spec fn history_taken(
    walk: WalkView,
    position: Position,
    channel: Seq<char>,
    depth_days: Option<u32>,
    messages: Seq<JsonView>,
    parents: Seq<Option<Seq<char>>>,
    more: Option<Seq<char>>,
) -> (WalkView, Position) {
    let entered = channel_entered(walk, position.history, channel, messages);
    let queued = WalkView {
        threads: readable_threads(entered.threads) + owed(parents).reverse(),
        pending: if history_is_lost(more, position.history) {
            entered.pending.remove(channel)
        } else {
            entered.pending
        },
        ..entered
    };
    channel_left(
        queued,
        position.index,
        history_goes_on(more, position.history),
        channel,
        depth_days,
    )
}

/// The walk, and where it goes, once a channel could not be read.
pub open spec fn channel_skipped(walk: WalkView, position: Position) -> (WalkView, Position) {
    (
        WalkView { threads: Seq::empty(), ..walk },
        cursor::in_channel((position.index + 1) as usize, None),
    )
}

/// A page of a channel's history.
#[derive(Debug)]
pub struct HistoryReply {
    /// The messages, newest first.
    pub messages: Vec<Json>,
    /// For each message, its id where it has replies.
    pub parents: Vec<Option<String>>,
    /// The records of the messages.
    pub records: Vec<ConnectorRecord>,
    /// The versions of the records that have one.
    pub versions: Vec<(String, String)>,
    /// Where the history goes on.
    pub more: Option<String>,
}

/// What each of a list of optional strings says.
pub open spec fn optional_strings(list: Seq<Option<String>>) -> Seq<Option<Seq<char>>> {
    Seq::new(list.len(), |i: int| text::string_view(list[i]))
}

/// The first `ts` that any of `messages` has.
fn find_newest(messages: &Vec<Json>) -> (newest: Option<String>)
    ensures
        text::string_view(newest) == newest_of(json::views(messages@)),
{
    let paths: [&str; 1] = ["ts"];
    assert(text::texts(paths@) == seq!["ts"@]);
    let ghost says = json::views(messages@);
    assert(says.skip(0) == says);
    let mut i: usize = 0;
    while i < messages.len()
        invariant
            i <= messages@.len(),
            says == json::views(messages@),
            text::texts(paths@) == seq!["ts"@],
            newest_of(says) == newest_of(says.skip(i as int)),
        decreases messages@.len() - i,
    {
        assert(says.skip(i as int).skip(1) == says.skip(i + 1));
        let ts = json::pick_str(&messages[i], &paths);
        if ts.is_some() {
            return ts;
        }
        i += 1;
    }
    None
}

/// Queue the messages that have replies, the first listed last.
fn queue_threads(threads: &mut Vec<String>, parents: Vec<Option<String>>)
    ensures
        text::strings(final(threads)@) == text::strings(old(threads)@) + owed(
            optional_strings(parents@),
        ).reverse(),
{
    let ghost all = optional_strings(parents@);
    let ghost before = text::strings(threads@);
    let mut rest = parents;
    assert(all.skip(all.len() as int) == Seq::<Option<Seq<char>>>::empty());
    assert(owed(Seq::<Option<Seq<char>>>::empty()).reverse() == Seq::<Seq<char>>::empty());
    assert(before + Seq::<Seq<char>>::empty() == before);
    while rest.len() > 0
        invariant
            rest@.len() <= all.len(),
            optional_strings(rest@) == all.take(rest@.len() as int),
            text::strings(threads@) == before + owed(all.skip(rest@.len() as int)).reverse(),
        decreases rest@.len(),
    {
        let ghost last = rest@.len() - 1;
        assert(optional_strings(rest@)[last] == all[last]);
        assert(all.skip(last)[0] == all[last]);
        assert(all.skip(last).skip(1) == all.skip(last + 1));
        let ghost shorter = rest@.drop_last();
        assert(optional_strings(shorter) == all.take(last));
        let ghost behind = owed(all.skip(last + 1));
        if let Some(Some(parent)) = rest.pop() {
            if cursor::is_storable(parent.as_str()) {
                let ghost queued = threads@;
                threads.push(parent);
                assert(text::strings(threads@) == text::strings(queued).push(parent@));
                assert((seq![parent@] + behind).reverse() == behind.reverse().push(parent@));
                assert(before + behind.reverse().push(parent@) == (before + behind.reverse()).push(
                    parent@,
                ));
            }
        }
        assert(rest@ == shorter);
    }
    assert(all.skip(0) == all);
}

impl SlackProvider {
    /// What a read of one page of the channel the cursor names asks for at the second `now`.
    pub fn history_arguments_at(
        &self,
        walk: &WalkState,
        position: &Cursor,
        channel: &Channel,
        limits: &SyncLimits,
        now: i64,
    ) -> (arguments: Json)
        requires
            clock::shown(now as int),
        ensures
            arguments@ == JsonView::Object(
                history_request(walk@, position@.history, channel@.id, *limits, now as int),
            ),
    {
        let limit: u64 = if limits.max_items < 1 {
            1
        } else if limits.max_items as u64 > MESSAGES_PER_PAGE {
            MESSAGES_PER_PAGE
        } else {
            limits.max_items as u64
        };
        let mut arguments = Json::Object(Vec::new());
        assert(arguments@->Object_0 == Map::<Seq<char>, JsonView>::empty());
        arguments.set("channel", Json::text(channel.id.as_str()));
        arguments.set("inclusive", Json::Bool(false));
        arguments.set("limit", Json::whole(limit));
        if let Some(oldest) = walk.oldest_for_at(channel.id.as_str(), limits.depth_days, now) {
            arguments.set("oldest", Json::Text(oldest));
        }
        set_cursor(&mut arguments, as_slice(&position.history));
        arguments
    }

    /// What a read of one page of the channel the cursor names asks for.
    pub fn history_arguments(
        &self,
        walk: &WalkState,
        position: &Cursor,
        channel: &Channel,
        limits: &SyncLimits,
    ) -> (arguments: Json)
        ensures
            exists|now: int| #[trigger]
                clock::shown(now) && arguments@ == JsonView::Object(
                    history_request(walk@, position@.history, channel@.id, *limits, now),
                ),
    {
        let now: i64 = clock::now_millis() / 1000;
        self.history_arguments_at(walk, position, channel, limits, now)
    }

    /// Take one page of the channel the cursor names.
    ///
    /// One channel the account cannot read is ordinary: archived, not a member, rate-limited.
    /// Skipping it costs that channel; failing here would cost the workspace. Only a failure that
    /// is fatal fails the page.
    pub fn read_history(
        &self,
        walk: &mut WalkState,
        position: &Cursor,
        channel: &Channel,
        depth_days: Option<u32>,
        outcome: Outcome<HistoryReply>,
    ) -> (result: Result<Read, Error>)
        requires
            position.index < usize::MAX,
        ensures
            match outcome {
                Outcome::Failed { error, fatal: true } => result == Err::<Read, Error>(error)
                    && final(walk)@ == old(walk)@,
                Outcome::Failed { error, fatal: false } => result is Ok && ({
                    let (walk_after, next) = channel_skipped(old(walk)@, position@);
                    &&& final(walk)@ == walk_after
                    &&& result->Ok_0.page.is_bare()
                    &&& text::string_view(result->Ok_0.page.next_cursor) == Some(
                        cursor::position_text(next),
                    )
                    &&& result->Ok_0.changed
                }),
                Outcome::Reply(reply) => result is Ok && ({
                    let (walk_after, next) = history_taken(
                        old(walk)@,
                        position@,
                        channel@.id,
                        depth_days,
                        json::views(reply.messages@),
                        optional_strings(reply.parents@),
                        text::string_view(reply.more),
                    );
                    &&& final(walk)@ == walk_after
                    &&& result->Ok_0.page.records == reply.records
                    &&& result->Ok_0.page.versions == reply.versions
                    &&& result->Ok_0.page.requests_used == 0
                    &&& text::string_view(result->Ok_0.page.next_cursor) == Some(
                        cursor::position_text(next),
                    )
                    &&& result->Ok_0.changed
                }),
            },
    {
        let reply = match outcome {
            Outcome::Reply(reply) => reply,
            Outcome::Failed { error, fatal } => {
                if fatal {
                    return Err(error);
                }
                walk.threads.clear();
                assert(walk@.threads == Seq::<Seq<char>>::empty());
                let next = Cursor::new(position.index + 1, None);
                return Ok(Read { page: empty_page(Some(next.encode())), changed: true });
            },
        };
        // Entering a channel: nothing earlier owes it replies, and a queue left behind by an
        // interrupted walk of another channel must not be drained against this one.
        if position.history.is_none() {
            walk.threads.clear();
            assert(walk@.threads == Seq::<Seq<char>>::empty());
            // Slack returns a channel newest-first, so the newest message of the whole channel is
            // on its first page. Remember it now and promote it only when the channel ends.
            if let Some(newest) = find_newest(&reply.messages) {
                walk.pending.insert(channel.id.clone(), newest);
            }
        }
        assert(walk@ == channel_entered(
            old(walk)@,
            position@.history,
            channel@.id,
            json::views(reply.messages@),
        ));
        // Queue the conversations under this page before reading further: they belong to messages
        // this page just ingested. Pushed back-to-front because the queue is drained from its
        // end, which makes the threads come back in the order Slack listed their parents.
        drop_unreadable(&mut walk.threads);
        queue_threads(&mut walk.threads, reply.parents);
        // Slack handing back the cursor it was given would have the same page read for ever. The
        // channel cannot be followed further, and what lies below this page has not been read: it
        // is left like one that cannot be read, and its mark stays where it is.
        let further = match reply.more {
            Some(more) => {
                if more.as_str().is_empty() {
                    None
                } else {
                    let storable = cursor::is_storable(more.as_str());
                    let moved = unless_unmoved(Some(more), as_slice(&position.history));
                    if storable && moved.is_some() {
                        moved
                    } else {
                        let _ = walk.pending.remove(channel.id.as_str());
                        None
                    }
                }
            },
            None => None,
        };
        let next = leave(walk, position.index, further, channel, depth_days);
        let mut page = ProviderPage::default();
        page.records = reply.records;
        page.versions = reply.versions;
        page.next_cursor = Some(next.encode());
        Ok(Read { page, changed: true })
    }
}

// ---- the toolkit ----

impl SlackProvider {
    /// The name by which the toolkit is known.
    pub fn toolkit_slug(&self) -> (slug: &'static str)
        ensures
            slug@ == "slack"@,
    {
        "slack"
    }

    /// What the toolkit does.
    pub fn description(&self) -> (description: &'static str)
        ensures
            description@
                == "Read and send Slack messages, and ingest channel history as memory."@,
    {
        "Read and send Slack messages, and ingest channel history as memory."
    }

    /// How often an account is walked, in seconds.
    pub fn sync_interval_secs(&self) -> (secs: Option<u64>)
        ensures
            secs == Some(900u64),
    {
        Some(900)
    }

    /// The workspace that the connection is of, once it has been read. `pick` finds a field of
    /// the payload by its dotted paths. A request that failed fails the read.
    ///
    /// The workspace is what a Slack connection is *of*; a UI labelling an account has nothing
    /// better to show.
    pub fn user_profile<F: Fn(&Json, &[&str]) -> Option<String>>(
        &self,
        connection_id: &str,
        reply: Result<Json, Error>,
        pick: &F,
    ) -> (result: Result<ProviderUserProfile, Error>)
        requires
            forall|payload: &Json, paths: &[&str]| pick.requires((payload, paths)),
        ensures
            match reply {
                Ok(payload) => result is Ok && ({
                    let profile = result->Ok_0;
                    &&& profile.toolkit@ == "slack"@
                    &&& text::string_view(profile.connection_id) == Some(connection_id@)
                    &&& provider::picks(
                        *pick,
                        payload,
                        seq!["team.name"@, "name"@, "data.team.name"@],
                        profile.display_name,
                    )
                    &&& provider::picks(
                        *pick,
                        payload,
                        seq!["team.domain"@, "domain"@, "data.team.domain"@],
                        profile.username,
                    )
                    &&& provider::picks(
                        *pick,
                        payload,
                        seq!["team.icon.image_132"@, "icon.image_132"@],
                        profile.avatar_url,
                    )
                    &&& profile.email is None
                    &&& profile.extras == payload
                }),
                Err(error) => result == Err::<ProviderUserProfile, Error>(error),
            },
    {
        match reply {
            Ok(payload) => {
                let named: [&str; 3] = ["team.name", "name", "data.team.name"];
                let known: [&str; 3] = ["team.domain", "domain", "data.team.domain"];
                let pictured: [&str; 2] = ["team.icon.image_132", "icon.image_132"];
                assert(text::texts(named@) == seq!["team.name"@, "name"@, "data.team.name"@]);
                assert(text::texts(known@) == seq!["team.domain"@, "domain"@, "data.team.domain"@]);
                assert(text::texts(pictured@) == seq!["team.icon.image_132"@, "icon.image_132"@]);
                let display_name = pick(&payload, &named);
                let username = pick(&payload, &known);
                let avatar_url = pick(&payload, &pictured);
                Ok(
                    ProviderUserProfile {
                        toolkit: self.toolkit_slug().to_owned(),
                        connection_id: Some(connection_id.to_owned()),
                        username,
                        display_name,
                        email: None,
                        avatar_url,
                        extras: payload,
                    },
                )
            },
            Err(error) => Err(error),
        }
    }
}

// ---- laws ----

/// The threads still owed, in the order they will be read.
pub open spec fn queue(threads: Seq<Seq<char>>) -> Seq<Seq<char>> {
    threads.reverse()
}

/// The threads under a page of history are read before those already owed, in the order that
/// Slack listed their parents.
pub proof fn threads_come_back_in_order(
    walk: WalkView,
    position: Position,
    channel: Seq<char>,
    depth_days: Option<u32>,
    messages: Seq<JsonView>,
    parents: Seq<Option<Seq<char>>>,
    more: Option<Seq<char>>,
)
    ensures
        ({
            let (after, next) = history_taken(
                walk,
                position,
                channel,
                depth_days,
                messages,
                parents,
                more,
            );
            let earlier = readable_threads(
                channel_entered(walk, position.history, channel, messages).threads,
            );
            let all = owed(parents) + queue(earlier);
            match next.thread {
                Some(thread) => all == seq![thread] + queue(after.threads),
                None => all.len() == 0 && after.threads.len() == 0,
            }
        }),
{
    let earlier = readable_threads(
        channel_entered(walk, position.history, channel, messages).threads,
    );
    let threads = earlier + owed(parents).reverse();
    let all = owed(parents) + queue(earlier);
    assert(threads.reverse() == all);
    if threads.len() > 0 {
        assert(all == seq![threads.last()] + threads.drop_last().reverse());
    }
}

/// No thread stays in a queue that could not be stored, and a queue in which all can be is left as
/// it is.
pub proof fn readable_threads_can_be_stored(threads: Seq<Seq<char>>)
    ensures
        readable_threads(threads).len() <= threads.len(),
        forall|i: int|
            0 <= i < readable_threads(threads).len() ==> cursor::storable(
                Some(#[trigger] readable_threads(threads)[i]),
            ),
        (forall|i: int| 0 <= i < threads.len() ==> cursor::storable(Some(#[trigger] threads[i])))
            ==> readable_threads(threads) == threads,
    decreases threads.len(),
{
    if threads.len() > 0 {
        let shorter = threads.drop_last();
        let before = readable_threads(shorter);
        let all = readable_threads(threads);
        readable_threads_can_be_stored(shorter);
        assert forall|i: int| 0 <= i < all.len() implies cursor::storable(
            Some(#[trigger] all[i]),
        ) by {
            if i < before.len() {
                assert(all[i] == before[i]);
            }
        }
        if forall|i: int| 0 <= i < threads.len() ==> cursor::storable(Some(#[trigger] threads[i])) {
            assert forall|i: int| 0 <= i < shorter.len() implies cursor::storable(
                Some(#[trigger] shorter[i]),
            ) by {
                assert(shorter[i] == threads[i]);
            }
            assert(cursor::storable(Some(threads[threads.len() - 1])));
            assert(shorter.push(threads.last()) == threads);
        }
    }
}

/// Reading a thread takes nothing out of a queue of readable threads but its own copies at the
/// end: what is still owed is how the queue starts, does not end with that thread, and all that is
/// cut off is that thread.
pub proof fn only_copies_at_the_end_are_settled(threads: Seq<Seq<char>>, just_read: Seq<char>)
    ensures
        ({
            let readable = readable_threads(threads);
            let owed = still_owed(threads, just_read);
            &&& owed.is_prefix_of(readable)
            &&& owed.len() > 0 ==> owed.last() != just_read
            &&& forall|i: int|
                owed.len() <= i < readable.len() ==> #[trigger] readable[i] == just_read
            &&& forall|i: int|
                0 <= i < owed.len() ==> cursor::storable(Some(#[trigger] owed[i]))
        }),
{
    let readable = readable_threads(threads);
    readable_threads_can_be_stored(threads);
    cut_at_the_end(readable, just_read);
    let owed = still_owed(threads, just_read);
    assert forall|i: int| 0 <= i < owed.len() implies cursor::storable(
        Some(#[trigger] owed[i]),
    ) by {
        assert(owed[i] == readable[i]);
    }
}

proof fn cut_at_the_end(threads: Seq<Seq<char>>, thread: Seq<char>)
    ensures
        ({
            let kept = not_ending_with(threads, thread);
            &&& kept.is_prefix_of(threads)
            &&& kept.len() > 0 ==> kept.last() != thread
            &&& forall|i: int| kept.len() <= i < threads.len() ==> #[trigger] threads[i] == thread
        }),
    decreases threads.len(),
{
    if threads.len() > 0 && threads.last() == thread {
        let shorter = threads.drop_last();
        let kept = not_ending_with(threads, thread);
        cut_at_the_end(shorter, thread);
        assert(kept == threads.take(kept.len() as int));
        assert forall|i: int| kept.len() <= i < threads.len() implies #[trigger] threads[i]
            == thread by {
            if i < shorter.len() {
                assert(shorter[i] == threads[i]);
            }
        }
    }
}

/// The threads under a page of history can be stored.
pub proof fn owed_are_storable(parents: Seq<Option<Seq<char>>>)
    ensures
        forall|i: int|
            0 <= i < owed(parents).len() ==> cursor::storable(Some(#[trigger] owed(parents)[i])),
    decreases parents.len(),
{
    if parents.len() > 0 {
        let rest = owed(parents.skip(1));
        let all = owed(parents);
        owed_are_storable(parents.skip(1));
        assert forall|i: int| 0 <= i < all.len() implies cursor::storable(
            Some(#[trigger] all[i]),
        ) by {
            if all.len() == rest.len() {
                assert(all[i] == rest[i]);
            } else if i > 0 {
                assert(all[i] == rest[i - 1]);
            }
        }
    }
}

/// Once a thread is read to its end, the next one owed is read, and the others wait behind it.
/// The thread just read is not the one that is read next.
pub proof fn next_thread_is_first_owed(
    walk: WalkView,
    position: Position,
    channel: Seq<char>,
    parent: Seq<char>,
    depth_days: Option<u32>,
)
    requires
        still_owed(walk.threads, parent).len() > 0,
    ensures
        ({
            let (after, next) = thread_taken(walk, position, channel, parent, depth_days, None);
            let waiting = queue(still_owed(walk.threads, parent));
            &&& next == cursor::in_replies(position.index, position.history, waiting[0], None)
            &&& waiting == seq![waiting[0]] + queue(after.threads)
            &&& next.thread != Some(parent)
        }),
{
    let owed = still_owed(walk.threads, parent);
    only_copies_at_the_end_are_settled(walk.threads, parent);
    assert(owed[owed.len() - 1] == queue(owed)[0]);
    assert(queue(owed) == seq![queue(owed)[0]] + queue(owed.drop_last()));
}

/// A channel's mark moves only when the channel is exhausted: its history is at an end and it
/// owes no thread. Then, and only then, does the walk go to the next channel.
pub proof fn mark_moves_only_when_exhausted(
    walk: WalkView,
    index: usize,
    history: Option<Seq<char>>,
    channel: Seq<char>,
    depth_days: Option<u32>,
)
    requires
        index < usize::MAX,
    ensures
        ({
            let (after, next) = channel_left(walk, index, history, channel, depth_days);
            let exhausted = walk.threads.len() == 0 && history is None;
            &&& after.high_water != walk.high_water ==> exhausted
            &&& next.index != index <==> exhausted
            &&& exhausted ==> after == state::committed(walk, channel, depth_days) && next
                == cursor::in_channel((index + 1) as usize, None)
        }),
{
}

/// The newest message that the first page of a channel's history shows is what its mark becomes,
/// if that page exhausts the channel, and otherwise waits for the channel's end, as long as the
/// history can be followed.
pub proof fn first_page_sets_the_pending_mark(
    walk: WalkView,
    position: Position,
    channel: Seq<char>,
    depth_days: Option<u32>,
    messages: Seq<JsonView>,
    parents: Seq<Option<Seq<char>>>,
    more: Option<Seq<char>>,
)
    requires
        position.index < usize::MAX,
        position.history is None,
        newest_of(messages) is Some,
        !history_is_lost(more, position.history),
    ensures
        ({
            let (after, next) = history_taken(
                walk,
                position,
                channel,
                depth_days,
                messages,
                parents,
                more,
            );
            let newest = newest_of(messages)->0;
            if next.index == position.index {
                &&& after.pending == walk.pending.insert(channel, newest)
                &&& after.high_water == walk.high_water
            } else {
                after.high_water == walk.high_water.insert(
                    channel,
                    MarkView { ts: newest, depth_days },
                )
            }
        }),
{
}

/// Whatever is read further into a channel, of its history or of its threads, its pending mark
/// stays as it was until the channel ends, and is then its mark, as long as the history can be
/// followed.
pub proof fn pending_mark_waits_for_the_end(
    walk: WalkView,
    position: Position,
    channel: Seq<char>,
    parent: Seq<char>,
    depth_days: Option<u32>,
    messages: Seq<JsonView>,
    parents: Seq<Option<Seq<char>>>,
    more: Option<Seq<char>>,
)
    requires
        position.index < usize::MAX,
        walk.pending.contains_key(channel),
    ensures
        ({
            let (after, next) = thread_taken(walk, position, channel, parent, depth_days, more);
            if next.index == position.index {
                after.pending == walk.pending && after.high_water == walk.high_water
            } else {
                after.high_water == walk.high_water.insert(
                    channel,
                    MarkView { ts: walk.pending[channel], depth_days },
                )
            }
        }),
        position.history is Some && !history_is_lost(more, position.history) ==> ({
            let (after, next) = history_taken(
                walk,
                position,
                channel,
                depth_days,
                messages,
                parents,
                more,
            );
            if next.index == position.index {
                after.pending == walk.pending && after.high_water == walk.high_water
            } else {
                after.high_water == walk.high_water.insert(
                    channel,
                    MarkView { ts: walk.pending[channel], depth_days },
                )
            }
        }),
{
}

/// A channel whose history cannot be followed to its end keeps its mark: it does not move with the
/// page, nor with the threads that are still read under it. The walk goes to the next channel once
/// none is owed.
pub proof fn lost_history_moves_no_mark(
    walk: WalkView,
    position: Position,
    channel: Seq<char>,
    parent: Seq<char>,
    depth_days: Option<u32>,
    messages: Seq<JsonView>,
    parents: Seq<Option<Seq<char>>>,
    more: Option<Seq<char>>,
    replies: Option<Seq<char>>,
)
    requires
        history_is_lost(more, position.history),
    ensures
        ({
            let (after, next) = history_taken(
                walk,
                position,
                channel,
                depth_days,
                messages,
                parents,
                more,
            );
            &&& after.high_water == walk.high_water
            &&& !after.pending.contains_key(channel)
            &&& next.history is None
            &&& next.thread is None ==> next == cursor::in_channel(
                (position.index + 1) as usize,
                None,
            )
        }),
        !walk.pending.contains_key(channel) ==> ({
            let (after, _) = thread_taken(walk, position, channel, parent, depth_days, replies);
            after.high_water == walk.high_water && after.pending == walk.pending
        }),
{
}

/// A channel that could not be read keeps its mark, and so do all others.
pub proof fn skipped_channel_keeps_its_mark(walk: WalkView, position: Position)
    ensures
        channel_skipped(walk, position).0.high_water == walk.high_water,
        channel_skipped(walk, position).0.pending == walk.pending,
{
}

/// A page of replies moves the cursor, whatever Slack hands back and whatever is queued, to a
/// position that can be stored.
pub proof fn thread_page_moves_the_cursor(
    walk: WalkView,
    position: Position,
    channel: Seq<char>,
    parent: Seq<char>,
    depth_days: Option<u32>,
    more: Option<Seq<char>>,
)
    requires
        position.index < usize::MAX,
        position.thread == Some(parent),
        cursor::readable(position),
    ensures
        ({
            let (_, next) = thread_taken(walk, position, channel, parent, depth_days, more);
            next != position && cursor::readable(next)
        }),
{
    let owed = still_owed(walk.threads, parent);
    only_copies_at_the_end_are_settled(walk.threads, parent);
    if owed.len() > 0 {
        assert(owed[owed.len() - 1] == owed.last());
    }
}

/// A page of history moves the cursor, whatever Slack hands back and whatever is queued, to a
/// position that can be stored.
pub proof fn history_page_moves_the_cursor(
    walk: WalkView,
    position: Position,
    channel: Seq<char>,
    depth_days: Option<u32>,
    messages: Seq<JsonView>,
    parents: Seq<Option<Seq<char>>>,
    more: Option<Seq<char>>,
)
    requires
        position.index < usize::MAX,
        position.thread is None,
    ensures
        ({
            let (_, next) = history_taken(
                walk,
                position,
                channel,
                depth_days,
                messages,
                parents,
                more,
            );
            next != position && cursor::readable(next)
        }),
{
    let entered = channel_entered(walk, position.history, channel, messages);
    let earlier = readable_threads(entered.threads);
    let threads = earlier + owed(parents).reverse();
    readable_threads_can_be_stored(entered.threads);
    owed_are_storable(parents);
    if threads.len() > 0 {
        let last = threads.len() - 1;
        if owed(parents).len() > 0 {
            assert(threads[last] == owed(parents)[0]);
        } else {
            assert(threads[last] == earlier[last]);
        }
    }
}

/// A channel that is skipped moves the cursor.
pub proof fn skipping_moves_the_cursor(walk: WalkView, position: Position)
    requires
        position.index < usize::MAX,
    ensures
        channel_skipped(walk, position).1.index == position.index + 1,
{
}

/// The next roster page never starts where the one just read did, so a roster whose cursor does
/// not move ends the walk.
pub proof fn roster_moves_the_walk(
    walk: WalkView,
    payload: JsonView,
    cursor: Seq<char>,
    next: Option<Seq<char>>,
)
    ensures
        roster_taken(walk, payload, Some(cursor), next).channels_cursor != Some(cursor),
        next == Some(cursor) ==> roster_taken(walk, payload, Some(cursor), next).channels_cursor
            is None,
{
}

/// A roster page replaces the channels in hand and nothing that the walk knows of them.
pub proof fn roster_keeps_marks(
    walk: WalkView,
    payload: JsonView,
    cursor: Option<Seq<char>>,
    next: Option<Seq<char>>,
)
    ensures
        roster_taken(walk, payload, cursor, next).high_water == walk.high_water,
        roster_taken(walk, payload, cursor, next).pending == walk.pending,
        roster_taken(walk, payload, cursor, next).users == walk.users,
{
}

} // verus!
