//! One page read of a Slack walk, as a row of requests and replies.
//!
//! A read starts with [`SlackRead::begin`]. While [`SlackRead::request`] names an action to run,
//! the action is run and its reply handed to [`SlackRead::supply`]. When it names none, the page
//! is there, and the walk is to be saved if it changed.

use vstd::prelude::*;

use crate::clock;
use crate::pipeline::json;
use crate::pipeline::run::ProviderPage;
use crate::provider::{Error, SyncLimits};
use crate::text;
use crate::toolkits::slack::cursor;
use crate::toolkits::slack::cursor::{Cursor, Position};
use crate::toolkits::slack::state;
use crate::toolkits::slack::state::{Channel, ChannelView, WalkState, WalkView};
use crate::toolkits::slack::walk;
use crate::toolkits::slack::walk::{
    DirectoryView, HistoryReply, Outcome, SlackProvider, ThreadReply, UserDirectory,
};
use crate::value::{Json, JsonView};

verus! {

/// What a page read is waiting for.
#[derive(Debug)]
pub enum Stage {
    /// The first roster page, for a walk that starts.
    Roster,
    /// A page of the user directory.
    Users(UserDirectory),
    /// The roster page at a cursor.
    NextRoster(String),
    /// A page of the replies under a message of a channel.
    Thread(Channel, String),
    /// A page of a channel's history.
    History(Channel),
    /// Nothing: the page is read.
    Done(ProviderPage),
}

/// What a [`Stage`] says. Of a page that is read, it is where the walk resumes.
pub enum StageView {
    Roster,
    Users(DirectoryView),
    NextRoster(Seq<char>),
    Thread(ChannelView, Seq<char>),
    History(ChannelView),
    Done(Option<Seq<char>>),
}

impl View for Stage {
    type V = StageView;

    open spec fn view(&self) -> StageView {
        match self {
            Stage::Roster => StageView::Roster,
            Stage::Users(directory) => StageView::Users(directory@),
            Stage::NextRoster(cursor) => StageView::NextRoster(cursor@),
            Stage::Thread(channel, parent) => StageView::Thread(channel@, parent@),
            Stage::History(channel) => StageView::History(channel@),
            Stage::Done(page) => StageView::Done(text::string_view(page.next_cursor)),
        }
    }
}

/// A reply to the request of a page read.
#[derive(Debug)]
pub enum Reply {
    /// A page of the roster or of the user directory, and where its payload goes on.
    Listing { payload: Json, next: Option<String> },
    /// A page of replies.
    Thread(ThreadReply),
    /// A page of history.
    History(HistoryReply),
    /// The request failed. A fatal failure is one of the connection, not of what was read.
    Failed { error: Error, fatal: bool },
}

/// What of a [`Reply`] decides where the walk goes.
pub enum ReplyView {
    Listing { payload: JsonView, next: Option<Seq<char>> },
    Thread { more: Option<Seq<char>> },
    History {
        messages: Seq<JsonView>,
        parents: Seq<Option<Seq<char>>>,
        more: Option<Seq<char>>,
    },
    Failed { fatal: bool },
}

impl View for Reply {
    type V = ReplyView;

    open spec fn view(&self) -> ReplyView {
        match self {
            Reply::Listing { payload, next } => ReplyView::Listing {
                payload: payload@,
                next: text::string_view(*next),
            },
            Reply::Thread(reply) => ReplyView::Thread { more: text::string_view(reply.more) },
            Reply::History(reply) => ReplyView::History {
                messages: json::views(reply.messages@),
                parents: walk::optional_strings(reply.parents@),
                more: text::string_view(reply.more),
            },
            Reply::Failed { error: _, fatal } => ReplyView::Failed { fatal: *fatal },
        }
    }
}

/// One page read of a walk.
#[derive(Debug)]
pub struct SlackRead {
    /// The cursor that the read was given.
    pub given: Option<String>,
    /// What the walk remembers.
    pub walk: WalkState,
    /// Where the walk is.
    pub position: Cursor,
    /// The bounds of the run.
    pub limits: SyncLimits,
    /// What the read waits for.
    pub stage: Stage,
    /// Whether the walk moved and needs saving.
    pub changed: bool,
}

/// What of a [`SlackRead`] decides how it goes on.
#[verifier::ext_equal]
pub struct ReadView {
    pub given: Option<Seq<char>>,
    pub walk: WalkView,
    pub position: Position,
    pub limits: SyncLimits,
    pub stage: StageView,
    pub changed: bool,
}

impl View for SlackRead {
    type V = ReadView;

    open spec fn view(&self) -> ReadView {
        ReadView {
            given: text::string_view(self.given),
            walk: self.walk@,
            position: self.position@,
            limits: self.limits,
            stage: self.stage@,
            changed: self.changed,
        }
    }
}

/// What a walk at a position reads next: the thread or the channel that it is in, or the roster
/// page behind the one it has come to the end of, or nothing when that was the last.
pub open spec fn stage_at(walk: WalkView, position: Position) -> StageView {
    if position.index < walk.channels.len() {
        let channel = walk.channels[position.index as int];
        match position.thread {
            Some(parent) => StageView::Thread(channel, parent),
            None => StageView::History(channel),
        }
    } else {
        match walk.channels_cursor {
            Some(cursor) => StageView::NextRoster(cursor),
            None => StageView::Done(None),
        }
    }
}

/// The page read that starts at a cursor. A run with no cursor is a walk starting: it reads the
/// roster from the top.
pub open spec fn begun(cursor: Option<Seq<char>>, walk: WalkView, limits: SyncLimits) -> ReadView {
    let position = cursor::position_in(cursor);
    ReadView {
        given: cursor,
        walk,
        position,
        limits,
        stage: if cursor is None {
            StageView::Roster
        } else {
            stage_at(walk, position)
        },
        changed: false,
    }
}

/// `read` with the walk at `walk`, going on with what its position reads next.
pub open spec fn routed(read: ReadView, walk: WalkView) -> ReadView {
    ReadView { walk, stage: stage_at(walk, read.position), changed: true, ..read }
}

/// `read` at its end: the walk is at `walk`, and resumes at `next`.
pub open spec fn ended(read: ReadView, walk: WalkView, next: Position) -> ReadView {
    ReadView {
        walk,
        stage: StageView::Done(Some(cursor::position_text(next))),
        changed: true,
        ..read
    }
}

/// Whether a read was given a cursor that names the start of the first channel.
pub open spec fn resumes_at_start(read: ReadView) -> bool {
    read.given is Some && read.position == cursor::in_channel(0, None)
}

/// How a page read goes on once its request is answered at `now_ms`, or `None` when the answer
/// fails it. An answer of another kind than was asked for changes nothing.
pub open spec fn answered(read: ReadView, reply: ReplyView, now_ms: i64) -> Option<ReadView> {
    match (read.stage, reply) {
        (StageView::Roster, ReplyView::Listing { payload, next }) => {
            let walk = walk::roster_taken(read.walk, payload, None, next);
            if state::users_stale(walk, now_ms as int) {
                Some(
                    ReadView {
                        walk,
                        stage: StageView::Users(walk::directory_start(now_ms)),
                        changed: true,
                        ..read
                    },
                )
            } else {
                Some(routed(read, walk))
            }
        },
        (StageView::Users(directory), ReplyView::Listing { payload, next }) => {
            let directory = walk::directory_taken(directory, payload, next);
            if walk::directory_goes_on(directory) {
                Some(ReadView { stage: StageView::Users(directory), ..read })
            } else {
                Some(routed(read, walk::users_taken(read.walk, directory)))
            }
        },
        (StageView::Users(directory), ReplyView::Failed { .. }) => Some(
            routed(read, walk::users_taken(read.walk, directory)),
        ),
        (StageView::NextRoster(cursor), ReplyView::Listing { payload, next }) => {
            let walk = walk::roster_taken(read.walk, payload, Some(cursor), next);
            match walk::roster_left(walk, resumes_at_start(read)) {
                Some(position) => Some(ended(read, walk, position)),
                None => Some(routed(read, walk)),
            }
        },
        (StageView::Thread(channel, parent), ReplyView::Thread { more }) => {
            let (walk, next) = walk::thread_taken(
                read.walk,
                read.position,
                channel.id,
                parent,
                read.limits.depth_days,
                more,
            );
            Some(ended(read, walk, next))
        },
        (StageView::Thread(channel, parent), ReplyView::Failed { fatal: false }) => {
            let (walk, next) = walk::thread_taken(
                read.walk,
                read.position,
                channel.id,
                parent,
                read.limits.depth_days,
                None,
            );
            Some(ended(read, walk, next))
        },
        (StageView::History(channel), ReplyView::History { messages, parents, more }) => {
            let (walk, next) = walk::history_taken(
                read.walk,
                read.position,
                channel.id,
                read.limits.depth_days,
                messages,
                parents,
                more,
            );
            Some(ended(read, walk, next))
        },
        (StageView::History(_), ReplyView::Failed { fatal: false }) => {
            let (walk, next) = walk::channel_skipped(read.walk, read.position);
            Some(ended(read, walk, next))
        },
        (_, ReplyView::Failed { .. }) if read.stage !is Done => None,
        _ => Some(read),
    }
}

/// What a page read asks for at the second `now`: an action and its arguments, or nothing when
/// the page is read.
pub open spec fn asked(read: ReadView, now: int) -> Option<
    (Seq<char>, Map<Seq<char>, JsonView>),
> {
    match read.stage {
        StageView::Roster => Some((walk::ACTION_CONVERSATIONS@, walk::roster_request(None))),
        StageView::Users(directory) => Some(
            (walk::ACTION_USERS@, walk::users_request(directory.cursor)),
        ),
        StageView::NextRoster(cursor) => Some(
            (walk::ACTION_CONVERSATIONS@, walk::roster_request(Some(cursor))),
        ),
        StageView::Thread(channel, parent) => Some(
            (
                walk::ACTION_THREAD@,
                walk::thread_request(channel.id, parent, read.position.reply_page),
            ),
        ),
        StageView::History(channel) => Some(
            (
                walk::ACTION_HISTORY@,
                walk::history_request(
                    read.walk,
                    read.position.history,
                    channel.id,
                    read.limits,
                    now,
                ),
            ),
        ),
        StageView::Done(_) => None,
    }
}

/// Whether a page that resumes at `next` moves the cursor of its read or reports that the walk is
/// over: it does not name the position that the read was given.
pub open spec fn moves_on(read: ReadView, next: Option<Seq<char>>) -> bool {
    read.given is Some && next is Some ==> cursor::position_in(next) != read.position
}

/// What a read can count on. Its position is the one that its cursor names. A thread or a channel
/// that is read is one of the roster page in hand, and the next roster page is the one behind it.
/// A roster from the top and a directory belong to a walk that starts, and a directory that is
/// read has not come to its bound. A page that is read moves the cursor, or reports that the walk
/// is over.
pub open spec fn consistent(read: ReadView) -> bool {
    &&& read.position == cursor::position_in(read.given)
    &&& read.walk.channels.len() <= usize::MAX
    &&& match read.stage {
        StageView::Roster => read.given is None,
        StageView::Users(directory) => read.given is None && directory.pages
            < walk::USER_PAGES_MAX && read.changed,
        StageView::NextRoster(cursor) => read.position.index >= read.walk.channels.len()
            && read.walk.channels_cursor == Some(cursor),
        StageView::Thread(channel, parent) => read.position.index < read.walk.channels.len()
            && channel == read.walk.channels[read.position.index as int] && read.position.thread
            == Some(parent),
        StageView::History(channel) => read.position.index < read.walk.channels.len() && channel
            == read.walk.channels[read.position.index as int] && read.position.thread is None,
        StageView::Done(next) => moves_on(read, next),
    }
}

/// The page that a reply gives, where it ends the read.
pub open spec fn page_given(page: ProviderPage, reply: Reply) -> bool {
    match reply {
        Reply::Thread(reply) => page.records == reply.records && page.versions == reply.versions
            && page.requests_used == 0,
        Reply::History(reply) => page.records == reply.records && page.versions == reply.versions
            && page.requests_used == 0,
        _ => page.is_bare(),
    }
}

/// Whether a read that comes from `before` to `after` by a reply has, where it is over, the page
/// that the reply gives. One that was over keeps its page.
pub open spec fn ends_with(before: Stage, reply: Reply, after: Stage) -> bool {
    if before is Done {
        after == before
    } else {
        after matches Stage::Done(page) ==> page_given(page, reply)
    }
}

impl SlackRead {
    /// What a walk at a position reads next.
    fn stage_for(walk: &WalkState, position: &Cursor) -> (stage: Stage)
        ensures
            stage@ == stage_at(walk@, position@),
            stage matches Stage::Done(page) ==> page.is_bare(),
    {
        match walk.channel_at(position.index) {
            None => match &walk.channels_cursor {
                Some(next) => Stage::NextRoster(next.clone()),
                None => Stage::Done(walk::empty_page(None)),
            },
            Some(channel) => {
                let channel = channel.clone();
                match &position.thread {
                    Some(parent) => Stage::Thread(channel, parent.clone()),
                    None => Stage::History(channel),
                }
            },
        }
    }

    /// Start the page read at a cursor that the pipeline handed back.
    ///
    /// A run with no cursor is a walk starting: re-read the roster from the top, and refresh the
    /// directory it renders names with.
    pub fn begin(cursor: Option<&str>, walk: WalkState, limits: SyncLimits) -> (read: SlackRead)
        ensures
            read@ == begun(text::slice_view(cursor), walk@, limits),
            consistent(read@),
            read.stage matches Stage::Done(page) ==> page.is_bare(),
    {
        let position = Cursor::decode(cursor);
        let given = match cursor {
            Some(cursor) => Some(cursor.to_owned()),
            None => None,
        };
        assert(walk.channels.len() <= usize::MAX);
        let stage = if cursor.is_none() {
            Stage::Roster
        } else {
            Self::stage_for(&walk, &position)
        };
        SlackRead { given, walk, position, limits, stage, changed: false }
    }

    /// The action to run and its arguments, at the second `now`, or `None` when the page is read.
    pub fn request_at(&self, now: i64) -> (request: Option<(&'static str, Json)>)
        requires
            clock::shown(now as int),
        ensures
            match request {
                Some((action, arguments)) => asked(self@, now as int) is Some && asked(
                    self@,
                    now as int,
                )->0 == (action@, arguments@->Object_0) && arguments@ is Object,
                None => asked(self@, now as int) is None,
            },
    {
        match &self.stage {
            Stage::Roster => Some(
                (walk::ACTION_CONVERSATIONS, SlackProvider.channel_page_arguments(None)),
            ),
            Stage::Users(directory) => Some((walk::ACTION_USERS, directory.arguments())),
            Stage::NextRoster(cursor) => Some(
                (
                    walk::ACTION_CONVERSATIONS,
                    SlackProvider.channel_page_arguments(Some(cursor.as_str())),
                ),
            ),
            Stage::Thread(channel, parent) => Some(
                (
                    walk::ACTION_THREAD,
                    SlackProvider.thread_arguments(&self.position, channel, parent.as_str()),
                ),
            ),
            Stage::History(channel) => Some(
                (
                    walk::ACTION_HISTORY,
                    SlackProvider.history_arguments_at(
                        &self.walk,
                        &self.position,
                        channel,
                        &self.limits,
                        now,
                    ),
                ),
            ),
            Stage::Done(_) => None,
        }
    }

    /// The action to run and its arguments, or `None` when the page is read.
    pub fn request(&self) -> (request: Option<(&'static str, Json)>)
        ensures
            exists|now: int| #[trigger]
                clock::shown(now) && match request {
                    Some((action, arguments)) => asked(self@, now) is Some && asked(
                        self@,
                        now,
                    )->0 == (action@, arguments@->Object_0) && arguments@ is Object,
                    None => asked(self@, now) is None,
                },
    {
        let now: i64 = clock::now_millis() / 1000;
        let request = self.request_at(now);
        assert(clock::shown(now as int));
        request
    }

    /// The message that the records of the reply leave out: the parent of a thread, if one is
    /// being read.
    ///
    /// The parent is repeated as the first reply. It was ingested with the history page that found
    /// it, and the run loop would skip it anyway; leaving it out saves the round trip through the
    /// seen-set.
    pub fn left_out(&self) -> (parent: Option<&str>)
        ensures
            text::slice_view(parent) == match self@.stage {
                StageView::Thread(_, parent) => Some(parent),
                _ => None,
            },
    {
        match &self.stage {
            Stage::Thread(_, parent) => Some(parent.as_str()),
            _ => None,
        }
    }

    /// Take the reply to the request, at `now_ms`.
    ///
    /// A failure of the roster fails the read, and so does a fatal failure of a thread or of a
    /// channel. Any other failure costs what was to be read and nothing more.
    pub fn supply_at(self, reply: Reply, now_ms: i64) -> (result: Result<SlackRead, Error>)
        requires
            consistent(self@),
        ensures
            match result {
                Ok(read) => answered(self@, reply@, now_ms) == Some(read@) && consistent(read@)
                    && ends_with(self.stage, reply, read.stage),
                Err(error) => answered(self@, reply@, now_ms) is None && (reply matches
                    Reply::Failed { error: given, .. } && error == given),
            },
    {
        proof {
            if self.stage !is Done {
                answered_page_moves(self@, reply@, now_ms);
            }
        }
        let SlackRead { given, walk, position, limits, stage, changed } = self;
        let mut walk = walk;
        match (stage, reply) {
            (Stage::Roster, Reply::Listing { payload, next }) => {
                SlackProvider.load_channel_page(&mut walk, &payload, None, next);
                assert(walk.channels.len() <= usize::MAX);
                match SlackProvider.refresh_users(&walk, now_ms) {
                    Some(directory) => {
                        let stage = Stage::Users(directory);
                        Ok(SlackRead { given, walk, position, limits, stage, changed: true })
                    },
                    None => {
                        let stage = Self::stage_for(&walk, &position);
                        Ok(SlackRead { given, walk, position, limits, stage, changed: true })
                    },
                }
            },
            (Stage::Users(directory), Reply::Listing { payload, next }) => {
                let mut directory = directory;
                if directory.take_page(&payload, next) {
                    let stage = Stage::Users(directory);
                    Ok(SlackRead { given, walk, position, limits, stage, changed })
                } else {
                    let _ = directory.finish(&mut walk);
                    let stage = Self::stage_for(&walk, &position);
                    Ok(SlackRead { given, walk, position, limits, stage, changed: true })
                }
            },
            (Stage::Users(directory), Reply::Failed { .. }) => {
                let _ = directory.finish(&mut walk);
                let stage = Self::stage_for(&walk, &position);
                Ok(SlackRead { given, walk, position, limits, stage, changed: true })
            },
            (Stage::NextRoster(cursor), Reply::Listing { payload, next }) => {
                let at_start = given.is_some() && position.index == 0 && position.history.is_none()
                    && position.thread.is_none() && position.reply_page.is_none();
                let stage = match SlackProvider.advance_roster(
                    &mut walk,
                    at_start,
                    &payload,
                    cursor.as_str(),
                    next,
                ) {
                    Some(read) => Stage::Done(read.page),
                    None => Self::stage_for(&walk, &position),
                };
                assert(walk.channels.len() <= usize::MAX);
                Ok(SlackRead { given, walk, position, limits, stage, changed: true })
            },
            (Stage::Thread(channel, parent), Reply::Thread(reply)) => {
                let outcome = Outcome::Reply(reply);
                let days = limits.depth_days;
                match SlackProvider.read_thread(
                    &mut walk,
                    &position,
                    &channel,
                    parent.as_str(),
                    days,
                    outcome,
                ) {
                    Ok(read) => {
                        let stage = Stage::Done(read.page);
                        Ok(SlackRead { given, walk, position, limits, stage, changed: true })
                    },
                    Err(error) => Err(error),
                }
            },
            (Stage::Thread(channel, parent), Reply::Failed { error, fatal }) => {
                let outcome = Outcome::Failed { error, fatal };
                let days = limits.depth_days;
                match SlackProvider.read_thread(
                    &mut walk,
                    &position,
                    &channel,
                    parent.as_str(),
                    days,
                    outcome,
                ) {
                    Ok(read) => {
                        let stage = Stage::Done(read.page);
                        Ok(SlackRead { given, walk, position, limits, stage, changed: true })
                    },
                    Err(error) => Err(error),
                }
            },
            (Stage::History(channel), Reply::History(reply)) => {
                let outcome = Outcome::Reply(reply);
                let days = limits.depth_days;
                match SlackProvider.read_history(&mut walk, &position, &channel, days, outcome) {
                    Ok(read) => {
                        let stage = Stage::Done(read.page);
                        Ok(SlackRead { given, walk, position, limits, stage, changed: true })
                    },
                    Err(error) => Err(error),
                }
            },
            (Stage::History(channel), Reply::Failed { error, fatal }) => {
                let outcome = Outcome::Failed { error, fatal };
                let days = limits.depth_days;
                match SlackProvider.read_history(&mut walk, &position, &channel, days, outcome) {
                    Ok(read) => {
                        let stage = Stage::Done(read.page);
                        Ok(SlackRead { given, walk, position, limits, stage, changed: true })
                    },
                    Err(error) => Err(error),
                }
            },
            (Stage::Roster, Reply::Failed { error, .. }) => Err(error),
            (Stage::NextRoster(_), Reply::Failed { error, .. }) => Err(error),
            (stage, _) => Ok(SlackRead { given, walk, position, limits, stage, changed }),
        }
    }

    /// Take the reply to the request.
    pub fn supply(self, reply: Reply) -> (result: Result<SlackRead, Error>)
        requires
            consistent(self@),
        ensures
            exists|now_ms: i64| #[trigger]
                clock::shown_millis(now_ms as int) && match result {
                    Ok(read) => answered(self@, reply@, now_ms) == Some(read@) && consistent(read@)
                        && ends_with(self.stage, reply, read.stage),
                    Err(error) => answered(self@, reply@, now_ms) is None && (reply matches
                        Reply::Failed { error: given, .. } && error == given),
                },
    {
        let now_ms = clock::now_millis();
        self.supply_at(reply, now_ms)
    }
}

// ---- laws ----

/// Whether a reply is of the kind that a stage waits for.
pub open spec fn fits(stage: StageView, reply: ReplyView) -> bool {
    match stage {
        StageView::Roster | StageView::Users(_) | StageView::NextRoster(_) => reply is Listing
            || reply is Failed,
        StageView::Thread(_, _) => reply is Thread || reply is Failed,
        StageView::History(_) => reply is History || reply is Failed,
        StageView::Done(_) => false,
    }
}

/// The most requests that a page read still makes.
pub open spec fn requests_left(read: ReadView) -> int {
    match read.stage {
        StageView::Roster => walk::USER_PAGES_MAX + 2,
        StageView::Users(directory) => walk::USER_PAGES_MAX - directory.pages + 1,
        StageView::NextRoster(_) => if resumes_at_start(read) {
            2
        } else {
            1
        },
        StageView::Thread(_, _) | StageView::History(_) => 1,
        StageView::Done(_) => 0,
    }
}

/// A page read comes to an end: each answer leaves it fewer requests to make, a walk that starts
/// makes no more than the roster's, the directory's and one, and one that resumes makes one, or
/// two where the roster page in hand has no channel.
pub proof fn read_comes_to_an_end(read: ReadView, reply: ReplyView, now_ms: i64)
    requires
        consistent(read),
        fits(read.stage, reply),
    ensures
        answered(read, reply, now_ms) matches Some(after) ==> 0 <= requests_left(after)
            < requests_left(read),
{
}

/// A walk that resumes at a cursor makes one request, or none when it is over, and makes a second
/// only where the roster page in hand has no channel.
pub proof fn resumed_read_makes_one_request(cursor: Seq<char>, walk: WalkView, limits: SyncLimits)
    ensures
        requests_left(begun(Some(cursor), walk, limits)) <= 2,
        walk.channels.len() > 0 ==> requests_left(begun(Some(cursor), walk, limits)) <= 1,
{
}

/// Every page either moves the walk on or reports that it is over: where the walk resumes after
/// it, and what the walk remembers, are not both as they were.
pub proof fn page_moves_the_walk(read: ReadView, reply: ReplyView, now_ms: i64)
    requires
        consistent(read),
        read.stage is NextRoster || read.stage is Thread || read.stage is History,
        fits(read.stage, reply),
    ensures
        answered(read, reply, now_ms) matches Some(after) ==> (after.stage matches StageView::Done(
            next,
        ) ==> next is None || (cursor::position_in(next), after.walk) != (
            read.position,
            read.walk,
        )),
{
    answered_page_moves(read, reply, now_ms);
    if let (StageView::NextRoster(cursor), ReplyView::Listing { payload, next }) = (
        read.stage,
        reply,
    ) {
        walk::roster_moves_the_walk(read.walk, payload, cursor, next);
    }
}

/// Every page of a read that was given a cursor moves the cursor or reports that the walk is over.
/// None reports the cursor it was given, nor another one that names the same position, so none
/// would be asked for again.
pub proof fn page_moves_the_cursor(
    cursor: Seq<char>,
    read: ReadView,
    reply: ReplyView,
    now_ms: i64,
)
    requires
        consistent(read),
        read.given == Some(cursor),
        read.stage !is Done,
    ensures
        answered(read, reply, now_ms) matches Some(after) ==> (after.stage matches StageView::Done(
            Some(next),
        ) ==> next != cursor && cursor::position_in(Some(next)) != cursor::position_in(
            Some(cursor),
        )),
{
    answered_page_moves(read, reply, now_ms);
}

/// A page that a reply gives moves the cursor. A walk that starts moves from its position too,
/// except by a roster page, which sends it to its start.
proof fn answered_page_moves(read: ReadView, reply: ReplyView, now_ms: i64)
    requires
        consistent(read),
        read.stage !is Done,
    ensures
        answered(read, reply, now_ms) matches Some(after) ==> (after.stage matches StageView::Done(
            next,
        ) ==> moves_on(read, next) && (read.stage is Thread || read.stage is History ==> next
            is Some && cursor::position_in(next) != read.position)),
{
    let position = read.position;
    let days = read.limits.depth_days;
    cursor::named_position_is_readable(read.given);
    match (read.stage, reply) {
        (StageView::NextRoster(_), ReplyView::Listing { .. }) => {
            cursor::cursor_reads_back(cursor::in_channel(0, None));
            cursor::cursor_reads_back(cursor::in_channel(1, None));
        },
        (StageView::Thread(channel, parent), ReplyView::Thread { more }) => {
            walk::thread_page_moves_the_cursor(
                read.walk,
                position,
                channel.id,
                parent,
                days,
                more,
            );
            let (_, next) = walk::thread_taken(
                read.walk,
                position,
                channel.id,
                parent,
                days,
                more,
            );
            cursor::cursor_reads_back(next);
        },
        (StageView::Thread(channel, parent), ReplyView::Failed { .. }) => {
            walk::thread_page_moves_the_cursor(
                read.walk,
                position,
                channel.id,
                parent,
                days,
                None,
            );
            let (_, next) = walk::thread_taken(
                read.walk,
                position,
                channel.id,
                parent,
                days,
                None,
            );
            cursor::cursor_reads_back(next);
        },
        (StageView::History(channel), ReplyView::History { messages, parents, more }) => {
            walk::history_page_moves_the_cursor(
                read.walk,
                position,
                channel.id,
                days,
                messages,
                parents,
                more,
            );
            let (_, next) = walk::history_taken(
                read.walk,
                position,
                channel.id,
                days,
                messages,
                parents,
                more,
            );
            cursor::cursor_reads_back(next);
        },
        (StageView::History(_), ReplyView::Failed { .. }) => {
            let (_, next) = walk::channel_skipped(read.walk, position);
            cursor::cursor_reads_back(next);
        },
        _ => {},
    }
}

/// A walk whose roster has no page behind the one it has come to the end of is over, and nothing
/// of it changes.
pub proof fn walk_ends_after_the_last_channel(
    cursor: Seq<char>,
    walk: WalkView,
    limits: SyncLimits,
)
    requires
        cursor::position_in(Some(cursor)).index >= walk.channels.len(),
        walk.channels_cursor is None,
    ensures
        begun(Some(cursor), walk, limits).stage == StageView::Done(None),
        !begun(Some(cursor), walk, limits).changed,
        begun(Some(cursor), walk, limits).walk == walk,
{
}

} // verus!
