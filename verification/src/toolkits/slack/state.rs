//! What a Slack walk remembers between pages and between runs.

use vstd::prelude::*;

use crate::clock;
use crate::provider::Error;
use crate::text;
use crate::textmap::TextMap;

verus! {

/// How long a cached user directory is trusted, in milliseconds.
///
/// A day. Display names change rarely, and the cost of a stale one is a name that reads slightly
/// wrong in a message body, far below the cost of another directory fetch at the head of every
/// walk.
pub const USERS_TTL_MS: i64 = 24 * 60 * 60 * 1000;

/// One conversation the walk knows about.
#[derive(Debug, PartialEq, Eq)]
pub struct Channel {
    /// Slack channel id, e.g. `C0123ABCD`.
    pub id: String,
    /// Channel name without the leading `#`.
    pub name: String,
}

/// What a [`Channel`] says.
pub struct ChannelView {
    pub id: Seq<char>,
    pub name: Seq<char>,
}

impl View for Channel {
    type V = ChannelView;

    open spec fn view(&self) -> ChannelView {
        ChannelView { id: self.id@, name: self.name@ }
    }
}

impl Clone for Channel {
    /// A copy of this channel.
    fn clone(&self) -> (channel: Channel)
        ensures
            channel == *self,
    {
        Channel { id: self.id.clone(), name: self.name.clone() }
    }
}

/// How far a channel has been read, and under what window.
///
/// The window matters as much as the position. A mark collected under a fourteen-day bound says
/// nothing about the ninety-first day, so a later run asking for more must be allowed past it;
/// otherwise widening the setting silently returns nothing older and says so nowhere.
#[derive(Debug)]
pub struct Mark {
    /// Newest message id read to completion, as a Slack `ts`.
    pub ts: String,
    /// Days the run that set it was bounded to; `None` was unbounded.
    pub depth_days: Option<u32>,
}

/// What a [`Mark`] says.
pub struct MarkView {
    pub ts: Seq<char>,
    pub depth_days: Option<u32>,
}

impl View for Mark {
    type V = MarkView;

    open spec fn view(&self) -> MarkView {
        MarkView { ts: self.ts@, depth_days: self.depth_days }
    }
}

/// Whether a run bounded to `collected` read all that a run bounded to `requested` asks for.
pub open spec fn window_covers(collected: Option<u32>, requested: Option<u32>) -> bool {
    collected is None || (requested is Some && requested->0 <= collected->0)
}

impl Mark {
    /// Whether this mark already covers a run bounded to `requested`.
    ///
    /// An unbounded mark covers everything. An unbounded *request* is wider than any bounded
    /// mark, so nothing bounded covers it.
    pub fn covers(&self, requested: Option<u32>) -> (covers: bool)
        ensures
            covers == window_covers(self.depth_days, requested),
    {
        match (self.depth_days, requested) {
            (None, _) => true,
            (Some(_), None) => false,
            (Some(collected), Some(requested)) => requested <= collected,
        }
    }
}

/// What the walk remembers between pages and between runs.
#[derive(Debug)]
pub struct WalkState {
    /// The roster page being walked.
    pub channels: Vec<Channel>,
    /// Where the next roster page starts, when there is one.
    pub channels_cursor: Option<String>,
    /// Messages in the channel being read whose replies are still owed.
    pub threads: Vec<String>,
    /// Newest message fully read per channel, `channel id → mark`.
    pub high_water: TextMap<Mark>,
    /// Newest message id *seen* per channel, promoted once the channel ends.
    pub pending: TextMap<String>,
    /// `user id → display name`, for resolving mentions and authors.
    pub users: TextMap<String>,
    /// When the directory was read, in milliseconds since the Unix epoch.
    pub users_fetched_ms: i64,
}

/// What a [`WalkState`] says.
#[verifier::ext_equal]
pub struct WalkView {
    pub channels: Seq<ChannelView>,
    pub channels_cursor: Option<Seq<char>>,
    pub threads: Seq<Seq<char>>,
    pub high_water: Map<Seq<char>, MarkView>,
    pub pending: Map<Seq<char>, Seq<char>>,
    pub users: Map<Seq<char>, Seq<char>>,
    pub users_fetched_ms: i64,
}

/// What each of a list of channels says.
pub open spec fn channel_views(channels: Seq<Channel>) -> Seq<ChannelView> {
    Seq::new(channels.len(), |i: int| channels[i]@)
}

impl View for WalkState {
    type V = WalkView;

    open spec fn view(&self) -> WalkView {
        WalkView {
            channels: channel_views(self.channels@),
            channels_cursor: text::string_view(self.channels_cursor),
            threads: text::strings(self.threads@),
            high_water: self.high_water@,
            pending: self.pending@,
            users: self.users@,
            users_fetched_ms: self.users_fetched_ms,
        }
    }
}

/// The walk that remembers nothing.
pub open spec fn empty_walk() -> WalkView {
    WalkView {
        channels: Seq::empty(),
        channels_cursor: None,
        threads: Seq::empty(),
        high_water: Map::empty(),
        pending: Map::empty(),
        users: Map::empty(),
        users_fetched_ms: 0,
    }
}

impl Default for WalkState {
    /// The walk that remembers nothing.
    fn default() -> (walk: WalkState)
        ensures
            walk@ == empty_walk(),
    {
        let walk = WalkState {
            channels: Vec::new(),
            channels_cursor: None,
            threads: Vec::new(),
            high_water: TextMap::new(),
            pending: TextMap::new(),
            users: TextMap::new(),
            users_fetched_ms: 0,
        };
        assert(walk@ =~= empty_walk());
        walk
    }
}

/// The text of the second `days` days before `now`, as a Slack `ts`.
pub open spec fn depth_ts(now: int, days: u32) -> Seq<char> {
    text::signed_decimal(now - days * 86400) + ".000000"@
}

/// The whole seconds that a Slack `ts` names, or `None` when it names no time.
pub open spec fn ts_seconds(ts: Seq<char>) -> Option<int> {
    let whole = ts.take(text::field_end(ts, '.'));
    if whole.len() > 0 && whole[0] == '-' {
        match text::parsed(whole.skip(1), i64::MAX as nat) {
            Some(n) if whole[1] != '+' => Some(-n),
            _ => None,
        }
    } else {
        match text::parsed(whole, i64::MAX as nat) {
            Some(n) => Some(n as int),
            None => None,
        }
    }
}

/// Whether a Slack `ts` names a time in the second `bound` or after it.
pub open spec fn not_before(ts: Seq<char>, bound: int) -> bool {
    ts_seconds(ts) matches Some(secs) && secs >= bound
}

/// The later of a mark and the start of a run's window at the second `now`. A mark that names no
/// time gives way to the window.
pub open spec fn mark_within(ts: Seq<char>, depth_days: Option<u32>, now: int) -> Seq<char> {
    match depth_days {
        Some(days) if !not_before(ts, now - days * 86400) => depth_ts(now, days),
        _ => ts,
    }
}

/// Where to start reading `channel` at the second `now`: at the later of its mark and the start of
/// the run's window, where the mark covers that window, or else at the start of the window.
pub open spec fn oldest(
    walk: WalkView,
    channel: Seq<char>,
    depth_days: Option<u32>,
    now: int,
) -> Option<Seq<char>> {
    if walk.high_water.contains_key(channel) && window_covers(
        walk.high_water[channel].depth_days,
        depth_days,
    ) {
        Some(mark_within(walk.high_water[channel].ts, depth_days, now))
    } else {
        match depth_days {
            Some(days) => Some(depth_ts(now, days)),
            None => None,
        }
    }
}

/// The whole seconds that a Slack `ts` names, or `None` when it names no time.
fn seconds_of(ts: &str) -> (secs: Option<i64>)
    ensures
        match secs {
            Some(secs) => ts_seconds(ts@) == Some(secs as int),
            None => ts_seconds(ts@) is None,
        },
{
    proof {
        text::field_end_is_first(ts@, '.');
    }
    let whole = match text::split_once(ts, '.') {
        Some((whole, _)) => whole,
        None => {
            assert(ts@.take(ts@.len() as int) == ts@);
            ts.to_owned()
        },
    };
    assert(whole@ == ts@.take(text::field_end(ts@, '.')));
    let chars = text::chars_of(whole.as_str());
    if chars.len() > 0 && chars[0] == '-' {
        let rest = text::text_between(&chars, 1, chars.len());
        assert(rest@ == whole@.skip(1));
        if chars.len() > 1 && chars[1] == '+' {
            return None;
        }
        match text::parse_number(rest.as_str(), i64::MAX as u64) {
            Some(n) => Some(-(n as i64)),
            None => None,
        }
    } else {
        match text::parse_number(whole.as_str(), i64::MAX as u64) {
            Some(n) => Some(n as i64),
            None => None,
        }
    }
}

/// The walk with the pending mark of `channel`, if it has one, made its mark.
pub open spec fn committed(
    walk: WalkView,
    channel: Seq<char>,
    depth_days: Option<u32>,
) -> WalkView {
    if walk.pending.contains_key(channel) {
        WalkView {
            pending: walk.pending.remove(channel),
            high_water: walk.high_water.insert(
                channel,
                MarkView { ts: walk.pending[channel], depth_days },
            ),
            ..walk
        }
    } else {
        walk
    }
}

/// The store key that holds the walk of a connection.
pub open spec fn walk_key(connection_id: Seq<char>) -> Seq<char> {
    "slack-walk:"@ + connection_id
}

impl WalkState {
    /// The store key holding one connection's walk.
    ///
    /// Deliberately unlike the key of the run loop's own state, which is
    /// `"<toolkit>:<connection>"`.
    pub fn key(connection_id: &str) -> (key: String)
        ensures
            key@ == walk_key(connection_id@),
    {
        let mut key = "slack-walk:".to_owned();
        key.append(connection_id);
        key
    }

    /// The walk that a read of the store gives, or an empty one. `found` is what was under the
    /// connection's key, if anything, as far as it could be decoded. A read that failed fails.
    ///
    /// A shape that no longer decodes restarts the walk instead of failing it, for the same
    /// reason a bad cursor does.
    pub fn load(found: Result<Option<Option<WalkState>>, Error>) -> (result: Result<
        WalkState,
        Error,
    >)
        ensures
            match found {
                Ok(Some(Some(stored))) => result == Ok::<WalkState, Error>(stored),
                Ok(_) => result is Ok && result->Ok_0@ == empty_walk(),
                Err(error) => result == Err::<WalkState, Error>(error),
            },
    {
        match found {
            Ok(Some(Some(stored))) => Ok(stored),
            Ok(_) => Ok(WalkState::default()),
            Err(error) => Err(error),
        }
    }

    /// The channel at `index` of the roster page in hand.
    pub fn channel_at(&self, index: usize) -> (channel: Option<&Channel>)
        ensures
            match channel {
                Some(channel) => index < self.channels@.len() && *channel
                    == self.channels@[index as int],
                None => index >= self.channels@.len(),
            },
    {
        if index < self.channels.len() {
            Some(&self.channels[index])
        } else {
            None
        }
    }

    /// Where to start reading `channel` at the second `now`, honouring the run's depth bound.
    pub fn oldest_for_at(&self, channel: &str, depth_days: Option<u32>, now: i64) -> (since: Option<
        String,
    >)
        requires
            clock::shown(now as int),
        ensures
            text::string_view(since) == oldest(self@, channel@, depth_days, now as int),
    {
        if let Some(mark) = self.high_water.get(channel) {
            if mark.covers(depth_days) {
                let stands = match depth_days {
                    Some(days) => match seconds_of(mark.ts.as_str()) {
                        Some(secs) => secs >= now - days as i64 * 86400,
                        None => false,
                    },
                    None => true,
                };
                if stands {
                    return Some(mark.ts.clone());
                }
            }
        }
        match depth_days {
            Some(days) => {
                let mut ts = text::signed_decimal_text(now - days as i64 * 86400);
                ts.append(".000000");
                Some(ts)
            },
            None => None,
        }
    }

    /// Where to start reading `channel`, honouring the run's depth bound.
    ///
    /// The high-water mark wins when there is one that covers the run, unless time has carried the
    /// bound past it: what is asked for is never older than the bound.
    pub fn oldest_for(&self, channel: &str, depth_days: Option<u32>) -> (since: Option<String>)
        ensures
            exists|now: int| #[trigger]
                clock::shown(now) && text::string_view(since) == oldest(
                    self@,
                    channel@,
                    depth_days,
                    now,
                ),
    {
        let now: i64 = clock::now_millis() / 1000;
        self.oldest_for_at(channel, depth_days, now)
    }

    /// Promote the pending mark for a channel that has just been exhausted.
    ///
    /// `depth_days` is the window the run read under, and is stored with the position: a later,
    /// wider run has to be able to tell that this mark does not speak for the ground it wants to
    /// cover.
    pub fn commit_high_water(&mut self, channel: &str, depth_days: Option<u32>)
        ensures
            final(self)@ == committed(old(self)@, channel@, depth_days),
    {
        if let Some(ts) = self.pending.remove(channel) {
            self.high_water.insert(channel.to_owned(), Mark { ts, depth_days });
        }
        assert(self@ =~= committed(old(self)@, channel@, depth_days));
    }

    /// Whether the user directory needs re-reading.
    pub fn users_are_stale(&self, now_ms: i64) -> (stale: bool)
        ensures
            stale == users_stale(self@, now_ms as int),
    {
        self.users.is_empty() || now_ms as i128 - self.users_fetched_ms as i128
            > USERS_TTL_MS as i128
    }
}

/// Whether a user directory that is missing, or older than a day, is to be read at `now_ms`.
pub open spec fn users_stale(walk: WalkView, now_ms: int) -> bool {
    walk.users == Map::<Seq<char>, Seq<char>>::empty() || now_ms - walk.users_fetched_ms
        > USERS_TTL_MS
}

// ---- laws ----

/// The walks of two connections are kept apart, and apart from what the run loop keeps of any
/// Slack connection.
pub proof fn walk_keys_differ(left: Seq<char>, right: Seq<char>)
    ensures
        walk_key(left) == walk_key(right) ==> left == right,
        walk_key(left) != "slack:"@ + right,
{
    reveal_strlit("slack-walk:");
    reveal_strlit("slack:");
    if walk_key(left) == walk_key(right) {
        assert(walk_key(left).skip(11) == left);
        assert(walk_key(right).skip(11) == right);
    }
    assert(walk_key(left)[5] == '-');
    assert(("slack:"@ + right)[5] == ':');
}

/// A mark covers its own window and every narrower one, and only an unbounded mark covers an
/// unbounded run.
pub proof fn marks_cover_narrower_windows(collected: Option<u32>, wider: Option<u32>, narrower: u32)
    ensures
        window_covers(collected, collected),
        window_covers(collected, None) == (collected is None),
        window_covers(collected, wider) && (wider is Some ==> narrower <= wider->0)
            ==> window_covers(collected, Some(narrower)),
{
}

/// Once a channel's pending mark is committed, a later run with no wider a window asks only for
/// what is newer than it and within its own window, and one with a wider window is let past it.
pub proof fn committed_mark_bounds_later_runs(
    walk: WalkView,
    channel: Seq<char>,
    depth_days: Option<u32>,
    later: Option<u32>,
    now: int,
)
    requires
        walk.pending.contains_key(channel),
    ensures
        oldest(committed(walk, channel, depth_days), channel, later, now) == if window_covers(
            depth_days,
            later,
        ) {
            Some(mark_within(walk.pending[channel], later, now))
        } else {
            match later {
                Some(days) => Some(depth_ts(now, days)),
                None => None,
            }
        },
{
}

/// The start of a window names the second that is that many days before now.
pub proof fn window_start_names_its_second(now: int, days: u32)
    requires
        clock::shown(now),
    ensures
        ts_seconds(depth_ts(now, days)) == Some(now - days * 86400),
{
    let n = now - days * 86400;
    let ts = depth_ts(now, days);
    let whole = text::signed_decimal(n);
    let size: nat = if n < 0 {
        (-n) as nat
    } else {
        n as nat
    };
    reveal_strlit(".000000");
    text::decimal_is_digits(size);
    text::decimal_parses(size, i64::MAX as nat);
    assert(text::is_digit(text::decimal(size)[0]));
    assert forall|i: int| 0 <= i < whole.len() implies whole[i] != '.' by {
        if n >= 0 {
            assert(text::is_digit(text::decimal(size)[i]));
        } else if i > 0 {
            assert(whole[i] == text::decimal(size)[i - 1]);
            assert(text::is_digit(text::decimal(size)[i - 1]));
        }
    }
    assert forall|i: int| 0 <= i < whole.len() implies ts[i] != '.' by {
        assert(ts[i] == whole[i]);
    }
    assert(ts[whole.len() as int] == '.');
    text::field_end_unique(ts, '.', whole.len() as int);
    assert(ts.take(whole.len() as int) == whole);
    if n < 0 {
        assert(whole.skip(1) == text::decimal(size));
        assert(whole[1] == text::decimal(size)[0]);
    }
}

/// A run's depth bound is honoured: whatever mark a channel has, nothing is asked for that is
/// older than the run's window.
pub proof fn depth_bound_is_honoured(walk: WalkView, channel: Seq<char>, days: u32, now: int)
    requires
        clock::shown(now),
    ensures
        oldest(walk, channel, Some(days), now) matches Some(ts) && not_before(
            ts,
            now - days * 86400,
        ),
{
    window_start_names_its_second(now, days);
}

/// A mark that covers a run and is not older than its bound is where the run starts, and so is a
/// mark that covers a run without a bound.
pub proof fn covering_mark_wins(
    walk: WalkView,
    channel: Seq<char>,
    depth_days: Option<u32>,
    now: int,
)
    requires
        walk.high_water.contains_key(channel),
        window_covers(walk.high_water[channel].depth_days, depth_days),
        depth_days matches Some(days) ==> not_before(
            walk.high_water[channel].ts,
            now - days * 86400,
        ),
    ensures
        oldest(walk, channel, depth_days, now) == Some(walk.high_water[channel].ts),
{
}

/// Committing the mark of one channel leaves the others as they were.
pub proof fn commit_touches_one_channel(
    walk: WalkView,
    channel: Seq<char>,
    depth_days: Option<u32>,
    other: Seq<char>,
)
    requires
        other != channel,
    ensures
        committed(walk, channel, depth_days).high_water.contains_key(other)
            == walk.high_water.contains_key(other),
        committed(walk, channel, depth_days).high_water[other] == walk.high_water[other],
        committed(walk, channel, depth_days).pending.contains_key(other)
            == walk.pending.contains_key(other),
{
}

} // verus!
