//! What holds of a Slack walk as a whole.

use vstd::prelude::*;

use crate::clock;
use crate::pipeline::json;
use crate::provider::SyncLimits;
use crate::text;
use crate::toolkits::slack::cursor;
use crate::toolkits::slack::cursor::Position;
use crate::toolkits::slack::read;
use crate::toolkits::slack::read::{ReadView, ReplyView, StageView};
use crate::toolkits::slack::state;
use crate::toolkits::slack::state::{MarkView, WalkView};
use crate::toolkits::slack::walk;
use crate::value;
use crate::value::JsonView;

verus! {

/// Whether a text can stand between the marks of a cursor.
pub open spec fn fits_in_a_cursor(text: Seq<char>) -> bool {
    text.len() > 0 && !text.contains('|')
}

/// A thread that is read next, before those that wait behind it.
pub open spec fn with_next(thread: Option<Seq<char>>, waiting: Seq<Seq<char>>) -> Seq<Seq<char>> {
    match thread {
        Some(thread) => seq![thread] + waiting,
        None => waiting,
    }
}

// ---- history ----

/// A channel's history is followed page by page: where Slack says that it goes on at a cursor,
/// other than the one it was just given, the walk stays in the channel and carries that cursor,
/// through the threads it owes and until it reads on there. No mark moves meanwhile.
pub proof fn history_is_followed(
    walk: WalkView,
    position: Position,
    channel: Seq<char>,
    depth_days: Option<u32>,
    messages: Seq<JsonView>,
    parents: Seq<Option<Seq<char>>>,
    more: Seq<char>,
)
    requires
        fits_in_a_cursor(more),
        position.history != Some(more),
    ensures
        ({
            let (after, next) = walk::history_taken(
                walk,
                position,
                channel,
                depth_days,
                messages,
                parents,
                Some(more),
            );
            &&& next.index == position.index
            &&& next.history == Some(more)
            &&& next.reply_page is None
            &&& after.high_water == walk.high_water
            &&& position.history is Some ==> after.pending == walk.pending
            &&& walk.pending.dom().subset_of(after.pending.dom())
        }),
{
}

/// A channel whose history has no further page is left, once it owes no thread, for the one
/// listed after it, and never before.
pub proof fn channel_is_left_at_its_end(
    walk: WalkView,
    position: Position,
    channel: Seq<char>,
    depth_days: Option<u32>,
    messages: Seq<JsonView>,
    parents: Seq<Option<Seq<char>>>,
)
    requires
        position.index < usize::MAX,
    ensures
        ({
            let (after, next) = walk::history_taken(
                walk,
                position,
                channel,
                depth_days,
                messages,
                parents,
                None,
            );
            &&& next.history is None
            &&& next.reply_page is None
            &&& next.index == position.index + (if next.thread is None {
                1int
            } else {
                0int
            })
        }),
{
}

/// Every thread that a page of history owes is read before the channel is read on, in the order
/// that Slack listed the parents, and then those owed before the page. Entering a channel, nothing
/// is owed before it.
pub proof fn every_thread_is_read_in_order(
    walk: WalkView,
    position: Position,
    channel: Seq<char>,
    depth_days: Option<u32>,
    messages: Seq<JsonView>,
    parents: Seq<Option<Seq<char>>>,
    listed: Seq<Seq<char>>,
    more: Option<Seq<char>>,
)
    requires
        parents == listed.map_values(|parent: Seq<char>| Some(parent)),
        forall|i: int| 0 <= i < listed.len() ==> fits_in_a_cursor(#[trigger] listed[i]),
        forall|i: int| 0 <= i < walk.threads.len() ==> fits_in_a_cursor(#[trigger] walk.threads[i]),
    ensures
        ({
            let (after, next) = walk::history_taken(
                walk,
                position,
                channel,
                depth_days,
                messages,
                parents,
                more,
            );
            let waiting = if position.history is None {
                Seq::empty()
            } else {
                walk.threads.reverse()
            };
            with_next(next.thread, after.threads.reverse()) == listed + waiting
        }),
{
    every_parent_is_owed(listed);
    let entered = walk::channel_entered(walk, position.history, channel, messages);
    assert forall|i: int| 0 <= i < entered.threads.len() implies cursor::storable(
        Some(#[trigger] entered.threads[i]),
    ) by {
        assert(fits_in_a_cursor(walk.threads[i]));
    }
    walk::readable_threads_can_be_stored(entered.threads);
    let threads = entered.threads + listed.reverse();
    let waiting = if position.history is None {
        Seq::empty()
    } else {
        walk.threads.reverse()
    };
    assert(threads.reverse() == listed + waiting);
    if threads.len() > 0 {
        assert(seq![threads.last()] + threads.drop_last().reverse() == threads.reverse());
    } else {
        assert(threads.reverse() == threads);
    }
}

/// Where every message listed has replies, and an id that a cursor can hold, exactly those ids are
/// owed, in their order.
pub proof fn every_parent_is_owed(listed: Seq<Seq<char>>)
    requires
        forall|i: int| 0 <= i < listed.len() ==> fits_in_a_cursor(#[trigger] listed[i]),
    ensures
        walk::owed(listed.map_values(|parent: Seq<char>| Some(parent))) == listed,
    decreases listed.len(),
{
    let parents = listed.map_values(|parent: Seq<char>| Some(parent));
    if listed.len() > 0 {
        let rest = listed.skip(1);
        assert forall|i: int| 0 <= i < rest.len() implies fits_in_a_cursor(#[trigger] rest[i]) by {
            assert(rest[i] == listed[i + 1]);
        }
        every_parent_is_owed(rest);
        assert(parents.skip(1) == rest.map_values(|parent: Seq<char>| Some(parent)));
        assert(fits_in_a_cursor(listed[0]));
        assert(listed == seq![listed[0]] + rest);
    }
}

/// What two pages of messages owe together is what the one owes and then what the other owes. A
/// message owes itself where it has replies and an id that a cursor can hold, and nothing else.
pub proof fn pages_owe_in_turn(left: Seq<Option<Seq<char>>>, right: Seq<Option<Seq<char>>>)
    ensures
        walk::owed(left + right) == walk::owed(left) + walk::owed(right),
        left.len() == 1 ==> walk::owed(left) == match left[0] {
            Some(parent) if fits_in_a_cursor(parent) => seq![parent],
            _ => Seq::empty(),
        },
    decreases left.len(),
{
    if left.len() == 0 {
        assert(left + right == right);
        assert(walk::owed(left) + walk::owed(right) == walk::owed(right));
    } else {
        pages_owe_in_turn(left.skip(1), right);
        assert((left + right).skip(1) == left.skip(1) + right);
        assert((left + right)[0] == left[0]);
        if let Some(parent) = left[0] {
            assert(seq![parent] + (walk::owed(left.skip(1)) + walk::owed(right)) == (seq![parent]
                + walk::owed(left.skip(1))) + walk::owed(right));
        }
        if left.len() == 1 {
            assert(left.skip(1) == Seq::<Option<Seq<char>>>::empty());
            if let Some(parent) = left[0] {
                assert(seq![parent] + Seq::<Seq<char>>::empty() == seq![parent]);
            }
        }
    }
}

/// How many of the messages listed have replies, and an id that a cursor can hold.
pub open spec fn parents_listed(parents: Seq<Option<Seq<char>>>) -> nat {
    parents.filter(|parent: Option<Seq<char>>| parent is Some && fits_in_a_cursor(parent->0)).len()
}

/// Every message listed that has replies, and an id that a cursor can hold, is owed, as many times
/// as it is listed, and nothing else is.
pub proof fn owed_are_the_parents_listed(parents: Seq<Option<Seq<char>>>)
    ensures
        walk::owed(parents).len() == parents_listed(parents),
        forall|i: int|
            0 <= i < parents.len() && (#[trigger] parents[i]) is Some && fits_in_a_cursor(
                parents[i]->0,
            ) ==> walk::owed(parents).contains(parents[i]->0),
        forall|k: int|
            0 <= k < walk::owed(parents).len() ==> parents.contains(
                Some(#[trigger] walk::owed(parents)[k]),
            ),
    decreases parents.len(),
{
    let has = |parent: Option<Seq<char>>| parent is Some && fits_in_a_cursor(parent->0);
    reveal(Seq::filter);
    if parents.len() > 0 {
        let shorter = parents.drop_last();
        let last = seq![parents.last()];
        let before = walk::owed(shorter);
        let all = walk::owed(parents);
        owed_are_the_parents_listed(shorter);
        assert(parents == shorter + last);
        pages_owe_in_turn(shorter, last);
        pages_owe_in_turn(last, Seq::empty());
        assert forall|i: int|
            0 <= i < parents.len() && (#[trigger] parents[i]) is Some && fits_in_a_cursor(
                parents[i]->0,
            ) implies all.contains(parents[i]->0) by {
            if i < shorter.len() {
                assert(shorter[i] == parents[i]);
                let k = choose|k: int| 0 <= k < before.len() && before[k] == parents[i]->0;
                assert(all[k] == parents[i]->0);
            } else {
                assert(all[before.len() as int] == parents[i]->0);
            }
        }
        assert forall|k: int| 0 <= k < all.len() implies parents.contains(
            Some(#[trigger] all[k]),
        ) by {
            if k < before.len() {
                assert(all[k] == before[k]);
                let i = choose|i: int| 0 <= i < shorter.len() && shorter[i] == Some(before[k]);
                assert(parents[i] == Some(all[k]));
            } else {
                assert(parents[parents.len() - 1] == Some(all[k]));
            }
        }
    }
}

/// The newest message of two pages is that of the first, or else that of the second. A message is
/// known by its `ts`.
pub proof fn newest_comes_first(left: Seq<JsonView>, right: Seq<JsonView>)
    ensures
        walk::newest_of(left + right) == match walk::newest_of(left) {
            Some(ts) => Some(ts),
            None => walk::newest_of(right),
        },
        left.len() == 0 ==> walk::newest_of(left) is None,
        left.len() == 1 ==> walk::newest_of(left) == json::picked(left[0], seq!["ts"@]),
    decreases left.len(),
{
    if left.len() == 0 {
        assert(left + right == right);
    } else {
        newest_comes_first(left.skip(1), right);
        assert((left + right).skip(1) == left.skip(1) + right);
        assert((left + right)[0] == left[0]);
    }
}

// ---- marks ----

/// Reading a page of history takes no mark away and moves none but that of the channel read, and
/// that one only to the newest message that the walk has seen of the channel, when it leaves the
/// channel. A channel that shows nothing new keeps the mark it has.
pub proof fn history_takes_no_mark_away(
    walk: WalkView,
    position: Position,
    channel: Seq<char>,
    depth_days: Option<u32>,
    messages: Seq<JsonView>,
    parents: Seq<Option<Seq<char>>>,
    more: Option<Seq<char>>,
)
    requires
        position.index < usize::MAX,
    ensures
        ({
            let (after, next) = walk::history_taken(
                walk,
                position,
                channel,
                depth_days,
                messages,
                parents,
                more,
            );
            &&& walk.high_water.dom().subset_of(after.high_water.dom())
            &&& forall|other: Seq<char>|
                other != channel ==> after.high_water.contains_key(other)
                    == walk.high_water.contains_key(other) && #[trigger] after.high_water[other]
                    == walk.high_water[other]
            &&& after.high_water != walk.high_water ==> next.index != position.index
                && after.high_water.contains_key(channel) && after.high_water[channel].depth_days
                == depth_days && (walk.pending.contains_key(channel)
                && after.high_water[channel].ts == walk.pending[channel] || walk::newest_of(
                messages,
            ) == Some(after.high_water[channel].ts))
            &&& !walk.pending.contains_key(channel) && walk::newest_of(messages) is None
                ==> after.high_water == walk.high_water
        }),
{
}

/// Reading a page of replies takes no mark away and moves none but that of the channel read, and
/// that one only to its pending mark, when the walk leaves the channel.
pub proof fn thread_takes_no_mark_away(
    walk: WalkView,
    position: Position,
    channel: Seq<char>,
    parent: Seq<char>,
    depth_days: Option<u32>,
    more: Option<Seq<char>>,
)
    requires
        position.index < usize::MAX,
    ensures
        ({
            let (after, next) = walk::thread_taken(
                walk,
                position,
                channel,
                parent,
                depth_days,
                more,
            );
            &&& walk.high_water.dom().subset_of(after.high_water.dom())
            &&& forall|other: Seq<char>|
                other != channel ==> after.high_water.contains_key(other)
                    == walk.high_water.contains_key(other) && #[trigger] after.high_water[other]
                    == walk.high_water[other]
            &&& after.high_water != walk.high_water ==> next.index != position.index
                && walk.pending.contains_key(channel) && after.high_water.contains_key(channel)
                && after.high_water[channel] == (MarkView {
                ts: walk.pending[channel],
                depth_days,
            })
            &&& next.index != position.index && walk.pending.contains_key(channel)
                ==> after.high_water.contains_key(channel) && after.high_water[channel].ts
                == walk.pending[channel]
        }),
{
}

/// A channel that is read in one page, with no thread under it, is marked by its newest message,
/// so that the next run asks only for what is newer.
pub proof fn channel_read_whole_is_marked(
    walk: WalkView,
    position: Position,
    channel: Seq<char>,
    depth_days: Option<u32>,
    messages: Seq<JsonView>,
    parents: Seq<Option<Seq<char>>>,
    newest: Seq<char>,
)
    requires
        position.index < usize::MAX,
        position.history is None,
        walk::newest_of(messages) == Some(newest),
        forall|i: int| 0 <= i < parents.len() ==> (#[trigger] parents[i]) is None,
    ensures
        ({
            let (after, next) = walk::history_taken(
                walk,
                position,
                channel,
                depth_days,
                messages,
                parents,
                None,
            );
            &&& after.high_water.contains_key(channel)
            &&& after.high_water[channel] == (MarkView { ts: newest, depth_days })
            &&& !after.pending.contains_key(channel)
            &&& after.threads.len() == 0
            &&& next == (Position {
                index: (position.index + 1) as usize,
                history: None,
                thread: None,
                reply_page: None,
            })
        }),
{
    owed_are_the_parents_listed(parents);
    if walk::owed(parents).len() > 0 {
        let parent = walk::owed(parents)[0];
        let i = choose|i: int| 0 <= i < parents.len() && parents[i] == Some(parent);
        assert(parents[i] is None);
    }
    assert(walk::readable_threads(Seq::empty()) == Seq::<Seq<char>>::empty());
}

/// Where Slack's history goes on but cannot be followed, at the very cursor that it was given, the
/// channel is left like one that could not be read: no mark moves.
pub proof fn unmoved_history_is_left(
    walk: WalkView,
    position: Position,
    channel: Seq<char>,
    depth_days: Option<u32>,
    messages: Seq<JsonView>,
    parents: Seq<Option<Seq<char>>>,
    more: Seq<char>,
)
    requires
        position.index < usize::MAX,
        fits_in_a_cursor(more),
        position.history == Some(more),
    ensures
        ({
            let (after, next) = walk::history_taken(
                walk,
                position,
                channel,
                depth_days,
                messages,
                parents,
                Some(more),
            );
            &&& after.high_water == walk.high_water
            &&& next.history is None
            &&& next.thread is None ==> next.index == position.index + 1
        }),
{
}

// ---- threads ----

/// A thread is followed page by page: where Slack says that its replies go on at a cursor, other
/// than the one it was just given, the walk stays in the thread, carries that cursor, and
/// remembers all that it did.
pub proof fn thread_is_followed(
    walk: WalkView,
    position: Position,
    channel: Seq<char>,
    parent: Seq<char>,
    depth_days: Option<u32>,
    more: Seq<char>,
)
    requires
        more.len() > 0,
        position.reply_page != Some(more),
    ensures
        ({
            let (after, next) = walk::thread_taken(
                walk,
                position,
                channel,
                parent,
                depth_days,
                Some(more),
            );
            &&& next == (Position {
                index: position.index,
                history: position.history,
                thread: Some(parent),
                reply_page: Some(more),
            })
            &&& after == walk
        }),
{
}

/// Once a thread is at its end, the threads that wait are read in their turn: the last one queued
/// next, and none of the others is lost. Only where the thread just read is itself queued last is
/// it passed over.
pub proof fn waiting_threads_are_read_in_turn(
    walk: WalkView,
    position: Position,
    channel: Seq<char>,
    parent: Seq<char>,
    depth_days: Option<u32>,
)
    requires
        walk.threads.len() > 0,
        walk.threads.last() != parent,
        forall|i: int| 0 <= i < walk.threads.len() ==> fits_in_a_cursor(#[trigger] walk.threads[i]),
    ensures
        ({
            let (after, next) = walk::thread_taken(
                walk,
                position,
                channel,
                parent,
                depth_days,
                None,
            );
            &&& next == (Position {
                index: position.index,
                history: position.history,
                thread: Some(walk.threads.last()),
                reply_page: None,
            })
            &&& walk.threads == after.threads.push(walk.threads.last())
            &&& after.high_water == walk.high_water
            &&& after.pending == walk.pending
        }),
{
    assert forall|i: int| 0 <= i < walk.threads.len() implies cursor::storable(
        Some(#[trigger] walk.threads[i]),
    ) by {
        assert(fits_in_a_cursor(walk.threads[i]));
    }
    walk::readable_threads_can_be_stored(walk.threads);
}

/// Once the last thread owed is at its end, the channel's history is read on where it left off,
/// with nothing that the walk remembers changed, or, at the end of the history, the next channel
/// is read.
pub proof fn history_goes_on_after_its_threads(
    walk: WalkView,
    position: Position,
    channel: Seq<char>,
    parent: Seq<char>,
    depth_days: Option<u32>,
)
    requires
        position.index < usize::MAX,
        walk.threads.len() == 0,
    ensures
        ({
            let (after, next) = walk::thread_taken(
                walk,
                position,
                channel,
                parent,
                depth_days,
                None,
            );
            &&& next.history == position.history
            &&& next.thread is None
            &&& next.reply_page is None
            &&& next.index == position.index + (if position.history is Some {
                0int
            } else {
                1int
            })
            &&& position.history is Some ==> after == walk
            &&& after.threads.len() == 0
        }),
{
    assert(walk.threads == Seq::<Seq<char>>::empty());
    assert(walk::readable_threads(walk.threads) == walk.threads);
}

// ---- what a page does not touch ----

/// Whether two walks have the same roster, the same directory, and the same pending marks but for
/// those of one channel.
pub open spec fn alike_but_for(left: WalkView, right: WalkView, channel: Seq<char>) -> bool {
    &&& left.channels == right.channels
    &&& left.channels_cursor == right.channels_cursor
    &&& left.users == right.users
    &&& left.users_fetched_ms == right.users_fetched_ms
    &&& left.pending.remove(channel) == right.pending.remove(channel)
    &&& left.high_water.remove(channel) == right.high_water.remove(channel)
}

/// A page of a channel, or of one of its threads, touches the marks of no other channel, nor the
/// roster, nor the directory.
pub proof fn page_touches_only_its_channel(
    walk: WalkView,
    position: Position,
    channel: Seq<char>,
    parent: Seq<char>,
    depth_days: Option<u32>,
    messages: Seq<JsonView>,
    parents: Seq<Option<Seq<char>>>,
    more: Option<Seq<char>>,
)
    ensures
        alike_but_for(
            walk,
            walk::history_taken(
                walk,
                position,
                channel,
                depth_days,
                messages,
                parents,
                more,
            ).0,
            channel,
        ),
        alike_but_for(
            walk,
            walk::thread_taken(walk, position, channel, parent, depth_days, more).0,
            channel,
        ),
        alike_but_for(walk, walk::channel_skipped(walk, position).0, channel),
{
    let history = walk::history_taken(
        walk,
        position,
        channel,
        depth_days,
        messages,
        parents,
        more,
    ).0;
    let thread = walk::thread_taken(walk, position, channel, parent, depth_days, more).0;
    assert(history.pending.remove(channel) =~= walk.pending.remove(channel));
    assert(history.high_water.remove(channel) =~= walk.high_water.remove(channel));
    assert(thread.pending.remove(channel) =~= walk.pending.remove(channel));
    assert(thread.high_water.remove(channel) =~= walk.high_water.remove(channel));
}

/// A channel that could not be read costs the walk that channel, and what it owed, and nothing
/// else: the next one is read.
pub proof fn unreadable_channel_costs_only_itself(walk: WalkView, position: Position)
    requires
        position.index < usize::MAX,
    ensures
        ({
            let (after, next) = walk::channel_skipped(walk, position);
            &&& next == (Position {
                index: (position.index + 1) as usize,
                history: None,
                thread: None,
                reply_page: None,
            })
            &&& after.threads.len() == 0
            &&& (WalkView { threads: walk.threads, ..after }) == walk
        }),
{
}

// ---- the roster ----

/// The channels of two lists of conversations are those of the one and then those of the other. A
/// conversation with an id is a channel, under its name or else under its id, and one without is
/// none.
pub proof fn every_conversation_with_an_id_is_walked(left: Seq<JsonView>, right: Seq<JsonView>)
    ensures
        walk::channels_in(left + right) == walk::channels_in(left) + walk::channels_in(right),
        left.len() == 1 ==> match json::picked(left[0], seq!["id"@, "data.id"@]) {
            Some(id) => {
                &&& walk::channels_in(left).len() == 1
                &&& walk::channels_in(left)[0].id == id
                &&& match json::picked(left[0], seq!["name"@, "data.name"@]) {
                    Some(name) => walk::channels_in(left)[0].name == name,
                    None => walk::channels_in(left)[0].name == id,
                }
            },
            None => walk::channels_in(left).len() == 0,
        },
    decreases right.len(),
{
    if left.len() == 1 {
        reveal_with_fuel(walk::channels_in, 2);
        assert(left.last() == left[0]);
    }
    if right.len() == 0 {
        assert(left + right == left);
        assert(walk::channels_in(left) + walk::channels_in(right) == walk::channels_in(left));
    } else {
        every_conversation_with_an_id_is_walked(left, right.drop_last());
        assert((left + right).drop_last() == left + right.drop_last());
        assert((left + right).last() == right.last());
        if let Some(_) = json::picked(right.last(), seq!["id"@, "data.id"@]) {
            let channel = walk::channels_in(right).last();
            assert(walk::channels_in(left) + walk::channels_in(right.drop_last()).push(channel) == (
            walk::channels_in(left) + walk::channels_in(right.drop_last())).push(channel));
        }
    }
}

/// A roster page is walked through all of its channels, wherever its envelope has them, and the
/// roster goes on where Slack says, unless that is where the page itself was read.
pub proof fn roster_is_followed(
    walk: WalkView,
    payload: JsonView,
    items: Seq<JsonView>,
    cursor: Option<Seq<char>>,
    next: Option<Seq<char>>,
)
    requires
        ({
            let first = value::at_pointer(payload, "/data/channels"@);
            let second = value::at_pointer(payload, "/channels"@);
            let third = value::at_pointer(payload, "/data/data/channels"@);
            ||| first == Some(JsonView::Array(items))
            ||| !(first matches Some(JsonView::Array(_))) && second == Some(JsonView::Array(items))
            ||| !(first matches Some(JsonView::Array(_))) && !(second matches Some(
                JsonView::Array(_),
            )) && third == Some(JsonView::Array(items))
        }),
    ensures
        ({
            let after = walk::roster_taken(walk, payload, cursor, next);
            &&& after.channels == walk::channels_in(items)
            &&& next is None ==> after.channels_cursor is None
            &&& next is Some && next != cursor ==> after.channels_cursor == next
            &&& (WalkView {
                channels: walk.channels,
                channels_cursor: walk.channels_cursor,
                ..after
            }) == walk
        }),
{
    let places = seq!["/data/channels"@, "/channels"@, "/data/data/channels"@];
    reveal_with_fuel(json::first_found, 4);
    assert(places.skip(1) == seq!["/channels"@, "/data/data/channels"@]);
    assert(places.skip(1).skip(1) == seq!["/data/data/channels"@]);
}

/// After a roster page the walk goes on at its first channel, except where it was told to resume
/// just there: then it goes on at once, or past a page without channels.
pub proof fn roster_page_is_walked_from_its_start(walk: WalkView)
    ensures
        walk::roster_left(walk, false) matches Some(start) && start.index == 0 && start.history
            is None && start.thread is None && start.reply_page is None,
        walk.channels.len() > 0 ==> walk::roster_left(walk, true) is None,
        walk.channels.len() == 0 ==> (walk::roster_left(walk, true) matches Some(past)
            && past.index >= walk.channels.len()),
{
}

// ---- the directory ----

/// The members of two pages are those of the one and then those of the other, a later name in
/// place of an earlier one. A member with an id and a name is known by them, and one without
/// either is not.
pub proof fn every_member_with_a_name_is_known(
    found: Map<Seq<char>, Seq<char>>,
    left: Seq<JsonView>,
    right: Seq<JsonView>,
)
    ensures
        walk::with_members(found, left + right) == walk::with_members(
            walk::with_members(found, left),
            right,
        ),
        left.len() == 1 ==> ({
            let id = json::picked(left[0], seq!["id"@]);
            let name = json::picked(
                left[0],
                seq!["profile.display_name"@, "real_name"@, "name"@],
            );
            let after = walk::with_members(found, left);
            if id is Some && name is Some {
                &&& after.contains_key(id->0)
                &&& after[id->0] == name->0
                &&& after.remove(id->0) == found.remove(id->0)
            } else {
                after == found
            }
        }),
    decreases right.len(),
{
    if left.len() == 1 {
        reveal_with_fuel(walk::with_members, 2);
        assert(left.last() == left[0]);
        if let Some(id) = json::picked(left[0], seq!["id"@]) {
            let after = walk::with_members(found, left);
            assert(after.remove(id) =~= found.remove(id));
        }
    }
    if right.len() == 0 {
        assert(left + right == left);
    } else {
        every_member_with_a_name_is_known(found, left, right.drop_last());
        assert((left + right).drop_last() == left + right.drop_last());
        assert((left + right).last() == right.last());
    }
}

/// The directory is read on where Slack says, until it says nothing, says the same again, or five
/// pages have been read. What was found before a page stays found.
pub proof fn directory_is_followed(
    directory: walk::DirectoryView,
    payload: JsonView,
    next: Option<Seq<char>>,
)
    ensures
        ({
            let after = walk::directory_taken(directory, payload, next);
            &&& walk::directory_goes_on(after) == (next is Some && next != directory.cursor
                && directory.pages + 1 < 5)
            &&& next is Some && next != directory.cursor ==> after.cursor == next
            &&& after.pages == directory.pages + 1
            &&& after.now_ms == directory.now_ms
            &&& directory.found.dom().subset_of(after.found.dom())
        }),
{
    let items = json::elements_found(
        payload,
        seq!["/data/members"@, "/members"@, "/data/data/members"@],
    );
    members_stay_known(directory.found, items);
}

proof fn members_stay_known(found: Map<Seq<char>, Seq<char>>, items: Seq<JsonView>)
    ensures
        found.dom().subset_of(walk::with_members(found, items).dom()),
    decreases items.len(),
{
    if items.len() > 0 {
        members_stay_known(found, items.drop_last());
    }
}

/// A page of the directory is read wherever its envelope has the members.
pub proof fn directory_page_is_read_whole(
    directory: walk::DirectoryView,
    payload: JsonView,
    items: Seq<JsonView>,
    next: Option<Seq<char>>,
)
    requires
        ({
            let first = value::at_pointer(payload, "/data/members"@);
            let second = value::at_pointer(payload, "/members"@);
            let third = value::at_pointer(payload, "/data/data/members"@);
            ||| first == Some(JsonView::Array(items))
            ||| !(first matches Some(JsonView::Array(_))) && second == Some(JsonView::Array(items))
            ||| !(first matches Some(JsonView::Array(_))) && !(second matches Some(
                JsonView::Array(_),
            )) && third == Some(JsonView::Array(items))
        }),
    ensures
        walk::directory_taken(directory, payload, next).found == walk::with_members(
            directory.found,
            items,
        ),
{
    let places = seq!["/data/members"@, "/members"@, "/data/data/members"@];
    reveal_with_fuel(json::first_found, 4);
    assert(places.skip(1) == seq!["/members"@, "/data/data/members"@]);
    assert(places.skip(1).skip(1) == seq!["/data/data/members"@]);
}

/// A read of the directory starts with nothing found, at its first page. Once it is over, a walk
/// has the names that were found, as of when the read started, and keeps those it had when none
/// was. Nothing else of the walk changes.
pub proof fn directory_replaces_names(walk: WalkView, directory: walk::DirectoryView, now_ms: i64)
    ensures
        ({
            let start = walk::directory_start(now_ms);
            &&& start.found.dom().is_empty()
            &&& start.cursor is None
            &&& start.pages == 0
            &&& start.now_ms == now_ms
        }),
        ({
            let after = walk::users_taken(walk, directory);
            &&& !directory.found.dom().is_empty() ==> after.users == directory.found
                && after.users_fetched_ms == directory.now_ms
            &&& directory.found.dom().is_empty() ==> after == walk
            &&& (WalkView {
                users: walk.users,
                users_fetched_ms: walk.users_fetched_ms,
                ..after
            }) == walk
        }),
{
    if directory.found.dom().is_empty() {
        assert(directory.found =~= Map::empty());
    } else {
        let id = choose|id: Seq<char>| directory.found.dom().contains(id);
        assert(directory.found.contains_key(id));
    }
}

/// A directory is read again when it holds nobody, or when more than a day has passed, and not
/// before.
pub proof fn directory_is_trusted_for_a_day(walk: WalkView, now_ms: int)
    ensures
        walk.users.dom().is_empty() ==> state::users_stale(walk, now_ms),
        !walk.users.dom().is_empty() ==> state::users_stale(walk, now_ms) == (now_ms
            > walk.users_fetched_ms + 86_400_000),
{
    if walk.users.dom().is_empty() {
        assert(walk.users =~= Map::empty());
    } else {
        let id = choose|id: Seq<char>| walk.users.dom().contains(id);
        assert(walk.users.contains_key(id));
    }
}

// ---- marks and windows ----

/// A bounded mark covers exactly the runs with no wider a window, and an unbounded one covers all.
pub proof fn mark_covers_no_wider_window(collected: u32, requested: u32)
    ensures
        state::window_covers(Some(collected), Some(requested)) == (requested <= collected),
        !state::window_covers(Some(collected), None),
        state::window_covers(None, Some(requested)),
        state::window_covers(None, None),
{
}

/// Where no mark covers a run, its window alone decides where it starts: that many days before
/// now, to the second, or nowhere when it has none.
pub proof fn uncovered_run_starts_at_its_window(
    walk: WalkView,
    channel: Seq<char>,
    depth_days: Option<u32>,
    now: int,
)
    requires
        clock::shown(now),
        walk.high_water.contains_key(channel) ==> (walk.high_water[channel].depth_days matches Some(
            collected,
        ) && (depth_days is None || depth_days->0 > collected)),
    ensures
        match (depth_days, state::oldest(walk, channel, depth_days, now)) {
            (Some(days), Some(ts)) => state::ts_seconds(ts) == Some(now - 86400 * days),
            (None, None) => true,
            _ => false,
        },
{
    if let Some(days) = depth_days {
        state::window_start_names_its_second(now, days);
    }
}

/// A mark that time has carried the bound past gives way to the bound, to the second.
pub proof fn passed_mark_gives_way(walk: WalkView, channel: Seq<char>, days: u32, now: int)
    requires
        clock::shown(now),
        walk.high_water.contains_key(channel),
        state::ts_seconds(walk.high_water[channel].ts) matches Some(secs) ==> secs < now - 86400
            * days,
    ensures
        state::oldest(walk, channel, Some(days), now) matches Some(ts) && state::ts_seconds(ts)
            == Some(now - 86400 * days),
{
    state::window_start_names_its_second(now, days);
}

/// Committing a channel makes its pending mark its mark, under the run's window, and leaves
/// nothing pending. A channel with nothing pending keeps the mark it has. Nothing else changes.
pub proof fn commit_promotes_the_pending_mark(
    walk: WalkView,
    channel: Seq<char>,
    depth_days: Option<u32>,
)
    ensures
        ({
            let after = state::committed(walk, channel, depth_days);
            &&& !after.pending.contains_key(channel)
            &&& walk.pending.contains_key(channel) ==> after.high_water.contains_key(channel)
                && after.high_water[channel].ts == walk.pending[channel]
                && after.high_water[channel].depth_days == depth_days
            &&& !walk.pending.contains_key(channel) ==> after == walk
            &&& after.threads == walk.threads
            &&& alike_but_for(walk, after, channel)
        }),
{
    let after = state::committed(walk, channel, depth_days);
    assert(after.pending.remove(channel) =~= walk.pending.remove(channel));
    assert(after.high_water.remove(channel) =~= walk.high_water.remove(channel));
}

// ---- what is asked for ----

/// Whether a request names no argument but those of a list.
pub open spec fn names_only(request: Map<Seq<char>, JsonView>, names: Seq<Seq<char>>) -> bool {
    forall|name: Seq<char>| #[trigger] request.contains_key(name) ==> names.contains(name)
}

/// Whether a request carries an argument exactly where there is one.
pub open spec fn carries(
    request: Map<Seq<char>, JsonView>,
    name: Seq<char>,
    text: Option<Seq<char>>,
) -> bool {
    match text {
        Some(text) => request.contains_key(name) && request[name] == JsonView::Text(text),
        None => !request.contains_key(name),
    }
}

/// The names of the arguments are all different.
proof fn arguments_differ()
    ensures
        "limit"@ != "types"@,
        "limit"@ != "exclude_archived"@,
        "limit"@ != "cursor"@,
        "limit"@ != "channel"@,
        "limit"@ != "inclusive"@,
        "limit"@ != "oldest"@,
        "limit"@ != "ts"@,
        "types"@ != "exclude_archived"@,
        "types"@ != "cursor"@,
        "exclude_archived"@ != "cursor"@,
        "channel"@ != "inclusive"@,
        "channel"@ != "oldest"@,
        "channel"@ != "cursor"@,
        "channel"@ != "ts"@,
        "inclusive"@ != "oldest"@,
        "inclusive"@ != "cursor"@,
        "oldest"@ != "cursor"@,
        "ts"@ != "cursor"@,
{
    reveal_strlit("limit");
    reveal_strlit("types");
    reveal_strlit("exclude_archived");
    reveal_strlit("cursor");
    reveal_strlit("channel");
    reveal_strlit("inclusive");
    reveal_strlit("oldest");
    reveal_strlit("ts");
    assert("limit"@[0] == 'l');
    assert("types"@[0] == 't');
    assert("cursor"@[0] == 'c' && "cursor"@.len() == 6);
    assert("oldest"@[0] == 'o');
    assert("channel"@.len() == 7 && "inclusive"@.len() == 9 && "exclude_archived"@.len() == 16);
    assert("limit"@.len() == 5 && "types"@.len() == 5 && "oldest"@.len() == 6 && "ts"@.len() == 2);
}

/// A roster page is asked for two hundred channels at a time, public and private, none archived,
/// and no direct messages, from where the roster goes on.
pub proof fn roster_asks_for_channels(cursor: Option<Seq<char>>)
    ensures
        ({
            let request = walk::roster_request(cursor);
            &&& names_only(request, seq!["limit"@, "types"@, "exclude_archived"@, "cursor"@])
            &&& request.contains_key("limit"@) && request["limit"@] == JsonView::Number(
                text::decimal(200),
            )
            &&& carries(request, "types"@, Some("public_channel,private_channel"@))
            &&& request.contains_key("exclude_archived"@) && request["exclude_archived"@]
                == JsonView::Bool(true)
            &&& carries(request, "cursor"@, cursor)
        }),
{
    arguments_differ();
    let names = seq!["limit"@, "types"@, "exclude_archived"@, "cursor"@];
    assert(names[0] == "limit"@ && names[1] == "types"@ && names[2] == "exclude_archived"@
        && names[3] == "cursor"@);
}

/// A page of the directory is asked for two hundred members at a time, from where it goes on.
pub proof fn directory_asks_for_members(cursor: Option<Seq<char>>)
    ensures
        ({
            let request = walk::users_request(cursor);
            &&& names_only(request, seq!["limit"@, "cursor"@])
            &&& request.contains_key("limit"@) && request["limit"@] == JsonView::Number(
                text::decimal(200),
            )
            &&& carries(request, "cursor"@, cursor)
        }),
{
    arguments_differ();
    let names = seq!["limit"@, "cursor"@];
    assert(names[0] == "limit"@ && names[1] == "cursor"@);
}

/// A page of replies is asked for by its channel and its parent, from where the replies go on.
pub proof fn thread_asks_for_its_parent(
    channel: Seq<char>,
    parent: Seq<char>,
    reply_page: Option<Seq<char>>,
)
    ensures
        ({
            let request = walk::thread_request(channel, parent, reply_page);
            &&& names_only(request, seq!["channel"@, "ts"@, "limit"@, "cursor"@])
            &&& carries(request, "channel"@, Some(channel))
            &&& carries(request, "ts"@, Some(parent))
            &&& request.contains_key("limit"@) && request["limit"@] == JsonView::Number(
                text::decimal(200),
            )
            &&& carries(request, "cursor"@, reply_page)
        }),
{
    arguments_differ();
    let names = seq!["channel"@, "ts"@, "limit"@, "cursor"@];
    assert(names[0] == "channel"@ && names[1] == "ts"@ && names[2] == "limit"@ && names[3]
        == "cursor"@);
}

/// A page of history is asked for by its channel, from where the history goes on, with what is
/// newer than where the run starts, and without the message at that point.
pub proof fn history_asks_for_what_is_newer(
    walk: WalkView,
    history: Option<Seq<char>>,
    channel: Seq<char>,
    limits: SyncLimits,
    now: int,
)
    ensures
        ({
            let request = walk::history_request(walk, history, channel, limits, now);
            &&& names_only(
                request,
                seq!["channel"@, "inclusive"@, "limit"@, "oldest"@, "cursor"@],
            )
            &&& carries(request, "channel"@, Some(channel))
            &&& request.contains_key("inclusive"@) && request["inclusive"@] == JsonView::Bool(false)
            &&& request.contains_key("limit"@) && request["limit"@] == JsonView::Number(
                text::decimal(walk::messages_asked(limits.max_items)),
            )
            &&& carries(
                request,
                "oldest"@,
                state::oldest(walk, channel, limits.depth_days, now),
            )
            &&& carries(request, "cursor"@, history)
        }),
{
    arguments_differ();
    let names = seq!["channel"@, "inclusive"@, "limit"@, "oldest"@, "cursor"@];
    assert(names[0] == "channel"@ && names[1] == "inclusive"@ && names[2] == "limit"@ && names[3]
        == "oldest"@ && names[4] == "cursor"@);
}

/// A history page is asked for as many messages as the run can use, at least one and no more than
/// two hundred: no such number is larger.
pub proof fn history_asks_for_what_the_run_can_use(max_items: usize, other: nat)
    ensures
        1 <= walk::messages_asked(max_items) <= 200,
        max_items >= 1 ==> walk::messages_asked(max_items) <= max_items,
        1 <= other <= 200 && other <= max_items ==> other <= walk::messages_asked(max_items),
{
}

/// The actions and the bounds that a walk is made with.
pub proof fn actions_are_slacks()
    ensures
        walk::ACTION_CONVERSATIONS@ == "SLACK_LIST_CONVERSATIONS"@,
        walk::ACTION_HISTORY@ == "SLACK_FETCH_CONVERSATION_HISTORY"@,
        walk::ACTION_THREAD@ == "SLACK_FETCH_MESSAGE_THREAD_FROM_A_CONVERSATION"@,
        walk::PROFILE_ACTION@ == "SLACK_FETCH_TEAM_INFO"@,
        walk::ACTION_USERS@ == "SLACK_LIST_ALL_USERS"@,
        walk::CHANNELS_PER_PAGE == 200,
        walk::MESSAGES_PER_PAGE == 200,
        walk::USERS_PER_PAGE == 200,
        walk::USER_PAGES_MAX == 5,
        state::USERS_TTL_MS == 24 * 3600 * 1000,
{
}

// ---- one page read ----

/// A read that resumes reads what its cursor names: the thread, or else the history, of the
/// channel at that place of the roster page in hand, or, past its end, the next roster page, or
/// nothing when there is none. Starting changes nothing that the walk remembers.
pub proof fn read_starts_where_its_cursor_says(
    cursor: Seq<char>,
    walk: WalkView,
    limits: SyncLimits,
)
    ensures
        ({
            let read = read::begun(Some(cursor), walk, limits);
            let position = cursor::position_in(Some(cursor));
            &&& read.given == Some(cursor)
            &&& read.position == position
            &&& read.walk == walk
            &&& read.limits == limits
            &&& !read.changed
            &&& position.index < walk.channels.len() ==> match position.thread {
                Some(parent) => read.stage == StageView::Thread(
                    walk.channels[position.index as int],
                    parent,
                ),
                None => read.stage == StageView::History(walk.channels[position.index as int]),
            }
            &&& position.index >= walk.channels.len() ==> match walk.channels_cursor {
                Some(next) => read.stage == StageView::NextRoster(next),
                None => read.stage == StageView::Done(None),
            }
        }),
{
}

/// A read without a cursor starts the walk: at the top of the roster, and then at the start of its
/// first channel.
pub proof fn read_without_a_cursor_starts_the_walk(walk: WalkView, limits: SyncLimits)
    ensures
        ({
            let read = read::begun(None, walk, limits);
            &&& read.stage is Roster
            &&& read.given is None
            &&& read.position.index == 0
            &&& read.position.history is None
            &&& read.position.thread is None
            &&& read.position.reply_page is None
            &&& read.walk == walk
            &&& read.limits == limits
        }),
{
}

/// A roster that cannot be read fails the read, and so does a fatal failure of a thread or of a
/// channel. No other answer does.
pub proof fn only_these_failures_fail_a_read(read: ReadView, reply: ReplyView, now_ms: i64)
    ensures
        read::answered(read, reply, now_ms) is None <==> (reply matches ReplyView::Failed { fatal }
            && (read.stage is Roster || read.stage is NextRoster || fatal && (read.stage is Thread
            || read.stage is History))),
{
}

/// An answer leaves a read with the cursor, the position and the bounds it was given.
pub proof fn answer_keeps_what_was_given(read: ReadView, reply: ReplyView, now_ms: i64)
    ensures
        read::answered(read, reply, now_ms) matches Some(after) ==> after.given == read.given
            && after.position == read.position && after.limits == read.limits && (
        read.stage is Done ==> after == read) && (read::fits(read.stage, reply) ==> after.changed
            || read.stage is Users),
{
}

/// A thread that could not be read leaves the walk just where a thread at its end would.
pub proof fn unreadable_thread_is_like_one_at_its_end(
    read: ReadView,
    channel: state::ChannelView,
    parent: Seq<char>,
    now_ms: i64,
)
    requires
        read.stage == StageView::Thread(channel, parent),
    ensures
        read::answered(read, ReplyView::Failed { fatal: false }, now_ms) == read::answered(
            read,
            ReplyView::Thread { more: None },
            now_ms,
        ),
{
}

/// A page of a thread, or of a channel, ends the read, and the walk resumes where the page leaves
/// it, with what the page has it remember.
pub proof fn page_of_messages_ends_the_read(
    read: ReadView,
    channel: state::ChannelView,
    parent: Seq<char>,
    messages: Seq<JsonView>,
    parents: Seq<Option<Seq<char>>>,
    more: Option<Seq<char>>,
    now_ms: i64,
)
    ensures
        read.stage == StageView::Thread(channel, parent) ==> (read::answered(
            read,
            ReplyView::Thread { more },
            now_ms,
        ) matches Some(after) && ({
            let (walk, next) = walk::thread_taken(
                read.walk,
                read.position,
                channel.id,
                parent,
                read.limits.depth_days,
                more,
            );
            after.walk == walk && after.stage == StageView::Done(Some(cursor::position_text(next)))
        })),
        read.stage == StageView::History(channel) ==> (read::answered(
            read,
            ReplyView::History { messages, parents, more },
            now_ms,
        ) matches Some(after) && ({
            let (walk, next) = walk::history_taken(
                read.walk,
                read.position,
                channel.id,
                read.limits.depth_days,
                messages,
                parents,
                more,
            );
            after.walk == walk && after.stage == StageView::Done(Some(cursor::position_text(next)))
        })),
        read.stage == StageView::History(channel) ==> (read::answered(
            read,
            ReplyView::Failed { fatal: false },
            now_ms,
        ) matches Some(after) && ({
            let (walk, next) = walk::channel_skipped(read.walk, read.position);
            after.walk == walk && after.stage == StageView::Done(Some(cursor::position_text(next)))
        })),
{
}

/// A walk that starts takes the roster, then reads the directory if it is to be read, and then
/// what a walk at its position reads, whether the directory came to its end or broke off.
pub proof fn start_reads_roster_directory_and_channel(
    read: ReadView,
    payload: JsonView,
    next: Option<Seq<char>>,
    cursor: Seq<char>,
    now_ms: i64,
)
    requires
        read.position == cursor::position_in(Some(cursor)),
    ensures
        read.stage is Roster ==> (read::answered(
            read,
            ReplyView::Listing { payload, next },
            now_ms,
        ) matches Some(after) && after.walk == walk::roster_taken(read.walk, payload, None, next)
            && after.stage == if state::users_stale(after.walk, now_ms as int) {
            StageView::Users(walk::directory_start(now_ms))
        } else {
            read::begun(Some(cursor), after.walk, read.limits).stage
        }),
        read.stage matches StageView::Users(directory) ==> ({
            let taken = walk::directory_taken(directory, payload, next);
            let listed = read::answered(read, ReplyView::Listing { payload, next }, now_ms);
            let failed = read::answered(read, ReplyView::Failed { fatal: true }, now_ms);
            &&& listed matches Some(after) && if walk::directory_goes_on(taken) {
                after.walk == read.walk && after.stage == StageView::Users(taken)
            } else {
                after.walk == walk::users_taken(read.walk, taken) && after.stage == read::begun(
                    Some(cursor),
                    after.walk,
                    read.limits,
                ).stage
            }
            &&& failed matches Some(after) && after.walk == walk::users_taken(
                read.walk,
                directory,
            ) && after.stage == read::begun(Some(cursor), after.walk, read.limits).stage
        }),
{
}

/// The next roster page is taken as the one read from where the roster goes on, and the walk
/// resumes at its first channel, unless it was told to resume just there.
pub proof fn next_roster_page_is_taken(
    read: ReadView,
    cursor: Seq<char>,
    payload: JsonView,
    next: Option<Seq<char>>,
    now_ms: i64,
)
    requires
        read.stage == StageView::NextRoster(cursor),
    ensures
        read::answered(read, ReplyView::Listing { payload, next }, now_ms) matches Some(after)
            && after.walk == walk::roster_taken(read.walk, payload, Some(cursor), next) && (
        read.given is None || read.position.index > 0 ==> (after.stage matches StageView::Done(
            Some(resumes),
        ) && cursor::position_in(Some(resumes)) == cursor::position_in(None))),
{
    cursor::cursor_reads_back(cursor::in_channel(0, None));
}

/// Each stage of a read asks its own action, and a read that is over asks for nothing.
pub proof fn each_stage_asks_its_action(read: ReadView, now: int)
    ensures
        read::asked(read, now) is None <==> read.stage is Done,
        read::asked(read, now) matches Some((action, arguments)) ==> match read.stage {
            StageView::Roster => action == "SLACK_LIST_CONVERSATIONS"@ && arguments
                == walk::roster_request(None),
            StageView::NextRoster(cursor) => action == "SLACK_LIST_CONVERSATIONS"@ && arguments
                == walk::roster_request(Some(cursor)),
            StageView::Users(directory) => action == "SLACK_LIST_ALL_USERS"@ && arguments
                == walk::users_request(directory.cursor),
            StageView::Thread(channel, parent) => action
                == "SLACK_FETCH_MESSAGE_THREAD_FROM_A_CONVERSATION"@ && arguments
                == walk::thread_request(channel.id, parent, read.position.reply_page),
            StageView::History(channel) => action == "SLACK_FETCH_CONVERSATION_HISTORY"@
                && arguments == walk::history_request(
                read.walk,
                read.position.history,
                channel.id,
                read.limits,
                now,
            ),
            StageView::Done(_) => false,
        },
{
}

// ---- the cursor ----

/// The fields of a cursor are read in their order: the place of the channel, where its history
/// goes on, the thread, and where its replies go on. An empty field is one that is missing.
pub proof fn cursor_fields_are_read_in_order(
    index: usize,
    history: Seq<char>,
    thread: Seq<char>,
    reply_page: Seq<char>,
)
    requires
        !history.contains('|'),
        !thread.contains('|'),
    ensures
        ({
            let raw = text::decimal(index as nat) + "|"@ + history + "|"@ + thread + "|"@
                + reply_page;
            let position = cursor::position_in(Some(raw));
            &&& position.index == index
            &&& position.history == (if history.len() > 0 {
                Some(history)
            } else {
                None
            })
            &&& position.thread == (if thread.len() > 0 {
                Some(thread)
            } else {
                None
            })
            &&& position.reply_page == (if reply_page.len() > 0 {
                Some(reply_page)
            } else {
                None
            })
        }),
{
    let number = text::decimal(index as nat);
    let raw = number + "|"@ + history + "|"@ + thread + "|"@ + reply_page;
    let after_history = thread.push('|') + reply_page;
    let after_index = history.push('|') + after_history;
    reveal_strlit("|");
    assert(raw == number.push('|') + after_index);
    text::decimal_lacks(index as nat, '|');
    text::decimal_parses(index as nat, usize::MAX as nat);
    text::split_first_of_joined(number, '|', after_index);
    text::split_first_of_joined(history, '|', after_history);
    text::split_first_of_joined(thread, '|', reply_page);
}

/// A position is written with its place in front, and then its fields, each behind a mark, an
/// empty one for each that is missing.
pub proof fn cursor_is_written_in_fields(position: Position)
    ensures
        ({
            let raw = cursor::position_text(position);
            let place = text::decimal(position.index as nat);
            &&& place.push('|').is_prefix_of(raw)
            &&& raw.len() == place.len() + 3 + (if position.history is Some {
                position.history->0.len()
            } else {
                0
            }) + (if position.thread is Some {
                position.thread->0.len()
            } else {
                0
            }) + (if position.reply_page is Some {
                position.reply_page->0.len()
            } else {
                0
            })
        }),
{
    let raw = cursor::position_text(position);
    let place = text::decimal(position.index as nat);
    assert(raw.subrange(0, place.len() as int + 1) == place.push('|'));
}

} // verus!
