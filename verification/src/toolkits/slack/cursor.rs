//! Where a Slack walk is.

use vstd::prelude::*;

use crate::text;

verus! {

/// Where the walk is: which channel, where in its history, and which of its threads is being
/// drained.
///
/// Encoded as `"<index>|<history>|<thread>|<thread cursor>"`. No field can contain a `|`: the
/// index is a number, a Slack `ts` is digits and a dot, and Slack's cursors are base64, whose
/// alphabet does not include one.
///
/// `history` keeps its meaning while a thread is being read: it is where the channel resumes once
/// the detour ends.
#[derive(Debug, PartialEq, Eq)]
pub struct Cursor {
    /// Position in the roster page in hand.
    pub index: usize,
    /// Slack's own position inside that channel's history, if part way in.
    pub history: Option<String>,
    /// The message whose replies are being read, if the walk is in a thread.
    pub thread: Option<String>,
    /// Slack's position inside those replies, if part way in.
    pub reply_page: Option<String>,
}

/// What a [`Cursor`] says.
pub struct Position {
    pub index: usize,
    pub history: Option<Seq<char>>,
    pub thread: Option<Seq<char>>,
    pub reply_page: Option<Seq<char>>,
}

impl View for Cursor {
    type V = Position;

    open spec fn view(&self) -> Position {
        Position {
            index: self.index,
            history: text::string_view(self.history),
            thread: text::string_view(self.thread),
            reply_page: text::string_view(self.reply_page),
        }
    }
}

/// The position at `history` within channel `index`, reading no thread.
pub open spec fn in_channel(index: usize, history: Option<Seq<char>>) -> Position {
    Position { index, history, thread: None, reply_page: None }
}

/// The position part way through the replies under `thread`.
pub open spec fn in_replies(
    index: usize,
    history: Option<Seq<char>>,
    thread: Seq<char>,
    reply_page: Option<Seq<char>>,
) -> Position {
    Position { index, history, thread: Some(thread), reply_page }
}

/// `field`, unless it is empty.
pub open spec fn unless_empty(field: Seq<char>) -> Option<Seq<char>> {
    if field.len() > 0 {
        Some(field)
    } else {
        None
    }
}

/// `field`, or the empty text.
pub open spec fn or_empty(field: Option<Seq<char>>) -> Seq<char> {
    match field {
        Some(field) => field,
        None => Seq::empty(),
    }
}

/// The text up to the first mark, and what is behind it, if there is a mark.
pub open spec fn next_field(text: Seq<char>) -> (Seq<char>, Option<Seq<char>>) {
    match text::split_first(text, '|') {
        Some((field, rest)) => (field, Some(rest)),
        None => (text, None),
    }
}

/// The field that starts `text`, unless it is empty or missing, and what is behind it.
pub open spec fn optional_field(text: Option<Seq<char>>) -> (Option<Seq<char>>, Option<Seq<char>>) {
    match text {
        Some(text) => (unless_empty(next_field(text).0), next_field(text).1),
        None => (None, None),
    }
}

/// The position that a stored cursor names. One whose index does not parse names the start.
pub open spec fn position_in(raw: Option<Seq<char>>) -> Position {
    match raw {
        Some(raw) => {
            let (number, after_index) = next_field(raw);
            match text::parsed(number, usize::MAX as nat) {
                Some(index) => {
                    let (history, after_history) = optional_field(after_index);
                    let (thread, after_thread) = optional_field(after_history);
                    let reply_page = match after_thread {
                        Some(rest) => unless_empty(rest),
                        None => None,
                    };
                    Position { index: index as usize, history, thread, reply_page }
                },
                None => in_channel(0, None),
            }
        },
        None => in_channel(0, None),
    }
}

/// The text that a position is stored as.
pub open spec fn position_text(position: Position) -> Seq<char> {
    text::decimal(position.index as nat).push('|') + (or_empty(position.history).push('|') + (
    or_empty(position.thread).push('|') + or_empty(position.reply_page)))
}

/// Whether a field can be stored: it is missing, or it is not empty and holds no mark.
pub open spec fn storable(field: Option<Seq<char>>) -> bool {
    field matches Some(field) ==> field.len() > 0 && !field.contains('|')
}

/// Whether a position is one that a stored cursor can name.
pub open spec fn readable(position: Position) -> bool {
    &&& storable(position.history)
    &&& storable(position.thread)
    &&& position.reply_page matches Some(reply_page) ==> reply_page.len() > 0
}

/// Whether a field can be stored: it is not empty and holds no mark.
pub(crate) fn is_storable(field: &str) -> (result: bool)
    ensures
        result == storable(Some(field@)),
{
    proof {
        text::field_end_is_first(field@, '|');
        if text::field_end(field@, '|') < field@.len() {
            assert(field@.contains(field@[text::field_end(field@, '|')]));
        }
    }
    !field.is_empty() && text::split_once(field, '|').is_none()
}

/// Reads the field that starts `text`, unless it is empty or missing, and what is behind it.
fn read_field(text: Option<String>) -> (result: (Option<String>, Option<String>))
    ensures
        text::string_view(result.0) == optional_field(text::string_view(text)).0,
        text::string_view(result.1) == optional_field(text::string_view(text)).1,
{
    match text {
        Some(text) => {
            let (field, rest) = match text::split_once(text.as_str(), '|') {
                Some((field, rest)) => (field, Some(rest)),
                None => (text, None),
            };
            if field.as_str().is_empty() {
                (None, rest)
            } else {
                (Some(field), rest)
            }
        },
        None => (None, None),
    }
}

/// Appends an optional field to `text`.
fn append_field(text: &mut String, field: &Option<String>)
    ensures
        final(text)@ == old(text)@ + or_empty(text::string_view(*field)),
{
    match field {
        Some(field) => text.append(field.as_str()),
        None => {
            assert(text@ + Seq::<char>::empty() == text@);
        },
    }
}

impl Cursor {
    /// A cursor naming `index`, at `history` within it, reading no thread.
    pub fn new(index: usize, history: Option<String>) -> (cursor: Cursor)
        ensures
            cursor@ == in_channel(index, text::string_view(history)),
    {
        Cursor { index, history, thread: None, reply_page: None }
    }

    /// A cursor part way through the replies under `thread`.
    pub fn in_thread(
        index: usize,
        history: Option<String>,
        thread: String,
        reply_page: Option<String>,
    ) -> (cursor: Cursor)
        ensures
            cursor@ == in_replies(
                index,
                text::string_view(history),
                thread@,
                text::string_view(reply_page),
            ),
    {
        Cursor { index, history, thread: Some(thread), reply_page }
    }

    /// Read a cursor the pipeline handed back.
    ///
    /// A cursor that does not parse restarts the walk rather than failing it: the seen-set turns
    /// the re-read into skips, so the cost of being wrong here is requests, and the cost of
    /// erroring would be a connection that never syncs again. A cursor written by an older
    /// release has fewer fields and reads as "not in a thread", which is exactly right.
    pub fn decode(raw: Option<&str>) -> (cursor: Cursor)
        ensures
            cursor@ == position_in(text::slice_view(raw)),
    {
        let raw = match raw {
            Some(raw) => raw,
            None => return Cursor::new(0, None),
        };
        let (number, after_index) = match text::split_once(raw, '|') {
            Some((number, rest)) => (number, Some(rest)),
            None => (raw.to_owned(), None),
        };
        // A position that does not parse names no channel, and a history or thread cursor beside
        // it belongs to a channel nobody can now identify. Keeping them would ask Slack to resume
        // channel zero from another channel's page, which it refuses, costing that channel the
        // walk.
        let index: usize = match text::parse_number(number.as_str(), usize::MAX as u64) {
            Some(index) => index as usize,
            None => return Cursor::new(0, None),
        };
        let (history, after_history) = read_field(after_index);
        let (thread, after_thread) = read_field(after_history);
        let reply_page = match after_thread {
            Some(rest) => {
                if rest.as_str().is_empty() {
                    None
                } else {
                    Some(rest)
                }
            },
            None => None,
        };
        Cursor { index, history, thread, reply_page }
    }

    /// Render this position for the pipeline to store.
    pub fn encode(&self) -> (raw: String)
        ensures
            raw@ == position_text(self@),
    {
        let mut raw = text::decimal_text(self.index as u64);
        raw.push('|');
        append_field(&mut raw, &self.history);
        raw.push('|');
        append_field(&mut raw, &self.thread);
        raw.push('|');
        append_field(&mut raw, &self.reply_page);
        assert(raw@ == position_text(self@));
        raw
    }
}

impl Clone for Cursor {
    /// A copy of this cursor.
    fn clone(&self) -> (cursor: Cursor)
        ensures
            cursor == *self,
    {
        Cursor {
            index: self.index,
            history: text::copy_string(&self.history),
            thread: text::copy_string(&self.thread),
            reply_page: text::copy_string(&self.reply_page),
        }
    }
}

impl Default for Cursor {
    /// The start of a walk.
    fn default() -> (cursor: Cursor)
        ensures
            cursor@ == in_channel(0, None),
    {
        Cursor::new(0, None)
    }
}

// ---- laws ----

/// A position that is stored is read back as it was. Its last field may even hold the mark.
pub proof fn cursor_reads_back(position: Position)
    requires
        readable(position),
    ensures
        position_in(Some(position_text(position))) == position,
{
    let number = text::decimal(position.index as nat);
    let history = or_empty(position.history);
    let thread = or_empty(position.thread);
    let reply_page = or_empty(position.reply_page);
    let after_history = thread.push('|') + reply_page;
    let after_index = history.push('|') + after_history;
    text::decimal_lacks(position.index as nat, '|');
    text::decimal_parses(position.index as nat, usize::MAX as nat);
    text::split_first_of_joined(number, '|', after_index);
    text::split_first_of_joined(history, '|', after_history);
    text::split_first_of_joined(thread, '|', reply_page);
    let back = position_in(Some(position_text(position)));
    assert(next_field(position_text(position)) == (number, Some(after_index)));
    assert(back.history == position.history);
    assert(back.thread == position.thread);
    assert(back.reply_page == position.reply_page);
}

/// Whatever a cursor holds, the position it names can be stored.
pub proof fn named_position_is_readable(raw: Option<Seq<char>>)
    ensures
        readable(position_in(raw)),
{
    if let Some(raw) = raw {
        let after_index = next_field(raw).1;
        let after_history = optional_field(after_index).1;
        if let Some(rest) = after_index {
            first_field_holds_no_mark(rest);
        }
        if let Some(rest) = after_history {
            first_field_holds_no_mark(rest);
        }
    }
}

/// The text up to the first mark holds none.
proof fn first_field_holds_no_mark(text: Seq<char>)
    ensures
        !next_field(text).0.contains('|'),
{
    text::field_end_is_first(text, '|');
    let field = next_field(text).0;
    assert forall|i: int| 0 <= i < field.len() implies field[i] != '|' by {
        assert(field[i] == text[i]);
    }
}

/// A cursor with only an index, or only an index and a history, reads as one that is not in a
/// thread.
pub proof fn short_cursor_is_in_no_thread(index: usize, history: Seq<char>)
    requires
        !history.contains('|'),
    ensures
        position_in(Some(text::decimal(index as nat))) == in_channel(index, None),
        position_in(Some(text::decimal(index as nat).push('|') + history)) == in_channel(
            index,
            unless_empty(history),
        ),
{
    let number = text::decimal(index as nat);
    text::decimal_lacks(index as nat, '|');
    text::decimal_parses(index as nat, usize::MAX as nat);
    text::field_end_is_first(number, '|');
    assert(text::split_first(number, '|') is None) by {
        if text::field_end(number, '|') < number.len() {
            assert(number.contains(number[text::field_end(number, '|')]));
        }
    }
    text::split_first_of_joined(number, '|', history);
    text::field_end_is_first(history, '|');
    assert(text::split_first(history, '|') is None) by {
        if text::field_end(history, '|') < history.len() {
            assert(history.contains(history[text::field_end(history, '|')]));
        }
    }
}

/// A cursor whose index is no number restarts the walk, whatever else it holds.
pub proof fn unreadable_index_restarts(raw: Seq<char>)
    requires
        text::parsed(next_field(raw).0, usize::MAX as nat) is None,
    ensures
        position_in(Some(raw)) == position_in(None),
        position_in(None) == in_channel(0, None),
{
}

} // verus!
