//! What holds of page reads as a whole.

use vstd::prelude::*;

use crate::clock;
use crate::pipeline::fetch;
use crate::pipeline::fetch::{DepthWindow, PageSpec, Paging};
use crate::pipeline::json;
use crate::pipeline::run;
use crate::pipeline::run::{ConnectorRecord, ProviderPage};
use crate::provider::SyncLimits;
use crate::text;
use crate::value;
use crate::value::JsonView;

verus! {

// ---- places ----

/// A path without a dot names a member by its own name, and a dotted path leads on from where its
/// first part leads.
pub proof fn dotted_path_leads_on(left: Seq<char>, right: Seq<char>)
    ensures
        json::path_pointer(left + "."@ + right) == json::path_pointer(left) + json::path_pointer(
            right,
        ),
        !left.contains('.') ==> json::path_pointer(left) == "/"@ + left,
{
    reveal_strlit(".");
    reveal_strlit("/");
    assert(json::path_pointer(left + "."@ + right) =~= json::path_pointer(left)
        + json::path_pointer(right));
    if !left.contains('.') {
        assert forall|i: int| 0 <= i < left.len() implies left[i] != '.' by {}
        assert(json::path_pointer(left) =~= "/"@ + left);
    }
}

/// A string is the scalar that is left of it without the white space around it, and so is a number
/// of its text. What is blank, and what is neither, is no scalar.
pub proof fn scalars_are_strings_and_numbers(
    before: Seq<char>,
    text: Seq<char>,
    after: Seq<char>,
    other: JsonView,
)
    requires
        text::all_white(before),
        text::all_white(after),
        text.len() > 0 ==> !text::white_space(text[0]) && !text::white_space(text.last()),
    ensures
        text.len() > 0 ==> json::scalar(JsonView::Text(before + text + after)) == Some(text),
        text.len() > 0 ==> json::scalar(JsonView::Number(before + text + after)) == Some(text),
        text.len() == 0 ==> json::scalar(JsonView::Text(before + text + after)) is None,
        other !is Text && other !is Number ==> json::scalar(other) is None,
{
    text::white_space_around_is_trimmed(before, text, after);
}

/// What is picked is the scalar at the first path that leads to one, and nothing is picked where
/// none does.
pub proof fn first_path_to_a_scalar_is_picked(value: JsonView, paths: Seq<Seq<char>>, i: int)
    requires
        0 <= i <= paths.len(),
        forall|k: int|
            0 <= k < i ==> match value::at_pointer(
                value,
                json::path_pointer(#[trigger] paths[k]),
            ) {
                Some(found) => json::scalar(found) is None,
                None => true,
            },
    ensures
        i == paths.len() ==> json::picked(value, paths) is None,
        i < paths.len() ==> (value::at_pointer(value, json::path_pointer(paths[i])) matches Some(
            found,
        ) ==> (json::scalar(found) is Some ==> json::picked(value, paths) == json::scalar(found))),
{
    let find = |path: Seq<char>| json::scalar_at(value, path);
    assert forall|k: int| 0 <= k < i implies find(#[trigger] paths[k]) is None by {}
    if i == paths.len() || find(paths[i]) is Some {
        json::found_at(paths, find, i);
    }
}

/// The items are those of the first array, the token is in the first string, the connection is the
/// first value, and the flag is the first boolean, at any of the places given. Where there is
/// none, there are no items, no token, no cursor and no flag.
pub proof fn first_of_its_kind_is_taken(value: JsonView, pointers: Seq<Seq<char>>, i: int)
    requires
        0 <= i <= pointers.len(),
    ensures
        (forall|k: int|
            0 <= k < i ==> !(value::at_pointer(value, #[trigger] pointers[k]) matches Some(
                JsonView::Array(_),
            ))) ==> (i == pointers.len() ==> json::elements_found(value, pointers).len() == 0) && (i
            < pointers.len() ==> (value::at_pointer(value, pointers[i]) matches Some(
            JsonView::Array(items),
        ) ==> json::elements_found(value, pointers) == items)),
        (forall|k: int|
            0 <= k < i ==> !(value::at_pointer(value, #[trigger] pointers[k]) matches Some(
                JsonView::Text(_),
            ))) ==> (i == pointers.len() ==> json::token_found(value, pointers) is None) && (i
            < pointers.len() ==> (value::at_pointer(value, pointers[i]) matches Some(
            JsonView::Text(text),
        ) ==> json::token_found(value, pointers) == (if text::trimmed(text).len() > 0 {
            Some(text::trimmed(text))
        } else {
            None
        }))),
        (forall|k: int|
            0 <= k < i ==> value::at_pointer(value, #[trigger] pointers[k]) is None) ==> (i
            == pointers.len() ==> json::end_cursor_found(value, pointers) is None) && (i
            < pointers.len() ==> (value::at_pointer(value, pointers[i]) matches Some(page_info)
            ==> json::end_cursor_found(value, pointers) == json::connection_cursor(page_info))),
        (forall|k: int|
            0 <= k < i ==> !(value::at_pointer(value, #[trigger] pointers[k]) matches Some(
                JsonView::Bool(_),
            ))) ==> (i == pointers.len() ==> json::flag_found(value, pointers) is None) && (i
            < pointers.len() ==> (value::at_pointer(value, pointers[i]) matches Some(
            JsonView::Bool(flag),
        ) ==> json::flag_found(value, pointers) == Some(flag))),
{
    let items = |pointer: Seq<char>| json::elements_at(value, pointer);
    let texts = |pointer: Seq<char>| json::text_at(value, pointer);
    let values = |pointer: Seq<char>| value::at_pointer(value, pointer);
    let flags = |pointer: Seq<char>| json::bool_at(value, pointer);
    if (forall|k: int| 0 <= k < i ==> items(#[trigger] pointers[k]) is None) && (i < pointers.len()
        ==> items(pointers[i]) is Some) {
        json::found_at(pointers, items, i);
    }
    if (forall|k: int| 0 <= k < i ==> texts(#[trigger] pointers[k]) is None) && (i < pointers.len()
        ==> texts(pointers[i]) is Some) {
        json::found_at(pointers, texts, i);
    }
    if (forall|k: int| 0 <= k < i ==> values(#[trigger] pointers[k]) is None) && (i
        < pointers.len() ==> values(pointers[i]) is Some) {
        json::found_at(pointers, values, i);
    }
    if (forall|k: int| 0 <= k < i ==> flags(#[trigger] pointers[k]) is None) && (i < pointers.len()
        ==> flags(pointers[i]) is Some) {
        json::found_at(pointers, flags, i);
    }
}

/// A connection goes on at its end cursor exactly while it has a next page, and that cursor is not
/// blank.
pub proof fn connection_is_followed(page_info: Map<Seq<char>, JsonView>, cursor: Seq<char>)
    requires
        page_info.contains_key("hasNextPage"@),
        page_info["hasNextPage"@] == JsonView::Bool(true),
        page_info.contains_key("endCursor"@),
        page_info["endCursor"@] == JsonView::Text(cursor),
    ensures
        text::trimmed(cursor).len() > 0 ==> json::connection_cursor(JsonView::Object(page_info))
            == Some(text::trimmed(cursor)),
        text::trimmed(cursor).len() == 0 ==> json::connection_cursor(JsonView::Object(page_info))
            is None,
{
}

/// A page token is looked for in five places, those of the outer envelopes first in each spelling.
pub proof fn page_token_has_five_places()
    ensures
        json::page_token_pointers().len() == 5,
        json::page_token_pointers()[0] == "/data/nextPageToken"@,
        json::page_token_pointers()[1] == "/nextPageToken"@,
        json::page_token_pointers()[2] == "/data/data/nextPageToken"@,
        json::page_token_pointers()[3] == "/data/next_page_token"@,
        json::page_token_pointers()[4] == "/next_page_token"@,
{
}

/// An object has the members that are listed of it, the last one listed for each key, and nothing
/// but an object has members.
pub proof fn last_member_listed_counts(
    list: Seq<(Seq<char>, JsonView)>,
    i: int,
    key: Seq<char>,
    other: JsonView,
)
    ensures
        0 <= i < list.len() && unnamed_from(list, i + 1, list[i].0) ==> json::member(
            JsonView::Object(value::members(list)),
            list[i].0,
        ) == Some(list[i].1),
        unnamed_from(list, 0, key) ==> json::member(
            JsonView::Object(value::members(list)),
            key,
        ) is None,
        other !is Object ==> json::member(other, key) is None,
    decreases list.len(),
{
    if list.len() > 0 {
        let shorter = list.drop_last();
        assert(list.last() == list[list.len() - 1]);
        last_member_listed_counts(shorter, i, key, other);
        assert forall|name: Seq<char>, from: int|
            0 <= from && #[trigger] unnamed_from(list, from, name) implies unnamed_from(
            shorter,
            from,
            name,
        ) by {
            assert forall|k: int| from <= k < shorter.len() implies (#[trigger] shorter[k]).0
                != name by {
                assert(shorter[k] == list[k]);
            }
        }
        if 0 <= i < shorter.len() && unnamed_from(list, i + 1, list[i].0) {
            assert(shorter[i] == list[i]);
            assert(list[list.len() - 1].0 != list[i].0);
        }
    }
}

// ---- page numbers ----

/// Whether page `page` is the last that a provider serves, when it serves `reachable` results in
/// pages of `page_size`.
pub open spec fn out_of_reach(page: u32, first: u32, reachable: u32, page_size: usize) -> bool {
    if page >= first {
        (page - first + 1) * page_size >= reachable
    } else {
        page_size >= reachable
    }
}

/// A numbered walk does not stop early: a page with something on it is followed by the next while
/// the payload says that it is not the last, or, where the payload does not say, while pages come
/// back full, as far as the provider serves.
pub proof fn numbered_walk_does_not_stop_early(
    page: u32,
    first: u32,
    reachable: Option<u32>,
    items: nat,
    page_size: usize,
    last: Option<bool>,
)
    requires
        items > 0,
        page < u32::MAX,
        reachable matches Some(reachable) ==> !out_of_reach(page, first, reachable, page_size),
        last == Some(false) || last is None && items >= page_size,
    ensures
        fetch::number_after(page, first, reachable, items, page_size, last) == Some(
            (page + 1) as u32,
        ),
{
    assert(1 * page_size == page_size);
}

/// A numbered walk stops at a page with nothing on it, at one that the payload calls the last, at
/// a short one of which it does not say, and at the last one that the provider serves.
pub proof fn numbered_walk_stops_at_the_last_page(
    page: u32,
    first: u32,
    reachable: Option<u32>,
    items: nat,
    page_size: usize,
    last: Option<bool>,
)
    requires
        items == 0 || last == Some(true) || last is None && items < page_size || (reachable matches
            Some(reachable) && out_of_reach(page, first, reachable, page_size)),
    ensures
        fetch::number_after(page, first, reachable, items, page_size, last) is None,
{
    assert(1 * page_size == page_size);
}

/// A cursor names a page by its number, whatever white space stands around it, and one before the
/// first, like no cursor, names the first.
pub proof fn numbered_cursor_names_its_page(
    before: Seq<char>,
    number: u32,
    after: Seq<char>,
    first: u32,
)
    requires
        text::all_white(before),
        text::all_white(after),
    ensures
        ({
            let named = fetch::numbered_page(
                Some(before + text::decimal(number as nat) + after),
                first,
            );
            &&& number >= first ==> named == number
            &&& number < first ==> named == first
        }),
        fetch::numbered_page(None, first) == first,
{
    let digits = text::decimal(number as nat);
    text::decimal_is_digits(number as nat);
    text::decimal_parses(number as nat, u32::MAX as nat);
    assert(text::is_digit(digits[0]) && text::is_digit(digits[digits.len() - 1]));
    text::white_space_around_is_trimmed(before, digits, after);
}

/// A cursor that holds anything but digits, a plus sign in front and white space around them names
/// the first page, and so does one past the largest number.
pub proof fn unreadable_numbered_cursor_names_the_first_page(
    cursor: Seq<char>,
    i: int,
    number: nat,
    first: u32,
)
    ensures
        0 < i < text::trimmed(cursor).len() && !text::is_digit(text::trimmed(cursor)[i])
            ==> fetch::numbered_page(Some(cursor), first) == first,
        text::trimmed(cursor).len() == 0 ==> fetch::numbered_page(Some(cursor), first) == first,
        number > u32::MAX ==> fetch::numbered_page(Some(text::decimal(number)), first) == first,
{
    text::only_numbers_are_read(text::trimmed(cursor), 0, u32::MAX as nat);
    text::only_numbers_are_read(Seq::empty(), number, u32::MAX as nat);
    let digits = text::decimal(number);
    text::decimal_is_digits(number);
    assert(text::is_digit(digits[0]) && text::is_digit(digits[digits.len() - 1]));
    text::trimmed_of_bare(digits);
}

// ---- the request ----

/// A page read asks for as many items as the run can use: no number that it may ask for is larger.
pub proof fn page_size_is_the_largest_allowed(max_items: usize, other: usize)
    ensures
        1 <= other <= 100 && other <= max_items ==> other <= fetch::page_size_for(max_items),
        max_items == 0 ==> fetch::page_size_for(max_items) == 1,
{
}

/// Going back some days and then some more is going back all of them, and a day is as long as a
/// day.
pub proof fn days_add_up(now: int, some: u32, more: u32)
    requires
        some + more <= u32::MAX,
    ensures
        fetch::days_back(fetch::days_back(now, some), more) == fetch::days_back(
            now,
            (some + more) as u32,
        ),
        fetch::days_back(now, 1) == now - 24 * 60 * 60,
        fetch::days_back(now, 0) == now,
{
}

/// A search term of a window names the date that its window starts on: going back in time first
/// and then taking no days back gives the same term.
pub proof fn search_terms_name_the_start_of_the_window(now: int, days: u32)
    ensures
        fetch::after_query(now, days) == fetch::after_query(now - days * 86400, 0),
        fetch::updated_since(now, days) == fetch::updated_since(now - days * 86400, 0),
        "after:"@.is_prefix_of(fetch::after_query(now, 0)),
        fetch::after_query(now, 0).skip("after:"@.len() as int) == clock::utc_date_text(now, '/'),
        "updated:>="@.is_prefix_of(fetch::updated_since(now, 0)),
        fetch::updated_since(now, 0).skip("updated:>="@.len() as int) == clock::utc_date_text(
            now,
            '-',
        ),
{
    let mail = fetch::after_query(now, 0);
    let issues = fetch::updated_since(now, 0);
    assert(mail.take("after:"@.len() as int) == "after:"@);
    assert(mail.skip("after:"@.len() as int) == clock::utc_date_text(now, '/'));
    assert(issues.take("updated:>="@.len() as int) == "updated:>="@);
    assert(issues.skip("updated:>="@.len() as int) == clock::utc_date_text(now, '-'));
}

/// Every moment of a day has the date of that day, which is so many days after the first of
/// January 1970.
pub proof fn date_is_that_of_its_day(date: clock::Date, second: int, mark: char)
    requires
        clock::on_calendar(date),
        0 <= second < 86400,
    ensures
        clock::utc_date_text(clock::epoch_day(date) * 86400 + second, mark) == clock::date_text(
            date,
            mark,
        ),
{
    clock::date_of_is(date);
    assert((clock::epoch_day(date) * 86400 + second) / 86400 == clock::epoch_day(date));
}

/// The Gmail window asks for what came after its date, and touches no other argument.
pub proof fn gmail_window_sets_the_query(
    arguments: Map<Seq<char>, JsonView>,
    other: Seq<char>,
    now: int,
    days: u32,
)
    ensures
        ({
            let after = fetch::windowed(
                DepthWindow::GmailQueryAfter,
                JsonView::Object(arguments),
                now,
                days,
            );
            &&& json::member(after, "query"@) == Some(
                JsonView::Text(fetch::after_query(now, days)),
            )
            &&& other != "query"@ ==> json::member(after, other) == json::member(
                JsonView::Object(arguments),
                other,
            )
        }),
{
}

/// The GitHub window adds its term to the query, behind a space.
pub proof fn github_window_adds_its_term(arguments: JsonView, query: Seq<char>, now: int, days: u32)
    requires
        json::member(arguments, "q"@) == Some(JsonView::Text(query)),
    ensures
        json::member(
            fetch::windowed(DepthWindow::GithubUpdatedSince, arguments, now, days),
            "q"@,
        ) matches Some(JsonView::Text(narrowed)) && ({
            let end = query.len() as int;
            &&& end < narrowed.len()
            &&& narrowed.take(end) == query
            &&& narrowed[end] == ' '
            &&& narrowed.skip(end + 1) == fetch::updated_since(now, days)
        }),
{
    reveal_strlit(" ");
    let narrowed = query + " "@ + fetch::updated_since(now, days);
    assert(narrowed.take(query.len() as int) == query);
    assert(narrowed.skip(query.len() as int + 1) == fetch::updated_since(now, days));
}

/// Arguments are taken in turn, a later one in place of an earlier one of the same name, and none
/// is lost.
pub proof fn arguments_are_taken_in_turn(
    arguments: Map<Seq<char>, JsonView>,
    left: Seq<(Seq<char>, JsonView)>,
    right: Seq<(Seq<char>, JsonView)>,
)
    ensures
        fetch::extended(arguments, left + right) == fetch::extended(
            fetch::extended(arguments, left),
            right,
        ),
        left.len() == 0 ==> fetch::extended(arguments, left) == arguments,
        left.len() == 1 ==> fetch::extended(arguments, left) == arguments.insert(
            left[0].0,
            left[0].1,
        ),
    decreases right.len(),
{
    if left.len() == 1 {
        reveal_with_fuel(fetch::extended, 2);
        assert(left.last() == left[0]);
    }
    if right.len() == 0 {
        assert(left + right == left);
    } else {
        arguments_are_taken_in_turn(arguments, left, right.drop_last());
        assert((left + right).drop_last() == left + right.drop_last());
        assert((left + right).last() == right.last());
    }
}

/// Whether no argument of a list from place `from` on has the name `name`.
pub open spec fn unnamed_from(
    list: Seq<(Seq<char>, JsonView)>,
    from: int,
    name: Seq<char>,
) -> bool {
    forall|k: int| from <= k < list.len() ==> (#[trigger] list[k]).0 != name
}

proof fn extended_has(
    arguments: Map<Seq<char>, JsonView>,
    list: Seq<(Seq<char>, JsonView)>,
    name: Seq<char>,
)
    ensures
        unnamed_from(list, 0, name) ==> fetch::extended(arguments, list).contains_key(name)
            == arguments.contains_key(name) && fetch::extended(arguments, list)[name]
            == arguments[name],
        forall|i: int|
            0 <= i < list.len() && (#[trigger] list[i]).0 == name && unnamed_from(list, i + 1, name)
                ==> fetch::extended(arguments, list).contains_key(name) && fetch::extended(
                arguments,
                list,
            )[name] == list[i].1,
    decreases list.len(),
{
    if list.len() > 0 {
        let shorter = list.drop_last();
        extended_has(arguments, shorter, name);
        assert(list.last() == list[list.len() - 1]);
        if unnamed_from(list, 0, name) {
            assert forall|k: int| 0 <= k < shorter.len() implies (#[trigger] shorter[k]).0
                != name by {
                assert(shorter[k] == list[k]);
            }
        }
        assert forall|i: int|
            0 <= i < list.len() && (#[trigger] list[i]).0 == name && unnamed_from(
                list,
                i + 1,
                name,
            ) implies fetch::extended(arguments, list).contains_key(name) && fetch::extended(
            arguments,
            list,
        )[name] == list[i].1 by {
            if i < shorter.len() {
                assert(shorter[i] == list[i]);
                assert forall|k: int| i + 1 <= k < shorter.len() implies (#[trigger] shorter[k]).0
                    != name by {
                    assert(shorter[k] == list[k]);
                }
                assert(list[list.len() - 1].0 != name);
            }
        }
    }
}

/// A page read sends what it is to send: where it resumes, the arguments of this read, those that
/// every read sends, and the page size, each unless one before it here has the same name.
pub proof fn request_sends_every_argument(
    max_items: usize,
    cursor: Option<Seq<char>>,
    spec: PageSpec,
    this_read: Seq<(Seq<char>, JsonView)>,
    i: int,
)
    ensures
        ({
            let sent = fetch::unbounded_arguments(max_items, cursor, spec, this_read);
            let fixed = fetch::string_arguments(spec.fixed_arguments@);
            let free = |name: Seq<char>|
                name != spec.cursor_arg@ || cursor is None && spec.paging !is Numbered;
            &&& spec.paging !is Numbered && cursor is Some ==> sent.contains_key(spec.cursor_arg@)
                && sent[spec.cursor_arg@] == JsonView::Text(cursor->0)
            &&& spec.paging matches Paging::Numbered { first, .. } ==> sent.contains_key(
                spec.cursor_arg@,
            ) && sent[spec.cursor_arg@] == JsonView::Number(
                text::decimal(fetch::numbered_page(cursor, first) as nat),
            )
            &&& 0 <= i < this_read.len() && free(this_read[i].0) && unnamed_from(
                this_read,
                i + 1,
                this_read[i].0,
            ) ==> sent.contains_key(this_read[i].0) && sent[this_read[i].0] == this_read[i].1
            &&& 0 <= i < fixed.len() && free(fixed[i].0) && unnamed_from(this_read, 0, fixed[i].0)
                && unnamed_from(fixed, i + 1, fixed[i].0) ==> sent.contains_key(fixed[i].0)
                && sent[fixed[i].0] == JsonView::Text(spec.fixed_arguments@[i].1@) && fixed[i].0
                == spec.fixed_arguments@[i].0@
            &&& free(spec.page_size_arg@) && unnamed_from(this_read, 0, spec.page_size_arg@)
                && unnamed_from(fixed, 0, spec.page_size_arg@) ==> sent.contains_key(
                spec.page_size_arg@,
            ) && sent[spec.page_size_arg@] == JsonView::Number(
                text::decimal(fetch::page_size_for(max_items) as nat),
            )
        }),
{
    let fixed = fetch::string_arguments(spec.fixed_arguments@);
    let sized = Map::empty().insert(
        spec.page_size_arg@,
        JsonView::Number(text::decimal(fetch::page_size_for(max_items) as nat)),
    );
    let with_fixed = fetch::extended(sized, fixed);
    extended_has(sized, fixed, spec.page_size_arg@);
    extended_has(with_fixed, this_read, spec.page_size_arg@);
    if 0 <= i < this_read.len() {
        extended_has(with_fixed, this_read, this_read[i].0);
    }
    if 0 <= i < fixed.len() {
        extended_has(sized, fixed, fixed[i].0);
        extended_has(with_fixed, this_read, fixed[i].0);
    }
}

/// A page read sends nothing else.
pub proof fn request_sends_no_other_argument(
    max_items: usize,
    cursor: Option<Seq<char>>,
    spec: PageSpec,
    this_read: Seq<(Seq<char>, JsonView)>,
    name: Seq<char>,
)
    requires
        name != spec.page_size_arg@,
        name != spec.cursor_arg@ || cursor is None && spec.paging !is Numbered,
        unnamed_from(this_read, 0, name),
        unnamed_from(fetch::string_arguments(spec.fixed_arguments@), 0, name),
    ensures
        !fetch::unbounded_arguments(max_items, cursor, spec, this_read).contains_key(name),
{
    let fixed = fetch::string_arguments(spec.fixed_arguments@);
    let sized = Map::empty().insert(
        spec.page_size_arg@,
        JsonView::Number(text::decimal(fetch::page_size_for(max_items) as nat)),
    );
    extended_has(sized, fixed, name);
    extended_has(fetch::extended(sized, fixed), this_read, name);
}

/// A run with a bound, read by a toolkit with a window, sends the window, and otherwise what it
/// would send without.
pub proof fn bounded_request_sends_its_window(
    limits: SyncLimits,
    cursor: Option<Seq<char>>,
    spec: PageSpec,
    this_read: Seq<(Seq<char>, JsonView)>,
    now: int,
    days: u32,
    window: DepthWindow,
)
    requires
        limits.depth_days == Some(days),
        spec.depth_window == Some(window),
    ensures
        fetch::request_arguments(limits, cursor, spec, this_read, now) == fetch::windowed(
            window,
            fetch::request_arguments(
                SyncLimits { depth_days: None, ..limits },
                cursor,
                spec,
                this_read,
                now,
            ),
            now,
            days,
        ),
{
}

// ---- records ----

/// What an item has at the first of some paths that leads to a scalar that is not blank.
pub open spec fn field(item: JsonView, paths: Seq<&str>) -> Option<Seq<char>> {
    json::picked(item, text::texts(paths))
}

/// Whether a record carries what an item has, but for its body.
pub open spec fn carries_item(record: ConnectorRecord, item: JsonView, spec: PageSpec) -> bool {
    &&& field(item, spec.id_paths@) == Some(record.item_id@)
    &&& match field(item, spec.title_paths@) {
        Some(title) => record.title@ == title,
        None => record.title@.len() == 0,
    }
    &&& match (field(item, spec.url_paths@), record.url) {
        (Some(url), Some(carried)) => carried@ == url,
        (None, None) => true,
        _ => false,
    }
    &&& record.mime matches Some(mime) && mime@ == "text/plain"@
    &&& record.updated_at_ms is None
    &&& record.tags@.len() == 0
}

/// Whether a text is how the body of an item starts: all of it, or its first twenty thousand
/// characters.
pub open spec fn starts_body(kept: Seq<char>, whole: Seq<char>) -> bool {
    kept.is_prefix_of(whole) && (kept == whole || kept.len() == 20_000) && kept.len() <= 20_000
}

/// An item without an id is not taken. Of one with an id, the body is its first content field that
/// is not blank, or, where no content path leads to one, its whole JSON text, whatever else the
/// item has. Its version is that of its first version field.
pub proof fn item_without_a_body_carries_itself(item: JsonView, spec: PageSpec)
    ensures
        field(item, spec.id_paths@) is None ==> fetch::draft(item, spec) is None,
        field(item, spec.id_paths@) is Some ==> (fetch::draft(item, spec) matches Some(draft)
            && draft.version == field(item, spec.version_paths@) && match field(
            item,
            spec.content_paths@,
        ) {
            Some(content) => draft.raw == content,
            None => draft.raw == value::json_text(item),
        } && ((forall|k: int|
            0 <= k < spec.content_paths@.len() ==> json::scalar_at(
                item,
                (#[trigger] spec.content_paths@[k])@,
            ) is None) ==> draft.raw == value::json_text(item))),
{
    let paths = text::texts(spec.content_paths@);
    let find = |path: Seq<char>| json::scalar_at(item, path);
    if forall|k: int|
        0 <= k < spec.content_paths@.len() ==> json::scalar_at(
            item,
            (#[trigger] spec.content_paths@[k])@,
        ) is None {
        assert forall|k: int| 0 <= k < paths.len() implies find(#[trigger] paths[k]) is None by {
            assert(paths[k] == spec.content_paths@[k]@);
        }
        json::found_at(paths, find, paths.len() as int);
    }
}

/// How many of some items have an id.
pub open spec fn with_id(items: Seq<JsonView>, spec: PageSpec) -> nat {
    items.filter(|item: JsonView| field(item, spec.id_paths@) is Some).len()
}

/// How many of some items have an id and a version.
pub open spec fn with_version(items: Seq<JsonView>, spec: PageSpec) -> nat {
    items.filter(
        |item: JsonView|
            field(item, spec.id_paths@) is Some && field(item, spec.version_paths@) is Some,
    ).len()
}

/// Every item with an id is taken, in its order, and no other.
proof fn drafts_are_the_items(items: Seq<JsonView>, spec: PageSpec)
    ensures
        fetch::drafts(items, spec).len() == with_id(items, spec),
        forall|i: int|
            #![trigger items[i]]
            0 <= i < items.len() && field(items[i], spec.id_paths@) is Some ==> with_id(
                items.take(i),
                spec,
            ) < with_id(items, spec) && Some(
                fetch::drafts(items, spec)[with_id(items.take(i), spec) as int],
            ) == fetch::draft(items[i], spec),
    decreases items.len(),
{
    reveal(Seq::filter);
    if items.len() > 0 {
        let shorter = items.drop_last();
        drafts_are_the_items(shorter, spec);
        assert forall|i: int|
            #![trigger items[i]]
            0 <= i < items.len() && field(items[i], spec.id_paths@) is Some implies with_id(
            items.take(i),
            spec,
        ) < with_id(items, spec) && Some(
            fetch::drafts(items, spec)[with_id(items.take(i), spec) as int],
        ) == fetch::draft(items[i], spec) by {
            if i < shorter.len() {
                assert(shorter[i] == items[i]);
                assert(shorter.take(i) == items.take(i));
            } else {
                assert(items.take(i) == shorter);
            }
        }
    }
}

/// Every item with an id and a version has its version taken, in its order, and no other.
proof fn versions_are_the_items(items: Seq<JsonView>, spec: PageSpec)
    ensures
        fetch::draft_versions(fetch::drafts(items, spec)).len() == with_version(items, spec),
        forall|i: int|
            #![trigger items[i]]
            0 <= i < items.len() && field(items[i], spec.id_paths@) is Some && field(
                items[i],
                spec.version_paths@,
            ) is Some ==> with_version(items.take(i), spec) < with_version(items, spec)
                && fetch::draft_versions(fetch::drafts(items, spec))[with_version(
                items.take(i),
                spec,
            ) as int] == (
                field(items[i], spec.id_paths@)->0,
                field(items[i], spec.version_paths@)->0,
            ),
    decreases items.len(),
{
    reveal(Seq::filter);
    if items.len() > 0 {
        let shorter = items.drop_last();
        let before = fetch::drafts(shorter, spec);
        versions_are_the_items(shorter, spec);
        if let Some(draft) = fetch::draft(items.last(), spec) {
            assert(before.push(draft).drop_last() == before);
        }
        assert forall|i: int|
            #![trigger items[i]]
            0 <= i < items.len() && field(items[i], spec.id_paths@) is Some && field(
                items[i],
                spec.version_paths@,
            ) is Some implies with_version(items.take(i), spec) < with_version(items, spec)
            && fetch::draft_versions(fetch::drafts(items, spec))[with_version(
            items.take(i),
            spec,
        ) as int] == (
            field(items[i], spec.id_paths@)->0,
            field(items[i], spec.version_paths@)->0,
        ) by {
            if i < shorter.len() {
                assert(shorter[i] == items[i]);
                assert(shorter.take(i) == items.take(i));
            } else {
                assert(items.take(i) == shorter);
            }
        }
    }
}

/// A page has one record for each item with an id, in their order, which carries the item, and one
/// version for each of those that has one. A body that is not cleaned is that of the item, or its
/// whole JSON text where it has none, trimmed and cut, and is never empty where that is not blank.
pub proof fn page_keeps_every_item_with_an_id(
    page: ProviderPage,
    payload: JsonView,
    spec: PageSpec,
    i: int,
)
    requires
        fetch::holds_plain_items(page, payload, spec),
    ensures
        ({
            let items = json::elements_found(payload, text::texts(spec.item_pointers@));
            &&& page.records@.len() == with_id(items, spec)
            &&& page.versions@.len() == with_version(items, spec)
            &&& 0 <= i < items.len() && field(items[i], spec.id_paths@) is Some ==> ({
                let at = with_id(items.take(i), spec) as int;
                let raw = match field(items[i], spec.content_paths@) {
                    Some(content) => content,
                    None => value::json_text(items[i]),
                };
                &&& at < page.records@.len()
                &&& carries_item(page.records@[at], items[i], spec)
                &&& starts_body(page.records@[at].content@, text::trimmed(raw))
                &&& text::trimmed(raw).len() > 0 ==> page.records@[at].content@.len() > 0
            })
            &&& 0 <= i < items.len() && field(items[i], spec.id_paths@) is Some && field(
                items[i],
                spec.version_paths@,
            ) is Some ==> ({
                let at = with_version(items.take(i), spec) as int;
                &&& at < page.versions@.len()
                &&& Some(page.versions@[at].0@) == field(items[i], spec.id_paths@)
                &&& Some(page.versions@[at].1@) == field(items[i], spec.version_paths@)
            })
        }),
{
    let items = json::elements_found(payload, text::texts(spec.item_pointers@));
    let list = fetch::drafts(items, spec);
    drafts_are_the_items(items, spec);
    versions_are_the_items(items, spec);
    assert(run::pairs(page.versions@).len() == page.versions@.len());
    if 0 <= i < items.len() && field(items[i], spec.id_paths@) is Some {
        let at = with_id(items.take(i), spec) as int;
        assert(fetch::names_draft(page.records@[at], list[at]));
        text::cut_text_is_how_it_starts(text::trimmed(list[at].raw), 20_000);
        assert(page.records@[at].content@ == text::shortened(
            text::trimmed(list[at].raw),
            20_000,
        ));
        if field(items[i], spec.version_paths@) is Some {
            let at = with_version(items.take(i), spec) as int;
            assert(run::pairs(page.versions@)[at] == fetch::draft_versions(list)[at]);
        }
    }
}

/// The same of a page whose bodies may be cleaned. One that is cleaned is what `clean_body` makes
/// of the body of the item, cut.
pub proof fn cleaned_page_keeps_every_item_with_an_id<F: Fn(&str) -> String>(
    page: ProviderPage,
    payload: JsonView,
    spec: PageSpec,
    clean_body: F,
    i: int,
)
    requires
        fetch::holds_items(page, payload, spec, clean_body),
    ensures
        ({
            let items = json::elements_found(payload, text::texts(spec.item_pointers@));
            &&& page.records@.len() == with_id(items, spec)
            &&& page.versions@.len() == with_version(items, spec)
            &&& 0 <= i < items.len() && field(items[i], spec.id_paths@) is Some ==> ({
                let at = with_id(items.take(i), spec) as int;
                let raw = match field(items[i], spec.content_paths@) {
                    Some(content) => content,
                    None => value::json_text(items[i]),
                };
                let content = page.records@[at].content@;
                &&& at < page.records@.len()
                &&& carries_item(page.records@[at], items[i], spec)
                &&& !spec.clean_bodies ==> starts_body(content, text::trimmed(raw))
                &&& spec.clean_bodies ==> exists|given: &str, cleaned: String|
                    #![trigger clean_body.ensures((given,), cleaned)]
                    given@ == raw && clean_body.ensures((given,), cleaned) && starts_body(
                        content,
                        cleaned@,
                    )
            })
            &&& 0 <= i < items.len() && field(items[i], spec.id_paths@) is Some && field(
                items[i],
                spec.version_paths@,
            ) is Some ==> ({
                let at = with_version(items.take(i), spec) as int;
                &&& at < page.versions@.len()
                &&& Some(page.versions@[at].0@) == field(items[i], spec.id_paths@)
                &&& Some(page.versions@[at].1@) == field(items[i], spec.version_paths@)
            })
        }),
{
    let items = json::elements_found(payload, text::texts(spec.item_pointers@));
    let list = fetch::drafts(items, spec);
    drafts_are_the_items(items, spec);
    versions_are_the_items(items, spec);
    assert(run::pairs(page.versions@).len() == page.versions@.len());
    if 0 <= i < items.len() && field(items[i], spec.id_paths@) is Some {
        let at = with_id(items.take(i), spec) as int;
        let record = page.records@[at];
        let raw = list[at].raw;
        assert(fetch::record_of(record, list[at], spec.clean_bodies, clean_body));
        if spec.clean_bodies {
            let (given, cleaned) = choose|given: &str, cleaned: String|
                #![trigger clean_body.ensures((given,), cleaned)]
                given@ == raw && clean_body.ensures((given,), cleaned) && record.content@
                    == text::shortened(cleaned@, 20_000);
            text::cut_text_is_how_it_starts(cleaned@, 20_000);
            assert(given@ == raw && clean_body.ensures((given,), cleaned) && starts_body(
                record.content@,
                cleaned@,
            ));
        } else {
            text::cut_text_is_how_it_starts(text::trimmed(raw), 20_000);
        }
        if field(items[i], spec.version_paths@) is Some {
            let at = with_version(items.take(i), spec) as int;
            assert(run::pairs(page.versions@)[at] == fetch::draft_versions(list)[at]);
        }
    }
}

// ---- where a walk goes on ----

/// A page goes on where its toolkit says: at the payload's token, at its connection's cursor, or,
/// where pages are numbered, at the number after the page's own.
pub proof fn page_goes_on_as_its_toolkit_says(
    payload: JsonView,
    spec: PageSpec,
    page_size: usize,
    number: u32,
)
    ensures
        spec.paging matches Paging::Token { next } ==> fetch::cursor_after(
            payload,
            spec,
            page_size,
            None,
        ) == json::token_found(payload, text::texts(next@)),
        spec.paging matches Paging::PageInfo { page_info } ==> fetch::cursor_after(
            payload,
            spec,
            page_size,
            None,
        ) == json::end_cursor_found(payload, text::texts(page_info@)),
        spec.paging matches Paging::Numbered { first, reachable, last_page } ==> ({
            let items = json::elements_found(payload, text::texts(spec.item_pointers@)).len();
            let last = json::flag_found(payload, text::texts(last_page@));
            let next = fetch::number_after(number, first, reachable, items, page_size, last);
            let cursor = fetch::cursor_after(payload, spec, page_size, Some(number));
            &&& cursor is Some <==> next is Some
            &&& next is Some && number >= first ==> fetch::numbered_page(cursor, first) == next->0
        }),
{
    if let Paging::Numbered { first, reachable, last_page } = spec.paging {
        let items = json::elements_found(payload, text::texts(spec.item_pointers@)).len();
        let last = json::flag_found(payload, text::texts(last_page@));
        if let Some(next) = fetch::number_after(number, first, reachable, items, page_size, last) {
            if number >= first {
                fetch::numbered_cursor_reads_back(next, first);
            }
        }
    }
}

} // verus!
