//! Reading values out of a provider's JSON.
//!
//! Provider payloads come wrapped inconsistently: sometimes in `data`, sometimes in `data.data`,
//! sometimes in neither. So every reader here tries several places for one field, in order.

use vstd::prelude::*;

use crate::text;
use crate::value;
use crate::value::Json;
use crate::value::JsonView;

verus! {

/// What `find` finds first along `list`.
pub open spec fn first_found<A>(
    list: Seq<Seq<char>>,
    find: spec_fn(Seq<char>) -> Option<A>,
) -> Option<A>
    decreases list.len(),
{
    if list.len() == 0 {
        None
    } else {
        match find(list[0]) {
            Some(found) => Some(found),
            None => first_found(list.skip(1), find),
        }
    }
}

/// What each of `items` says.
pub open spec fn views(items: Seq<Json>) -> Seq<JsonView> {
    Seq::new(items.len(), |i: int| items[i]@)
}

// ---- scalars ----

/// `text` without the white space around it, unless nothing is left.
pub open spec fn not_blank(text: Seq<char>) -> Option<Seq<char>> {
    if text::trimmed(text).len() > 0 {
        Some(text::trimmed(text))
    } else {
        None
    }
}

/// The text of a string or of a number, trimmed, unless it is blank.
pub open spec fn scalar(found: JsonView) -> Option<Seq<char>> {
    match found {
        JsonView::Text(text) => not_blank(text),
        JsonView::Number(text) => not_blank(text),
        _ => None,
    }
}

/// The JSON Pointer of a dotted path.
pub open spec fn path_pointer(path: Seq<char>) -> Seq<char> {
    seq!['/'] + text::replaced(path, '.', '/')
}

/// The scalar that a dotted path leads to.
pub open spec fn scalar_at(value: JsonView, path: Seq<char>) -> Option<Seq<char>> {
    match value::at_pointer(value, path_pointer(path)) {
        Some(found) => scalar(found),
        None => None,
    }
}

/// The first scalar that is not blank at any of `paths`.
pub open spec fn picked(value: JsonView, paths: Seq<Seq<char>>) -> Option<Seq<char>> {
    first_found(paths, |path: Seq<char>| scalar_at(value, path))
}

/// `text` without the white space around it, unless nothing is left.
pub fn unless_blank(text: &str) -> (result: Option<String>)
    ensures
        text::string_view(result) == not_blank(text@),
{
    let trimmed = text::trim(text);
    if trimmed.as_str().is_empty() {
        None
    } else {
        Some(trimmed)
    }
}

/// The text of a string or of a number, trimmed, unless it is blank.
pub fn scalar_text(found: &Json) -> (result: Option<String>)
    ensures
        text::string_view(result) == scalar(found@),
{
    match found {
        Json::Text(text) => unless_blank(text.as_str()),
        Json::Number(number) => {
            let text = value::text_of_number(number);
            unless_blank(text.as_str())
        },
        _ => None,
    }
}

/// The first non-empty scalar at any of `paths`.
///
/// Paths are dotted and resolve through JSON Pointer, so a numeric segment indexes an array:
/// `messages.0.id` is the first message's id.
///
/// Numbers are coerced to their string form, because provider ids are inconsistently typed: the
/// same field arrives as `"123"` from one endpoint and `123` from another, and a caller building
/// a record id cannot care which.
#[must_use]
pub fn pick_str(value: &Json, paths: &[&str]) -> (result: Option<String>)
    ensures
        text::string_view(result) == picked(value@, text::texts(paths@)),
{
    let root = value::to_value(value);
    let ghost all = text::texts(paths@);
    assert(all.skip(0) == all);
    let mut i: usize = 0;
    while i < paths.len()
        invariant
            i <= paths@.len(),
            all == text::texts(paths@),
            value::held(root) == value@,
            picked(value@, all) == picked(value@, all.skip(i as int)),
        decreases paths@.len() - i,
    {
        let mut pointer = String::new();
        pointer.push('/');
        let tail = text::replace_char(paths[i], '.', '/');
        pointer.append(tail.as_str());
        assert(pointer@ == path_pointer(all[i as int]));
        assert(all.skip(i as int).skip(1) == all.skip(i + 1));
        if let Some(found) = value::find_pointer(&root, pointer.as_str()) {
            let found = value::from_value(found);
            let scalar = scalar_text(&found);
            if scalar.is_some() {
                return scalar;
            }
        }
        i += 1;
    }
    None
}

// ---- searches ----

/// Whether `read` can have `result` for the value at `pointer`.
spec fn reads_at<A, F: Fn(Json) -> Option<A>>(
    value: JsonView,
    pointer: Seq<char>,
    read: F,
    result: Option<A>,
) -> bool {
    exists|found: Json|
        #![trigger read.ensures((found,), result)]
        value::at_pointer(value, pointer) == Some(found@) && read.ensures((found,), result)
}

/// Whether there is nothing at `pointer`, or nothing that `read` has a result for.
spec fn passes_over<A, F: Fn(Json) -> Option<A>>(
    value: JsonView,
    pointer: Seq<char>,
    read: F,
) -> bool {
    value::at_pointer(value, pointer) is None || reads_at(value, pointer, read, None)
}

/// Whether `result` is the first that `read` has for a value at any of `pointers`.
spec fn searched<A, F: Fn(Json) -> Option<A>>(
    value: JsonView,
    pointers: Seq<&str>,
    read: F,
    result: Option<A>,
) -> bool {
    match result {
        Some(_) => exists|i: int|
            #![trigger pointers[i]]
            0 <= i < pointers.len() && reads_at(value, pointers[i]@, read, result) && forall|k: int|
                0 <= k < i ==> passes_over(value, #[trigger] pointers[k]@, read),
        None => forall|k: int|
            0 <= k < pointers.len() ==> passes_over(value, #[trigger] pointers[k]@, read),
    }
}

/// The first result that `read` has for a value at any of `pointers`.
fn search<A, F: Fn(Json) -> Option<A>>(
    value: &Json,
    pointers: &[&str],
    read: F,
) -> (result: Option<A>)
    requires
        forall|found: Json| read.requires((found,)),
    ensures
        searched(value@, pointers@, read, result),
{
    let root = value::to_value(value);
    let mut i: usize = 0;
    while i < pointers.len()
        invariant
            i <= pointers@.len(),
            value::held(root) == value@,
            forall|found: Json| read.requires((found,)),
            forall|k: int| 0 <= k < i ==> passes_over(value@, #[trigger] pointers@[k]@, read),
        decreases pointers@.len() - i,
    {
        if let Some(found) = value::find_pointer(&root, pointers[i]) {
            let result = read(value::from_value(found));
            assert(reads_at(value@, pointers@[i as int]@, read, result));
            if result.is_some() {
                return result;
            }
        }
        i += 1;
    }
    None
}

/// A search that finds nothing before entry `i`, and something there, finds that.
pub proof fn found_at<A>(list: Seq<Seq<char>>, find: spec_fn(Seq<char>) -> Option<A>, i: int)
    requires
        0 <= i <= list.len(),
        forall|k: int| 0 <= k < i ==> find(#[trigger] list[k]) is None,
        i < list.len() ==> find(list[i]) is Some,
    ensures
        first_found(list, find) == if i < list.len() {
            find(list[i])
        } else {
            None
        },
    decreases i,
{
    if i > 0 {
        let rest = list.skip(1);
        assert(find(list[0]) is None);
        assert forall|k: int| 0 <= k < i - 1 implies find(#[trigger] rest[k]) is None by {
            assert(rest[k] == list[k + 1]);
        }
        found_at(rest, find, i - 1);
    }
}

/// What a search finds is what `find` finds first, where `find` has at each pointer what `read`
/// has there, taken by `view`.
proof fn search_is_first_found<A, B, F: Fn(Json) -> Option<A>>(
    value: JsonView,
    pointers: Seq<&str>,
    read: F,
    result: Option<A>,
    find: spec_fn(Seq<char>) -> Option<B>,
    view: spec_fn(A) -> B,
)
    requires
        searched(value, pointers, read, result),
        forall|pointer: Seq<char>| #[trigger]
            passes_over(value, pointer, read) ==> find(pointer) is None,
        forall|pointer: Seq<char>, found: A| #[trigger]
            reads_at(value, pointer, read, Some(found)) ==> find(pointer) == Some(view(found)),
    ensures
        first_found(text::texts(pointers), find) == match result {
            Some(found) => Some(view(found)),
            None => None,
        },
{
    let all = text::texts(pointers);
    let end = match result {
        Some(_) => choose|i: int|
            #![trigger pointers[i]]
            0 <= i < pointers.len() && reads_at(value, pointers[i]@, read, result) && forall|k: int|
                0 <= k < i ==> passes_over(value, #[trigger] pointers[k]@, read),
        None => pointers.len() as int,
    };
    assert forall|k: int| 0 <= k < end implies find(#[trigger] all[k]) is None by {
        assert(passes_over(value, pointers[k]@, read));
    }
    if let Some(found) = result {
        assert(reads_at(value, pointers[end]@, read, Some(found)));
        assert(all[end] == pointers[end]@);
    }
    found_at(all, find, end);
}

// ---- arrays, tokens and flags ----

/// The elements of the array at a pointer.
pub open spec fn elements_at(value: JsonView, pointer: Seq<char>) -> Option<Seq<JsonView>> {
    match value::at_pointer(value, pointer) {
        Some(JsonView::Array(items)) => Some(items),
        _ => None,
    }
}

/// The elements of the first array at any of `pointers`.
pub open spec fn array_found(value: JsonView, pointers: Seq<Seq<char>>) -> Option<Seq<JsonView>> {
    first_found(pointers, |pointer: Seq<char>| elements_at(value, pointer))
}

/// The elements of the first array at any of `pointers`, or none.
pub open spec fn elements_found(value: JsonView, pointers: Seq<Seq<char>>) -> Seq<JsonView> {
    match array_found(value, pointers) {
        Some(items) => items,
        None => Seq::empty(),
    }
}

/// The first array at any of `pointers`.
fn find_array(value: &Json, pointers: &[&str]) -> (result: Option<Vec<Json>>)
    ensures
        match result {
            Some(items) => array_found(value@, text::texts(pointers@)) == Some(views(items@)),
            None => array_found(value@, text::texts(pointers@)) is None,
        },
{
    let read = |found: Json| -> (items: Option<Vec<Json>>)
        ensures
            match items {
                Some(items) => found@ is Array && found@->Array_0 == views(items@),
                None => found@ !is Array,
            },
        {
            let ghost says = found@;
            match found {
                Json::Array(items) => {
                    assert(says->Array_0 == views(items@));
                    Some(items)
                },
                _ => None,
            }
        };
    let result = search(value, pointers, read);
    proof {
        search_is_first_found(
            value@,
            pointers@,
            read,
            result,
            |pointer: Seq<char>| elements_at(value@, pointer),
            |items: Vec<Json>| views(items@),
        );
    }
    result
}

/// The first array at any of `pointers`, or empty.
///
/// Pointers are JSON Pointer syntax (`/data/messages`), not dotted paths: the callers of this are
/// matching envelope shapes, where the leading slash is what makes the nesting readable.
#[must_use]
pub fn first_array(value: &Json, pointers: &[&str]) -> (items: Vec<Json>)
    ensures
        views(items@) == elements_found(value@, text::texts(pointers@)),
{
    match find_array(value, pointers) {
        Some(items) => items,
        None => {
            let none: Vec<Json> = Vec::new();
            assert(views(none@) == Seq::<JsonView>::empty());
            none
        },
    }
}

/// The string at a pointer.
pub open spec fn text_at(value: JsonView, pointer: Seq<char>) -> Option<Seq<char>> {
    match value::at_pointer(value, pointer) {
        Some(JsonView::Text(text)) => Some(text),
        _ => None,
    }
}

/// The first string at any of `pointers`.
pub open spec fn text_found(value: JsonView, pointers: Seq<Seq<char>>) -> Option<Seq<char>> {
    first_found(pointers, |pointer: Seq<char>| text_at(value, pointer))
}

/// The first string at any of `pointers`, trimmed, unless that string is blank.
pub open spec fn token_found(value: JsonView, pointers: Seq<Seq<char>>) -> Option<Seq<char>> {
    match text_found(value, pointers) {
        Some(text) => not_blank(text),
        None => None,
    }
}

/// The first string at any of `pointers`, as a page token or cursor.
///
/// An empty or blank string is no token, for the reason [`next_page_token`] gives.
#[must_use]
pub fn token_at(value: &Json, pointers: &[&str]) -> (token: Option<String>)
    ensures
        text::string_view(token) == token_found(value@, text::texts(pointers@)),
{
    let read = |found: Json| -> (text: Option<String>)
        ensures
            match text {
                Some(text) => found@ == JsonView::Text(text@),
                None => found@ !is Text,
            },
        {
            match found {
                Json::Text(text) => Some(text),
                _ => None,
            }
        };
    let result = search(value, pointers, read);
    proof {
        search_is_first_found(
            value@,
            pointers@,
            read,
            result,
            |pointer: Seq<char>| text_at(value@, pointer),
            |text: String| text@,
        );
    }
    match result {
        Some(text) => unless_blank(text.as_str()),
        None => None,
    }
}

/// Where a Google-style `nextPageToken` sits, in every envelope in use.
pub open spec fn page_token_pointers() -> Seq<Seq<char>> {
    seq![
        "/data/nextPageToken"@,
        "/nextPageToken"@,
        "/data/data/nextPageToken"@,
        "/data/next_page_token"@,
        "/next_page_token"@,
    ]
}

/// A Google-style `nextPageToken` from any of the envelopes in use.
///
/// Empty tokens are dropped rather than returned: an empty string is how several providers say
/// "no more pages", and treating it as a cursor makes the next request ask for a page that does
/// not exist, forever.
#[must_use]
pub fn next_page_token(value: &Json) -> (token: Option<String>)
    ensures
        text::string_view(token) == token_found(value@, page_token_pointers()),
{
    let pointers: [&str; 5] = [
        "/data/nextPageToken",
        "/nextPageToken",
        "/data/data/nextPageToken",
        "/data/next_page_token",
        "/next_page_token",
    ];
    assert(text::texts(pointers@) == page_token_pointers());
    token_at(value, &pointers)
}

/// The first value of any kind at any of `pointers`.
pub open spec fn value_found(value: JsonView, pointers: Seq<Seq<char>>) -> Option<JsonView> {
    first_found(pointers, |pointer: Seq<char>| value::at_pointer(value, pointer))
}

/// The member of an object.
pub open spec fn member(value: JsonView, key: Seq<char>) -> Option<JsonView> {
    match value {
        JsonView::Object(map) if map.contains_key(key) => Some(map[key]),
        _ => None,
    }
}

/// Where a connection whose `pageInfo` is `page_info` goes on: its `endCursor`, while its
/// `hasNextPage` is true.
pub open spec fn connection_cursor(page_info: JsonView) -> Option<Seq<char>> {
    if member(page_info, "hasNextPage"@) == Some(JsonView::Bool(true)) {
        match member(page_info, "endCursor"@) {
            Some(JsonView::Text(text)) => not_blank(text),
            _ => None,
        }
    } else {
        None
    }
}

/// The next cursor of the connection whose `pageInfo` is the first value at any of `pointers`.
pub open spec fn end_cursor_found(value: JsonView, pointers: Seq<Seq<char>>) -> Option<Seq<char>> {
    match value_found(value, pointers) {
        Some(page_info) => connection_cursor(page_info),
        None => None,
    }
}

/// Where a connection goes on, given its `pageInfo`.
pub fn cursor_of(page_info: &Json) -> (cursor: Option<String>)
    ensures
        text::string_view(cursor) == connection_cursor(page_info@),
{
    match page_info.get("hasNextPage") {
        Some(Json::Bool(true)) => {},
        _ => return None,
    }
    match page_info.get("endCursor") {
        Some(Json::Text(text)) => unless_blank(text.as_str()),
        _ => None,
    }
}

/// A GraphQL connection's next cursor: `endCursor` from the first `pageInfo` at any of
/// `pointers`, and only while its `hasNextPage` is true.
///
/// A connection reports `endCursor` on its last page too. Following it asks for a page after the
/// end.
#[must_use]
pub fn end_cursor(value: &Json, pointers: &[&str]) -> (cursor: Option<String>)
    ensures
        text::string_view(cursor) == end_cursor_found(value@, text::texts(pointers@)),
{
    let read = |found: Json| -> (page_info: Option<Json>)
        ensures
            page_info == Some(found),
        {
            Some(found)
        };
    let result = search(value, pointers, read);
    proof {
        search_is_first_found(
            value@,
            pointers@,
            read,
            result,
            |pointer: Seq<char>| value::at_pointer(value@, pointer),
            |page_info: Json| page_info@,
        );
    }
    match result {
        Some(page_info) => cursor_of(&page_info),
        None => None,
    }
}

/// The boolean at a pointer.
pub open spec fn bool_at(value: JsonView, pointer: Seq<char>) -> Option<bool> {
    match value::at_pointer(value, pointer) {
        Some(JsonView::Bool(flag)) => Some(flag),
        _ => None,
    }
}

/// The first boolean at any of `pointers`.
pub open spec fn flag_found(value: JsonView, pointers: Seq<Seq<char>>) -> Option<bool> {
    first_found(pointers, |pointer: Seq<char>| bool_at(value, pointer))
}

/// The first boolean at any of `pointers`, such as a payload's `last_page`.
#[must_use]
pub fn flag_at(value: &Json, pointers: &[&str]) -> (flag: Option<bool>)
    ensures
        flag == flag_found(value@, text::texts(pointers@)),
{
    let read = |found: Json| -> (flag: Option<bool>)
        ensures
            match flag {
                Some(flag) => found@ == JsonView::Bool(flag),
                None => found@ !is Bool,
            },
        {
            match found {
                Json::Bool(flag) => Some(flag),
                _ => None,
            }
        };
    let result = search(value, pointers, read);
    proof {
        search_is_first_found(
            value@,
            pointers@,
            read,
            result,
            |pointer: Seq<char>| bool_at(value@, pointer),
            |flag: bool| flag,
        );
    }
    result
}

// ---- laws ----

/// What a search along a list finds is something that one of its entries leads to.
proof fn found_somewhere<A>(list: Seq<Seq<char>>, find: spec_fn(Seq<char>) -> Option<A>)
    ensures
        first_found(list, find) is Some ==> exists|i: int|
            0 <= i < list.len() && #[trigger] find(list[i]) == first_found(list, find),
    decreases list.len(),
{
    if list.len() > 0 && find(list[0]) is None {
        let rest = list.skip(1);
        found_somewhere(rest, find);
        if first_found(rest, find) is Some {
            let i = choose|i: int|
                0 <= i < rest.len() && #[trigger] find(rest[i]) == first_found(rest, find);
            assert(rest[i] == list[i + 1]);
        }
    }
}

/// Two searches that find the same at every entry find the same along the list.
proof fn found_alike<A>(
    list: Seq<Seq<char>>,
    left: spec_fn(Seq<char>) -> Option<A>,
    right: spec_fn(Seq<char>) -> Option<A>,
)
    requires
        forall|entry: Seq<char>| #[trigger] left(entry) == right(entry),
    ensures
        first_found(list, left) == first_found(list, right),
    decreases list.len(),
{
    if list.len() > 0 {
        found_alike(list.skip(1), left, right);
    }
}

/// A picked scalar is never blank, and carries no white space around it.
pub proof fn picked_is_trimmed(value: JsonView, paths: Seq<Seq<char>>)
    ensures
        picked(value, paths) matches Some(text) ==> text.len() > 0 && text::trimmed(text) == text,
{
    let find = |path: Seq<char>| scalar_at(value, path);
    found_somewhere(paths, find);
    if picked(value, paths) is Some {
        let i = choose|i: int|
            0 <= i < paths.len() && #[trigger] find(paths[i]) == first_found(paths, find);
        match value::at_pointer(value, path_pointer(paths[i])) {
            Some(JsonView::Text(text)) => text::trimmed_twice(text),
            Some(JsonView::Number(text)) => text::trimmed_twice(text),
            _ => {},
        }
    }
}

/// A member that is a number is picked exactly as the string that spells the number would be.
pub proof fn number_or_string(
    object: Map<Seq<char>, JsonView>,
    key: Seq<char>,
    spelled: Seq<char>,
    paths: Seq<Seq<char>>,
)
    ensures
        picked(JsonView::Object(object.insert(key, JsonView::Number(spelled))), paths) == picked(
            JsonView::Object(object.insert(key, JsonView::Text(spelled))),
            paths,
        ),
{
    let number = JsonView::Object(object.insert(key, JsonView::Number(spelled)));
    let string = JsonView::Object(object.insert(key, JsonView::Text(spelled)));
    let left = |path: Seq<char>| scalar_at(number, path);
    let right = |path: Seq<char>| scalar_at(string, path);
    assert forall|path: Seq<char>| #[trigger] left(path) == right(path) by {
        let pointer = path_pointer(path);
        let rest = pointer.skip(1);
        let end = text::field_end(rest, '/');
        text::field_end_is_first(rest, '/');
        let token = value::unescaped(rest.take(end));
        let below = rest.skip(end);
        assert(pointer[0] == '/');
        if token == key {
            assert(value::child(number, token) == Some(JsonView::Number(spelled)));
            assert(value::child(string, token) == Some(JsonView::Text(spelled)));
            if below.len() > 0 {
                assert(value::at_pointer(JsonView::Number(spelled), below) is None);
                assert(value::at_pointer(JsonView::Text(spelled), below) is None);
            }
        } else {
            assert(value::child(number, token) == value::child(string, token));
        }
    }
    found_alike(paths, left, right);
}

/// A token is never blank, and carries no white space around it: an empty string says that there
/// are no more pages.
pub proof fn token_is_trimmed(value: JsonView, pointers: Seq<Seq<char>>)
    ensures
        token_found(value, pointers) matches Some(token) ==> token.len() > 0 && text::trimmed(token)
            == token,
{
    if let Some(text) = text_found(value, pointers) {
        text::trimmed_twice(text);
    }
}

/// A connection whose `hasNextPage` is not true goes nowhere, whatever its `endCursor` says.
pub proof fn last_connection_page_ends(page_info: JsonView)
    requires
        member(page_info, "hasNextPage"@) != Some(JsonView::Bool(true)),
    ensures
        connection_cursor(page_info) is None,
{
}

/// A search that finds nothing at its first entry finds what it finds along the others, and one
/// that finds something there finds that: places are tried in order.
pub proof fn places_are_tried_in_order(value: JsonView, path: Seq<char>, others: Seq<Seq<char>>)
    ensures
        picked(value, seq![path] + others) == match scalar_at(value, path) {
            Some(text) => Some(text),
            None => picked(value, others),
        },
{
    assert((seq![path] + others).skip(1) == others);
}

} // verus!
