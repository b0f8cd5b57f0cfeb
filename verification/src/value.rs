//! JSON values, and what serde_json computes of them.

use vstd::prelude::*;

use crate::text;

verus! {

/// A JSON value.
///
/// An object is a list of members. Where a key is listed more than once, the last member with it
/// is the one that counts.
#[derive(Debug)]
pub enum Json {
    Null,
    Bool(bool),
    Number(serde_json::Number),
    Text(String),
    Array(Vec<Json>),
    Object(Vec<(String, Json)>),
}

/// What a JSON value says. A number is its text.
#[verifier::ext_equal]
pub enum JsonView {
    Null,
    Bool(bool),
    Number(Seq<char>),
    Text(Seq<char>),
    Array(Seq<JsonView>),
    Object(Map<Seq<char>, JsonView>),
}

/// The members of an object by key: the last one listed for each.
pub open spec fn members(list: Seq<(Seq<char>, JsonView)>) -> Map<Seq<char>, JsonView>
    decreases list.len(),
{
    if list.len() == 0 {
        Map::empty()
    } else {
        members(list.drop_last()).insert(list.last().0, list.last().1)
    }
}

impl Json {
    /// What this value says.
    pub open spec fn says(self) -> JsonView
        decreases self, 1int,
    {
        match self {
            Json::Null => JsonView::Null,
            Json::Bool(b) => JsonView::Bool(b),
            Json::Number(n) => JsonView::Number(number_text(n)),
            Json::Text(text) => JsonView::Text(text@),
            Json::Array(_) => JsonView::Array(self.elements()),
            Json::Object(_) => JsonView::Object(members(self.listed())),
        }
    }

    /// What each element of an array says.
    pub open spec fn elements(self) -> Seq<JsonView>
        decreases self, 0int,
    {
        match self {
            Json::Array(items) => Seq::new(
                items@.len(),
                |i: int|
                    if 0 <= i < items@.len() {
                        items@[i].says()
                    } else {
                        JsonView::Null
                    },
            ),
            _ => Seq::empty(),
        }
    }

    /// The key of each member of an object as it is listed, and what its value says.
    pub open spec fn listed(self) -> Seq<(Seq<char>, JsonView)>
        decreases self, 0int,
    {
        match self {
            Json::Object(list) => Seq::new(
                list@.len(),
                |i: int|
                    if 0 <= i < list@.len() {
                        (list@[i].0@, list@[i].1.says())
                    } else {
                        (Seq::empty(), JsonView::Null)
                    },
            ),
            _ => Seq::empty(),
        }
    }
}

/// The members of an object; of any other value, none.
pub open spec fn object_members(value: JsonView) -> Map<Seq<char>, JsonView> {
    match value {
        JsonView::Object(map) => map,
        _ => Map::empty(),
    }
}

impl View for Json {
    type V = JsonView;

    open spec fn view(&self) -> JsonView {
        self.says()
    }
}

/// A JSON number as serde_json holds it.
#[verifier::external_type_specification]
#[verifier::external_body]
pub struct ExNumber(serde_json::Number);

/// A JSON value as serde_json holds it.
#[verifier::external_type_specification]
#[verifier::external_body]
pub struct ExValue(serde_json::Value);

/// The text that serde_json writes for a number.
pub uninterp spec fn number_text(number: serde_json::Number) -> Seq<char>;

/// What a value of serde_json holds.
pub uninterp spec fn held(value: serde_json::Value) -> JsonView;

/// The compact text that serde_json writes for a value. Its map sorts the members of an object by
/// key, so the text depends on nothing but what the value says.
pub uninterp spec fn json_text(value: JsonView) -> Seq<char>;

/// `serde_json::Number::to_string`: the text of a number.
#[verifier::external_body]
pub(crate) fn text_of_number(number: &serde_json::Number) -> (text: String)
    ensures
        text@ == number_text(*number),
{
    number.to_string()
}

/// `serde_json::Number::from` of a `u64`: a number whose text is its decimal digits.
#[verifier::external_body]
fn whole_number(n: u64) -> (number: serde_json::Number)
    ensures
        number_text(number) == text::decimal(n as nat),
{
    serde_json::Number::from(n)
}

/// A value that has no values in it.
enum Leaf<'a> {
    Null,
    Bool(bool),
    Number(&'a serde_json::Number),
    Text(String),
}

impl<'a> Leaf<'a> {
    /// What this value says.
    spec fn says(self) -> JsonView {
        match self {
            Leaf::Null => JsonView::Null,
            Leaf::Bool(b) => JsonView::Bool(b),
            Leaf::Number(n) => JsonView::Number(number_text(*n)),
            Leaf::Text(text) => JsonView::Text(text@),
        }
    }
}

/// The variants of `serde_json::Value` that have no values in them.
#[verifier::external_body]
fn leaf_value(leaf: Leaf) -> (value: serde_json::Value)
    ensures
        held(value) == leaf.says(),
{
    match leaf {
        Leaf::Null => serde_json::Value::Null,
        Leaf::Bool(b) => serde_json::Value::Bool(b),
        Leaf::Number(n) => serde_json::Value::Number(n.clone()),
        Leaf::Text(text) => serde_json::Value::String(text),
    }
}

/// What each value of a list holds.
spec fn all_held(items: Seq<serde_json::Value>) -> Seq<JsonView> {
    Seq::new(items.len(), |i: int| held(items[i]))
}

/// `serde_json::Value::Array`: the array of `items`.
#[verifier::external_body]
fn array_value(items: Vec<serde_json::Value>) -> (value: serde_json::Value)
    ensures
        held(value) == JsonView::Array(all_held(items@)),
{
    serde_json::Value::Array(items)
}

/// `serde_json::Map::new`, as a value: the object without members.
#[verifier::external_body]
fn empty_object() -> (value: serde_json::Value)
    ensures
        held(value) == JsonView::Object(Map::empty()),
{
    serde_json::Value::Object(serde_json::Map::new())
}

/// `IndexMut` of `serde_json::Value` by a key: an object is given the member, in place of one it
/// had with that key. On a value that is neither an object nor null it panics.
#[verifier::external_body]
fn put(value: &mut serde_json::Value, key: &str, member: serde_json::Value)
    requires
        held(*old(value)) is Object,
    ensures
        held(*final(value)) == JsonView::Object(
            held(*old(value))->Object_0.insert(key@, held(member)),
        ),
{
    value[key] = member;
}

/// A value of serde_json with its outermost level told apart.
enum Parts<'a> {
    Null,
    Bool(bool),
    Number(serde_json::Number),
    Text(String),
    Array(&'a Vec<serde_json::Value>),
    Object(Vec<(&'a String, &'a serde_json::Value)>),
}

/// The keys of a list of members, and what their values hold.
spec fn members_held(list: Seq<(&String, &serde_json::Value)>) -> Seq<
    (Seq<char>, JsonView),
> {
    Seq::new(list.len(), |i: int| (list[i].0@, held(*list[i].1)))
}

/// Whether no two members of a list have the same key.
spec fn keys_differ(list: Seq<(Seq<char>, JsonView)>) -> bool {
    forall|i: int, j: int|
        0 <= i < j < list.len() ==> (#[trigger] list[i]).0 != (#[trigger] list[j]).0
}

impl<'a> Parts<'a> {
    /// What these parts say.
    spec fn says(self) -> JsonView {
        match self {
            Parts::Null => JsonView::Null,
            Parts::Bool(b) => JsonView::Bool(b),
            Parts::Number(n) => JsonView::Number(number_text(n)),
            Parts::Text(text) => JsonView::Text(text@),
            Parts::Array(items) => JsonView::Array(all_held(items@)),
            Parts::Object(list) => JsonView::Object(members(members_held(list@))),
        }
    }
}

/// The variants of `serde_json::Value`, and `serde_json::Map::iter`, which lists the members of an
/// object, each key once.
#[verifier::external_body]
fn parts_of(value: &serde_json::Value) -> (parts: Parts<'_>)
    ensures
        parts.says() == held(*value),
        parts matches Parts::Object(list) ==> keys_differ(members_held(list@)),
{
    match value {
        serde_json::Value::Null => Parts::Null,
        serde_json::Value::Bool(b) => Parts::Bool(*b),
        serde_json::Value::Number(n) => Parts::Number(n.clone()),
        serde_json::Value::String(text) => Parts::Text(text.clone()),
        serde_json::Value::Array(items) => Parts::Array(items),
        serde_json::Value::Object(map) => Parts::Object(map.iter().collect()),
    }
}

/// `serde_json::Value::pointer`: the value that a JSON Pointer addresses, or `None` when it
/// addresses none.
#[verifier::external_body]
pub(crate) fn find_pointer<'a>(value: &'a serde_json::Value, pointer: &str) -> (found: Option<
    &'a serde_json::Value,
>)
    ensures
        match found {
            Some(found) => at_pointer(held(*value), pointer@) == Some(held(*found)),
            None => at_pointer(held(*value), pointer@) is None,
        },
{
    value.pointer(pointer)
}

/// `serde_json::Value::to_string`: the compact JSON text of a value.
#[verifier::external_body]
fn text_of_value(value: &serde_json::Value) -> (text: String)
    ensures
        text@ == json_text(held(*value)),
{
    value.to_string()
}

/// There are finitely many members in an object.
proof fn members_are_finite(list: Seq<(Seq<char>, JsonView)>)
    ensures
        members(list).dom().finite(),
    decreases list.len(),
{
    if list.len() > 0 {
        members_are_finite(list.drop_last());
    }
}

/// Where no two members have the same key, each counts.
proof fn each_member_counts(list: Seq<(Seq<char>, JsonView)>, i: int)
    requires
        keys_differ(list),
        0 <= i < list.len(),
    ensures
        members(list).contains_key(list[i].0),
        members(list)[list[i].0] == list[i].1,
    decreases list.len(),
{
    if i < list.len() - 1 {
        each_member_counts(list.drop_last(), i);
        assert(list[i].0 != list[list.len() - 1].0);
    }
}

/// The value of serde_json that holds what `json` says.
pub(crate) fn to_value(json: &Json) -> (value: serde_json::Value)
    ensures
        held(value) == json@,
    decreases json,
{
    match json {
        Json::Null => leaf_value(Leaf::Null),
        Json::Bool(b) => leaf_value(Leaf::Bool(*b)),
        Json::Number(n) => leaf_value(Leaf::Number(n)),
        Json::Text(text) => leaf_value(Leaf::Text(text.clone())),
        Json::Array(items) => {
            let mut list: Vec<serde_json::Value> = Vec::new();
            let mut i: usize = 0;
            while i < items.len()
                invariant
                    *json == Json::Array(*items),
                    i <= items@.len(),
                    list@.len() == i,
                    forall|k: int| 0 <= k < i ==> held(#[trigger] list@[k]) == items@[k]@,
                decreases items@.len() - i,
            {
                let item = &items[i];
                assert(decreases_to!(*json => (*json)->Array_0));
                assert(decreases_to!(*items => items[i as int]));
                list.push(to_value(item));
                i += 1;
            }
            assert(all_held(list@) == json.elements());
            array_value(list)
        },
        Json::Object(list) => {
            let ghost listed = json.listed();
            let mut object = empty_object();
            let mut i: usize = 0;
            assert(members(listed.take(0)) == Map::<Seq<char>, JsonView>::empty());
            while i < list.len()
                invariant
                    *json == Json::Object(*list),
                    listed == json.listed(),
                    i <= list@.len(),
                    held(object) == JsonView::Object(members(listed.take(i as int))),
                decreases list@.len() - i,
            {
                put(&mut object, list[i].0.as_str(), to_value(&list[i].1));
                assert(listed.take(i + 1).drop_last() == listed.take(i as int));
                i += 1;
            }
            assert(listed.take(i as int) == listed);
            object
        },
    }
}

/// The `Json` that says what a value of serde_json holds.
pub(crate) fn from_value(value: &serde_json::Value) -> (json: Json)
    ensures
        json@ == held(*value),
    decreases held(*value),
{
    match parts_of(value) {
        Parts::Null => Json::Null,
        Parts::Bool(b) => Json::Bool(b),
        Parts::Number(n) => Json::Number(n),
        Parts::Text(text) => Json::Text(text),
        Parts::Array(items) => {
            let mut list: Vec<Json> = Vec::new();
            let mut i: usize = 0;
            while i < items.len()
                invariant
                    held(*value) == JsonView::Array(all_held(items@)),
                    i <= items@.len(),
                    list@.len() == i,
                    forall|k: int| 0 <= k < i ==> (#[trigger] list@[k])@ == held(items@[k]),
                decreases items@.len() - i,
            {
                let item = &items[i];
                proof {
                    let elements = held(*value)->Array_0;
                    assert(elements[i as int] == held(*item));
                    assert(decreases_to!(elements => elements[i as int]));
                    assert(decreases_to!(held(*value) => held(*value)->Array_0));
                }
                list.push(from_value(item));
                i += 1;
            }
            let json = Json::Array(list);
            assert(json.elements() == all_held(items@));
            json
        },
        Parts::Object(entries) => {
            let ghost said = members_held(entries@);
            let mut list: Vec<(String, Json)> = Vec::new();
            let mut i: usize = 0;
            while i < entries.len()
                invariant
                    said == members_held(entries@),
                    held(*value) == JsonView::Object(members(said)),
                    keys_differ(said),
                    i <= entries@.len(),
                    list@.len() == i,
                    forall|k: int|
                        0 <= k < i ==> (#[trigger] list@[k]).0@ == said[k].0 && list@[k].1@
                            == said[k].1,
                decreases entries@.len() - i,
            {
                proof {
                    members_are_finite(said);
                    each_member_counts(said, i as int);
                    assert(decreases_to!(members(said) => members(said)[said[i as int].0]));
                    assert(decreases_to!(held(*value) => held(*value)->Object_0));
                }
                let (key, member) = entries[i];
                list.push((key.clone(), from_value(member)));
                i += 1;
            }
            let json = Json::Object(list);
            assert(json.listed() == said);
            json
        },
    }
}

impl Json {
    /// A JSON number that is a whole number.
    pub fn whole(n: u64) -> (json: Json)
        ensures
            json@ == JsonView::Number(text::decimal(n as nat)),
    {
        Json::Number(whole_number(n))
    }

    /// A JSON string.
    pub fn text(text: &str) -> (json: Json)
        ensures
            json@ == JsonView::Text(text@),
    {
        Json::Text(text.to_owned())
    }

    /// The value that a JSON Pointer addresses.
    pub fn pointer(&self, pointer: &str) -> (found: Option<Json>)
        ensures
            match found {
                Some(found) => at_pointer(self@, pointer@) == Some(found@),
                None => at_pointer(self@, pointer@) is None,
            },
    {
        let value = to_value(self);
        match find_pointer(&value, pointer) {
            Some(found) => Some(from_value(found)),
            None => None,
        }
    }

    /// The compact JSON text of this value.
    pub fn to_text(&self) -> (text: String)
        ensures
            text@ == json_text(self@),
    {
        let value = to_value(self);
        text_of_value(&value)
    }

    /// The member of an object with the key `key`.
    pub fn get(&self, key: &str) -> (found: Option<&Json>)
        ensures
            match found {
                Some(found) => self@ is Object && self@->Object_0.contains_key(key@)
                    && self@->Object_0[key@] == found@,
                None => self@ is Object ==> !self@->Object_0.contains_key(key@),
            },
    {
        match self {
            Json::Object(list) => {
                let ghost views = self.listed();
                assert(views.take(views.len() as int) == views);
                let mut i: usize = list.len();
                while i > 0
                    invariant
                        i <= list@.len(),
                        *self == Json::Object(*list),
                        views == self.listed(),
                        self@ == JsonView::Object(members(views)),
                        members(views).contains_key(key@) == members(
                            views.take(i as int),
                        ).contains_key(key@),
                        members(views.take(i as int)).contains_key(key@) ==> members(views)[key@]
                            == members(views.take(i as int))[key@],
                    decreases i,
                {
                    i -= 1;
                    assert(views.take(i + 1).drop_last() == views.take(i as int));
                    if text::same_text(list[i].0.as_str(), key) {
                        return Some(&list[i].1);
                    }
                }
                None
            },
            _ => None,
        }
    }

    /// Give an object the member `value` with the key `key`, in place of one it had. Null becomes
    /// an object with that member alone.
    pub fn set(&mut self, key: &str, value: Json)
        requires
            old(self)@ is Object || old(self)@ is Null,
        ensures
            final(self)@ == JsonView::Object(object_members(old(self)@).insert(key@, value@)),
    {
        if let Json::Null = self {
            *self = Json::Object(Vec::new());
            assert(self@->Object_0 == Map::<Seq<char>, JsonView>::empty());
        }
        let ghost before = *self;
        match self {
            Json::Object(list) => {
                list.push((key.to_owned(), value));
                proof {
                    let after = Json::Object(*list);
                    assert(after.listed().drop_last() == before.listed());
                }
            },
            _ => {},
        }
    }
}

// ---- JSON Pointer ----

/// `token` with every `~` that `code` follows turned, together with it, into `c`.
pub open spec fn unescaped_one(token: Seq<char>, code: char, c: char) -> Seq<char>
    decreases token.len(),
{
    if token.len() == 0 {
        token
    } else if token.len() > 1 && token[0] == '~' && token[1] == code {
        seq![c] + unescaped_one(token.skip(2), code, c)
    } else {
        seq![token[0]] + unescaped_one(token.skip(1), code, c)
    }
}

/// The key that a reference token names: `~1` stands for a slash and `~0` for a tilde.
pub open spec fn unescaped(token: Seq<char>) -> Seq<char> {
    unescaped_one(unescaped_one(token, '1', '/'), '0', '~')
}

/// The member or element of `value` that `key` names. An element is named by its index in decimal
/// digits, without a leading zero.
pub open spec fn child(value: JsonView, key: Seq<char>) -> Option<JsonView> {
    match value {
        JsonView::Object(map) => if map.contains_key(key) {
            Some(map[key])
        } else {
            None
        },
        JsonView::Array(items) => if key.len() > 0 && text::all_digits(key) && (key.len() == 1
            || key[0] != '0') && text::digits_value(key) < items.len() {
            Some(items[text::digits_value(key) as int])
        } else {
            None
        },
        _ => None,
    }
}

/// The value that a JSON Pointer addresses in `value`: the empty pointer the whole of it, and a
/// slash with a reference token behind it what the rest of the pointer addresses in the child
/// that the token names.
pub open spec fn at_pointer(value: JsonView, pointer: Seq<char>) -> Option<JsonView>
    decreases pointer.len(),
{
    if pointer.len() == 0 {
        Some(value)
    } else if pointer[0] != '/' {
        None
    } else {
        let rest = pointer.skip(1);
        let end = text::field_end(rest, '/');
        match child(value, unescaped(rest.take(end))) {
            Some(child) if 0 <= end <= rest.len() => at_pointer(child, rest.skip(end)),
            _ => None,
        }
    }
}

} // verus!
