//! Reading one page from a provider, declaratively.
//!
//! Every toolkit's page read is the same five decisions (which action, where the items are, which
//! field is the id, the title, the body) differing only in the strings. A [`PageSpec`] states
//! those strings; this module does the reading. The request is made between two steps:
//! [`page_request`] says what to ask for, and [`page_reply`] reads the answer.

use vstd::prelude::*;

use crate::clock;
use crate::pipeline::json;
use crate::pipeline::run;
use crate::pipeline::run::{ConnectorRecord, ProviderPage};
use crate::provider::{Error, SyncLimits};
use crate::text;
use crate::value;
use crate::value::{Json, JsonView};

verus! {

/// How one toolkit's page read is shaped.
#[derive(Debug, Clone, Copy)]
pub struct PageSpec {
    /// The action that reads a page.
    pub action: &'static str,
    /// JSON Pointers to try for the item array, in order.
    pub item_pointers: &'static [&'static str],
    /// Dotted paths to try for an item's stable id.
    pub id_paths: &'static [&'static str],
    /// Dotted paths to try for an item's title.
    pub title_paths: &'static [&'static str],
    /// Dotted paths to try for an item's body text.
    pub content_paths: &'static [&'static str],
    /// Dotted paths to try for a canonical link back to the item.
    pub url_paths: &'static [&'static str],
    /// Dotted paths to try for an item's version, when the source reports one.
    pub version_paths: &'static [&'static str],
    /// Arguments every page read sends unchanged, as `(name, value)` pairs.
    ///
    /// For an action that reads nothing without them: GitHub's issue search rejects a request
    /// that carries no query.
    pub fixed_arguments: &'static [(&'static str, &'static str)],
    /// The argument naming how many items to return.
    pub page_size_arg: &'static str,
    /// The argument naming where to resume.
    pub cursor_arg: &'static str,
    /// How the page after this one is named.
    pub paging: Paging,
    /// How the toolkit expresses "no older than N days" on a page read, when it can. `None` reads
    /// without a lower bound whatever the limits say.
    ///
    /// A window the *provider* applies, never one applied here after the fact: reading everything
    /// and dropping the old would spend exactly the requests the bound exists to save.
    pub depth_window: Option<DepthWindow>,
    /// Whether to strip quoted chains and boilerplate from the body.
    ///
    /// True for message-shaped toolkits, where a body carries the thread it replied to and a
    /// footer repeated across every message the user has ever received. False for issue and task
    /// toolkits, whose descriptions are written once and quote nothing: running the pass there
    /// would only risk cutting a line that happens to look like a footer.
    pub clean_bodies: bool,
}

/// Longest body kept, in characters.
///
/// A cap rather than no limit: a single thread can run to hundreds of kilobytes, and one such
/// record can outweigh a hundred useful ones in both storage and the attention of anything
/// reading them back.
pub const MAX_BODY_CHARS: usize = 20_000;

/// How a toolkit names the page after the one just read.
#[derive(Debug, Clone, Copy, PartialEq, Eq)]
pub enum Paging {
    /// The payload names the next page with a token, sent back verbatim as the cursor: Gmail's
    /// `nextPageToken`, Notion's `next_cursor`.
    Token {
        /// JSON Pointers to try for the next page's token, in order.
        next: &'static [&'static str],
    },
    /// The payload is a GraphQL connection. The next page starts after its `pageInfo.endCursor`,
    /// while `pageInfo.hasNextPage` is true.
    PageInfo {
        /// JSON Pointers to try for the connection's `pageInfo`, in order.
        page_info: &'static [&'static str],
    },
    /// Pages are numbered, and the payload may not say whether another follows.
    ///
    /// A `last_page` flag is believed when the payload carries one; otherwise another page
    /// follows while pages come back full. A page with nothing on it is the last either way.
    ///
    /// GitHub's search counts from one and names no next page. It answers a page past the results
    /// it serves with an error rather than an empty page, so a walk has to stop before asking for
    /// one. `ClickUp` counts from zero and flags its last page.
    Numbered {
        /// The number of the first page.
        first: u32,
        /// Results the provider pages through at all, when it stops serving.
        reachable: Option<u32>,
        /// JSON Pointers to try for the flag the payload sets on its last page.
        last_page: &'static [&'static str],
    },
}

/// How a toolkit's page read is told to stop at an age.
///
/// One variant per provider syntax. Gmail and GitHub take search strings, so the bound is a term
/// in the query; a provider whose API has no such argument has no variant and reads unbounded.
#[derive(Debug, Clone, Copy, PartialEq, Eq)]
pub enum DepthWindow {
    /// Gmail search syntax: `query: "after:YYYY/MM/DD"`.
    GmailQueryAfter,
    /// GitHub search syntax: `updated:>=YYYY-MM-DD`, added to the `q` query.
    GithubUpdatedSince,
}

// ---- page numbers ----

/// The page a numbered cursor names, or the first.
pub open spec fn numbered_page(cursor: Option<Seq<char>>, first: u32) -> u32 {
    match cursor {
        Some(cursor) => match text::parsed(text::trimmed(cursor), u32::MAX as nat) {
            Some(number) if number >= first => number as u32,
            _ => first,
        },
        None => first,
    }
}

/// The page a numbered cursor names.
///
/// No cursor is the first page, and so is a cursor that is not a page number at or past `first`.
/// Starting that walk over costs one re-read, which the seen-set turns into skips; refusing to
/// read would stall the connection for good.
pub fn page_number(cursor: Option<&str>, first: u32) -> (number: u32)
    ensures
        number == numbered_page(text::slice_view(cursor), first),
{
    if let Some(cursor) = cursor {
        let trimmed = text::trim(cursor);
        if let Some(number) = text::parse_number(trimmed.as_str(), u32::MAX as u64) {
            if number >= first as u64 {
                return number as u32;
            }
        }
    }
    first
}

/// Whether the provider serves nothing past page `page` of pages of `page_size`.
pub open spec fn reaches(page: u32, first: u32, reachable: u32, page_size: usize) -> bool {
    let pages_read: int = if page >= first {
        page - first + 1
    } else {
        1
    };
    pages_read * page_size >= reachable
}

/// The page after `page`, or `None` when `page` is the last worth asking for.
pub open spec fn number_after(
    page: u32,
    first: u32,
    reachable: Option<u32>,
    items: nat,
    page_size: usize,
    last: Option<bool>,
) -> Option<u32> {
    if items == 0 || last == Some(true) || (last is None && items < page_size) {
        None
    } else if reachable is Some && reaches(page, first, reachable->0, page_size) {
        None
    } else if page == u32::MAX {
        None
    } else {
        Some((page + 1) as u32)
    }
}

/// The page after `page`, or `None` when `page` is the last worth asking for.
///
/// A page with nothing on it is the last. A payload's `last` flag is believed when there is one;
/// without it, a short page is the last. So is a page that reaches `reachable`, since the
/// provider answers the one after with an error. A full page that happens to end the results
/// costs one empty read to discover when the payload does not say.
pub fn next_page_number(
    page: u32,
    first: u32,
    reachable: Option<u32>,
    items: usize,
    page_size: usize,
    last: Option<bool>,
) -> (next: Option<u32>)
    ensures
        next == number_after(page, first, reachable, items as nat, page_size, last),
{
    let ends = match last {
        Some(flag) => flag,
        None => items < page_size,
    };
    if items == 0 || ends {
        return None;
    }
    if let Some(reachable) = reachable {
        let pages_read: u64 = page.saturating_sub(first) as u64 + 1;
        match pages_read.checked_mul(page_size as u64) {
            Some(read) => {
                if read >= reachable as u64 {
                    return None;
                }
            },
            None => return None,
        }
    }
    page.checked_add(1)
}

// ---- the depth window ----

/// The second that is `days` days before `now`.
pub open spec fn days_back(now: int, days: u32) -> int {
    now - days * 86400
}

/// The Gmail search term for "newer than `days` days" at the second `now`.
pub open spec fn after_query(now: int, days: u32) -> Seq<char> {
    "after:"@ + clock::utc_date_text(days_back(now, days), '/')
}

/// The GitHub search term for "updated in the last `days` days" at the second `now`.
pub open spec fn updated_since(now: int, days: u32) -> Seq<char> {
    "updated:>="@ + clock::utc_date_text(days_back(now, days), '-')
}

/// The Gmail search term for "newer than `days` days" at the second `now`.
pub fn gmail_after_query_at(now: i64, days: u32) -> (term: String)
    requires
        clock::shown(now as int),
        clock::EARLIEST_SECS <= days_back(now as int, days),
    ensures
        term@ == after_query(now as int, days),
{
    let since: i64 = now - days as i64 * 86400;
    let date = clock::utc_date(since, "%Y/%m/%d");
    let mut term = "after:".to_owned();
    term.append(date.as_str());
    term
}

/// The Gmail search term for "newer than `days` days".
///
/// A calendar date in UTC rather than an epoch: Gmail reads `after:` dates in the mailbox's own
/// zone, so the window can land a few hours wide of the mark at either end. That is the right
/// side to err on for a bound whose job is to stop a years-deep backfill, not to cut a day in
/// half.
pub fn gmail_after_query(days: u32) -> (term: String)
    requires
        days <= clock::MOST_DAYS_BACK,
    ensures
        exists|now: int| clock::shown(now) && term@ == #[trigger] after_query(now, days),
{
    let now: i64 = clock::now_millis() / 1000;
    gmail_after_query_at(now, days)
}

/// The GitHub search term for "updated in the last `days` days" at the second `now`.
pub fn github_updated_since_at(now: i64, days: u32) -> (term: String)
    requires
        clock::shown(now as int),
        clock::EARLIEST_SECS <= days_back(now as int, days),
    ensures
        term@ == updated_since(now as int, days),
{
    let since: i64 = now - days as i64 * 86400;
    let date = clock::utc_date(since, "%Y-%m-%d");
    let mut term = "updated:>=".to_owned();
    term.append(date.as_str());
    term
}

/// The GitHub search term for "updated in the last `days` days".
///
/// A calendar date, as for Gmail: a bound whose job is to stop a walk through years of issues
/// does not need the hour.
pub fn github_updated_since(days: u32) -> (term: String)
    requires
        days <= clock::MOST_DAYS_BACK,
    ensures
        exists|now: int| clock::shown(now) && term@ == #[trigger] updated_since(now, days),
{
    let now: i64 = clock::now_millis() / 1000;
    github_updated_since_at(now, days)
}

/// `arguments` with the bound of a window for `days` back from `now`. The Gmail bound makes an
/// object of null. The GitHub bound is added to a query that is there, and nothing else has one.
pub open spec fn windowed(
    window: DepthWindow,
    arguments: JsonView,
    now: int,
    days: u32,
) -> JsonView {
    match window {
        DepthWindow::GmailQueryAfter => JsonView::Object(
            value::object_members(arguments).insert(
                "query"@,
                JsonView::Text(after_query(now, days)),
            ),
        ),
        DepthWindow::GithubUpdatedSince => match json::member(arguments, "q"@) {
            Some(JsonView::Text(query)) => JsonView::Object(
                value::object_members(arguments).insert(
                    "q"@,
                    JsonView::Text(query + " "@ + updated_since(now, days)),
                ),
            ),
            _ => arguments,
        },
    }
}

/// Whether a window can be added to `arguments`: Gmail's needs an object, or null to make one of.
pub open spec fn takes_window(window: DepthWindow, arguments: JsonView) -> bool {
    window is GmailQueryAfter ==> arguments is Object || arguments is Null
}

impl DepthWindow {
    /// Add the bound for `days` back from the second `now` to `arguments`.
    pub fn apply_at(self, arguments: &mut Json, now: i64, days: u32)
        requires
            takes_window(self, old(arguments)@),
            clock::shown(now as int),
            clock::EARLIEST_SECS <= days_back(now as int, days),
        ensures
            final(arguments)@ == windowed(self, old(arguments)@, now as int, days),
    {
        match self {
            DepthWindow::GmailQueryAfter => {
                let term = gmail_after_query_at(now, days);
                arguments.set("query", Json::Text(term));
            },
            DepthWindow::GithubUpdatedSince => {
                // Narrows the query the spec sends, and never stands in for one: an `updated:`
                // term on its own would search every repository on GitHub.
                let query: Option<String> = match arguments.get("q") {
                    Some(Json::Text(query)) => Some(query.clone()),
                    _ => None,
                };
                if let Some(query) = query {
                    let term = github_updated_since_at(now, days);
                    let mut bounded = query;
                    bounded.append(" ");
                    bounded.append(term.as_str());
                    arguments.set("q", Json::Text(bounded));
                }
            },
        }
    }

    /// Add the bound for `days` back from now to `arguments`.
    pub fn apply(self, arguments: &mut Json, days: u32)
        requires
            takes_window(self, old(arguments)@),
            days <= clock::MOST_DAYS_BACK,
        ensures
            exists|now: int| #[trigger]
                clock::shown(now) && final(arguments)@ == windowed(
                    self,
                    old(arguments)@,
                    now,
                    days,
                ),
    {
        let now: i64 = clock::now_millis() / 1000;
        self.apply_at(arguments, now, days);
    }
}

// ---- the request ----

/// What one page read asks for.
#[derive(Debug)]
pub struct PageRequest {
    /// The action to run.
    pub action: &'static str,
    /// The arguments to run it with.
    pub arguments: Json,
    /// How many items were asked for.
    pub page_size: usize,
    /// The page that was asked for, where pages are numbered.
    pub number: Option<u32>,
}

/// How many items a page read asks for: never more than the run can use, nor more than a hundred,
/// and at least one.
pub open spec fn page_size_for(max_items: usize) -> usize {
    if max_items < 1 {
        1
    } else if max_items > 100 {
        100
    } else {
        max_items
    }
}

/// `arguments` with each of `more` in turn, a later one in place of an earlier one of the same
/// name.
pub open spec fn extended(
    arguments: Map<Seq<char>, JsonView>,
    more: Seq<(Seq<char>, JsonView)>,
) -> Map<Seq<char>, JsonView>
    decreases more.len(),
{
    if more.len() == 0 {
        arguments
    } else {
        extended(arguments, more.drop_last()).insert(more.last().0, more.last().1)
    }
}

/// Arguments that are strings.
pub open spec fn string_arguments(list: Seq<(&'static str, &'static str)>) -> Seq<
    (Seq<char>, JsonView),
> {
    Seq::new(list.len(), |i: int| (list[i].0@, JsonView::Text(list[i].1@)))
}

/// Arguments of any kind.
pub open spec fn json_arguments(list: Seq<(&'static str, Json)>) -> Seq<(Seq<char>, JsonView)> {
    Seq::new(list.len(), |i: int| (list[i].0@, list[i].1@))
}

/// The page that a request asks for, where pages are numbered.
pub open spec fn requested_number(paging: Paging, cursor: Option<Seq<char>>) -> Option<u32> {
    match paging {
        Paging::Numbered { first, .. } => Some(numbered_page(cursor, first)),
        _ => None,
    }
}

/// The arguments of a page read before its depth window: the page size, the arguments that every
/// read sends, those of this read, and where to resume.
pub open spec fn unbounded_arguments(
    max_items: usize,
    cursor: Option<Seq<char>>,
    spec: PageSpec,
    this_read: Seq<(Seq<char>, JsonView)>,
) -> Map<Seq<char>, JsonView> {
    let sized = Map::empty().insert(
        spec.page_size_arg@,
        JsonView::Number(text::decimal(page_size_for(max_items) as nat)),
    );
    let named = extended(
        extended(sized, string_arguments(spec.fixed_arguments@)),
        this_read,
    );
    match (requested_number(spec.paging, cursor), cursor) {
        (Some(number), _) => named.insert(
            spec.cursor_arg@,
            JsonView::Number(text::decimal(number as nat)),
        ),
        (None, Some(cursor)) => named.insert(spec.cursor_arg@, JsonView::Text(cursor)),
        (None, None) => named,
    }
}

/// The arguments of a page read made at the second `now`.
pub open spec fn request_arguments(
    limits: SyncLimits,
    cursor: Option<Seq<char>>,
    spec: PageSpec,
    this_read: Seq<(Seq<char>, JsonView)>,
    now: int,
) -> JsonView {
    let unbounded = JsonView::Object(
        unbounded_arguments(limits.max_items, cursor, spec, this_read),
    );
    match (limits.depth_days, spec.depth_window) {
        (Some(days), Some(window)) => windowed(window, unbounded, now, days),
        _ => unbounded,
    }
}

/// Whether the window of a page read, if it has one, reaches no further back than `days_allowed`.
pub open spec fn depth_within(limits: SyncLimits, spec: PageSpec, days_allowed: int) -> bool {
    limits.depth_days is Some && spec.depth_window is Some ==> limits.depth_days->0 <= days_allowed
}

impl PageRequest {
    /// Whether this is the request of a page read made at the second `now`.
    pub open spec fn asks(
        self,
        limits: SyncLimits,
        cursor: Option<Seq<char>>,
        spec: PageSpec,
        this_read: Seq<(Seq<char>, JsonView)>,
        now: int,
    ) -> bool {
        &&& self.action == spec.action
        &&& self.page_size == page_size_for(limits.max_items)
        &&& self.number == requested_number(spec.paging, cursor)
        &&& self.arguments@ == request_arguments(limits, cursor, spec, this_read, now)
    }
}

/// The request of a page read without its depth window.
fn unbounded_request(
    max_items: usize,
    cursor: Option<&str>,
    spec: &PageSpec,
    this_read: Vec<(&'static str, Json)>,
) -> (request: PageRequest)
    ensures
        request.action == spec.action,
        request.page_size == page_size_for(max_items),
        request.number == requested_number(spec.paging, text::slice_view(cursor)),
        request.arguments@ == JsonView::Object(
            unbounded_arguments(
                max_items,
                text::slice_view(cursor),
                *spec,
                json_arguments(this_read@),
            ),
        ),
{
    // Never ask for more than the run can use: a page of a hundred when the limit leaves room for
    // three is three ingested and ninety-seven paid for.
    let page_size: usize = if max_items < 1 {
        1
    } else if max_items > 100 {
        100
    } else {
        max_items
    };
    let mut arguments = Json::Object(Vec::new());
    assert(arguments@->Object_0 == Map::<Seq<char>, JsonView>::empty());
    arguments.set(spec.page_size_arg, Json::whole(page_size as u64));
    let ghost sized = arguments@->Object_0;

    let ghost fixed = string_arguments(spec.fixed_arguments@);
    assert(extended(sized, fixed.take(0)) == sized);
    let mut i: usize = 0;
    while i < spec.fixed_arguments.len()
        invariant
            i <= spec.fixed_arguments@.len(),
            fixed == string_arguments(spec.fixed_arguments@),
            arguments@ == JsonView::Object(extended(sized, fixed.take(i as int))),
        decreases spec.fixed_arguments@.len() - i,
    {
        let (name, value) = spec.fixed_arguments[i];
        arguments.set(name, Json::text(value));
        assert(fixed.take(i + 1).drop_last() == fixed.take(i as int));
        i += 1;
    }
    assert(fixed.take(i as int) == fixed);
    let ghost with_fixed = arguments@->Object_0;

    let ghost extra = json_arguments(this_read@);
    assert(extended(with_fixed, extra.take(0)) == with_fixed);
    let mut rest = this_read;
    let ghost mut done: int = 0;
    while rest.len() > 0
        invariant
            0 <= done <= extra.len(),
            json_arguments(rest@) == extra.skip(done),
            arguments@ == JsonView::Object(extended(with_fixed, extra.take(done))),
        decreases rest@.len(),
    {
        let ghost before = rest@;
        assert(json_arguments(before).len() == extra.skip(done).len());
        assert(json_arguments(before)[0] == extra[done]);
        let (name, value) = rest.remove(0);
        arguments.set(name, value);
        proof {
            assert(extra.take(done + 1).drop_last() == extra.take(done));
            assert(json_arguments(rest@) == json_arguments(before).skip(1));
            assert(extra.skip(done).skip(1) == extra.skip(done + 1));
            done = done + 1;
        }
    }
    assert(extra.take(done) == extra) by {
        assert(json_arguments(rest@).len() == 0);
    }

    let number: Option<u32> = match spec.paging {
        Paging::Token { .. } | Paging::PageInfo { .. } => {
            if let Some(cursor) = cursor {
                arguments.set(spec.cursor_arg, Json::text(cursor));
            }
            None
        },
        Paging::Numbered { first, .. } => {
            let number = page_number(cursor, first);
            arguments.set(spec.cursor_arg, Json::whole(number as u64));
            Some(number)
        },
    };
    PageRequest { action: spec.action, arguments, page_size, number }
}

/// The request of one page read of `spec`, made at the second `now`.
pub fn page_request_at(
    limits: &SyncLimits,
    cursor: Option<&str>,
    spec: &PageSpec,
    this_read: Vec<(&'static str, Json)>,
    now: i64,
) -> (request: PageRequest)
    requires
        clock::shown(now as int),
        depth_within(*limits, *spec, (now - clock::EARLIEST_SECS) / 86400),
    ensures
        request.asks(
            *limits,
            text::slice_view(cursor),
            *spec,
            json_arguments(this_read@),
            now as int,
        ),
{
    let mut request = unbounded_request(limits.max_items, cursor, spec, this_read);
    if let (Some(days), Some(window)) = (limits.depth_days, spec.depth_window) {
        window.apply_at(&mut request.arguments, now, days);
    }
    request
}

/// The request of one page read of `spec`: where `cursor` resumes, and with the arguments of
/// `this_read`, which are known only when the page is read, such as the workspace a `ClickUp`
/// walk has reached.
pub fn page_request(
    limits: &SyncLimits,
    cursor: Option<&str>,
    spec: &PageSpec,
    this_read: Vec<(&'static str, Json)>,
) -> (request: PageRequest)
    requires
        depth_within(*limits, *spec, clock::MOST_DAYS_BACK as int),
    ensures
        exists|now: int| #[trigger]
            clock::shown(now) && request.asks(
                *limits,
                text::slice_view(cursor),
                *spec,
                json_arguments(this_read@),
                now,
            ),
{
    let mut request = unbounded_request(limits.max_items, cursor, spec, this_read);
    let mut now: i64 = 0;
    if let (Some(days), Some(window)) = (limits.depth_days, spec.depth_window) {
        now = clock::now_millis() / 1000;
        window.apply_at(&mut request.arguments, now, days);
    }
    assert(clock::shown(now as int));
    request
}

// ---- the reply ----

/// Whether `kept` is what is ingested of the text `raw`: what `clean_body` makes of it, or else
/// what trimming leaves of it, cut to the longest body kept.
pub open spec fn body_of<F: Fn(&str) -> String>(
    raw: Seq<char>,
    clean: bool,
    clean_body: F,
    kept: Seq<char>,
) -> bool {
    if clean {
        exists|given: &str, cleaned: String|
            #![trigger clean_body.ensures((given,), cleaned)]
            given@ == raw && clean_body.ensures((given,), cleaned) && kept == text::shortened(
                cleaned@,
                MAX_BODY_CHARS as nat,
            )
    } else {
        kept == text::shortened(text::trimmed(raw), MAX_BODY_CHARS as nat)
    }
}

/// Prepare one item's text for ingestion. `clean_body` is the pass that strips quoted chains and
/// boilerplate, for the toolkits whose bodies carry them.
pub fn body<F: Fn(&str) -> String>(raw: &str, clean: bool, clean_body: &F) -> (kept: String)
    requires
        clean ==> clean_body.requires((raw,)),
    ensures
        body_of(raw@, clean, *clean_body, kept@),
{
    let prepared = if clean {
        clean_body(raw)
    } else {
        text::trim(raw)
    };
    text::truncate(prepared.as_str(), MAX_BODY_CHARS)
}

/// What a page read takes from one item.
pub struct Draft {
    pub item_id: Seq<char>,
    pub title: Seq<char>,
    /// The body before it is prepared for ingestion.
    pub raw: Seq<char>,
    pub url: Option<Seq<char>>,
    pub version: Option<Seq<char>>,
}

/// `text`, or `other` when there is none.
pub open spec fn or_else(text: Option<Seq<char>>, other: Seq<char>) -> Seq<char> {
    match text {
        Some(text) => text,
        None => other,
    }
}

/// What is taken from an item, if it has an id. An item without a recognizable body field has its
/// whole JSON text for a body.
pub open spec fn draft(item: JsonView, spec: PageSpec) -> Option<Draft> {
    match json::picked(item, text::texts(spec.id_paths@)) {
        Some(item_id) => Some(
            Draft {
                item_id,
                title: or_else(
                    json::picked(item, text::texts(spec.title_paths@)),
                    Seq::empty(),
                ),
                raw: or_else(
                    json::picked(item, text::texts(spec.content_paths@)),
                    value::json_text(item),
                ),
                url: json::picked(item, text::texts(spec.url_paths@)),
                version: json::picked(item, text::texts(spec.version_paths@)),
            },
        ),
        None => None,
    }
}

/// What is taken from the items that have an id, in their order.
pub open spec fn drafts(items: Seq<JsonView>, spec: PageSpec) -> Seq<Draft>
    decreases items.len(),
{
    if items.len() == 0 {
        Seq::empty()
    } else {
        let before = drafts(items.drop_last(), spec);
        match draft(items.last(), spec) {
            Some(draft) => before.push(draft),
            None => before,
        }
    }
}

/// The versions of the drafts that have one, in their order.
pub open spec fn draft_versions(list: Seq<Draft>) -> Seq<(Seq<char>, Seq<char>)>
    decreases list.len(),
{
    if list.len() == 0 {
        Seq::empty()
    } else {
        let before = draft_versions(list.drop_last());
        match list.last().version {
            Some(version) => before.push((list.last().item_id, version)),
            None => before,
        }
    }
}

/// Whether `record` has, but for its body, what was taken from an item.
pub open spec fn names_draft(record: ConnectorRecord, draft: Draft) -> bool {
    &&& record.item_id@ == draft.item_id
    &&& record.title@ == draft.title
    &&& text::string_view(record.mime) == Some("text/plain"@)
    &&& text::string_view(record.url) == draft.url
    &&& record.updated_at_ms is None
    &&& record.tags@.len() == 0
}

/// Whether `record` is the record of what was taken from an item.
pub open spec fn record_of<F: Fn(&str) -> String>(
    record: ConnectorRecord,
    draft: Draft,
    clean: bool,
    clean_body: F,
) -> bool {
    names_draft(record, draft) && body_of(draft.raw, clean, clean_body, record.content@)
}

/// Whether `page` holds the records and versions of a payload.
pub open spec fn holds_items<F: Fn(&str) -> String>(
    page: ProviderPage,
    payload: JsonView,
    spec: PageSpec,
    clean_body: F,
) -> bool {
    let list = drafts(json::elements_found(payload, text::texts(spec.item_pointers@)), spec);
    &&& page.records@.len() == list.len()
    &&& forall|i: int|
        0 <= i < list.len() ==> record_of(
            #[trigger] page.records@[i],
            list[i],
            spec.clean_bodies,
            clean_body,
        )
    &&& run::pairs(page.versions@) == draft_versions(list)
}

/// Whether `page` holds the records and versions of a payload whose bodies are only trimmed and
/// cut.
pub open spec fn holds_plain_items(page: ProviderPage, payload: JsonView, spec: PageSpec) -> bool {
    let list = drafts(json::elements_found(payload, text::texts(spec.item_pointers@)), spec);
    &&& page.records@.len() == list.len()
    &&& forall|i: int|
        0 <= i < list.len() ==> names_draft(#[trigger] page.records@[i], list[i])
            && page.records@[i].content@ == text::shortened(
            text::trimmed(list[i].raw),
            MAX_BODY_CHARS as nat,
        )
    &&& run::pairs(page.versions@) == draft_versions(list)
}

/// Where a payload itself says that the next page starts.
pub open spec fn payload_cursor(payload: JsonView, paging: Paging) -> Option<Seq<char>> {
    match paging {
        Paging::Token { next } => json::token_found(payload, text::texts(next@)),
        Paging::PageInfo { page_info } => json::end_cursor_found(payload, text::texts(page_info@)),
        Paging::Numbered { .. } => None,
    }
}

/// How many items `payload` holds under the spec's pointers.
///
/// Counted before any item is dropped for want of an id: whether a page came back full is a
/// question about the provider's page, not the records kept.
pub fn item_count(payload: &Json, spec: &PageSpec) -> (count: usize)
    ensures
        count == json::elements_found(payload@, text::texts(spec.item_pointers@)).len(),
{
    let items = json::first_array(payload, spec.item_pointers);
    assert(items@.len() == json::views(items@).len());
    items.len()
}

/// Turn a provider payload into a page.
///
/// An item with no derivable id is dropped: the id is the dedupe key, and a record without one
/// re-ingests as new on every run, filling the user's memory with copies of the same thing.
pub fn page_from<F: Fn(&str) -> String>(payload: &Json, spec: &PageSpec, clean_body: &F) -> (page:
    ProviderPage)
    requires
        spec.clean_bodies ==> forall|raw: &str| clean_body.requires((raw,)),
    ensures
        holds_items(page, payload@, *spec, *clean_body),
        text::string_view(page.next_cursor) == payload_cursor(payload@, spec.paging),
        page.requests_used == 1,
{
    let items = json::first_array(payload, spec.item_pointers);
    let ghost says = json::views(items@);
    let mut records: Vec<ConnectorRecord> = Vec::new();
    let mut versions: Vec<(String, String)> = Vec::new();
    assert(drafts(says.take(0), *spec) == Seq::<Draft>::empty());
    assert(run::pairs(versions@) == draft_versions(Seq::empty()));
    let mut i: usize = 0;
    while i < items.len()
        invariant
            i <= items@.len(),
            says == json::views(items@),
            spec.clean_bodies ==> forall|raw: &str| clean_body.requires((raw,)),
            records@.len() == drafts(says.take(i as int), *spec).len(),
            forall|k: int|
                0 <= k < records@.len() ==> record_of(
                    #[trigger] records@[k],
                    drafts(says.take(i as int), *spec)[k],
                    spec.clean_bodies,
                    *clean_body,
                ),
            run::pairs(versions@) == draft_versions(drafts(says.take(i as int), *spec)),
        decreases items@.len() - i,
    {
        let item = &items[i];
        let ghost before = drafts(says.take(i as int), *spec);
        assert(says.take(i + 1).drop_last() == says.take(i as int));
        assert(says.take(i + 1).last() == item@);
        i += 1;
        if let Some(item_id) = json::pick_str(item, spec.id_paths) {
            let version = json::pick_str(item, spec.version_paths);
            let title = json::pick_str(item, spec.title_paths);
            // Falls back to the whole item: a record with no recognizable body field still
            // carries something an agent can read, which beats ingesting an empty one.
            let raw = match json::pick_str(item, spec.content_paths) {
                Some(raw) => raw,
                None => item.to_text(),
            };
            let content = body(raw.as_str(), spec.clean_bodies, clean_body);
            let url = json::pick_str(item, spec.url_paths);
            let ghost taken = draft(item@, *spec)->0;
            assert(drafts(says.take(i as int), *spec) == before.push(taken));
            assert(before.push(taken).drop_last() == before);
            let ghost old_versions = versions@;
            if let Some(version) = version {
                versions.push((item_id.clone(), version));
                assert(run::pairs(versions@) == run::pairs(old_versions).push(
                    (taken.item_id, taken.version->0),
                ));
            }
            records.push(
                ConnectorRecord {
                    item_id,
                    title: match title {
                        Some(title) => title,
                        None => String::new(),
                    },
                    content,
                    mime: Some("text/plain".to_owned()),
                    url,
                    updated_at_ms: None,
                    tags: Vec::new(),
                },
            );
        }
    }
    assert(says.take(i as int) == says);
    let next_cursor = match spec.paging {
        Paging::Token { next } => json::token_at(payload, next),
        Paging::PageInfo { page_info } => json::end_cursor(payload, page_info),
        // Decided by the read, which knows the page it asked for.
        Paging::Numbered { .. } => None,
    };
    ProviderPage { records, versions, next_cursor, requests_used: 1 }
}

/// Where the page after the one that `payload` holds starts.
pub open spec fn cursor_after(
    payload: JsonView,
    spec: PageSpec,
    page_size: usize,
    number: Option<u32>,
) -> Option<Seq<char>> {
    match (number, spec.paging) {
        (Some(number), Paging::Numbered { first, reachable, last_page }) => match number_after(
            number,
            first,
            reachable,
            json::elements_found(payload, text::texts(spec.item_pointers@)).len(),
            page_size,
            json::flag_found(payload, text::texts(last_page@)),
        ) {
            Some(next) => Some(text::decimal(next as nat)),
            None => None,
        },
        _ => payload_cursor(payload, spec.paging),
    }
}

/// Read the answer to a page request: the records it holds, and where the page after it starts.
pub fn page_read<F: Fn(&str) -> String>(
    payload: &Json,
    spec: &PageSpec,
    page_size: usize,
    number: Option<u32>,
    clean_body: &F,
) -> (page: ProviderPage)
    requires
        spec.clean_bodies ==> forall|raw: &str| clean_body.requires((raw,)),
    ensures
        holds_items(page, payload@, *spec, *clean_body),
        text::string_view(page.next_cursor) == cursor_after(payload@, *spec, page_size, number),
        page.requests_used == 1,
{
    let mut page = page_from(payload, spec, clean_body);
    if let (Some(number), Paging::Numbered { first, reachable, last_page }) = (
        number,
        spec.paging,
    ) {
        let next = next_page_number(
            number,
            first,
            reachable,
            item_count(payload, spec),
            page_size,
            json::flag_at(payload, last_page),
        );
        page.next_cursor = match next {
            Some(next) => Some(text::decimal_text(next as u64)),
            None => None,
        };
    }
    page
}

/// Read the answer to a page request. A request that failed fails the page.
pub fn page_reply<F: Fn(&str) -> String>(
    reply: Result<Json, Error>,
    spec: &PageSpec,
    page_size: usize,
    number: Option<u32>,
    clean_body: &F,
) -> (result: Result<ProviderPage, Error>)
    requires
        spec.clean_bodies ==> forall|raw: &str| clean_body.requires((raw,)),
    ensures
        match reply {
            Ok(payload) => result is Ok && holds_items(
                result->Ok_0,
                payload@,
                *spec,
                *clean_body,
            ) && text::string_view(result->Ok_0.next_cursor) == cursor_after(
                payload@,
                *spec,
                page_size,
                number,
            ) && result->Ok_0.requests_used == 1,
            Err(error) => result == Err::<ProviderPage, Error>(error),
        },
{
    match reply {
        Ok(payload) => Ok(page_read(&payload, spec, page_size, number, clean_body)),
        Err(error) => Err(error),
    }
}

// ---- laws ----

/// The cursor that a numbered page reports is read back as the page it names.
pub proof fn numbered_cursor_reads_back(number: u32, first: u32)
    requires
        number >= first,
    ensures
        numbered_page(Some(text::decimal(number as nat)), first) == number,
{
    let cursor = text::decimal(number as nat);
    text::decimal_is_digits(number as nat);
    text::decimal_parses(number as nat, u32::MAX as nat);
    assert(text::is_digit(cursor[0]) && text::is_digit(cursor.last()));
    text::trimmed_of_bare(cursor);
}

/// A numbered walk never reads a page before the first.
pub proof fn numbered_page_not_before_first(cursor: Option<Seq<char>>, first: u32)
    ensures
        numbered_page(cursor, first) >= first,
{
}

/// A numbered walk only moves on, one page at a time, and asks for no page past the results that
/// the provider serves.
pub proof fn numbered_walk_moves_on(
    page: u32,
    first: u32,
    reachable: Option<u32>,
    items: nat,
    page_size: usize,
    last: Option<bool>,
)
    requires
        page >= first,
    ensures
        number_after(page, first, reachable, items, page_size, last) matches Some(next) ==> {
            &&& next == page + 1
            &&& items > 0
            &&& last != Some(true)
            &&& reachable is Some ==> (next - first) * page_size < reachable->0
        },
{
}

/// A page with nothing on it is the last, whatever its flag says.
pub proof fn empty_page_is_last(
    page: u32,
    first: u32,
    reachable: Option<u32>,
    page_size: usize,
    last: Option<bool>,
)
    ensures
        number_after(page, first, reachable, 0, page_size, last) is None,
{
}

/// A page read asks for at least one item, and for no more than a hundred or than the run can use.
pub proof fn page_size_is_bounded(max_items: usize)
    ensures
        1 <= page_size_for(max_items) <= 100,
        max_items >= 1 ==> page_size_for(max_items) <= max_items,
{
}

/// The GitHub window narrows the query that is there: the query it leaves starts with it, and no
/// other argument is touched. Where there is no query it adds none.
pub proof fn github_window_only_narrows(arguments: JsonView, now: int, days: u32)
    ensures
        ({
            let after = windowed(DepthWindow::GithubUpdatedSince, arguments, now, days);
            match json::member(arguments, "q"@) {
                Some(JsonView::Text(query)) => {
                    &&& json::member(after, "q"@) matches Some(JsonView::Text(narrowed))
                    &&& query.is_prefix_of(narrowed)
                    &&& query.len() < narrowed.len()
                    &&& forall|name: Seq<char>|
                        name != "q"@ ==> #[trigger] json::member(after, name) == json::member(
                            arguments,
                            name,
                        )
                },
                _ => after == arguments,
            }
        }),
{
    if let Some(JsonView::Text(query)) = json::member(arguments, "q"@) {
        let narrowed = query + " "@ + updated_since(now, days);
        reveal_strlit(" ");
        assert(narrowed.subrange(0, query.len() as int) == query);
    }
}

/// A toolkit without a window reads without a lower bound, whatever the limits say, and so does a
/// run without a bound.
pub proof fn no_window_no_bound(
    limits: SyncLimits,
    cursor: Option<Seq<char>>,
    spec: PageSpec,
    this_read: Seq<(Seq<char>, JsonView)>,
    now: int,
)
    requires
        spec.depth_window is None || limits.depth_days is None,
    ensures
        request_arguments(limits, cursor, spec, this_read, now) == JsonView::Object(
            unbounded_arguments(limits.max_items, cursor, spec, this_read),
        ),
{
}

/// A page keeps no more records than it has items, and every record has an id that is not blank.
pub proof fn records_have_ids(items: Seq<JsonView>, spec: PageSpec)
    ensures
        drafts(items, spec).len() <= items.len(),
        forall|i: int|
            0 <= i < drafts(items, spec).len() ==> (#[trigger] drafts(items, spec)[i]).item_id.len()
                > 0,
    decreases items.len(),
{
    if items.len() > 0 {
        records_have_ids(items.drop_last(), spec);
        json::picked_is_trimmed(items.last(), text::texts(spec.id_paths@));
    }
}

/// Every version that a page reports is the version of one of its records.
pub proof fn versions_belong_to_records(list: Seq<Draft>)
    ensures
        draft_versions(list).len() <= list.len(),
        forall|i: int|
            0 <= i < draft_versions(list).len() ==> exists|k: int|
                0 <= k < list.len() && (#[trigger] list[k]).item_id == (
                #[trigger] draft_versions(list)[i]).0 && list[k].version == Some(
                    draft_versions(list)[i].1,
                ),
    decreases list.len(),
{
    if list.len() > 0 {
        let before = list.drop_last();
        versions_belong_to_records(before);
        assert forall|i: int| 0 <= i < draft_versions(list).len() implies exists|k: int|
            0 <= k < list.len() && (#[trigger] list[k]).item_id == (
            #[trigger] draft_versions(list)[i]).0 && list[k].version == Some(
                draft_versions(list)[i].1,
            ) by {
            if i < draft_versions(before).len() {
                assert(draft_versions(list)[i] == draft_versions(before)[i]);
                let k = choose|k: int|
                    0 <= k < before.len() && (#[trigger] before[k]).item_id == draft_versions(
                        before,
                    )[i].0 && before[k].version == Some(draft_versions(before)[i].1);
                assert(list[k] == before[k]);
            } else {
                assert(list[list.len() - 1] == list.last());
            }
        }
    }
}

} // verus!
